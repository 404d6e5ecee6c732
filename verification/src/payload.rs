//! The payload trust pipeline: parse an untrusted JSON document, verify the
//! outer certificate against the trusted keys, then verify each inner
//! message certificate; produce a trusted payload or a typed error.
//!
//! Every signature is checked over the canonical JSON bytes of the subtree
//! the certificate authenticates, exactly as the sender computed them.

use vstd::prelude::*;

verus! {

use crate::crypto::{b64_of, b64_parse, canon_of, depth_bounded, ed_pub_valid, ed_public_of, ed_sign, ed_verify, PublicKey};
use crate::message::{Certificate, CertificateView, Envelope, EnvelopeView};
use crate::parse::{envs_at, parse_document, parse_envelopes, shell_at};
use crate::wire::{ser_contents, ser_envelopes, ser_payload};

/// Why an untrusted payload was rejected.
#[derive(Debug, Clone, PartialEq, Eq)]
pub enum UntrustedPayloadError {
    /// A public key in the payload or a message certificate is malformed.
    MalformedPublicKey,
    /// The public key of the payload certificate is not trusted.
    PublicKeyNotTrusted,
    /// The document, or a subtree of it, is not parseable JSON.
    CannotParseJson,
    /// The payload certificate does not verify.
    CannotVerify,
}

/// A received payload whose outer certificate has not been checked yet.
/// The `envelopes` subtree is kept as the raw received bytes, so that
/// signature verification happens over what the sender actually signed.
pub struct UntrustedPayload {
    pub certificate: Certificate,
    pub envelopes_raw: Vec<u8>,
}

/// A payload whose outer certificate verified against a trusted key.
/// Envelopes whose inner message certificate did not verify are dropped
/// and counted in `unverified_messages_count`.
pub struct TrustedPayload {
    pub public_key: PublicKey,
    pub certificate: Certificate,
    pub envelopes: Vec<Envelope>,
    pub unverified_messages_count: usize,
}

/// The decoded public key of a certificate, when its text is base64 for a
/// valid 32-byte key.
pub open spec fn decoded_key(key_text: Seq<char>) -> Option<Seq<u8>> {
    match b64_parse(key_text) {
        Some(k) => if k.len() == 32 && ed_pub_valid(k) {
            Some(k)
        } else {
            None
        },
        None => None,
    }
}

/// Whether key bytes occur among the trusted keys.
pub open spec fn is_trusted(k: Seq<u8>, trusted: Seq<Seq<u8>>) -> bool {
    exists|i: int| 0 <= i < trusted.len() && trusted[i] == k
}

/// Whether a signature text verifies over the given bytes under a key.
pub open spec fn sig_ok(k: Seq<u8>, bytes: Seq<u8>, sig_text: Seq<char>) -> bool {
    b64_parse(sig_text) matches Some(s) && s.len() == 64 && ed_verify(k, bytes, s)
}

/// Whether a message's certificate verifies over the canonical bytes of
/// the message contents' wire form (whose depth is in bounds, as every
/// wire-form contents object is).
pub open spec fn msg_verified(m: crate::message::MessageView) -> bool {
    &&& decoded_key(m.certificate.key) is Some
    &&& depth_bounded(ser_contents(m.contents))
    &&& canon_of(ser_contents(m.contents)) matches Some(cb) && sig_ok(
        decoded_key(m.certificate.key)->Some_0,
        cb,
        m.certificate.signature,
    )
}

/// The inner-certificate pass over parsed envelopes, in order: propagate a
/// malformed inner key or an uncanonicalizable contents subtree as an
/// error; keep envelopes whose inner signature verifies; count and drop
/// the rest.
pub open spec fn env_filter(es: Seq<EnvelopeView>) -> Result<
    (Seq<EnvelopeView>, nat),
    UntrustedPayloadError,
>
    decreases es.len(),
{
    if es.len() == 0 {
        Ok((Seq::empty(), 0))
    } else {
        let m = es[0].message;
        match decoded_key(m.certificate.key) {
            None => Err(UntrustedPayloadError::MalformedPublicKey),
            Some(k) => if !depth_bounded(ser_contents(m.contents)) {
                Err(UntrustedPayloadError::CannotParseJson)
            } else {
                match canon_of(ser_contents(m.contents)) {
                None => Err(UntrustedPayloadError::CannotParseJson),
                Some(cb) => match env_filter(es.drop_first()) {
                    Err(e) => Err(e),
                    Ok((kept, n)) => if sig_ok(k, cb, m.certificate.signature) {
                        Ok((seq![es[0]] + kept, n))
                    } else {
                        Ok((kept, n + 1))
                    },
                },
                }
            },
        }
    }
}

/// What the trust attempt returns for an untrusted payload, as a function
/// of its certificate, the raw envelope bytes and the trusted keys: the
/// kept envelopes, the count of dropped ones, and the sender key bytes;
/// or the error, exactly as specified.
#[verifier::opaque]
pub open spec fn trust_spec(c: CertificateView, raw: Seq<u8>, trusted: Seq<Seq<u8>>) -> Result<
    (Seq<EnvelopeView>, nat, Seq<u8>),
    UntrustedPayloadError,
> {
    match decoded_key(c.key) {
        None => Err(UntrustedPayloadError::MalformedPublicKey),
        Some(k) => if !is_trusted(k, trusted) {
            Err(UntrustedPayloadError::PublicKeyNotTrusted)
        } else if !depth_bounded(raw) {
            Err(UntrustedPayloadError::CannotParseJson)
        } else {
            match canon_of(raw) {
                None => Err(UntrustedPayloadError::CannotParseJson),
                Some(cb) => if !sig_ok(k, cb, c.signature) {
                    Err(UntrustedPayloadError::CannotVerify)
                } else {
                    match envs_at(raw, 0) {
                        Some((es, j)) => if j == raw.len() {
                            match env_filter(es) {
                                Ok((kept, n)) => Ok((kept, n, k)),
                                Err(e) => Err(e),
                            }
                        } else {
                            Err(UntrustedPayloadError::CannotParseJson)
                        },
                        None => Err(UntrustedPayloadError::CannotParseJson),
                    }
                },
            }
        },
    }
}

/// The certificate and raw envelope bytes a received document parses to:
/// a document already in the canonical wire shape is taken as it stands;
/// any other JSON formatting is canonicalized first and the canonical
/// form parsed. `None` when neither parse succeeds.
pub open spec fn parsed_doc(body: Seq<u8>) -> Option<(CertificateView, Seq<u8>)> {
    if shell_at(body) is Some {
        shell_at(body)
    } else if !depth_bounded(body) {
        None
    } else {
        match canon_of(body) {
            Some(cb) => shell_at(cb),
            None => None,
        }
    }
}

impl UntrustedPayload {
    /// Parse a payload document: the canonical wire shape directly, and
    /// any other JSON formatting through canonicalization (so key order,
    /// whitespace and escape style do not matter). The `envelopes`
    /// subtree is kept as received — canonicalization is compositional,
    /// so on the canonicalized path the kept subtree is the canonical
    /// form of the received one, which is what its signature covers.
    /// Fails with `CannotParseJson` exactly when neither parse succeeds.
    pub fn from_json(json_bytes: &[u8]) -> (r: Result<Self, UntrustedPayloadError>)
        ensures
            match r {
                Ok(u) => parsed_doc(json_bytes@) == Some((u.certificate@, u.envelopes_raw@)),
                Err(e) => e == UntrustedPayloadError::CannotParseJson && (parsed_doc(json_bytes@)
                    is None),
            },
    {
        match parse_document(json_bytes) {
            Some(p) => Ok(
                UntrustedPayload { certificate: p.certificate, envelopes_raw: p.envelopes_raw },
            ),
            None => {
                if !crate::crypto::check_depth(json_bytes) {
                    return Err(UntrustedPayloadError::CannotParseJson);
                }
                let canonical = match crate::crypto::canonical_json(json_bytes) {
                    Some(cb) => cb,
                    None => {
                        return Err(UntrustedPayloadError::CannotParseJson);
                    },
                };
                match parse_document(canonical.as_slice()) {
                    Some(p) => Ok(
                        UntrustedPayload {
                            certificate: p.certificate,
                            envelopes_raw: p.envelopes_raw,
                        },
                    ),
                    None => Err(UntrustedPayloadError::CannotParseJson),
                }
            },
        }
    }

    /// Attempt to trust this payload: decode the certificate key, check it
    /// against the trusted keys, verify the outer signature over the
    /// canonical bytes of the raw `envelopes` subtree, then parse the
    /// envelopes and verify each inner message certificate over the
    /// canonical bytes of its contents subtree.
    #[verifier::rlimit(100)]
    #[verifier::spinoff_prover]
    pub fn try_trust(self, trusted_public_keys: &Vec<PublicKey>) -> (r: Result<
        TrustedPayload,
        UntrustedPayloadError,
    >)
        ensures
            match r {
                Ok(tp) => trust_spec(
                    self.certificate@,
                    self.envelopes_raw@,
                    trusted_public_keys.deep_view(),
                ) == Ok::<_, UntrustedPayloadError>(
                    (
                        tp.envelopes.deep_view(),
                        tp.unverified_messages_count as nat,
                        tp.public_key@,
                    ),
                ) && tp.public_key.wf() && tp.certificate@ == self.certificate@,
                Err(e) => trust_spec(
                    self.certificate@,
                    self.envelopes_raw@,
                    trusted_public_keys.deep_view(),
                ) == Err::<(Seq<EnvelopeView>, nat, Seq<u8>), _>(e),
            },
    {
        proof {
            reveal(trust_spec);
        }
        let claimed_public_key = match PublicKey::new_from_b64(self.certificate.key.as_str()) {
            Ok(k) => k,
            Err(_) => {
                return Err(UntrustedPayloadError::MalformedPublicKey);
            },
        };
        if !key_is_trusted(&claimed_public_key, trusted_public_keys) {
            return Err(UntrustedPayloadError::PublicKeyNotTrusted);
        }
        assert(is_trusted(claimed_public_key@, trusted_public_keys.deep_view()));
        if !crate::crypto::check_depth(self.envelopes_raw.as_slice()) {
            return Err(UntrustedPayloadError::CannotParseJson);
        }
        let canon_bytes = match crate::crypto::canonical_json(self.envelopes_raw.as_slice()) {
            Some(cb) => cb,
            None => {
                return Err(UntrustedPayloadError::CannotParseJson);
            },
        };
        if !claimed_public_key.verify(canon_bytes.as_slice(), self.certificate.signature.as_str())
        {
            return Err(UntrustedPayloadError::CannotVerify);
        }
        let (parsed, end) = match parse_envelopes(self.envelopes_raw.as_slice(), 0) {
            Some(x) => x,
            None => {
                return Err(UntrustedPayloadError::CannotParseJson);
            },
        };
        if end != self.envelopes_raw.len() {
            return Err(UntrustedPayloadError::CannotParseJson);
        }
        match filter_envelopes(parsed) {
            Ok((envelopes, unverified)) => Ok(
                TrustedPayload {
                    public_key: claimed_public_key,
                    certificate: self.certificate,
                    envelopes,
                    unverified_messages_count: unverified,
                },
            ),
            Err(e) => Err(e),
        }
    }
}

/// Whether the key occurs among the trusted keys.
fn key_is_trusted(key: &PublicKey, trusted: &Vec<PublicKey>) -> (r: bool)
    ensures
        r == is_trusted(key@, trusted.deep_view()),
{
    let n_keys = trusted.len();
    let mut ki: usize = 0;
    let mut found = false;
    while ki < n_keys
        invariant
            n_keys == trusted@.len(),
            ki <= n_keys,
            found == (exists|t: int| 0 <= t < ki && trusted.deep_view()[t] == key@),
        decreases n_keys - ki,
    {
        proof {
            assert(trusted.deep_view()[ki as int] == trusted@[ki as int]@);
        }
        if trusted[ki].same_key(key) {
            found = true;
        }
        ki += 1;
    }
    found
}

/// The inner-certificate pass: keep envelopes whose message certificate
/// verifies over the canonical bytes of the contents' wire form, count
/// and drop the rest, and propagate hard errors in order.
#[verifier::rlimit(100)]
#[verifier::spinoff_prover]
fn filter_envelopes(parsed: Vec<Envelope>) -> (r: Result<
    (Vec<Envelope>, usize),
    UntrustedPayloadError,
>)
    ensures
        match r {
            Ok((kept, n)) => env_filter(parsed.deep_view()) == Ok::<_, UntrustedPayloadError>(
                (kept.deep_view(), n as nat),
            ),
            Err(e) => env_filter(parsed.deep_view()) == Err::<(Seq<EnvelopeView>, nat), _>(e),
        },
{
    let ghost dv = parsed.deep_view();
    let mut envelopes: Vec<Envelope> = Vec::new();
    let mut unverified: usize = 0;
    let n_envs = parsed.len();
    let mut idx: usize = 0;
    proof {
        assert(dv.skip(0) =~= dv);
        if env_filter(dv) is Ok {
            let (kept, n) = env_filter(dv)->Ok_0;
            assert(envelopes.deep_view() + kept =~= kept);
        }
    }
    loop
        invariant
            idx <= n_envs == parsed@.len(),
            dv == parsed.deep_view(),
            unverified <= idx,
            match env_filter(dv.skip(idx as int)) {
                Ok((kept, n)) => env_filter(dv) == Ok::<_, UntrustedPayloadError>(
                    (envelopes.deep_view() + kept, (unverified + n) as nat),
                ),
                Err(e) => env_filter(dv) == Err::<(Seq<EnvelopeView>, nat), _>(e),
            },
        decreases n_envs - idx,
    {
        let ghost tail = dv.skip(idx as int);
        if idx >= n_envs {
            assert(tail.len() == 0);
            assert(env_filter(tail) == Ok::<_, UntrustedPayloadError>(
                (Seq::<EnvelopeView>::empty(), 0nat),
            ));
            assert(envelopes.deep_view() + Seq::<EnvelopeView>::empty() =~= envelopes.deep_view());
            return Ok((envelopes, unverified));
        }
        let envelope = &parsed[idx];
        assert(tail[0] == dv[idx as int]);
        assert(tail.drop_first() =~= dv.skip(idx + 1));
        let inner_key = match PublicKey::new_from_b64(envelope.message.certificate.key.as_str()) {
            Ok(k) => k,
            Err(_) => {
                assert(env_filter(tail) == Err::<(Seq<EnvelopeView>, nat), _>(
                    UntrustedPayloadError::MalformedPublicKey,
                ));
                return Err(UntrustedPayloadError::MalformedPublicKey);
            },
        };
        let contents_wire = crate::wire::contents_bytes(&envelope.message.contents);
        if !crate::crypto::check_depth(contents_wire.as_slice()) {
            assert(env_filter(tail) == Err::<(Seq<EnvelopeView>, nat), _>(
                UntrustedPayloadError::CannotParseJson,
            ));
            return Err(UntrustedPayloadError::CannotParseJson);
        }
        let contents_canon = match crate::crypto::canonical_json(contents_wire.as_slice()) {
            Some(cb) => cb,
            None => {
                assert(env_filter(tail) == Err::<(Seq<EnvelopeView>, nat), _>(
                    UntrustedPayloadError::CannotParseJson,
                ));
                return Err(UntrustedPayloadError::CannotParseJson);
            },
        };
        let ok = inner_key.verify(
            contents_canon.as_slice(),
            envelope.message.certificate.signature.as_str(),
        );
        if ok {
            let ghost env0 = envelopes.deep_view();
            envelopes.push(envelope.duplicate());
            proof {
                assert(envelopes.deep_view() =~= env0.push(dv[idx as int]));
                if env_filter(dv.skip(idx + 1)) is Ok {
                    let (kept, n) = env_filter(dv.skip(idx + 1))->Ok_0;
                    assert(env_filter(tail) == Ok::<_, UntrustedPayloadError>(
                        (seq![tail[0]] + kept, n),
                    ));
                    assert(env0.push(dv[idx as int]) + kept =~= env0 + (seq![tail[0]] + kept));
                }
            }
        } else {
            proof {
                if env_filter(dv.skip(idx + 1)) is Ok {
                    let (kept, n) = env_filter(dv.skip(idx + 1))->Ok_0;
                    assert(env_filter(tail) == Ok::<_, UntrustedPayloadError>((kept, n + 1)));
                }
            }
            unverified = unverified + 1;
        }
        idx += 1;
    }
}

impl TrustedPayload {    /// The sender's decoded public key.
    pub fn public_key(&self) -> (r: &PublicKey)
        ensures
            r == self.public_key,
    {
        &self.public_key
    }

    /// The outer certificate as received.
    pub fn certificate(&self) -> (r: &Certificate)
        ensures
            r == self.certificate,
    {
        &self.certificate
    }

    /// The envelopes whose inner certificate verified, in received order.
    pub fn envelopes(&self) -> (r: &Vec<Envelope>)
        ensures
            r == self.envelopes,
    {
        &self.envelopes
    }

    /// How many envelopes were dropped for an unverifiable inner
    /// certificate.
    pub fn unverified_messages_count(&self) -> (r: usize)
        ensures
            r == self.unverified_messages_count,
    {
        self.unverified_messages_count
    }
}


/// Why an outgoing payload could not be created.
#[derive(Debug, Clone, PartialEq, Eq)]
pub enum CreatePayloadError {
    /// The envelopes could not be canonicalized for signing.
    CannotEncodeMessage,
}

/// The outer certificate this relay writes on a payload: its public key
/// and its signature over the canonical envelope bytes, both in base64.
pub open spec fn out_cert(sk: Seq<u8>, cb: Seq<u8>) -> CertificateView {
    CertificateView { key: b64_of(ed_public_of(sk)), signature: b64_of(ed_sign(sk, cb)) }
}

/// What a relay emits, its own parser maps back: the document built
/// around certificate `c` and envelopes `es` parses to exactly `c`, the
/// raw envelope bytes, and `es`. Together with the signing wrapper's
/// guarantee that a relay's own signatures verify, this is the round-trip
/// fidelity of signing.
pub proof fn lemma_wire_round_trip(c: CertificateView, es: Seq<EnvelopeView>)
    ensures
        shell_at(ser_payload(c, es)) == Some((c, ser_envelopes(es))),
        envs_at(ser_envelopes(es), 0) == Some((es, ser_envelopes(es).len() as int)),
{
    crate::parse::lemma_shell_at_image(ser_payload(c, es), c, ser_envelopes(es));
    let raw = ser_envelopes(es);
    assert(raw.subrange(0, raw.len() as int) =~= raw);
    crate::parse::lemma_envs_at_image(raw, 0, es);
}

/// Round-trip fidelity of signing, composed: a payload whose certificate
/// decodes to a trusted key, whose signature verifies over the canonical
/// envelope bytes, whose raw bytes parse back to envelopes `es`, and whose
/// inner certificates all verify, is trusted back to exactly `es` with
/// nothing dropped. The hypotheses are exactly what `create_payload` and
/// the signing wrappers establish for a payload this relay created.
pub proof fn lemma_trust_accepts_own(
    c: CertificateView,
    raw: Seq<u8>,
    trusted: Seq<Seq<u8>>,
    k: Seq<u8>,
    cb: Seq<u8>,
    es: Seq<EnvelopeView>,
)
    requires
        decoded_key(c.key) == Some(k),
        is_trusted(k, trusted),
        depth_bounded(raw),
        canon_of(raw) == Some(cb),
        sig_ok(k, cb, c.signature),
        envs_at(raw, 0) == Some((es, raw.len() as int)),
        forall|i: int| 0 <= i < es.len() ==> msg_verified(#[trigger] es[i].message),
    ensures
        trust_spec(c, raw, trusted) == Ok::<_, UntrustedPayloadError>((es, 0nat, k)),
{
    reveal(trust_spec);
    lemma_env_filter_all_verified(es);
}

/// Every envelope a successful trust attempt hands out has a verified
/// inner certificate.
pub proof fn lemma_trusted_envelopes_verified(
    c: CertificateView,
    raw: Seq<u8>,
    trusted: Seq<Seq<u8>>,
    kept: Seq<EnvelopeView>,
    n: nat,
    k: Seq<u8>,
)
    requires
        trust_spec(c, raw, trusted) == Ok::<_, UntrustedPayloadError>((kept, n, k)),
    ensures
        forall|i: int| 0 <= i < kept.len() ==> msg_verified((#[trigger] kept[i]).message),
{
    reveal(trust_spec);
    let (es, j) = envs_at(raw, 0)->Some_0;
    lemma_env_filter_sound(es);
}

/// Round-trip fidelity of signing, whole: a payload document this relay
/// created from envelopes whose inner certificates all verify parses back
/// and, with the creator's key among the trusted ones, is trusted back to
/// exactly those envelopes with nothing dropped.
pub proof fn lemma_created_payload_trusts_back(
    sk: Seq<u8>,
    es: Seq<EnvelopeView>,
    bytes: Seq<u8>,
    trusted: Seq<Seq<u8>>,
)
    requires
        crate::mailroom::created_payload(sk, es, bytes),
        is_trusted(ed_public_of(sk), trusted),
        forall|i: int| 0 <= i < es.len() ==> msg_verified((#[trigger] es[i]).message),
    ensures
        ({
            let cb = canon_of(ser_envelopes(es))->Some_0;
            let c = out_cert(sk, cb);
            &&& shell_at(bytes) == Some((c, ser_envelopes(es)))
            &&& parsed_doc(bytes) == Some((c, ser_envelopes(es)))
            &&& trust_spec(c, ser_envelopes(es), trusted) == Ok::<_, UntrustedPayloadError>(
                (es, 0nat, ed_public_of(sk)),
            )
        }),
{
    reveal(crate::mailroom::created_payload);
    let cb = canon_of(ser_envelopes(es))->Some_0;
    let c = out_cert(sk, cb);
    lemma_wire_round_trip(c, es);
    lemma_trust_accepts_own(c, ser_envelopes(es), trusted, ed_public_of(sk), cb, es);
}

/// Round-trip fidelity of signing, for every reachable mailroom: the
/// payload document a well-formed mailroom builds in one tick — its
/// buffers hold only verified messages, which `Mailroom::wf` carries —
/// parses back and, with the relay's own key among the trusted ones, is
/// trusted back to exactly the envelopes it was created from, with
/// nothing dropped and the relay's key as the sender.
pub proof fn lemma_round_trip_from_mailroom<E>(
    pre: crate::mailroom::MailroomView,
    post: crate::mailroom::MailroomView,
    dest: Seq<u8>,
    config: crate::mailroom::OutgoingConfig,
    es: Seq<EnvelopeView>,
    secret: Seq<u8>,
    bytes: Seq<u8>,
    trusted: Seq<Seq<u8>>,
    now: u64,
)
    requires
        crate::mailroom::buffers_ok(pre),
        crate::mailroom::current_ok(pre.current_message, pre.secret_key),
        crate::mailroom::outgoing_post(
            pre,
            post,
            dest,
            config,
            Ok::<(Seq<EnvelopeView>, Seq<u8>), crate::mailroom::MailroomError<E>>((es, secret)),
            now,
        ),
        crate::mailroom::created_payload(pre.secret_key, es, bytes),
        is_trusted(ed_public_of(pre.secret_key), trusted),
    ensures
        ({
            let cb = canon_of(ser_envelopes(es))->Some_0;
            let c = out_cert(pre.secret_key, cb);
            &&& parsed_doc(bytes) == Some((c, ser_envelopes(es)))
            &&& trust_spec(c, ser_envelopes(es), trusted) == Ok::<_, UntrustedPayloadError>(
                (es, 0nat, ed_public_of(pre.secret_key)),
            )
        }),
{
    crate::mailroom::lemma_outgoing_envelopes_verified::<E>(
        pre,
        post,
        dest,
        config,
        es,
        secret,
        now,
    );
    lemma_created_payload_trusts_back(pre.secret_key, es, bytes, trusted);
}

/// Envelopes whose inner certificates all verify pass the inner pass
/// untouched: nothing is dropped and nothing is counted.
pub proof fn lemma_env_filter_all_verified(es: Seq<EnvelopeView>)
    requires
        forall|i: int| 0 <= i < es.len() ==> msg_verified(#[trigger] es[i].message),
    ensures
        env_filter(es) == Ok::<_, UntrustedPayloadError>((es, 0nat)),
    decreases es.len(),
{
    if es.len() == 0 {
        assert(env_filter(es) == Ok::<_, UntrustedPayloadError>((Seq::<EnvelopeView>::empty(), 0nat)));
        assert(es =~= Seq::<EnvelopeView>::empty());
    } else {
        assert(msg_verified(es[0].message));
        assert(forall|i: int|
            0 <= i < es.drop_first().len() ==> msg_verified(#[trigger] es.drop_first()[i].message));
        lemma_env_filter_all_verified(es.drop_first());
        assert(seq![es[0]] + es.drop_first() =~= es);
    }
}

/// Every envelope a trust attempt admits has a verified inner
/// certificate, and admitted envelopes keep their received order.
pub proof fn lemma_env_filter_sound(es: Seq<EnvelopeView>)
    requires
        env_filter(es) is Ok,
    ensures
        forall|i: int|
            0 <= i < env_filter(es)->Ok_0.0.len() ==> msg_verified(
                (#[trigger] env_filter(es)->Ok_0.0[i]).message,
            ),
    decreases es.len(),
{
    if es.len() > 0 {
        if env_filter(es.drop_first()) is Ok {
            lemma_env_filter_sound(es.drop_first());
            let (kept, n) = env_filter(es.drop_first())->Ok_0;
            let m = es[0].message;
            if decoded_key(m.certificate.key) is Some && canon_of(ser_contents(m.contents))
                is Some && sig_ok(
                decoded_key(m.certificate.key)->Some_0,
                canon_of(ser_contents(m.contents))->Some_0,
                m.certificate.signature,
            ) {
                assert(msg_verified(es[0].message));
                assert(forall|i: int|
                    0 <= i < (seq![es[0]] + kept).len() ==> msg_verified(
                        (#[trigger] (seq![es[0]] + kept)[i]).message,
                    ));
            }
        }
    }
}

} // verus!
