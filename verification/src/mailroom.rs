//! The per-period mailroom state machine. It owns the relay's secret key,
//! a line source and the archive; it tracks the messages newly admitted
//! this period and the forwarding buffers for this and the previous
//! period, and produces outgoing envelope lists on demand.
//!
//! Wall-clock instants are Unix seconds; `flatten_time` projects an
//! instant onto its period key, and the period length in seconds is the
//! distance between adjacent period keys.

use vstd::prelude::*;

verus! {

use crate::archive::Archive;
use crate::crypto::{b64_of, b64_parse, canon_of, check_depth, depth_bounded, ed_public_of, ed_sign, PublicKey, SecretKey};
use crate::lines::{drawn_entry, DrawnView, GetNextLine};
use crate::message::{
    Certificate, Envelope, EnvelopeView, Message, MessageContents, MessageView,
};
use crate::payload::{msg_verified, CreatePayloadError, out_cert, TrustedPayload};
use crate::wire::{ser_contents, ser_envelopes, ser_payload};

/// Hops a freshly originated envelope may travel, unless configured.
pub const DEFAULT_INITIAL_TTL: u8 = 8;

/// Cap applied to the remaining hops of a forwarded envelope, unless
/// configured.
pub const DEFAULT_MAX_FORWARDING_TTL: u8 = 8;

/// Why the mailroom refused an operation.
#[derive(Debug)]
pub enum MailroomError<E> {
    /// A payload from this sender key was already admitted this period.
    AlreadyReceivedFromKey,
    /// The archive failed; the operation was aborted.
    ArchiveFailure(E),
}

/// When and how strongly this relay originates and forwards.
#[derive(Debug, Clone, Copy, PartialEq, Eq)]
pub struct OutgoingConfig {
    pub send_on_minute: Option<u32>,
    pub initial_ttl: u8,
    pub max_forwarding_ttl: u8,
}

impl OutgoingConfig {
    /// A configuration; unset TTLs fall back to the defaults.
    pub fn new(
        send_on_minute: Option<u32>,
        custom_initial_ttl: Option<u8>,
        custom_max_forwarding_ttl: Option<u8>,
    ) -> (r: Self)
        ensures
            r.send_on_minute == send_on_minute,
            r.initial_ttl == custom_initial_ttl.unwrap_or(DEFAULT_INITIAL_TTL),
            r.max_forwarding_ttl == custom_max_forwarding_ttl.unwrap_or(DEFAULT_MAX_FORWARDING_TTL),
    {
        OutgoingConfig {
            send_on_minute,
            initial_ttl: match custom_initial_ttl {
                Some(t) => t,
                None => DEFAULT_INITIAL_TTL,
            },
            max_forwarding_ttl: match custom_max_forwarding_ttl {
                Some(t) => t,
                None => DEFAULT_MAX_FORWARDING_TTL,
            },
        }
    }
}

impl Default for OutgoingConfig {
    /// Originate on minute zero with the default TTLs.
    fn default() -> (r: Self)
        ensures
            r.send_on_minute == Some(0u32),
            r.initial_ttl == DEFAULT_INITIAL_TTL,
            r.max_forwarding_ttl == DEFAULT_MAX_FORWARDING_TTL,
    {
        OutgoingConfig {
            send_on_minute: Some(0),
            initial_ttl: DEFAULT_INITIAL_TTL,
            max_forwarding_ttl: DEFAULT_MAX_FORWARDING_TTL,
        }
    }
}

/// The projection of an instant onto its period key: the greatest multiple
/// of the period length not above the instant.
pub open spec fn flatten_time(t: u64, period: u64) -> u64
    recommends
        period > 0,
{
    (t - (t as int % period as int)) as u64
}

/// The minute-of-hour of an instant, from Unix seconds.
pub open spec fn minute_of(t: u64) -> u64 {
    (t / 60) % 60
}

/// Whether this tick is one on which the relay originates a message.
pub open spec fn sends_this_tick(now: u64, config: OutgoingConfig) -> bool {
    match config.send_on_minute {
        None => true,
        Some(m) => minute_of(now) == m as u64,
    }
}

/// The mathematical state of a [`Mailroom`]: keys as byte sequences,
/// buffers as sequences, the archive as its set of signatures.
pub struct MailroomView {
    pub secret_key: Seq<u8>,
    pub period: u64,
    pub new_messages: Seq<MessageView>,
    pub forwarding_this: Seq<(Seq<u8>, Seq<EnvelopeView>)>,
    pub forwarding_last: Seq<(Seq<u8>, Seq<EnvelopeView>)>,
    pub current_message: Option<MessageView>,
    pub last_seen: Option<u64>,
    pub last_updated_message: Option<u64>,
    pub archived: Set<Seq<char>>,
    pub drawn: DrawnView,
}

/// The period rotation at a flattened instant `nf`: entering a fresh
/// adjacent period moves this period's forwarding buffer into last
/// period's place; a longer gap or a clock step backwards clears both;
/// within the same period nothing moves. `last_seen` becomes `nf`.
pub open spec fn rotate(v: MailroomView, nf: u64) -> MailroomView {
    match v.last_seen {
        Some(t) => if nf != t {
            if nf > t && nf - t == v.period {
                MailroomView {
                    forwarding_last: v.forwarding_this,
                    forwarding_this: Seq::empty(),
                    new_messages: Seq::empty(),
                    last_seen: Some(nf),
                    ..v
                }
            } else {
                MailroomView {
                    forwarding_last: Seq::empty(),
                    forwarding_this: Seq::empty(),
                    new_messages: Seq::empty(),
                    last_seen: Some(nf),
                    ..v
                }
            }
        } else {
            MailroomView { last_seen: Some(nf), ..v }
        },
        None => MailroomView { last_seen: Some(nf), ..v },
    }
}

/// Whether the time step regenerates the current message: only on a
/// sending tick, and only once per period.
pub open spec fn regenerates(v: MailroomView, nf: u64, is_sending: bool) -> bool {
    is_sending && v.last_updated_message != Some(nf)
}

/// A message this relay signed itself: the certificate key is the base64
/// of our public key, the signature is our signature over the canonical
/// bytes of the contents' wire form, and both decode back (so such a
/// message verifies: see [`lemma_own_signed_verified`]).
pub open spec fn own_signed(m: MessageView, sk: Seq<u8>) -> bool {
    &&& m.certificate.key == b64_of(ed_public_of(sk))
    &&& b64_parse(m.certificate.key) == Some(ed_public_of(sk))
    &&& ed_public_of(sk).len() == 32
    &&& crate::crypto::ed_pub_valid(ed_public_of(sk))
    &&& depth_bounded(ser_contents(m.contents))
    &&& canon_of(ser_contents(m.contents)) matches Some(cb) && {
        &&& m.certificate.signature == b64_of(ed_sign(sk, cb))
        &&& b64_parse(m.certificate.signature) == Some(ed_sign(sk, cb))
        &&& ed_sign(sk, cb).len() == 64
        &&& crate::crypto::ed_verify(ed_public_of(sk), cb, ed_sign(sk, cb))
    }
}

/// A message this relay signed itself passes the inner-certificate check.
pub proof fn lemma_own_signed_verified(m: MessageView, sk: Seq<u8>)
    requires
        own_signed(m, sk),
    ensures
        msg_verified(m),
{
}

/// Whether a forwarding buffer holds an entry for this sender key.
pub open spec fn has_sender(buf: Seq<(Seq<u8>, Seq<EnvelopeView>)>, key: Seq<u8>) -> bool {
    exists|i: int| 0 <= i < buf.len() && buf[i].0 == key
}

/// Whether a message (by value) is among the given messages.
pub open spec fn has_msg(ms: Seq<MessageView>, m: MessageView) -> bool {
    exists|i: int| 0 <= i < ms.len() && ms[i] == m
}

/// The admission state threaded through one received payload: the archive
/// signatures, the messages admitted this period, and the envelopes to be
/// forwarded for this sender.
pub struct AdmitState {
    pub arch: Set<Seq<char>>,
    pub new_msgs: Seq<MessageView>,
    pub kept: Seq<EnvelopeView>,
}

/// One envelope's admission: an envelope already seen this period is
/// forwarded again only from its first sender, a message not yet archived
/// is admitted and forwarded, an archived one is dropped; an envelope out
/// of hops is dropped. The envelope is archived regardless.
pub open spec fn admit_step(st: AdmitState, e: EnvelopeView) -> AdmitState {
    let arch2 = st.arch.insert(e.message.certificate.signature);
    if e.ttl == 0 {
        AdmitState { arch: arch2, ..st }
    } else if has_msg(st.new_msgs, e.message) {
        AdmitState { arch: arch2, kept: st.kept.push(e), ..st }
    } else if !st.arch.contains(e.message.certificate.signature) {
        AdmitState {
            arch: arch2,
            new_msgs: st.new_msgs.push(e.message),
            kept: st.kept.push(e),
        }
    } else {
        AdmitState { arch: arch2, ..st }
    }
}

/// The admission of a whole payload's envelopes, in order.
pub open spec fn admit_all(st: AdmitState, es: Seq<EnvelopeView>) -> AdmitState
    decreases es.len(),
{
    if es.len() == 0 {
        st
    } else {
        admit_all(admit_step(st, es[0]), es.drop_first())
    }
}

/// One forwarded envelope, prepared for a destination: hops decrease and
/// are capped, and our key joins the forwarding log.
pub open spec fn forward_one(e: EnvelopeView, our_key_b64: Seq<char>, config: OutgoingConfig) -> EnvelopeView {
    EnvelopeView {
        forwarded: e.forwarded.push(our_key_b64),
        ttl: if config.max_forwarding_ttl < (e.ttl - 1) as u8 {
            config.max_forwarding_ttl
        } else {
            (e.ttl - 1) as u8
        },
        message: e.message,
    }
}

/// Whether a forwarded envelope survives for this destination: it must
/// have hops to spare, and never return to the author of its message.
pub open spec fn forward_keeps(e: EnvelopeView, dest: Seq<u8>, config: OutgoingConfig) -> bool {
    &&& e.ttl >= 1
    &&& forward_one(e, Seq::empty(), config).ttl >= 1
    &&& e.message.certificate.key != b64_of(dest)
}

/// The envelopes of one buffer entry, prepared for a destination.
pub open spec fn forward_envs(
    es: Seq<EnvelopeView>,
    dest: Seq<u8>,
    our_key_b64: Seq<char>,
    config: OutgoingConfig,
) -> Seq<EnvelopeView>
    decreases es.len(),
{
    if es.len() == 0 {
        Seq::empty()
    } else {
        let rest = forward_envs(es.drop_first(), dest, our_key_b64, config);
        if forward_keeps(es[0], dest, config) {
            seq![forward_one(es[0], our_key_b64, config)] + rest
        } else {
            rest
        }
    }
}

/// Everything forwarded to a destination in one tick: last period's
/// buffers, skipping what this destination itself delivered.
pub open spec fn forward_all(
    buf: Seq<(Seq<u8>, Seq<EnvelopeView>)>,
    dest: Seq<u8>,
    our_key_b64: Seq<char>,
    config: OutgoingConfig,
) -> Seq<EnvelopeView>
    decreases buf.len(),
{
    if buf.len() == 0 {
        Seq::empty()
    } else {
        let head = if buf[0].0 == dest {
            Seq::empty()
        } else {
            forward_envs(buf[0].1, dest, our_key_b64, config)
        };
        head + forward_all(buf.drop_first(), dest, our_key_b64, config)
    }
}

/// Relies on `chrono::Utc::now`: the current wall-clock time as Unix
/// seconds. Nothing can be promised of the clock.
#[verifier::external_body]
fn now_timestamp() -> (r: i64) {
    chrono::Utc::now().timestamp()
}

/// Relies on `uuid::Uuid::new_v4` and its hyphenated printing: a fresh
/// random RFC 4122 identifier, 36 characters long. Random, so only the
/// shape is stated.
#[verifier::external_body]
fn uuid_v4_hyphenated() -> (r: String)
    ensures
        r@.len() == 36,
{
    uuid::Uuid::new_v4().hyphenated().to_string()
}

/// An instant clamped to Unix seconds at or after the epoch.
pub fn clamp_time(t: i64) -> (r: u64)
    ensures
        t >= 0 ==> r == t,
        t < 0 ==> r == 0,
{
    if t < 0 {
        0
    } else {
        t as u64
    }
}

/// The envelopes prepared for one destination, together with the secret
/// key that will sign the payload around them.
#[derive(Clone)]
pub struct OutgoingEnvelopes {
    pub envelopes: Vec<Envelope>,
    pub secret_key: SecretKey,
}

impl OutgoingEnvelopes {
    /// The envelope views carried along.
    pub closed spec fn env_views(&self) -> Seq<EnvelopeView> {
        self.envelopes.deep_view()
    }

    /// The carried envelope views are the views of the `envelopes` field.
    pub proof fn lemma_env_views(&self)
        ensures
            self.env_views() == self.envelopes.deep_view(),
    {
    }

    /// The secret key bytes carried along.
    pub closed spec fn secret(&self) -> Seq<u8> {
        self.secret_key@
    }

    /// Whether the carried key is a well-formed secret key.
    pub closed spec fn wf(&self) -> bool {
        self.secret_key.wf()
    }
}

/// The per-period state machine of one relay.
pub struct Mailroom<L: GetNextLine, A: Archive> {
    line_generator: L,
    archive: A,
    secret_key: SecretKey,
    period_secs: u64,
    new_messages: Vec<Message>,
    forwarding_received_this_period: Vec<(PublicKey, Vec<Envelope>)>,
    forwarding_received_last_period: Vec<(PublicKey, Vec<Envelope>)>,
    current_message: Option<Message>,
    last_seen_time: Option<u64>,
    last_updated_message_time: Option<u64>,
}

impl<L: GetNextLine, A: Archive> View for Mailroom<L, A> {
    type V = MailroomView;

    closed spec fn view(&self) -> MailroomView {
        MailroomView {
            secret_key: self.secret_key@,
            period: self.period_secs,
            new_messages: self.new_messages.deep_view(),
            forwarding_this: Seq::new(
                self.forwarding_received_this_period@.len(),
                |i: int|
                    (
                        self.forwarding_received_this_period@[i].0@,
                        self.forwarding_received_this_period@[i].1.deep_view(),
                    ),
            ),
            forwarding_last: Seq::new(
                self.forwarding_received_last_period@.len(),
                |i: int|
                    (
                        self.forwarding_received_last_period@[i].0@,
                        self.forwarding_received_last_period@[i].1.deep_view(),
                    ),
            ),
            current_message: match self.current_message {
                Some(m) => Some(m@),
                None => None,
            },
            last_seen: self.last_seen_time,
            last_updated_message: self.last_updated_message_time,
            archived: self.archive.archived(),
            drawn: self.line_generator.drawn(),
        }
    }
}

/// The parts of the state a time step never touches.
pub open spec fn same_statics(a: MailroomView, b: MailroomView) -> bool {
    a.secret_key == b.secret_key && a.period == b.period
}

/// The state after the rotation at `nf` when no regeneration happens.
pub open spec fn time_only(v: MailroomView, nf: u64) -> MailroomView {
    rotate(v, nf)
}

/// Whether every message buffered for forwarding carries a verified
/// inner certificate: receipt admits only verified envelopes, so this is
/// an invariant of the mailroom.
pub open spec fn buffers_ok(v: MailroomView) -> bool {
    &&& forall|k: int, j: int|
        0 <= k < v.forwarding_this.len() && 0 <= j < v.forwarding_this[k].1.len()
            ==> msg_verified((#[trigger] v.forwarding_this[k].1[j]).message)
    &&& forall|k: int, j: int|
        0 <= k < v.forwarding_last.len() && 0 <= j < v.forwarding_last[k].1.len()
            ==> msg_verified((#[trigger] v.forwarding_last[k].1[j]).message)
}

impl<L: GetNextLine, A: Archive> Mailroom<L, A> {
    /// A well-formed mailroom: a 32-byte secret key, a positive period, a
    /// current message (if any) that the mailroom signed itself, and
    /// forwarding buffers holding only messages with verified inner
    /// certificates.
    pub open spec fn wf(&self) -> bool {
        &&& self@.secret_key.len() == 32
        &&& self@.period > 0
        &&& current_ok(self@.current_message, self@.secret_key)
        &&& buffers_ok(self@)
    }

    /// A mailroom with the production period of one hour.
    pub fn new(line_generator: L, archive: A, secret_key: SecretKey) -> (r: Result<
        Self,
        MailroomError<A::Error>,
    >)
        requires
            secret_key.wf(),
        ensures
            r matches Ok(m) && m.wf() && m@ == initial_view(
                secret_key@,
                3600,
                archive.archived(),
                line_generator.drawn(),
            ),
    {
        Self::new_internal(line_generator, archive, secret_key, 3600)
    }

    /// A mailroom with a custom period length in seconds.
    pub fn new_with_custom_time(
        line_generator: L,
        archive: A,
        secret_key: SecretKey,
        period_secs: u64,
    ) -> (r: Result<Self, MailroomError<A::Error>>)
        requires
            secret_key.wf(),
            period_secs > 0,
        ensures
            r matches Ok(m) && m.wf() && m@ == initial_view(
                secret_key@,
                period_secs,
                archive.archived(),
                line_generator.drawn(),
            ),
    {
        Self::new_internal(line_generator, archive, secret_key, period_secs)
    }

    fn new_internal(
        line_generator: L,
        archive: A,
        secret_key: SecretKey,
        period_secs: u64,
    ) -> (r: Result<Self, MailroomError<A::Error>>)
        requires
            secret_key.wf(),
            period_secs > 0,
        ensures
            r matches Ok(m) && m.wf() && m@ == initial_view(
                secret_key@,
                period_secs,
                archive.archived(),
                line_generator.drawn(),
            ),
    {
        let mailroom = Mailroom {
            line_generator,
            archive,
            secret_key,
            period_secs,
            new_messages: Vec::new(),
            forwarding_received_this_period: Vec::new(),
            forwarding_received_last_period: Vec::new(),
            current_message: None,
            last_seen_time: None,
            last_updated_message_time: None,
        };
        proof {
            assert(mailroom@.forwarding_this =~= Seq::<(Seq<u8>, Seq<EnvelopeView>)>::empty());
            assert(mailroom@.forwarding_last =~= Seq::<(Seq<u8>, Seq<EnvelopeView>)>::empty());
            assert(mailroom@.new_messages =~= Seq::<MessageView>::empty());
        }
        Ok(mailroom)
    }
}

/// The state of a freshly built mailroom.
pub open spec fn initial_view(
    sk: Seq<u8>,
    period: u64,
    archived: Set<Seq<char>>,
    drawn: DrawnView,
) -> MailroomView {
    MailroomView {
        secret_key: sk,
        period,
        new_messages: Seq::empty(),
        forwarding_this: Seq::empty(),
        forwarding_last: Seq::empty(),
        current_message: None,
        last_seen: None,
        last_updated_message: None,
        archived,
        drawn,
    }
}


/// What the current message may be after a regeneration: nothing, or a
/// message this relay signed itself.
pub open spec fn current_ok(m: Option<MessageView>, sk: Seq<u8>) -> bool {
    match m {
        None => true,
        Some(mv) => own_signed(mv, sk),
    }
}

/// The tie between a draw and the message built from it: a contributed
/// message carries exactly the drawn line and author.
pub open spec fn drawn_current_ok(
    d: Option<(Seq<char>, Seq<char>)>,
    m: Option<MessageView>,
) -> bool {
    match m {
        None => true,
        Some(mv) => d matches Some((line, author)) && mv.contents.line == line
            && mv.contents.author == author,
    }
}

/// The contract of one time step at flattened instant `nf`: rotation of
/// the period-scoped buffers, and at most one message regeneration per
/// period on sending ticks.
pub open spec fn time_post(
    pre: MailroomView,
    post: MailroomView,
    nf: u64,
    is_sending: bool,
) -> bool {
    let v1 = rotate(pre, nf);
    &&& same_statics(pre, post)
    &&& post.archived == pre.archived
    &&& post.forwarding_this == v1.forwarding_this
    &&& post.forwarding_last == v1.forwarding_last
    &&& post.new_messages == v1.new_messages
    &&& post.last_seen == Some(nf)
    &&& if regenerates(pre, nf, is_sending) {
        &&& post.last_updated_message == Some(nf)
        &&& current_ok(post.current_message, pre.secret_key)
        &&& exists|d: Option<(Seq<char>, Seq<char>)>|
            post.drawn == pre.drawn.push(d) && #[trigger] drawn_current_ok(
                d,
                post.current_message,
            )
    } else {
        &&& post.last_updated_message == pre.last_updated_message
        &&& post.current_message == pre.current_message
        &&& post.drawn == pre.drawn
    }
}

impl<L: GetNextLine, A: Archive> Mailroom<L, A> {
    /// Apply one time step: rotate the period buffers at the flattened
    /// instant and, on a sending tick not yet served this period, draw a
    /// fresh current message from the line source.
    fn handle_time(&mut self, now: u64, is_sending: bool)
        requires
            old(self).wf(),
        ensures
            final(self).wf(),
            time_post(old(self)@, final(self)@, flatten_time(now, old(self)@.period), is_sending),
    {
        let m = now % self.period_secs;
        proof {
            assert(m <= now) by (nonlinear_arith)
                requires
                    m == now % self.period_secs,
                    self.period_secs > 0,
            ;
        }
        let nf = now - m;
        let ghost pre = self@;
        match self.last_seen_time {
            Some(t) => {
                if nf != t {
                    if nf > t && nf - t == self.period_secs {
                        core::mem::swap(
                            &mut self.forwarding_received_this_period,
                            &mut self.forwarding_received_last_period,
                        );
                        self.forwarding_received_this_period = Vec::new();
                        self.new_messages = Vec::new();
                    } else {
                        self.forwarding_received_this_period = Vec::new();
                        self.forwarding_received_last_period = Vec::new();
                        self.new_messages = Vec::new();
                    }
                }
            },
            None => {},
        }
        self.last_seen_time = Some(nf);
        proof {
            let v1 = rotate(pre, nf);
            assert(self@.forwarding_this =~= v1.forwarding_this);
            assert(self@.forwarding_last =~= v1.forwarding_last);
            assert(self@.new_messages =~= v1.new_messages);
        }
        let regenerate = is_sending && match self.last_updated_message_time {
            Some(t) => t != nf,
            None => true,
        };
        if regenerate {
            self.set_new_message();
            self.last_updated_message_time = Some(nf);
        }
    }

    /// Draw the next line from the line source and sign it into a fresh
    /// message; without a line (or with contents that cannot be
    /// canonicalized) the relay has nothing to contribute this period.
    fn set_new_message(&mut self)
        requires
            old(self).wf(),
        ensures
            final(self).wf(),
            final(self)@ == (MailroomView {
                current_message: final(self)@.current_message,
                drawn: final(self)@.drawn,
                ..old(self)@
            }),
            current_ok(final(self)@.current_message, old(self)@.secret_key),
            exists|d: Option<(Seq<char>, Seq<char>)>|
                final(self)@.drawn == old(self)@.drawn.push(d) && #[trigger] drawn_current_ok(
                    d,
                    final(self)@.current_message,
                ),
    {
        let next = self.line_generator.get_next_line();
        let ghost d = drawn_entry(next);
        match next {
            None => {
                self.current_message = None;
            },
            Some(next_line) => {
                let uuid = uuid_v4_hyphenated();
                let contents = MessageContents {
                    uuid,
                    author: next_line.author,
                    line: next_line.line,
                };
                let contents_wire = crate::wire::contents_bytes(&contents);
                if !check_depth(contents_wire.as_slice()) {
                    self.current_message = None;
                    proof {
                        assert(final(self)@ == MailroomView {
                            current_message: final(self)@.current_message,
                            drawn: final(self)@.drawn,
                            ..old(self)@
                        });
                        assert(final(self)@.drawn == old(self)@.drawn.push(d));
                        assert(drawn_current_ok(d, final(self)@.current_message));
                    }
                    return;
                }
                match crate::crypto::canonical_json(contents_wire.as_slice()) {
                    None => {
                        self.current_message = None;
                    },
                    Some(canon_bytes) => {
                        let signature = self.secret_key.sign_b64(canon_bytes.as_slice());
                        let key = self.secret_key.public_key().to_string();
                        self.current_message = Some(
                            Message { certificate: Certificate { key, signature }, contents },
                        );
                    },
                }
            },
        }
        proof {
            assert(final(self)@ == MailroomView {
                current_message: final(self)@.current_message,
                drawn: final(self)@.drawn,
                ..old(self)@
            });
            assert(final(self)@.drawn == old(self)@.drawn.push(d));
            assert(drawn_current_ok(d, final(self)@.current_message));
        }
    }
}


/// The contract of receiving one trusted payload at instant `now`: after
/// the time step, a sender already heard from this period is refused with
/// no further change; otherwise the payload's envelopes are admitted in
/// order and recorded under the sender's key. An archive failure aborts
/// with the period state unchanged (staged, not committed).
#[verifier::opaque]
pub open spec fn receive_post<E>(
    pre: MailroomView,
    post: MailroomView,
    sender: Seq<u8>,
    envs: Seq<EnvelopeView>,
    r: Result<(), MailroomError<E>>,
    now: u64,
) -> bool {
    let nf = flatten_time(now, pre.period);
    let v1 = rotate(pre, nf);
    &&& same_statics(pre, post)
    &&& post.last_seen == Some(nf)
    &&& post.current_message == pre.current_message
    &&& post.last_updated_message == pre.last_updated_message
    &&& post.drawn == pre.drawn
    &&& post.forwarding_last == v1.forwarding_last
    &&& match r {
        Err(MailroomError::AlreadyReceivedFromKey) => {
            &&& has_sender(v1.forwarding_this, sender)
            &&& post.forwarding_this == v1.forwarding_this
            &&& post.new_messages == v1.new_messages
            &&& post.archived == pre.archived
        },
        Ok(u) => {
            let st = admit_all(
                AdmitState { arch: pre.archived, new_msgs: v1.new_messages, kept: Seq::empty() },
                envs,
            );
            &&& !has_sender(v1.forwarding_this, sender)
            &&& post.archived == st.arch
            &&& post.new_messages == st.new_msgs
            &&& post.forwarding_this == v1.forwarding_this.push((sender, st.kept))
        },
        Err(MailroomError::ArchiveFailure(e)) => {
            &&& !has_sender(v1.forwarding_this, sender)
            &&& post.forwarding_this == v1.forwarding_this
            &&& post.new_messages == v1.new_messages
            &&& envs.len() > 0
        },
    }
}

impl<L: GetNextLine, A: Archive> Mailroom<L, A> {
    /// Admit a trusted payload at the current wall-clock instant.
    pub fn receive_payload(&mut self, payload: &TrustedPayload) -> (r: Result<
        (),
        MailroomError<A::Error>,
    >)
        requires
            old(self).wf(),
            forall|i: int|
                0 <= i < payload.envelopes@.len() ==> msg_verified(
                    (#[trigger] payload.envelopes.deep_view()[i]).message,
                ),
        ensures
            final(self).wf(),
            final(self)@.secret_key == old(self)@.secret_key,
            exists|now: u64|
                receive_post(
                    old(self)@,
                    final(self)@,
                    payload.public_key@,
                    payload.envelopes.deep_view(),
                    r,
                    now,
                ),
    {
        let now = clamp_time(now_timestamp());
        let r = self.receive_payload_at_time(payload, now);
        proof {
            assert(receive_post(
                old(self)@,
                self@,
                payload.public_key@,
                payload.envelopes.deep_view(),
                r,
                now,
            ));
        }
        r
    }

    /// Admit a trusted payload at a given instant (Unix seconds).
    pub fn receive_payload_at_time(&mut self, payload: &TrustedPayload, now: u64) -> (r: Result<
        (),
        MailroomError<A::Error>,
    >)
        requires
            old(self).wf(),
            forall|i: int|
                0 <= i < payload.envelopes@.len() ==> msg_verified(
                    (#[trigger] payload.envelopes.deep_view()[i]).message,
                ),
        ensures
            final(self).wf(),
            final(self)@.secret_key == old(self)@.secret_key,
            receive_post(
                old(self)@,
                final(self)@,
                payload.public_key@,
                payload.envelopes.deep_view(),
                r,
                now,
            ),
    {
        self.receive_payload_internal(payload, now)
    }

    /// A view into the archive this mailroom owns.
    pub fn archive_ref(&self) -> (r: &A)
        ensures
            r.archived() == self@.archived,
    {
        &self.archive
    }

    /// Whether this period's buffer already has an entry for the key.
    fn sender_known(&self, key: &PublicKey) -> (r: bool)
        ensures
            r == has_sender(self@.forwarding_this, key@),
    {
        let n = self.forwarding_received_this_period.len();
        let mut i: usize = 0;
        let mut found = false;
        while i < n
            invariant
                n == self.forwarding_received_this_period@.len(),
                i <= n,
                found == (exists|t: int|
                    0 <= t < i && self.forwarding_received_this_period@[t].0@ == key@),
            decreases n - i,
        {
            if self.forwarding_received_this_period[i].0.same_key(key) {
                proof {
                    assert(self.forwarding_received_this_period@[i as int].0@ == key@);
                }
                found = true;
            }
            i += 1;
        }
        proof {
            assert(self@.forwarding_this.len() == n);
            assert(forall|t: int|
                0 <= t < n ==> self@.forwarding_this[t].0
                    == self.forwarding_received_this_period@[t].0@);
            if found {
                let t = choose|t: int|
                    0 <= t < n && self.forwarding_received_this_period@[t].0@ == key@;
                assert(self@.forwarding_this[t].0 == key@);
            }
            if has_sender(self@.forwarding_this, key@) {
                let t = choose|t: int|
                    0 <= t < self@.forwarding_this.len() && self@.forwarding_this[t].0 == key@;
                assert(self.forwarding_received_this_period@[t].0@ == key@);
            }
        }
        found
    }

    #[verifier::rlimit(100)]
    #[verifier::spinoff_prover]
    #[verifier::loop_isolation(false)]
    fn receive_payload_internal(&mut self, payload: &TrustedPayload, now: u64) -> (r: Result<
        (),
        MailroomError<A::Error>,
    >)
        requires
            old(self).wf(),
            forall|i: int|
                0 <= i < payload.envelopes@.len() ==> msg_verified(
                    (#[trigger] payload.envelopes.deep_view()[i]).message,
                ),
        ensures
            final(self).wf(),
            final(self)@.secret_key == old(self)@.secret_key,
            receive_post(
                old(self)@,
                final(self)@,
                payload.public_key@,
                payload.envelopes.deep_view(),
                r,
                now,
            ),
    {
        proof {
            reveal(receive_post);
        }
        self.handle_time(now, false);
        let ghost v1 = self@;
        if self.sender_known(&payload.public_key) {
            return Err(MailroomError::AlreadyReceivedFromKey);
        }
        let ghost es = payload.envelopes.deep_view();
        let ghost st0 = AdmitState {
            arch: self@.archived,
            new_msgs: self@.new_messages,
            kept: Seq::empty(),
        };
        let mut staged: Vec<Message> = Vec::new();
        let mut kept: Vec<Envelope> = Vec::new();
        let n = payload.envelopes.len();
        let mut idx: usize = 0;
        proof {
            assert(es.skip(0) =~= es);
            assert(self@.new_messages + staged.deep_view() =~= self@.new_messages);
            assert(kept.deep_view() =~= Seq::<EnvelopeView>::empty());
        }
        while idx < n
            invariant
                idx <= n == payload.envelopes@.len(),
                es == payload.envelopes.deep_view(),
                self.wf(),
                self@ == (MailroomView { archived: self@.archived, ..v1 }),
                forall|t: int|
                    0 <= t < kept.deep_view().len() ==> msg_verified(
                        (#[trigger] kept.deep_view()[t]).message,
                    ),
                admit_all(
                    AdmitState {
                        arch: self@.archived,
                        new_msgs: v1.new_messages + staged.deep_view(),
                        kept: kept.deep_view(),
                    },
                    es.skip(idx as int),
                ) == admit_all(AdmitState { arch: v1.archived, new_msgs: v1.new_messages, kept: Seq::empty() }, es),
            decreases n - idx,
        {
            let ghost st_in = AdmitState {
                arch: self@.archived,
                new_msgs: v1.new_messages + staged.deep_view(),
                kept: kept.deep_view(),
            };
            let ghost tail = es.skip(idx as int);
            let envelope = &payload.envelopes[idx];
            assert(tail[0] == es[idx as int]);
            assert(tail.drop_first() =~= es.skip(idx + 1));
            let admitted: bool;
            if envelope.ttl == 0 {
                admitted = false;
            } else {
                let in_new = self.message_known(&envelope.message) || contains_message(
                    &staged,
                    &envelope.message,
                );
                proof {
                    assert(in_new == has_msg(st_in.new_msgs, es[idx as int].message)) by {
                        let combined = v1.new_messages + staged.deep_view();
                        if has_msg(self@.new_messages, es[idx as int].message) {
                            let t = choose|t: int|
                                0 <= t < self@.new_messages.len() && self@.new_messages[t] == es[
                                    idx as int
                                ].message;
                            assert(combined[t] == es[idx as int].message);
                        }
                        if has_msg(staged.deep_view(), es[idx as int].message) {
                            let t = choose|t: int|
                                0 <= t < staged.deep_view().len() && staged.deep_view()[t] == es[
                                    idx as int
                                ].message;
                            assert(combined[self@.new_messages.len() + t] == es[idx as int].message);
                        }
                        if has_msg(combined, es[idx as int].message) {
                            let t = choose|t: int|
                                0 <= t < combined.len() && combined[t] == es[idx as int].message;
                            if t < self@.new_messages.len() {
                                assert(self@.new_messages[t] == es[idx as int].message);
                            } else {
                                assert(staged.deep_view()[t - self@.new_messages.len()] == es[
                                    idx as int
                                ].message);
                            }
                        }
                    }
                }
                if in_new {
                    let ghost kept0 = kept.deep_view();
                    kept.push(envelope.duplicate());
                    proof {
                        assert(kept.deep_view() =~= kept0.push(es[idx as int]));
                        assert(msg_verified(es[idx as int].message));
                    }
                    admitted = true;
                } else {
                    let in_archive = match self.archive.is_message_in_archive(&envelope.message) {
                        Ok(b) => b,
                        Err(e) => {
                            proof {
                                assert(self@.forwarding_this =~= v1.forwarding_this);
                                assert(self@.forwarding_last =~= v1.forwarding_last);
                                assert(self@.new_messages =~= v1.new_messages);
                            }
                            return Err(MailroomError::ArchiveFailure(e));
                        },
                    };
                    if in_archive {
                        admitted = false;
                    } else {
                        staged.push(envelope.message.duplicate());
                        let ghost kept0 = kept.deep_view();
                        kept.push(envelope.duplicate());
                        proof {
                            assert(kept.deep_view() =~= kept0.push(es[idx as int]));
                            assert(msg_verified(es[idx as int].message));
                        }
                        admitted = true;
                    }
                }
            }
            match self.archive.add_envelope_to_archive(
                payload.certificate.key.as_str(),
                envelope,
            ) {
                Ok(u) => {},
                Err(e) => {
                    proof {
                        assert(self@.forwarding_this =~= v1.forwarding_this);
                        assert(self@.forwarding_last =~= v1.forwarding_last);
                        assert(self@.new_messages =~= v1.new_messages);
                    }
                    return Err(MailroomError::ArchiveFailure(e));
                },
            }
            proof {
                assert(admit_all(st_in, tail) == admit_all(
                    admit_step(st_in, es[idx as int]),
                    es.skip(idx + 1),
                ));
                assert(admit_step(st_in, es[idx as int]) == (AdmitState {
                    arch: self@.archived,
                    new_msgs: v1.new_messages + staged.deep_view(),
                    kept: kept.deep_view(),
                })) by {
                    assert(v1.new_messages + staged.deep_view() =~= admit_step(
                        st_in,
                        es[idx as int],
                    ).new_msgs);
                    assert(kept.deep_view() =~= admit_step(st_in, es[idx as int]).kept);
                }
            }
            idx += 1;
        }
        proof {
            assert(es.skip(n as int).len() == 0);
        }
        let ghost st_final = AdmitState {
            arch: self@.archived,
            new_msgs: v1.new_messages + staged.deep_view(),
            kept: kept.deep_view(),
        };
        let mut staged_mut = staged;
        self.new_messages.append(&mut staged_mut);
        self.forwarding_received_this_period.push((payload.public_key.duplicate(), kept));
        proof {
            assert(self@.new_messages =~= st_final.new_msgs);
            assert(self@.forwarding_this =~= v1.forwarding_this.push(
                (payload.public_key@, st_final.kept),
            ));
            assert(self@.forwarding_last =~= v1.forwarding_last);
            assert forall|k: int, j: int|
                0 <= k < self@.forwarding_this.len() && 0 <= j
                    < self@.forwarding_this[k].1.len() implies msg_verified(
                (#[trigger] self@.forwarding_this[k].1[j]).message,
            ) by {
                if k < v1.forwarding_this.len() {
                    assert(self@.forwarding_this[k] == v1.forwarding_this[k]);
                } else {
                    assert(self@.forwarding_this[k].1 == st_final.kept);
                }
            }
        }
        Ok(())
    }

    /// Whether the message is among this period's admitted messages.
    fn message_known(&self, message: &Message) -> (r: bool)
        ensures
            r == has_msg(self@.new_messages, message@),
    {
        contains_message(&self.new_messages, message)
    }
}

/// Whether a message (by value) occurs in the vector.
fn contains_message(ms: &Vec<Message>, message: &Message) -> (r: bool)
    ensures
        r == has_msg(ms.deep_view(), message@),
{
    let n = ms.len();
    let mut i: usize = 0;
    let mut found = false;
    while i < n
        invariant
            n == ms@.len(),
            i <= n,
            found == (exists|t: int| 0 <= t < i && ms.deep_view()[t] == message@),
        decreases n - i,
    {
        if ms[i].same_message(message) {
            proof {
                assert(ms.deep_view()[i as int] == message@);
            }
            found = true;
        }
        i += 1;
    }
    found
}


/// The envelope this relay originates on a sending tick, when it has a
/// current message.
pub open spec fn own_tail(m: Option<MessageView>, now: u64, config: OutgoingConfig) -> Seq<
    EnvelopeView,
> {
    if sends_this_tick(now, config) && m is Some {
        seq![
            EnvelopeView {
                forwarded: Seq::empty(),
                ttl: config.initial_ttl,
                message: m->Some_0,
            },
        ]
    } else {
        Seq::empty()
    }
}

/// The contract of building the outgoing envelopes for a destination at
/// instant `now`: after the time step, last period's buffers are forwarded
/// (destination's own deliveries and loopback envelopes skipped, hops
/// decreased and capped), and on a sending tick the current message is
/// archived and appended as a fresh envelope.
#[verifier::opaque]
pub open spec fn outgoing_post<E>(
    pre: MailroomView,
    post: MailroomView,
    dest: Seq<u8>,
    config: OutgoingConfig,
    r: Result<(Seq<EnvelopeView>, Seq<u8>), MailroomError<E>>,
    now: u64,
) -> bool {
    let nf = flatten_time(now, pre.period);
    let v1 = rotate(pre, nf);
    let sending = sends_this_tick(now, config);
    &&& same_statics(pre, post)
    &&& post.last_seen == Some(nf)
    &&& post.forwarding_this == v1.forwarding_this
    &&& post.forwarding_last == v1.forwarding_last
    &&& post.new_messages == v1.new_messages
    &&& if regenerates(pre, nf, sending) {
        &&& post.last_updated_message == Some(nf)
        &&& current_ok(post.current_message, pre.secret_key)
        &&& exists|d: Option<(Seq<char>, Seq<char>)>|
            post.drawn == pre.drawn.push(d) && #[trigger] drawn_current_ok(
                d,
                post.current_message,
            )
    } else {
        &&& post.last_updated_message == pre.last_updated_message
        &&& post.current_message == pre.current_message
        &&& post.drawn == pre.drawn
    }
    &&& match r {
        Ok((envs, secret)) => {
            &&& secret == pre.secret_key
            &&& envs == forward_all(
                v1.forwarding_last,
                dest,
                b64_of(ed_public_of(pre.secret_key)),
                config,
            ) + own_tail(post.current_message, now, config)
            &&& post.archived == if own_tail(post.current_message, now, config).len() > 0 {
                pre.archived.insert(
                    (post.current_message->Some_0).certificate.signature,
                )
            } else {
                pre.archived
            }
        },
        Err(MailroomError::ArchiveFailure(e)) => sending && post.current_message is Some,
        Err(MailroomError::AlreadyReceivedFromKey) => false,
    }
}

impl<L: GetNextLine, A: Archive> Mailroom<L, A> {
    /// Build the outgoing envelopes for a destination at the current
    /// wall-clock instant.
    pub fn get_outgoing(&mut self, sending_to: &PublicKey, outgoing_config: OutgoingConfig) -> (r:
        Result<OutgoingEnvelopes, MailroomError<A::Error>>)
        requires
            old(self).wf(),
        ensures
            final(self).wf(),
            exists|now: u64|
                outgoing_post(
                    old(self)@,
                    final(self)@,
                    sending_to@,
                    outgoing_config,
                    outgoing_result_view(r),
                    now,
                ),
            r matches Ok(out) ==> out.wf() && out.secret() == old(self)@.secret_key,
    {
        let now = clamp_time(now_timestamp());
        let r = self.get_outgoing_internal(sending_to, outgoing_config, now);
        proof {
            assert(outgoing_post(
                old(self)@,
                self@,
                sending_to@,
                outgoing_config,
                outgoing_result_view(r),
                now,
            ));
        }
        r
    }

    /// Build the outgoing envelopes for a destination at a given instant
    /// (Unix seconds).
    pub fn get_outgoing_at_time(
        &mut self,
        sending_to: &PublicKey,
        outgoing_config: OutgoingConfig,
        now: u64,
    ) -> (r: Result<OutgoingEnvelopes, MailroomError<A::Error>>)
        requires
            old(self).wf(),
        ensures
            final(self).wf(),
            outgoing_post(
                old(self)@,
                final(self)@,
                sending_to@,
                outgoing_config,
                outgoing_result_view(r),
                now,
            ),
            r matches Ok(out) ==> out.wf() && out.secret() == old(self)@.secret_key,
    {
        self.get_outgoing_internal(sending_to, outgoing_config, now)
    }

    #[verifier::rlimit(100)]
    #[verifier::spinoff_prover]
    #[verifier::loop_isolation(false)]
    fn get_outgoing_internal(
        &mut self,
        sending_to: &PublicKey,
        outgoing_config: OutgoingConfig,
        now: u64,
    ) -> (r: Result<OutgoingEnvelopes, MailroomError<A::Error>>)
        requires
            old(self).wf(),
        ensures
            final(self).wf(),
            outgoing_post(
                old(self)@,
                final(self)@,
                sending_to@,
                outgoing_config,
                outgoing_result_view(r),
                now,
            ),
            r matches Ok(out) ==> out.wf() && out.secret() == old(self)@.secret_key,
    {
        proof {
            reveal(outgoing_post);
        }
        let sending = message_this_minute(now, outgoing_config);
        self.handle_time(now, sending);
        let ghost v1 = self@;
        let our_key_b64 = self.secret_key.public_key().to_string();
        let ghost ourb = our_key_b64@;
        let dest_b64 = sending_to.to_string();
        let ghost buf = self@.forwarding_last;
        let mut sending_envelopes: Vec<Envelope> = Vec::new();
        let n = self.forwarding_received_last_period.len();
        let mut i: usize = 0;
        proof {
            assert(buf.skip(0) =~= buf);
            assert(sending_envelopes.deep_view() =~= Seq::<EnvelopeView>::empty());
        }
        while i < n
            invariant
                i <= n == self.forwarding_received_last_period@.len(),
                sending_envelopes.deep_view() + forward_all(
                    buf.skip(i as int),
                    sending_to@,
                    ourb,
                    outgoing_config,
                ) == forward_all(buf, sending_to@, ourb, outgoing_config),
            decreases n - i,
        {
            let ghost tail = buf.skip(i as int);
            proof {
                assert(tail[0] == buf[i as int]);
                assert(tail.drop_first() =~= buf.skip(i + 1));
                assert(buf[i as int].0 == self.forwarding_received_last_period@[i as int].0@);
                assert(buf[i as int].1 == self.forwarding_received_last_period@[
                    i as int
                ].1.deep_view());
            }
            let entry_key = &self.forwarding_received_last_period[i].0;
            if !entry_key.same_key(sending_to) {
                let entry_envs = &self.forwarding_received_last_period[i].1;
                let ghost es = entry_envs.deep_view();
                let m = entry_envs.len();
                let mut j: usize = 0;
                let ghost acc0 = sending_envelopes.deep_view();
                proof {
                    assert(es.skip(0) =~= es);
                }
                while j < m
                    invariant
                        j <= m == entry_envs@.len(),
                        es == entry_envs.deep_view(),
                        sending_envelopes.deep_view() + forward_envs(
                            es.skip(j as int),
                            sending_to@,
                            ourb,
                            outgoing_config,
                        ) == acc0 + forward_envs(es, sending_to@, ourb, outgoing_config),
                    decreases m - j,
                {
                    let ghost etail = es.skip(j as int);
                    proof {
                        assert(etail[0] == es[j as int]);
                        assert(etail.drop_first() =~= es.skip(j + 1));
                    }
                    let envelope = &entry_envs[j];
                    if envelope.ttl >= 1 {
                        let decreased = envelope.ttl - 1;
                        let new_ttl = if outgoing_config.max_forwarding_ttl < decreased {
                            outgoing_config.max_forwarding_ttl
                        } else {
                            decreased
                        };
                        if new_ttl >= 1 && !(envelope.message.certificate.key == dest_b64) {
                            let mut fresh = envelope.duplicate();
                            fresh.ttl = new_ttl;
                            fresh.forwarded.push(our_key_b64.clone());
                            let ghost acc_before = sending_envelopes.deep_view();
                            sending_envelopes.push(fresh);
                            proof {
                                assert(forward_keeps(es[j as int], sending_to@, outgoing_config));
                                assert(sending_envelopes.deep_view() =~= acc_before.push(
                                    forward_one(es[j as int], ourb, outgoing_config),
                                )) by {
                                    assert(sending_envelopes.deep_view().last().forwarded
                                        =~= es[j as int].forwarded.push(ourb));
                                }
                                assert(acc_before.push(
                                    forward_one(es[j as int], ourb, outgoing_config),
                                ) + forward_envs(es.skip(j + 1), sending_to@, ourb, outgoing_config)
                                    =~= acc_before + (seq![
                                    forward_one(es[j as int], ourb, outgoing_config),
                                ] + forward_envs(es.skip(j + 1), sending_to@, ourb, outgoing_config)));
                            }
                        } else {
                            proof {
                                assert(!forward_keeps(es[j as int], sending_to@, outgoing_config));
                            }
                        }
                    } else {
                        proof {
                            assert(!forward_keeps(es[j as int], sending_to@, outgoing_config));
                        }
                    }
                    j += 1;
                }
                proof {
                    assert(es.skip(m as int).len() == 0);
                    assert(forward_envs(
                        es.skip(m as int),
                        sending_to@,
                        ourb,
                        outgoing_config,
                    ) =~= Seq::<EnvelopeView>::empty());
                    assert(sending_envelopes.deep_view() =~= acc0 + forward_envs(
                        es,
                        sending_to@,
                        ourb,
                        outgoing_config,
                    ));
                }
            }
            i += 1;
        }
        proof {
            assert(buf.skip(n as int).len() == 0);
            assert(sending_envelopes.deep_view() =~= forward_all(
                buf,
                sending_to@,
                ourb,
                outgoing_config,
            ));
        }
        let ghost forwarded_part = sending_envelopes.deep_view();
        if sending {
            match &self.current_message {
                Some(current) => {
                    let message = current.duplicate();
                    let envelope = Envelope {
                        forwarded: Vec::new(),
                        ttl: outgoing_config.initial_ttl,
                        message,
                    };
                    match self.archive.add_envelope_to_archive(
                        envelope.message.certificate.key.as_str(),
                        &envelope,
                    ) {
                        Ok(u) => {},
                        Err(e) => {
                            return Err(MailroomError::ArchiveFailure(e));
                        },
                    }
                    let ghost acc_before = sending_envelopes.deep_view();
                    sending_envelopes.push(envelope);
                    proof {
                        assert(sending_envelopes.deep_view() =~= forwarded_part + own_tail(
                            self@.current_message,
                            now,
                            outgoing_config,
                        )) by {
                            assert(sending_envelopes.deep_view().last().forwarded
                                =~= Seq::<Seq<char>>::empty());
                        }
                    }
                },
                None => {
                    proof {
                        assert(own_tail(self@.current_message, now, outgoing_config)
                            =~= Seq::<EnvelopeView>::empty());
                        assert(sending_envelopes.deep_view() =~= forwarded_part + own_tail(
                            self@.current_message,
                            now,
                            outgoing_config,
                        ));
                    }
                },
            }
        } else {
            proof {
                assert(own_tail(self@.current_message, now, outgoing_config)
                    =~= Seq::<EnvelopeView>::empty());
                assert(sending_envelopes.deep_view() =~= forwarded_part + own_tail(
                    self@.current_message,
                    now,
                    outgoing_config,
                ));
            }
        }
        proof {
            assert(self@.forwarding_this =~= v1.forwarding_this);
            assert(self@.forwarding_last =~= v1.forwarding_last);
            assert(self@.new_messages =~= v1.new_messages);
        }
        Ok(OutgoingEnvelopes { envelopes: sending_envelopes, secret_key: self.secret_key.duplicate() })
    }
}

/// The mathematical value of an outgoing result: the envelope views and
/// the secret key bytes.
pub open spec fn outgoing_result_view<E>(
    r: Result<OutgoingEnvelopes, MailroomError<E>>,
) -> Result<(Seq<EnvelopeView>, Seq<u8>), MailroomError<E>> {
    match r {
        Ok(out) => Ok((out.env_views(), out.secret())),
        Err(e) => Err(e),
    }
}

/// Whether this tick is one on which the relay originates a message.
pub fn message_this_minute(now: u64, outgoing_config: OutgoingConfig) -> (r: bool)
    ensures
        r == sends_this_tick(now, outgoing_config),
{
    match outgoing_config.send_on_minute {
        None => true,
        Some(m) => (now / 60) % 60 == m as u64,
    }
}

/// A payload document as this relay signs and emits it: the canonical
/// bytes of the envelopes' wire form exist, the document is the wire form
/// of the relay's certificate over them around the envelopes, and the
/// certificate decodes back to a trusted-key check and a passing
/// signature check (so such a document trusts back: see
/// [`crate::payload::lemma_created_payload_trusts_back`]).
#[verifier::opaque]
pub open spec fn created_payload(sk: Seq<u8>, es: Seq<EnvelopeView>, bytes: Seq<u8>) -> bool {
    &&& depth_bounded(ser_envelopes(es))
    &&& canon_of(ser_envelopes(es)) matches Some(cb) && {
        &&& bytes == ser_payload(out_cert(sk, cb), es)
        &&& crate::payload::decoded_key(b64_of(ed_public_of(sk))) == Some(ed_public_of(sk))
        &&& crate::payload::sig_ok(ed_public_of(sk), cb, b64_of(ed_sign(sk, cb)))
    }
}

/// Envelopes whose wire form cannot be canonicalized for signing: too
/// deeply nested, or not canonicalizable.
#[verifier::opaque]
pub open spec fn cannot_canon(es: Seq<EnvelopeView>) -> bool {
    !depth_bounded(ser_envelopes(es)) || (canon_of(ser_envelopes(es)) is None)
}

impl OutgoingEnvelopes {
    /// Serialize the envelopes, sign their canonical bytes, and emit the
    /// whole payload document.
    #[verifier::rlimit(100)]
    #[verifier::spinoff_prover]
    pub fn create_payload(&self) -> (r: Result<Vec<u8>, CreatePayloadError>)
        requires
            self.wf(),
        ensures
            match r {
                Ok(bytes) => created_payload(self.secret(), self.env_views(), bytes@),
                Err(e) => e == CreatePayloadError::CannotEncodeMessage && cannot_canon(
                    self.env_views(),
                ),
            },
    {
        proof {
            reveal(created_payload);
            reveal(cannot_canon);
        }
        let envelopes_json = crate::wire::envelopes_bytes(&self.envelopes);
        if !check_depth(envelopes_json.as_slice()) {
            return Err(CreatePayloadError::CannotEncodeMessage);
        }
        let envelopes_canon = match crate::crypto::canonical_json(envelopes_json.as_slice()) {
            Some(cb) => cb,
            None => {
                return Err(CreatePayloadError::CannotEncodeMessage);
            },
        };
        let signature = self.secret_key.sign_b64(envelopes_canon.as_slice());
        let key = self.secret_key.public_key().to_string();
        let certificate = Certificate { key, signature };
        proof {
            assert(envelopes_json@ == ser_envelopes(self.env_views()));
            assert(canon_of(ser_envelopes(self.env_views())) == Some(envelopes_canon@));
            assert(certificate@.key == b64_of(ed_public_of(self.secret())));
            assert(certificate@.signature == b64_of(ed_sign(self.secret(), envelopes_canon@)));
            assert(certificate@ == out_cert(self.secret(), envelopes_canon@));
        }
        let bytes = crate::wire::payload_bytes(&certificate, &self.envelopes);
        proof {
            assert(bytes@ == ser_payload(out_cert(self.secret(), envelopes_canon@), self.env_views()));
        }
        Ok(bytes)
    }
}



/// Line identity is stable within a period: once a sending tick has drawn
/// the period's message, any later send in the same period keeps exactly
/// that message (so two payloads created in one period carry the same
/// contributed line).
pub proof fn lemma_same_period_same_message<E>(
    pre: MailroomView,
    mid: MailroomView,
    post: MailroomView,
    dest1: Seq<u8>,
    dest2: Seq<u8>,
    config: OutgoingConfig,
    r1: Result<(Seq<EnvelopeView>, Seq<u8>), MailroomError<E>>,
    r2: Result<(Seq<EnvelopeView>, Seq<u8>), MailroomError<E>>,
    t1: u64,
    t2: u64,
)
    requires
        pre.period > 0,
        sends_this_tick(t1, config),
        flatten_time(t1, pre.period) == flatten_time(t2, pre.period),
        outgoing_post(pre, mid, dest1, config, r1, t1),
        outgoing_post(mid, post, dest2, config, r2, t2),
    ensures
        post.current_message == mid.current_message,
{
    reveal(outgoing_post);
    let nf = flatten_time(t1, pre.period);
    assert(mid.last_updated_message == Some(nf));
    assert(!regenerates(mid, flatten_time(t2, mid.period), sends_this_tick(t2, config)));
}

/// At most one payload from any sender key is admitted per period: after
/// an admission, a second payload from the same key in the same period is
/// refused as a duplicate.
pub proof fn lemma_at_most_once_per_period<E>(
    pre: MailroomView,
    mid: MailroomView,
    post: MailroomView,
    sender: Seq<u8>,
    envs1: Seq<EnvelopeView>,
    envs2: Seq<EnvelopeView>,
    r2: Result<(), MailroomError<E>>,
    t1: u64,
    t2: u64,
)
    requires
        pre.period > 0,
        flatten_time(t1, pre.period) == flatten_time(t2, pre.period),
        receive_post(pre, mid, sender, envs1, Ok::<(), MailroomError<E>>(()), t1),
        receive_post(mid, post, sender, envs2, r2, t2),
    ensures
        r2 is Err,
        r2 matches Err(e) ==> e is AlreadyReceivedFromKey,
        post.forwarding_this == mid.forwarding_this,
        post.new_messages == mid.new_messages,
        post.archived == mid.archived,
{
    reveal(receive_post);
    let nf = flatten_time(t1, pre.period);
    let v1 = rotate(pre, nf);
    let st = admit_all(
        AdmitState { arch: pre.archived, new_msgs: v1.new_messages, kept: Seq::empty() },
        envs1,
    );
    assert(mid.forwarding_this == v1.forwarding_this.push((sender, st.kept)));
    assert(mid.forwarding_this[mid.forwarding_this.len() - 1].0 == sender);
    assert(has_sender(mid.forwarding_this, sender));
    assert(mid.last_seen == Some(nf));
    let v2 = rotate(mid, flatten_time(t2, mid.period));
    assert(v2.forwarding_this == mid.forwarding_this);
    assert(has_sender(v2.forwarding_this, sender));
}

/// Hops strictly decrease across each forwarding hop, and nothing leaves
/// without hops to spare: every forwarded envelope keeps at least one
/// hop and has strictly fewer hops than the buffered envelope (with the
/// same message) it was made from. In particular an envelope that arrived
/// with one hop left is not forwarded onward.
pub proof fn lemma_forward_envs_ttl(
    es: Seq<EnvelopeView>,
    dest: Seq<u8>,
    ourb: Seq<char>,
    config: OutgoingConfig,
)
    ensures
        forall|i: int|
            0 <= i < forward_envs(es, dest, ourb, config).len() ==> {
                let out = #[trigger] forward_envs(es, dest, ourb, config)[i];
                &&& out.ttl >= 1
                &&& exists|j: int|
                    0 <= j < es.len() && es[j].message == out.message && out.ttl < es[j].ttl
            },
    decreases es.len(),
{
    if es.len() > 0 {
        lemma_forward_envs_ttl(es.drop_first(), dest, ourb, config);
        let rest = forward_envs(es.drop_first(), dest, ourb, config);
        let whole = forward_envs(es, dest, ourb, config);
        if forward_keeps(es[0], dest, config) {
            let head = forward_one(es[0], ourb, config);
            assert(head.ttl >= 1 && head.ttl < es[0].ttl && head.message == es[0].message);
            assert forall|i: int| 0 <= i < whole.len() implies {
                let out = #[trigger] whole[i];
                out.ttl >= 1 && exists|j: int|
                    0 <= j < es.len() && es[j].message == out.message && out.ttl < es[j].ttl
            } by {
                if i == 0 {
                    assert(whole[0] == head);
                    assert(es[0].message == head.message && head.ttl < es[0].ttl);
                } else {
                    let out = rest[i - 1];
                    assert(whole[i] == out);
                    let j = choose|j: int|
                        0 <= j < es.drop_first().len() && es.drop_first()[j].message == out.message
                            && out.ttl < es.drop_first()[j].ttl;
                    assert(es[j + 1].message == out.message && out.ttl < es[j + 1].ttl);
                }
            }
        } else {
            assert forall|i: int| 0 <= i < whole.len() implies {
                let out = #[trigger] whole[i];
                out.ttl >= 1 && exists|j: int|
                    0 <= j < es.len() && es[j].message == out.message && out.ttl < es[j].ttl
            } by {
                let out = rest[i];
                assert(whole[i] == out);
                let j = choose|j: int|
                    0 <= j < es.drop_first().len() && es.drop_first()[j].message == out.message
                        && out.ttl < es.drop_first()[j].ttl;
                assert(es[j + 1].message == out.message && out.ttl < es[j + 1].ttl);
            }
        }
    }
}

/// No envelope a tick forwards returns to the author of its message, and
/// every forwarded envelope keeps at least one hop.
pub proof fn lemma_forward_all_sound(
    buf: Seq<(Seq<u8>, Seq<EnvelopeView>)>,
    dest: Seq<u8>,
    ourb: Seq<char>,
    config: OutgoingConfig,
)
    ensures
        forall|i: int|
            0 <= i < forward_all(buf, dest, ourb, config).len() ==> {
                let out = #[trigger] forward_all(buf, dest, ourb, config)[i];
                &&& out.ttl >= 1
                &&& out.message.certificate.key != b64_of(dest)
            },
    decreases buf.len(),
{
    if buf.len() > 0 {
        lemma_forward_all_sound(buf.drop_first(), dest, ourb, config);
        lemma_forward_envs_ttl(buf[0].1, dest, ourb, config);
        let head = if buf[0].0 == dest {
            Seq::<EnvelopeView>::empty()
        } else {
            forward_envs(buf[0].1, dest, ourb, config)
        };
        let rest = forward_all(buf.drop_first(), dest, ourb, config);
        let whole = forward_all(buf, dest, ourb, config);
        assert forall|i: int| 0 <= i < whole.len() implies {
            let out = #[trigger] whole[i];
            out.ttl >= 1 && out.message.certificate.key != b64_of(dest)
        } by {
            if i < head.len() {
                assert(whole[i] == head[i]);
                forward_keeps_at(buf[0].1, dest, ourb, config, head, i);
            } else {
                assert(whole[i] == rest[i - head.len()]);
            }
        }
    }
}

/// The envelope at an index of a forwarded entry never returns to its
/// message's author.
pub proof fn forward_keeps_at(
    es: Seq<EnvelopeView>,
    dest: Seq<u8>,
    ourb: Seq<char>,
    config: OutgoingConfig,
    outs: Seq<EnvelopeView>,
    i: int,
)
    requires
        outs == forward_envs(es, dest, ourb, config),
        0 <= i < outs.len(),
    ensures
        outs[i].ttl >= 1,
        outs[i].message.certificate.key != b64_of(dest),
    decreases es.len(),
{
    if es.len() > 0 {
        let rest = forward_envs(es.drop_first(), dest, ourb, config);
        if forward_keeps(es[0], dest, config) {
            if i == 0 {
                assert(outs[0] == forward_one(es[0], ourb, config));
            } else {
                forward_keeps_at(es.drop_first(), dest, ourb, config, rest, i - 1);
                assert(outs[i] == rest[i - 1]);
            }
        } else {
            forward_keeps_at(es.drop_first(), dest, ourb, config, rest, i);
        }
    }
}

/// A produced tick contains no envelope whose message was authored by the
/// destination: the forwarded part never loops back, and the relay's own
/// contribution is signed by the relay itself, which is not the
/// destination.
pub proof fn lemma_no_loopback<E>(
    pre: MailroomView,
    post: MailroomView,
    dest: Seq<u8>,
    config: OutgoingConfig,
    envs: Seq<EnvelopeView>,
    secret: Seq<u8>,
    now: u64,
)
    requires
        pre.period > 0,
        outgoing_post(
            pre,
            post,
            dest,
            config,
            Ok::<(Seq<EnvelopeView>, Seq<u8>), MailroomError<E>>((envs, secret)),
            now,
        ),
        b64_of(ed_public_of(pre.secret_key)) != b64_of(dest),
        current_ok(pre.current_message, pre.secret_key),
    ensures
        forall|i: int|
            0 <= i < envs.len() ==> (#[trigger] envs[i]).message.certificate.key != b64_of(dest),
{
    reveal(outgoing_post);
    let nf = flatten_time(now, pre.period);
    let v1 = rotate(pre, nf);
    let ourb = b64_of(ed_public_of(pre.secret_key));
    let fwd = forward_all(v1.forwarding_last, dest, ourb, config);
    lemma_forward_all_sound(v1.forwarding_last, dest, ourb, config);
    let own = own_tail(post.current_message, now, config);
    assert(current_ok(post.current_message, pre.secret_key));
    assert forall|i: int| 0 <= i < envs.len() implies (#[trigger] envs[i]).message.certificate.key
        != b64_of(dest) by {
        if i < fwd.len() {
            assert(envs[i] == fwd[i]);
        } else {
            assert(envs[i] == own[i - fwd.len()]);
            assert(own_signed(post.current_message->Some_0, pre.secret_key));
        }
    }
}


/// Whether a draw history never hands the same line out twice.
pub open spec fn draws_distinct(drawn: DrawnView) -> bool {
    forall|i: int, j: int|
        0 <= i < j < drawn.len() && drawn[i] is Some && drawn[j] is Some ==> (#[trigger] drawn[i])->Some_0.0
            != (#[trigger] drawn[j])->Some_0.0
}

/// Lines are distinct across periods: two sending ticks in different
/// periods that both contribute a message draw two different entries from
/// the line source, so when the source never repeats a line, the two
/// contributed lines differ.
pub proof fn lemma_distinct_lines_across_periods<E>(
    pre: MailroomView,
    mid: MailroomView,
    post: MailroomView,
    dest1: Seq<u8>,
    dest2: Seq<u8>,
    config: OutgoingConfig,
    r1: Result<(Seq<EnvelopeView>, Seq<u8>), MailroomError<E>>,
    r2: Result<(Seq<EnvelopeView>, Seq<u8>), MailroomError<E>>,
    t1: u64,
    t2: u64,
)
    requires
        pre.period > 0,
        sends_this_tick(t1, config),
        sends_this_tick(t2, config),
        flatten_time(t1, pre.period) != flatten_time(t2, pre.period),
        pre.last_updated_message != Some(flatten_time(t1, pre.period)),
        outgoing_post(pre, mid, dest1, config, r1, t1),
        outgoing_post(mid, post, dest2, config, r2, t2),
        mid.current_message is Some,
        post.current_message is Some,
        draws_distinct(post.drawn),
    ensures
        (mid.current_message->Some_0).contents.line != (
        post.current_message->Some_0).contents.line,
{
    reveal(outgoing_post);
    let nf1 = flatten_time(t1, pre.period);
    let nf2 = flatten_time(t2, mid.period);
    assert(regenerates(pre, nf1, sends_this_tick(t1, config)));
    let d1 = choose|d: Option<(Seq<char>, Seq<char>)>|
        mid.drawn == pre.drawn.push(d) && #[trigger] drawn_current_ok(d, mid.current_message);
    assert(mid.last_updated_message == Some(nf1));
    assert(regenerates(mid, nf2, sends_this_tick(t2, config)));
    let d2 = choose|d: Option<(Seq<char>, Seq<char>)>|
        post.drawn == mid.drawn.push(d) && #[trigger] drawn_current_ok(d, post.current_message);
    let n = pre.drawn.len() as int;
    assert(post.drawn == pre.drawn.push(d1).push(d2));
    assert(post.drawn[n] == d1);
    assert(post.drawn[n + 1] == d2);
    assert(d1 is Some && d2 is Some);
    assert(d1->Some_0.0 != d2->Some_0.0);
}


/// Every envelope a forwarded entry produces carries a message from that
/// entry, so forwarding preserves verified inner certificates.
pub proof fn lemma_forward_envs_verified(
    es: Seq<EnvelopeView>,
    dest: Seq<u8>,
    ourb: Seq<char>,
    config: OutgoingConfig,
)
    requires
        forall|j: int| 0 <= j < es.len() ==> msg_verified((#[trigger] es[j]).message),
    ensures
        forall|i: int|
            0 <= i < forward_envs(es, dest, ourb, config).len() ==> msg_verified(
                (#[trigger] forward_envs(es, dest, ourb, config)[i]).message,
            ),
{
    lemma_forward_envs_ttl(es, dest, ourb, config);
    assert forall|i: int|
        0 <= i < forward_envs(es, dest, ourb, config).len() implies msg_verified(
        (#[trigger] forward_envs(es, dest, ourb, config)[i]).message,
    ) by {
        let out = forward_envs(es, dest, ourb, config)[i];
        let j = choose|j: int|
            0 <= j < es.len() && es[j].message == out.message && out.ttl < es[j].ttl;
        assert(msg_verified(es[j].message));
    }
}

/// Everything one tick forwards out of verified buffers is verified.
pub proof fn lemma_forward_all_verified(
    buf: Seq<(Seq<u8>, Seq<EnvelopeView>)>,
    dest: Seq<u8>,
    ourb: Seq<char>,
    config: OutgoingConfig,
)
    requires
        forall|k: int, j: int|
            0 <= k < buf.len() && 0 <= j < buf[k].1.len() ==> msg_verified(
                (#[trigger] buf[k].1[j]).message,
            ),
    ensures
        forall|i: int|
            0 <= i < forward_all(buf, dest, ourb, config).len() ==> msg_verified(
                (#[trigger] forward_all(buf, dest, ourb, config)[i]).message,
            ),
    decreases buf.len(),
{
    if buf.len() > 0 {
        assert(forall|k: int, j: int|
            0 <= k < buf.drop_first().len() && 0 <= j < buf.drop_first()[k].1.len()
                ==> msg_verified((#[trigger] buf.drop_first()[k].1[j]).message)) by {
            assert(forall|k: int|
                0 <= k < buf.drop_first().len() ==> #[trigger] buf.drop_first()[k] == buf[k + 1]);
        }
        lemma_forward_all_verified(buf.drop_first(), dest, ourb, config);
        assert(forall|j: int| 0 <= j < buf[0].1.len() ==> msg_verified((#[trigger] buf[0].1[j]).message));
        lemma_forward_envs_verified(buf[0].1, dest, ourb, config);
        let head = if buf[0].0 == dest {
            Seq::<EnvelopeView>::empty()
        } else {
            forward_envs(buf[0].1, dest, ourb, config)
        };
        let rest = forward_all(buf.drop_first(), dest, ourb, config);
        let whole = forward_all(buf, dest, ourb, config);
        assert forall|i: int| 0 <= i < whole.len() implies msg_verified(
            (#[trigger] whole[i]).message,
        ) by {
            if i < head.len() {
                assert(whole[i] == head[i]);
            } else {
                assert(whole[i] == rest[i - head.len()]);
            }
        }
    }
}

/// Every envelope a tick sends out of a well-formed mailroom carries a
/// verified inner certificate: the forwarded part came out of verified
/// buffers, and the relay's own contribution is its own signature.
pub proof fn lemma_outgoing_envelopes_verified<E>(
    pre: MailroomView,
    post: MailroomView,
    dest: Seq<u8>,
    config: OutgoingConfig,
    envs: Seq<EnvelopeView>,
    secret: Seq<u8>,
    now: u64,
)
    requires
        buffers_ok(pre),
        current_ok(pre.current_message, pre.secret_key),
        outgoing_post(
            pre,
            post,
            dest,
            config,
            Ok::<(Seq<EnvelopeView>, Seq<u8>), MailroomError<E>>((envs, secret)),
            now,
        ),
    ensures
        forall|i: int| 0 <= i < envs.len() ==> msg_verified((#[trigger] envs[i]).message),
{
    reveal(outgoing_post);
    let nf = flatten_time(now, pre.period);
    let v1 = rotate(pre, nf);
    let ourb = b64_of(ed_public_of(pre.secret_key));
    let fwd = forward_all(v1.forwarding_last, dest, ourb, config);
    assert(v1.forwarding_last == pre.forwarding_this || v1.forwarding_last == pre.forwarding_last
        || v1.forwarding_last == Seq::<(Seq<u8>, Seq<EnvelopeView>)>::empty());
    lemma_forward_all_verified(v1.forwarding_last, dest, ourb, config);
    let own = own_tail(post.current_message, now, config);
    assert(current_ok(post.current_message, pre.secret_key));
    assert forall|i: int| 0 <= i < envs.len() implies msg_verified(
        (#[trigger] envs[i]).message,
    ) by {
        if i < fwd.len() {
            assert(envs[i] == fwd[i]);
        } else {
            assert(envs[i] == own[i - fwd.len()]);
            lemma_own_signed_verified(post.current_message->Some_0, pre.secret_key);
        }
    }
}

} // verus!
