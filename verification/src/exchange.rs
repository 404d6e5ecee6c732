//! The exchange decisions: what a listener answers to an inbound payload,
//! and what a sender does with a peer's reply. The network itself stays
//! outside; these functions take the received bytes and the clock reading
//! as arguments and drive the mailroom.

use vstd::prelude::*;

verus! {

use crate::archive::Archive;
use crate::crypto::PublicKey;
use crate::lines::GetNextLine;
use crate::mailroom::{
    cannot_canon, created_payload, outgoing_post, receive_post, Mailroom, MailroomError,
    MailroomView, OutgoingConfig,
};
use crate::message::{Envelope, EnvelopeView};
use crate::payload::{
    parsed_doc, trust_spec, TrustedPayload, UntrustedPayload, UntrustedPayloadError,
};

/// The sender key a body's trust attempt admits: what the trust pass
/// returns for the parsed document, or nothing where parse or trust fail.
pub open spec fn trust_sender(body: Seq<u8>, trusted: Seq<Seq<u8>>) -> Seq<u8> {
    match parsed_doc(body) {
        Some((c, raw)) => match trust_spec(c, raw, trusted) {
            Ok((kept, n, k)) => k,
            Err(e) => Seq::empty(),
        },
        None => Seq::empty(),
    }
}

/// A listener's reply to an admitted payload: the signed body to write
/// back, what was received, what was sent, and who sent to us.
pub struct ListenerReply {
    pub body: Vec<u8>,
    pub received: Vec<Envelope>,
    pub sent: Vec<Envelope>,
    pub sender: PublicKey,
}

/// What the listener decided for one inbound body.
pub enum ListenerOutcome<E> {
    /// The payload was admitted; answer 200 with the reply body.
    Replied(ListenerReply),
    /// The body is not a payload document; answer 400.
    BadPayload,
    /// The trust attempt failed; answer 400 for a malformed or
    /// unparseable payload, 403 for an untrusted or unverifiable one.
    Untrusted(UntrustedPayloadError),
    /// A payload from this sender was already admitted this period;
    /// answer 403.
    AlreadyReceived,
    /// The archive failed; answer 500.
    ArchiveError(E),
    /// The reply could not be serialized for signing; answer 500.
    CannotEncodeReply,
}

/// The HTTP status code for a listener outcome, per the wire protocol:
/// 200 on success; 400 on a malformed payload, a malformed public key or
/// an unparseable subtree; 403 on an untrusted or unverifiable sender and
/// on a duplicate; 500 on an internal failure.
pub fn listener_status<E>(outcome: &ListenerOutcome<E>) -> (r: u16)
    ensures
        r == (match outcome {
            ListenerOutcome::Replied(rep) => 200u16,
            ListenerOutcome::BadPayload => 400u16,
            ListenerOutcome::Untrusted(e) => match e {
                UntrustedPayloadError::MalformedPublicKey => 400u16,
                UntrustedPayloadError::CannotParseJson => 400u16,
                UntrustedPayloadError::PublicKeyNotTrusted => 403u16,
                UntrustedPayloadError::CannotVerify => 403u16,
            },
            ListenerOutcome::AlreadyReceived => 403u16,
            ListenerOutcome::ArchiveError(e) => 500u16,
            ListenerOutcome::CannotEncodeReply => 500u16,
        }),
{
    match outcome {
        ListenerOutcome::Replied(rep) => 200,
        ListenerOutcome::BadPayload => 400,
        ListenerOutcome::Untrusted(e) => match e {
            UntrustedPayloadError::MalformedPublicKey => 400,
            UntrustedPayloadError::CannotParseJson => 400,
            UntrustedPayloadError::PublicKeyNotTrusted => 403,
            UntrustedPayloadError::CannotVerify => 403,
        },
        ListenerOutcome::AlreadyReceived => 403,
        ListenerOutcome::ArchiveError(e) => 500,
        ListenerOutcome::CannotEncodeReply => 500,
    }
}

/// Answer one inbound POST body: parse it, attempt trust against the
/// trusted keys, admit it into the mailroom, and on success build, sign
/// and return the reply payload for the sender. Receive-then-reply is one
/// critical section over the mailroom.
#[verifier::rlimit(100)]
pub fn respond_to_sender<L: GetNextLine, A: Archive>(
    mailroom: &mut Mailroom<L, A>,
    trusted_public_keys: &Vec<PublicKey>,
    config: OutgoingConfig,
    body: &[u8],
    now: u64,
) -> (r: ListenerOutcome<A::Error>)
    requires
        old(mailroom).wf(),
    ensures
        final(mailroom).wf(),
        r is BadPayload ==> final(mailroom)@ == old(mailroom)@ && (parsed_doc(body@) is None),
        r matches ListenerOutcome::Untrusted(e) ==> final(mailroom)@ == old(mailroom)@ && (
        parsed_doc(body@) matches Some((c, raw)) && trust_spec(
            c,
            raw,
            trusted_public_keys.deep_view(),
        ) == Err::<(Seq<EnvelopeView>, nat, Seq<u8>), _>(e)),
        r is AlreadyReceived ==> exists|envs: Seq<EnvelopeView>|
            #[trigger] receive_post(
                old(mailroom)@,
                final(mailroom)@,
                trust_sender(body@, trusted_public_keys.deep_view()),
                envs,
                Err::<(), MailroomError<A::Error>>(MailroomError::AlreadyReceivedFromKey),
                now,
            ),
        r matches ListenerOutcome::ArchiveError(e) ==> (exists|envs: Seq<EnvelopeView>|
            #[trigger] receive_post(
                old(mailroom)@,
                final(mailroom)@,
                trust_sender(body@, trusted_public_keys.deep_view()),
                envs,
                Err::<(), MailroomError<A::Error>>(MailroomError::ArchiveFailure(e)),
                now,
            )) || (exists|mid: MailroomView, envs: Seq<EnvelopeView>|
            {
                &&& #[trigger] receive_post(
                    old(mailroom)@,
                    mid,
                    trust_sender(body@, trusted_public_keys.deep_view()),
                    envs,
                    Ok::<(), MailroomError<A::Error>>(()),
                    now,
                )
                &&& outgoing_post(
                    mid,
                    final(mailroom)@,
                    trust_sender(body@, trusted_public_keys.deep_view()),
                    config,
                    Err::<(Seq<EnvelopeView>, Seq<u8>), MailroomError<A::Error>>(
                        MailroomError::ArchiveFailure(e),
                    ),
                    now,
                )
            }),
        r is CannotEncodeReply ==> exists|
            mid: MailroomView,
            envs: Seq<EnvelopeView>,
            sent: Seq<EnvelopeView>,
        |
            {
                &&& #[trigger] receive_post(
                    old(mailroom)@,
                    mid,
                    trust_sender(body@, trusted_public_keys.deep_view()),
                    envs,
                    Ok::<(), MailroomError<A::Error>>(()),
                    now,
                )
                &&& #[trigger] outgoing_post(
                    mid,
                    final(mailroom)@,
                    trust_sender(body@, trusted_public_keys.deep_view()),
                    config,
                    Ok::<(Seq<EnvelopeView>, Seq<u8>), MailroomError<A::Error>>(
                        (sent, old(mailroom)@.secret_key),
                    ),
                    now,
                )
                &&& cannot_canon(sent)
            },
        r matches ListenerOutcome::Replied(rep) ==> rep.sender@ == trust_sender(
            body@,
            trusted_public_keys.deep_view(),
        ) && created_payload(old(mailroom)@.secret_key, rep.sent.deep_view(), rep.body@) && exists|
            mid: MailroomView,
        |
            {
                &&& #[trigger] receive_post(
                    old(mailroom)@,
                    mid,
                    rep.sender@,
                    rep.received.deep_view(),
                    Ok::<(), MailroomError<A::Error>>(()),
                    now,
                )
                &&& outgoing_post(
                    mid,
                    final(mailroom)@,
                    rep.sender@,
                    config,
                    Ok::<(Seq<EnvelopeView>, Seq<u8>), MailroomError<A::Error>>(
                        (rep.sent.deep_view(), old(mailroom)@.secret_key),
                    ),
                    now,
                )
            },
{
    let untrusted = match UntrustedPayload::from_json(body) {
        Ok(u) => u,
        Err(e) => {
            return ListenerOutcome::BadPayload;
        },
    };
    let ghost untrusted_cert_view = untrusted.certificate@;
    let ghost untrusted_raw_view = untrusted.envelopes_raw@;
    let trusted_payload = match untrusted.try_trust(trusted_public_keys) {
        Ok(tp) => tp,
        Err(e) => {
            return ListenerOutcome::Untrusted(e);
        },
    };
    proof {
        assert(trust_sender(body@, trusted_public_keys.deep_view())
            == trusted_payload.public_key@);
    }    proof {
        crate::payload::lemma_trusted_envelopes_verified(
            untrusted_cert_view,
            untrusted_raw_view,
            trusted_public_keys.deep_view(),
            trusted_payload.envelopes.deep_view(),
            trusted_payload.unverified_messages_count as nat,
            trusted_payload.public_key@,
        );
    }

    let ghost received_views = trusted_payload.envelopes.deep_view();
    let ghost sender_key = trust_sender(body@, trusted_public_keys.deep_view());
    match mailroom.receive_payload_at_time(&trusted_payload, now) {
        Ok(u) => {},
        Err(MailroomError::AlreadyReceivedFromKey) => {
            proof {
                assert(receive_post(
                    old(mailroom)@,
                    mailroom@,
                    sender_key,
                    received_views,
                    Err::<(), MailroomError<A::Error>>(MailroomError::AlreadyReceivedFromKey),
                    now,
                ));
                assert(exists|envs: Seq<EnvelopeView>|
                    #[trigger] receive_post(
                        old(mailroom)@,
                        mailroom@,
                        sender_key,
                        envs,
                        Err::<(), MailroomError<A::Error>>(MailroomError::AlreadyReceivedFromKey),
                        now,
                    ));
            }
            return ListenerOutcome::AlreadyReceived;
        },
        Err(MailroomError::ArchiveFailure(e)) => {
            let result = ListenerOutcome::ArchiveError(e);
            proof {
                let e2 = result->ArchiveError_0;
                assert(receive_post(
                    old(mailroom)@,
                    mailroom@,
                    sender_key,
                    received_views,
                    Err::<(), MailroomError<A::Error>>(MailroomError::ArchiveFailure(e2)),
                    now,
                ));
                assert(exists|envs: Seq<EnvelopeView>|
                    #[trigger] receive_post(
                        old(mailroom)@,
                        mailroom@,
                        sender_key,
                        envs,
                        Err::<(), MailroomError<A::Error>>(MailroomError::ArchiveFailure(e2)),
                        now,
                    ));
            }
            return result;
        },
    }
    let ghost mid = mailroom@;
    reply_to_admitted(mailroom, trusted_payload, config, now)
}

/// Build, sign and wrap the reply for a sender whose payload was just
/// admitted.
#[verifier::rlimit(100)]
#[verifier::spinoff_prover]
fn reply_to_admitted<L: GetNextLine, A: Archive>(
    mailroom: &mut Mailroom<L, A>,
    trusted_payload: TrustedPayload,
    config: OutgoingConfig,
    now: u64,
) -> (r: ListenerOutcome<A::Error>)
    requires
        old(mailroom).wf(),
    ensures
        final(mailroom).wf(),
        !(r is BadPayload) && !(r matches ListenerOutcome::Untrusted(e)) && !(r
            is AlreadyReceived),
        r matches ListenerOutcome::Replied(rep) ==> {
            &&& rep.sender@ == trusted_payload.public_key@
            &&& rep.received.deep_view() == trusted_payload.envelopes.deep_view()
            &&& created_payload(old(mailroom)@.secret_key, rep.sent.deep_view(), rep.body@)
            &&& outgoing_post(
                old(mailroom)@,
                final(mailroom)@,
                trusted_payload.public_key@,
                config,
                Ok::<(Seq<EnvelopeView>, Seq<u8>), MailroomError<A::Error>>(
                    (rep.sent.deep_view(), old(mailroom)@.secret_key),
                ),
                now,
            )
        },
        r matches ListenerOutcome::ArchiveError(e) ==> outgoing_post(
            old(mailroom)@,
            final(mailroom)@,
            trusted_payload.public_key@,
            config,
            Err::<(Seq<EnvelopeView>, Seq<u8>), MailroomError<A::Error>>(
                MailroomError::ArchiveFailure(e),
            ),
            now,
        ),
        r is CannotEncodeReply ==> exists|sent: Seq<EnvelopeView>|
            {
                &&& #[trigger] outgoing_post(
                    old(mailroom)@,
                    final(mailroom)@,
                    trusted_payload.public_key@,
                    config,
                    Ok::<(Seq<EnvelopeView>, Seq<u8>), MailroomError<A::Error>>(
                        (sent, old(mailroom)@.secret_key),
                    ),
                    now,
                )
                &&& cannot_canon(sent)
            },
{
    let outgoing = match mailroom.get_outgoing_at_time(&trusted_payload.public_key, config, now) {
        Ok(out) => out,
        Err(MailroomError::ArchiveFailure(e)) => {
            return ListenerOutcome::ArchiveError(e);
        },
        Err(MailroomError::AlreadyReceivedFromKey) => {
            proof {
                assert(false) by {
                    reveal(crate::mailroom::outgoing_post);
                }
            }
            return ListenerOutcome::CannotEncodeReply;
        },
    };
    proof {
        outgoing.lemma_env_views();
    }
    let reply_body = match outgoing.create_payload() {
        Ok(bytes) => bytes,
        Err(e) => {
            return ListenerOutcome::CannotEncodeReply;
        },
    };
    let TrustedPayload { public_key, certificate, envelopes, unverified_messages_count } =
        trusted_payload;
    ListenerOutcome::Replied(
        ListenerReply {
            body: reply_body,
            received: envelopes,
            sent: outgoing.envelopes,
            sender: public_key,
        },
    )
}

/// What the sender decided for one peer in one tick, after the POST.
pub enum SenderOutcome<E> {
    /// The peer's reply was admitted, with these envelopes.
    ReceivedFromListener(Vec<Envelope>),
    /// The peer's reply was not a payload or did not earn trust.
    ReceivedBadResponse,
    /// The peer's reply was a duplicate for this period.
    AlreadyReceivedFromListener,
    /// The archive failed while admitting the reply.
    ArchiveError(E),
}

/// A payload ready to POST to one peer: the signed document and the
/// envelopes inside it.
pub struct PreparedSend {
    pub body: Vec<u8>,
    pub envelopes: Vec<Envelope>,
}

/// Why a send could not be prepared.
pub enum PrepareError<E> {
    /// The archive failed while the outgoing envelopes were built.
    Archive(E),
    /// The outgoing envelopes could not be serialized for signing.
    CannotEncode,
}

/// Build and sign the payload to POST to one peer: one mailroom critical
/// section, then the serialization.
#[verifier::rlimit(100)]
#[verifier::spinoff_prover]
pub fn prepare_send<L: GetNextLine, A: Archive>(
    mailroom: &mut Mailroom<L, A>,
    peer_key: &PublicKey,
    config: OutgoingConfig,
    now: u64,
) -> (r: Result<PreparedSend, PrepareError<A::Error>>)
    requires
        old(mailroom).wf(),
    ensures
        final(mailroom).wf(),
        r matches Ok(p) ==> outgoing_post(
            old(mailroom)@,
            final(mailroom)@,
            peer_key@,
            config,
            Ok::<(Seq<EnvelopeView>, Seq<u8>), MailroomError<A::Error>>(
                (p.envelopes.deep_view(), old(mailroom)@.secret_key),
            ),
            now,
        ) && created_payload(old(mailroom)@.secret_key, p.envelopes.deep_view(), p.body@),
        r matches Err(PrepareError::CannotEncode) ==> exists|envs: Seq<EnvelopeView>|
            {
                &&& #[trigger] outgoing_post(
                    old(mailroom)@,
                    final(mailroom)@,
                    peer_key@,
                    config,
                    Ok::<(Seq<EnvelopeView>, Seq<u8>), MailroomError<A::Error>>(
                        (envs, old(mailroom)@.secret_key),
                    ),
                    now,
                )
                &&& cannot_canon(envs)
            },
        r matches Err(PrepareError::Archive(e)) ==> outgoing_post(
            old(mailroom)@,
            final(mailroom)@,
            peer_key@,
            config,
            Err::<(Seq<EnvelopeView>, Seq<u8>), MailroomError<A::Error>>(
                MailroomError::ArchiveFailure(e),
            ),
            now,
        ),
{
    let outgoing = match mailroom.get_outgoing_at_time(peer_key, config, now) {
        Ok(out) => out,
        Err(MailroomError::ArchiveFailure(e)) => {
            return Err(PrepareError::Archive(e));
        },
        Err(MailroomError::AlreadyReceivedFromKey) => {
            proof {
                assert(false) by {
                    reveal(crate::mailroom::outgoing_post);
                }
            }
            return Err(PrepareError::CannotEncode);
        },
    };
    proof {
        outgoing.lemma_env_views();
    }
    let body = match outgoing.create_payload() {
        Ok(bytes) => bytes,
        Err(e) => {
            return Err(PrepareError::CannotEncode);
        },
    };
    Ok(PreparedSend { body, envelopes: outgoing.envelopes })
}

/// Feed a peer's reply body back into the mailroom.
#[verifier::rlimit(100)]
pub fn handle_peer_response<L: GetNextLine, A: Archive>(
    mailroom: &mut Mailroom<L, A>,
    trusted_public_keys: &Vec<PublicKey>,
    body: &[u8],
    now: u64,
) -> (r: SenderOutcome<A::Error>)
    requires
        old(mailroom).wf(),
    ensures
        final(mailroom).wf(),
        r is ReceivedBadResponse ==> final(mailroom)@ == old(mailroom)@ && ((parsed_doc(body@)
            is None) || (parsed_doc(body@) matches Some((c, raw)) && (trust_spec(
            c,
            raw,
            trusted_public_keys.deep_view(),
        ) is Err))),
        r matches SenderOutcome::ReceivedFromListener(envs) ==> receive_post(
            old(mailroom)@,
            final(mailroom)@,
            trust_sender(body@, trusted_public_keys.deep_view()),
            envs.deep_view(),
            Ok::<(), MailroomError<A::Error>>(()),
            now,
        ),
        r is AlreadyReceivedFromListener ==> exists|envs: Seq<EnvelopeView>|
            #[trigger] receive_post(
                old(mailroom)@,
                final(mailroom)@,
                trust_sender(body@, trusted_public_keys.deep_view()),
                envs,
                Err::<(), MailroomError<A::Error>>(MailroomError::AlreadyReceivedFromKey),
                now,
            ),
        r matches SenderOutcome::ArchiveError(e) ==> exists|envs: Seq<EnvelopeView>|
            #[trigger] receive_post(
                old(mailroom)@,
                final(mailroom)@,
                trust_sender(body@, trusted_public_keys.deep_view()),
                envs,
                Err::<(), MailroomError<A::Error>>(MailroomError::ArchiveFailure(e)),
                now,
            ),
{
    let untrusted = match UntrustedPayload::from_json(body) {
        Ok(u) => u,
        Err(e) => {
            return SenderOutcome::ReceivedBadResponse;
        },
    };
    let ghost untrusted_cert_view = untrusted.certificate@;
    let ghost untrusted_raw_view = untrusted.envelopes_raw@;
    let trusted_payload = match untrusted.try_trust(trusted_public_keys) {
        Ok(tp) => tp,
        Err(e) => {
            return SenderOutcome::ReceivedBadResponse;
        },
    };
    proof {
        assert(trust_sender(body@, trusted_public_keys.deep_view())
            == trusted_payload.public_key@);
    }    proof {
        crate::payload::lemma_trusted_envelopes_verified(
            untrusted_cert_view,
            untrusted_raw_view,
            trusted_public_keys.deep_view(),
            trusted_payload.envelopes.deep_view(),
            trusted_payload.unverified_messages_count as nat,
            trusted_payload.public_key@,
        );
    }

    let ghost received_views = trusted_payload.envelopes.deep_view();
    let ghost sender_key = trust_sender(body@, trusted_public_keys.deep_view());
    match mailroom.receive_payload_at_time(&trusted_payload, now) {
        Ok(u) => {
            let TrustedPayload { public_key, certificate, envelopes, unverified_messages_count } =
                trusted_payload;
            proof {
                assert(envelopes.deep_view() == received_views);
                assert(receive_post(
                    old(mailroom)@,
                    mailroom@,
                    sender_key,
                    envelopes.deep_view(),
                    Ok::<(), MailroomError<A::Error>>(()),
                    now,
                ));
            }
            SenderOutcome::ReceivedFromListener(envelopes)
        },
        Err(MailroomError::AlreadyReceivedFromKey) => {
            proof {
                assert(receive_post(
                    old(mailroom)@,
                    mailroom@,
                    sender_key,
                    received_views,
                    Err::<(), MailroomError<A::Error>>(MailroomError::AlreadyReceivedFromKey),
                    now,
                ));
            }
            SenderOutcome::AlreadyReceivedFromListener
        },
        Err(MailroomError::ArchiveFailure(e)) => {
            let result = SenderOutcome::ArchiveError(e);
            proof {
                let e2 = result->ArchiveError_0;
                assert(receive_post(
                    old(mailroom)@,
                    mailroom@,
                    sender_key,
                    received_views,
                    Err::<(), MailroomError<A::Error>>(MailroomError::ArchiveFailure(e2)),
                    now,
                ));
                assert(exists|envs: Seq<EnvelopeView>|
                    #[trigger] receive_post(
                        old(mailroom)@,
                        mailroom@,
                        sender_key,
                        envs,
                        Err::<(), MailroomError<A::Error>>(MailroomError::ArchiveFailure(e2)),
                        now,
                    ));
            }
            result
        },
    }
}

} // verus!
