//! End-to-end relay scenarios: two-peer exchange, chains, duplicate and
//! trust rejection, line cadence, and TTL exhaustion.

use std::cell::RefCell;
use std::rc::Rc;

use relay_core::archive::MemoryArchive;
use relay_core::crypto::{PublicKey, SecretKey};
use relay_core::lines::{GetNextLine, NextLine};
use relay_core::mailroom::{
    Mailroom, MailroomError, OutgoingConfig, OutgoingEnvelopes, DEFAULT_INITIAL_TTL,
};
use relay_core::message::{Certificate, Envelope, Message, MessageContents};
use relay_core::payload::{UntrustedPayload, UntrustedPayloadError};

/// A line source that makes a unique line per draw and remembers the last.
struct UniqueLines {
    name: String,
    count: Rc<RefCell<u32>>,
    last: Rc<RefCell<Option<String>>>,
}

impl GetNextLine for UniqueLines {
    /// Ghost-only in the verified library; never called at runtime.
    fn drawn(&self) -> relay_core::lines::DrawnView {
        loop {}
    }

    fn get_next_line(&mut self) -> Option<NextLine> {
        let mut count = self.count.borrow_mut();
        *count += 1;
        let line = format!("{}: line {}", self.name, *count);
        *self.last.borrow_mut() = Some(line.clone());
        Some(NextLine {
            line,
            author: self.name.clone(),
        })
    }
}

#[derive(Debug)]
enum ReceiveError {
    ReadPayload(UntrustedPayloadError),
    TrustPayload(UntrustedPayloadError),
    ReceiveInMailroom(MailroomError<()>),
}

struct TestRelay {
    public_key: PublicKey,
    mailroom: Mailroom<UniqueLines, MemoryArchive>,
    trusted_keys: Vec<PublicKey>,
    send_on_minute: u32,
    last: Rc<RefCell<Option<String>>>,
}

impl TestRelay {
    fn new(name: &str, send_on_minute: u32) -> TestRelay {
        let secret_key = SecretKey::generate();
        let public_key = secret_key.public_key();
        let last = Rc::new(RefCell::new(None));
        let source = UniqueLines {
            name: name.to_owned(),
            count: Rc::new(RefCell::new(0)),
            last: Rc::clone(&last),
        };
        let mailroom =
            Mailroom::new_with_custom_time(source, MemoryArchive::new(), secret_key, 60).unwrap();
        TestRelay {
            public_key,
            mailroom,
            trusted_keys: Vec::new(),
            send_on_minute,
            last,
        }
    }

    fn add_trusted_key(&mut self, key: &PublicKey) {
        self.trusted_keys.push(key.clone());
    }

    fn create_payload(&mut self, for_key: &PublicKey, at: u64) -> Vec<u8> {
        let outgoing = self
            .mailroom
            .get_outgoing_at_time(
                for_key,
                OutgoingConfig::new(Some(self.send_on_minute), None, None),
                at,
            )
            .unwrap();
        outgoing.create_payload().unwrap()
    }

    fn receive_payload(&mut self, payload: &[u8], at: u64) -> Result<(), ReceiveError> {
        let untrusted = UntrustedPayload::from_json(payload).map_err(ReceiveError::ReadPayload)?;
        let trusted = untrusted
            .try_trust(&self.trusted_keys)
            .map_err(ReceiveError::TrustPayload)?;
        self.mailroom
            .receive_payload_at_time(&trusted, at)
            .map_err(ReceiveError::ReceiveInMailroom)?;
        Ok(())
    }

    fn current_line(&self) -> Option<String> {
        self.last.borrow().clone()
    }

    fn has_message_with_line(&self, line: &str) -> bool {
        self.mailroom
            .archive_ref()
            .messages
            .iter()
            .any(|message| message.contents.line == line)
    }

    fn has_message_from(&self, from_key: &PublicKey) -> bool {
        let key_text = from_key.to_string();
        self.mailroom
            .archive_ref()
            .messages
            .iter()
            .any(|message| message.certificate.key == key_text)
    }

    fn has_forwarded_from(&self, from_key: &PublicKey) -> bool {
        let key_text = from_key.to_string();
        self.mailroom
            .archive_ref()
            .envelopes
            .iter()
            .any(|(_, envelope)| envelope.forwarded.iter().any(|f| *f == key_text))
    }
}

/// A base instant whose minute-of-hour every test aligns its cadence to.
const T0: u64 = 1_700_000_000;

fn minute_of(t: u64) -> u32 {
    ((t / 60) % 60) as u32
}

fn mutually_trust(a: &mut TestRelay, b: &mut TestRelay) {
    let ka = a.public_key.clone();
    let kb = b.public_key.clone();
    a.add_trusted_key(&kb);
    b.add_trusted_key(&ka);
}

fn send_payload(from: &mut TestRelay, to: &mut TestRelay, at: u64) -> Result<(), ReceiveError> {
    let to_key = to.public_key.clone();
    let payload = from.create_payload(&to_key, at);
    to.receive_payload(&payload, at)
}

fn exchange_payloads(a: &mut TestRelay, b: &mut TestRelay, at: u64) -> Result<(), ReceiveError> {
    send_payload(a, b, at)?;
    send_payload(b, a, at)?;
    Ok(())
}

#[test]
fn reject_malformed() {
    let mut relay_a = TestRelay::new("a", 0);

    assert!(matches!(
        relay_a.receive_payload(b"{\"fact\": \"this json is nonsense\"}", T0),
        Err(ReceiveError::ReadPayload(
            UntrustedPayloadError::CannotParseJson
        ))
    ))
}

#[test]
fn reject_untrusted() {
    let mut relay_a = TestRelay::new("a", 0);
    let mut relay_b = TestRelay::new("b", 0);

    assert!(matches!(
        send_payload(&mut relay_a, &mut relay_b, T0),
        Err(ReceiveError::TrustPayload(
            UntrustedPayloadError::PublicKeyNotTrusted
        ))
    ));
}

#[test]
fn reject_already_received_this_minute() {
    let mut relay_a = TestRelay::new("a", 0);
    let mut relay_b = TestRelay::new("b", 0);

    mutually_trust(&mut relay_a, &mut relay_b);

    let now = T0;

    send_payload(&mut relay_a, &mut relay_b, now).unwrap();
    assert!(matches!(
        send_payload(&mut relay_a, &mut relay_b, now),
        Err(ReceiveError::ReceiveInMailroom(
            MailroomError::AlreadyReceivedFromKey
        ))
    ));
}

#[test]
fn send_different_line_every_hour() {
    let mut time = T0;
    let mut relay_a = TestRelay::new("a", minute_of(time));

    let mut lines = Vec::new();

    for _ in 0..10 {
        let other = SecretKey::generate().public_key();
        relay_a.create_payload(&other, time);
        lines.push(relay_a.current_line());
        time += 3600;
    }

    assert!(lines.iter().all(|line| line.is_some()));
    for i in 0..lines.len() {
        for j in 0..i {
            assert_ne!(lines[i], lines[j]);
        }
    }
}

#[test]
fn send_same_line_in_same_hour() {
    let now = T0;
    let mut relay_a = TestRelay::new("a", minute_of(now));

    let other = SecretKey::generate().public_key();
    relay_a.create_payload(&other, now);
    let first_line = relay_a.current_line();

    let other = SecretKey::generate().public_key();
    relay_a.create_payload(&other, now);
    let second_line = relay_a.current_line();

    assert_eq!(first_line, second_line);
}

#[test]
fn relay_exchange() {
    let now = T0;
    let mut relay_a = TestRelay::new("a", minute_of(now));
    let mut relay_b = TestRelay::new("b", minute_of(now));

    mutually_trust(&mut relay_a, &mut relay_b);

    exchange_payloads(&mut relay_a, &mut relay_b, now).unwrap();

    assert!(relay_b.has_message_with_line(&relay_a.current_line().unwrap()));
    assert!(relay_a.has_message_with_line(&relay_b.current_line().unwrap()));
}

#[test]
fn relay_chain() {
    let now = T0;

    let mut relay_a = TestRelay::new("a", minute_of(now));
    let mut relay_b = TestRelay::new("b", 0);
    let mut relay_c = TestRelay::new("c", 0);

    mutually_trust(&mut relay_a, &mut relay_b);
    mutually_trust(&mut relay_b, &mut relay_c);

    exchange_payloads(&mut relay_a, &mut relay_b, now).unwrap();
    exchange_payloads(&mut relay_b, &mut relay_c, now).unwrap();

    let relay_a_line = relay_a.current_line().unwrap();

    assert!(relay_a.has_message_with_line(&relay_a_line));
    assert!(relay_b.has_message_with_line(&relay_a_line));
    assert!(!relay_c.has_message_with_line(&relay_a_line));
    let b_key = relay_b.public_key.clone();
    assert!(!relay_c.has_forwarded_from(&b_key));

    let a_minute_later = now + 60;

    exchange_payloads(&mut relay_a, &mut relay_b, a_minute_later).unwrap();
    exchange_payloads(&mut relay_b, &mut relay_c, a_minute_later).unwrap();

    assert!(relay_a.has_message_with_line(&relay_a_line));
    assert!(relay_b.has_message_with_line(&relay_a_line));
    assert!(relay_c.has_message_with_line(&relay_a_line));
    assert!(relay_c.has_forwarded_from(&b_key));
}

#[test]
fn ttl_exhaustion() {
    let mut current_time = T0;
    let mut current_relay = TestRelay::new("origin", minute_of(current_time));
    let origin_key = current_relay.public_key.clone();

    for i in 0..DEFAULT_INITIAL_TTL {
        let mut next_relay = TestRelay::new(&i.to_string(), 0);
        mutually_trust(&mut current_relay, &mut next_relay);
        exchange_payloads(&mut current_relay, &mut next_relay, current_time).unwrap();
        assert!(next_relay.has_message_from(&origin_key));
        current_relay = next_relay;
        current_time += 60;
    }

    let mut final_relay = TestRelay::new("last", 0);
    mutually_trust(&mut current_relay, &mut final_relay);
    exchange_payloads(&mut current_relay, &mut final_relay, current_time).unwrap();
    assert!(!final_relay.has_message_from(&origin_key));
}

#[test]
fn round_trip_own_payload() {
    let now = T0;
    let mut relay_a = TestRelay::new("a", minute_of(now));
    let own_key = relay_a.public_key.clone();

    let other = SecretKey::generate().public_key();
    let payload = relay_a.create_payload(&other, now);

    let untrusted = UntrustedPayload::from_json(&payload).unwrap();
    let trusted = untrusted.try_trust(&vec![own_key]).unwrap();
    assert_eq!(trusted.envelopes().len(), 1);
    assert_eq!(trusted.unverified_messages_count(), 0);
    assert_eq!(
        trusted.envelopes()[0].message.contents.line,
        relay_a.current_line().unwrap()
    );
    assert_eq!(trusted.envelopes()[0].ttl, DEFAULT_INITIAL_TTL);
    assert!(trusted.envelopes()[0].forwarded.is_empty());
}

#[test]
fn unverified_inner_message_is_counted() {
    let sender_secret = SecretKey::generate();
    let sender_key = sender_secret.public_key();
    let inner_key = SecretKey::generate().public_key();
    let zero_signature = "A".repeat(85) + "A==";

    let forged = Envelope {
        forwarded: Vec::new(),
        ttl: 3,
        message: Message {
            certificate: Certificate {
                key: inner_key.to_string(),
                signature: zero_signature,
            },
            contents: MessageContents {
                uuid: "not-a-real-uuid".to_owned(),
                author: "forger".to_owned(),
                line: "a line nobody signed".to_owned(),
            },
        },
    };

    let outgoing = OutgoingEnvelopes {
        envelopes: vec![forged],
        secret_key: sender_secret,
    };
    let body = outgoing.create_payload().unwrap();

    let trusted = UntrustedPayload::from_json(&body)
        .unwrap()
        .try_trust(&vec![sender_key])
        .unwrap();
    assert_eq!(trusted.envelopes().len(), 0);
    assert_eq!(trusted.unverified_messages_count(), 1);
}

#[test]
fn flipped_outer_signature_fails_trust() {
    let now = T0;
    let mut relay_a = TestRelay::new("a", minute_of(now));
    let own_key = relay_a.public_key.clone();

    let other = SecretKey::generate().public_key();
    let payload = relay_a.create_payload(&other, now);

    let untrusted = UntrustedPayload::from_json(&payload).unwrap();
    let mut tampered_raw = untrusted.envelopes_raw.clone();
    let line = relay_a.current_line().unwrap();
    let needle = line.as_bytes();
    let pos = tampered_raw
        .windows(needle.len())
        .position(|w| w == needle)
        .unwrap();
    tampered_raw[pos] ^= 0x01;
    let tampered = UntrustedPayload {
        certificate: untrusted.certificate,
        envelopes_raw: tampered_raw,
    };
    assert!(matches!(
        tampered.try_trust(&vec![own_key]),
        Err(UntrustedPayloadError::CannotVerify)
    ));
}

#[test]
fn loopback_suppressed_toward_author() {
    let start = T0;
    let mut relay_d = TestRelay::new("d", minute_of(start));
    let mut relay_k = TestRelay::new("k", 0);
    let mut relay_a = TestRelay::new("a", 0);

    mutually_trust(&mut relay_d, &mut relay_k);
    mutually_trust(&mut relay_k, &mut relay_a);
    mutually_trust(&mut relay_a, &mut relay_d);

    // D's message reaches A through K across two periods.
    exchange_payloads(&mut relay_d, &mut relay_k, start).unwrap();
    exchange_payloads(&mut relay_k, &mut relay_a, start + 60).unwrap();
    let d_key_text = relay_d.public_key.to_string();
    assert!(relay_a
        .mailroom
        .archive_ref()
        .messages
        .iter()
        .any(|m| m.certificate.key == d_key_text));

    // What A would now send to D carries nothing D authored itself.
    let d_key = relay_d.public_key.clone();
    let body = relay_a.create_payload(&d_key, start + 120);
    let trusted = UntrustedPayload::from_json(&body)
        .unwrap()
        .try_trust(&vec![relay_a.public_key.clone()])
        .unwrap();
    assert!(trusted
        .envelopes()
        .iter()
        .all(|e| e.message.certificate.key != d_key_text));
}
