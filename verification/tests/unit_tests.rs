//! Value-level tests: keys and base64, canonical JSON, payload parsing,
//! line sources, the archive, configuration and the listener decisions.

use relay_core::archive::{Archive, MemoryArchive};
use relay_core::config::{DaemonConfig, RelayData, RelayDataError, RelaytConfig};
use relay_core::crypto::{canonical_json, NewKeyError, PublicKey, SecretKey};
use relay_core::exchange::{listener_status, respond_to_sender, ListenerOutcome};
use relay_core::lines::{GetNextLine, LineGenerator, NextLine};
use relay_core::mailroom::{
    Mailroom, OutgoingConfig, DEFAULT_INITIAL_TTL, DEFAULT_MAX_FORWARDING_TTL,
};
use relay_core::message::{Certificate, Envelope, Message, MessageContents};
use relay_core::payload::{UntrustedPayload, UntrustedPayloadError};

/// RFC 8032 test vector 1: this secret key derives this public key.
#[test]
fn public_key_derivation_matches_known_vector() {
    let secret_bytes: Vec<u8> = vec![
        0x9d, 0x61, 0xb1, 0x9d, 0xef, 0xfd, 0x5a, 0x60, 0xba, 0x84, 0x4a, 0xf4, 0x92, 0xec, 0x2c,
        0xc4, 0x44, 0x49, 0xc5, 0x69, 0x7b, 0x32, 0x69, 0x19, 0x70, 0x3b, 0xac, 0x03, 0x1c, 0xae,
        0x7f, 0x60,
    ];
    let expected_public: Vec<u8> = vec![
        0xd7, 0x5a, 0x98, 0x01, 0x82, 0xb1, 0x0a, 0xb7, 0xd5, 0x4b, 0xfe, 0xd3, 0xc9, 0x64, 0x07,
        0x3a, 0x0e, 0xe1, 0x72, 0xf3, 0xda, 0xa6, 0x23, 0x25, 0xaf, 0x02, 0x1a, 0x68, 0xf7, 0x07,
        0x51, 0x1a,
    ];
    let secret = SecretKey::new_from_bytes(secret_bytes);
    assert_eq!(secret.public_key().as_bytes(), &expected_public[..]);
}

#[test]
fn key_base64_round_trip() {
    let secret = SecretKey::generate();
    let public = secret.public_key();
    let text = public.to_string();
    assert_eq!(text.len(), 44);
    let back = PublicKey::new_from_b64(&text).unwrap();
    assert_eq!(back.as_bytes(), public.as_bytes());

    let secret_text = secret.to_string();
    let secret_back = SecretKey::new_from_b64(&secret_text).unwrap();
    assert_eq!(secret_back.as_bytes(), secret.as_bytes());
}

#[test]
fn key_decode_errors() {
    assert!(matches!(
        PublicKey::new_from_b64("!!not base64!!"),
        Err(NewKeyError::CannotDecode)
    ));
    assert!(matches!(
        PublicKey::new_from_b64("YWJj"),
        Err(NewKeyError::IncorrectLength)
    ));
    assert!(matches!(
        SecretKey::new_from_b64("YWJj"),
        Err(NewKeyError::IncorrectLength)
    ));
}

#[test]
fn canonical_json_sorts_keys_and_strips_whitespace() {
    let canon = canonical_json(b"{\"b\": 1, \"a\": 2}").unwrap();
    assert_eq!(canon, b"{\"a\":2,\"b\":1}".to_vec());
}

#[test]
fn canonical_json_is_idempotent() {
    let input = b"{\"b\": [1, 2, {\"z\": null, \"y\": \"x\"}], \"a\": true}".to_vec();
    let once = canonical_json(&input).unwrap();
    let twice = canonical_json(&once).unwrap();
    assert_eq!(once, twice);
}

#[test]
fn canonical_json_rejects_junk() {
    assert!(canonical_json(b"this is not json").is_none());
}

#[test]
fn parse_payload_document_fields() {
    let body = b"{\"certificate\":{\"key\":\"abc\",\"signature\":\"def\"},\"envelopes\":[]}";
    let untrusted = UntrustedPayload::from_json(body).unwrap();
    assert_eq!(untrusted.certificate.key, "abc");
    assert_eq!(untrusted.certificate.signature, "def");
    assert_eq!(untrusted.envelopes_raw, b"[]".to_vec());
}

#[test]
fn parse_rejects_wrong_shapes() {
    assert!(UntrustedPayload::from_json(b"").is_err());
    assert!(UntrustedPayload::from_json(b"{}").is_err());
    assert!(UntrustedPayload::from_json(b"[1,2,3]").is_err());
    assert!(UntrustedPayload::from_json(
        b"{\"certificate\":{\"key\":\"a\"},\"envelopes\":[]}"
    )
    .is_err());
    assert!(UntrustedPayload::from_json(
        b"{\"certificate\":{\"key\":1,\"signature\":\"b\"},\"envelopes\":[]}"
    )
    .is_err());
}

#[test]
fn parse_accepts_reordered_keys() {
    let body = b"{\"envelopes\":[],\"certificate\":{\"signature\":\"b\",\"key\":\"a\"}}";
    let untrusted = UntrustedPayload::from_json(body).unwrap();
    assert_eq!(untrusted.certificate.key, "a");
    assert_eq!(untrusted.certificate.signature, "b");
    assert_eq!(untrusted.envelopes_raw, b"[]".to_vec());
}

#[test]
fn trust_rejects_malformed_key() {
    let body = b"{\"certificate\":{\"key\":\"!!!\",\"signature\":\"def\"},\"envelopes\":[]}";
    let untrusted = UntrustedPayload::from_json(body).unwrap();
    assert!(matches!(
        untrusted.try_trust(&Vec::new()),
        Err(UntrustedPayloadError::MalformedPublicKey)
    ));
}

#[test]
fn trust_rejects_unknown_key() {
    let stranger = SecretKey::generate().public_key();
    let body = format!(
        "{{\"certificate\":{{\"key\":\"{}\",\"signature\":\"def\"}},\"envelopes\":[]}}",
        stranger.to_string()
    );
    let untrusted = UntrustedPayload::from_json(body.as_bytes()).unwrap();
    assert!(matches!(
        untrusted.try_trust(&Vec::new()),
        Err(UntrustedPayloadError::PublicKeyNotTrusted)
    ));
}

#[test]
fn trust_rejects_bad_outer_signature() {
    let stranger = SecretKey::generate().public_key();
    let body = format!(
        "{{\"certificate\":{{\"key\":\"{}\",\"signature\":\"def\"}},\"envelopes\":[]}}",
        stranger.to_string()
    );
    let untrusted = UntrustedPayload::from_json(body.as_bytes()).unwrap();
    assert!(matches!(
        untrusted.try_trust(&vec![stranger]),
        Err(UntrustedPayloadError::CannotVerify)
    ));
}

#[test]
fn line_generator_round_robin() {
    let poem = vec![
        "first".to_owned(),
        "second".to_owned(),
        "third".to_owned(),
    ];
    let mut generator = LineGenerator::new("someone".to_owned(), poem);
    let drawn: Vec<String> = (0..4)
        .map(|_| generator.get_next_line().unwrap().line)
        .collect();
    assert_eq!(drawn, vec!["first", "second", "third", "first"]);
    assert_eq!(
        generator.get_next_line().unwrap().author,
        "someone".to_owned()
    );
}

#[test]
fn line_generator_empty_poem_and_update() {
    let mut generator = LineGenerator::new("someone".to_owned(), Vec::new());
    assert!(GetNextLine::get_next_line(&mut generator).is_none());

    generator.update_poem(vec!["only".to_owned()]);
    assert_eq!(generator.get_next_line().unwrap().line, "only");
    assert_eq!(generator.get_next_line().unwrap().line, "only");
}

fn sample_message(line: &str) -> Message {
    Message {
        certificate: Certificate {
            key: "key-text".to_owned(),
            signature: format!("sig-{line}"),
        },
        contents: MessageContents {
            uuid: "0000".to_owned(),
            author: "someone".to_owned(),
            line: line.to_owned(),
        },
    }
}

#[test]
fn memory_archive_stores_and_finds_messages() {
    let mut archive = MemoryArchive::new();
    let message = sample_message("hello");
    let envelope = Envelope {
        forwarded: vec!["hop".to_owned()],
        ttl: 3,
        message: message.clone(),
    };
    assert_eq!(archive.is_message_in_archive(&message), Ok(false));
    archive.add_envelope_to_archive("from-key", &envelope).unwrap();
    assert_eq!(archive.is_message_in_archive(&message), Ok(true));
    archive.add_envelope_to_archive("from-key", &envelope).unwrap();
    assert_eq!(archive.messages.len(), 1);
    assert_eq!(archive.envelopes.len(), 2);
    assert_eq!(archive.envelopes[0].0, "from-key");
}

#[test]
fn outgoing_config_defaults() {
    let config = OutgoingConfig::new(Some(7), None, None);
    assert_eq!(config.send_on_minute, Some(7));
    assert_eq!(config.initial_ttl, DEFAULT_INITIAL_TTL);
    assert_eq!(config.max_forwarding_ttl, DEFAULT_MAX_FORWARDING_TTL);
    assert_eq!(DEFAULT_INITIAL_TTL, 8);
    assert_eq!(DEFAULT_MAX_FORWARDING_TTL, 8);

    let default_config = OutgoingConfig::default();
    assert_eq!(default_config.send_on_minute, Some(0));

    let custom = OutgoingConfig::new(None, Some(3), Some(5));
    assert_eq!(custom.initial_ttl, 3);
    assert_eq!(custom.max_forwarding_ttl, 5);
}

#[test]
fn relay_data_validates_endpoint() {
    let key = SecretKey::generate().public_key();
    let good = RelayData::new(
        key.clone(),
        Some("friend".to_owned()),
        Some("http://localhost:7070".to_owned()),
    );
    assert!(good.is_ok());

    let bad = RelayData::new(key.clone(), None, Some("not a url".to_owned()));
    assert!(matches!(bad, Err(RelayDataError::UrlNotValid)));

    let none = RelayData::new(key, None, None);
    assert!(none.is_ok());
}

#[test]
fn daemon_config_collects_trusted_keys() {
    let key_a = SecretKey::generate().public_key();
    let key_b = SecretKey::generate().public_key();
    let config = DaemonConfig {
        trusted_relays: vec![
            RelayData::new(key_a.clone(), None, None).unwrap(),
            RelayData::new(key_b.clone(), None, None).unwrap(),
        ],
        send_on_minute: Some(0),
        custom_initial_ttl: None,
        custom_max_forwarding_ttl: None,
    };
    let keys = config.trusted_public_keys();
    assert_eq!(keys.len(), 2);
    assert_eq!(keys[0].as_bytes(), key_a.as_bytes());
    assert_eq!(keys[1].as_bytes(), key_b.as_bytes());

    let file = RelaytConfig {
        name: "a".to_owned(),
        listener: None,
        initial_ttl: Some(4),
        max_forwarding_ttl: None,
        minute: Some(9),
        trusted_relays: config.trusted_relays,
    };
    let daemon = file.daemon_config();
    assert_eq!(daemon.send_on_minute, Some(9));
    assert_eq!(daemon.custom_initial_ttl, Some(4));
    assert_eq!(daemon.trusted_relays.len(), 2);
}

/// A source with nothing to say.
struct SilentSource;

impl GetNextLine for SilentSource {
    /// Ghost-only in the verified library; never called at runtime.
    fn drawn(&self) -> relay_core::lines::DrawnView {
        loop {}
    }

    fn get_next_line(&mut self) -> Option<NextLine> {
        None
    }
}

#[test]
fn listener_answers_by_the_protocol() {
    let secret_b = SecretKey::generate();
    let key_b = secret_b.public_key();
    let mut mailroom_b =
        Mailroom::new_with_custom_time(SilentSource, MemoryArchive::new(), secret_b, 60).unwrap();

    let secret_a = SecretKey::generate();
    let key_a = secret_a.public_key();
    let mut mailroom_a =
        Mailroom::new_with_custom_time(SilentSource, MemoryArchive::new(), secret_a, 60).unwrap();

    let now: u64 = 1_700_000_000;
    let config = OutgoingConfig::new(Some(((now / 60) % 60) as u32), None, None);

    let outcome = respond_to_sender::<SilentSource, MemoryArchive>(
        &mut mailroom_b,
        &vec![key_a.clone()],
        config,
        b"junk",
        now,
    );
    assert!(matches!(outcome, ListenerOutcome::BadPayload));
    assert_eq!(listener_status(&outcome), 400);

    let body = mailroom_a
        .get_outgoing_at_time(&key_b, config, now)
        .unwrap()
        .create_payload()
        .unwrap();

    let outcome = respond_to_sender::<SilentSource, MemoryArchive>(
        &mut mailroom_b,
        &Vec::new(),
        config,
        &body,
        now,
    );
    assert!(matches!(
        outcome,
        ListenerOutcome::Untrusted(UntrustedPayloadError::PublicKeyNotTrusted)
    ));
    assert_eq!(listener_status(&outcome), 403);

    let outcome = respond_to_sender::<SilentSource, MemoryArchive>(
        &mut mailroom_b,
        &vec![key_a.clone()],
        config,
        &body,
        now,
    );
    match &outcome {
        ListenerOutcome::Replied(reply) => {
            assert_eq!(listener_status(&outcome), 200);
            assert!(UntrustedPayload::from_json(&reply.body).is_ok());
        }
        _ => panic!("expected a reply"),
    }

    let outcome = respond_to_sender::<SilentSource, MemoryArchive>(
        &mut mailroom_b,
        &vec![key_a],
        config,
        &body,
        now,
    );
    assert!(matches!(outcome, ListenerOutcome::AlreadyReceived));
    assert_eq!(listener_status(&outcome), 403);
}

#[test]
fn string_escapes_round_trip_on_the_wire() {
    let secret = SecretKey::generate();
    let key = secret.public_key();
    let tricky = "quote \" backslash \\ tab \t newline \n accent \u{e9} done";

    struct OneLine {
        line: String,
    }

    impl GetNextLine for OneLine {
        /// Ghost-only in the verified library; never called at runtime.
        fn drawn(&self) -> relay_core::lines::DrawnView {
            loop {}
        }

        fn get_next_line(&mut self) -> Option<NextLine> {
            Some(NextLine {
                line: self.line.clone(),
                author: "tricky author \"\\".to_owned(),
            })
        }
    }

    let mut mailroom = Mailroom::new_with_custom_time(
        OneLine {
            line: tricky.to_owned(),
        },
        MemoryArchive::new(),
        secret,
        60,
    )
    .unwrap();

    let now: u64 = 1_700_000_000;
    let config = OutgoingConfig::new(Some(((now / 60) % 60) as u32), None, None);
    let other = SecretKey::generate().public_key();
    let body = mailroom
        .get_outgoing_at_time(&other, config, now)
        .unwrap()
        .create_payload()
        .unwrap();

    let trusted = UntrustedPayload::from_json(&body)
        .unwrap()
        .try_trust(&vec![key])
        .unwrap();
    assert_eq!(trusted.envelopes().len(), 1);
    assert_eq!(trusted.envelopes()[0].message.contents.line, tricky);
    assert_eq!(
        trusted.envelopes()[0].message.contents.author,
        "tricky author \"\\"
    );
}

#[test]
fn poem_lines_appear_across_periods_in_order() {
    let secret = SecretKey::generate();
    let key = secret.public_key();
    let poem: Vec<String> = (0..10).map(|i| format!("poem line {i}")).collect();
    let generator = LineGenerator::new("poet".to_owned(), poem.clone());
    let mut mailroom =
        Mailroom::new_with_custom_time(generator, MemoryArchive::new(), secret, 60).unwrap();

    let start: u64 = 1_700_000_000;
    let config = OutgoingConfig::new(None, None, None);
    let other = SecretKey::generate().public_key();

    let mut seen = Vec::new();
    for k in 0..10 {
        let now = start + 60 * k;
        let body = mailroom
            .get_outgoing_at_time(&other, config, now)
            .unwrap()
            .create_payload()
            .unwrap();
        let trusted = UntrustedPayload::from_json(&body)
            .unwrap()
            .try_trust(&vec![key.clone()])
            .unwrap();
        let own_line = trusted
            .envelopes()
            .iter()
            .find(|e| e.forwarded.is_empty())
            .unwrap()
            .message
            .contents
            .line
            .clone();
        seen.push(own_line);
    }
    assert_eq!(seen, poem);
}

#[test]
fn listener_status_follows_the_error_table() {
    let secret_b = SecretKey::generate();
    let mut mailroom_b = Mailroom::new_with_custom_time(
        SilentSource,
        MemoryArchive::new(),
        secret_b,
        60,
    )
    .unwrap();

    let now: u64 = 1_700_000_000;
    let config = OutgoingConfig::new(Some(((now / 60) % 60) as u32), None, None);

    let malformed_key_body =
        b"{\"certificate\":{\"key\":\"!!!\",\"signature\":\"def\"},\"envelopes\":[]}";
    let outcome = respond_to_sender::<SilentSource, MemoryArchive>(
        &mut mailroom_b,
        &Vec::new(),
        config,
        malformed_key_body,
        now,
    );
    assert!(matches!(
        outcome,
        ListenerOutcome::Untrusted(UntrustedPayloadError::MalformedPublicKey)
    ));
    assert_eq!(listener_status(&outcome), 400);

    let stranger = SecretKey::generate().public_key();
    let unverifiable_body = format!(
        "{{\"certificate\":{{\"key\":\"{}\",\"signature\":\"def\"}},\"envelopes\":[]}}",
        stranger.to_string()
    );
    let outcome = respond_to_sender::<SilentSource, MemoryArchive>(
        &mut mailroom_b,
        &vec![stranger],
        config,
        unverifiable_body.as_bytes(),
        now,
    );
    assert!(matches!(
        outcome,
        ListenerOutcome::Untrusted(UntrustedPayloadError::CannotVerify)
    ));
    assert_eq!(listener_status(&outcome), 403);
}

#[test]
fn foreign_json_formatting_is_accepted() {
    let secret = SecretKey::generate();
    let key = secret.public_key();
    let poem = vec!["a line with a tab\t and an accent \u{e9}".to_owned()];
    let generator = LineGenerator::new("poet".to_owned(), poem);
    let mut mailroom =
        Mailroom::new_with_custom_time(generator, MemoryArchive::new(), secret, 60).unwrap();

    let now: u64 = 1_700_000_000;
    let config = OutgoingConfig::new(None, None, None);
    let other = SecretKey::generate().public_key();
    let body = mailroom
        .get_outgoing_at_time(&other, config, now)
        .unwrap()
        .create_payload()
        .unwrap();

    // Reformat the document as another JSON library would emit it:
    // indentation, spaces, serde's escape style.
    let value: serde_json::Value = serde_json::from_slice(&body).unwrap();
    let pretty = serde_json::to_vec_pretty(&value).unwrap();
    assert_ne!(pretty, body);

    let trusted = UntrustedPayload::from_json(&pretty)
        .unwrap()
        .try_trust(&vec![key.clone()])
        .unwrap();
    assert_eq!(trusted.envelopes().len(), 1);
    assert_eq!(trusted.unverified_messages_count(), 0);
    assert_eq!(
        trusted.envelopes()[0].message.contents.line,
        "a line with a tab\t and an accent \u{e9}"
    );

    // The compact form as well.
    let compact = serde_json::to_vec(&value).unwrap();
    let trusted = UntrustedPayload::from_json(&compact)
        .unwrap()
        .try_trust(&vec![key])
        .unwrap();
    assert_eq!(trusted.envelopes().len(), 1);
}

#[test]
fn deeply_nested_envelopes_rejected_not_crashed() {
    let stranger = SecretKey::generate().public_key();
    let depth = 500_000;
    let mut body = format!(
        "{{\"certificate\":{{\"key\":\"{}\",\"signature\":\"def\"}},\"envelopes\":",
        stranger.to_string()
    )
    .into_bytes();
    body.extend(std::iter::repeat(b'[').take(depth));
    body.extend(std::iter::repeat(b']').take(depth));
    body.push(b'}');

    let untrusted = UntrustedPayload::from_json(&body).unwrap();
    assert!(matches!(
        untrusted.try_trust(&vec![stranger]),
        Err(UntrustedPayloadError::CannotParseJson)
    ));
}

#[test]
fn deeply_nested_body_rejected_not_crashed() {
    let depth = 500_000;
    let mut body = Vec::new();
    body.extend(std::iter::repeat(b'[').take(depth));
    body.extend(std::iter::repeat(b']').take(depth));
    assert!(matches!(
        UntrustedPayload::from_json(&body),
        Err(UntrustedPayloadError::CannotParseJson)
    ));
}
