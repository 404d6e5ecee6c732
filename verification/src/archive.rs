//! The archive interface: the durable store of messages and envelopes seen
//! to date, keyed by message signature (Ed25519 signatures are
//! deterministic, so the signature is a unique key for a message).
//!
//! The mailroom consumes this trait; an in-memory implementation lives
//! here, a persistent one can live outside the library.

use vstd::prelude::*;

verus! {

use crate::message::{Envelope, Message};

/// The ghost contents of an archive: the set of signature texts it holds.
pub type ArchivedView = Set<Seq<char>>;

/// A store of messages and envelopes. `archived` is the set of base64
/// signature texts of the messages the store holds; both operations may
/// fail with the implementation's error type, and a failed operation
/// promises nothing about the store's contents.
pub trait Archive: Sized {
    type Error;

    /// The signatures of the archived messages.
    spec fn archived(&self) -> ArchivedView;

    /// Whether a message with this signature is already archived.
    fn is_message_in_archive(&self, message: &Message) -> (r: Result<bool, Self::Error>)
        ensures
            r matches Ok(b) ==> b == self.archived().contains(message.certificate.signature@),
    ;

    /// Store an envelope, tagged with the key of the sender that delivered
    /// it; the envelope's message joins the archive.
    fn add_envelope_to_archive(&mut self, from: &str, envelope: &Envelope) -> (r: Result<
        (),
        Self::Error,
    >)
        ensures
            r matches Ok(v) ==> final(self).archived() == old(self).archived().insert(
                envelope.message.certificate.signature@,
            ),
    ;
}

/// An in-memory archive: messages deduplicated by signature, envelopes
/// kept with the key of the sender that delivered each.
pub struct MemoryArchive {
    pub messages: Vec<Message>,
    pub envelopes: Vec<(String, Envelope)>,
}

impl MemoryArchive {
    /// An empty archive.
    pub fn new() -> (r: Self)
        ensures
            r.archived() == Set::<Seq<char>>::empty(),
            r.messages@.len() == 0,
            r.envelopes@.len() == 0,
    {
        let r = MemoryArchive { messages: Vec::new(), envelopes: Vec::new() };
        proof {
            assert(r.archived() =~= Set::<Seq<char>>::empty());
        }
        r
    }

    /// Whether the store holds a message with this signature.
    fn holds_signature(&self, signature: &String) -> (r: bool)
        ensures
            r == self.archived().contains(signature@),
    {
        let n = self.messages.len();
        let mut i: usize = 0;
        let mut found = false;
        while i < n
            invariant
                n == self.messages@.len(),
                i <= n,
                found == (exists|t: int|
                    0 <= t < i && self.messages@[t].certificate.signature@ == signature@),
            decreases n - i,
        {
            if self.messages[i].certificate.signature == *signature {
                proof {
                    assert(self.messages@[i as int].certificate.signature@ == signature@);
                }
                found = true;
            }
            i += 1;
        }
        proof {
            if found {
                assert(self.archived().contains(signature@));
            }
            if self.archived().contains(signature@) {
                let t = choose|t: int|
                    0 <= t < self.messages@.len() && self.messages@[t].certificate.signature@
                        == signature@;
                assert(0 <= t < n);
            }
        }
        found
    }
}

impl Archive for MemoryArchive {
    type Error = ();

    /// The signatures of the stored messages.
    open spec fn archived(&self) -> Set<Seq<char>> {
        Set::new(
            |s: Seq<char>|
                exists|i: int|
                    0 <= i < self.messages@.len() && self.messages@[i].certificate.signature@ == s,
        )
    }

    fn is_message_in_archive(&self, message: &Message) -> (r: Result<bool, ()>)
        ensures
            r is Ok,
    {
        Ok(self.holds_signature(&message.certificate.signature))
    }

    fn add_envelope_to_archive(&mut self, from: &str, envelope: &Envelope) -> (r: Result<(), ()>)
        ensures
            r is Ok,
    {
        let sig_present = self.holds_signature(&envelope.message.certificate.signature);
        if !sig_present {
            self.messages.push(envelope.message.duplicate());
        }
        self.envelopes.push((from.to_owned(), envelope.duplicate()));
        proof {
            let sig = envelope.message.certificate.signature@;
            assert(self.archived() =~= old(self).archived().insert(sig)) by {
                if !sig_present {
                    let n = self.messages@.len();
                    assert(self.messages@[n - 1].certificate.signature@ == sig);
                    assert forall|s: Seq<char>|
                        old(self).archived().insert(sig).contains(s) implies self.archived()
                        .contains(s) by {
                        if s == sig {
                            assert(self.messages@[n - 1].certificate.signature@ == s);
                        } else {
                            let t = choose|t: int|
                                0 <= t < old(self).messages@.len() && old(
                                    self,
                                ).messages@[t].certificate.signature@ == s;
                            assert(self.messages@[t].certificate.signature@ == s);
                        }
                    }
                    assert forall|s: Seq<char>|
                        self.archived().contains(s) implies old(self).archived().insert(
                        sig,
                    ).contains(s) by {
                        let t = choose|t: int|
                            0 <= t < self.messages@.len()
                                && self.messages@[t].certificate.signature@ == s;
                        if t < n - 1 {
                            assert(old(self).messages@[t].certificate.signature@ == s);
                        }
                    }
                }
            }
        }
        Ok(())
    }
}

} // verus!
