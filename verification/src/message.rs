//! The in-memory record types of the relay: certificates, message contents,
//! messages and envelopes. Purely passive data; equality includes all fields.

use vstd::prelude::*;

verus! {

/// A (public key, signature) pair binding an identity to a payload.
/// Both fields are base64 text; the signature is always over the canonical
/// JSON bytes of the object the certificate authenticates.
#[derive(Debug, Clone, PartialEq, Eq, Hash)]
pub struct Certificate {
    pub key: String,
    pub signature: String,
}

/// The mathematical value of a [`Certificate`].
pub struct CertificateView {
    pub key: Seq<char>,
    pub signature: Seq<char>,
}

impl View for Certificate {
    type V = CertificateView;

    open spec fn view(&self) -> CertificateView {
        CertificateView { key: self.key@, signature: self.signature@ }
    }
}

impl Certificate {
    /// Whether two certificates hold the same text.
    pub fn same_certificate(&self, other: &Certificate) -> (r: bool)
        ensures
            r == (self@ == other@),
    {
        let r = self.key == other.key && self.signature == other.signature;
        proof {
            if self.key@ == other.key@ && self.signature@ == other.signature@ {
                assert(self@ == other@);
            }
        }
        r
    }

    /// An owned copy of the certificate.
    pub fn duplicate(&self) -> (r: Self)
        ensures
            r@ == self@,
    {
        Certificate { key: self.key.clone(), signature: self.signature.clone() }
    }
}

/// An authored unit of text: a fresh UUID, a display-only author name, and
/// the line itself.
#[derive(Debug, Clone, PartialEq, Eq, Hash)]
pub struct MessageContents {
    pub uuid: String,
    pub author: String,
    pub line: String,
}

/// The mathematical value of a [`MessageContents`].
pub struct MessageContentsView {
    pub uuid: Seq<char>,
    pub author: Seq<char>,
    pub line: Seq<char>,
}

impl View for MessageContents {
    type V = MessageContentsView;

    open spec fn view(&self) -> MessageContentsView {
        MessageContentsView { uuid: self.uuid@, author: self.author@, line: self.line@ }
    }
}

impl MessageContents {
    /// An owned copy of the contents.
    pub fn duplicate(&self) -> (r: Self)
        ensures
            r@ == self@,
    {
        MessageContents {
            uuid: self.uuid.clone(),
            author: self.author.clone(),
            line: self.line.clone(),
        }
    }
}

/// An immutable signed authored unit: contents plus the certificate whose
/// signature covers the canonical JSON bytes of the contents. The key of the
/// certificate is the author of record for routing.
#[derive(Debug, Clone, PartialEq, Eq, Hash)]
pub struct Message {
    pub certificate: Certificate,
    pub contents: MessageContents,
}

/// The mathematical value of a [`Message`].
pub struct MessageView {
    pub certificate: CertificateView,
    pub contents: MessageContentsView,
}

impl View for Message {
    type V = MessageView;

    open spec fn view(&self) -> MessageView {
        MessageView { certificate: self.certificate@, contents: self.contents@ }
    }
}

impl DeepView for Message {
    type V = MessageView;

    open spec fn deep_view(&self) -> MessageView {
        self@
    }
}

impl Message {
    /// Whether two messages hold the same fields.
    pub fn same_message(&self, other: &Message) -> (r: bool)
        ensures
            r == (self@ == other@),
    {
        let r = self.certificate.same_certificate(&other.certificate)
            && self.contents.uuid == other.contents.uuid
            && self.contents.author == other.contents.author
            && self.contents.line == other.contents.line;
        proof {
            if self.certificate@ == other.certificate@ && self.contents@ == other.contents@ {
                assert(self@ == other@);
            }
            if self@ == other@ {
                assert(self.certificate@ == other.certificate@);
                assert(self.contents@ == other.contents@);
            }
        }
        r
    }

    /// An owned copy of the message.
    pub fn duplicate(&self) -> (r: Self)
        ensures
            r@ == self@,
    {
        Message { certificate: self.certificate.duplicate(), contents: self.contents.duplicate() }
    }
}

/// A per-hop container: a message plus routing metadata. `forwarded` is the
/// ordered log of base64 public keys that have relayed this envelope; `ttl`
/// counts remaining hops.
#[derive(Debug, Clone, PartialEq, Eq)]
pub struct Envelope {
    pub forwarded: Vec<String>,
    pub ttl: u8,
    pub message: Message,
}

/// The mathematical value of an [`Envelope`].
pub struct EnvelopeView {
    pub forwarded: Seq<Seq<char>>,
    pub ttl: u8,
    pub message: MessageView,
}

impl View for Envelope {
    type V = EnvelopeView;

    open spec fn view(&self) -> EnvelopeView {
        EnvelopeView {
            forwarded: self.forwarded.deep_view(),
            ttl: self.ttl,
            message: self.message@,
        }
    }
}

impl DeepView for Envelope {
    type V = EnvelopeView;

    open spec fn deep_view(&self) -> EnvelopeView {
        self@
    }
}

impl Envelope {
    /// An owned copy of the envelope.
    pub fn duplicate(&self) -> (r: Self)
        ensures
            r@ == self@,
    {
        let mut forwarded: Vec<String> = Vec::new();
        let n = self.forwarded.len();
        let mut i: usize = 0;
        while i < n
            invariant
                n == self.forwarded@.len(),
                i <= n,
                forwarded@.len() == i,
                forall|k: int| 0 <= k < i ==> forwarded@[k]@ == self.forwarded@[k]@,
            decreases n - i,
        {
            forwarded.push(self.forwarded[i].clone());
            i += 1;
        }
        let r = Envelope { forwarded, ttl: self.ttl, message: self.message.duplicate() };
        proof {
            assert(r@.forwarded =~= self@.forwarded);
        }
        r
    }
}

} // verus!
