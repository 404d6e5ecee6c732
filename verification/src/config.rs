//! Configuration data: the trusted peers with their optional endpoints and
//! nicknames, and the relay-level settings that feed the mailroom.

use vstd::prelude::*;

use core::str::FromStr;

verus! {

use crate::crypto::PublicKey;
use crate::mailroom::OutgoingConfig;

/// Why peer data could not be built.
#[derive(Debug, Clone, PartialEq, Eq)]
pub enum RelayDataError {
    /// The endpoint is not a valid URL (is it missing http/https?).
    UrlNotValid,
}

/// Whether a piece of text parses as an absolute URL.
pub uninterp spec fn url_valid(text: Seq<char>) -> bool;

/// Relies on `reqwest::Url::from_str` (the `url` crate's parser): whether
/// text parses as an absolute URL is a pure function of the text.
#[verifier::external_body]
fn url_check(text: &str) -> (r: bool)
    ensures
        r == url_valid(text@),
{
    reqwest::Url::from_str(text).is_ok()
}

/// One trusted peer: its public key (the identity), an optional nickname
/// for display, and an optional endpoint URL to send to.
#[derive(Debug, Clone, PartialEq, Eq)]
pub struct RelayData {
    pub key: PublicKey,
    pub nickname: Option<String>,
    pub endpoint: Option<String>,
}

impl RelayData {
    /// Peer data; a given endpoint must be a valid URL.
    pub fn new(key: PublicKey, nickname: Option<String>, listener_endpoint: Option<String>) -> (r:
        Result<Self, RelayDataError>)
        ensures
            match r {
                Ok(d) => {
                    &&& d.key@ == key@
                    &&& d.nickname == nickname
                    &&& d.endpoint == listener_endpoint
                    &&& (listener_endpoint matches Some(u) ==> url_valid(u@))
                },
                Err(e) => e == RelayDataError::UrlNotValid && (listener_endpoint matches Some(u)
                    && !url_valid(u@)),
            },
    {
        match &listener_endpoint {
            Some(url) => {
                if !url_check(url.as_str()) {
                    return Err(RelayDataError::UrlNotValid);
                }
            },
            None => {},
        }
        Ok(RelayData { key, nickname, endpoint: listener_endpoint })
    }

    /// The endpoint URL text, when the peer has one.
    pub fn endpoint(&self) -> (r: Option<&String>)
        ensures
            r matches Some(u) ==> self.endpoint matches Some(e) && u@ == e@,
            r is None ==> self.endpoint is None,
    {
        match &self.endpoint {
            Some(u) => Some(u),
            None => None,
        }
    }

    /// An owned copy of the peer data.
    pub fn duplicate(&self) -> (r: Self)
        ensures
            r.key@ == self.key@,
            r.nickname.deep_view() == self.nickname.deep_view(),
            r.endpoint.deep_view() == self.endpoint.deep_view(),
    {
        RelayData {
            key: self.key.duplicate(),
            nickname: match &self.nickname {
                Some(n) => Some(n.clone()),
                None => None,
            },
            endpoint: match &self.endpoint {
                Some(e) => Some(e.clone()),
                None => None,
            },
        }
    }
}

/// The settings the daemon drives the mailroom with: the trusted peers,
/// the sending minute and the TTL overrides.
#[derive(Debug, Clone, PartialEq, Eq)]
pub struct DaemonConfig {
    pub trusted_relays: Vec<RelayData>,
    pub send_on_minute: Option<u32>,
    pub custom_initial_ttl: Option<u8>,
    pub custom_max_forwarding_ttl: Option<u8>,
}

impl DaemonConfig {
    /// The public keys of all trusted peers, in order.
    pub fn trusted_public_keys(&self) -> (r: Vec<PublicKey>)
        ensures
            r.deep_view() == Seq::new(
                self.trusted_relays@.len(),
                |i: int| self.trusted_relays@[i].key@,
            ),
    {
        let mut keys: Vec<PublicKey> = Vec::new();
        let n = self.trusted_relays.len();
        let mut i: usize = 0;
        while i < n
            invariant
                n == self.trusted_relays@.len(),
                i <= n,
                keys@.len() == i,
                forall|t: int| 0 <= t < i ==> (#[trigger] keys@[t])@ == self.trusted_relays@[t].key@,
            decreases n - i,
        {
            keys.push(self.trusted_relays[i].key.duplicate());
            i += 1;
        }
        proof {
            assert(keys.deep_view() =~= Seq::new(
                self.trusted_relays@.len(),
                |t: int| self.trusted_relays@[t].key@,
            ));
        }
        keys
    }

    /// The outgoing configuration these settings stand for.
    pub fn outgoing_config(&self) -> (r: OutgoingConfig)
        ensures
            r.send_on_minute == self.send_on_minute,
            r.initial_ttl == self.custom_initial_ttl.unwrap_or(
                crate::mailroom::DEFAULT_INITIAL_TTL,
            ),
            r.max_forwarding_ttl == self.custom_max_forwarding_ttl.unwrap_or(
                crate::mailroom::DEFAULT_MAX_FORWARDING_TTL,
            ),
    {
        OutgoingConfig::new(
            self.send_on_minute,
            self.custom_initial_ttl,
            self.custom_max_forwarding_ttl,
        )
    }
}

/// Whether the daemon listens, and where.
#[derive(Debug, Clone, PartialEq, Eq)]
pub struct ListenerConfig {
    pub custom_port: Option<u16>,
}

/// The listener section of a relay's configuration file.
#[derive(Debug, Clone, PartialEq, Eq)]
pub struct ListeningConfig {
    pub port: Option<u16>,
}

/// A relay's configuration file: its name, the listener section, the TTL
/// overrides, the sending minute, and the trusted peers.
#[derive(Debug, Clone, PartialEq, Eq)]
pub struct RelaytConfig {
    pub name: String,
    pub listener: Option<ListeningConfig>,
    pub initial_ttl: Option<u8>,
    pub max_forwarding_ttl: Option<u8>,
    pub minute: Option<u32>,
    pub trusted_relays: Vec<RelayData>,
}

impl RelaytConfig {
    /// The daemon settings this file stands for.
    pub fn daemon_config(&self) -> (r: DaemonConfig)
        ensures
            r.send_on_minute == self.minute,
            r.custom_initial_ttl == self.initial_ttl,
            r.custom_max_forwarding_ttl == self.max_forwarding_ttl,
            r.trusted_relays@.len() == self.trusted_relays@.len(),
            forall|i: int|
                0 <= i < r.trusted_relays@.len() ==> {
                    let copied = #[trigger] r.trusted_relays@[i];
                    &&& copied.key@ == self.trusted_relays@[i].key@
                    &&& copied.nickname.deep_view() == self.trusted_relays@[i].nickname.deep_view()
                    &&& copied.endpoint.deep_view() == self.trusted_relays@[i].endpoint.deep_view()
                },
    {
        let mut relays: Vec<RelayData> = Vec::new();
        let n = self.trusted_relays.len();
        let mut i: usize = 0;
        while i < n
            invariant
                n == self.trusted_relays@.len(),
                i <= n,
                relays@.len() == i,
                forall|t: int|
                    0 <= t < i ==> {
                        let copied = #[trigger] relays@[t];
                        &&& copied.key@ == self.trusted_relays@[t].key@
                        &&& copied.nickname.deep_view() == self.trusted_relays@[
                            t
                        ].nickname.deep_view()
                        &&& copied.endpoint.deep_view() == self.trusted_relays@[
                            t
                        ].endpoint.deep_view()
                    },
            decreases n - i,
        {
            relays.push(self.trusted_relays[i].duplicate());
            i += 1;
        }
        DaemonConfig {
            trusted_relays: relays,
            send_on_minute: self.minute,
            custom_initial_ttl: self.initial_ttl,
            custom_max_forwarding_ttl: self.max_forwarding_ttl,
        }
    }
}

} // verus!
