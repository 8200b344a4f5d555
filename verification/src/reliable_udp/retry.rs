//! Cookies that prove that a client is reachable at its address before anything
//! is kept for it.

use hmac::{Hmac, Mac};
use sha2::Sha256;
use subtle::ConstantTimeEq;
use vstd::prelude::*;

use crate::bytes::{
    append_bytes, be_bytes, be_value, copy_range, law_be_read_gives_what_was_written, lemma_be_len,
    lemma_be_limits, push_be, read_be,
};
use crate::duration::Duration;
use crate::net::{address_bytes, encode_addr, SocketAddr};
use crate::random::random_bytes;
use crate::reliable_core::{greater, lesser};
use crate::wire::ConnectionId;

verus! {

/// First byte of a cookie.
pub const COOKIE_VERSION: u8 = 1;

/// Bytes of a cookie: its version, the time and the tag.
pub const COOKIE_LEN: usize = 25;

/// The HMAC of a message under a key, with SHA-256.
pub uninterp spec fn hmac_sha256(key: Seq<u8>, message: Seq<u8>) -> [u8; 32];

/// `hmac::Mac::new_from_slice`, `update` and `finalize` for HMAC with SHA-256:
/// the tag depends on the key and the message alone. Keys of every length are
/// accepted.
#[verifier::external_body]
fn hmac_tag(key: &[u8; 32], message: &[u8]) -> (tag: [u8; 32])
    ensures
        tag@ == hmac_sha256(key@, message@)@,
{
    let mut mac = Hmac::<Sha256>::new_from_slice(key).expect("a key of any length");
    mac.update(message);
    mac.finalize().into_bytes().into()
}

/// `subtle::ConstantTimeEq::ct_eq` on bytes: whether they are the same. Nothing
/// is claimed of the time it takes.
#[verifier::external_body]
fn same_in_constant_time(left: &[u8], right: &[u8]) -> (same: bool)
    ensures
        same <==> left@ == right@,
{
    left.ct_eq(right).into()
}

/// Why cookies cannot be used.
#[derive(Debug, Clone, Copy, PartialEq, Eq, Structural)]
pub enum RetryError {
    InvalidConfig,
    RandomnessUnavailable,
}

/// Settings of the cookies.
#[derive(Debug, Clone, Copy, PartialEq, Eq)]
pub struct RetryConfig {
    pub enabled: bool,
    pub cookie_secret: Option<[u8; 32]>,
    pub cookie_ttl: Duration,
    pub clock_skew: Duration,
}

impl Default for RetryConfig {
    fn default() -> (config: Self)
        ensures
            config.enabled,
            config.cookie_secret is None,
            config.cookie_ttl@ == 10_000_000_000,
            config.clock_skew@ == 5_000_000_000,
    {
        RetryConfig {
            enabled: true,
            cookie_secret: None,
            cookie_ttl: Duration::from_secs(10),
            clock_skew: Duration::from_secs(5),
        }
    }
}

/// Whether all bytes are zero.
pub open spec fn all_zero(bytes: Seq<u8>) -> bool {
    forall|i: int| 0 <= i < bytes.len() ==> bytes[i] == 0
}

/// Whether the times of the settings fit together.
pub open spec fn times_fit(config: RetryConfig) -> bool {
    config.cookie_ttl@ >= 1_000_000_000 && config.clock_skew@ <= config.cookie_ttl@
}

impl RetryConfig {
    /// Checks the settings and draws a secret if there is none.
    pub fn prepare(&mut self) -> (result: Result<(), RetryError>)
        ensures
            final(self).enabled == old(self).enabled,
            final(self).cookie_ttl == old(self).cookie_ttl,
            final(self).clock_skew == old(self).clock_skew,
            if !old(self).enabled {
                result is Ok && *final(self) == *old(self)
            } else if !times_fit(*old(self)) {
                result == Err::<(), RetryError>(RetryError::InvalidConfig) && *final(self) == *old(
                    self,
                )
            } else {
                match old(self).cookie_secret {
                    Some(secret) => {
                        &&& *final(self) == *old(self)
                        &&& result == (if all_zero(secret@) {
                            Err::<(), RetryError>(RetryError::InvalidConfig)
                        } else {
                            Ok(())
                        })
                    },
                    None => match final(self).cookie_secret {
                        Some(secret) => result == (if all_zero(secret@) {
                            Err::<(), RetryError>(RetryError::InvalidConfig)
                        } else {
                            Ok(())
                        }),
                        None => result == Err::<(), RetryError>(RetryError::RandomnessUnavailable),
                    },
                }
            },
    {
        if self.enabled && self.cookie_secret.is_none() {
            let drawn = match random_bytes::<32>() {
                Ok(secret) => Some(secret),
                Err(_) => None,
            };
            self.settle(drawn)
        } else {
            self.settle(None)
        }
    }

    /// Checks the settings and takes the secret that was drawn, if there is none.
    pub fn settle(&mut self, drawn: Option<[u8; 32]>) -> (result: Result<(), RetryError>)
        ensures
            final(self).enabled == old(self).enabled,
            final(self).cookie_ttl == old(self).cookie_ttl,
            final(self).clock_skew == old(self).clock_skew,
            if !old(self).enabled {
                result is Ok && *final(self) == *old(self)
            } else if !times_fit(*old(self)) {
                result == Err::<(), RetryError>(RetryError::InvalidConfig) && *final(self) == *old(
                    self,
                )
            } else {
                let secret = if old(self).cookie_secret is Some {
                    old(self).cookie_secret
                } else {
                    drawn
                };
                &&& final(self).cookie_secret == secret
                &&& result == (match secret {
                    None => Err::<(), RetryError>(RetryError::RandomnessUnavailable),
                    Some(secret) => if all_zero(secret@) {
                        Err::<(), RetryError>(RetryError::InvalidConfig)
                    } else {
                        Ok(())
                    },
                })
            },
    {
        if !self.enabled {
            return Ok(());
        }
        if self.cookie_ttl.as_nanos() < Duration::from_secs(1).as_nanos()
            || self.clock_skew.as_nanos() > self.cookie_ttl.as_nanos() {
            return Err(RetryError::InvalidConfig);
        }
        if self.cookie_secret.is_none() {
            self.cookie_secret = drawn;
        }
        match self.cookie_secret {
            None => Err(RetryError::RandomnessUnavailable),
            Some(secret) => {
                let mut index: usize = 0;
                while index < 32
                    invariant
                        index <= 32,
                        forall|i: int| 0 <= i < index ==> secret@[i] == 0,
                        self.cookie_secret == Some(secret),
                        self.enabled == old(self).enabled,
                        self.cookie_ttl == old(self).cookie_ttl,
                        self.clock_skew == old(self).clock_skew,
                        old(self).enabled,
                        times_fit(*old(self)),
                        Some(secret) == (if old(self).cookie_secret is Some {
                            old(self).cookie_secret
                        } else {
                            drawn
                        }),
                    decreases 32 - index,
                {
                    if secret[index] != 0 {
                        return Ok(());
                    }
                    index = index + 1;
                }
                Err(RetryError::InvalidConfig)
            },
        }
    }
}

/// What a cookie is bound to, and how long it is good.
pub struct CookieContext<'a> {
    pub peer: SocketAddr,
    pub connection_id: ConnectionId,
    pub client_nonce: &'a [u8; 16],
    pub cookie_ttl: Duration,
    pub clock_skew: Duration,
}

/// The bytes with which each signed message begins.
pub open spec fn cookie_label() -> Seq<u8> {
    seq![
        0x72, 0x65, 0x6c, 0x69, 0x61, 0x62, 0x6c, 0x65, 0x2d, 0x75, 0x64, 0x70, 0x20,
        0x72, 0x65, 0x74, 0x72, 0x79, 0x20, 0x63, 0x6f, 0x6f, 0x6b, 0x69, 0x65, 0x20,
        0x76, 0x31,
    ]
}

/// The message that the tag of a cookie signs.
pub open spec fn cookie_message(
    peer: SocketAddr,
    connection_id: ConnectionId,
    client_nonce: Seq<u8>,
    timestamp: u64,
) -> Seq<u8> {
    cookie_label() + address_bytes(peer) + be_bytes(connection_id.value as nat, 8) + client_nonce
        + be_bytes(timestamp as nat, 8)
}

/// The tag of a cookie.
pub open spec fn cookie_tag(
    secret: Seq<u8>,
    peer: SocketAddr,
    connection_id: ConnectionId,
    client_nonce: Seq<u8>,
    timestamp: u64,
) -> Seq<u8> {
    hmac_sha256(secret, cookie_message(peer, connection_id, client_nonce, timestamp))@.subrange(
        0,
        16,
    )
}

/// The cookie for a client, made at `timestamp` in seconds.
pub open spec fn cookie_for(
    secret: Seq<u8>,
    peer: SocketAddr,
    connection_id: ConnectionId,
    client_nonce: Seq<u8>,
    timestamp: u64,
) -> Seq<u8> {
    seq![COOKIE_VERSION] + be_bytes(timestamp as nat, 8) + cookie_tag(
        secret,
        peer,
        connection_id,
        client_nonce,
        timestamp,
    )
}

/// Whether a time in seconds is neither too far ahead nor too old.
pub open spec fn is_fresh(timestamp: u64, now: u64, ttl: nat, skew: nat) -> bool {
    let most = u64::MAX as int;
    &&& timestamp <= lesser(now + skew, most)
    &&& greater(now - timestamp, 0) <= lesser((ttl + skew) as int, most)
}

/// Whether a cookie is good at `now`, in seconds.
pub open spec fn cookie_good(
    secret: Seq<u8>,
    cookie: Seq<u8>,
    now: Option<u64>,
    peer: SocketAddr,
    connection_id: ConnectionId,
    client_nonce: Seq<u8>,
    ttl: nat,
    skew: nat,
) -> bool {
    let timestamp = be_value(cookie.subrange(1, 9)) as u64;
    &&& cookie.len() == COOKIE_LEN
    &&& cookie[0] == COOKIE_VERSION
    &&& now matches Some(now) && is_fresh(timestamp, now, ttl, skew)
    &&& cookie.subrange(9, 25) == cookie_tag(
        secret,
        peer,
        connection_id,
        client_nonce,
        timestamp,
    )
}

/// A cookie for a client. `now` is the time in seconds, if the clock tells one.
pub fn issue_cookie(
    secret: &[u8; 32],
    peer: SocketAddr,
    connection_id: ConnectionId,
    client_nonce: &[u8; 16],
    now: Option<u64>,
) -> (result: Result<Vec<u8>, RetryError>)
    ensures
        match result {
            Ok(cookie) => now matches Some(timestamp) && cookie@ == cookie_for(
                secret@,
                peer,
                connection_id,
                client_nonce@,
                timestamp,
            ) && cookie@.len() == COOKIE_LEN,
            Err(error) => now is None && error == RetryError::InvalidConfig,
        },
{
    let timestamp: u64 = match now {
        Some(timestamp) => timestamp,
        None => {
            return Err(RetryError::InvalidConfig);
        },
    };
    let mut cookie: Vec<u8> = Vec::with_capacity(COOKIE_LEN);
    cookie.push(COOKIE_VERSION);
    push_be(&mut cookie, timestamp as u128, 8);
    let tag = sign(secret, peer, connection_id, client_nonce, timestamp);
    let short: Vec<u8> = copy_range(&tag, 0, 16);
    append_bytes(&mut cookie, &short);
    proof {
        lemma_be_len(timestamp as nat, 8);
    }
    assert(cookie@ =~= cookie_for(secret@, peer, connection_id, client_nonce@, timestamp));
    Ok(cookie)
}

/// Whether a cookie is good. `now` is the time in seconds, if the clock tells
/// one.
pub fn validate_cookie(
    secret: &[u8; 32],
    cookie: &[u8],
    now: Option<u64>,
    context: CookieContext<'_>,
) -> (good: bool)
    ensures
        good <==> cookie_good(
            secret@,
            cookie@,
            now,
            context.peer,
            context.connection_id,
            context.client_nonce@,
            context.cookie_ttl@ / 1_000_000_000,
            context.clock_skew@ / 1_000_000_000,
        ),
{
    if cookie.len() != COOKIE_LEN || cookie[0] != COOKIE_VERSION {
        return false;
    }
    proof {
        lemma_be_limits();
    }
    let timestamp: u64 = read_be(cookie, 1, 8) as u64;
    let now_seconds: u64 = match now {
        Some(now_seconds) => now_seconds,
        None => {
            return false;
        },
    };
    let allowed_future: u64 = context.clock_skew.as_secs();
    if timestamp > now_seconds.saturating_add(allowed_future) || now_seconds.saturating_sub(
        timestamp,
    ) > context.cookie_ttl.as_secs().saturating_add(allowed_future) {
        return false;
    }
    let expected = sign(
        secret,
        context.peer,
        context.connection_id,
        context.client_nonce,
        timestamp,
    );
    let short: Vec<u8> = copy_range(&expected, 0, 16);
    let given: Vec<u8> = copy_range(cookie, 9, COOKIE_LEN);
    same_in_constant_time(&short, &given)
}

/// The HMAC of what a cookie is bound to.
fn sign(
    secret: &[u8; 32],
    peer: SocketAddr,
    connection_id: ConnectionId,
    client_nonce: &[u8; 16],
    timestamp: u64,
) -> (tag: [u8; 32])
    ensures
        tag@ == hmac_sha256(
            secret@,
            cookie_message(peer, connection_id, client_nonce@, timestamp),
        )@,
{
    let mut message: Vec<u8> = vec![
        0x72, 0x65, 0x6c, 0x69, 0x61, 0x62, 0x6c, 0x65, 0x2d, 0x75, 0x64, 0x70, 0x20,
        0x72, 0x65, 0x74, 0x72, 0x79, 0x20, 0x63, 0x6f, 0x6f, 0x6b, 0x69, 0x65, 0x20,
        0x76, 0x31,
    ];
    assert(message@ =~= cookie_label());
    encode_addr(&mut message, peer);
    push_be(&mut message, connection_id.value as u128, 8);
    append_bytes(&mut message, client_nonce);
    push_be(&mut message, timestamp as u128, 8);
    assert(message@ =~= cookie_message(peer, connection_id, client_nonce@, timestamp));
    hmac_tag(secret, &message)
}

/// A cookie is good for the client it was made for, from the time it was made
/// until it is too old.
pub proof fn law_cookie_is_good_while_fresh(
    secret: Seq<u8>,
    peer: SocketAddr,
    connection_id: ConnectionId,
    client_nonce: Seq<u8>,
    made_at: u64,
    now: u64,
    ttl: nat,
    skew: nat,
)
    requires
        made_at <= now <= made_at + ttl + skew,
    ensures
        cookie_good(
            secret,
            cookie_for(secret, peer, connection_id, client_nonce, made_at),
            Some(now),
            peer,
            connection_id,
            client_nonce,
            ttl,
            skew,
        ),
{
    let cookie = cookie_for(secret, peer, connection_id, client_nonce, made_at);
    lemma_be_limits();
    law_be_read_gives_what_was_written(made_at as nat, 8);
    assert(cookie.subrange(1, 9) =~= be_bytes(made_at as nat, 8));
    assert(cookie.subrange(9, 25) =~= cookie_tag(
        secret,
        peer,
        connection_id,
        client_nonce,
        made_at,
    ));
}

/// A cookie is good at no time outside its window, whatever its tag.
pub proof fn law_stale_cookie_is_refused(
    secret: Seq<u8>,
    cookie: Seq<u8>,
    now: u64,
    peer: SocketAddr,
    connection_id: ConnectionId,
    client_nonce: Seq<u8>,
    ttl: nat,
    skew: nat,
)
    requires
        be_value(cookie.subrange(1, 9)) + ttl + skew < now || be_value(cookie.subrange(1, 9))
            > now + skew,
    ensures
        !cookie_good(
            secret,
            cookie,
            Some(now),
            peer,
            connection_id,
            client_nonce,
            ttl,
            skew,
        ),
{
    if cookie.len() == COOKIE_LEN {
        lemma_be_limits();
        crate::bytes::law_be_write_gives_what_was_read(cookie.subrange(1, 9));
    }
}

} // verus!
