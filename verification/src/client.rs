//! The item client's cache settings: items are cached in Redis under
//! `qjson:{qid}:{lang}` for seven days, and a missing or invalid Redis
//! URL disables caching instead of failing.

use vstd::prelude::*;

use redis::Client as RedisClient;

use crate::sparql::cache_key;
use crate::text::{chars_of, owned, push_str};
use crate::transform::{find_seq, find_text};

verus! {

#[verifier::external_type_specification]
#[verifier::external_body]
pub struct ExRedisClient(RedisClient);

/// Seconds a cached item lives: seven days.
pub const CACHE_TTL_SECONDS: u64 = 604800;

/// Whether `redis::Client::open` accepts the URL (it parses the URL and
/// connects to nothing).
pub uninterp spec fn redis_url_parses(url: Seq<char>) -> bool;

/// `redis::Client::open`: parses the connection URL into a client; no
/// connection is made. Claimed: a client comes back exactly when the URL
/// parses, which depends on the URL alone.
#[verifier::external_body]
fn open_redis(url: &str) -> (res: Option<RedisClient>)
    ensures
        res.is_some() == redis_url_parses(url@),
{
    RedisClient::open(url).ok()
}

/// A bare `host:port` gets the `redis://` scheme.
pub open spec fn redis_address(raw: Seq<char>) -> Seq<char> {
    if find_seq(raw, "://"@) is Some {
        raw
    } else {
        "redis://"@ + raw
    }
}

pub fn cache_url(raw: &str) -> (res: String)
    ensures
        res@ == redis_address(raw@),
{
    let c = chars_of(raw);
    match find_text(&c, "://") {
        Some(_) => owned(raw),
        None => {
            let mut s = owned("redis://");
            push_str(&mut s, raw);
            s
        },
    }
}

/// Redis cache for transformed items; `None` disables caching.
pub struct Cache {
    pub client: Option<RedisClient>,
}

impl Cache {
    /// From the REDIS_URL setting: absent or unparsable means caching is
    /// disabled.
    pub fn from_env(redis_url: Option<String>) -> (res: Cache)
        ensures
            res.client.is_some() == match redis_url {
                Some(u) => redis_url_parses(redis_address(u@)),
                None => false,
            },
    {
        match redis_url {
            Some(u) => {
                let url = cache_url(u.as_str());
                Cache { client: open_redis(url.as_str()) }
            },
            None => Cache { client: None },
        }
    }

    /// The cache key of an item in a language.
    pub fn key(qid: &str, language: &str) -> (res: String)
        ensures
            res@ == "qjson:"@ + qid@ + ":"@ + language@,
    {
        cache_key(qid, language)
    }
}

/// Fetches items through the cache.
pub struct Client {
    pub cache: Cache,
}

impl Client {
    /// Caching is configured from REDIS_URL; without it every call
    /// queries WDQS directly.
    pub fn new(redis_url: Option<String>) -> (res: Client)
        ensures
            res.cache.client.is_some() == match redis_url {
                Some(u) => redis_url_parses(redis_address(u@)),
                None => false,
            },
    {
        Client { cache: Cache::from_env(redis_url) }
    }
}

} // verus!
