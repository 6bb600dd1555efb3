//! The repository of feature definitions: when the cache is stale, where the
//! definitions are fetched from, what a response holds, and what becomes of
//! the cache.
//!
//! The repository fetches nothing itself. The host asks it where to fetch,
//! hands it what came back, and is told what to do next.

use crate::model::{FeatureMap, FeatureView};
use crate::util::{decrypt_string, decrypted_text};
use crate::value::{Json, Value};
use vstd::prelude::*;
use vstd::string::*;
use vstd::utf8::encode_utf8;

verus! {

/// The cache of feature definitions, and where they come from.
#[derive(Debug)]
pub struct FeatureRepository {
    /// The host that serves the definitions.
    pub api_host: String,
    /// The key that names this client to the host.
    pub client_key: Option<String>,
    /// The key that decrypts the definitions, in base 64.
    pub decryption_key: Option<String>,
    /// For how many seconds the definitions stay fresh.
    pub ttl_seconds: i64,
    /// How many seconds a fetch may take.
    pub timeout: u64,
    /// When the definitions were last refreshed, in seconds since 1970.
    pub refreshed_at: i64,
    /// The definitions.
    pub features: FeatureMap,
}

/// What the host is to do with a response.
#[derive(Debug)]
pub enum Refresh {
    /// Read the text as definitions: it is what the response held encrypted.
    Parse(String),
    /// Read the value as definitions: it is what the response held in plain.
    Convert(Value),
    /// Keep the cache: the response held nothing that can be used.
    Keep,
}

/// A `Refresh` as contracts see it.
pub enum RefreshView {
    Parse(Seq<char>),
    Convert(Json),
    Keep,
}

impl DeepView for Refresh {
    type V = RefreshView;

    open spec fn deep_view(&self) -> RefreshView {
        match self {
            Refresh::Parse(text) => RefreshView::Parse(text@),
            Refresh::Convert(value) => RefreshView::Convert(value@),
            Refresh::Keep => RefreshView::Keep,
        }
    }
}

impl View for Refresh {
    type V = RefreshView;

    open spec fn view(&self) -> RefreshView {
        self.deep_view()
    }
}

/// The path under which a host serves the definitions of a client.
pub open spec fn features_path() -> Seq<char> {
    "/api/features/"@
}

/// The address of the definitions of the client `client_key` on `api_host`.
pub open spec fn features_url_of(api_host: Seq<char>, client_key: Seq<char>) -> Seq<char> {
    api_host + features_path() + client_key
}

/// The cache is stale at `now`: more than the time to live has passed since
/// the last refresh.
pub open spec fn stale_at(refreshed_at: i64, ttl_seconds: i64, now: i64) -> bool {
    now > refreshed_at + ttl_seconds
}

/// What a response asks of the host. Encrypted definitions are decrypted
/// with the repository's key, and without a key, or where they do not
/// decrypt, the cache is kept. Failing encrypted definitions, plain ones are
/// taken; failing both, the cache is kept.
pub open spec fn refresh_for(decryption_key: Option<Seq<char>>, response: Json) -> RefreshView {
    match response.field("encryptedFeatures"@) {
        Some(Json::String(encrypted)) => match decryption_key {
            Some(key) => match decrypted_text(encode_utf8(encrypted), encode_utf8(key)) {
                Some(text) => RefreshView::Parse(text),
                None => RefreshView::Keep,
            },
            None => RefreshView::Keep,
        },
        _ => match response.field("features"@) {
            Some(features) => RefreshView::Convert(features),
            None => RefreshView::Keep,
        },
    }
}

/// `SystemTime::now` of the standard library, chrono's conversion of a
/// system time to a `DateTime<Utc>`, and `DateTime::timestamp`: the seconds
/// from the start of 1970 to now, negative before it. Nothing is known of
/// the number.
#[verifier::external_body]
fn clock_seconds() -> (now: i64) {
    chrono::DateTime::<chrono::Utc>::from(std::time::SystemTime::now()).timestamp()
}

impl Default for FeatureRepository {
    fn default() -> (repository: FeatureRepository)
        ensures
            repository.api_host@ == "https://cdn.growthbook.io"@,
            repository.client_key is None,
            repository.decryption_key is None,
            repository.ttl_seconds == 60,
            repository.timeout == 10,
            repository.refreshed_at == 0,
            repository.features@ == Seq::<(Seq<char>, FeatureView)>::empty(),
    {
        FeatureRepository {
            api_host: String::from_str("https://cdn.growthbook.io"),
            client_key: None,
            decryption_key: None,
            ttl_seconds: 60,
            timeout: 10,
            refreshed_at: 0,
            features: FeatureMap::new(),
        }
    }
}

impl FeatureRepository {
    /// Whether the cache is stale at `now`.
    pub fn is_stale_at(&self, now: i64) -> (stale: bool)
        ensures
            stale == stale_at(self.refreshed_at, self.ttl_seconds, now),
    {
        now as i128 > self.refreshed_at as i128 + self.ttl_seconds as i128
    }

    /// Whether the cache is stale now, by the clock. A cache that is fresh
    /// at every time that the clock can tell is not stale, and one that is
    /// stale at every such time is.
    pub fn is_cache_expired(&self) -> (stale: bool)
        ensures
            self.refreshed_at + self.ttl_seconds >= i64::MAX ==> !stale,
            self.refreshed_at + self.ttl_seconds < i64::MIN ==> stale,
    {
        let now = clock_seconds();
        self.is_stale_at(now)
    }

    /// The address to fetch the definitions from; none for a repository
    /// without a client key, which has nothing to fetch.
    pub fn features_url(&self) -> (url: Option<String>)
        ensures
            url.deep_view() == match self.client_key {
                Some(key) => Some(features_url_of(self.api_host@, key@)),
                None => None,
            },
    {
        match &self.client_key {
            Some(key) => {
                let mut url = self.api_host.clone();
                url.append("/api/features/");
                url.append(key.as_str());
                Some(url)
            },
            None => None,
        }
    }

    /// What the host is to do with the response to a fetch.
    pub fn read_response(&self, response: &Value) -> (refresh: Refresh)
        ensures
            refresh@ == refresh_for(self.decryption_key.deep_view(), response@),
    {
        match response.get("encryptedFeatures") {
            Some(Value::String(encrypted)) => match &self.decryption_key {
                Some(key) => match decrypt_string(encrypted.as_str(), key.as_str()) {
                    Some(text) => Refresh::Parse(text),
                    None => Refresh::Keep,
                },
                None => Refresh::Keep,
            },
            _ => match response.get("features") {
                Some(features) => Refresh::Convert(features.clone()),
                None => Refresh::Keep,
            },
        }
    }

    /// Ends a refresh at the time `now`. Definitions that were read replace
    /// the cache, which is fresh from `now` on, and the result says that the
    /// refresh callbacks are to be called with them. Where nothing was read,
    /// nothing changes.
    pub fn finish_refresh_at(&mut self, parsed: Option<FeatureMap>, now: i64) -> (refreshed: bool)
        ensures
            refreshed == parsed.is_some(),
            final(self).api_host == old(self).api_host,
            final(self).client_key == old(self).client_key,
            final(self).decryption_key == old(self).decryption_key,
            final(self).ttl_seconds == old(self).ttl_seconds,
            final(self).timeout == old(self).timeout,
            match parsed {
                Some(features) => final(self).features == features && final(self).refreshed_at
                    == now,
                None => final(self).features == old(self).features && final(self).refreshed_at
                    == old(self).refreshed_at,
            },
    {
        match parsed {
            Some(features) => {
                self.features = features;
                self.refreshed_at = now;
                true
            },
            None => false,
        }
    }

    /// Ends a refresh now, by the clock.
    pub fn finish_refresh(&mut self, parsed: Option<FeatureMap>) -> (refreshed: bool)
        ensures
            refreshed == parsed.is_some(),
            final(self).api_host == old(self).api_host,
            final(self).client_key == old(self).client_key,
            final(self).decryption_key == old(self).decryption_key,
            final(self).ttl_seconds == old(self).ttl_seconds,
            final(self).timeout == old(self).timeout,
            match parsed {
                Some(features) => final(self).features == features,
                None => final(self).features == old(self).features && final(self).refreshed_at
                    == old(self).refreshed_at,
            },
    {
        match parsed {
            Some(features) => {
                let now = clock_seconds();
                self.finish_refresh_at(Some(features), now)
            },
            None => false,
        }
    }

    /// A copy of the definitions as they are now.
    pub fn snapshot(&self) -> (features: FeatureMap)
        ensures
            features@ == self.features@,
    {
        self.features.clone()
    }
}

/// The version of this library.
pub const SDK_VERSION: &'static str = "0.0.1";

/// The name by which the library introduces itself to the host.
pub fn user_agent() -> (agent: String)
    ensures
        agent@ == "growthbook-sdk-rust/"@ + SDK_VERSION@,
{
    let mut agent = String::from_str("growthbook-sdk-rust/");
    agent.append(SDK_VERSION);
    agent
}

} // verus!
