//! Which token a search uses.
use vstd::prelude::*;
use crate::clock::now_millis;
use crate::settings::{Settings, SettingsModel};
use crate::text::{parse_u64_chars, spec_parse_u64, string_from_chars, trim_str, trim_ws};

verus! {

/// A token got from osu!'s OAuth, and when it expires (milliseconds since
/// the Unix epoch).
pub struct TokenCache {
    pub token: String,
    pub expires_at_ms: i64,
}

/// Where a search's token comes from.
pub enum TokenSource {
    /// The bearer token pasted in the settings (trimmed).
    Bearer(String),
    /// The token got before, still valid for more than a minute.
    Cached(String),
    /// A new token is asked for with these OAuth client credentials.
    Request { client_id: u64, client_secret: String },
}

pub open spec fn source_view(s: TokenSource) -> (u8, Seq<char>, u64) {
    match s {
        TokenSource::Bearer(t) => (0, t@, 0),
        TokenSource::Cached(t) => (1, t@, 0),
        TokenSource::Request { client_id, client_secret } => (2, client_secret@, client_id),
    }
}

/// The cached token when it stays valid for more than a minute after
/// `now_ms`.
pub open spec fn fresh_cache(cache: Option<(Seq<char>, i64)>, now_ms: i64) -> Option<Seq<char>> {
    match cache {
        Some((token, expires)) => if expires > now_ms + 60000 { Some(token) } else { None },
        None => None,
    }
}

/// The token a search uses at time `now_ms`: the pasted bearer token; else
/// a cached token valid for more than a minute; else a new one from the
/// client credentials, which must both be filled and the id a number.
pub open spec fn spec_token_source(s: SettingsModel, cache: Option<(Seq<char>, i64)>, now_ms: i64) -> Result<(u8, Seq<char>, u64), Seq<char>> {
    if trim_ws(s.bearer_token).len() > 0 {
        Ok((0, trim_ws(s.bearer_token), 0))
    } else if fresh_cache(cache, now_ms) is Some {
        Ok((1, fresh_cache(cache, now_ms)->0, 0))
    } else if trim_ws(s.osu_client_id).len() == 0 || trim_ws(s.osu_client_secret).len() == 0 {
        Err("Please fill osu! OAuth Client ID and Client Secret, or paste a Bearer Token."@)
    } else {
        match spec_parse_u64(trim_ws(s.osu_client_id)) {
            Some(id) => Ok((2, s.osu_client_secret, id)),
            None => Err("Client ID must be numeric"@),
        }
    }
}

pub open spec fn cache_view(c: Option<TokenCache>) -> Option<(Seq<char>, i64)> {
    match c {
        Some(t) => Some((t.token@, t.expires_at_ms)),
        None => None,
    }
}

/// Chooses the token of a search at time `now_ms` (see
/// `spec_token_source`).
pub fn token_source_at(settings: &Settings, cache: &Option<TokenCache>, now_ms: i64) -> (r: Result<TokenSource, String>)
    requires
        now_ms <= i64::MAX - 60000,
    ensures
        match spec_token_source(settings@, cache_view(*cache), now_ms) {
            Ok(v) => r matches Ok(s) && source_view(s) == v,
            Err(m) => r matches Err(e) && e@ == m,
        },
{
    let bearer = trim_str(settings.bearer_token.as_str());
    if bearer.len() > 0 {
        return Ok(TokenSource::Bearer(string_from_chars(bearer.as_slice())));
    }
    if let Some(c) = cache {
        if c.expires_at_ms > now_ms + 60000 {
            return Ok(TokenSource::Cached(c.token.clone()));
        }
    }
    let id = trim_str(settings.osu_client_id.as_str());
    let secret = trim_str(settings.osu_client_secret.as_str());
    if id.len() == 0 || secret.len() == 0 {
        return Err("Please fill osu! OAuth Client ID and Client Secret, or paste a Bearer Token.".to_string());
    }
    match parse_u64_chars(id.as_slice()) {
        Some(client_id) => Ok(TokenSource::Request { client_id, client_secret: settings.osu_client_secret.clone() }),
        None => Err("Client ID must be numeric".to_string()),
    }
}

/// Whether `r` is what `spec_token_source` gives.
pub open spec fn token_outcome(r: Result<TokenSource, String>, s: SettingsModel, cache: Option<(Seq<char>, i64)>, now_ms: i64) -> bool {
    match spec_token_source(s, cache, now_ms) {
        Ok(v) => r matches Ok(t) && source_view(t) == v,
        Err(m) => r matches Err(e) && e@ == m,
    }
}

/// Chooses the token of a search now (see `spec_token_source`; a clock
/// less than a minute from the end of `i64` counts as no cache).
pub fn token_source(settings: &Settings, cache: &Option<TokenCache>) -> (r: Result<TokenSource, String>)
    ensures
        exists|now_ms: i64, used: Option<(Seq<char>, i64)>| (used == cache_view(*cache) || used is None)
            && #[trigger] token_outcome(r, settings@, used, now_ms),
{
    let now = now_millis();
    if now <= i64::MAX - 60000 {
        let r = token_source_at(settings, cache, now);
        assert(token_outcome(r, settings@, cache_view(*cache), now));
        r
    } else {
        let none: Option<TokenCache> = None;
        let r = token_source_at(settings, &none, i64::MAX - 60000);
        assert(token_outcome(r, settings@, None, (i64::MAX - 60000) as i64));
        r
    }
}

/// A new token's cache entry: it expires `expires_in` seconds (an hour
/// when the answer gives none) after `now_ms`.
pub fn token_cache_at(token: String, expires_in: Option<i64>, now_ms: i64) -> (r: TokenCache)
    requires
        ({
            let secs: int = match expires_in { Some(s) => s as int, None => 3600 };
            i64::MIN <= secs * 1000 <= i64::MAX && i64::MIN <= now_ms + secs * 1000 <= i64::MAX
        }),
    ensures
        r.token == token,
        r.expires_at_ms == now_ms + (match expires_in { Some(s) => s as int, None => 3600 }) * 1000,
{
    let secs: i64 = match expires_in {
        Some(s) => s,
        None => 3600,
    };
    TokenCache { token, expires_at_ms: now_ms + secs * 1000 }
}

}
