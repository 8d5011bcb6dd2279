//! Links the app opens in the system browser.
use vstd::prelude::*;
use crate::text::{chars_of, has_prefix, starts_with_chars, string_from_chars, trim_str, trim_ws};

verus! {

/// A link may be opened when, trimmed, it is an `http` or `https` address.
pub open spec fn spec_external_url(url: Seq<char>) -> Result<Seq<char>, Seq<char>> {
    let t = trim_ws(url);
    if has_prefix(t, "https://"@) || has_prefix(t, "http://"@) {
        Ok(t)
    } else {
        Err("只允许打开 http/https 链接。"@)
    }
}

/// Checks a link before it is opened: gives it trimmed, or the message
/// refusing it.
pub fn checked_external_url(url: &str) -> (r: Result<String, String>)
    ensures
        match spec_external_url(url@) {
            Ok(u) => r matches Ok(s) && s@ == u,
            Err(m) => r matches Err(e) && e@ == m,
        },
{
    let t = trim_str(url);
    let https = chars_of("https://");
    let http = chars_of("http://");
    if starts_with_chars(t.as_slice(), https.as_slice()) || starts_with_chars(t.as_slice(), http.as_slice()) {
        Ok(string_from_chars(t.as_slice()))
    } else {
        Err("只允许打开 http/https 链接。".to_string())
    }
}

}
