//! Calls into outside crates and the parts of `std` that have no specification.
//!
//! Each item here is believed rather than proved; its comment says what is claimed.

use crate::lru_model::{lru_lookup, lru_put, lru_touch};
use crate::text::{has_text, is_plain_path, joined, opt_view};
use lru::LruCache;
use std::hash::{Hash, Hasher};
use std::num::NonZeroUsize;
use vstd::prelude::*;

verus! {

/// `lru::LruCache`, carried as an opaque value.
#[verifier::external_type_specification]
#[verifier::external_body]
#[verifier::reject_recursive_types(K)]
#[verifier::reject_recursive_types(V)]
#[verifier::reject_recursive_types(S)]
pub struct ExLruCache<K, V, S>(lru::LruCache<K, V, S>);

/// The hash builder that an `lru::LruCache` uses unless told otherwise.
#[verifier::external_type_specification]
#[verifier::external_body]
pub struct ExLruHasher(lru::DefaultHasher);

/// What a cache of hashes holds, most recently used first.
pub uninterp spec fn seen_entries(cache: LruCache<u64, u8>) -> Seq<(u64, u8)>;

/// The number of entries that a cache of hashes was made for.
pub uninterp spec fn seen_cap(cache: LruCache<u64, u8>) -> nat;

/// `lru::LruCache::new`: an empty cache for `cap` entries.
#[verifier::external_body]
pub(crate) fn seen_new(cap: usize) -> (cache: LruCache<u64, u8>)
    requires
        cap > 0,
    ensures
        seen_entries(cache) == Seq::<(u64, u8)>::empty(),
        seen_cap(cache) == cap,
{
    LruCache::new(NonZeroUsize::new(cap).unwrap())
}

/// `lru::LruCache::contains`: whether the key is present. The order of use stays as it is.
#[verifier::external_body]
pub(crate) fn seen_contains(cache: &LruCache<u64, u8>, k: u64) -> (r: bool)
    ensures
        r == lru_lookup(seen_entries(*cache), k) is Some,
{
    cache.contains(&k)
}

/// `lru::LruCache::put`: the entry becomes the most recently used one; a full cache loses
/// its least recently used entry when the key is new.
#[verifier::external_body]
pub(crate) fn seen_put(cache: &mut LruCache<u64, u8>, k: u64, v: u8)
    ensures
        seen_entries(*final(cache)) == lru_put(
            seen_entries(*old(cache)),
            seen_cap(*old(cache)),
            k,
            v,
        ),
        seen_cap(*final(cache)) == seen_cap(*old(cache)),
{
    cache.put(k, v);
}

/// What a cache of contexts holds, most recently used first.
pub uninterp spec fn context_entries(cache: LruCache<u32, (String, String)>) -> Seq<
    (u32, (Seq<char>, Seq<char>)),
>;

/// The number of entries that a cache of contexts was made for.
pub uninterp spec fn context_cap(cache: LruCache<u32, (String, String)>) -> nat;

/// `lru::LruCache::new`: an empty cache for `cap` entries.
#[verifier::external_body]
pub(crate) fn context_new(cap: usize) -> (cache: LruCache<u32, (String, String)>)
    requires
        cap > 0,
    ensures
        context_entries(cache) == Seq::<(u32, (Seq<char>, Seq<char>))>::empty(),
        context_cap(cache) == cap,
{
    LruCache::new(NonZeroUsize::new(cap).unwrap())
}

/// `lru::LruCache::get`: a copy of the value of the key, which becomes the most recently used
/// one; nothing changes where the key is absent.
#[verifier::external_body]
pub(crate) fn context_get(cache: &mut LruCache<u32, (String, String)>, k: u32) -> (r: Option<
    (String, String),
>)
    ensures
        match r {
            Some(v) => lru_lookup(context_entries(*old(cache)), k) == Some((v.0@, v.1@)),
            None => lru_lookup(context_entries(*old(cache)), k) is None,
        },
        context_entries(*final(cache)) == lru_touch(context_entries(*old(cache)), k),
        context_cap(*final(cache)) == context_cap(*old(cache)),
{
    cache.get(&k).cloned()
}

/// `lru::LruCache::put`: the entry becomes the most recently used one; a full cache loses
/// its least recently used entry when the key is new.
#[verifier::external_body]
pub(crate) fn context_put(cache: &mut LruCache<u32, (String, String)>, k: u32, v: (String, String))
    ensures
        context_entries(*final(cache)) == lru_put(
            context_entries(*old(cache)),
            context_cap(*old(cache)),
            k,
            (v.0@, v.1@),
        ),
        context_cap(*final(cache)) == context_cap(*old(cache)),
{
    cache.put(k, v);
}

/// The SeaHash of four strings, each hashed as `str` hashes itself, one after the other.
pub uninterp spec fn sea_hash(
    a: Seq<char>,
    b: Seq<char>,
    c: Seq<char>,
    d: Seq<char>,
) -> u64;

/// `seahash::SeaHasher` with its fixed seeds, fed the four strings in turn.
#[verifier::external_body]
pub(crate) fn hash_key(a: &str, b: &str, c: &str, d: &str) -> (h: u64)
    ensures
        h == sea_hash(a@, b@, c@, d@),
{
    let mut hasher = seahash::SeaHasher::new();
    a.hash(&mut hasher);
    b.hash(&mut hasher);
    c.hash(&mut hasher);
    d.hash(&mut hasher);
    hasher.finish()
}

/// `std::time::Instant`, carried as an opaque value.
#[verifier::external_type_specification]
#[verifier::external_body]
pub struct ExInstant(std::time::Instant);

/// `std::time::Instant::now`. Nothing is claimed of the time that it reads.
#[verifier::external_body]
pub(crate) fn instant_now() -> std::time::Instant {
    std::time::Instant::now()
}

/// `std::time::SystemTime`, carried as an opaque value.
#[verifier::external_type_specification]
#[verifier::external_body]
pub struct ExSystemTime(std::time::SystemTime);

/// `std::time::SystemTime::now`. Nothing is claimed of the time that it reads.
#[verifier::external_body]
pub(crate) fn system_now() -> std::time::SystemTime {
    std::time::SystemTime::now()
}

/// `std::time::SystemTime::duration_since` the Unix epoch, in whole seconds; `None` for a time
/// before it. Nothing is claimed of the number, since a time is opaque.
#[verifier::external_body]
pub(crate) fn seconds_since_epoch(t: &std::time::SystemTime) -> Option<u64> {
    t.duration_since(std::time::UNIX_EPOCH).ok().map(|d| d.as_secs())
}

/// `tokio::time::Instant`, carried as an opaque value.
#[verifier::external_type_specification]
#[verifier::external_body]
pub struct ExTokioInstant(tokio::time::Instant);

/// `tokio::time::Instant::now`. Nothing is claimed of the time that it reads.
#[verifier::external_body]
pub(crate) fn tokio_now() -> tokio::time::Instant {
    tokio::time::Instant::now()
}

/// `tokio::time::Instant::elapsed`, in nanoseconds. Nothing is claimed of the time that it reads.
#[verifier::external_body]
pub(crate) fn elapsed_ns(since: &tokio::time::Instant) -> u64 {
    since.elapsed().as_nanos() as u64
}

/// Whether a regular expression matches anywhere in a text; `None` for an expression that the
/// `regex` crate does not accept.
pub uninterp spec fn regex_match(pattern: Seq<char>, text: Seq<char>) -> Option<bool>;

/// The regular expression for any one of some paths, whatever the case of their letters.
pub open spec fn any_path(paths: Seq<Seq<char>>) -> Seq<char> {
    "(?i)("@ + joined(paths, "|"@) + ")"@
}

/// The regular expression for a path, whatever the case of its letters.
pub open spec fn the_path(path: Seq<char>) -> Seq<char> {
    "(?i)"@ + path
}

/// `regex::Regex::is_match` of the expression that `regex::Regex::new` makes of `pattern`. An
/// expression of no more than a thousand characters for one or several plain paths is accepted,
/// and matches every text in which one of them stands as it is.
#[verifier::external_body]
pub(crate) fn is_regex_match(pattern: &str, text: &str) -> (r: Option<bool>)
    ensures
        r == regex_match(pattern@, text@),
        forall|path: Seq<char>|
            pattern@ == #[trigger] the_path(path) && pattern@.len() <= 1000 && is_plain_path(path)
                && has_text(text@, path) ==> r == Some(true),
        forall|paths: Seq<Seq<char>>, i: int|
            pattern@ == #[trigger] any_path(paths) && pattern@.len() <= 1000 && (forall|j: int|
                0 <= j < paths.len() ==> is_plain_path(#[trigger] paths[j])) && 0 <= i
                < paths.len() && has_text(text@, #[trigger] paths[i]) ==> r == Some(true),
{
    regex::Regex::new(pattern).ok().map(|re| re.is_match(text))
}

/// What a group of a regular expression captures in its first match in a text; `None` without
/// a match, without that group, or for an expression that the `regex` crate does not accept.
pub uninterp spec fn regex_group(pattern: Seq<char>, text: Seq<char>, group: nat) -> Option<
    Seq<char>,
>;

/// `regex::Captures::get` of what `regex::Regex::captures` finds with the expression that
/// `regex::Regex::new` makes of `pattern`.
#[verifier::external_body]
pub(crate) fn regex_capture(pattern: &str, text: &str, group: usize) -> (r: Option<String>)
    ensures
        opt_view(r) == regex_group(pattern@, text@, group as nat),
{
    let re = regex::Regex::new(pattern).ok()?;
    let captures = re.captures(text)?;
    captures.get(group).map(|m| m.as_str().to_string())
}

/// What bytes say in UTF-8, with replacement characters for what is none.
pub uninterp spec fn utf8_lossy(bytes: Seq<u8>) -> Seq<char>;

/// `String::from_utf8_lossy`, which hands valid UTF-8 back as it is.
#[verifier::external_body]
pub(crate) fn text_of_bytes(bytes: &[u8]) -> (r: String)
    ensures
        r@ == utf8_lossy(bytes@),
        vstd::utf8::valid_utf8(bytes@) ==> r@ == vstd::utf8::decode_utf8(bytes@),
{
    String::from_utf8_lossy(bytes).into_owned()
}

/// The text at a place in a JSON document, four steps down; `None` where there is no text at
/// that place, and the words of the `serde_json` crate for what is no JSON document.
pub uninterp spec fn json_text(
    document: Seq<char>,
    first: Seq<char>,
    second: nat,
    third: Seq<char>,
    fourth: Seq<char>,
) -> Result<Option<Seq<char>>, Seq<char>>;

/// What a text, or the words for a failure, say.
pub open spec fn json_view(r: Result<Option<String>, String>) -> Result<
    Option<Seq<char>>,
    Seq<char>,
> {
    match r {
        Ok(x) => Ok(opt_view(x)),
        Err(e) => Err(e@),
    }
}

/// `serde_json::from_str`, indexed by a key, a number and two keys, and then
/// `serde_json::Value::as_str`.
#[verifier::external_body]
pub(crate) fn json_text_at(
    document: &str,
    first: &str,
    second: usize,
    third: &str,
    fourth: &str,
) -> (r: Result<Option<String>, String>)
    ensures
        json_view(r) == json_text(document@, first@, second as nat, third@, fourth@),
{
    let value: serde_json::Value = serde_json::from_str(document).map_err(|e| e.to_string())?;
    Ok(value[first][second][third][fourth].as_str().map(|s| s.to_string()))
}

} // verus!
