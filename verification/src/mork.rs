//! Thunderbird's unread count for a folder: its folder cache first, the mbox
//! file as a fallback.
//!
//! The application reads the files; this module interprets their contents.

use crate::path::{join, join_path, parent_of, path_parent};
use crate::text::{
    all_ws, chars_of, eq_ignore_ascii_case, find_char, lemma_eq_ignore_case_is_lowercase_eq,
    lemma_split_once_at, parse_hex_u16, parse_hex_u16_spec, range_eq_ignore_ascii_case,
    range_starts_with, split_once, starts_with, texts, to_ascii_lowercase, trim, trim_range,
};
use vstd::prelude::*;

verus! {

/// A parsed JSON document or part of one.
#[verifier::external_type_specification]
#[verifier::external_body]
pub struct ExJsonValue(serde_json::Value);

/// A JSON object.
#[verifier::external_type_specification]
#[verifier::external_body]
#[verifier::reject_recursive_types(K)]
#[verifier::reject_recursive_types(V)]
pub struct ExJsonMap<K, V>(serde_json::Map<K, V>);

/// What `serde_json::from_slice::<Value>` yields for some bytes, when it succeeds.
pub uninterp spec fn json_parse(bytes: Seq<u8>) -> Option<serde_json::Value>;

/// What `Value::as_object` yields.
pub uninterp spec fn json_as_object(v: serde_json::Value) -> Option<
    serde_json::Map<String, serde_json::Value>,
>;

/// What `Map::get` yields for a key.
pub uninterp spec fn json_get(m: serde_json::Map<String, serde_json::Value>, key: Seq<char>) -> Option<
    serde_json::Value,
>;

/// What `Value::as_i64` yields.
pub uninterp spec fn json_as_i64(v: serde_json::Value) -> Option<i64>;

/// What `Value::as_u64` yields.
pub uninterp spec fn json_as_u64(v: serde_json::Value) -> Option<u64>;

/// Parses JSON text with `serde_json::from_slice`; a syntax error gives `None`.
#[verifier::external_body]
fn parse_json(bytes: &[u8]) -> (r: Option<serde_json::Value>)
    ensures
        r == json_parse(bytes@),
{
    serde_json::from_slice(bytes).ok()
}

/// `Value::as_object`: the map of a JSON object.
#[verifier::external_body]
fn as_object(v: &serde_json::Value) -> (r: Option<&serde_json::Map<String, serde_json::Value>>)
    ensures
        r is Some <==> json_as_object(*v) is Some,
        r matches Some(m) ==> json_as_object(*v) == Some(*m),
{
    v.as_object()
}

/// `Map::get`: the value stored under a key.
#[verifier::external_body]
fn map_get<'a>(m: &'a serde_json::Map<String, serde_json::Value>, key: &str) -> (r: Option<
    &'a serde_json::Value,
>)
    ensures
        r is Some <==> json_get(*m, key@) is Some,
        r matches Some(v) ==> json_get(*m, key@) == Some(*v),
{
    m.get(key)
}

/// `Value::as_i64`: an integer that fits in `i64`.
#[verifier::external_body]
fn as_i64(v: &serde_json::Value) -> (r: Option<i64>)
    ensures
        r == json_as_i64(*v),
{
    v.as_i64()
}

/// `Value::as_u64`: an integer that fits in `u64`.
#[verifier::external_body]
fn as_u64(v: &serde_json::Value) -> (r: Option<u64>)
    ensures
        r == json_as_u64(*v),
{
    v.as_u64()
}

/// A JSON integer as `i64`: as `as_i64` gives it, else an `as_u64` value that fits.
pub open spec fn json_integer(v: serde_json::Value) -> Option<i64> {
    match json_as_i64(v) {
        Some(x) => Some(x),
        None => match json_as_u64(v) {
            Some(u) => if u <= i64::MAX {
                Some(u as i64)
            } else {
                None
            },
            None => None,
        },
    }
}

/// The first of `keys` whose entry is a JSON object.
pub open spec fn find_entry(
    entries: serde_json::Map<String, serde_json::Value>,
    keys: Seq<Seq<char>>,
) -> Option<serde_json::Map<String, serde_json::Value>>
    decreases keys.len(),
{
    if keys.len() == 0 {
        None
    } else {
        match json_get(entries, keys[0]) {
            Some(v) => match json_as_object(v) {
                Some(o) => Some(o),
                None => find_entry(entries, keys.drop_first()),
            },
            None => find_entry(entries, keys.drop_first()),
        }
    }
}

/// The unread total from a cache entry's `totalUnreadMsgs` and
/// `pendingUnreadMsgs`: unknown or negative totals give nothing, negative or
/// missing pending counts count as zero, and the sum is capped at `u32::MAX`.
pub open spec fn unread_from_fields(total: Option<i64>, pending: Option<i64>) -> Option<u32> {
    match total {
        None => None,
        Some(t) => if t < 0 {
            None
        } else {
            let p: int = match pending {
                Some(p) => if p < 0 {
                    0
                } else {
                    p as int
                },
                None => 0,
            };
            if t + p > u32::MAX {
                Some(u32::MAX)
            } else {
                Some((t + p) as u32)
            }
        },
    }
}

/// The unread total in a folder cache document for the first matching summary key.
pub open spec fn cache_unread(bytes: Seq<u8>, keys: Seq<Seq<char>>) -> Option<u32> {
    match json_parse(bytes) {
        None => None,
        Some(doc) => match json_as_object(doc) {
            None => None,
            Some(entries) => match find_entry(entries, keys) {
                None => None,
                Some(entry) => unread_from_fields(
                    match json_get(entry, "totalUnreadMsgs"@) {
                        Some(v) => json_integer(v),
                        None => None,
                    },
                    match json_get(entry, "pendingUnreadMsgs"@) {
                        Some(v) => json_integer(v),
                        None => None,
                    },
                ),
            },
        },
    }
}

/// The keys a summary file may have in the folder cache: its path as given, then
/// its canonical path when that differs.
pub open spec fn summary_keys(path: Seq<char>, canonical: Option<Seq<char>>) -> Seq<Seq<char>> {
    match canonical {
        Some(c) => if c == path {
            seq![path]
        } else {
            seq![path, c]
        },
        None => seq![path],
    }
}

/// Saturating `u32` addition.
pub open spec fn sat_add(a: u32, b: u32) -> u32 {
    if a + b > u32::MAX {
        u32::MAX
    } else {
        (a + b) as u32
    }
}

/// The Read flag of `X-Mozilla-Status`.
pub const MSG_FLAG_READ: u16 = 0x0001;

/// The Expunged flag of `X-Mozilla-Status`.
pub const MSG_FLAG_EXPUNGED: u16 = 0x0008;

/// A message counts as unread when its status is known and has neither the Read
/// nor the Expunged flag.
pub open spec fn unread_bit(status: Option<u16>) -> u32 {
    match status {
        Some(s) => if s & 0x0009u16 == 0 {
            1
        } else {
            0
        },
        None => 0,
    }
}

/// Where an mbox reader stands.
pub struct MboxScan {
    pub count: u32,
    pub in_headers: bool,
    pub status: Option<u16>,
}

/// Reading one mbox line: a `From ` line closes the previous message and opens
/// the headers of the next; a blank line ends the headers; inside the headers an
/// `X-Mozilla-Status` header (any case) sets the status, parsed as hexadecimal.
pub open spec fn mbox_step(st: MboxScan, line: Seq<char>) -> MboxScan {
    if starts_with(line, "From "@) {
        MboxScan { count: sat_add(st.count, unread_bit(st.status)), in_headers: true, status: None }
    } else if !st.in_headers {
        st
    } else if all_ws(line) {
        MboxScan { in_headers: false, ..st }
    } else {
        match split_once(line, ':') {
            Some((name, value)) => if eq_ignore_ascii_case(name, "X-Mozilla-Status"@) {
                MboxScan { status: parse_hex_u16_spec(trim(value)), ..st }
            } else {
                st
            },
            None => st,
        }
    }
}

/// Reading a sequence of mbox lines.
pub open spec fn mbox_scan(lines: Seq<Seq<char>>) -> MboxScan
    decreases lines.len(),
{
    if lines.len() == 0 {
        MboxScan { count: 0, in_headers: false, status: None }
    } else {
        mbox_step(mbox_scan(lines.drop_last()), lines.last())
    }
}

/// The unread messages of an mbox file, given its lines.
pub open spec fn mbox_unread(lines: Seq<Seq<char>>) -> u32 {
    let st = mbox_scan(lines);
    sat_add(st.count, unread_bit(st.status))
}

/// The unread count of a folder: the folder cache's total when it has a usable
/// entry, else the mbox count when the mbox exists, else zero.
pub open spec fn unread_count(
    cache: Option<Seq<u8>>,
    keys: Seq<Seq<char>>,
    mbox: Option<Seq<Seq<char>>>,
) -> u32 {
    match cached_unread(cache, keys) {
        Some(n) => n,
        None => match mbox {
            Some(lines) => mbox_unread(lines),
            None => 0,
        },
    }
}

/// The folder cache's total for a summary file, when the cache has a usable entry.
pub open spec fn cached_unread(cache: Option<Seq<u8>>, keys: Seq<Seq<char>>) -> Option<u32> {
    match cache {
        Some(b) => cache_unread(b, keys),
        None => None,
    }
}

/// The texts of the lines of an mbox file, when it exists.
pub open spec fn line_texts(m: Option<Vec<String>>) -> Option<Seq<Seq<char>>> {
    match m {
        Some(l) => Some(texts(l@)),
        None => None,
    }
}

/// Whether a message status counts the message as unread.
pub fn unread_from_status(status: Option<u16>) -> (r: u32)
    ensures
        r == unread_bit(status),
{
    match status {
        Some(s) => if s & (MSG_FLAG_READ | MSG_FLAG_EXPUNGED) == 0 {
            assert(MSG_FLAG_READ | MSG_FLAG_EXPUNGED == 0x0009u16) by (bit_vector);
            1
        } else {
            assert(MSG_FLAG_READ | MSG_FLAG_EXPUNGED == 0x0009u16) by (bit_vector);
            0
        },
        None => 0,
    }
}

/// The unread total a cache entry reports, from its `totalUnreadMsgs` and
/// `pendingUnreadMsgs` values.
pub fn unread_from_cache_fields(total: Option<i64>, pending: Option<i64>) -> (r: Option<u32>)
    ensures
        r == unread_from_fields(total, pending),
{
    match total {
        None => None,
        Some(t) => {
            if t < 0 {
                return None;
            }
            let p: u64 = match pending {
                Some(p) => if p < 0 {
                    0
                } else {
                    p as u64
                },
                None => 0,
            };
            let sum: u64 = (t as u64) + p;
            if sum > u32::MAX as u64 {
                Some(u32::MAX)
            } else {
                Some(sum as u32)
            }
        },
    }
}

/// A JSON value as an `i64` integer.
fn json_i64(value: &serde_json::Value) -> (r: Option<i64>)
    ensures
        r == json_integer(*value),
{
    match as_i64(value) {
        Some(x) => Some(x),
        None => match as_u64(value) {
            Some(u) => if u <= i64::MAX as u64 {
                Some(u as i64)
            } else {
                None
            },
            None => None,
        },
    }
}

/// The unread total that a folder cache document gives for a summary file, if any.
pub fn folder_cache_unread(contents: &[u8], keys: &Vec<String>) -> (r: Option<u32>)
    ensures
        r == cache_unread(contents@, texts(keys@)),
{
    let doc = match parse_json(contents) {
        Some(doc) => doc,
        None => return None,
    };
    let entries = match as_object(&doc) {
        Some(entries) => entries,
        None => return None,
    };
    let ghost ks = texts(keys@);
    let mut i: usize = 0;
    let mut found: Option<&serde_json::Map<String, serde_json::Value>> = None;
    assert(ks.subrange(0, ks.len() as int) =~= ks);
    while i < keys.len()
        invariant_except_break
            found is None,
        invariant
            i <= keys@.len(),
            ks == texts(keys@),
            find_entry(*entries, ks) == find_entry(*entries, ks.subrange(i as int, ks.len() as int)),
        ensures
            match found {
                Some(o) => find_entry(*entries, ks) == Some(*o),
                None => find_entry(*entries, ks) is None,
            },
        decreases keys@.len() - i,
    {
        let ghost tail = ks.subrange(i as int, ks.len() as int);
        assert(tail[0] == keys@[i as int]@);
        assert(tail.drop_first() =~= ks.subrange(i + 1, ks.len() as int));
        match map_get(entries, keys[i].as_str()) {
            Some(v) => match as_object(v) {
                Some(o) => {
                    found = Some(o);
                    break;
                },
                None => {},
            },
            None => {},
        }
        i = i + 1;
    }
    let entry = match found {
        Some(o) => o,
        None => return None,
    };
    let total = match map_get(entry, "totalUnreadMsgs") {
        Some(v) => json_i64(v),
        None => None,
    };
    let pending = match map_get(entry, "pendingUnreadMsgs") {
        Some(v) => json_i64(v),
        None => None,
    };
    unread_from_cache_fields(total, pending)
}


/// Reading one mbox line.
fn mbox_line(st: (u32, bool, Option<u16>), line: &str) -> (r: (u32, bool, Option<u16>))
    ensures
        ({
            let next = mbox_step(MboxScan { count: st.0, in_headers: st.1, status: st.2 }, line@);
            r == (next.count, next.in_headers, next.status)
        }),
{
    let (count, in_headers, status) = st;
    let v = chars_of(line);
    let n = v.len();
    assert(v@.subrange(0, n as int) =~= v@);
    if range_starts_with(&v, 0, n, "From ") {
        return (count.saturating_add(unread_from_status(status)), true, None);
    }
    if !in_headers {
        return st;
    }
    let (a, b) = trim_range(&v, 0, n);
    if a == b {
        proof {
            crate::text::lemma_trim_empty_iff_all_ws(v@);
        }
        return (count, false, status);
    }
    proof {
        crate::text::lemma_trim_empty_iff_all_ws(v@);
    }
    match find_char(&v, 0, n, ':') {
        Some(colon) => {
            assert(v@.subrange(0, colon as int) == split_once(v@, ':').unwrap().0);
            if range_eq_ignore_ascii_case(&v, 0, colon, "X-Mozilla-Status") {
                let (va, vb) = trim_range(&v, colon + 1, n);
                (count, in_headers, parse_hex_u16(&v, va, vb))
            } else {
                st
            }
        },
        None => st,
    }
}

/// Parse an mbox file's lines to count unread messages.
/// Messages are unread when the Read bit is unset and the Expunged bit is not
/// set. Thunderbird writes both flags to `X-Mozilla-Status`.
pub fn parse_mbox_unread(lines: &Vec<String>) -> (r: u32)
    ensures
        r == mbox_unread(texts(lines@)),
{
    let ghost ls = texts(lines@);
    let mut st: (u32, bool, Option<u16>) = (0, false, None);
    let mut i: usize = 0;
    assert(ls.take(0) =~= Seq::<Seq<char>>::empty());
    while i < lines.len()
        invariant
            i <= lines@.len(),
            ls == texts(lines@),
            ({
                let m = mbox_scan(ls.take(i as int));
                st == (m.count, m.in_headers, m.status)
            }),
        decreases lines@.len() - i,
    {
        assert(ls.take(i + 1).drop_last() =~= ls.take(i as int));
        assert(ls.take(i + 1).last() == lines@[i as int]@);
        st = mbox_line(st, lines[i].as_str());
        i = i + 1;
    }
    assert(ls.take(lines@.len() as int) =~= ls);
    st.0.saturating_add(unread_from_status(st.2))
}

/// Return the same unread total Thunderbird exposes for a folder.
///
/// Thunderbird persists this value in the profile's `folderCache.json`, keyed
/// by the exact summary-file path. The cache is the authoritative lightweight
/// source: it avoids trying to reconstruct Mork's transaction log and, unlike
/// `numNewMsgs`, represents the real unread total rather than biff-only mail.
/// An mbox remains a useful degraded fallback if Thunderbird's cache is absent,
/// malformed, or reports an unknown (-1) server count.
///
/// `folder_cache` holds the contents of the `folderCache.json` found for the
/// summary, `summary_path` the summary file's path as given and
/// `canonical_summary_path` its canonical form when it has one. `read_mbox`
/// gives the lines of the folder's mbox file, or `None` when that file does not
/// exist; it is called only when the cache has no usable total.
pub fn parse_unread_count<F: FnOnce() -> Option<Vec<String>>>(
    folder_cache: Option<&[u8]>,
    summary_path: &str,
    canonical_summary_path: Option<&str>,
    read_mbox: F,
) -> (r: u32)
    requires
        call_requires(read_mbox, ()),
    ensures
        ({
            let cache = match folder_cache {
                Some(b) => Some(b@),
                None => None,
            };
            let keys = summary_keys(
                summary_path@,
                match canonical_summary_path {
                    Some(c) => Some(c@),
                    None => None,
                },
            );
            &&& cached_unread(cache, keys) is Some ==> r == unread_count(cache, keys, None)
            &&& cached_unread(cache, keys) is None ==> exists|m: Option<Vec<String>>|
                call_ensures(read_mbox, (), m) && r == unread_count(cache, keys, line_texts(m))
        }),
{
    let mut keys: Vec<String> = Vec::new();
    keys.push(String::from_str(summary_path));
    match canonical_summary_path {
        Some(c) => {
            let c_owned = String::from_str(c);
            if !(keys[0] == c_owned) {
                keys.push(c_owned);
            }
        },
        None => {},
    }
    let ghost expected = summary_keys(
        summary_path@,
        match canonical_summary_path {
            Some(c) => Some(c@),
            None => None,
        },
    );
    assert(texts(keys@) =~= expected);
    let ghost cache = match folder_cache {
        Some(b) => Some(b@),
        None => None,
    };
    let cached = match folder_cache {
        Some(bytes) => folder_cache_unread(bytes, &keys),
        None => None,
    };
    assert(cached == cached_unread(cache, expected));
    match cached {
        Some(count) => count,
        None => {
            let mbox = read_mbox();
            let n = match &mbox {
                Some(lines) => parse_mbox_unread(lines),
                None => 0,
            };
            assert(call_ensures(read_mbox, (), mbox) && n == unread_count(
                cache,
                expected,
                line_texts(mbox),
            ));
            n
        },
    }
}

/// A path and its ancestors, following `Path::parent` at most `fuel` times.
pub open spec fn ancestors(p: Seq<char>, fuel: nat) -> Seq<Seq<char>>
    decreases fuel,
{
    if fuel == 0 {
        Seq::empty()
    } else {
        seq![p] + match path_parent(p) {
            Some(q) => ancestors(q, (fuel - 1) as nat),
            None => Seq::empty(),
        }
    }
}

/// Where a summary file's `folderCache.json` may be, nearest first: in the
/// summary's directory and each directory above it. Every parent is shorter than
/// its path, so the chain ends within as many steps as the path has characters.
pub open spec fn folder_cache_paths(msf_path: Seq<char>) -> Seq<Seq<char>> {
    match path_parent(msf_path) {
        None => Seq::empty(),
        Some(dir) => ancestors(dir, dir.len() + 1).map_values(
            |d: Seq<char>| join(d, "folderCache.json"@),
        ),
    }
}

/// The places to look for a summary file's folder cache, nearest first.
pub fn find_folder_cache(msf_path: &str) -> (r: Vec<String>)
    ensures
        texts(r@) == folder_cache_paths(msf_path@),
{
    let mut r: Vec<String> = Vec::new();
    let mut cur = match parent_of(msf_path) {
        Some(dir) => dir,
        None => return r,
    };
    let ghost start = cur@;
    let ghost mut fuel: nat = (start.len() + 1) as nat;
    let ghost mut acc: Seq<Seq<char>> = Seq::empty();
    loop
        invariant
            path_parent(msf_path@) == Some(start),
            cur@.len() + 1 <= fuel,
            acc + ancestors(cur@, fuel) == ancestors(start, (start.len() + 1) as nat),
            texts(r@) == acc.map_values(|d: Seq<char>| join(d, "folderCache.json"@)),
        decreases fuel,
    {
        let ghost before = r@;
        r.push(join_path(cur.as_str(), "folderCache.json"));
        proof {
            assert(texts(r@) =~= texts(before).push(join(cur@, "folderCache.json"@)));
            assert((acc.push(cur@)).map_values(|d: Seq<char>| join(d, "folderCache.json"@))
                =~= acc.map_values(|d: Seq<char>| join(d, "folderCache.json"@)).push(
                join(cur@, "folderCache.json"@),
            ));
        }
        match parent_of(cur.as_str()) {
            Some(up) => {
                proof {
                    assert(acc + ancestors(cur@, fuel) =~= acc.push(cur@) + ancestors(
                        up@,
                        (fuel - 1) as nat,
                    ));
                    acc = acc.push(cur@);
                    fuel = (fuel - 1) as nat;
                }
                cur = up;
            },
            None => {
                proof {
                    assert(acc + ancestors(cur@, fuel) =~= acc.push(cur@));
                    acc = acc.push(cur@);
                }
                assert(texts(r@) == folder_cache_paths(msf_path@));
                return r;
            },
        }
    }
}

/// The header name `X-Mozilla-Status` in ASCII lower case.
proof fn lemma_status_header_lowercase()
    ensures
        to_ascii_lowercase("X-Mozilla-Status"@) == "x-mozilla-status"@,
{
    reveal_strlit("X-Mozilla-Status");
    reveal_strlit("x-mozilla-status");
    assert(to_ascii_lowercase("X-Mozilla-Status"@) =~= "x-mozilla-status"@);
}

/// Law of mbox headers: inside a message's headers, a line `name: value` sets the
/// message's status exactly when its whole header name is `X-Mozilla-Status` in
/// any ASCII case, to the hexadecimal value; any other header (such as
/// `X-Mozilla-Status2`) leaves the reading unchanged.
pub proof fn only_the_status_header_sets_the_status(st: MboxScan, name: Seq<char>, value: Seq<char>)
    requires
        st.in_headers,
        forall|i: int| 0 <= i < name.len() ==> name[i] != ':',
        !starts_with(name + seq![':'] + value, "From "@),
    ensures
        ({
            let next = mbox_step(st, name + seq![':'] + value);
            &&& to_ascii_lowercase(name) == "x-mozilla-status"@ ==> next == MboxScan {
                status: parse_hex_u16_spec(trim(value)),
                ..st
            }
            &&& to_ascii_lowercase(name) != "x-mozilla-status"@ ==> next == st
        }),
{
    let line = name + seq![':'] + value;
    assert(line[name.len() as int] == ':');
    assert(!all_ws(line));
    lemma_split_once_at(name, ':', value);
    lemma_eq_ignore_case_is_lowercase_eq(name, "X-Mozilla-Status"@);
    lemma_status_header_lowercase();
}

} // verus!
