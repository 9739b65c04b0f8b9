//! The address under which a router is configured: its normal form and the
//! host named in it.

use crate::text::{
    chars_of, extend, find, first_occurrence, lemma_search_from_least, occurs_at, starts_with,
    string_of, trim, trimmed,
};
use vstd::prelude::*;
use vstd::slice::slice_subrange;

verus! {

/// `s` without one trailing slash.
pub open spec fn without_slash(s: Seq<char>) -> Seq<char> {
    if s.len() > 0 && s.last() == '/' {
        s.drop_last()
    } else {
        s
    }
}

/// Whether `s` begins with a scheme: `http://` or `https://`.
pub open spec fn has_scheme(s: Seq<char>) -> bool {
    "http://"@.is_prefix_of(s) || "https://"@.is_prefix_of(s)
}

/// The normal form of a configured address. Surrounding white space and
/// one trailing slash go. An address without a scheme then gets `http://`
/// in front.
pub open spec fn normalized_address(address: Seq<char>) -> Seq<char> {
    let t = without_slash(trimmed(address));
    if has_scheme(t) {
        t
    } else {
        "http://"@ + t
    }
}

/// The normal form of a configured address.
pub fn normalize_address(address: &str) -> (out: String)
    ensures
        out@ == normalized_address(address@),
{
    let raw = chars_of(address);
    let trimmed_chars = trim(raw.as_slice());
    let n: usize = trimmed_chars.len();
    let t: &[char] = if n > 0 && trimmed_chars[n - 1] == '/' {
        let body = slice_subrange(trimmed_chars.as_slice(), 0, n - 1);
        assert(body@ =~= trimmed_chars@.drop_last());
        body
    } else {
        trimmed_chars.as_slice()
    };
    let plain = chars_of("http://");
    let secure = chars_of("https://");
    if starts_with(t, plain.as_slice()) || starts_with(t, secure.as_slice()) {
        string_of(t)
    } else {
        let mut out = chars_of("http://");
        extend(&mut out, t);
        string_of(out.as_slice())
    }
}

/// Whether `c` ends the host of an address: the slash before a path, or
/// the colon before a port.
pub open spec fn is_host_end(c: char) -> bool {
    c == '/' || c == ':'
}

/// The index at or after `from` at which the host in `s` ends: that of
/// the first slash or colon, or the length of `s` where there is none.
pub open spec fn host_end(s: Seq<char>, from: int) -> int
    decreases s.len() - from,
{
    if from < 0 || from >= s.len() {
        s.len() as int
    } else if is_host_end(s[from]) {
        from
    } else {
        host_end(s, from + 1)
    }
}

/// What follows the first `://` of `t`, or all of `t` where there is none.
pub open spec fn after_scheme(t: Seq<char>) -> Seq<char> {
    match first_occurrence(t, "://"@) {
        Some(p) => t.subrange(p + 3, t.len() as int),
        None => t,
    }
}

/// The host of a configured address: what follows the first `://`, where
/// there is one, up to the first slash or colon after that. A port and a
/// path are no part of it.
pub open spec fn host_of(address: Seq<char>) -> Seq<char> {
    let rest = after_scheme(trimmed(address));
    rest.subrange(0, host_end(rest, 0))
}

/// The host ends within the text, at the first slash or colon.
pub proof fn lemma_host_end(s: Seq<char>, from: int)
    requires
        0 <= from <= s.len(),
    ensures
        from <= host_end(s, from) <= s.len(),
        forall|k: int| from <= k < host_end(s, from) ==> !is_host_end(#[trigger] s[k]),
        host_end(s, from) < s.len() ==> is_host_end(s[host_end(s, from)]),
    decreases s.len() - from,
{
    if from < s.len() && !is_host_end(s[from]) {
        lemma_host_end(s, from + 1);
    }
}

/// The host of an address holds neither a slash nor a colon, and leaves
/// out nothing before the first of them.
pub proof fn lemma_host_plain(address: Seq<char>)
    ensures
        forall|k: int|
            0 <= k < host_of(address).len() ==> !is_host_end(#[trigger] host_of(address)[k]),
        host_of(address).is_prefix_of(after_scheme(trimmed(address))),
{
    let rest = after_scheme(trimmed(address));
    lemma_host_end(rest, 0);
    assert forall|k: int| 0 <= k < host_of(address).len() implies !is_host_end(
        #[trigger] host_of(address)[k],
    ) by {
        assert(host_of(address)[k] == rest[k]);
    }
}

/// The host of a configured address.
pub fn extract_host(address: &str) -> (out: String)
    ensures
        out@ == host_of(address@),
{
    proof {
        reveal_strlit("://");
    }
    let raw = chars_of(address);
    let t = trim(raw.as_slice());
    let sep = chars_of("://");
    let n: usize = t.len();
    let rest: &[char] = match find(t.as_slice(), sep.as_slice()) {
        Some(p) => {
            proof {
                lemma_search_from_least(t@, sep@, 0);
            }
            assert(occurs_at(t@, sep@, p as int));
            assert(sep@.len() == 3);
            assert(p as int + 3 <= t@.len());
            assert(p + 3 <= n);
            slice_subrange(t.as_slice(), p + 3, n)
        },
        None => t.as_slice(),
    };
    let m: usize = rest.len();
    let mut end: usize = 0;
    while end < m && rest[end] != '/' && rest[end] != ':'
        invariant
            m == rest@.len(),
            end <= m,
            host_end(rest@, 0) == host_end(rest@, end as int),
        decreases m - end,
    {
        end += 1;
    }
    string_of(slice_subrange(rest, 0, end))
}

} // verus!
