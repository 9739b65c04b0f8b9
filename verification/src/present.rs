//! What is shown of a device's policy, and the requests that change it.

use crate::api::{block_payload, find_policy, policy_payload, policy_slot};
use crate::http::{opt_reply, Reply};
use crate::json::JsonView;
use crate::model::{policy_views, PolicyInfo, PolicyView, RouterInfo};
use crate::pipeline::{session_of, CandidateView};
use crate::session::{call_next, host_request, map_step, opt_str, step_view, KeeneticRouter, Phase, Step};
use crate::interfaces::mac_text;
use crate::text::{chars_of, hex_pair, string_of};
use vstd::prelude::*;

verus! {

/// The label of a device's policy: `Blocked` where it is denied, `Default`
/// where it has no policy, else the description of its policy, or the
/// policy's name where no description is known.
pub open spec fn label_of(policy: Option<Seq<char>>, deny: bool, table: Seq<PolicyView>) -> Seq<
    char,
> {
    if deny {
        "Blocked"@
    } else {
        match policy {
            None => "Default"@,
            Some(key) => match policy_slot(table, key, 0) {
                Some(i) => match table[i].description {
                    Some(d) => d,
                    None => key,
                },
                None => key,
            },
        }
    }
}

/// The label of a device's policy.
pub fn policy_label(policy: Option<&str>, deny: bool, policies: &Vec<(String, PolicyInfo)>) -> (out:
    String)
    ensures
        out@ == label_of(opt_str(policy), deny, policy_views(policies@)),
{
    if deny {
        return "Blocked".to_owned();
    }
    let key = match policy {
        None => { return "Default".to_owned(); },
        Some(key) => key,
    };
    if let Some(i) = find_policy(policies, key) {
        if let Some(desc) = &policies[i].1.description {
            return desc.clone();
        }
    }
    key.to_owned()
}

/// The first three characters of `label`, or all of it where it is shorter.
pub open spec fn short_of(label: Seq<char>) -> Seq<char> {
    if label.len() <= 3 {
        label
    } else {
        label.subrange(0, 3)
    }
}

/// The short form of a label: its first three characters.
pub fn policy_short(label: &str) -> (out: String)
    ensures
        out@ == short_of(label@),
{
    let chars = chars_of(label);
    if chars.len() <= 3 {
        string_of(chars.as_slice())
    } else {
        let head = vstd::slice::slice_subrange(chars.as_slice(), 0, 3);
        string_of(head)
    }
}

/// `s` without its colons.
pub open spec fn without_colons(s: Seq<char>) -> Seq<char>
    decreases s.len(),
{
    if s.len() == 0 {
        Seq::empty()
    } else if s.last() == ':' {
        without_colons(s.drop_last())
    } else {
        without_colons(s.drop_last()).push(s.last())
    }
}

/// `s` with a colon before every character at an even index but the first.
pub open spec fn with_colons(s: Seq<char>) -> Seq<char>
    decreases s.len(),
{
    if s.len() == 0 {
        Seq::empty()
    } else {
        let before = with_colons(s.drop_last());
        let i = s.len() - 1;
        if i > 0 && i % 2 == 0 {
            before.push(':').push(s.last())
        } else {
            before.push(s.last())
        }
    }
}

/// `chars` without its colons.
fn strip_colons(chars: &[char]) -> (out: Vec<char>)
    ensures
        out@ == without_colons(chars@),
{
    let mut out: Vec<char> = Vec::new();
    let n: usize = chars.len();
    let mut i: usize = 0;
    assert(chars@.subrange(0, 0) =~= Seq::empty());
    while i < n
        invariant
            n == chars@.len(),
            i <= n,
            out@ == without_colons(chars@.subrange(0, i as int)),
        decreases n - i,
    {
        assert(chars@.subrange(0, i + 1).drop_last() =~= chars@.subrange(0, i as int));
        if chars[i] != ':' {
            out.push(chars[i]);
        }
        i += 1;
    }
    assert(chars@.subrange(0, n as int) =~= chars@);
    out
}

/// A hardware address as it is written into a menu item's identifier:
/// without its colons.
pub fn encode_mac(mac: &str) -> (out: String)
    ensures
        out@ == without_colons(mac@),
{
    let chars = chars_of(mac);
    let stripped = strip_colons(chars.as_slice());
    string_of(stripped.as_slice())
}

/// A hardware address read back from a menu item's identifier: colons are
/// dropped, then one is put between every two characters.
pub fn decode_mac(value: &str) -> (out: String)
    ensures
        out@ == with_colons(without_colons(value@)),
{
    let chars = chars_of(value);
    let cleaned = strip_colons(chars.as_slice());
    let mut out: Vec<char> = Vec::new();
    let n: usize = cleaned.len();
    let mut i: usize = 0;
    assert(cleaned@.subrange(0, 0) =~= Seq::empty());
    while i < n
        invariant
            n == cleaned@.len(),
            i <= n,
            out@ == with_colons(cleaned@.subrange(0, i as int)),
        decreases n - i,
    {
        assert(cleaned@.subrange(0, i + 1).drop_last() =~= cleaned@.subrange(0, i as int));
        if i > 0 && i % 2 == 0 {
            out.push(':');
        }
        out.push(cleaned[i]);
        i += 1;
    }
    assert(cleaned@.subrange(0, n as int) =~= cleaned@);
    string_of(out.as_slice())
}

/// A hexadecimal digit is no colon.
pub proof fn lemma_hex_pair_plain(b: u8)
    ensures
        hex_pair(b).len() == 2,
        hex_pair(b)[0] != ':',
        hex_pair(b)[1] != ':',
{
}

/// A hardware address survives being written into an identifier and
/// read back: its text without the colons, with the colons put back, is
/// its text again.
pub proof fn lemma_mac_round_trip(m: Seq<u8>)
    requires
        m.len() == 6,
    ensures
        with_colons(without_colons(mac_text(m))) == mac_text(m),
{
    lemma_hex_pair_plain(m[0]);
    lemma_hex_pair_plain(m[1]);
    lemma_hex_pair_plain(m[2]);
    lemma_hex_pair_plain(m[3]);
    lemma_hex_pair_plain(m[4]);
    lemma_hex_pair_plain(m[5]);
    let a = hex_pair(m[0]);
    let b = hex_pair(m[1]);
    let c = hex_pair(m[2]);
    let d = hex_pair(m[3]);
    let e = hex_pair(m[4]);
    let f = hex_pair(m[5]);
    let text = mac_text(m);
    let plain = seq![a[0], a[1], b[0], b[1], c[0], c[1], d[0], d[1], e[0], e[1], f[0], f[1]];
    assert(text =~= seq![
        a[0],
        a[1],
        ':',
        b[0],
        b[1],
        ':',
        c[0],
        c[1],
        ':',
        d[0],
        d[1],
        ':',
        e[0],
        e[1],
        ':',
        f[0],
        f[1],
    ]);
    lemma_strip(text, 17);
    assert(text.subrange(0, 17) =~= text);
    assert(without_colons(text) =~= plain) by {
        reveal_with_fuel(stripped_prefix, 18);
        assert(stripped_prefix(text, 17) =~= plain);
    }
    lemma_spread(plain, 12);
    assert(plain.subrange(0, 12) =~= plain);
    assert(spread_prefix(plain, 12) =~= text) by {
        reveal_with_fuel(spread_prefix, 13);
    }
}

/// The first `n` characters of `s` without the colons, from the front.
spec fn stripped_prefix(s: Seq<char>, n: int) -> Seq<char>
    decreases n,
{
    if n <= 0 {
        Seq::empty()
    } else if s[n - 1] == ':' {
        stripped_prefix(s, n - 1)
    } else {
        stripped_prefix(s, n - 1).push(s[n - 1])
    }
}

/// Dropping the colons of a prefix goes character by character.
proof fn lemma_strip(s: Seq<char>, n: int)
    requires
        0 <= n <= s.len(),
    ensures
        without_colons(s.subrange(0, n)) == stripped_prefix(s, n),
    decreases n,
{
    if n > 0 {
        lemma_strip(s, n - 1);
        assert(s.subrange(0, n).drop_last() =~= s.subrange(0, n - 1));
    }
}

/// The first `n` characters of `s` with the colons put in.
spec fn spread_prefix(s: Seq<char>, n: int) -> Seq<char>
    decreases n,
{
    if n <= 0 {
        Seq::empty()
    } else if n - 1 > 0 && (n - 1) % 2 == 0 {
        spread_prefix(s, n - 1).push(':').push(s[n - 1])
    } else {
        spread_prefix(s, n - 1).push(s[n - 1])
    }
}

/// Putting the colons into a prefix goes character by character.
proof fn lemma_spread(s: Seq<char>, n: int)
    requires
        0 <= n <= s.len(),
    ensures
        with_colons(s.subrange(0, n)) == spread_prefix(s, n),
    decreases n,
{
    if n > 0 {
        lemma_spread(s, n - 1);
        assert(s.subrange(0, n).drop_last() =~= s.subrange(0, n - 1));
    }
}

/// The body of the request that changes a device: blocking it, assigning
/// it a policy, or giving it the default policy again.
pub open spec fn change_payload(mac: Seq<char>, policy: Option<Seq<char>>, blocked: bool)
    -> JsonView {
    if blocked {
        block_payload(mac)
    } else {
        policy_payload(mac, policy)
    }
}

/// One step of the call that changes the policy of the device `mac` on the
/// active router: the device is blocked where `blocked` is set; else it
/// gets `policy`, or the default policy where that is `None`.
pub fn apply_policy(
    mac: &str,
    policy: Option<&str>,
    blocked: bool,
    router: &RouterInfo,
    address: &str,
    password: &str,
    phase: Phase,
    reply: Option<&Reply>,
) -> (out: (Phase, Step<()>))
    ensures
        ({
            let s = session_of(CandidateView { router: router@, address: address@ }, password@);
            let next = call_next(
                s,
                host_request(s, change_payload(mac@, opt_str(policy), blocked)),
                phase,
                opt_reply(reply),
            );
            &&& out.0 == next.0
            &&& step_view(out.1, |u: ()| u) == map_step(next.1, |j: JsonView| ())
        }),
{
    let client = KeeneticRouter::new(
        address,
        router.login.as_str(),
        password,
        router.name.as_str(),
    );
    if blocked {
        client.set_client_block(mac, phase, reply)
    } else if let Some(name) = policy {
        client.apply_policy_to_client(mac, Some(name), phase, reply)
    } else {
        client.apply_default_policy(mac, phase, reply)
    }
}

} // verus!
