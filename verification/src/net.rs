//! IPv4 addresses and networks: their dotted-decimal text and the test
//! whether an address lies in a network.

use crate::text::{
    chars_of, decimal, decimal_text, digit_char, extend, find, first_occurrence, is_digit, string_of,
};
use vstd::arithmetic::div_mod::{
    lemma_fundamental_div_mod, lemma_fundamental_div_mod_converse, lemma_mod_pos_bound,
};
use vstd::prelude::*;
use vstd::slice::slice_subrange;

verus! {

/// The octet `k` of `addr`, counted from the most significant (`k == 0`).
pub open spec fn octet(addr: u32, k: int) -> nat {
    if k == 0 {
        (addr as nat) / 16777216
    } else if k == 1 {
        ((addr as nat) / 65536) % 256
    } else if k == 2 {
        ((addr as nat) / 256) % 256
    } else {
        (addr as nat) % 256
    }
}

/// The text that separates two octets.
pub open spec fn dot() -> Seq<char> {
    seq!['.']
}

/// The dotted-decimal text of `addr`: its four octets in decimal, most
/// significant first, with a dot between them.
pub open spec fn ipv4_text(addr: u32) -> Seq<char> {
    decimal(octet(addr, 0)) + dot() + decimal(octet(addr, 1)) + dot() + decimal(octet(addr, 2))
        + dot() + decimal(octet(addr, 3))
}

/// The dotted-decimal text of `addr`.
pub fn ipv4_to_text(addr: u32) -> (out: String)
    ensures
        out@ == ipv4_text(addr),
{
    let mut chars = decimal_text(addr / 16777216);
    chars.push('.');
    let second = decimal_text((addr / 65536) % 256);
    extend(&mut chars, second.as_slice());
    chars.push('.');
    let third = decimal_text((addr / 256) % 256);
    extend(&mut chars, third.as_slice());
    chars.push('.');
    let fourth = decimal_text(addr % 256);
    extend(&mut chars, fourth.as_slice());
    assert(chars@ =~= ipv4_text(addr));
    string_of(chars.as_slice())
}

/// The number that the decimal digit `c` stands for.
pub open spec fn digit_value(c: char) -> nat {
    (c as u32 - 48) as nat
}

/// The value of one octet written in decimal: one to three digits, without
/// a leading zero unless it is the single digit `0`, and at most 255.
pub open spec fn octet_of(g: Seq<char>) -> Option<nat> {
    if g.len() == 1 && is_digit(g[0]) {
        Some(digit_value(g[0]))
    } else if g.len() == 2 && is_digit(g[0]) && is_digit(g[1]) && digit_value(g[0]) != 0 {
        Some(10 * digit_value(g[0]) + digit_value(g[1]))
    } else if g.len() == 3 && is_digit(g[0]) && is_digit(g[1]) && is_digit(g[2]) && digit_value(
        g[0],
    ) != 0 && 100 * digit_value(g[0]) + 10 * digit_value(g[1]) + digit_value(g[2]) <= 255 {
        Some(100 * digit_value(g[0]) + 10 * digit_value(g[1]) + digit_value(g[2]))
    } else {
        None
    }
}

/// Whether `c` is a decimal digit, and the number it stands for.
fn digit(c: char) -> (d: Option<u32>)
    ensures
        match d {
            Some(v) => is_digit(c) && v == digit_value(c),
            None => !is_digit(c),
        },
{
    let u: u32 = c as u32;
    if 48 <= u && u <= 57 {
        Some(u - 48)
    } else {
        None
    }
}

/// The value of one octet written in decimal.
pub fn parse_octet(g: &[char]) -> (v: Option<u32>)
    ensures
        match v {
            Some(n) => octet_of(g@) == Some(n as nat) && n <= 255,
            None => octet_of(g@) is None,
        },
{
    let n: usize = g.len();
    if n == 0 || n > 3 {
        return None;
    }
    let first = match digit(g[0]) {
        Some(d) => d,
        None => { return None; },
    };
    if n == 1 {
        return Some(first);
    }
    if first == 0 {
        return None;
    }
    let second = match digit(g[1]) {
        Some(d) => d,
        None => { return None; },
    };
    if n == 2 {
        return Some(10 * first + second);
    }
    let third = match digit(g[2]) {
        Some(d) => d,
        None => { return None; },
    };
    let value: u32 = 100 * first + 10 * second + third;
    if value <= 255 {
        Some(value)
    } else {
        None
    }
}

/// The part of `s` before its first dot and the part after it.
pub open spec fn split_at_dot(s: Seq<char>) -> Option<(Seq<char>, Seq<char>)> {
    match first_occurrence(s, dot()) {
        Some(p) => Some((s.subrange(0, p), s.subrange(p + 1, s.len() as int))),
        None => None,
    }
}

/// The address that four octets make, most significant first.
pub open spec fn join_octets(a: nat, b: nat, c: nat, d: nat) -> nat {
    ((a * 256 + b) * 256 + c) * 256 + d
}

/// The address that `s` denotes in dotted-decimal notation: four octets
/// with a dot between them and nothing else.
pub open spec fn ipv4_value(s: Seq<char>) -> Option<u32> {
    match split_at_dot(s) {
        Some((g0, r1)) => match split_at_dot(r1) {
            Some((g1, r2)) => match split_at_dot(r2) {
                Some((g2, g3)) => match (octet_of(g0), octet_of(g1), octet_of(g2), octet_of(g3)) {
                    (Some(a), Some(b), Some(c), Some(d)) => Some(join_octets(a, b, c, d) as u32),
                    _ => None,
                },
                None => None,
            },
            None => None,
        },
        None => None,
    }
}

/// The decimal text of an octet is read back as that octet, and it holds
/// digits only.
pub proof fn lemma_octet_text(v: nat)
    requires
        v <= 255,
    ensures
        octet_of(decimal(v)) == Some(v),
        forall|i: int| 0 <= i < decimal(v).len() ==> #[trigger] decimal(v)[i] != '.',
{
    reveal_with_fuel(decimal, 3);
    if v < 10 {
        assert(decimal(v) =~= seq![digit_char(v as int)]);
    } else if v < 100 {
        assert(decimal(v) =~= seq![digit_char((v / 10) as int), digit_char((v % 10) as int)]);
    } else {
        assert(decimal(v) =~= seq![
            digit_char((v / 100) as int),
            digit_char(((v / 10) % 10) as int),
            digit_char((v % 10) as int),
        ]);
    }
}

/// A digit is the character for the number it stands for.
pub proof fn lemma_digit_char(c: char)
    requires
        is_digit(c),
    ensures
        digit_char(digit_value(c) as int) == c,
        digit_value(c) <= 9,
{
    let u = c as u32;
    assert(digit_char(digit_value(c) as int) == (u as int) as char);
    assert((u as int) as char == c);
}

/// Text that is read as an octet is the decimal text of that octet.
pub proof fn lemma_octet_value(g: Seq<char>)
    requires
        octet_of(g) is Some,
    ensures
        octet_of(g)->0 <= 255,
        decimal(octet_of(g)->0) == g,
{
    reveal_with_fuel(decimal, 3);
    let v = octet_of(g)->0;
    lemma_digit_char(g[0]);
    if g.len() >= 2 {
        lemma_digit_char(g[1]);
    }
    if g.len() >= 3 {
        lemma_digit_char(g[2]);
    }
    if g.len() == 1 {
        assert(decimal(v) =~= g);
    } else if g.len() == 2 {
        assert(v / 10 == digit_value(g[0]));
        assert(v % 10 == digit_value(g[1]));
        assert(decimal(v) =~= g);
    } else {
        assert(v / 100 == digit_value(g[0]));
        assert((v / 10) % 10 == digit_value(g[1]));
        assert(v % 10 == digit_value(g[2]));
        assert(decimal(v) =~= g);
    }
}

/// Text without a dot, then a dot, then more text splits at that dot.
pub proof fn lemma_split_joined(head: Seq<char>, tail: Seq<char>)
    requires
        forall|i: int| 0 <= i < head.len() ==> #[trigger] head[i] != '.',
    ensures
        split_at_dot(head + dot() + tail) == Some((head, tail)),
{
    let s = head + dot() + tail;
    let h = head.len() as int;
    crate::text::lemma_search_from_least(s, dot(), 0);
    assert(s.subrange(h, h + 1) =~= dot());
    assert(crate::text::occurs_at(s, dot(), h));
    assert forall|i: int| 0 <= i < h implies !crate::text::occurs_at(s, dot(), i) by {
        if crate::text::occurs_at(s, dot(), i) {
            assert(s.subrange(i, i + 1)[0] == head[i]);
            assert(dot()[0] == '.');
        }
    }
    assert(first_occurrence(s, dot()) == Some(h));
    assert(s.subrange(0, h) =~= head);
    assert(s.subrange(h + 1, s.len() as int) =~= tail);
}

/// Text that splits at a dot is its first part, a dot, and its second
/// part.
pub proof fn lemma_split_parts(s: Seq<char>)
    requires
        split_at_dot(s) is Some,
    ensures
        ({
            let (head, tail) = split_at_dot(s)->0;
            s == head + dot() + tail
        }),
{
    crate::text::lemma_search_from_least(s, dot(), 0);
    let p = first_occurrence(s, dot())->0;
    assert(crate::text::occurs_at(s, dot(), p));
    assert(s.subrange(p, p + 1)[0] == dot()[0]);
    assert(s =~= s.subrange(0, p) + dot() + s.subrange(p + 1, s.len() as int));
}

/// The four octets of an address make that address again.
pub proof fn lemma_join_octets(addr: u32)
    ensures
        join_octets(octet(addr, 0), octet(addr, 1), octet(addr, 2), octet(addr, 3)) == addr,
        forall|k: int| 0 <= k <= 3 ==> #[trigger] octet(addr, k) <= 255,
{
    let x = addr as int;
    let q1 = x / 256;
    let q2 = q1 / 256;
    let q3 = q2 / 256;
    lemma_fundamental_div_mod(x, 256);
    lemma_fundamental_div_mod(q1, 256);
    lemma_fundamental_div_mod(q2, 256);
    lemma_mod_pos_bound(x, 256);
    lemma_mod_pos_bound(q1, 256);
    lemma_mod_pos_bound(q2, 256);
    let o3 = x % 256;
    let o2 = q1 % 256;
    let o1 = q2 % 256;
    assert(x == 256 * q1 + o3);
    assert(q1 == 256 * q2 + o2);
    assert(q2 == 256 * q3 + o1);
    assert(x == q2 * 65536 + (o2 * 256 + o3));
    lemma_fundamental_div_mod_converse(x, 65536, q2, o2 * 256 + o3);
    assert(x == q3 * 16777216 + (o1 * 65536 + o2 * 256 + o3));
    lemma_fundamental_div_mod_converse(x, 16777216, q3, o1 * 65536 + o2 * 256 + o3);
    assert(octet(addr, 0) == q3);
    assert(octet(addr, 1) == o1);
    assert(octet(addr, 2) == o2);
    assert(octet(addr, 3) == o3);
    assert(0 <= q3 <= 255);
    assert(((q3 * 256 + o1) * 256 + o2) * 256 + o3 == x);
}

/// The text of an address is read back as that address.
pub proof fn lemma_ipv4_text_value(addr: u32)
    ensures
        ipv4_value(ipv4_text(addr)) == Some(addr),
{
    let d0 = decimal(octet(addr, 0));
    let d1 = decimal(octet(addr, 1));
    let d2 = decimal(octet(addr, 2));
    let d3 = decimal(octet(addr, 3));
    lemma_join_octets(addr);
    lemma_octet_text(octet(addr, 0));
    lemma_octet_text(octet(addr, 1));
    lemma_octet_text(octet(addr, 2));
    lemma_octet_text(octet(addr, 3));
    let r2 = d2 + dot() + d3;
    let r1 = d1 + dot() + r2;
    assert(ipv4_text(addr) =~= d0 + dot() + r1);
    lemma_split_joined(d0, r1);
    lemma_split_joined(d1, r2);
    lemma_split_joined(d2, d3);
}

/// The address made of four octets has those octets.
pub proof fn lemma_octets_of_join(a: nat, b: nat, c: nat, d: nat)
    requires
        a <= 255,
        b <= 255,
        c <= 255,
        d <= 255,
    ensures
        join_octets(a, b, c, d) <= u32::MAX,
        octet(join_octets(a, b, c, d) as u32, 0) == a,
        octet(join_octets(a, b, c, d) as u32, 1) == b,
        octet(join_octets(a, b, c, d) as u32, 2) == c,
        octet(join_octets(a, b, c, d) as u32, 3) == d,
{
    let n = join_octets(a, b, c, d) as int;
    let ab = a * 256 + b;
    let abc = ab * 256 + c;
    assert(n == abc * 256 + d);
    assert(0 <= ab <= 65535);
    assert(0 <= abc <= 16777215);
    assert(0 <= n <= 0xffff_ffff);
    lemma_fundamental_div_mod_converse(n, 256, abc as int, d as int);
    lemma_fundamental_div_mod_converse(abc as int, 256, ab as int, c as int);
    assert(n == ab * 65536 + (c * 256 + d));
    lemma_fundamental_div_mod_converse(n, 65536, ab as int, (c * 256 + d) as int);
    lemma_fundamental_div_mod_converse(ab as int, 256, a as int, b as int);
    assert(n == a * 16777216 + (b * 65536 + c * 256 + d));
    lemma_fundamental_div_mod_converse(n, 16777216, a as int, (b * 65536 + c * 256 + d) as int);
    let addr = join_octets(a, b, c, d) as u32;
    assert(addr as int == n);
    assert((addr as nat) / 16777216 == a);
    assert(((addr as nat) / 65536) % 256 == b);
    assert(((addr as nat) / 256) % 256 == c);
    assert((addr as nat) % 256 == d);
}

/// The text of the address made of four octets, part by part.
proof fn lemma_text_of_parts(g0: Seq<char>, g1: Seq<char>, g2: Seq<char>, g3: Seq<char>)
    requires
        octet_of(g0) is Some,
        octet_of(g1) is Some,
        octet_of(g2) is Some,
        octet_of(g3) is Some,
    ensures
        ipv4_text(
            join_octets(octet_of(g0)->0, octet_of(g1)->0, octet_of(g2)->0, octet_of(g3)->0) as u32,
        ) == g0 + dot() + (g1 + dot() + (g2 + dot() + g3)),
{
    lemma_octet_value(g0);
    lemma_octet_value(g1);
    lemma_octet_value(g2);
    lemma_octet_value(g3);
    let a = octet_of(g0)->0;
    let b = octet_of(g1)->0;
    let c = octet_of(g2)->0;
    let d = octet_of(g3)->0;
    lemma_octets_of_join(a, b, c, d);
    let addr = join_octets(a, b, c, d) as u32;
    assert(ipv4_text(addr) =~= g0 + dot() + (g1 + dot() + (g2 + dot() + g3)));
}

/// Text that is read as an address is the text of that address: reading
/// accepts the dotted-decimal text of each address and nothing else.
pub proof fn lemma_ipv4_value_text(s: Seq<char>)
    requires
        ipv4_value(s) is Some,
    ensures
        ipv4_text(ipv4_value(s)->0) == s,
{
    let (g0, r1) = split_at_dot(s)->0;
    let (g1, r2) = split_at_dot(r1)->0;
    let (g2, g3) = split_at_dot(r2)->0;
    lemma_split_parts(s);
    lemma_split_parts(r1);
    lemma_split_parts(r2);
    lemma_text_of_parts(g0, g1, g2, g3);
}

/// The part of `s` before its first dot and the part after it.
fn split_dot<'a>(s: &'a [char]) -> (parts: Option<(&'a [char], &'a [char])>)
    ensures
        match parts {
            Some((head, tail)) => split_at_dot(s@) == Some((head@, tail@)),
            None => split_at_dot(s@) is None,
        },
{
    let mut pat: Vec<char> = Vec::new();
    pat.push('.');
    assert(pat@ =~= dot());
    match find(s, pat.as_slice()) {
        Some(p) => {
            proof {
                crate::text::lemma_search_from_least(s@, pat@, 0);
            }
            assert(crate::text::occurs_at(s@, pat@, p as int));
            assert(pat@.len() == 1);
            assert(p as int + 1 <= s@.len());
            let n: usize = s.len();
            assert(p < n);
            let head = slice_subrange(s, 0, p);
            let tail = slice_subrange(s, p + 1, n);
            Some((head, tail))
        },
        None => None,
    }
}

/// The address that `chars` denote in dotted-decimal notation.
pub fn parse_ipv4_chars(chars: &[char]) -> (addr: Option<u32>)
    ensures
        addr == ipv4_value(chars@),
{
    let (g0, r1) = match split_dot(chars) {
        Some(parts) => parts,
        None => { return None; },
    };
    let (g1, r2) = match split_dot(r1) {
        Some(parts) => parts,
        None => { return None; },
    };
    let (g2, g3) = match split_dot(r2) {
        Some(parts) => parts,
        None => { return None; },
    };
    let a = match parse_octet(g0) {
        Some(v) => v,
        None => { return None; },
    };
    let b = match parse_octet(g1) {
        Some(v) => v,
        None => { return None; },
    };
    let c = match parse_octet(g2) {
        Some(v) => v,
        None => { return None; },
    };
    let d = match parse_octet(g3) {
        Some(v) => v,
        None => { return None; },
    };
    Some(((a * 256 + b) * 256 + c) * 256 + d)
}

/// The address that `s` denotes in dotted-decimal notation.
pub fn parse_ipv4(s: &str) -> (addr: Option<u32>)
    ensures
        addr == ipv4_value(s@),
{
    let chars = chars_of(s);
    parse_ipv4_chars(chars.as_slice())
}

/// The mask of a network whose prefix is `prefix` bits long: that many
/// leading one bits, then zeros.
pub open spec fn prefix_mask(prefix: u8) -> u32 {
    (!(0xffff_ffffu64 >> (prefix as u64))) as u32
}

/// Whether `ip` lies in the network of `addr` with a prefix of `prefix`
/// bits: under the mask the two are equal.
pub open spec fn net_contains(addr: u32, prefix: u8, ip: u32) -> bool {
    (ip & prefix_mask(prefix)) == (addr & prefix_mask(prefix))
}

/// An address lies in a network exactly where the two agree on the
/// leading `prefix` bits. With a prefix of 0 every address does, with a
/// prefix of 32 only the network's own address.
pub proof fn lemma_contains_leading_bits(addr: u32, prefix: u8, ip: u32)
    requires
        prefix <= 32,
    ensures
        net_contains(addr, prefix, ip) <==> (prefix == 0 || (ip >> ((32 - prefix) as u32)) == (addr
            >> ((32 - prefix) as u32))),
        prefix == 0 ==> net_contains(addr, prefix, ip),
        prefix == 32 ==> (net_contains(addr, prefix, ip) <==> ip == addr),
        net_contains(addr, prefix, addr),
{
    let p: u64 = prefix as u64;
    let k: u32 = (32 - prefix) as u32;
    assert(k == 32 - p);
    assert(((ip & ((!(0xffff_ffffu64 >> p)) as u32)) == (addr & ((!(0xffff_ffffu64 >> p)) as u32)))
        <==> (p == 0 || (ip >> k) == (addr >> k))) by (bit_vector)
        requires
            p <= 32,
            k == 32 - p,
    ;
    assert(prefix == 32 ==> ((ip >> k) == (addr >> k) <==> ip == addr)) by (bit_vector)
        requires
            k == 32 - p,
            p == prefix as u64,
            p <= 32,
    ;
}

/// Whether `ip` lies in the network of `addr` with a prefix of `prefix` bits.
///
/// Trusted: builds an `ipnetwork::Ipv4Network` with `Ipv4Network::new` and
/// asks `Ipv4Network::contains`, which masks both addresses with the
/// network's mask and compares them. `new` refuses a prefix above 32, which
/// the precondition rules out.
#[verifier::external_body]
fn network_contains(addr: u32, prefix: u8, ip: u32) -> (inside: bool)
    requires
        prefix <= 32,
    ensures
        inside == net_contains(addr, prefix, ip),
{
    match ipnetwork::Ipv4Network::new(addr.into(), prefix) {
        Ok(net) => net.contains(ip.into()),
        Err(_) => false,
    }
}

/// An IPv4 network: an address and the length of its prefix, at most 32.
#[derive(Clone, Copy, Debug)]
pub struct Ipv4Net {
    addr: u32,
    prefix: u8,
}

/// The mathematical value of an [`Ipv4Net`].
pub struct Ipv4NetView {
    pub addr: u32,
    pub prefix: u8,
}

impl View for Ipv4Net {
    type V = Ipv4NetView;

    closed spec fn view(&self) -> Ipv4NetView {
        Ipv4NetView { addr: self.addr, prefix: self.prefix }
    }
}

impl Ipv4NetView {
    /// Whether `ip` lies in this network.
    pub open spec fn contains(self, ip: u32) -> bool {
        net_contains(self.addr, self.prefix, ip)
    }
}

impl Ipv4Net {
    #[verifier::type_invariant]
    spec fn prefix_in_range(self) -> bool {
        self.prefix <= 32
    }

    /// The network of `addr` with a prefix of `prefix` bits; `None` where
    /// `prefix` is above 32.
    pub fn new(addr: u32, prefix: u8) -> (net: Option<Ipv4Net>)
        ensures
            match net {
                Some(n) => prefix <= 32 && n@ == (Ipv4NetView { addr, prefix }),
                None => prefix > 32,
            },
    {
        if prefix > 32 {
            None
        } else {
            Some(Ipv4Net { addr, prefix })
        }
    }

    /// The address that the network was made with.
    pub fn ip(&self) -> (addr: u32)
        ensures
            addr == self@.addr,
    {
        self.addr
    }

    /// The length of the prefix in bits.
    pub fn prefix(&self) -> (prefix: u8)
        ensures
            prefix == self@.prefix,
            prefix <= 32,
    {
        proof {
            use_type_invariant(self);
        }
        self.prefix
    }

    /// Whether `ip` lies in this network.
    pub fn contains(&self, ip: u32) -> (inside: bool)
        ensures
            inside == self@.contains(ip),
    {
        proof {
            use_type_invariant(self);
        }
        network_contains(self.addr, self.prefix, ip)
    }
}

/// Whether some network of `networks` contains `ip`.
pub open spec fn any_contains(networks: Seq<Ipv4Net>, ip: u32) -> bool {
    exists|i: int| 0 <= i < networks.len() && (#[trigger] networks[i])@.contains(ip)
}

/// Whether `ip` is the dotted-decimal text of an address that lies in one
/// of `networks`.
pub open spec fn text_in_networks(ip: Seq<char>, networks: Seq<Ipv4Net>) -> bool {
    match ipv4_value(ip) {
        Some(a) => any_contains(networks, a),
        None => false,
    }
}

/// Whether `ip` is an IPv4 address that lies in one of `networks`. Text
/// that is no IPv4 address lies in none.
pub fn ip_in_networks(ip: &str, networks: &[Ipv4Net]) -> (inside: bool)
    ensures
        inside == text_in_networks(ip@, networks@),
{
    match parse_ipv4(ip) {
        Some(a) => {
            let n: usize = networks.len();
            let mut i: usize = 0;
            while i < n
                invariant
                    n == networks@.len(),
                    i <= n,
                    ipv4_value(ip@) == Some(a),
                    forall|k: int| 0 <= k < i ==> !(#[trigger] networks@[k])@.contains(a),
                decreases n - i,
            {
                if networks[i].contains(a) {
                    return true;
                }
                i += 1;
            }
            false
        },
        None => false,
    }
}

} // verus!
