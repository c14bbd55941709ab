//! Classifying a destination host string.
//!
//! The client does not resolve names: a destination that reads as an IPv4
//! dotted quad becomes an IPv4 address, one that reads as an IPv6 group
//! literal becomes an IPv6 address, and anything else is carried as an
//! opaque domain name for the server's resolver. The grammars accepted are
//! defined by the spec functions here:
//!
//! - IPv4: four decimal parts separated by `.`, each 1 to 3 digits, value
//!   at most 255, with no leading zero (except the part `0` itself).
//! - IPv6: groups of 1 to 4 hexadecimal digits separated by `:`, either
//!   exactly eight groups, or at most seven with one `::` standing for the
//!   missing zero groups. The mixed form with an embedded dotted quad
//!   (such as `::ffff:127.0.0.1`) is not recognized and is treated as a
//!   host name, which the resolver still understands.

use vstd::prelude::*;

use crate::proto::{dec_text, hex_text, ipv6_group, ipv6_text_upto, spec_host_text, AddressModel};

verus! {

/// The ASCII dot.
pub const DOT: u8 = 0x2e;

/// The ASCII colon.
pub const COLON: u8 = 0x3a;

/// The parts of `s` between occurrences of `sep`, in order: one part more
/// than there are separators, and empty parts where separators meet.
pub open spec fn split_bytes(s: Seq<u8>, sep: u8) -> Seq<Seq<u8>>
    decreases s.len(),
{
    if s.len() == 0 {
        seq![Seq::<u8>::empty()]
    } else if s[0] == sep {
        seq![Seq::<u8>::empty()] + split_bytes(s.skip(1), sep)
    } else {
        let rest = split_bytes(s.skip(1), sep);
        seq![seq![s[0]] + rest[0]] + rest.skip(1)
    }
}

/// A split is never empty: there is always at least the part before the
/// first separator.
pub proof fn lemma_split_nonempty(s: Seq<u8>, sep: u8)
    ensures
        split_bytes(s, sep).len() >= 1,
    decreases s.len(),
{
    if s.len() != 0 {
        lemma_split_nonempty(s.skip(1), sep);
    }
}

/// Prepending bytes to the first part of a split.
spec fn split_push(c: Seq<u8>, ps: Seq<Seq<u8>>) -> Seq<Seq<u8>> {
    seq![c + ps[0]] + ps.skip(1)
}

/// Split `s` at every occurrence of `sep`.
pub fn split_on(s: &[u8], sep: u8) -> (parts: Vec<Vec<u8>>)
    ensures
        parts@.map_values(|p: Vec<u8>| p@) == split_bytes(s@, sep),
{
    let len = s.len();
    let mut done: Vec<Vec<u8>> = Vec::new();
    let mut cur: Vec<u8> = Vec::new();
    let mut i: usize = 0;
    proof {
        lemma_split_nonempty(s@, sep);
        assert(s@.skip(0) =~= s@);
        assert(split_push(cur@, split_bytes(s@, sep)) =~~= split_bytes(s@, sep));
    }
    while i < len
        invariant
            i <= len,
            len == s@.len(),
            split_bytes(s@, sep) == done@.map_values(|p: Vec<u8>| p@) + split_push(
                cur@,
                split_bytes(s@.skip(i as int), sep),
            ),
        decreases len - i,
    {
        let ghost prev_done = done@;
        let ghost prev_cur = cur@;
        let ghost tail = split_bytes(s@.skip(i as int), sep);
        let ghost tail1 = split_bytes(s@.skip(i + 1), sep);
        proof {
            assert(s@.skip(i as int)[0] == s@[i as int]);
            assert(s@.skip(i as int).skip(1) =~= s@.skip(i + 1));
            lemma_split_nonempty(s@.skip(i + 1), sep);
        }
        if s[i] == sep {
            done.push(cur);
            cur = Vec::new();
            proof {
                assert(tail == seq![Seq::<u8>::empty()] + tail1);
                assert(split_push(prev_cur, tail) =~~= seq![prev_cur] + tail1);
                assert(split_push(Seq::<u8>::empty(), tail1) =~~= tail1);
                assert(done@.map_values(|p: Vec<u8>| p@) =~~= prev_done.map_values(
                    |p: Vec<u8>| p@,
                ).push(prev_cur));
                assert(prev_done.map_values(|p: Vec<u8>| p@) + split_push(prev_cur, tail)
                    =~~= done@.map_values(|p: Vec<u8>| p@) + split_push(cur@, tail1));
            }
        } else {
            cur.push(s[i]);
            proof {
                assert(tail == seq![seq![s@[i as int]] + tail1[0]] + tail1.skip(1));
                assert(tail[0] == seq![s@[i as int]] + tail1[0]);
                assert(tail.skip(1) =~~= tail1.skip(1));
                assert(prev_cur + (seq![s@[i as int]] + tail1[0]) =~= cur@ + tail1[0]);
                assert(split_push(prev_cur, tail) =~~= split_push(cur@, tail1));
            }
        }
        i = i + 1;
    }
    let ghost prev_done = done@;
    proof {
        assert(s@.skip(len as int) =~= Seq::<u8>::empty());
        assert(split_bytes(s@.skip(len as int), sep) == seq![Seq::<u8>::empty()]);
        assert(split_push(cur@, seq![Seq::<u8>::empty()]) =~~= seq![cur@]);
    }
    done.push(cur);
    proof {
        assert(done@.map_values(|p: Vec<u8>| p@) =~~= prev_done.map_values(|p: Vec<u8>| p@)
            + seq![done@.last()@]);
        assert(done@.map_values(|p: Vec<u8>| p@) =~~= split_bytes(s@, sep));
    }
    done
}

/// Whether `b` is an ASCII decimal digit.
pub open spec fn is_digit(b: u8) -> bool {
    0x30 <= b <= 0x39
}

/// The value of an ASCII decimal digit.
pub open spec fn digit_val(b: u8) -> int {
    b - 0x30
}

/// The value of a string of decimal digits, most significant first.
pub open spec fn dec_value(s: Seq<u8>) -> int
    decreases s.len(),
{
    if s.len() == 0 {
        0
    } else {
        dec_value(s.drop_last()) * 10 + digit_val(s.last())
    }
}

/// Whether every byte of `s` is a decimal digit.
pub open spec fn all_digits(s: Seq<u8>) -> bool {
    forall|i: int| 0 <= i < s.len() ==> is_digit(#[trigger] s[i])
}

/// A valid dotted-quad part: 1 to 3 digits, value at most 255, and no
/// leading zero unless the part is exactly `0`.
pub open spec fn valid_octet_text(s: Seq<u8>) -> bool {
    &&& 1 <= s.len() <= 3
    &&& all_digits(s)
    &&& dec_value(s) <= 255
    &&& (s.len() > 1 ==> s[0] != 0x30)
}

/// A digit string's value is bounded by the power of ten of its length.
proof fn lemma_dec_value_bound(s: Seq<u8>)
    requires
        all_digits(s),
    ensures
        0 <= dec_value(s),
        s.len() == 0 ==> dec_value(s) == 0,
        s.len() == 1 ==> dec_value(s) <= 9,
        s.len() == 2 ==> dec_value(s) <= 99,
        s.len() == 3 ==> dec_value(s) <= 999,
    decreases s.len(),
{
    if s.len() > 0 {
        assert(all_digits(s.drop_last())) by {
            assert(forall|i: int| 0 <= i < s.len() - 1 ==> s.drop_last()[i] == s[i]);
        }
        lemma_dec_value_bound(s.drop_last());
    }
}

/// Check one dotted-quad part and give its octet value.
fn check_octet(part: &Vec<u8>) -> (r: Option<u8>)
    ensures
        r is Some <==> valid_octet_text(part@),
        r is Some ==> r->0 == dec_value(part@),
{
    let n = part.len();
    if n == 0 || n > 3 {
        return None;
    }
    if n > 1 && part[0] == 0x30 {
        return None;
    }
    let mut val: u32 = 0;
    let mut i: usize = 0;
    while i < n
        invariant
            i <= n,
            n == part@.len(),
            1 <= n <= 3,
            all_digits(part@.take(i as int)),
            val == dec_value(part@.take(i as int)),
            val <= 999,
        decreases n - i,
    {
        let b = part[i];
        if b < 0x30 || b > 0x39 {
            return None;
        }
        proof {
            assert(part@.take(i + 1).drop_last() =~= part@.take(i as int));
            assert(part@.take(i + 1).last() == part@[i as int]);
            assert(all_digits(part@.take(i + 1)));
            lemma_dec_value_bound(part@.take(i as int));
            if i + 1 < 3 {
                lemma_dec_value_bound(part@.take(i + 1));
            }
        }
        val = val * 10 + ((b - 0x30) as u32);
        proof {
            if i + 1 == 3 {
                lemma_dec_value_bound(part@.take(i + 1));
            }
        }
        i = i + 1;
    }
    proof {
        assert(part@.take(n as int) =~= part@);
    }
    if val > 255 {
        return None;
    }
    Some(val as u8)
}

/// Whether dot-separated parts form a dotted quad: exactly four, each a
/// valid octet text.
pub open spec fn ipv4_parts_valid(ps: Seq<Seq<u8>>) -> bool {
    &&& ps.len() == 4
    &&& valid_octet_text(ps[0])
    &&& valid_octet_text(ps[1])
    &&& valid_octet_text(ps[2])
    &&& valid_octet_text(ps[3])
}

/// The four octets denoted by valid dotted-quad parts.
pub open spec fn ipv4_octets(ps: Seq<Seq<u8>>) -> Seq<u8> {
    seq![
        dec_value(ps[0]) as u8,
        dec_value(ps[1]) as u8,
        dec_value(ps[2]) as u8,
        dec_value(ps[3]) as u8,
    ]
}

/// What parsing `s` as an IPv4 dotted quad yields: the four octets, or
/// nothing if `s` is not in the grammar.
pub open spec fn spec_parse_ipv4(s: Seq<u8>) -> Option<Seq<u8>> {
    if ipv4_parts_valid(split_bytes(s, DOT)) {
        Some(ipv4_octets(split_bytes(s, DOT)))
    } else {
        None
    }
}

/// Parse `s` as an IPv4 dotted quad.
pub fn parse_ipv4_literal(s: &[u8]) -> (r: Option<Vec<u8>>)
    ensures
        match r {
            Some(o) => spec_parse_ipv4(s@) == Some(o@) && o@.len() == 4,
            None => spec_parse_ipv4(s@) is None,
        },
{
    let parts = split_on(s, DOT);
    let ghost ps = split_bytes(s@, DOT);
    if parts.len() != 4 {
        proof {
            assert(!ipv4_parts_valid(ps));
        }
        return None;
    }
    let mut octets: Vec<u8> = Vec::new();
    let mut k: usize = 0;
    while k < 4
        invariant
            k <= 4,
            parts@.len() == 4,
            parts@.map_values(|p: Vec<u8>| p@) == ps,
            ps == split_bytes(s@, DOT),
            ps.len() == 4,
            forall|j: int| 0 <= j < k ==> valid_octet_text(#[trigger] ps[j]),
            octets@.len() == k,
            forall|j: int| 0 <= j < k ==> octets@[j] == dec_value(ps[j]) as u8,
        decreases 4 - k,
    {
        proof {
            assert(parts@[k as int]@ == ps[k as int]);
        }
        match check_octet(&parts[k]) {
            Some(v) => {
                octets.push(v);
            },
            None => {
                proof {
                    assert(!valid_octet_text(ps[k as int]));
                    assert(!ipv4_parts_valid(ps));
                }
                return None;
            },
        }
        k = k + 1;
    }
    proof {
        assert(ipv4_parts_valid(ps));
        assert(octets@ =~= ipv4_octets(ps));
    }
    Some(octets)
}

/// A sequence without the separator splits to itself alone.
proof fn lemma_split_no_sep(s: Seq<u8>, sep: u8)
    requires
        forall|i: int| 0 <= i < s.len() ==> s[i] != sep,
    ensures
        split_bytes(s, sep) == seq![s],
    decreases s.len(),
{
    if s.len() == 0 {
        assert(split_bytes(s, sep) =~~= seq![s]);
    } else {
        lemma_split_no_sep(s.skip(1), sep);
        assert(seq![s[0]] + s.skip(1) =~= s);
        assert(split_bytes(s, sep) =~~= seq![s]);
    }
}

/// Splitting takes a joined sequence apart again: a separator-free part,
/// the separator, and a remainder split into the part and the remainder's
/// own parts.
proof fn lemma_split_join(a: Seq<u8>, rest: Seq<u8>, sep: u8)
    requires
        forall|i: int| 0 <= i < a.len() ==> a[i] != sep,
    ensures
        split_bytes(a + seq![sep] + rest, sep) == seq![a] + split_bytes(rest, sep),
    decreases a.len(),
{
    let s = a + seq![sep] + rest;
    if a.len() == 0 {
        assert(s[0] == sep);
        assert(s.skip(1) =~= rest);
        assert(split_bytes(s, sep) =~~= seq![a] + split_bytes(rest, sep));
    } else {
        assert(s[0] == a[0] && a[0] != sep);
        assert(s.skip(1) =~= a.skip(1) + seq![sep] + rest);
        lemma_split_join(a.skip(1), rest, sep);
        let r = split_bytes(s.skip(1), sep);
        assert(r == seq![a.skip(1)] + split_bytes(rest, sep));
        assert(r[0] == a.skip(1));
        assert(seq![s[0]] + r[0] =~= a);
        assert(r.skip(1) =~~= split_bytes(rest, sep));
        assert(split_bytes(s, sep) =~~= seq![a] + split_bytes(rest, sep));
    }
}

/// The decimal text of an octet value is a valid dotted-quad part and
/// reads back to the same value.
proof fn lemma_dec_text_octet(v: int)
    requires
        0 <= v <= 255,
    ensures
        valid_octet_text(dec_text(v)),
        dec_value(dec_text(v)) == v,
{
    reveal_with_fuel(dec_text, 4);
    reveal_with_fuel(dec_value, 4);
    let t = dec_text(v);
    if v < 10 {
        assert(t =~= seq![(0x30 + v) as u8]);
        assert(t.drop_last() =~= Seq::<u8>::empty());
    } else if v < 100 {
        assert(1 <= v / 10 < 10);
        assert(t =~= seq![(0x30 + v / 10) as u8, (0x30 + v % 10) as u8]);
        assert(t.drop_last() =~= seq![(0x30 + v / 10) as u8]);
        assert(t.drop_last().drop_last() =~= Seq::<u8>::empty());
        vstd::arithmetic::div_mod::lemma_fundamental_div_mod(v, 10);
    } else {
        assert(v / 10 / 10 == v / 100) by {
            vstd::arithmetic::div_mod::lemma_div_denominator(v, 10, 10);
        }
        assert(10 <= v / 10 < 100);
        assert(1 <= v / 100 < 10);
        assert(t =~= seq![
            (0x30 + v / 100) as u8,
            (0x30 + (v / 10) % 10) as u8,
            (0x30 + v % 10) as u8,
        ]);
        assert(t.drop_last() =~= seq![(0x30 + v / 100) as u8, (0x30 + (v / 10) % 10) as u8]);
        assert(t.drop_last().drop_last() =~= seq![(0x30 + v / 100) as u8]);
        assert(t.drop_last().drop_last().drop_last() =~= Seq::<u8>::empty());
        vstd::arithmetic::div_mod::lemma_fundamental_div_mod(v, 10);
        vstd::arithmetic::div_mod::lemma_fundamental_div_mod(v / 10, 10);
    }
}

/// The host text of an IPv4 address parses back to the same octets: the
/// name a dialer is handed denotes exactly the address that was asked
/// for.
pub proof fn lemma_host_text_parses_back_v4(o: Seq<u8>)
    requires
        o.len() == 4,
    ensures
        spec_parse_ipv4(spec_host_text(AddressModel::Ipv4(o)))
            == Some(o),
{
    let t0 = dec_text(o[0] as int);
    let t1 = dec_text(o[1] as int);
    let t2 = dec_text(o[2] as int);
    let t3 = dec_text(o[3] as int);
    lemma_dec_text_octet(o[0] as int);
    lemma_dec_text_octet(o[1] as int);
    lemma_dec_text_octet(o[2] as int);
    lemma_dec_text_octet(o[3] as int);
    let s = spec_host_text(AddressModel::Ipv4(o));
    let rest2 = t2 + seq![DOT] + t3;
    let rest1 = t1 + seq![DOT] + rest2;
    assert(s =~= t0 + seq![DOT] + rest1);
    lemma_split_join(t0, rest1, DOT);
    lemma_split_join(t1, rest2, DOT);
    lemma_split_join(t2, t3, DOT);
    lemma_split_no_sep(t3, DOT);
    let ps = split_bytes(s, DOT);
    assert(ps =~~= seq![t0, t1, t2, t3]);
    assert(ipv4_octets(ps) =~= o);
}

/// Whether `b` is an ASCII hexadecimal digit.
pub open spec fn is_hex_digit(b: u8) -> bool {
    (0x30 <= b <= 0x39) || (0x41 <= b <= 0x46) || (0x61 <= b <= 0x66)
}

/// The value of an ASCII hexadecimal digit.
pub open spec fn hex_digit_val(b: u8) -> int {
    if 0x30 <= b <= 0x39 {
        b - 0x30
    } else if 0x41 <= b <= 0x46 {
        b - 0x41 + 10
    } else {
        b - 0x61 + 10
    }
}

/// The value of a string of hexadecimal digits, most significant first.
pub open spec fn hex_value(s: Seq<u8>) -> int
    decreases s.len(),
{
    if s.len() == 0 {
        0
    } else {
        hex_value(s.drop_last()) * 16 + hex_digit_val(s.last())
    }
}

/// Whether every byte of `s` is a hexadecimal digit.
pub open spec fn all_hex_digits(s: Seq<u8>) -> bool {
    forall|i: int| 0 <= i < s.len() ==> is_hex_digit(#[trigger] s[i])
}

/// A valid IPv6 group: 1 to 4 hexadecimal digits.
pub open spec fn valid_hex_group(s: Seq<u8>) -> bool {
    1 <= s.len() <= 4 && all_hex_digits(s)
}

/// A hex string's value is bounded by the power of sixteen of its length.
proof fn lemma_hex_value_bound(s: Seq<u8>)
    requires
        all_hex_digits(s),
    ensures
        0 <= hex_value(s),
        s.len() == 0 ==> hex_value(s) == 0,
        s.len() == 1 ==> hex_value(s) <= 0xf,
        s.len() == 2 ==> hex_value(s) <= 0xff,
        s.len() == 3 ==> hex_value(s) <= 0xfff,
        s.len() == 4 ==> hex_value(s) <= 0xffff,
    decreases s.len(),
{
    if s.len() > 0 {
        assert(all_hex_digits(s.drop_last())) by {
            assert(forall|i: int| 0 <= i < s.len() - 1 ==> s.drop_last()[i] == s[i]);
        }
        lemma_hex_value_bound(s.drop_last());
    }
}

/// The two big-endian bytes of one group's value.
pub open spec fn group_be_bytes(g: Seq<u8>) -> Seq<u8> {
    seq![(hex_value(g) / 256) as u8, (hex_value(g) % 256) as u8]
}

/// The bytes of a run of groups, two per group, in order.
pub open spec fn groups_bytes(gs: Seq<Seq<u8>>) -> Seq<u8>
    decreases gs.len(),
{
    if gs.len() == 0 {
        Seq::empty()
    } else {
        group_be_bytes(gs[0]) + groups_bytes(gs.skip(1))
    }
}

/// `n` zero bytes.
pub open spec fn zero_bytes(n: int) -> Seq<u8> {
    Seq::new(n as nat, |i| 0u8)
}

/// Whether every part in `gs` is a valid group.
pub open spec fn all_valid_groups(gs: Seq<Seq<u8>>) -> bool {
    forall|i: int| 0 <= i < gs.len() ==> valid_hex_group(#[trigger] gs[i])
}

/// How many parts are empty.
pub open spec fn empty_count(ps: Seq<Seq<u8>>) -> int
    decreases ps.len(),
{
    if ps.len() == 0 {
        0
    } else {
        (if ps[0].len() == 0 {
            1int
        } else {
            0int
        }) + empty_count(ps.skip(1))
    }
}

/// The index of the first empty part (meaningful only when one exists).
pub open spec fn first_empty(ps: Seq<Seq<u8>>) -> int
    decreases ps.len(),
{
    if ps.len() == 0 {
        0
    } else if ps[0].len() == 0 {
        0
    } else {
        1 + first_empty(ps.skip(1))
    }
}

/// A run of groups contributes two bytes per group.
proof fn lemma_groups_bytes_len(gs: Seq<Seq<u8>>)
    ensures
        groups_bytes(gs).len() == 2 * gs.len(),
    decreases gs.len(),
{
    if gs.len() > 0 {
        lemma_groups_bytes_len(gs.skip(1));
    }
}

/// Appending a group appends its two bytes.
proof fn lemma_groups_bytes_push(gs: Seq<Seq<u8>>, g: Seq<u8>)
    ensures
        groups_bytes(gs.push(g)) == groups_bytes(gs) + group_be_bytes(g),
    decreases gs.len(),
{
    if gs.len() == 0 {
        assert(gs.push(g).skip(1) =~~= gs);
        assert(groups_bytes(gs.push(g)) =~= groups_bytes(gs) + group_be_bytes(g));
    } else {
        assert(gs.push(g).skip(1) =~~= gs.skip(1).push(g));
        lemma_groups_bytes_push(gs.skip(1), g);
        assert(groups_bytes(gs.push(g)) =~= groups_bytes(gs) + group_be_bytes(g));
    }
}

/// Counting empties one prefix step at a time.
proof fn lemma_empty_count_step(ps: Seq<Seq<u8>>, i: int)
    requires
        0 <= i < ps.len(),
    ensures
        empty_count(ps.take(i + 1)) == empty_count(ps.take(i)) + (if ps[i].len() == 0 {
            1int
        } else {
            0int
        }),
    decreases i,
{
    if i == 0 {
        assert(ps.take(1).skip(1) =~~= Seq::<Seq<u8>>::empty());
        assert(ps.take(0) =~~= Seq::<Seq<u8>>::empty());
    } else {
        assert(ps.take(i + 1).skip(1) =~~= ps.skip(1).take(i));
        assert(ps.take(i).skip(1) =~~= ps.skip(1).take(i - 1));
        lemma_empty_count_step(ps.skip(1), i - 1);
    }
}

/// The first empty part determines `first_empty`.
proof fn lemma_first_empty_at(ps: Seq<Seq<u8>>, i: int)
    requires
        0 <= i < ps.len(),
        ps[i].len() == 0,
        forall|l: int| 0 <= l < i ==> #[trigger] ps[l].len() > 0,
    ensures
        first_empty(ps) == i,
    decreases i,
{
    if i > 0 {
        lemma_first_empty_at(ps.skip(1), i - 1);
    }
}

/// A sequence of wholly nonempty parts has no empties to count.
proof fn lemma_empty_count_zero(ps: Seq<Seq<u8>>)
    requires
        forall|l: int| 0 <= l < ps.len() ==> #[trigger] ps[l].len() > 0,
    ensures
        empty_count(ps) == 0,
    decreases ps.len(),
{
    if ps.len() > 0 {
        lemma_empty_count_zero(ps.skip(1));
    }
}

/// What parsing `s` as an IPv6 group literal yields: the sixteen address
/// bytes, or nothing if `s` is not in the grammar. The accepted shapes,
/// over the colon-separated parts of `s`: eight groups and no `::`; a `::`
/// between groups, before trailing groups, or after leading groups, with
/// at most seven groups in all; or `::` alone.
pub open spec fn spec_parse_ipv6(s: Seq<u8>) -> Option<Seq<u8>> {
    let ps = split_bytes(s, COLON);
    let n = ps.len() as int;
    let e = empty_count(ps);
    let j = first_empty(ps);
    if e == 0 && n == 8 && all_valid_groups(ps) {
        Some(groups_bytes(ps))
    } else if e == 1 && 0 < j < n - 1 && n <= 8 && all_valid_groups(ps.take(j))
        && all_valid_groups(ps.skip(j + 1)) {
        Some(
            groups_bytes(ps.take(j)) + zero_bytes(16 - 2 * (n - 1)) + groups_bytes(ps.skip(j + 1)),
        )
    } else if e == 2 && n >= 3 && ps[0].len() == 0 && ps[1].len() == 0 && n <= 9
        && all_valid_groups(ps.skip(2)) {
        Some(zero_bytes(16 - 2 * (n - 2)) + groups_bytes(ps.skip(2)))
    } else if e == 2 && n >= 3 && ps[n - 2].len() == 0 && ps[n - 1].len() == 0 && n <= 9
        && all_valid_groups(ps.take(n - 2)) {
        Some(groups_bytes(ps.take(n - 2)) + zero_bytes(16 - 2 * (n - 2)))
    } else if e == 3 && n == 3 {
        Some(zero_bytes(16))
    } else {
        None
    }
}

/// Check one IPv6 group and give its value.
fn check_hex_group(part: &Vec<u8>) -> (r: Option<u16>)
    ensures
        r is Some <==> valid_hex_group(part@),
        r is Some ==> r->0 == hex_value(part@),
{
    let n = part.len();
    if n == 0 || n > 4 {
        return None;
    }
    let mut val: u16 = 0;
    let mut i: usize = 0;
    while i < n
        invariant
            i <= n,
            n == part@.len(),
            1 <= n <= 4,
            all_hex_digits(part@.take(i as int)),
            val == hex_value(part@.take(i as int)),
            val <= 0xfff || i == n,
        decreases n - i,
    {
        let b = part[i];
        let d: u16 = if b >= 0x30 && b <= 0x39 {
            (b - 0x30) as u16
        } else if b >= 0x41 && b <= 0x46 {
            (b - 0x41) as u16 + 10
        } else if b >= 0x61 && b <= 0x66 {
            (b - 0x61) as u16 + 10
        } else {
            return None;
        };
        proof {
            assert(part@.take(i + 1).drop_last() =~= part@.take(i as int));
            assert(part@.take(i + 1).last() == part@[i as int]);
            assert(all_hex_digits(part@.take(i + 1)));
            lemma_hex_value_bound(part@.take(i as int));
            lemma_hex_value_bound(part@.take(i + 1));
        }
        val = val * 16 + d;
        i = i + 1;
    }
    proof {
        assert(part@.take(n as int) =~= part@);
    }
    Some(val)
}

/// Append the bytes of the groups `parts[start..end]` to `out`; say
/// whether every one of them was a valid group. When one is not, `out` is
/// abandoned by the caller.
fn push_groups(out: &mut Vec<u8>, parts: &Vec<Vec<u8>>, start: usize, end: usize) -> (ok: bool)
    requires
        start <= end <= parts@.len(),
    ensures
        ok <==> all_valid_groups(parts@.map_values(|p: Vec<u8>| p@).subrange(
            start as int,
            end as int,
        )),
        ok ==> final(out)@ == old(out)@ + groups_bytes(
            parts@.map_values(|p: Vec<u8>| p@).subrange(start as int, end as int),
        ),
{
    let ghost psv = parts@.map_values(|p: Vec<u8>| p@);
    let mut k: usize = start;
    proof {
        assert(psv.subrange(start as int, start as int) =~~= Seq::<Seq<u8>>::empty());
    }
    while k < end
        invariant
            start <= k <= end,
            end <= parts@.len(),
            psv == parts@.map_values(|p: Vec<u8>| p@),
            all_valid_groups(psv.subrange(start as int, k as int)),
            out@ == old(out)@ + groups_bytes(psv.subrange(start as int, k as int)),
        decreases end - k,
    {
        let ghost done = psv.subrange(start as int, k as int);
        match check_hex_group(&parts[k]) {
            Some(v) => {
                out.push((v / 256) as u8);
                out.push((v % 256) as u8);
                proof {
                    assert(psv.subrange(start as int, k + 1) =~~= done.push(psv[k as int]));
                    lemma_groups_bytes_push(done, psv[k as int]);
                    assert(seq![(v / 256) as u8, (v % 256) as u8] =~= group_be_bytes(
                        psv[k as int],
                    ));
                    assert(out@ =~= old(out)@ + groups_bytes(psv.subrange(start as int, k + 1)));
                }
            },
            None => {
                proof {
                    assert(!valid_hex_group(psv.subrange(start as int, end as int)[k - start]));
                }
                return false;
            },
        }
        k = k + 1;
    }
    true
}

/// Append `n` zero bytes to `out`.
fn push_zero_bytes(out: &mut Vec<u8>, n: usize)
    ensures
        final(out)@ == old(out)@ + zero_bytes(n as int),
{
    let mut i: usize = 0;
    while i < n
        invariant
            i <= n,
            out@ == old(out)@ + zero_bytes(i as int),
        decreases n - i,
    {
        out.push(0);
        proof {
            assert(out@ =~= old(out)@ + zero_bytes(i + 1));
        }
        i = i + 1;
    }
}

/// The hexadecimal text of a group value is a valid group and reads back
/// to the same value.
proof fn lemma_hex_text_group(v: int)
    requires
        0 <= v <= 0xffff,
    ensures
        valid_hex_group(hex_text(v)),
        hex_value(hex_text(v)) == v,
        v < 16 ==> hex_text(v).len() == 1,
        v < 256 ==> hex_text(v).len() <= 2,
        v < 4096 ==> hex_text(v).len() <= 3,
    decreases v,
{
    reveal_with_fuel(hex_text, 2);
    reveal_with_fuel(hex_value, 2);
    let t = hex_text(v);
    if v < 16 {
        assert(t =~= seq![crate::proto::hex_text_digit(v)]);
        assert(t.drop_last() =~= Seq::<u8>::empty());
    } else {
        lemma_hex_text_group(v / 16);
        let head = hex_text(v / 16);
        assert(t == head + seq![crate::proto::hex_text_digit(v % 16)]);
        assert(t.drop_last() =~= head);
        assert(t.last() == crate::proto::hex_text_digit(v % 16));
        assert(all_hex_digits(t)) by {
            assert(forall|i: int| 0 <= i < head.len() ==> t[i] == head[i]);
        }
        assert(head.len() <= 3);
        vstd::arithmetic::div_mod::lemma_fundamental_div_mod(v, 16);
    }
}

/// The colon-joined text of the groups `k` to 7, right to left.
spec fn ipv6_text_from(b: Seq<u8>, k: int) -> Seq<u8>
    decreases 8 - k,
{
    if k >= 7 {
        hex_text(ipv6_group(b, 7))
    } else {
        hex_text(ipv6_group(b, k)) + seq![COLON] + ipv6_text_from(
            b,
            k + 1,
        )
    }
}

/// The left-built group text equals the right-built one.
proof fn lemma_ipv6_text_assoc(b: Seq<u8>, j: int)
    requires
        1 <= j <= 7,
    ensures
        ipv6_text_upto(b, 8) == ipv6_text_upto(b, j) + seq![COLON]
            + ipv6_text_from(b, j),
    decreases 8 - j,
{
    if j == 7 {
    } else {
        lemma_ipv6_text_assoc(b, j + 1);
        assert(ipv6_text_upto(b, j + 1) + seq![COLON] + ipv6_text_from(b, j + 1)
            =~= ipv6_text_upto(b, j) + seq![COLON] + ipv6_text_from(b, j));
    }
}

/// Splitting the joined group text recovers each group's text.
proof fn lemma_ipv6_text_split(b: Seq<u8>, k: int)
    requires
        0 <= k <= 7,
        b.len() == 16,
    ensures
        split_bytes(ipv6_text_from(b, k), COLON).len() == 8 - k,
        forall|l: int| 0 <= l < 8 - k ==> split_bytes(ipv6_text_from(b, k), COLON)[l]
            == hex_text(ipv6_group(b, k + l)),
    decreases 8 - k,
{
    let h = hex_text(ipv6_group(b, k));
    lemma_hex_text_group(ipv6_group(b, k));
    assert(forall|i: int| 0 <= i < h.len() ==> h[i] != COLON);
    if k == 7 {
        lemma_split_no_sep(h, COLON);
    } else {
        lemma_ipv6_text_split(b, k + 1);
        lemma_split_join(h, ipv6_text_from(b, k + 1), COLON);
    }
}

/// The host text of an IPv6 address parses back to the same bytes.
pub proof fn lemma_host_text_parses_back_v6(o: Seq<u8>)
    requires
        o.len() == 16,
    ensures
        spec_parse_ipv6(spec_host_text(AddressModel::Ipv6(o)))
            == Some(o),
{
    let s = spec_host_text(AddressModel::Ipv6(o));
    let h0 = hex_text(ipv6_group(o, 0));
    lemma_hex_text_group(ipv6_group(o, 0));
    assert(forall|i: int| 0 <= i < h0.len() ==> h0[i] != COLON);
    lemma_ipv6_text_assoc(o, 1);
    assert(s == h0 + seq![COLON] + ipv6_text_from(o, 1));
    lemma_split_join(h0, ipv6_text_from(o, 1), COLON);
    lemma_ipv6_text_split(o, 1);
    let ps = split_bytes(s, COLON);
    assert(ps.len() == 8);
    assert forall|l: int| 0 <= l < 8 implies #[trigger] ps[l] == hex_text(
        ipv6_group(o, l),
    ) by {
        if l > 0 {
            assert(split_bytes(ipv6_text_from(o, 1), COLON)[l - 1] == hex_text(
                ipv6_group(o, 1 + (l - 1)),
            ));
        }
    }
    assert forall|l: int| 0 <= l < 8 implies #[trigger] ps[l].len() > 0 && valid_hex_group(
        ps[l],
    ) && hex_value(ps[l]) == ipv6_group(o, l) by {
        lemma_hex_text_group(ipv6_group(o, l));
    }
    lemma_empty_count_zero(ps);
    assert(all_valid_groups(ps));
    lemma_ipv6_groups_bytes(o, ps, 0);
    assert(o.skip(0) =~= o);
    assert(ps.skip(0) =~~= ps);
}

/// The bytes of the recovered groups are the address bytes, two at a
/// time.
proof fn lemma_ipv6_groups_bytes(o: Seq<u8>, ps: Seq<Seq<u8>>, k: int)
    requires
        0 <= k <= 8,
        o.len() == 16,
        ps.len() == 8,
        forall|l: int| 0 <= l < 8 ==> hex_value(#[trigger] ps[l]) == ipv6_group(
            o,
            l,
        ),
    ensures
        groups_bytes(ps.skip(k)) == o.skip(2 * k),
    decreases 8 - k,
{
    if k == 8 {
        assert(ps.skip(8) =~~= Seq::<Seq<u8>>::empty());
        assert(groups_bytes(ps.skip(8)) =~= o.skip(16));
    } else {
        lemma_ipv6_groups_bytes(o, ps, k + 1);
        assert(ps.skip(k)[0] == ps[k]);
        assert(ps.skip(k).skip(1) =~~= ps.skip(k + 1));
        let hv = hex_value(ps[k]);
        assert(hv == o[2 * k] * 256 + o[2 * k + 1]);
        assert(hv / 256 == o[2 * k] && hv % 256 == o[2 * k + 1]);
        assert(group_be_bytes(ps[k]) =~= seq![o[2 * k], o[2 * k + 1]]);
        assert(groups_bytes(ps.skip(k)) =~= o.skip(2 * k));
    }
}

/// Parse `s` as an IPv6 group literal.
pub fn parse_ipv6_literal(s: &[u8]) -> (r: Option<Vec<u8>>)
    ensures
        match r {
            Some(o) => spec_parse_ipv6(s@) == Some(o@) && o@.len() == 16,
            None => spec_parse_ipv6(s@) is None,
        },
{
    let parts = split_on(s, COLON);
    let ghost ps = split_bytes(s@, COLON);
    let n = parts.len();
    let mut e: usize = 0;
    let mut j: usize = 0;
    let mut i: usize = 0;
    proof {
        assert(ps.take(0) =~~= Seq::<Seq<u8>>::empty());
    }
    while i < n
        invariant
            i <= n,
            n == parts@.len(),
            ps == parts@.map_values(|p: Vec<u8>| p@),
            e == empty_count(ps.take(i as int)),
            e <= i,
            e > 0 ==> j < i && ps[j as int].len() == 0 && (forall|l: int|
                0 <= l < j ==> #[trigger] ps[l].len() > 0),
            e == 0 ==> forall|l: int| 0 <= l < i ==> #[trigger] ps[l].len() > 0,
        decreases n - i,
    {
        proof {
            lemma_empty_count_step(ps, i as int);
        }
        if parts[i].len() == 0 {
            if e == 0 {
                j = i;
            }
            e = e + 1;
        }
        i = i + 1;
    }
    proof {
        assert(ps.take(n as int) =~~= ps);
        if e > 0 {
            lemma_first_empty_at(ps, j as int);
        }
    }
    if e == 0 {
        if n != 8 {
            return None;
        }
        let mut out: Vec<u8> = Vec::new();
        if !push_groups(&mut out, &parts, 0, 8) {
            proof {
                assert(ps.subrange(0, 8) =~~= ps);
            }
            return None;
        }
        proof {
            assert(ps.subrange(0, 8) =~~= ps);
            lemma_groups_bytes_len(ps);
            assert(out@ =~= groups_bytes(ps));
        }
        Some(out)
    } else if e == 1 {
        if j == 0 || j + 1 >= n || n > 8 {
            return None;
        }
        let mut out: Vec<u8> = Vec::new();
        if !push_groups(&mut out, &parts, 0, j) {
            proof {
                assert(ps.subrange(0, j as int) =~~= ps.take(j as int));
            }
            return None;
        }
        push_zero_bytes(&mut out, 16 - 2 * (n - 1));
        if !push_groups(&mut out, &parts, j + 1, n) {
            proof {
                assert(ps.subrange(j + 1, n as int) =~~= ps.skip(j + 1));
            }
            return None;
        }
        proof {
            assert(ps.subrange(0, j as int) =~~= ps.take(j as int));
            assert(ps.subrange(j + 1, n as int) =~~= ps.skip(j + 1));
            lemma_groups_bytes_len(ps.take(j as int));
            lemma_groups_bytes_len(ps.skip(j + 1));
            assert(out@ =~= groups_bytes(ps.take(j as int)) + zero_bytes(16 - 2 * (n - 1))
                + groups_bytes(ps.skip(j + 1)));
        }
        Some(out)
    } else if e == 2 {
        if n < 3 || n > 9 {
            return None;
        }
        if parts[0].len() == 0 && parts[1].len() == 0 {
            let mut out: Vec<u8> = Vec::new();
            push_zero_bytes(&mut out, 16 - 2 * (n - 2));
            if !push_groups(&mut out, &parts, 2, n) {
                proof {
                    assert(ps.subrange(2, n as int) =~~= ps.skip(2));
                }
                return None;
            }
            proof {
                assert(ps.subrange(2, n as int) =~~= ps.skip(2));
                lemma_groups_bytes_len(ps.skip(2));
                assert(out@ =~= zero_bytes(16 - 2 * (n - 2)) + groups_bytes(ps.skip(2)));
            }
            Some(out)
        } else if parts[n - 2].len() == 0 && parts[n - 1].len() == 0 {
            let mut out: Vec<u8> = Vec::new();
            if !push_groups(&mut out, &parts, 0, n - 2) {
                proof {
                    assert(ps.subrange(0, n - 2) =~~= ps.take(n - 2));
                }
                return None;
            }
            push_zero_bytes(&mut out, 16 - 2 * (n - 2));
            proof {
                assert(ps.subrange(0, n - 2) =~~= ps.take(n - 2));
                lemma_groups_bytes_len(ps.take(n - 2));
                assert(out@ =~= groups_bytes(ps.take(n - 2)) + zero_bytes(16 - 2 * (n - 2)));
            }
            Some(out)
        } else {
            None
        }
    } else if e == 3 && n == 3 {
        let mut out: Vec<u8> = Vec::new();
        push_zero_bytes(&mut out, 16);
        proof {
            assert(out@ =~= zero_bytes(16));
        }
        Some(out)
    } else {
        None
    }
}

} // verus!
