//! Parsing socket addresses out of configuration text.
//!
//! The configuration names backends as text: `a.b.c.d:port`, or an IPv6
//! literal in brackets, `[groups]:port`. The grammars are written out as
//! specification functions over the bytes, and each parser is proved to
//! decide exactly its grammar: four decimal octets without leading zeros
//! for IPv4; colon-separated hexadecimal groups, with one `::` standing for
//! the missing zero groups, for IPv6; and a decimal port up to 65535.

use vstd::prelude::*;
use vstd::string::StringSliceAdditionalSpecFns;

use crate::addr::{IpAddress, SocketAddress};

verus! {

/// An ASCII decimal digit.
pub open spec fn is_digit(b: u8) -> bool {
    48 <= b <= 57
}

pub open spec fn all_digits(s: Seq<u8>) -> bool {
    forall|i: int| 0 <= i < s.len() ==> is_digit(#[trigger] s[i])
}

/// The number the digits spell, most significant first.
pub open spec fn digits_val(s: Seq<u8>) -> int
    decreases s.len(),
{
    if s.len() == 0 {
        0
    } else {
        digits_val(s.drop_last()) * 10 + (s.last() - 48)
    }
}

/// One IPv4 octet as text: one to three digits, no leading zero, at most
/// 255.
pub open spec fn is_octet_text(s: Seq<u8>) -> bool {
    &&& 1 <= s.len() <= 3
    &&& all_digits(s)
    &&& (s.len() == 1 || s[0] != 48)
    &&& digits_val(s) <= 255
}

/// A port as text: one to five digits, at most 65535.
pub open spec fn is_port_text(s: Seq<u8>) -> bool {
    &&& 1 <= s.len() <= 5
    &&& all_digits(s)
    &&& digits_val(s) <= 65535
}

/// The first position of `b` in `s`, or -1.
pub open spec fn find_byte(s: Seq<u8>, b: u8) -> int
    decreases s.len(),
{
    if s.len() == 0 {
        -1
    } else if s[0] == b {
        0
    } else {
        let r = find_byte(s.subrange(1, s.len() as int), b);
        if r == -1 {
            -1
        } else {
            r + 1
        }
    }
}

proof fn lemma_find_byte_char(s: Seq<u8>, b: u8)
    ensures
        find_byte(s, b) == -1 ==> forall|j: int| 0 <= j < s.len() ==> s[j] != b,
        find_byte(s, b) != -1 ==> {
            &&& 0 <= find_byte(s, b) < s.len()
            &&& s[find_byte(s, b)] == b
            &&& forall|j: int| 0 <= j < find_byte(s, b) ==> s[j] != b
        },
    decreases s.len(),
{
    if s.len() > 0 && s[0] != b {
        let tail = s.subrange(1, s.len() as int);
        lemma_find_byte_char(tail, b);
        let r = find_byte(s, b);
        if r == -1 {
            assert forall|j: int| 0 <= j < s.len() implies s[j] != b by {
                if j > 0 {
                    assert(tail[j - 1] == s[j]);
                    assert(tail[j - 1] != b);
                }
            }
        } else {
            assert(tail[r - 1] == s[r]);
            assert forall|j: int| 0 <= j < r implies s[j] != b by {
                if j > 0 {
                    assert(tail[j - 1] == s[j]);
                    assert(tail[j - 1] != b);
                }
            }
        }
    }
}

/// Finds the first `b`, reported as the position `find_byte` names.
fn find_byte_exec(s: &[u8], b: u8) -> (r: Option<usize>)
    ensures
        match r {
            Some(i) => i < s@.len() && find_byte(s@, b) == i,
            None => find_byte(s@, b) == -1,
        },
{
    let mut i: usize = 0;
    while i < s.len() && s[i] != b
        invariant
            i <= s@.len(),
            forall|j: int| 0 <= j < i ==> s@[j] != b,
        decreases s@.len() - i,
    {
        i += 1;
    }
    proof {
        lemma_find_byte_char(s@, b);
    }
    if i < s.len() {
        Some(i)
    } else {
        None
    }
}

/// Parses one octet: the number, exactly when the text is an octet.
fn parse_octet(s: &[u8]) -> (r: Option<u8>)
    ensures
        match r {
            Some(v) => is_octet_text(s@) && v == digits_val(s@),
            None => !is_octet_text(s@),
        },
{
    let n = s.len();
    if n < 1 || n > 3 {
        return None;
    }
    if n > 1 && s[0] == 48 {
        return None;
    }
    let mut val: u32 = 0;
    let mut i: usize = 0;
    while i < n
        invariant
            i <= n,
            n == s@.len(),
            n <= 3,
            all_digits(s@.subrange(0, i as int)),
            val == digits_val(s@.subrange(0, i as int)),
            i == 0 ==> val == 0,
            i == 1 ==> val <= 9,
            i == 2 ==> val <= 99,
            i == 3 ==> val <= 999,
        decreases n - i,
    {
        let c = s[i];
        if c < 48 || c > 57 {
            return None;
        }
        proof {
            let prefix = s@.subrange(0, i + 1);
            assert(prefix.drop_last() =~= s@.subrange(0, i as int));
            assert(prefix.last() == s@[i as int]);
        }
        val = val * 10 + ((c - 48) as u32);
        i += 1;
    }
    proof {
        assert(s@.subrange(0, n as int) =~= s@);
    }
    if val > 255 {
        None
    } else {
        Some(val as u8)
    }
}

/// Parses a port: the number, exactly when the text is a port.
fn parse_port(s: &[u8]) -> (r: Option<u16>)
    ensures
        match r {
            Some(v) => is_port_text(s@) && v == digits_val(s@),
            None => !is_port_text(s@),
        },
{
    let n = s.len();
    if n < 1 || n > 5 {
        return None;
    }
    let mut val: u32 = 0;
    let mut i: usize = 0;
    while i < n
        invariant
            i <= n,
            n == s@.len(),
            n <= 5,
            all_digits(s@.subrange(0, i as int)),
            val == digits_val(s@.subrange(0, i as int)),
            i == 0 ==> val == 0,
            i == 1 ==> val <= 9,
            i == 2 ==> val <= 99,
            i == 3 ==> val <= 999,
            i == 4 ==> val <= 9999,
            i == 5 ==> val <= 99999,
        decreases n - i,
    {
        let c = s[i];
        if c < 48 || c > 57 {
            return None;
        }
        proof {
            let prefix = s@.subrange(0, i + 1);
            assert(prefix.drop_last() =~= s@.subrange(0, i as int));
            assert(prefix.last() == s@[i as int]);
        }
        val = val * 10 + ((c - 48) as u32);
        i += 1;
    }
    proof {
        assert(s@.subrange(0, n as int) =~= s@);
    }
    if val > 65535 {
        None
    } else {
        Some(val as u16)
    }
}

/// The dotted-quad grammar, `n` octets separated by dots, as the sequence
/// of their values.
pub open spec fn spec_parse_octets(s: Seq<u8>, n: nat) -> Option<Seq<int>>
    decreases n,
{
    if n == 0 {
        None
    } else if n == 1 {
        if is_octet_text(s) {
            Some(seq![digits_val(s)])
        } else {
            None
        }
    } else {
        let i = find_byte(s, 46);
        if i < 0 {
            None
        } else if !is_octet_text(s.subrange(0, i)) {
            None
        } else {
            match spec_parse_octets(s.subrange(i + 1, s.len() as int), (n - 1) as nat) {
                Some(rest) => Some(seq![digits_val(s.subrange(0, i))] + rest),
                None => None,
            }
        }
    }
}

/// The IPv4 address an address text denotes, if it is one.
pub open spec fn spec_parse_ipv4(s: Seq<u8>) -> Option<u32> {
    match spec_parse_octets(s, 4) {
        Some(o) => Some(
            (o[0] * 0x100_0000 + o[1] * 0x1_0000 + o[2] * 0x100 + o[3]) as u32,
        ),
        None => None,
    }
}

/// Parses a dotted-quad IPv4 address, deciding `spec_parse_ipv4` exactly.
pub fn parse_ipv4(s: &[u8]) -> (r: Option<u32>)
    ensures
        r == spec_parse_ipv4(s@),
{
    proof {
        reveal_with_fuel(spec_parse_octets, 5);
    }
    let i1 = match find_byte_exec(s, 46) {
        Some(i) => i,
        None => {
            return None;
        }
    };
    let o1 = match parse_octet(&s[0..i1]) {
        Some(v) => v,
        None => {
            return None;
        }
    };
    let t1 = &s[i1 + 1..s.len()];
    let i2 = match find_byte_exec(t1, 46) {
        Some(i) => i,
        None => {
            return None;
        }
    };
    let o2 = match parse_octet(&t1[0..i2]) {
        Some(v) => v,
        None => {
            return None;
        }
    };
    let t2 = &t1[i2 + 1..t1.len()];
    let i3 = match find_byte_exec(t2, 46) {
        Some(i) => i,
        None => {
            return None;
        }
    };
    let o3 = match parse_octet(&t2[0..i3]) {
        Some(v) => v,
        None => {
            return None;
        }
    };
    let t3 = &t2[i3 + 1..t2.len()];
    let o4 = match parse_octet(t3) {
        Some(v) => v,
        None => {
            return None;
        }
    };
    proof {
        let o = spec_parse_octets(s@, 4).unwrap();
        assert(o =~= seq![o1 as int, o2 as int, o3 as int, o4 as int]);
    }
    let value: u32 = (o1 as u32) * 0x100_0000 + (o2 as u32) * 0x1_0000 + (o3 as u32) * 0x100 + (
    o4 as u32);
    Some(value)
}

/// An ASCII hexadecimal digit.
pub open spec fn is_hex_digit(b: u8) -> bool {
    ||| 48 <= b <= 57
    ||| 97 <= b <= 102
    ||| 65 <= b <= 70
}

pub open spec fn hex_val(b: u8) -> int {
    if 48 <= b <= 57 {
        b - 48
    } else if 97 <= b <= 102 {
        b - 87
    } else {
        b - 55
    }
}

pub open spec fn all_hex(s: Seq<u8>) -> bool {
    forall|i: int| 0 <= i < s.len() ==> is_hex_digit(#[trigger] s[i])
}

/// The number the hexadecimal digits spell, most significant first.
pub open spec fn hex_group_val(s: Seq<u8>) -> int
    decreases s.len(),
{
    if s.len() == 0 {
        0
    } else {
        hex_group_val(s.drop_last()) * 16 + hex_val(s.last())
    }
}

/// One 16-bit group of an IPv6 address as text: one to four hex digits.
pub open spec fn is_hex_group(s: Seq<u8>) -> bool {
    &&& 1 <= s.len() <= 4
    &&& all_hex(s)
}

/// Parses one group: the number, exactly when the text is a group.
fn parse_hex_group(s: &[u8]) -> (r: Option<u16>)
    ensures
        match r {
            Some(v) => is_hex_group(s@) && v == hex_group_val(s@),
            None => !is_hex_group(s@),
        },
{
    let n = s.len();
    if n < 1 || n > 4 {
        return None;
    }
    let mut val: u32 = 0;
    let mut i: usize = 0;
    while i < n
        invariant
            i <= n,
            n == s@.len(),
            n <= 4,
            all_hex(s@.subrange(0, i as int)),
            val == hex_group_val(s@.subrange(0, i as int)),
            i == 0 ==> val == 0,
            i == 1 ==> val <= 0xf,
            i == 2 ==> val <= 0xff,
            i == 3 ==> val <= 0xfff,
            i == 4 ==> val <= 0xffff,
        decreases n - i,
    {
        let c = s[i];
        let d: u32 = if c >= 48 && c <= 57 {
            (c - 48) as u32
        } else if c >= 97 && c <= 102 {
            (c - 87) as u32
        } else if c >= 65 && c <= 70 {
            (c - 55) as u32
        } else {
            return None;
        };
        proof {
            let prefix = s@.subrange(0, i + 1);
            assert(prefix.drop_last() =~= s@.subrange(0, i as int));
            assert(prefix.last() == s@[i as int]);
        }
        val = val * 16 + d;
        i += 1;
    }
    proof {
        assert(s@.subrange(0, n as int) =~= s@);
    }
    Some(val as u16)
}

/// The colon-separated groups of one side of an IPv6 text, as their values.
pub open spec fn spec_parse_groups(s: Seq<u8>) -> Option<Seq<u16>>
    decreases s.len(),
{
    let i = find_byte(s, 58);
    if i < 0 || i >= s.len() {
        if is_hex_group(s) {
            Some(seq![hex_group_val(s) as u16])
        } else {
            None
        }
    } else if !is_hex_group(s.subrange(0, i)) {
        None
    } else {
        match spec_parse_groups(s.subrange(i + 1, s.len() as int)) {
            Some(rest) => Some(seq![hex_group_val(s.subrange(0, i)) as u16] + rest),
            None => None,
        }
    }
}

/// Parses one side's groups, deciding `spec_parse_groups` exactly.
fn parse_groups(s: &[u8]) -> (r: Option<Vec<u16>>)
    ensures
        match r {
            Some(v) => spec_parse_groups(s@) == Some(v@),
            None => spec_parse_groups(s@) is None,
        },
    decreases s@.len(),
{
    match find_byte_exec(s, 58) {
        None => {
            match parse_hex_group(s) {
                Some(g) => {
                    let mut v: Vec<u16> = Vec::new();
                    v.push(g);
                    proof {
                        assert(v@ =~= seq![g]);
                    }
                    Some(v)
                }
                None => None,
            }
        }
        Some(i) => {
            let g = match parse_hex_group(&s[0..i]) {
                Some(g) => g,
                None => {
                    return None;
                }
            };
            let rest = match parse_groups(&s[i + 1..s.len()]) {
                Some(rest) => rest,
                None => {
                    return None;
                }
            };
            let mut v = rest;
            v.insert(0, g);
            proof {
                assert(v@ =~= seq![g] + v@.subrange(1, v@.len() as int));
            }
            Some(v)
        }
    }
}

/// The first position where `::` starts, or -1.
pub open spec fn find_double_colon(s: Seq<u8>) -> int
    decreases s.len(),
{
    if s.len() < 2 {
        -1
    } else if s[0] == 58 && s[1] == 58 {
        0
    } else {
        let r = find_double_colon(s.subrange(1, s.len() as int));
        if r == -1 {
            -1
        } else {
            r + 1
        }
    }
}

proof fn lemma_find_double_colon_char(s: Seq<u8>)
    ensures
        find_double_colon(s) == -1 ==> forall|j: int|
            0 <= j && j + 1 < s.len() ==> !(#[trigger] s[j] == 58 && s[j + 1] == 58),
        find_double_colon(s) != -1 ==> {
            &&& 0 <= find_double_colon(s)
            &&& find_double_colon(s) + 1 < s.len()
            &&& s[find_double_colon(s)] == 58 && s[find_double_colon(s) + 1] == 58
            &&& forall|j: int|
                0 <= j < find_double_colon(s) ==> !(#[trigger] s[j] == 58 && s[j + 1] == 58)
        },
    decreases s.len(),
{
    if s.len() >= 2 && !(s[0] == 58 && s[1] == 58) {
        let tail = s.subrange(1, s.len() as int);
        lemma_find_double_colon_char(tail);
        let r = find_double_colon(s);
        if r == -1 {
            assert forall|j: int| 0 <= j && j + 1 < s.len() implies !(#[trigger] s[j] == 58 && s[j
                + 1] == 58) by {
                if j > 0 {
                    assert(tail[j - 1] == s[j] && tail[j] == s[j + 1]);
                }
            }
        } else {
            assert(tail[r - 1] == s[r] && tail[r] == s[r + 1]);
            assert forall|j: int| 0 <= j < r implies !(#[trigger] s[j] == 58 && s[j + 1] == 58) by {
                if j > 0 {
                    assert(tail[j - 1] == s[j] && tail[j] == s[j + 1]);
                }
            }
        }
    }
}

/// Finds the first `::`, reported as the position `find_double_colon`
/// names.
fn find_double_colon_exec(s: &[u8]) -> (r: Option<usize>)
    ensures
        match r {
            Some(i) => i + 1 < s@.len() && find_double_colon(s@) == i,
            None => find_double_colon(s@) == -1,
        },
{
    let n = s.len();
    if n < 1 {
        proof {
            lemma_find_double_colon_char(s@);
        }
        return None;
    }
    let mut i: usize = 0;
    while i + 1 < n && !(s[i] == 58 && s[i + 1] == 58)
        invariant
            n == s@.len(),
            n >= 1,
            i < n,
            forall|j: int| 0 <= j < i ==> !(#[trigger] s@[j] == 58 && s@[j + 1] == 58),
        decreases s@.len() - i,
    {
        i += 1;
    }
    proof {
        lemma_find_double_colon_char(s@);
    }
    if i + 1 < n {
        Some(i)
    } else {
        None
    }
}

/// All-zero groups, as many as the `::` stands for.
pub open spec fn zero_groups(n: nat) -> Seq<u16> {
    Seq::new(n, |i: int| 0u16)
}

/// The value of a group sequence, most significant group first.
pub open spec fn groups_value(g: Seq<u16>) -> int
    decreases g.len(),
{
    if g.len() == 0 {
        0
    } else {
        groups_value(g.drop_last()) * 0x1_0000 + g.last()
    }
}

proof fn lemma_groups_value_bound(g: Seq<u16>)
    ensures
        0 <= groups_value(g),
        groups_value(g) < vstd::arithmetic::power2::pow2((16 * g.len()) as nat),
    decreases g.len(),
{
    vstd::arithmetic::power2::lemma_pow2_pos((16 * g.len()) as nat);
    vstd::arithmetic::power2::lemma2_to64();
    if g.len() > 0 {
        let d = g.drop_last();
        lemma_groups_value_bound(d);
        vstd::arithmetic::power2::lemma_pow2_adds((16 * d.len()) as nat, 16);
    }
}

/// The IPv6 address an address text denotes, if it is one: hexadecimal
/// groups separated by colons, eight of them, or fewer with one `::`
/// standing for the missing zero groups. (The embedded-IPv4 tail form and
/// zone identifiers denote nothing here.)
pub open spec fn spec_parse_ipv6(s: Seq<u8>) -> Option<u128> {
    let d = find_double_colon(s);
    if d < 0 {
        match spec_parse_groups(s) {
            Some(g) => if g.len() == 8 {
                Some(groups_value(g) as u128)
            } else {
                None
            },
            None => None,
        }
    } else {
        let left = s.subrange(0, d);
        let right = s.subrange(d + 2, s.len() as int);
        let lg = if left.len() == 0 {
            Some(Seq::<u16>::empty())
        } else {
            spec_parse_groups(left)
        };
        let rg = if right.len() == 0 {
            Some(Seq::<u16>::empty())
        } else {
            spec_parse_groups(right)
        };
        match lg {
            Some(l) => match rg {
                Some(r) => if l.len() + r.len() <= 7 {
                    Some(
                        groups_value(
                            l + zero_groups((8 - l.len() - r.len()) as nat) + r,
                        ) as u128,
                    )
                } else {
                    None
                },
                None => None,
            },
            None => None,
        }
    }
}

proof fn lemma_pow2_112_128()
    ensures
        vstd::arithmetic::power2::pow2(112) == 0x1_0000_0000_0000_0000_0000_0000_0000,
        vstd::arithmetic::power2::pow2(128) == 0x1_0000_0000_0000_0000_0000_0000_0000_0000,
{
    vstd::arithmetic::power2::lemma2_to64();
    vstd::arithmetic::power2::lemma2_to64_rest();
    vstd::arithmetic::power2::lemma_pow2_adds(64, 48);
    vstd::arithmetic::power2::lemma_pow2_adds(64, 64);
}

fn groups_to_value(g: &Vec<u16>) -> (r: u128)
    requires
        g@.len() == 8,
    ensures
        r == groups_value(g@) as u128,
{
    let mut val: u128 = 0;
    let mut i: usize = 0;
    while i < 8
        invariant
            i <= 8,
            g@.len() == 8,
            val == groups_value(g@.subrange(0, i as int)),
            i == 0 ==> val == 0,
            i >= 1 ==> val < 0x1_0000_0000_0000_0000_0000_0000_0000 * 0x1_0000,
        decreases 8 - i,
    {
        proof {
            let prefix = g@.subrange(0, i + 1);
            assert(prefix.drop_last() =~= g@.subrange(0, i as int));
            assert(prefix.last() == g@[i as int]);
            lemma_groups_value_bound(g@.subrange(0, i as int));
            lemma_pow2_112_128();
            if i < 7 {
                vstd::arithmetic::power2::lemma_pow2_strictly_increases(
                    (16 * (i as int)) as nat,
                    112,
                );
            }
        }
        val = val * 0x1_0000 + (g[i] as u128);
        i += 1;
    }
    proof {
        assert(g@.subrange(0, 8) =~= g@);
        lemma_groups_value_bound(g@);
        lemma_pow2_112_128();
    }
    val
}

/// Parses an IPv6 text, deciding `spec_parse_ipv6` exactly.
pub fn parse_ipv6(s: &[u8]) -> (r: Option<u128>)
    ensures
        r == spec_parse_ipv6(s@),
{
    match find_double_colon_exec(s) {
        None => {
            let g = match parse_groups(s) {
                Some(g) => g,
                None => {
                    return None;
                }
            };
            if g.len() != 8 {
                return None;
            }
            Some(groups_to_value(&g))
        }
        Some(d) => {
            let n = s.len();
            let mut left: Vec<u16> = if d == 0 {
                Vec::new()
            } else {
                match parse_groups(&s[0..d]) {
                    Some(l) => l,
                    None => {
                        return None;
                    }
                }
            };
            let right: Vec<u16> = if d + 2 == n {
                Vec::new()
            } else {
                match parse_groups(&s[d + 2..n]) {
                    Some(r) => r,
                    None => {
                        return None;
                    }
                }
            };
            proof {
                assert(d == 0 ==> s@.subrange(0, d as int) =~= Seq::<u8>::empty());
                assert(d + 2 == n ==> s@.subrange(d + 2, n as int) =~= Seq::<u8>::empty());
            }
            if left.len() > 7 {
                return None;
            }
            if right.len() > 7 - left.len() {
                return None;
            }
            let ghost l0 = left@;
            let fill = 8 - left.len() - right.len();
            let mut k: usize = 0;
            while k < fill
                invariant
                    k <= fill,
                    left@ == l0 + zero_groups(k as nat),
                decreases fill - k,
            {
                left.push(0);
                proof {
                    assert(left@ =~= l0 + zero_groups((k + 1) as nat));
                }
                k += 1;
            }
            let mut j: usize = 0;
            let ghost l1 = left@;
            while j < right.len()
                invariant
                    j <= right@.len(),
                    left@ == l1 + right@.subrange(0, j as int),
                decreases right@.len() - j,
            {
                left.push(right[j]);
                proof {
                    assert(left@ =~= l1 + right@.subrange(0, j + 1));
                }
                j += 1;
            }
            proof {
                assert(right@.subrange(0, right@.len() as int) =~= right@);
                assert(left@ =~= l0 + zero_groups((8 - l0.len() - right@.len()) as nat)
                    + right@);
            }
            Some(groups_to_value(&left))
        }
    }
}

/// The socket address an address-and-port text denotes, if it is one: a
/// dotted-quad `a.b.c.d:port`, or a bracketed IPv6 literal `[groups]:port`.
pub open spec fn spec_parse_socket_addr(s: Seq<u8>) -> Option<SocketAddress> {
    if s.len() > 0 && s[0] == 91 {
        let j = find_byte(s, 93);
        if j < 0 || j + 1 >= s.len() || s[j + 1] != 58 {
            None
        } else {
            match spec_parse_ipv6(s.subrange(1, j)) {
                Some(ip) => if is_port_text(s.subrange(j + 2, s.len() as int)) {
                    Some(
                        SocketAddress {
                            ip: IpAddress::V6(ip),
                            port: digits_val(s.subrange(j + 2, s.len() as int)) as u16,
                        },
                    )
                } else {
                    None
                },
                None => None,
            }
        }
    } else {
        let i = find_byte(s, 58);
        if i < 0 {
            None
        } else {
            match spec_parse_ipv4(s.subrange(0, i)) {
                Some(ip) => if is_port_text(s.subrange(i + 1, s.len() as int)) {
                    Some(
                        SocketAddress {
                            ip: IpAddress::V4(ip),
                            port: digits_val(s.subrange(i + 1, s.len() as int)) as u16,
                        },
                    )
                } else {
                    None
                },
                None => None,
            }
        }
    }
}

/// Parses an address-and-port text, deciding `spec_parse_socket_addr`
/// exactly.
pub fn parse_socket_addr(s: &[u8]) -> (r: Option<SocketAddress>)
    ensures
        r == spec_parse_socket_addr(s@),
{
    let n = s.len();
    if n > 0 && s[0] == 91 {
        let j = match find_byte_exec(s, 93) {
            Some(j) => j,
            None => {
                return None;
            }
        };
        if j + 1 >= n || s[j + 1] != 58 {
            return None;
        }
        let ip = match parse_ipv6(&s[1..j]) {
            Some(ip) => ip,
            None => {
                return None;
            }
        };
        let port = match parse_port(&s[j + 2..n]) {
            Some(p) => p,
            None => {
                return None;
            }
        };
        Some(SocketAddress { ip: IpAddress::V6(ip), port })
    } else {
        let i = match find_byte_exec(s, 58) {
            Some(i) => i,
            None => {
                return None;
            }
        };
        let ip = match parse_ipv4(&s[0..i]) {
            Some(ip) => ip,
            None => {
                return None;
            }
        };
        proof {
            assert(i < n);
        }
        let port = match parse_port(&s[i + 1..n]) {
            Some(p) => p,
            None => {
                return None;
            }
        };
        Some(SocketAddress { ip: IpAddress::V4(ip), port })
    }
}

/// Parses an `ip:port` string.
pub fn parse_socket_addr_str(s: &str) -> (r: Option<SocketAddress>)
    ensures
        r == spec_parse_socket_addr(s.spec_bytes()),
{
    parse_socket_addr(s.as_bytes())
}

} // verus!
