//! Typed IP addresses, their byte-array decoding and their text form.
//!
//! The network-management daemon reports addresses as variable-length byte
//! arrays: exactly 4 octets are an IPv4 address, exactly 16 octets an IPv6
//! address, and every other length is a decode error.  The static
//! configuration names addresses in text: dotted decimal for IPv4, and
//! colon-separated hexadecimal groups — full, with one `::` compression,
//! or with an embedded dotted-decimal tail — for IPv6.  Rendering
//! produces the dotted-decimal form for IPv4; for IPv6 the canonical
//! compressed form: minimal lowercase hexadecimal groups, the leftmost
//! longest run of at least two zero groups as `::`, and the `::ffff:`
//! dotted-decimal form for IPv4-mapped addresses.

use vstd::prelude::*;

use crate::errors::NetdogError;

verus! {

broadcast use vstd::array::group_array_axioms;

/// An IP address as the synthesis core models it: the raw octets plus the
/// address family.
#[derive(Debug, Clone, Copy, PartialEq, Eq)]
pub enum IpAddress {
    V4([u8; 4]),
    V6([u8; 16]),
}

impl IpAddress {
    /// Whether this is an IPv4 address.
    pub open spec fn spec_is_ipv4(&self) -> bool {
        self is V4
    }

    /// Decides [`IpAddress::spec_is_ipv4`].
    #[verifier::when_used_as_spec(spec_is_ipv4)]
    pub fn is_ipv4(&self) -> (b: bool)
        ensures
            b == self.spec_is_ipv4(),
    {
        match self {
            IpAddress::V4(_) => true,
            IpAddress::V6(_) => false,
        }
    }

    /// Equality on addresses, usable from verified code.
    pub fn addr_eq(&self, other: &IpAddress) -> (b: bool)
        ensures
            b == (*self == *other),
    {
        match (self, other) {
            (IpAddress::V4(a), IpAddress::V4(b)) => {
                let eq = a[0] == b[0] && a[1] == b[1] && a[2] == b[2] && a[3] == b[3];
                proof {
                    if eq {
                        assert(a@ =~= b@);
                        assert(*a == *b);
                    } else {
                        assert(a@ != b@);
                        assert(*a != *b);
                    }
                }
                eq
            },
            (IpAddress::V6(a), IpAddress::V6(b)) => {
                let mut i: usize = 0;
                let mut eq = true;
                while i < 16
                    invariant
                        0 <= i <= 16,
                        eq == (forall|j: int| 0 <= j < i ==> a@[j] == b@[j]),
                    decreases 16 - i,
                {
                    if a[i] != b[i] {
                        eq = false;
                    }
                    i += 1;
                }
                proof {
                    if eq {
                        assert(a@ =~= b@);
                        assert(*a == *b);
                    } else {
                        assert(a@ != b@);
                        assert(*a != *b);
                    }
                }
                eq
            },
            _ => {
                proof {
                    assert(*self != *other);
                }
                false
            },
        }
    }
}

/// Decodes a daemon byte array into a typed address: exactly 4 octets are
/// IPv4, exactly 16 octets are IPv6, any other length fails with
/// `BadAddressEncoding` carrying the offending bytes.
pub fn ipaddr_from_vec(address_vec: Vec<u8>) -> (r: Result<IpAddress, NetdogError>)
    ensures
        address_vec@.len() == 4 ==> (r matches Ok(a) && a matches IpAddress::V4(o) && o@
            == address_vec@),
        address_vec@.len() == 16 ==> (r matches Ok(a) && a matches IpAddress::V6(o) && o@
            == address_vec@),
        address_vec@.len() != 4 && address_vec@.len() != 16 ==> (r matches Err(e)
            && e matches NetdogError::BadAddressEncoding { bytes, .. } && bytes@ == address_vec@),
{
    if address_vec.len() == 4 {
        let o = [address_vec[0], address_vec[1], address_vec[2], address_vec[3]];
        proof {
            assert(o@ =~= address_vec@);
        }
        Ok(IpAddress::V4(o))
    } else if address_vec.len() == 16 {
        let o = [
            address_vec[0],
            address_vec[1],
            address_vec[2],
            address_vec[3],
            address_vec[4],
            address_vec[5],
            address_vec[6],
            address_vec[7],
            address_vec[8],
            address_vec[9],
            address_vec[10],
            address_vec[11],
            address_vec[12],
            address_vec[13],
            address_vec[14],
            address_vec[15],
        ];
        proof {
            assert(o@ =~= address_vec@);
        }
        Ok(IpAddress::V6(o))
    } else {
        Err(NetdogError::BadAddressEncoding {
            bytes: address_vec,
            reason: String::from_str("invalid length, must be 4 or 16 octets"),
        })
    }
}

/// The character for one decimal digit.
pub open spec fn spec_dec_digit_char(d: int) -> char {
    if d == 0 {
        '0'
    } else if d == 1 {
        '1'
    } else if d == 2 {
        '2'
    } else if d == 3 {
        '3'
    } else if d == 4 {
        '4'
    } else if d == 5 {
        '5'
    } else if d == 6 {
        '6'
    } else if d == 7 {
        '7'
    } else if d == 8 {
        '8'
    } else {
        '9'
    }
}

/// The character for one hexadecimal digit, lowercase.
pub open spec fn spec_hex_digit_char(d: int) -> char {
    if d < 10 {
        spec_dec_digit_char(d)
    } else if d == 10 {
        'a'
    } else if d == 11 {
        'b'
    } else if d == 12 {
        'c'
    } else if d == 13 {
        'd'
    } else if d == 14 {
        'e'
    } else {
        'f'
    }
}

/// Decimal text of an octet, without leading zeros.
pub open spec fn spec_u8_dec(n: int) -> Seq<char> {
    if n < 10 {
        seq![spec_dec_digit_char(n)]
    } else if n < 100 {
        seq![spec_dec_digit_char(n / 10), spec_dec_digit_char(n % 10)]
    } else {
        seq![
            spec_dec_digit_char(n / 100),
            spec_dec_digit_char((n / 10) % 10),
            spec_dec_digit_char(n % 10),
        ]
    }
}

/// Hexadecimal text of a 16-bit group, lowercase, without leading zeros.
pub open spec fn spec_hex_u16(n: int) -> Seq<char> {
    if n < 16 {
        seq![spec_hex_digit_char(n)]
    } else if n < 256 {
        seq![spec_hex_digit_char(n / 16), spec_hex_digit_char(n % 16)]
    } else if n < 4096 {
        seq![
            spec_hex_digit_char(n / 256),
            spec_hex_digit_char((n / 16) % 16),
            spec_hex_digit_char(n % 16),
        ]
    } else {
        seq![
            spec_hex_digit_char(n / 4096),
            spec_hex_digit_char((n / 256) % 16),
            spec_hex_digit_char((n / 16) % 16),
            spec_hex_digit_char(n % 16),
        ]
    }
}

/// The dotted-decimal text of four octets.
pub open spec fn spec_ipv4_text(o: Seq<u8>) -> Seq<char> {
    spec_u8_dec(o[0] as int) + seq!['.'] + spec_u8_dec(o[1] as int) + seq!['.'] + spec_u8_dec(
        o[2] as int,
    ) + seq!['.'] + spec_u8_dec(o[3] as int)
}

/// The `i`-th 16-bit group of sixteen octets.
pub open spec fn spec_group(o: Seq<u8>, i: int) -> int {
    o[2 * i] as int * 256 + o[2 * i + 1] as int
}

/// The text of groups `from` to `to` (exclusive), single colons between
/// them.
pub open spec fn groups_join(o: Seq<u8>, from: int, to: int) -> Seq<char>
    decreases to - from,
{
    if from >= to {
        Seq::empty()
    } else if from + 1 >= to {
        spec_hex_u16(spec_group(o, from))
    } else {
        spec_hex_u16(spec_group(o, from)) + seq![':'] + groups_join(o, from + 1, to)
    }
}

/// The length of the run of zero groups starting at `i`.
pub open spec fn zero_run(o: Seq<u8>, i: int) -> int
    decreases 8 - i,
{
    if i >= 8 || spec_group(o, i) != 0 {
        0
    } else {
        1 + zero_run(o, i + 1)
    }
}

/// The leftmost longest run of zero groups from `i` on: its start and
/// its length, favouring the earlier start on ties.
pub open spec fn best_run(o: Seq<u8>, i: int) -> (int, int)
    decreases 8 - i,
{
    if i >= 8 {
        (8, 0)
    } else {
        let cur = zero_run(o, i);
        let rest = best_run(o, i + 1);
        if cur >= rest.1 {
            (i, cur)
        } else {
            rest
        }
    }
}

/// An IPv4-mapped address: five zero groups, then `ffff`, then the
/// embedded IPv4 address.
pub open spec fn is_v4_mapped(o: Seq<u8>) -> bool {
    spec_group(o, 0) == 0 && spec_group(o, 1) == 0 && spec_group(o, 2) == 0 && spec_group(o, 3)
        == 0 && spec_group(o, 4) == 0 && spec_group(o, 5) == 0xffff
}

/// The canonical text of sixteen octets: the `::ffff:` dotted-decimal
/// form for an IPv4-mapped address; otherwise the eight groups with the
/// leftmost longest run of at least two zero groups compressed to `::`,
/// or all eight groups when there is no such run.
pub open spec fn spec_ipv6_text(o: Seq<u8>) -> Seq<char> {
    if is_v4_mapped(o) {
        "::ffff:"@ + spec_ipv4_text(o.subrange(12, 16))
    } else {
        let br = best_run(o, 0);
        if br.1 < 2 {
            groups_join(o, 0, 8)
        } else {
            groups_join(o, 0, br.0) + seq![':'] + seq![':'] + groups_join(o, br.0 + br.1, 8)
        }
    }
}

impl IpAddress {
    /// The canonical text of this address.
    pub open spec fn spec_text(self) -> Seq<char> {
        match self {
            IpAddress::V4(o) => spec_ipv4_text(o@),
            IpAddress::V6(o) => spec_ipv6_text(o@),
        }
    }

    /// Renders this address as text: dotted decimal for IPv4, the full
    /// eight-group lowercase hexadecimal form for IPv6.
    pub fn to_text(&self) -> (r: String)
        ensures
            r@ == self.spec_text(),
    {
        match self {
            IpAddress::V4(o) => {
                let mut s = u8_dec_str(o[0]);
                s.append(dot_str());
                s.append(u8_dec_str(o[1]).as_str());
                s.append(dot_str());
                s.append(u8_dec_str(o[2]).as_str());
                s.append(dot_str());
                s.append(u8_dec_str(o[3]).as_str());
                proof {
                    assert(s@ =~= self.spec_text());
                }
                s
            },
            IpAddress::V6(o) => {
                if group_at(o, 0) == 0 && group_at(o, 1) == 0 && group_at(o, 2) == 0 && group_at(
                    o,
                    3,
                ) == 0 && group_at(o, 4) == 0 && group_at(o, 5) == 0xffff {
                    let mut s = mapped_prefix().to_owned();
                    s.append(u8_dec_str(o[12]).as_str());
                    s.append(dot_str());
                    s.append(u8_dec_str(o[13]).as_str());
                    s.append(dot_str());
                    s.append(u8_dec_str(o[14]).as_str());
                    s.append(dot_str());
                    s.append(u8_dec_str(o[15]).as_str());
                    proof {
                        let sub = o@.subrange(12, 16);
                        assert(sub[0] == o@[12] && sub[1] == o@[13] && sub[2] == o@[14] && sub[3]
                            == o@[15]);
                        assert(s@ =~= self.spec_text());
                    }
                    s
                } else {
                    let (bs, bl) = best_run_exec(o, 0);
                    if bl < 2 {
                        let s = groups_join_exec(o, 0, 8);
                        proof {
                            assert(s@ == self.spec_text());
                        }
                        s
                    } else {
                        let mut s = groups_join_exec(o, 0, bs);
                        s.append(colon_str());
                        s.append(colon_str());
                        s.append(groups_join_exec(o, bs + bl, 8).as_str());
                        proof {
                            assert(s@ =~= self.spec_text());
                        }
                        s
                    }
                }
            },
        }
    }
}

/// The string `"::ffff:"`.
fn mapped_prefix() -> (r: &'static str)
    ensures
        r@ == "::ffff:"@,
{
    "::ffff:"
}

/// Computes [`zero_run`].
fn zero_run_exec(o: &[u8; 16], i: usize) -> (r: usize)
    requires
        i <= 8,
    ensures
        r == zero_run(o@, i as int),
        r <= 8 - i,
    decreases 8 - i,
{
    if i >= 8 {
        return 0;
    }
    if group_at(o, i) != 0 {
        return 0;
    }
    1 + zero_run_exec(o, i + 1)
}

/// Computes [`best_run`].
fn best_run_exec(o: &[u8; 16], i: usize) -> (r: (usize, usize))
    requires
        i <= 8,
    ensures
        (r.0 as int, r.1 as int) == best_run(o@, i as int),
        i <= r.0 <= 8,
        r.1 <= 8 - r.0,
    decreases 8 - i,
{
    if i >= 8 {
        return (8, 0);
    }
    let cur = zero_run_exec(o, i);
    let rest = best_run_exec(o, i + 1);
    if cur >= rest.1 {
        (i, cur)
    } else {
        rest
    }
}

/// Renders groups `from` to `to` (exclusive), single colons between
/// them.
fn groups_join_exec(o: &[u8; 16], from: usize, to: usize) -> (r: String)
    requires
        from <= 8,
        to <= 8,
    ensures
        r@ == groups_join(o@, from as int, to as int),
    decreases 8 - from,
{
    if from >= to {
        let r = String::new();
        proof {
            assert(r@ =~= groups_join(o@, from as int, to as int));
        }
        r
    } else if from + 1 >= to {
        hex_u16_str(group_at(o, from))
    } else {
        let mut r = hex_u16_str(group_at(o, from));
        r.append(colon_str());
        r.append(groups_join_exec(o, from + 1, to).as_str());
        proof {
            assert(r@ =~= groups_join(o@, from as int, to as int));
        }
        r
    }
}

/// The `i`-th 16-bit group of a sixteen-octet array.
fn group_at(o: &[u8; 16], i: usize) -> (g: u16)
    requires
        i < 8,
    ensures
        g as int == spec_group(o@, i as int),
{
    (o[2 * i] as u16) * 256 + (o[2 * i + 1] as u16)
}

/// The one-character string of a decimal digit.
fn digit_str(d: u8) -> (r: &'static str)
    requires
        d < 10,
    ensures
        r@ =~= seq![spec_dec_digit_char(d as int)],
{
    proof {
        reveal_strlit("0");
        reveal_strlit("1");
        reveal_strlit("2");
        reveal_strlit("3");
        reveal_strlit("4");
        reveal_strlit("5");
        reveal_strlit("6");
        reveal_strlit("7");
        reveal_strlit("8");
        reveal_strlit("9");
    }
    match d {
        0 => "0",
        1 => "1",
        2 => "2",
        3 => "3",
        4 => "4",
        5 => "5",
        6 => "6",
        7 => "7",
        8 => "8",
        _ => "9",
    }
}

/// The one-character string of a hexadecimal digit, lowercase.
fn hex_digit_str(d: u8) -> (r: &'static str)
    requires
        d < 16,
    ensures
        r@ =~= seq![spec_hex_digit_char(d as int)],
{
    proof {
        reveal_strlit("a");
        reveal_strlit("b");
        reveal_strlit("c");
        reveal_strlit("d");
        reveal_strlit("e");
        reveal_strlit("f");
    }
    if d < 10 {
        digit_str(d)
    } else {
        match d {
            10 => "a",
            11 => "b",
            12 => "c",
            13 => "d",
            14 => "e",
            _ => "f",
        }
    }
}

/// The string `"."`.
fn dot_str() -> (r: &'static str)
    ensures
        r@ =~= seq!['.'],
{
    proof {
        reveal_strlit(".");
    }
    "."
}

/// The string `":"`.
fn colon_str() -> (r: &'static str)
    ensures
        r@ =~= seq![':'],
{
    proof {
        reveal_strlit(":");
    }
    ":"
}

/// Decimal text of an octet.
fn u8_dec_str(n: u8) -> (r: String)
    ensures
        r@ == spec_u8_dec(n as int),
{
    if n < 10 {
        let r = digit_str(n).to_owned();
        proof {
            assert(r@ =~= spec_u8_dec(n as int));
        }
        r
    } else if n < 100 {
        let mut r = digit_str(n / 10).to_owned();
        r.append(digit_str(n % 10));
        proof {
            assert(r@ =~= spec_u8_dec(n as int));
        }
        r
    } else {
        let mut r = digit_str(n / 100).to_owned();
        r.append(digit_str((n / 10) % 10));
        r.append(digit_str(n % 10));
        proof {
            assert(r@ =~= spec_u8_dec(n as int));
        }
        r
    }
}

/// Hexadecimal text of a 16-bit group, lowercase, minimal digits.
fn hex_u16_str(n: u16) -> (r: String)
    ensures
        r@ == spec_hex_u16(n as int),
{
    if n < 16 {
        let r = hex_digit_str(n as u8).to_owned();
        proof {
            assert(r@ =~= spec_hex_u16(n as int));
        }
        r
    } else if n < 256 {
        let mut r = hex_digit_str((n / 16) as u8).to_owned();
        r.append(hex_digit_str((n % 16) as u8));
        proof {
            assert(r@ =~= spec_hex_u16(n as int));
        }
        r
    } else if n < 4096 {
        let mut r = hex_digit_str((n / 256) as u8).to_owned();
        r.append(hex_digit_str(((n / 16) % 16) as u8));
        r.append(hex_digit_str((n % 16) as u8));
        proof {
            assert(r@ =~= spec_hex_u16(n as int));
        }
        r
    } else {
        let mut r = hex_digit_str((n / 4096) as u8).to_owned();
        r.append(hex_digit_str(((n / 256) % 16) as u8));
        r.append(hex_digit_str(((n / 16) % 16) as u8));
        r.append(hex_digit_str((n % 16) as u8));
        proof {
            assert(r@ =~= spec_hex_u16(n as int));
        }
        r
    }
}

/// A decimal digit.
pub open spec fn is_dec_digit(c: char) -> bool {
    '0' as u32 <= c as u32 && c as u32 <= '9' as u32
}

/// The value of a decimal digit.
pub open spec fn dec_digit_val(c: char) -> int {
    c as u32 - '0' as u32
}

/// A hexadecimal digit, either case.
pub open spec fn is_hex_digit(c: char) -> bool {
    is_dec_digit(c) || ('a' as u32 <= c as u32 && c as u32 <= 'f' as u32) || ('A' as u32 <= c
        as u32 && c as u32 <= 'F' as u32)
}

/// The value of a hexadecimal digit.
pub open spec fn hex_digit_val(c: char) -> int {
    if is_dec_digit(c) {
        dec_digit_val(c)
    } else if 'a' as u32 <= c as u32 && c as u32 <= 'f' as u32 {
        10 + c as u32 - 'a' as u32
    } else {
        10 + c as u32 - 'A' as u32
    }
}

/// The numeric value of a decimal digit string.
pub open spec fn dec_value(s: Seq<char>) -> int
    decreases s.len(),
{
    if s.len() == 0 {
        0
    } else {
        dec_value(s.drop_last()) * 10 + dec_digit_val(s.last())
    }
}

/// The numeric value of a hexadecimal digit string.
pub open spec fn hex_value(s: Seq<char>) -> int
    decreases s.len(),
{
    if s.len() == 0 {
        0
    } else {
        hex_value(s.drop_last()) * 16 + hex_digit_val(s.last())
    }
}

/// The length of the longest prefix of decimal digits.
pub open spec fn dec_prefix_len(s: Seq<char>) -> int
    decreases s.len(),
{
    if s.len() == 0 || !is_dec_digit(s[0]) {
        0
    } else {
        1 + dec_prefix_len(s.drop_first())
    }
}

/// The length of the longest prefix of hexadecimal digits.
pub open spec fn hex_prefix_len(s: Seq<char>) -> int
    decreases s.len(),
{
    if s.len() == 0 || !is_hex_digit(s[0]) {
        0
    } else {
        1 + hex_prefix_len(s.drop_first())
    }
}

/// The digit prefix is within the string and consists of digits.
pub proof fn lemma_dec_prefix(s: Seq<char>)
    ensures
        0 <= dec_prefix_len(s) <= s.len(),
        forall|i: int| 0 <= i < dec_prefix_len(s) ==> is_dec_digit(s[i]),
    decreases s.len(),
{
    if s.len() == 0 || !is_dec_digit(s[0]) {
    } else {
        lemma_dec_prefix(s.drop_first());
        assert forall|i: int| 0 <= i < dec_prefix_len(s) implies is_dec_digit(s[i]) by {
            if i > 0 {
                assert(s.drop_first()[i - 1] == s[i]);
            }
        }
    }
}

/// The hexadecimal prefix is within the string and consists of digits.
pub proof fn lemma_hex_prefix(s: Seq<char>)
    ensures
        0 <= hex_prefix_len(s) <= s.len(),
        forall|i: int| 0 <= i < hex_prefix_len(s) ==> is_hex_digit(s[i]),
    decreases s.len(),
{
    if s.len() == 0 || !is_hex_digit(s[0]) {
    } else {
        lemma_hex_prefix(s.drop_first());
        assert forall|i: int| 0 <= i < hex_prefix_len(s) implies is_hex_digit(s[i]) by {
            if i > 0 {
                assert(s.drop_first()[i - 1] == s[i]);
            }
        }
    }
}

/// Parsing of `count` dotted-decimal octets that consume all of `s`:
/// each octet is one to three digits, no leading zero, at most 255.
pub open spec fn spec_parse_ipv4_parts(s: Seq<char>, count: int) -> Option<Seq<u8>>
    decreases count,
{
    if count <= 0 {
        None
    } else {
        let d = dec_prefix_len(s);
        if d < 1 || d > 3 {
            None
        } else if d > 1 && s[0] == '0' {
            None
        } else if dec_value(s.take(d)) > 255 {
            None
        } else if count == 1 {
            if s.len() == d {
                Some(seq![dec_value(s.take(d)) as u8])
            } else {
                None
            }
        } else if d < s.len() && s[d] == '.' {
            match spec_parse_ipv4_parts(s.skip(d + 1), count - 1) {
                Some(rest) => Some(seq![dec_value(s.take(d)) as u8] + rest),
                None => None,
            }
        } else {
            None
        }
    }
}

/// Parsing of hexadecimal groups separated by single colons that consume
/// all of `s`; the empty string holds zero groups.  Where `tail` holds —
/// at the end of an address — a group followed by a `.` closes the
/// address as an embedded dotted-decimal quad, worth two groups.
pub open spec fn spec_parse_groups(s: Seq<char>, tail: bool) -> Option<Seq<u16>>
    decreases s.len(),
{
    if s.len() == 0 {
        Some(Seq::empty())
    } else {
        let d = hex_prefix_len(s);
        if d < 1 {
            None
        } else if tail && d < s.len() && s[d] == '.' {
            match spec_parse_ipv4_parts(s, 4) {
                Some(o) => Some(
                    seq![
                        (o[0] as int * 256 + o[1] as int) as u16,
                        (o[2] as int * 256 + o[3] as int) as u16,
                    ],
                ),
                None => None,
            }
        } else if d > 4 {
            None
        } else if s.len() == d {
            Some(seq![hex_value(s.take(d)) as u16])
        } else if s[d] == ':' && s.len() > d + 1 {
            match spec_parse_groups(s.skip(d + 1), tail) {
                Some(rest) => Some(seq![hex_value(s.take(d)) as u16] + rest),
                None => None,
            }
        } else {
            None
        }
    }
}

/// The position of the first `::`, or -1 if there is none.
pub open spec fn double_colon_pos(s: Seq<char>) -> int
    decreases s.len(),
{
    if s.len() < 2 {
        -1
    } else if s[0] == ':' && s[1] == ':' {
        0
    } else {
        let r = double_colon_pos(s.drop_first());
        if r < 0 {
            -1
        } else {
            1 + r
        }
    }
}

/// `count` zero-valued groups.
pub open spec fn zero_groups(count: int) -> Seq<u16> {
    Seq::new(count as nat, |i: int| 0u16)
}

/// The octets of a group sequence, two per group, most significant first.
pub open spec fn spec_groups_bytes(g: Seq<u16>) -> Seq<u8>
    decreases g.len(),
{
    if g.len() == 0 {
        Seq::empty()
    } else {
        seq![(g[0] as int / 256) as u8, (g[0] as int % 256) as u8] + spec_groups_bytes(
            g.drop_first(),
        )
    }
}

/// Shape of the octets of a group sequence.
pub proof fn lemma_groups_bytes(g: Seq<u16>)
    ensures
        spec_groups_bytes(g).len() == 2 * g.len(),
        forall|i: int|
            0 <= i < g.len() ==> spec_groups_bytes(g)[2 * i] == (g[i] as int / 256) as u8
                && spec_groups_bytes(g)[2 * i + 1] == (g[i] as int % 256) as u8,
    decreases g.len(),
{
    if g.len() == 0 {
    } else {
        lemma_groups_bytes(g.drop_first());
        assert forall|i: int|
            0 <= i < g.len() implies spec_groups_bytes(g)[2 * i] == (g[i] as int / 256) as u8
            && spec_groups_bytes(g)[2 * i + 1] == (g[i] as int % 256) as u8 by {
            if i > 0 {
                assert(g.drop_first()[i - 1] == g[i]);
                assert(spec_groups_bytes(g)[2 * i] == spec_groups_bytes(g.drop_first())[2 * (i - 1)]);
                assert(spec_groups_bytes(g)[2 * i + 1] == spec_groups_bytes(g.drop_first())[2 * (i
                    - 1) + 1]);
            }
        }
    }
}

/// Parsing of an IPv6 text form: either eight colon-separated groups, or
/// one `::` standing for the missing all-zero groups; in both forms the
/// address may close with an embedded dotted-decimal quad, worth the last
/// two groups, as in the IPv4-mapped `::ffff:` form.
pub open spec fn spec_parse_ipv6(s: Seq<char>) -> Option<Seq<u8>> {
    let di = double_colon_pos(s);
    if di < 0 {
        match spec_parse_groups(s, true) {
            Some(g) => if g.len() == 8 {
                Some(spec_groups_bytes(g))
            } else {
                None
            },
            None => None,
        }
    } else {
        match (spec_parse_groups(s.take(di), false), spec_parse_groups(s.skip(di + 2), true)) {
            (Some(p), Some(q)) => if p.len() + q.len() <= 7 {
                Some(spec_groups_bytes(p + zero_groups(8 - p.len() - q.len()) + q))
            } else {
                None
            },
            _ => None,
        }
    }
}

/// Decides [`is_dec_digit`].
#[verifier::when_used_as_spec(is_dec_digit)]
pub(crate) fn dec_digit_exec(c: char) -> (b: bool)
    ensures
        b == is_dec_digit(c),
{
    '0' as u32 <= c as u32 && c as u32 <= '9' as u32
}

/// Decides [`is_hex_digit`].
#[verifier::when_used_as_spec(is_hex_digit)]
fn hex_digit_exec(c: char) -> (b: bool)
    ensures
        b == is_hex_digit(c),
{
    dec_digit_exec(c) || ('a' as u32 <= c as u32 && c as u32 <= 'f' as u32) || ('A' as u32 <= c
        as u32 && c as u32 <= 'F' as u32)
}

/// Computes [`dec_prefix_len`].
pub(crate) fn dec_prefix_len_exec(s: &str) -> (d: usize)
    ensures
        d == dec_prefix_len(s@),
        d <= s@.len(),
    decreases s@.len(),
{
    let n = s.unicode_len();
    if n == 0 {
        return 0;
    }
    if !dec_digit_exec(s.get_char(0)) {
        return 0;
    }
    let rest = s.substring_char(1, n);
    proof {
        assert(rest@ =~= s@.drop_first());
    }
    1 + dec_prefix_len_exec(rest)
}

/// Computes [`hex_prefix_len`].
fn hex_prefix_len_exec(s: &str) -> (d: usize)
    ensures
        d == hex_prefix_len(s@),
        d <= s@.len(),
    decreases s@.len(),
{
    let n = s.unicode_len();
    if n == 0 {
        return 0;
    }
    if !hex_digit_exec(s.get_char(0)) {
        return 0;
    }
    let rest = s.substring_char(1, n);
    proof {
        assert(rest@ =~= s@.drop_first());
    }
    1 + hex_prefix_len_exec(rest)
}

/// Computes [`dec_value`] of a short digit string.
fn dec_value_exec(s: &str) -> (v: u32)
    requires
        s@.len() <= 3,
        forall|i: int| 0 <= i < s@.len() ==> is_dec_digit(s@[i]),
    ensures
        v == dec_value(s@),
        s@.len() <= 3 ==> v < 1000,
        s@.len() <= 2 ==> v < 100,
        s@.len() <= 1 ==> v < 10,
    decreases s@.len(),
{
    let n = s.unicode_len();
    if n == 0 {
        return 0;
    }
    let prefix = s.substring_char(0, n - 1);
    proof {
        assert(prefix@ =~= s@.drop_last());
    }
    let v = dec_value_exec(prefix);
    let c = s.get_char(n - 1);
    proof {
        assert(c == s@.last());
    }
    v * 10 + (c as u32 - '0' as u32)
}

/// Computes [`hex_value`] of a short digit string.
fn hex_value_exec(s: &str) -> (v: u32)
    requires
        s@.len() <= 4,
        forall|i: int| 0 <= i < s@.len() ==> is_hex_digit(s@[i]),
    ensures
        v == hex_value(s@),
        s@.len() <= 4 ==> v < 65536,
        s@.len() <= 3 ==> v < 4096,
        s@.len() <= 2 ==> v < 256,
        s@.len() <= 1 ==> v < 16,
    decreases s@.len(),
{
    let n = s.unicode_len();
    if n == 0 {
        return 0;
    }
    let prefix = s.substring_char(0, n - 1);
    proof {
        assert(prefix@ =~= s@.drop_last());
    }
    let v = hex_value_exec(prefix);
    let c = s.get_char(n - 1);
    proof {
        assert(c == s@.last());
    }
    let dv: u32 = if '0' as u32 <= c as u32 && c as u32 <= '9' as u32 {
        c as u32 - '0' as u32
    } else if 'a' as u32 <= c as u32 && c as u32 <= 'f' as u32 {
        10 + (c as u32 - 'a' as u32)
    } else {
        10 + (c as u32 - 'A' as u32)
    };
    proof {
        assert(dv == hex_digit_val(c));
    }
    v * 16 + dv
}

/// Computes [`double_colon_pos`], as `None` for "absent".
fn double_colon_pos_exec(s: &str) -> (r: Option<usize>)
    ensures
        r matches Some(i) ==> i == double_colon_pos(s@) && i + 2 <= s@.len(),
        r is None ==> double_colon_pos(s@) < 0,
    decreases s@.len(),
{
    let n = s.unicode_len();
    if n < 2 {
        return None;
    }
    if s.get_char(0) == ':' && s.get_char(1) == ':' {
        return Some(0);
    }
    let rest = s.substring_char(1, n);
    proof {
        assert(rest@ =~= s@.drop_first());
    }
    match double_colon_pos_exec(rest) {
        Some(i) => Some(1 + i),
        None => None,
    }
}

/// Computes [`spec_parse_ipv4_parts`].
fn parse_ipv4_parts(s: &str, count: u8) -> (r: Option<Vec<u8>>)
    requires
        1 <= count <= 4,
    ensures
        match r {
            Some(v) => spec_parse_ipv4_parts(s@, count as int) == Some(v@) && v@.len() == count,
            None => spec_parse_ipv4_parts(s@, count as int) is None,
        },
    decreases count,
{
    let n = s.unicode_len();
    let d = dec_prefix_len_exec(s);
    proof {
        lemma_dec_prefix(s@);
    }
    if d < 1 || d > 3 {
        return None;
    }
    if d > 1 && s.get_char(0) == '0' {
        return None;
    }
    let t = s.substring_char(0, d);
    proof {
        assert(t@ =~= s@.take(d as int));
    }
    let v = dec_value_exec(t);
    if v > 255 {
        return None;
    }
    if count == 1 {
        if n == d {
            let mut out: Vec<u8> = Vec::new();
            out.push(v as u8);
            proof {
                assert(out@ =~= seq![dec_value(s@.take(d as int)) as u8]);
            }
            return Some(out);
        } else {
            return None;
        }
    }
    if d < n && s.get_char(d) == '.' {
        let rest = s.substring_char(d + 1, n);
        proof {
            assert(rest@ =~= s@.skip(d + 1 as int));
        }
        match parse_ipv4_parts(rest, count - 1) {
            Some(mut restv) => {
                let mut out: Vec<u8> = Vec::new();
                out.push(v as u8);
                out.append(&mut restv);
                Some(out)
            },
            None => None,
        }
    } else {
        None
    }
}

/// Computes [`spec_parse_groups`].
fn parse_groups(s: &str, tail: bool) -> (r: Option<Vec<u16>>)
    ensures
        match r {
            Some(v) => spec_parse_groups(s@, tail) == Some(v@),
            None => spec_parse_groups(s@, tail) is None,
        },
    decreases s@.len(),
{
    let n = s.unicode_len();
    if n == 0 {
        let out: Vec<u16> = Vec::new();
        proof {
            assert(out@ =~= Seq::<u16>::empty());
        }
        return Some(out);
    }
    let d = hex_prefix_len_exec(s);
    proof {
        lemma_hex_prefix(s@);
    }
    if d < 1 {
        return None;
    }
    if tail && d < n && s.get_char(d) == '.' {
        match parse_ipv4_parts(s, 4) {
            Some(o) => {
                let mut out: Vec<u16> = Vec::new();
                out.push((o[0] as u16) * 256 + (o[1] as u16));
                out.push((o[2] as u16) * 256 + (o[3] as u16));
                proof {
                    assert(out@ =~= seq![
                        (o@[0] as int * 256 + o@[1] as int) as u16,
                        (o@[2] as int * 256 + o@[3] as int) as u16,
                    ]);
                }
                return Some(out);
            },
            None => {
                return None;
            },
        }
    }
    if d > 4 {
        return None;
    }
    let t = s.substring_char(0, d);
    proof {
        assert(t@ =~= s@.take(d as int));
    }
    let v = hex_value_exec(t);
    if n == d {
        let mut out: Vec<u16> = Vec::new();
        out.push(v as u16);
        proof {
            assert(out@ =~= seq![hex_value(s@.take(d as int)) as u16]);
        }
        return Some(out);
    }
    if s.get_char(d) == ':' && n > d + 1 {
        let rest = s.substring_char(d + 1, n);
        proof {
            assert(rest@ =~= s@.skip(d + 1 as int));
        }
        match parse_groups(rest, tail) {
            Some(mut restv) => {
                let mut out: Vec<u16> = Vec::new();
                out.push(v as u16);
                out.append(&mut restv);
                Some(out)
            },
            None => None,
        }
    } else {
        None
    }
}

/// Assembles the sixteen octets of a full eight-group sequence.
fn groups_to_octets(g: &Vec<u16>) -> (o: [u8; 16])
    requires
        g@.len() == 8,
    ensures
        o@ == spec_groups_bytes(g@),
{
    let o = [
        (g[0] / 256) as u8,
        (g[0] % 256) as u8,
        (g[1] / 256) as u8,
        (g[1] % 256) as u8,
        (g[2] / 256) as u8,
        (g[2] % 256) as u8,
        (g[3] / 256) as u8,
        (g[3] % 256) as u8,
        (g[4] / 256) as u8,
        (g[4] % 256) as u8,
        (g[5] / 256) as u8,
        (g[5] % 256) as u8,
        (g[6] / 256) as u8,
        (g[6] % 256) as u8,
        (g[7] / 256) as u8,
        (g[7] % 256) as u8,
    ];
    proof {
        lemma_groups_bytes(g@);
        assert(o@ =~= spec_groups_bytes(g@));
    }
    o
}

/// Computes [`spec_parse_ipv6`].
fn parse_ipv6_text(s: &str) -> (r: Option<[u8; 16]>)
    ensures
        match r {
            Some(o) => spec_parse_ipv6(s@) == Some(o@),
            None => spec_parse_ipv6(s@) is None,
        },
{
    let n = s.unicode_len();
    match double_colon_pos_exec(s) {
        None => {
            match parse_groups(s, true) {
                Some(g) => {
                    if g.len() == 8 {
                        Some(groups_to_octets(&g))
                    } else {
                        None
                    }
                },
                None => None,
            }
        },
        Some(di) => {
            let left = s.substring_char(0, di);
            let right = s.substring_char(di + 2, n);
            proof {
                assert(left@ =~= s@.take(di as int));
                assert(right@ =~= s@.skip(di + 2 as int));
            }
            match (parse_groups(left, false), parse_groups(right, true)) {
                (Some(mut p), Some(mut q)) => {
                    if p.len() <= 7 && q.len() <= 7 - p.len() {
                        let missing = 8 - p.len() - q.len();
                        let ghost p0 = p@;
                        let mut k: usize = 0;
                        while k < missing
                            invariant
                                0 <= k <= missing,
                                p@ =~= p0 + zero_groups(k as int),
                            decreases missing - k,
                        {
                            p.push(0);
                            proof {
                                assert(p@ =~= p0 + zero_groups(k + 1 as int));
                            }
                            k += 1;
                        }
                        p.append(&mut q);
                        proof {
                            assert(p@.len() == 8);
                        }
                        Some(groups_to_octets(&p))
                    } else {
                        None
                    }
                },
                _ => None,
            }
        },
    }
}

/// The decimal text of an octet is one to three digits, without a leading
/// zero, and reads back as that octet.
/// The value of a one-digit string.
proof fn lemma_dec_value_single(c: char)
    ensures
        dec_value(seq![c]) == dec_digit_val(c),
{
    assert(seq![c].drop_last() =~= Seq::<char>::empty());
    assert(dec_value(Seq::<char>::empty()) == 0);
    assert(seq![c].last() == c);
}

proof fn lemma_u8_dec_shape(n: int)
    requires
        0 <= n < 256,
    ensures
        1 <= spec_u8_dec(n).len() <= 3,
        forall|i: int| 0 <= i < spec_u8_dec(n).len() ==> is_dec_digit(spec_u8_dec(n)[i]),
        spec_u8_dec(n).len() > 1 ==> spec_u8_dec(n)[0] != '0',
        dec_value(spec_u8_dec(n)) == n,
{
    if n < 10 {
        lemma_dec_value_single(spec_dec_digit_char(n));
        assert(dec_digit_val(spec_dec_digit_char(n)) == n);
    } else if n < 100 {
        let t = spec_u8_dec(n);
        assert(t.drop_last() =~= seq![spec_dec_digit_char(n / 10)]);
        assert(t.last() == spec_dec_digit_char(n % 10));
        lemma_dec_value_single(spec_dec_digit_char(n / 10));
        assert(dec_value(t.drop_last()) == n / 10);
        assert(dec_value(t) == (n / 10) * 10 + n % 10);
        assert((n / 10) * 10 + n % 10 == n) by (nonlinear_arith)
            requires
                0 <= n,
        ;
        assert(1 <= n / 10 <= 9);
        assert(t[0] != '0');
    } else {
        let t = spec_u8_dec(n);
        let front = seq![spec_dec_digit_char(n / 100), spec_dec_digit_char((n / 10) % 10)];
        assert(t.drop_last() =~= front);
        assert(t.last() == spec_dec_digit_char(n % 10));
        assert(front.drop_last() =~= seq![spec_dec_digit_char(n / 100)]);
        assert(front.last() == spec_dec_digit_char((n / 10) % 10));
        lemma_dec_value_single(spec_dec_digit_char(n / 100));
        assert(dec_value(front.drop_last()) == n / 100);
        assert(dec_value(front) == (n / 100) * 10 + (n / 10) % 10);
        assert(dec_value(t) == ((n / 100) * 10 + (n / 10) % 10) * 10 + n % 10);
        assert(((n / 100) * 10 + (n / 10) % 10) * 10 + n % 10 == n) by (nonlinear_arith)
            requires
                0 <= n,
        ;
        assert(1 <= n / 100 <= 2);
        assert(t[0] != '0');
    }
}

/// The digit prefix of a digit string followed by a non-digit (or by
/// nothing) is exactly the digit string.
proof fn lemma_dec_prefix_concat(t: Seq<char>, rest: Seq<char>)
    requires
        forall|i: int| 0 <= i < t.len() ==> is_dec_digit(t[i]),
        rest.len() > 0 ==> !is_dec_digit(rest[0]),
    ensures
        dec_prefix_len(t + rest) == t.len(),
    decreases t.len(),
{
    if t.len() == 0 {
        assert(t + rest =~= rest);
    } else {
        assert((t + rest)[0] == t[0]);
        assert((t + rest).drop_first() =~= t.drop_first() + rest);
        lemma_dec_prefix_concat(t.drop_first(), rest);
    }
}

/// The dotted-decimal text of octets, for any count of them.
spec fn ipv4_parts_text(o: Seq<u8>) -> Seq<char>
    decreases o.len(),
{
    if o.len() <= 1 {
        spec_u8_dec(o[0] as int)
    } else {
        spec_u8_dec(o[0] as int) + seq!['.'] + ipv4_parts_text(o.drop_first())
    }
}

/// Rendered octets parse back to themselves, for any count of them.
proof fn lemma_parts_round_trip(o: Seq<u8>)
    requires
        1 <= o.len() <= 4,
    ensures
        spec_parse_ipv4_parts(ipv4_parts_text(o), o.len() as int) == Some(o),
    decreases o.len(),
{
    let n = o[0] as int;
    let t = spec_u8_dec(n);
    lemma_u8_dec_shape(n);
    let s = ipv4_parts_text(o);
    if o.len() == 1 {
        lemma_dec_prefix_concat(t, Seq::empty());
        assert(t + Seq::<char>::empty() =~= t);
        assert(dec_prefix_len(s) == t.len());
        assert(s.take(t.len() as int) =~= t);
        assert(Some(seq![dec_value(t) as u8]) =~= Some(seq![o[0]]));
        assert(seq![o[0]] =~= o);
    } else {
        let rest = seq!['.'] + ipv4_parts_text(o.drop_first());
        assert(s =~= t + rest);
        assert(!is_dec_digit('.'));
        lemma_dec_prefix_concat(t, rest);
        let d = dec_prefix_len(s);
        assert(d == t.len());
        assert(s.take(d) =~= t);
        assert(s[d] == rest[0]);
        assert(s[d] == '.');
        assert(d < s.len());
        assert(s.skip(d + 1) =~= ipv4_parts_text(o.drop_first()));
        lemma_parts_round_trip(o.drop_first());
        assert(spec_parse_ipv4_parts(s.skip(d + 1), o.len() - 1) == Some(o.drop_first()));
        assert(seq![dec_value(t) as u8] + o.drop_first() =~= o);
    }
}

/// The text of any IPv4 address parses back to exactly that address.
proof fn lemma_ipv4_text_round_trip(o: Seq<u8>)
    requires
        o.len() == 4,
    ensures
        spec_parse_ipv4_parts(spec_ipv4_text(o), 4) == Some(o),
{
    let o1 = o.drop_first();
    let o2 = o1.drop_first();
    let o3 = o2.drop_first();
    assert(o1[0] == o[1] && o2[0] == o[2] && o3[0] == o[3]);
    assert(o3.len() == 1);
    assert(ipv4_parts_text(o3) == spec_u8_dec(o[3] as int));
    assert(ipv4_parts_text(o2) == spec_u8_dec(o[2] as int) + seq!['.'] + ipv4_parts_text(o3));
    assert(ipv4_parts_text(o1) == spec_u8_dec(o[1] as int) + seq!['.'] + ipv4_parts_text(o2));
    assert(ipv4_parts_text(o) == spec_u8_dec(o[0] as int) + seq!['.'] + ipv4_parts_text(o1));
    assert(ipv4_parts_text(o) =~= spec_ipv4_text(o));
    lemma_parts_round_trip(o);
}

/// The value of a one-digit hexadecimal string.
proof fn lemma_hex_value_single(c: char)
    ensures
        hex_value(seq![c]) == hex_digit_val(c),
{
    assert(seq![c].drop_last() =~= Seq::<char>::empty());
    assert(hex_value(Seq::<char>::empty()) == 0);
    assert(seq![c].last() == c);
}

/// The hexadecimal text of a group is one to four hexadecimal digits and
/// reads back as that group.
proof fn lemma_hex_u16_shape(n: int)
    requires
        0 <= n < 65536,
    ensures
        1 <= spec_hex_u16(n).len() <= 4,
        forall|i: int| 0 <= i < spec_hex_u16(n).len() ==> is_hex_digit(spec_hex_u16(n)[i]),
        hex_value(spec_hex_u16(n)) == n,
{
    if n < 16 {
        lemma_hex_value_single(spec_hex_digit_char(n));
        assert(hex_digit_val(spec_hex_digit_char(n)) == n);
    } else if n < 256 {
        let t = spec_hex_u16(n);
        assert(t.drop_last() =~= seq![spec_hex_digit_char(n / 16)]);
        assert(t.last() == spec_hex_digit_char(n % 16));
        lemma_hex_value_single(spec_hex_digit_char(n / 16));
        assert(hex_value(t) == (n / 16) * 16 + n % 16);
        assert((n / 16) * 16 + n % 16 == n) by (nonlinear_arith)
            requires
                0 <= n,
        ;
    } else if n < 4096 {
        let t = spec_hex_u16(n);
        let front = seq![spec_hex_digit_char(n / 256), spec_hex_digit_char((n / 16) % 16)];
        assert(t.drop_last() =~= front);
        assert(t.last() == spec_hex_digit_char(n % 16));
        assert(front.drop_last() =~= seq![spec_hex_digit_char(n / 256)]);
        assert(front.last() == spec_hex_digit_char((n / 16) % 16));
        lemma_hex_value_single(spec_hex_digit_char(n / 256));
        assert(hex_value(front) == (n / 256) * 16 + (n / 16) % 16);
        assert(hex_value(t) == ((n / 256) * 16 + (n / 16) % 16) * 16 + n % 16);
        assert(((n / 256) * 16 + (n / 16) % 16) * 16 + n % 16 == n) by (nonlinear_arith)
            requires
                0 <= n,
        ;
    } else {
        let t = spec_hex_u16(n);
        let front = seq![
            spec_hex_digit_char(n / 4096),
            spec_hex_digit_char((n / 256) % 16),
            spec_hex_digit_char((n / 16) % 16),
        ];
        let front2 = seq![spec_hex_digit_char(n / 4096), spec_hex_digit_char((n / 256) % 16)];
        assert(t.drop_last() =~= front);
        assert(t.last() == spec_hex_digit_char(n % 16));
        assert(front.drop_last() =~= front2);
        assert(front.last() == spec_hex_digit_char((n / 16) % 16));
        assert(front2.drop_last() =~= seq![spec_hex_digit_char(n / 4096)]);
        assert(front2.last() == spec_hex_digit_char((n / 256) % 16));
        lemma_hex_value_single(spec_hex_digit_char(n / 4096));
        assert(hex_value(front2) == (n / 4096) * 16 + (n / 256) % 16);
        assert(hex_value(front) == ((n / 4096) * 16 + (n / 256) % 16) * 16 + (n / 16) % 16);
        assert(hex_value(t) == (((n / 4096) * 16 + (n / 256) % 16) * 16 + (n / 16) % 16) * 16 + n
            % 16);
        assert((((n / 4096) * 16 + (n / 256) % 16) * 16 + (n / 16) % 16) * 16 + n % 16 == n)
            by (nonlinear_arith)
            requires
                0 <= n,
        ;
    }
}

/// The hexadecimal prefix of a hexadecimal string followed by a non-digit
/// (or by nothing) is exactly the hexadecimal string.
proof fn lemma_hex_prefix_concat(t: Seq<char>, rest: Seq<char>)
    requires
        forall|i: int| 0 <= i < t.len() ==> is_hex_digit(t[i]),
        rest.len() > 0 ==> !is_hex_digit(rest[0]),
    ensures
        hex_prefix_len(t + rest) == t.len(),
    decreases t.len(),
{
    if t.len() == 0 {
        assert(t + rest =~= rest);
    } else {
        assert((t + rest)[0] == t[0]);
        assert((t + rest).drop_first() =~= t.drop_first() + rest);
        lemma_hex_prefix_concat(t.drop_first(), rest);
    }
}

/// The groups of sixteen octets from `from` to `to` (exclusive), each a
/// 16-bit value.
spec fn groups_slice(o: Seq<u8>, from: int, to: int) -> Seq<u16> {
    Seq::new((to - from) as nat, |k: int| spec_group(o, from + k) as u16)
}

/// Shape of the joined group text: it starts and ends with a hexadecimal
/// digit and holds only hexadecimal digits and single colons — never two
/// colons in a row, never a `.`.
proof fn lemma_join_shape(o: Seq<u8>, from: int, to: int)
    requires
        o.len() == 16,
        0 <= from < to <= 8,
    ensures
        groups_join(o, from, to).len() >= 1,
        is_hex_digit(groups_join(o, from, to)[0]),
        is_hex_digit(groups_join(o, from, to)[groups_join(o, from, to).len() - 1]),
        forall|p: int|
            0 <= p < groups_join(o, from, to).len() ==> (is_hex_digit(groups_join(o, from, to)[p])
                || groups_join(o, from, to)[p] == ':'),
        forall|p: int|
            0 <= p < groups_join(o, from, to).len() - 1 ==> !(#[trigger] groups_join(o, from, to)[p]
                == ':' && groups_join(o, from, to)[p + 1] == ':'),
        forall|p: int|
            0 <= p < groups_join(o, from, to).len() ==> groups_join(o, from, to)[p] != '.',
    decreases to - from,
{
    let s = groups_join(o, from, to);
    let g = spec_group(o, from);
    assert(0 <= g < 65536);
    let t = spec_hex_u16(g);
    lemma_hex_u16_shape(g);
    if from + 1 >= to {
    } else {
        let r = groups_join(o, from + 1, to);
        lemma_join_shape(o, from + 1, to);
        assert(s =~= t + seq![':'] + r);
        let d = t.len() as int;
        assert(forall|p: int| 0 <= p < d ==> s[p] == t[p]);
        assert(s[d] == ':');
        assert(forall|p: int| d + 1 <= p < s.len() ==> s[p] == r[p - d - 1]);
        assert forall|p: int| 0 <= p < s.len() - 1 implies !(#[trigger] s[p] == ':' && s[p + 1]
            == ':') by {
            if p < d {
                assert(is_hex_digit(s[p]));
            } else if p == d {
                assert(s[p + 1] == r[0]);
                assert(is_hex_digit(s[p + 1]));
            } else {
                assert(s[p] == r[p - d - 1] && s[p + 1] == r[p - d]);
            }
        }
    }
}

/// A string without two colons in a row has no `::`.
proof fn lemma_no_double_colon(s: Seq<char>)
    requires
        forall|p: int| 0 <= p < s.len() - 1 ==> !(#[trigger] s[p] == ':' && s[p + 1] == ':'),
    ensures
        double_colon_pos(s) < 0,
    decreases s.len(),
{
    if s.len() < 2 {
    } else {
        assert(!(s[0] == ':' && s[1] == ':'));
        assert(forall|p: int|
            0 <= p < s.drop_first().len() - 1 ==> #[trigger] s.drop_first()[p] == s[p + 1]
                && s.drop_first()[p + 1] == s[p + 2]);
        lemma_no_double_colon(s.drop_first());
    }
}

/// The first `::` of a string stands exactly at the first adjacent colon
/// pair.
proof fn lemma_dcp_at(s: Seq<char>, p: int)
    requires
        0 <= p,
        p + 2 <= s.len(),
        s[p] == ':' && s[p + 1] == ':',
        forall|q: int| 0 <= q < p ==> !(#[trigger] s[q] == ':' && s[q + 1] == ':'),
    ensures
        double_colon_pos(s) == p,
    decreases p,
{
    if p == 0 {
    } else {
        assert(!(s[0] == ':' && s[1] == ':'));
        let r = s.drop_first();
        assert(forall|q: int| 0 <= q < r.len() ==> #[trigger] r[q] == s[q + 1]);
        assert forall|q: int| 0 <= q < p - 1 implies !(#[trigger] r[q] == ':' && r[q + 1]
            == ':') by {
            assert(r[q] == s[q + 1] && r[q + 1] == s[q + 2]);
        }
        lemma_dcp_at(r, p - 1);
    }
}

/// Zero runs are runs of zero groups, within the eight.
proof fn lemma_zero_run(o: Seq<u8>, i: int)
    requires
        0 <= i <= 8,
    ensures
        0 <= zero_run(o, i) <= 8 - i,
        forall|k: int| i <= k < i + zero_run(o, i) ==> spec_group(o, k) == 0,
    decreases 8 - i,
{
    if i >= 8 || spec_group(o, i) != 0 {
    } else {
        lemma_zero_run(o, i + 1);
    }
}

/// The best run is a zero run starting at its reported position.
proof fn lemma_best_run(o: Seq<u8>, i: int)
    requires
        0 <= i <= 8,
    ensures
        i <= best_run(o, i).0 <= 8,
        best_run(o, i).1 == zero_run(o, best_run(o, i).0),
        best_run(o, i).1 <= 8 - best_run(o, i).0,
    decreases 8 - i,
{
    if i >= 8 {
        assert(zero_run(o, 8) == 0);
    } else {
        lemma_zero_run(o, i);
        lemma_best_run(o, i + 1);
    }
}

/// The joined group text parses back to exactly those groups, whether or
/// not a dotted-decimal tail would be admitted: it holds no `.`.
proof fn lemma_parse_join(o: Seq<u8>, from: int, to: int, tail: bool)
    requires
        o.len() == 16,
        0 <= from <= to <= 8,
    ensures
        spec_parse_groups(groups_join(o, from, to), tail) == Some(groups_slice(o, from, to)),
    decreases to - from,
{
    let s = groups_join(o, from, to);
    if from >= to {
        assert(s.len() == 0);
        assert(groups_slice(o, from, to) =~= Seq::<u16>::empty());
    } else {
        let g = spec_group(o, from);
        assert(0 <= g < 65536);
        let t = spec_hex_u16(g);
        lemma_hex_u16_shape(g);
        if from + 1 >= to {
            lemma_hex_prefix_concat(t, Seq::empty());
            assert(t + Seq::<char>::empty() =~= t);
            assert(hex_prefix_len(s) == t.len());
            assert(s.take(t.len() as int) =~= t);
            assert(Some(seq![hex_value(t) as u16]) =~= Some(seq![g as u16]));
            assert(seq![g as u16] =~= groups_slice(o, from, to));
        } else {
            let r = groups_join(o, from + 1, to);
            lemma_join_shape(o, from + 1, to);
            let rest = seq![':'] + r;
            assert(s =~= t + rest);
            assert(!is_hex_digit(':'));
            lemma_hex_prefix_concat(t, rest);
            let d = hex_prefix_len(s);
            assert(d == t.len());
            assert(s.take(d) =~= t);
            assert(s[d] == rest[0]);
            assert(s[d] == ':');
            assert(s[d] != '.');
            assert(s.len() > d + 1);
            assert(s.skip(d + 1) =~= r);
            lemma_parse_join(o, from + 1, to, tail);
            assert(seq![g as u16] + groups_slice(o, from + 1, to) =~= groups_slice(o, from, to));
        }
    }
}

/// The octets of the groups of sixteen octets are those octets again.
proof fn lemma_groups_bytes_inverse(o: Seq<u8>)
    requires
        o.len() == 16,
    ensures
        spec_groups_bytes(groups_slice(o, 0, 8)) == o,
{
    let g = groups_slice(o, 0, 8);
    lemma_groups_bytes(g);
    assert forall|i: int| 0 <= i < 8 implies (g[i] as int / 256) as u8 == o[2 * i] && (g[i] as int
        % 256) as u8 == o[2 * i + 1] by {
        assert(g[i] as int == o[2 * i] * 256 + o[2 * i + 1]);
        assert((o[2 * i] * 256 + o[2 * i + 1]) / 256 == o[2 * i] && (o[2 * i] * 256 + o[2 * i + 1])
            % 256 == o[2 * i + 1]) by (nonlinear_arith)
            requires
                0 <= o[2 * i] < 256 && 0 <= o[2 * i + 1] < 256,
        ;
    }
    assert forall|j: int| 0 <= j < 16 implies spec_groups_bytes(g)[j] == o[j] by {
        let i = j / 2;
        assert(0 <= i < 8);
        if j % 2 == 0 {
            assert(j == 2 * i);
            assert(spec_groups_bytes(g)[2 * i] == (g[i] as int / 256) as u8);
        } else {
            assert(j == 2 * i + 1);
            assert(spec_groups_bytes(g)[2 * i + 1] == (g[i] as int % 256) as u8);
        }
    }
    assert(spec_groups_bytes(g) =~= o);
}

/// A text without a `.` is no IPv4 text.
proof fn lemma_no_dot_no_ipv4(s: Seq<char>)
    requires
        forall|p: int| 0 <= p < s.len() ==> s[p] != '.',
    ensures
        spec_parse_ipv4_parts(s, 4) is None,
{
    let d = dec_prefix_len(s);
    lemma_dec_prefix(s);
    if 1 <= d <= 3 && d < s.len() {
        assert(s[d] != '.');
    }
}

/// The `::ffff:` dotted-decimal text of an IPv4-mapped address parses
/// back to its sixteen octets, and no IPv4 parse accepts it.
#[verifier::rlimit(60)]
proof fn lemma_mapped_round_trip(o: Seq<u8>)
    requires
        o.len() == 16,
        is_v4_mapped(o),
    ensures
        spec_parse_ipv4_parts(spec_ipv6_text(o), 4) is None,
        spec_parse_ipv6(spec_ipv6_text(o)) == Some(o),
{
    let s = spec_ipv6_text(o);
    let ob = o.subrange(12, 16);
    let v4t = spec_ipv4_text(ob);
    reveal_strlit("::ffff:");
    assert("::ffff:"@.len() == 7);
    assert(s =~= "::ffff:"@ + v4t);
    lemma_u8_dec_shape(ob[0] as int);
    lemma_u8_dec_shape(ob[1] as int);
    lemma_u8_dec_shape(ob[2] as int);
    lemma_u8_dec_shape(ob[3] as int);
    assert(v4t.len() >= 7);
    // it starts with a colon, so no IPv4 parse accepts it
    assert(s[0] == ':' && s[1] == ':');
    assert(!is_dec_digit(':'));
    assert(dec_prefix_len(s) == 0);
    assert(spec_parse_ipv4_parts(s, 4) is None);
    // the first `::` stands at 0, with nothing to its left
    assert(double_colon_pos(s) == 0);
    assert(s.take(0) =~= Seq::<char>::empty());
    assert(spec_parse_groups(Seq::<char>::empty(), false) == Some(Seq::<u16>::empty()));
    // to its right: the group `ffff`, then the dotted-decimal tail
    let right = s.skip(2);
    let ft = seq!['f', 'f', 'f', 'f'];
    assert(right =~= ft + (seq![':'] + v4t));
    assert(is_hex_digit('f'));
    assert(!is_hex_digit(':'));
    lemma_hex_prefix_concat(ft, seq![':'] + v4t);
    assert(hex_prefix_len(right) == 4);
    assert(right[4] == ':');
    assert(right[4] != '.');
    assert(right.len() > 5);
    assert(right.take(4) =~= ft);
    assert(spec_hex_u16(0xffff) =~= ft);
    lemma_hex_u16_shape(0xffff);
    assert(hex_value(ft) == 0xffff);
    assert(right.skip(5) =~= v4t);
    // the tail is an embedded IPv4 text, worth the last two groups
    let d0 = spec_u8_dec(ob[0] as int);
    assert forall|i: int| 0 <= i < d0.len() implies is_hex_digit(d0[i]) by {
        assert(is_dec_digit(d0[i]));
    }
    let after = seq!['.'] + (spec_u8_dec(ob[1] as int) + seq!['.'] + spec_u8_dec(ob[2] as int)
        + seq!['.'] + spec_u8_dec(ob[3] as int));
    assert(v4t =~= d0 + after);
    assert(!is_hex_digit('.'));
    lemma_hex_prefix_concat(d0, after);
    let d2 = hex_prefix_len(v4t);
    assert(d2 == d0.len());
    assert(1 <= d2 < v4t.len());
    assert(v4t[d2] == '.');
    lemma_ipv4_text_round_trip(ob);
    assert(spec_parse_ipv4_parts(v4t, 4) == Some(ob));
    let q = seq![
        (ob[0] as int * 256 + ob[1] as int) as u16,
        (ob[2] as int * 256 + ob[3] as int) as u16,
    ];
    assert(spec_parse_groups(v4t, true) == Some(q));
    let pq = seq![0xffff as u16] + q;
    assert(spec_parse_groups(right, true) == Some(pq));
    assert(pq.len() == 3);
    // five zero groups, `ffff`, and the embedded pair are the groups of o
    let full = Seq::<u16>::empty() + zero_groups(5) + pq;
    assert forall|k: int| 0 <= k < 8 implies full[k] == groups_slice(o, 0, 8)[k] by {
        if k < 5 {
            assert(full[k] == 0u16);
            assert(spec_group(o, k) == 0);
        } else {
            assert(full[k] == pq[k - 5]);
            assert(ob[0] == o[12] && ob[1] == o[13] && ob[2] == o[14] && ob[3] == o[15]);
        }
    }
    assert(full.len() == 8);
    assert(full =~= groups_slice(o, 0, 8));
    lemma_groups_bytes_inverse(o);
}

/// The grouped text — compressed or full — of an address that is not
/// IPv4-mapped parses back to its sixteen octets, and no IPv4 parse
/// accepts it.
proof fn lemma_grouped_round_trip(o: Seq<u8>)
    requires
        o.len() == 16,
        !is_v4_mapped(o),
    ensures
        spec_parse_ipv4_parts(spec_ipv6_text(o), 4) is None,
        spec_parse_ipv6(spec_ipv6_text(o)) == Some(o),
{
    let s = spec_ipv6_text(o);
    let br = best_run(o, 0);
    lemma_best_run(o, 0);
    lemma_zero_run(o, br.0);
    if br.1 < 2 {
        assert(s == groups_join(o, 0, 8));
        lemma_join_shape(o, 0, 8);
        lemma_no_dot_no_ipv4(s);
        lemma_no_double_colon(s);
        lemma_parse_join(o, 0, 8, true);
        assert(groups_slice(o, 0, 8).len() == 8);
        lemma_groups_bytes_inverse(o);
    } else {
        let bs = br.0;
        let e = br.0 + br.1;
        let left = groups_join(o, 0, bs);
        let right = groups_join(o, e, 8);
        assert(s =~= left + seq![':'] + seq![':'] + right);
        if bs > 0 {
            lemma_join_shape(o, 0, bs);
        }
        if e < 8 {
            lemma_join_shape(o, e, 8);
        }
        let ll = left.len() as int;
        assert(s[ll] == ':' && s[ll + 1] == ':');
        assert forall|p: int| 0 <= p < s.len() implies s[p] != '.' by {
            if p < ll {
                assert(s[p] == left[p]);
            } else if p <= ll + 1 {
            } else {
                assert(s[p] == right[p - ll - 2]);
            }
        }
        lemma_no_dot_no_ipv4(s);
        assert(!is_dec_digit(':'));
        assert forall|q: int| 0 <= q < ll implies !(#[trigger] s[q] == ':' && s[q + 1] == ':') by {
            if q < ll - 1 {
                assert(s[q] == left[q] && s[q + 1] == left[q + 1]);
            } else {
                assert(s[q] == left[ll - 1]);
                assert(is_hex_digit(left[ll - 1]));
            }
        }
        lemma_dcp_at(s, ll);
        assert(double_colon_pos(s) == ll);
        assert(s.take(ll) =~= left);
        assert(s.skip(ll + 2) =~= right);
        lemma_parse_join(o, 0, bs, false);
        lemma_parse_join(o, e, 8, true);
        let p = groups_slice(o, 0, bs);
        let q = groups_slice(o, e, 8);
        assert(p.len() + q.len() == 8 - br.1);
        assert(p.len() + q.len() <= 7);
        let full = p + zero_groups(8 - p.len() - q.len()) + q;
        assert forall|k: int| 0 <= k < 8 implies full[k] == groups_slice(o, 0, 8)[k] by {
            if bs <= k < e {
                assert(spec_group(o, k) == 0);
                assert(full[k] == 0u16);
            }
        }
        assert(full.len() == 8);
        assert(full =~= groups_slice(o, 0, 8));
        lemma_groups_bytes_inverse(o);
    }
}

/// Law: rendering and parsing agree.  The text of any address parses
/// back to exactly that address: an IPv4 text as its four octets, an
/// IPv6 text — which no IPv4 parse accepts — as its sixteen octets.
pub proof fn lemma_text_round_trip(a: IpAddress)
    ensures
        a matches IpAddress::V4(o) ==> spec_parse_ipv4_parts(a.spec_text(), 4) == Some(o@),
        a matches IpAddress::V6(o) ==> spec_parse_ipv4_parts(a.spec_text(), 4) is None
            && spec_parse_ipv6(a.spec_text()) == Some(o@),
{
    match a {
        IpAddress::V4(o) => {
            lemma_ipv4_text_round_trip(o@);
        },
        IpAddress::V6(o) => {
            if is_v4_mapped(o@) {
                lemma_mapped_round_trip(o@);
            } else {
                lemma_grouped_round_trip(o@);
            }
        },
    }
}

/// The octets an address holds.
pub open spec fn addr_bytes(a: IpAddress) -> Seq<u8> {
    match a {
        IpAddress::V4(o) => o@,
        IpAddress::V6(o) => o@,
    }
}

/// Whether the address is the typed form of these octets: four octets
/// make it IPv4, sixteen IPv6.
pub open spec fn addr_represents(a: IpAddress, bytes: Seq<u8>) -> bool {
    ((a is V4 && bytes.len() == 4) || (a is V6 && bytes.len() == 16)) && addr_bytes(a) == bytes
}

/// The address holding exactly these octets; meaningful for four or
/// sixteen of them, where exactly one address represents them.
pub open spec fn spec_addr_of(bytes: Seq<u8>) -> IpAddress {
    choose|a: IpAddress| addr_represents(a, bytes)
}

/// At most one address represents given octets.
pub proof fn lemma_addr_of(a: IpAddress, bytes: Seq<u8>)
    requires
        addr_represents(a, bytes),
    ensures
        spec_addr_of(bytes) == a,
{
    let c = spec_addr_of(bytes);
    assert(addr_represents(c, bytes));
    match (c, a) {
        (IpAddress::V4(x), IpAddress::V4(y)) => {
            assert(x@ == y@);
            assert(x == y);
        },
        (IpAddress::V6(x), IpAddress::V6(y)) => {
            assert(x@ == y@);
            assert(x == y);
        },
        _ => {
            assert(false);
        },
    }
}

/// The address a text denotes: the IPv4 reading where the dotted-decimal
/// grammar accepts it, else the IPv6 reading where that grammar accepts
/// it, else none.
pub open spec fn spec_ip_of_text(s: Seq<char>) -> Option<IpAddress> {
    match spec_parse_ipv4_parts(s, 4) {
        Some(o) => Some(spec_addr_of(o)),
        None => match spec_parse_ipv6(s) {
            Some(o) => Some(spec_addr_of(o)),
            None => None,
        },
    }
}

/// Parses the text of an IP address: dotted decimal for IPv4, and
/// colon-separated hexadecimal groups — full or with one `::`, an
/// embedded dotted-decimal tail allowed — for IPv6.  Returns exactly the
/// denotation of the text, and `None` on everything else.
pub fn parse_ip_text(s: &str) -> (r: Option<IpAddress>)
    ensures
        r == spec_ip_of_text(s@),
        spec_parse_ipv4_parts(s@, 4) matches Some(o) ==> (r matches Some(a)
            && a matches IpAddress::V4(arr) && arr@ == o),
        spec_parse_ipv4_parts(s@, 4) is None ==> (spec_parse_ipv6(s@) matches Some(o) ==> (
        r matches Some(a) && a matches IpAddress::V6(arr) && arr@ == o)),
        spec_parse_ipv4_parts(s@, 4) is None && spec_parse_ipv6(s@) is None ==> r is None,
{
    match parse_ipv4_parts(s, 4) {
        Some(v) => {
            let arr = [v[0], v[1], v[2], v[3]];
            proof {
                assert(arr@ =~= v@);
                lemma_addr_of(IpAddress::V4(arr), v@);
            }
            Some(IpAddress::V4(arr))
        },
        None => {
            match parse_ipv6_text(s) {
                Some(o) => {
                    proof {
                        lemma_addr_of(IpAddress::V6(o), o@);
                    }
                    Some(IpAddress::V6(o))
                },
                None => None,
            }
        },
    }
}

} // verus!
