//! IPv4 addresses and CIDR blocks: their dotted-decimal text, read and
//! written, and the laws that tie the two directions together.

use crate::decimal::{
    decimal, decimal_value, format_decimal, is_digit, lemma_decimal_of_value,
    lemma_decimal_reads_back, parse_decimal, read_decimal,
};
use crate::text::{
    chars_of, free_of, join, lemma_join_split, lemma_split_join, part_views, parts_free_of, split,
    split_chars,
};
use vstd::arithmetic::div_mod::lemma_fundamental_div_mod_converse;
use vstd::prelude::*;

verus! {

/// An IPv4 address, held as its 32-bit number (most significant octet
/// first in the dotted text).
#[derive(Clone, Copy, Debug, PartialEq, Eq, Structural)]
pub struct Ipv4Address {
    pub bits: u32,
}

/// The `k`-th octet of `a`, octet 0 being the most significant.
pub open spec fn octet(a: u32, k: int) -> nat {
    if k == 0 {
        (a / 16777216) as nat
    } else if k == 1 {
        ((a / 65536) % 256) as nat
    } else if k == 2 {
        ((a / 256) % 256) as nat
    } else {
        (a % 256) as nat
    }
}

/// The number made of four octets.
pub open spec fn from_octets(o0: nat, o1: nat, o2: nat, o3: nat) -> nat {
    o0 * 16777216 + o1 * 65536 + o2 * 256 + o3
}

/// The four numerals of an address.
pub open spec fn octet_texts(a: u32) -> Seq<Seq<char>> {
    seq![decimal(octet(a, 0)), decimal(octet(a, 1)), decimal(octet(a, 2)), decimal(octet(a, 3))]
}

/// The dotted-decimal text of an address: four canonical numerals
/// joined by dots.
pub open spec fn dotted_quad(a: u32) -> Seq<char> {
    join(octet_texts(a), '.')
}

/// What a text reads as: the address, when the text is made of exactly
/// four canonical numerals of at most 255, separated by dots.
pub open spec fn read_ipv4(s: Seq<char>) -> Option<u32> {
    let parts = split(s, '.');
    if parts.len() == 4 && read_decimal(parts[0], 255) is Some && read_decimal(parts[1], 255) is Some
        && read_decimal(parts[2], 255) is Some && read_decimal(parts[3], 255) is Some {
        Some(
            from_octets(
                decimal_value(parts[0]),
                decimal_value(parts[1]),
                decimal_value(parts[2]),
                decimal_value(parts[3]),
            ) as u32,
        )
    } else {
        None
    }
}

/// The text of a CIDR block: the base address, a slash, and the prefix
/// length as a canonical numeral.
pub open spec fn cidr_text(base: u32, prefix: nat) -> Seq<char> {
    join(seq![dotted_quad(base), decimal(prefix)], '/')
}

/// What a text reads as: base address and prefix length, when the text
/// is an address, one slash, and a canonical numeral of at most 32.
pub open spec fn read_cidr(s: Seq<char>) -> Option<(u32, nat)> {
    let parts = split(s, '/');
    if parts.len() == 2 && read_ipv4(parts[0]) is Some && read_decimal(parts[1], 32) is Some {
        Some((read_ipv4(parts[0])->0, decimal_value(parts[1])))
    } else {
        None
    }
}

/// The base address of the block that a text reads as.
pub open spec fn cidr_base(s: Seq<char>) -> u32 {
    match read_cidr(s) {
        Some((base, _)) => base,
        None => 0,
    }
}

/// The prefix length of the block that a text reads as.
pub open spec fn cidr_prefix(s: Seq<char>) -> nat {
    match read_cidr(s) {
        Some((_, prefix)) => prefix,
        None => 0,
    }
}

/// `addr` lies in the block `base/prefix`: the leading `prefix` bits of
/// the two agree.
pub open spec fn in_block(base: u32, prefix: nat, addr: u32) -> bool {
    prefix == 0 || (prefix <= 32 && (addr >> ((32 - prefix) as u32)) == (base >> ((32
        - prefix) as u32)))
}

/// Two parts joined: the first, the separator, the second.
pub proof fn lemma_join2(a: Seq<char>, b: Seq<char>, sep: char)
    ensures
        join(seq![a, b], sep) == a.push(sep) + b,
{
    let parts = seq![a, b];
    assert(parts.drop_last() == seq![a]);
    assert(join(seq![a], sep) == a);
}

/// Four parts joined, written out.
pub proof fn lemma_join4(a: Seq<char>, b: Seq<char>, c: Seq<char>, d: Seq<char>, sep: char)
    ensures
        join(seq![a, b, c, d], sep) == ((a.push(sep) + b).push(sep) + c).push(sep) + d,
{
    let four = seq![a, b, c, d];
    let three = seq![a, b, c];
    assert(four.drop_last() == three);
    assert(three.drop_last() == seq![a, b]);
    lemma_join2(a, b, sep);
    assert(join(three, sep) == join(seq![a, b], sep).push(sep) + c);
    assert(join(four, sep) == join(three, sep).push(sep) + d);
}

/// A numeral holds digits only, so none of the separators.
pub proof fn lemma_decimal_free_of(n: nat, c: char)
    requires
        !is_digit(c),
    ensures
        free_of(decimal(n), c),
{
    lemma_decimal_reads_back(n);
    let t = decimal(n);
    assert forall|i: int| 0 <= i < t.len() implies t[i] != c by {
        assert(is_digit(t[i]));
    }
}

/// The octets of an address are at most 255 and make up the address.
pub proof fn lemma_octets(a: u32)
    ensures
        octet(a, 0) <= 255,
        octet(a, 1) <= 255,
        octet(a, 2) <= 255,
        octet(a, 3) <= 255,
        from_octets(octet(a, 0), octet(a, 1), octet(a, 2), octet(a, 3)) == a,
{
}

/// Four octets make an address whose octets they are.
pub proof fn lemma_from_octets(o0: nat, o1: nat, o2: nat, o3: nat)
    requires
        o0 <= 255,
        o1 <= 255,
        o2 <= 255,
        o3 <= 255,
    ensures
        from_octets(o0, o1, o2, o3) <= u32::MAX,
        octet(from_octets(o0, o1, o2, o3) as u32, 0) == o0,
        octet(from_octets(o0, o1, o2, o3) as u32, 1) == o1,
        octet(from_octets(o0, o1, o2, o3) as u32, 2) == o2,
        octet(from_octets(o0, o1, o2, o3) as u32, 3) == o3,
{
    let n = from_octets(o0, o1, o2, o3) as int;
    let a = o0 as int;
    let b = o1 as int;
    let c = o2 as int;
    let d = o3 as int;
    lemma_fundamental_div_mod_converse(n, 16777216, a, b * 65536 + c * 256 + d);
    lemma_fundamental_div_mod_converse(n, 65536, a * 256 + b, c * 256 + d);
    lemma_fundamental_div_mod_converse(a * 256 + b, 256, a, b);
    lemma_fundamental_div_mod_converse(n, 256, a * 65536 + b * 256 + c, d);
    lemma_fundamental_div_mod_converse(a * 65536 + b * 256 + c, 256, a * 256 + b, c);
}

/// The dotted text of an address holds digits and dots only.
pub proof fn lemma_dotted_quad_free_of(a: u32, c: char)
    requires
        !is_digit(c),
        c != '.',
    ensures
        free_of(dotted_quad(a), c),
{
    let d0 = decimal(octet(a, 0));
    let d1 = decimal(octet(a, 1));
    let d2 = decimal(octet(a, 2));
    let d3 = decimal(octet(a, 3));
    lemma_decimal_free_of(octet(a, 0), c);
    lemma_decimal_free_of(octet(a, 1), c);
    lemma_decimal_free_of(octet(a, 2), c);
    lemma_decimal_free_of(octet(a, 3), c);
    lemma_join4(d0, d1, d2, d3, '.');
}

/// The text of a block holds digits, dots and one slash only.
pub proof fn lemma_cidr_text_free_of(base: u32, prefix: nat, c: char)
    requires
        !is_digit(c),
        c != '.',
        c != '/',
    ensures
        free_of(cidr_text(base, prefix), c),
{
    lemma_dotted_quad_free_of(base, c);
    lemma_decimal_free_of(prefix, c);
    lemma_join2(dotted_quad(base), decimal(prefix), '/');
}

/// Reading the dotted text of an address gives the address.
pub proof fn lemma_read_dotted_quad(a: u32)
    ensures
        read_ipv4(dotted_quad(a)) == Some(a),
{
    let parts = octet_texts(a);
    lemma_octets(a);
    assert(parts_free_of(parts, '.')) by {
        lemma_decimal_free_of(octet(a, 0), '.');
        lemma_decimal_free_of(octet(a, 1), '.');
        lemma_decimal_free_of(octet(a, 2), '.');
        lemma_decimal_free_of(octet(a, 3), '.');
    }
    lemma_split_join(parts, '.');
    lemma_decimal_reads_back(octet(a, 0));
    lemma_decimal_reads_back(octet(a, 1));
    lemma_decimal_reads_back(octet(a, 2));
    lemma_decimal_reads_back(octet(a, 3));
}

/// A text that reads as an address is the dotted text of that address.
pub proof fn lemma_dotted_quad_of_read(s: Seq<char>)
    requires
        read_ipv4(s) is Some,
    ensures
        dotted_quad(read_ipv4(s)->0) == s,
{
    let parts = split(s, '.');
    let a = read_ipv4(s)->0;
    lemma_from_octets(
        decimal_value(parts[0]),
        decimal_value(parts[1]),
        decimal_value(parts[2]),
        decimal_value(parts[3]),
    );
    lemma_decimal_of_value(parts[0]);
    lemma_decimal_of_value(parts[1]);
    lemma_decimal_of_value(parts[2]);
    lemma_decimal_of_value(parts[3]);
    assert(octet_texts(a) == parts);
    lemma_join_split(s, '.');
}

/// Reading the text of a block gives its base and prefix length.
pub proof fn lemma_read_cidr_text(base: u32, prefix: nat)
    requires
        prefix <= 32,
    ensures
        read_cidr(cidr_text(base, prefix)) == Some((base, prefix)),
{
    let parts = seq![dotted_quad(base), decimal(prefix)];
    assert(parts_free_of(parts, '/')) by {
        lemma_dotted_quad_free_of(base, '/');
        lemma_decimal_free_of(prefix, '/');
    }
    lemma_split_join(parts, '/');
    lemma_read_dotted_quad(base);
    lemma_decimal_reads_back(prefix);
}

/// A text that reads as a block is the text of that block.
pub proof fn lemma_cidr_text_of_read(s: Seq<char>)
    requires
        read_cidr(s) is Some,
    ensures
        cidr_text(cidr_base(s), cidr_prefix(s)) == s,
        cidr_prefix(s) <= 32,
{
    let parts = split(s, '/');
    lemma_dotted_quad_of_read(parts[0]);
    lemma_decimal_of_value(parts[1]);
    assert(seq![dotted_quad(cidr_base(s)), decimal(cidr_prefix(s))] == parts);
    lemma_join_split(s, '/');
}

/// Reads an address from its characters.
pub fn parse_ipv4_chars(v: &Vec<char>) -> (r: Option<u32>)
    ensures
        r == read_ipv4(v@),
{
    let parts = split_chars(v, '.');
    if parts.len() != 4 {
        return None;
    }
    assert(part_views(parts@)[0] == parts@[0]@);
    assert(part_views(parts@)[1] == parts@[1]@);
    assert(part_views(parts@)[2] == parts@[2]@);
    assert(part_views(parts@)[3] == parts@[3]@);
    let o0 = match parse_decimal(&parts[0], 255) {
        Some(o) => o,
        None => {
            return None;
        },
    };
    let o1 = match parse_decimal(&parts[1], 255) {
        Some(o) => o,
        None => {
            return None;
        },
    };
    let o2 = match parse_decimal(&parts[2], 255) {
        Some(o) => o,
        None => {
            return None;
        },
    };
    let o3 = match parse_decimal(&parts[3], 255) {
        Some(o) => o,
        None => {
            return None;
        },
    };
    Some(o0 * 16777216 + o1 * 65536 + o2 * 256 + o3)
}

/// Reads a block (base address and prefix length) from its characters.
pub fn parse_cidr_chars(v: &Vec<char>) -> (r: Option<(Ipv4Address, u8)>)
    ensures
        match r {
            Some((base, prefix)) => read_cidr(v@) == Some((base.bits, prefix as nat)),
            None => read_cidr(v@) is None,
        },
{
    let parts = split_chars(v, '/');
    if parts.len() != 2 {
        return None;
    }
    assert(part_views(parts@)[0] == parts@[0]@);
    assert(part_views(parts@)[1] == parts@[1]@);
    let base = match parse_ipv4_chars(&parts[0]) {
        Some(b) => b,
        None => {
            return None;
        },
    };
    let prefix = match parse_decimal(&parts[1], 32) {
        Some(p) => p,
        None => {
            return None;
        },
    };
    Some((Ipv4Address { bits: base }, prefix as u8))
}

impl Ipv4Address {
    pub fn new(bits: u32) -> (a: Ipv4Address)
        ensures
            a.bits == bits,
    {
        Ipv4Address { bits }
    }

    /// The address with the four given octets, most significant first.
    pub fn from_octets(o0: u8, o1: u8, o2: u8, o3: u8) -> (a: Ipv4Address)
        ensures
            a.bits == from_octets(o0 as nat, o1 as nat, o2 as nat, o3 as nat),
    {
        Ipv4Address {
            bits: (o0 as u32) * 16777216 + (o1 as u32) * 65536 + (o2 as u32) * 256 + (o3 as u32),
        }
    }

    /// Reads an address from dotted-decimal text; `None` for any other
    /// text.
    pub fn parse(s: &str) -> (r: Option<Ipv4Address>)
        ensures
            match r {
                Some(a) => read_ipv4(s@) == Some(a.bits),
                None => read_ipv4(s@) is None,
            },
    {
        let v = chars_of(s);
        match parse_ipv4_chars(&v) {
            Some(bits) => Some(Ipv4Address { bits }),
            None => None,
        }
    }

    /// The dotted-decimal text of the address.
    pub fn to_string(&self) -> (s: String)
        ensures
            s@ == dotted_quad(self.bits),
    {
        let a = self.bits;
        let mut s = format_decimal(a / 16777216);
        proof {
            reveal_strlit(".");
            lemma_join4(
                decimal(octet(a, 0)),
                decimal(octet(a, 1)),
                decimal(octet(a, 2)),
                decimal(octet(a, 3)),
                '.',
            );
        }
        s.append(".");
        assert(s@ == decimal(octet(a, 0)).push('.'));
        let d1 = format_decimal((a / 65536) % 256);
        s.append(d1.as_str());
        s.append(".");
        let d2 = format_decimal((a / 256) % 256);
        s.append(d2.as_str());
        s.append(".");
        let d3 = format_decimal(a % 256);
        s.append(d3.as_str());
        s
    }

    /// Whether the address lies in the block `base/prefix`.
    pub fn is_in_block(&self, base: Ipv4Address, prefix: u8) -> (r: bool)
        ensures
            r == in_block(base.bits, prefix as nat, self.bits),
    {
        if prefix == 0 {
            true
        } else if prefix > 32 {
            false
        } else {
            let shift: u32 = 32 - prefix as u32;
            (self.bits >> shift) == (base.bits >> shift)
        }
    }
}

} // verus!
