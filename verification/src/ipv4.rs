//! The IPv4 address record: parsing `"a.b.c.d/p"` and deriving the subnet
//! mask, network address, and broadcast address from the prefix length.

use vstd::prelude::*;
use vstd::string::StringExecFns;
use crate::text::{chars_of, dec_str, parse_bounded, push_decimal, split, split_on, token_val};

verus! {

/// Why a textual address fails to parse.
#[derive(Clone, Copy, Debug, PartialEq, Eq, Structural)]
pub enum ParseError {
    /// The input does not have exactly one `/` part separator, or the
    /// address part does not have exactly four `.`-separated tokens.
    MalformedInput,
    /// An address token is not an integer in `[0, 255]`.
    InvalidOctet,
    /// The prefix token is not an integer in `[0, 32]`.
    InvalidPrefixLength,
}

/// A parsed IPv4 address with its CIDR prefix length and the three
/// fields derived from them.
#[derive(Clone, Copy, Debug)]
pub struct IPv4Address {
    /// The literal parsed address, most significant octet first; it is
    /// not forced to be a network address.
    pub address: (u8, u8, u8, u8),
    /// The CIDR prefix length, in `[0, 32]`.
    pub cidr_bits: u8,
    /// The top `cidr_bits` bits set, the rest clear, split into octets.
    pub subnet_mask: (u8, u8, u8, u8),
    /// `address AND subnet_mask`, octet by octet.
    pub network_address: (u8, u8, u8, u8),
    /// `network_address OR NOT subnet_mask`, octet by octet.
    pub broadcast_address: (u8, u8, u8, u8),
}

/// The four octets read as one 32-bit big-endian value.
pub open spec fn quad_val(q: (u8, u8, u8, u8)) -> u32 {
    ((q.0 as u32) << 24u32) | ((q.1 as u32) << 16u32) | ((q.2 as u32) << 8u32) | (q.3 as u32)
}

/// The 32-bit subnet mask implied by a prefix length: zero when the
/// prefix is zero, otherwise all ones shifted left by `32 - p` so that
/// exactly the top `p` bits are set.
pub open spec fn mask_val(p: u8) -> u32
    recommends
        p <= 32,
{
    if p == 0 {
        0u32
    } else {
        (!0u32) << ((32 - p) as u32)
    }
}

/// The record derived from a literal address and a prefix length: the
/// mask comes from the prefix, the network address is `address AND mask`,
/// and the broadcast address is `network OR NOT mask`, octet by octet.
pub open spec fn derived_record(a: (u8, u8, u8, u8), p: u8) -> IPv4Address {
    let m = mask_val(p);
    let mask = (
        ((m >> 24u32) & 0xFFu32) as u8,
        ((m >> 16u32) & 0xFFu32) as u8,
        ((m >> 8u32) & 0xFFu32) as u8,
        (m & 0xFFu32) as u8,
    );
    let net = (a.0 & mask.0, a.1 & mask.1, a.2 & mask.2, a.3 & mask.3);
    let bc = (net.0 | !mask.0, net.1 | !mask.1, net.2 | !mask.2, net.3 | !mask.3);
    IPv4Address {
        address: a,
        cidr_bits: p,
        subnet_mask: mask,
        network_address: net,
        broadcast_address: bc,
    }
}

/// An address token in range: a numeric token whose value fits an octet.
pub open spec fn octet_ok(t: Seq<char>) -> bool {
    match token_val(t) {
        Some(k) => k <= 255,
        None => false,
    }
}

/// The octet an address token denotes.
pub open spec fn octet_of(t: Seq<char>) -> u8
    recommends
        octet_ok(t),
{
    match token_val(t) {
        Some(k) => k as u8,
        None => 0,
    }
}

/// A prefix token in range: a numeric token whose value is at most 32.
pub open spec fn prefix_ok(t: Seq<char>) -> bool {
    match token_val(t) {
        Some(k) => k <= 32,
        None => false,
    }
}

/// The prefix length a prefix token denotes.
pub open spec fn prefix_of(t: Seq<char>) -> u8
    recommends
        prefix_ok(t),
{
    match token_val(t) {
        Some(k) => k as u8,
        None => 0,
    }
}

/// What parsing a string means. The string must split on `/` into
/// exactly two parts and its address part on `.` into exactly four
/// tokens, else `MalformedInput`; the four tokens must each denote an
/// octet, else `InvalidOctet`; the prefix token must denote a prefix
/// length, else `InvalidPrefixLength`; and on success the result is the
/// record derived from the parsed address and prefix.
pub open spec fn spec_parse(s: Seq<char>) -> Result<IPv4Address, ParseError> {
    let parts = split(s, '/');
    if parts.len() != 2 {
        Err(ParseError::MalformedInput)
    } else {
        let octets = split(parts[0], '.');
        if octets.len() != 4 {
            Err(ParseError::MalformedInput)
        } else if !(octet_ok(octets[0]) && octet_ok(octets[1]) && octet_ok(octets[2]) && octet_ok(
            octets[3],
        )) {
            Err(ParseError::InvalidOctet)
        } else if !prefix_ok(parts[1]) {
            Err(ParseError::InvalidPrefixLength)
        } else {
            Ok(
                derived_record(
                    (octet_of(octets[0]), octet_of(octets[1]), octet_of(octets[2]), octet_of(
                        octets[3],
                    )),
                    prefix_of(parts[1]),
                ),
            )
        }
    }
}

impl IPv4Address {
    /// A record is well formed when its prefix length is in range and
    /// its derived fields are exactly those its address and prefix imply.
    pub open spec fn wf(self) -> bool {
        &&& self.cidr_bits <= 32
        &&& self == derived_record(self.address, self.cidr_bits)
    }

    /// Computes the derived fields from the literal address and prefix.
    fn derive(a: (u8, u8, u8, u8), p: u8) -> (r: IPv4Address)
        requires
            p <= 32,
        ensures
            r == derived_record(a, p),
    {
        let m: u32 = if p == 0 {
            0
        } else {
            (!0u32) << (32 - p as u32)
        };
        proof {
            assert(m == mask_val(p));
        }
        let mask = (
            ((m >> 24) & 0xFF) as u8,
            ((m >> 16) & 0xFF) as u8,
            ((m >> 8) & 0xFF) as u8,
            (m & 0xFF) as u8,
        );
        let net = (a.0 & mask.0, a.1 & mask.1, a.2 & mask.2, a.3 & mask.3);
        let bc = (net.0 | !mask.0, net.1 | !mask.1, net.2 | !mask.2, net.3 | !mask.3);
        IPv4Address {
            address: a,
            cidr_bits: p,
            subnet_mask: mask,
            network_address: net,
            broadcast_address: bc,
        }
    }

    /// Parses a dotted-quad address with a CIDR prefix, such as
    /// `"192.168.1.10/24"`, and derives its subnet fields. The result is
    /// exactly what `spec_parse` gives on the input's characters.
    pub fn parse(input: &str) -> (r: Result<IPv4Address, ParseError>)
        ensures
            r == spec_parse(input@),
    {
        let v = chars_of(input);
        let parts = split_on(&v, '/');
        if parts.len() != 2 {
            return Err(ParseError::MalformedInput);
        }
        proof {
            crate::text::lemma_deep_view_at(&parts, 0);
            crate::text::lemma_deep_view_at(&parts, 1);
        }
        let octets = split_on(&parts[0], '.');
        if octets.len() != 4 {
            return Err(ParseError::MalformedInput);
        }
        proof {
            crate::text::lemma_deep_view_at(&octets, 0);
            crate::text::lemma_deep_view_at(&octets, 1);
            crate::text::lemma_deep_view_at(&octets, 2);
            crate::text::lemma_deep_view_at(&octets, 3);
        }
        let a0: u8 = match parse_bounded(&octets[0], 255) {
            Some(x) => x as u8,
            None => {
                return Err(ParseError::InvalidOctet);
            },
        };
        let a1: u8 = match parse_bounded(&octets[1], 255) {
            Some(x) => x as u8,
            None => {
                return Err(ParseError::InvalidOctet);
            },
        };
        let a2: u8 = match parse_bounded(&octets[2], 255) {
            Some(x) => x as u8,
            None => {
                return Err(ParseError::InvalidOctet);
            },
        };
        let a3: u8 = match parse_bounded(&octets[3], 255) {
            Some(x) => x as u8,
            None => {
                return Err(ParseError::InvalidOctet);
            },
        };
        let p: u8 = match parse_bounded(&parts[1], 32) {
            Some(x) => x as u8,
            None => {
                return Err(ParseError::InvalidPrefixLength);
            },
        };
        Ok(Self::derive((a0, a1, a2, a3), p))
    }
}

/// A string is accepted exactly when it has the valid shape: one `/`
/// separator, an address part of four tokens each denoting an octet in
/// `[0, 255]`, and a prefix token denoting a length in `[0, 32]`.
pub open spec fn valid_cidr(s: Seq<char>) -> bool {
    let parts = split(s, '/');
    let octets = split(parts[0], '.');
    &&& parts.len() == 2
    &&& octets.len() == 4
    &&& octet_ok(octets[0])
    &&& octet_ok(octets[1])
    &&& octet_ok(octets[2])
    &&& octet_ok(octets[3])
    &&& prefix_ok(parts[1])
}

/// Parsing succeeds exactly on the valid strings; every other string is
/// rejected with an error and no record.
pub proof fn lemma_parse_ok_iff_valid(s: Seq<char>)
    ensures
        spec_parse(s) is Ok <==> valid_cidr(s),
{
}

/// Parsing is a pure function of the input characters: equal inputs give
/// equal outcomes, so parsing the same string twice yields identical
/// records.
pub proof fn lemma_parse_deterministic(s1: Seq<char>, s2: Seq<char>)
    requires
        s1 == s2,
    ensures
        spec_parse(s1) == spec_parse(s2),
{
}

/// The subnet mask is a prefix mask: reading the 32-bit mask's bits from
/// the most significant end, bit `j` is set exactly when `j < p`, so the
/// mask is `p` one-bits followed by `32 - p` zero-bits and no other
/// pattern.
pub proof fn lemma_mask_prefix_bits(p: u8, j: u32)
    requires
        p <= 32,
        j < 32,
    ensures
        ((mask_val(p) >> ((31 - j) as u32)) & 1 == 1) <==> j < p,
{
    assert(((mask_val(p) >> ((31 - j) as u32)) & 1 == 1) <==> j < p) by (bit_vector)
        requires
            p <= 32,
            j < 32,
    ;
}

/// The four octet fields of a derived record compose, as one 32-bit
/// value each, to the mask implied by the prefix, the bitwise AND of
/// address and mask, and the bitwise OR of network address and
/// complemented mask.
pub proof fn lemma_derived_quads(a: (u8, u8, u8, u8), p: u8)
    requires
        p <= 32,
    ensures
        quad_val(derived_record(a, p).subnet_mask) == mask_val(p),
        quad_val(derived_record(a, p).network_address) == quad_val(a) & mask_val(p),
        quad_val(derived_record(a, p).broadcast_address) == quad_val(
            derived_record(a, p).network_address,
        ) | !mask_val(p),
{
    let m = mask_val(p);
    let r = derived_record(a, p);
    let a0 = a.0;
    let a1 = a.1;
    let a2 = a.2;
    let a3 = a.3;
    let m0 = r.subnet_mask.0;
    let m1 = r.subnet_mask.1;
    let m2 = r.subnet_mask.2;
    let m3 = r.subnet_mask.3;
    let n0 = r.network_address.0;
    let n1 = r.network_address.1;
    let n2 = r.network_address.2;
    let n3 = r.network_address.3;
    let b0 = r.broadcast_address.0;
    let b1 = r.broadcast_address.1;
    let b2 = r.broadcast_address.2;
    let b3 = r.broadcast_address.3;
    assert(((m0 as u32) << 24u32) | ((m1 as u32) << 16u32) | ((m2 as u32) << 8u32) | (m3 as u32)
        == m) by (bit_vector)
        requires
            m0 == ((m >> 24u32) & 0xFFu32) as u8,
            m1 == ((m >> 16u32) & 0xFFu32) as u8,
            m2 == ((m >> 8u32) & 0xFFu32) as u8,
            m3 == (m & 0xFFu32) as u8,
    ;
    assert(((n0 as u32) << 24u32) | ((n1 as u32) << 16u32) | ((n2 as u32) << 8u32) | (n3 as u32)
        == ((((a0 as u32) << 24u32) | ((a1 as u32) << 16u32) | ((a2 as u32) << 8u32) | (
        a3 as u32)) & (((m0 as u32) << 24u32) | ((m1 as u32) << 16u32) | ((m2 as u32) << 8u32) | (
        m3 as u32)))) by (bit_vector)
        requires
            n0 == a0 & m0,
            n1 == a1 & m1,
            n2 == a2 & m2,
            n3 == a3 & m3,
    ;
    assert(((b0 as u32) << 24u32) | ((b1 as u32) << 16u32) | ((b2 as u32) << 8u32) | (b3 as u32)
        == ((((n0 as u32) << 24u32) | ((n1 as u32) << 16u32) | ((n2 as u32) << 8u32) | (
        n3 as u32)) | !(((m0 as u32) << 24u32) | ((m1 as u32) << 16u32) | ((m2 as u32) << 8u32) | (
        m3 as u32)))) by (bit_vector)
        requires
            b0 == n0 | !m0,
            b1 == n1 | !m1,
            b2 == n2 | !m2,
            b3 == n3 | !m3,
    ;
}

/// Read as 32-bit values, the derived addresses bracket the literal one:
/// network at or below address, address at or below broadcast, and the
/// broadcast address is the network address with every host bit set.
pub proof fn lemma_record_order(a: (u8, u8, u8, u8), p: u8)
    requires
        p <= 32,
    ensures
        quad_val(derived_record(a, p).network_address) <= quad_val(a),
        quad_val(a) <= quad_val(derived_record(a, p).broadcast_address),
        quad_val(derived_record(a, p).network_address) | (quad_val(
            derived_record(a, p).broadcast_address,
        ) ^ quad_val(derived_record(a, p).network_address)) == quad_val(
            derived_record(a, p).broadcast_address,
        ),
{
    lemma_derived_quads(a, p);
    let x = quad_val(a);
    let m = mask_val(p);
    assert((x & m) <= x && x <= ((x & m) | !m) && ((x & m) | (((x & m) | !m) ^ (x & m))) == ((x & m)
        | !m)) by (bit_vector);
}

/// Every successfully parsed record is well formed and satisfies the
/// derived-field ordering: network address at or below the literal
/// address at or below the broadcast address, as 32-bit values.
pub proof fn lemma_parse_ok_invariants(s: Seq<char>)
    requires
        spec_parse(s) is Ok,
    ensures
        (spec_parse(s)->Ok_0).wf(),
        quad_val((spec_parse(s)->Ok_0).network_address) <= quad_val((spec_parse(s)->Ok_0).address),
        quad_val((spec_parse(s)->Ok_0).address) <= quad_val(
            (spec_parse(s)->Ok_0).broadcast_address,
        ),
        quad_val((spec_parse(s)->Ok_0).network_address) | (quad_val(
            (spec_parse(s)->Ok_0).broadcast_address,
        ) ^ quad_val((spec_parse(s)->Ok_0).network_address)) == quad_val(
            (spec_parse(s)->Ok_0).broadcast_address,
        ),
{
    let r = spec_parse(s)->Ok_0;
    lemma_record_order(r.address, r.cidr_bits);
}

/// Boundary prefixes: a zero prefix gives the all-zero mask, and a full
/// 32-bit prefix gives the all-ones mask and makes the network and
/// broadcast addresses equal the literal address itself.
pub proof fn lemma_boundary_prefixes(a: (u8, u8, u8, u8))
    ensures
        derived_record(a, 0).subnet_mask == ((0u8, 0u8, 0u8, 0u8)),
        derived_record(a, 32).subnet_mask == ((255u8, 255u8, 255u8, 255u8)),
        derived_record(a, 32).network_address == a,
        derived_record(a, 32).broadcast_address == a,
{
    assert(((0u32 >> 24u32) & 0xFFu32) as u8 == 0u8 && ((0u32 >> 16u32) & 0xFFu32) as u8 == 0u8
        && ((0u32 >> 8u32) & 0xFFu32) as u8 == 0u8 && (0u32 & 0xFFu32) as u8 == 0u8) by (bit_vector);
    let mf = mask_val(32);
    assert(mf == 0xFFFFFFFFu32) by (bit_vector)
        requires
            mf == (!0u32) << 0u32,
    ;
    assert(((0xFFFFFFFFu32 >> 24u32) & 0xFFu32) as u8 == 255u8 && ((0xFFFFFFFFu32 >> 16u32)
        & 0xFFu32) as u8 == 255u8 && ((0xFFFFFFFFu32 >> 8u32) & 0xFFu32) as u8 == 255u8 && (
    0xFFFFFFFFu32 & 0xFFu32) as u8 == 255u8) by (bit_vector);
    let a0 = a.0;
    let a1 = a.1;
    let a2 = a.2;
    let a3 = a.3;
    assert((a0 & 255u8) == a0 && (a1 & 255u8) == a1 && (a2 & 255u8) == a2 && (a3 & 255u8) == a3
        && (a0 | !255u8) == a0 && (a1 | !255u8) == a1 && (a2 | !255u8) == a2 && (a3 | !255u8)
        == a3) by (bit_vector);
}

/// The dotted-decimal text of four octets.
pub open spec fn quad_str(q: (u8, u8, u8, u8)) -> Seq<char> {
    dec_str(q.0 as nat) + "."@ + dec_str(q.1 as nat) + "."@ + dec_str(q.2 as nat) + "."@ + dec_str(
        q.3 as nat,
    )
}

/// Appends the dotted-decimal text of `q` to `out`.
fn push_quad(out: &mut String, q: (u8, u8, u8, u8))
    ensures
        final(out)@ == old(out)@ + quad_str(q),
{
    push_decimal(out, q.0);
    out.append(".");
    push_decimal(out, q.1);
    out.append(".");
    push_decimal(out, q.2);
    out.append(".");
    push_decimal(out, q.3);
    proof {
        assert(out@ =~= old(out)@ + quad_str(q));
    }
}

/// The report text for a record: a host line in `a.b.c.d/p` form, then
/// the address, subnet mask, network address, and broadcast address,
/// each in dotted-decimal.
pub open spec fn spec_info(r: IPv4Address) -> Seq<char> {
    "=====================================\nHost: "@ + quad_str(r.address) + "/"@ + dec_str(
        r.cidr_bits as nat,
    ) + "\n=====================================\nIP Address: "@ + quad_str(r.address)
        + "\nSubnet Mask: "@ + quad_str(r.subnet_mask) + "\nNetwork Address: "@ + quad_str(
        r.network_address,
    ) + "\nBroadcast Address: "@ + quad_str(r.broadcast_address)
}

impl IPv4Address {
    /// Renders the human-readable report for this record.
    pub fn info(&self) -> (s: String)
        ensures
            s@ == spec_info(*self),
    {
        let mut out: String = "=====================================\nHost: ".to_owned();
        push_quad(&mut out, self.address);
        out.append("/");
        push_decimal(&mut out, self.cidr_bits);
        out.append("\n=====================================\nIP Address: ");
        push_quad(&mut out, self.address);
        out.append("\nSubnet Mask: ");
        push_quad(&mut out, self.subnet_mask);
        out.append("\nNetwork Address: ");
        push_quad(&mut out, self.network_address);
        out.append("\nBroadcast Address: ");
        push_quad(&mut out, self.broadcast_address);
        out
    }
}

impl core::str::FromStr for IPv4Address {
    type Err = ParseError;

    fn from_str(input: &str) -> Result<IPv4Address, ParseError> {
        IPv4Address::parse(input)
    }
}

} // verus!
