//! Internet addresses as plain values, and the textual forms in which a
//! rule may write them.

use vstd::prelude::*;
use vstd::slice::slice_subrange;

verus! {

/// The byte `.`, which parts the four numbers of a dotted quad.
pub const DOT: u8 = 46;

/// The byte `:`, which parts the groups of an IPv6 address.
pub const COLON: u8 = 58;

/// The place of the first `sep` in `s`, or the length of `s` where it holds
/// none.
pub open spec fn first_sep(s: Seq<u8>, sep: u8) -> nat
    decreases s.len(),
{
    if s.len() == 0 || s[0] == sep {
        0
    } else {
        1 + first_sep(s.skip(1), sep)
    }
}

/// The pieces into which every `sep` parts `s`, in order. There is one more
/// piece than there are separators; a piece may be empty.
pub open spec fn fields(s: Seq<u8>, sep: u8) -> Seq<Seq<u8>>
    decreases s.len(),
{
    let j = first_sep(s, sep);
    if j >= s.len() {
        seq![s]
    } else {
        seq![s.take(j as int)] + fields(s.skip(j as int + 1), sep)
    }
}

/// The place `j` is `first_sep` once no separator stands before it and one
/// stands at it, or it is the end.
proof fn lemma_first_sep_at(s: Seq<u8>, sep: u8, j: int)
    requires
        0 <= j <= s.len(),
        forall|k: int| 0 <= k < j ==> s[k] != sep,
        j < s.len() ==> s[j] == sep,
    ensures
        first_sep(s, sep) == j,
    decreases j,
{
    if j > 0 {
        lemma_first_sep_at(s.skip(1), sep, j - 1);
    }
}

/// The first separator of `b`, or its length.
fn find_sep(b: &[u8], sep: u8) -> (j: usize)
    ensures
        j == first_sep(b@, sep),
        j <= b@.len(),
{
    let mut j: usize = 0;
    while j < b.len() && b[j] != sep
        invariant
            j <= b@.len(),
            forall|k: int| 0 <= k < j ==> b@[k] != sep,
        decreases b@.len() - j,
    {
        j = j + 1;
    }
    proof {
        lemma_first_sep_at(b@, sep, j as int);
    }
    j
}

/// The views of a list of byte slices.
spec fn slice_views(v: Seq<&[u8]>) -> Seq<Seq<u8>> {
    Seq::new(v.len(), |i: int| v[i]@)
}

/// Parts `b` at every `sep`.
fn split<'a>(b: &'a [u8], sep: u8) -> (out: Vec<&'a [u8]>)
    ensures
        slice_views(out@) == fields(b@, sep),
{
    let mut out: Vec<&'a [u8]> = Vec::new();
    let mut start: usize = 0;
    assert(b@.skip(0) =~= b@);
    loop
        invariant_except_break
            start <= b@.len(),
            fields(b@, sep) == slice_views(out@) + fields(b@.skip(start as int), sep),
        ensures
            slice_views(out@) == fields(b@, sep),
        decreases b@.len() - start,
    {
        let rest = slice_subrange(b, start, b.len());
        let j = find_sep(rest, sep);
        if j >= rest.len() {
            out.push(rest);
            break ;
        }
        let piece = slice_subrange(rest, 0, j);
        out.push(piece);
        assert(rest@.skip(j as int + 1) =~= b@.skip(start + j + 1));
        start = start + j + 1;
    }
    out
}

/// Whether `b` is one of the bytes `0` to `9`.
pub open spec fn is_dec_digit(b: u8) -> bool {
    48 <= b <= 57
}

/// Whether `b` is a hexadecimal digit, in either case.
pub open spec fn is_hex_digit(b: u8) -> bool {
    48 <= b <= 57 || 65 <= b <= 70 || 97 <= b <= 102
}

/// The number that the hexadecimal digit `b` stands for.
pub open spec fn hex_digit_value(b: u8) -> nat {
    if b <= 57 {
        (b - 48) as nat
    } else if b <= 70 {
        (b - 55) as nat
    } else {
        (b - 87) as nat
    }
}

/// The number that the decimal digits `s` write; zero for no digits.
pub open spec fn dec_value(s: Seq<u8>) -> nat
    decreases s.len(),
{
    if s.len() == 0 {
        0
    } else {
        dec_value(s.drop_last()) * 10 + (s.last() - 48) as nat
    }
}

/// The number that the hexadecimal digits `s` write; zero for no digits.
pub open spec fn hex_value(s: Seq<u8>) -> nat
    decreases s.len(),
{
    if s.len() == 0 {
        0
    } else {
        hex_value(s.drop_last()) * 16 + hex_digit_value(s.last())
    }
}

/// One number of a dotted quad: one to three decimal digits, no leading
/// zero before another digit, and at most 255.
pub open spec fn is_octet(s: Seq<u8>) -> bool {
    &&& 1 <= s.len() <= 3
    &&& forall|i: int| 0 <= i < s.len() ==> is_dec_digit(#[trigger] s[i])
    &&& (s.len() > 1 ==> s[0] != 48)
    &&& dec_value(s) <= 255
}

/// One group of an IPv6 address: one to four hexadecimal digits.
pub open spec fn is_group(s: Seq<u8>) -> bool {
    &&& 1 <= s.len() <= 4
    &&& forall|i: int| 0 <= i < s.len() ==> is_hex_digit(#[trigger] s[i])
}

/// The four numbers of a dotted quad as one number of 32 bits, the first
/// number highest.
pub open spec fn quad_bits(a: nat, b: nat, c: nat, d: nat) -> nat {
    ((a * 256 + b) * 256 + c) * 256 + d
}

/// The IPv4 address that `s` writes: four octets parted by dots and nothing
/// else. `None` where `s` is no such text.
pub open spec fn ipv4_of(s: Seq<u8>) -> Option<u32> {
    let f = fields(s, DOT);
    if f.len() == 4 && is_octet(f[0]) && is_octet(f[1]) && is_octet(f[2]) && is_octet(f[3]) {
        Some(quad_bits(dec_value(f[0]), dec_value(f[1]), dec_value(f[2]), dec_value(f[3])) as u32)
    } else {
        None
    }
}

/// A decimal numeral of `n` digits is below the `n`-th power of ten, for
/// the lengths that an octet may have.
proof fn lemma_dec_value_bound(s: Seq<u8>)
    requires
        s.len() <= 3,
        forall|i: int| 0 <= i < s.len() ==> is_dec_digit(#[trigger] s[i]),
    ensures
        s.len() == 0 ==> dec_value(s) == 0,
        s.len() == 1 ==> dec_value(s) < 10,
        s.len() == 2 ==> dec_value(s) < 100,
        s.len() == 3 ==> dec_value(s) < 1000,
    decreases s.len(),
{
    if s.len() > 0 {
        lemma_dec_value_bound(s.drop_last());
    }
}

/// A hexadecimal numeral of at most four digits is below 65536.
proof fn lemma_hex_value_bound(s: Seq<u8>)
    requires
        s.len() <= 4,
        forall|i: int| 0 <= i < s.len() ==> is_hex_digit(#[trigger] s[i]),
    ensures
        s.len() == 0 ==> hex_value(s) == 0,
        s.len() == 1 ==> hex_value(s) < 16,
        s.len() == 2 ==> hex_value(s) < 256,
        s.len() == 3 ==> hex_value(s) < 4096,
        s.len() == 4 ==> hex_value(s) < 65536,
    decreases s.len(),
{
    if s.len() > 0 {
        lemma_hex_value_bound(s.drop_last());
    }
}

/// Reads one number of a dotted quad.
fn parse_octet(b: &[u8]) -> (r: Option<u8>)
    ensures
        r is Some <==> is_octet(b@),
        r matches Some(v) ==> v == dec_value(b@),
{
    let n = b.len();
    if n == 0 || n > 3 {
        return None;
    }
    if n > 1 && b[0] == 48 {
        return None;
    }
    let mut value: u32 = 0;
    let mut i: usize = 0;
    while i < n
        invariant
            i <= n,
            n == b@.len(),
            n <= 3,
            forall|k: int| 0 <= k < i ==> is_dec_digit(#[trigger] b@[k]),
            value == dec_value(b@.take(i as int)),
            value < 1000,
        decreases n - i,
    {
        let c = b[i];
        if c < 48 || c > 57 {
            return None;
        }
        proof {
            let next = b@.take(i as int + 1);
            assert(next.drop_last() =~= b@.take(i as int));
            lemma_dec_value_bound(next);
        }
        value = value * 10 + (c - 48) as u32;
        i = i + 1;
    }
    assert(b@.take(n as int) =~= b@);
    if value > 255 {
        return None;
    }
    Some(value as u8)
}

/// Reads one group of an IPv6 address.
fn parse_group(b: &[u8]) -> (r: Option<u16>)
    ensures
        r is Some <==> is_group(b@),
        r matches Some(v) ==> v == hex_value(b@),
{
    let n = b.len();
    if n == 0 || n > 4 {
        return None;
    }
    let mut value: u32 = 0;
    let mut i: usize = 0;
    while i < n
        invariant
            i <= n,
            n == b@.len(),
            n <= 4,
            forall|k: int| 0 <= k < i ==> is_hex_digit(#[trigger] b@[k]),
            value == hex_value(b@.take(i as int)),
            value < 65536,
        decreases n - i,
    {
        let c = b[i];
        let digit: u32 = if 48 <= c && c <= 57 {
            (c - 48) as u32
        } else if 65 <= c && c <= 70 {
            (c - 55) as u32
        } else if 97 <= c && c <= 102 {
            (c - 87) as u32
        } else {
            return None;
        };
        proof {
            let next = b@.take(i as int + 1);
            assert(next.drop_last() =~= b@.take(i as int));
            lemma_hex_value_bound(next);
        }
        value = value * 16 + digit;
        i = i + 1;
    }
    assert(b@.take(n as int) =~= b@);
    Some(value as u16)
}

/// Reads a dotted quad.
fn parse_ipv4(b: &[u8]) -> (r: Option<u32>)
    ensures
        r == ipv4_of(b@),
{
    let parts = split(b, DOT);
    if parts.len() != 4 {
        return None;
    }
    let a = match parse_octet(parts[0]) {
        Some(v) => v,
        None => { return None; },
    };
    let b1 = match parse_octet(parts[1]) {
        Some(v) => v,
        None => { return None; },
    };
    let c = match parse_octet(parts[2]) {
        Some(v) => v,
        None => { return None; },
    };
    let d = match parse_octet(parts[3]) {
        Some(v) => v,
        None => { return None; },
    };
    Some(((a as u32 * 256 + b1 as u32) * 256 + c as u32) * 256 + d as u32)
}

/// Whether `::` stands at place `k` of `s`.
pub open spec fn gap_at(s: Seq<u8>, k: int) -> bool {
    0 <= k && k + 1 < s.len() && s[k] == COLON && s[k + 1] == COLON
}

/// Where `::` first stands in `s`, or the length of `s` where it holds none.
pub open spec fn first_gap(s: Seq<u8>) -> nat
    decreases s.len(),
{
    if s.len() < 2 {
        s.len()
    } else if s[0] == COLON && s[1] == COLON {
        0
    } else {
        1 + first_gap(s.skip(1))
    }
}

/// The place `j` is `first_gap` once no `::` starts before it and one
/// starts at it, or it is the end.
proof fn lemma_first_gap_at(s: Seq<u8>, j: int)
    requires
        0 <= j <= s.len(),
        forall|k: int| 0 <= k < j ==> !gap_at(s, k),
        j == s.len() || gap_at(s, j),
    ensures
        first_gap(s) == j,
    decreases j,
{
    if s.len() >= 2 && j > 0 {
        let rest = s.skip(1);
        assert(!gap_at(s, 0));
        assert forall|k: int| 0 <= k < j - 1 implies !gap_at(rest, k) by {
            assert(!gap_at(s, k + 1));
        }
        lemma_first_gap_at(rest, j - 1);
    }
}

/// The pieces of a run of groups: none for empty text, else its parts
/// between colons.
pub open spec fn group_list(s: Seq<u8>) -> Seq<Seq<u8>> {
    if s.len() == 0 {
        Seq::empty()
    } else {
        fields(s, COLON)
    }
}

/// Whether every piece is a group; where `quad_last` holds, the last piece
/// may be a dotted quad instead.
pub open spec fn is_segment_list(f: Seq<Seq<u8>>, quad_last: bool) -> bool {
    forall|i: int|
        0 <= i < f.len() ==> is_group(#[trigger] f[i]) || (quad_last && i == f.len() - 1 && ipv4_of(
            f[i],
        ) is Some)
}

/// The numbers of the pieces, each read as a group.
pub open spec fn group_values(f: Seq<Seq<u8>>) -> Seq<u16> {
    Seq::new(f.len(), |i: int| hex_value(f[i]) as u16)
}

/// The two groups that a dotted quad stands for: its high and its low half.
pub open spec fn quad_segments(q: u32) -> Seq<u16> {
    seq![(q / 65536) as u16, (q % 65536) as u16]
}

/// The numbers of a list of pieces: one for each group, and two for a last
/// piece that is no group but a dotted quad.
pub open spec fn segment_values(f: Seq<Seq<u8>>) -> Seq<u16> {
    if f.len() > 0 && !is_group(f.last()) {
        group_values(f.drop_last()) + quad_segments(ipv4_of(f.last()).unwrap())
    } else {
        group_values(f)
    }
}

/// `n` groups of zero.
pub open spec fn zero_segments(n: nat) -> Seq<u16> {
    Seq::new(n, |i: int| 0u16)
}

/// The eight groups of the IPv6 address that `s` writes, or `None` where
/// `s` is no such text.
///
/// Without `::` the text is eight groups parted by colons, or six and a
/// dotted quad. With `::` it is parted at the first one: groups before it,
/// groups after it of which the last may be a dotted quad, seven at most in
/// all, and zeros in between to make eight.
pub open spec fn ipv6_segments(s: Seq<u8>) -> Option<Seq<u16>> {
    let g = first_gap(s);
    if g >= s.len() {
        let f = fields(s, COLON);
        if is_segment_list(f, true) && segment_values(f).len() == 8 {
            Some(segment_values(f))
        } else {
            None
        }
    } else {
        let head = group_list(s.take(g as int));
        let tail = group_list(s.skip(g as int + 2));
        if is_segment_list(head, false) && is_segment_list(tail, true) && head.len()
            + segment_values(tail).len() <= 7 {
            Some(
                group_values(head) + zero_segments(
                    (8 - head.len() - segment_values(tail).len()) as nat,
                ) + segment_values(tail),
            )
        } else {
            None
        }
    }
}

/// Four groups as one number of 64 bits, the first group highest.
pub open spec fn half_bits(a: u16, b: u16, c: u16, d: u16) -> nat {
    (((a as nat * 65536 + b as nat) * 65536 + c as nat) * 65536 + d as nat) as nat
}

/// Eight groups as one number of 128 bits, the first group highest.
pub open spec fn segments_bits(v: Seq<u16>) -> nat {
    half_bits(v[0], v[1], v[2], v[3]) * 0x1_0000_0000_0000_0000 + half_bits(v[4], v[5], v[6], v[7])
}

/// The IPv6 address that `s` writes, as a number of 128 bits.
pub open spec fn ipv6_of(s: Seq<u8>) -> Option<u128> {
    match ipv6_segments(s) {
        Some(v) => Some(segments_bits(v) as u128),
        None => None,
    }
}

/// Where `::` first stands in `b`, or its length.
fn find_gap(b: &[u8]) -> (j: usize)
    ensures
        j == first_gap(b@),
        j == b@.len() || j + 1 < b@.len(),
{
    let n = b.len();
    let mut j: usize = 0;
    while j < n
        invariant
            j <= n,
            n == b@.len(),
            forall|k: int| 0 <= k < j ==> !gap_at(b@, k),
        decreases n - j,
    {
        if j + 1 < n && b[j] == COLON && b[j + 1] == COLON {
            proof {
                lemma_first_gap_at(b@, j as int);
            }
            return j;
        }
        j = j + 1;
    }
    proof {
        lemma_first_gap_at(b@, n as int);
    }
    n
}

/// Reads a list of pieces as groups; the last may be a dotted quad where
/// `quad_last` holds.
fn parse_segments(parts: &Vec<&[u8]>, quad_last: bool) -> (r: Option<Vec<u16>>)
    ensures
        r is Some <==> is_segment_list(slice_views(parts@), quad_last),
        r matches Some(v) ==> v@ == segment_values(slice_views(parts@)),
{
    let ghost f = slice_views(parts@);
    let n = parts.len();
    let mut out: Vec<u16> = Vec::new();
    let mut i: usize = 0;
    while i < n
        invariant
            i <= n,
            n == parts@.len(),
            f == slice_views(parts@),
            forall|k: int| 0 <= k < i ==> is_group(#[trigger] f[k]),
            out@ == group_values(f.take(i as int)),
        decreases n - i,
    {
        assert(f[i as int] == parts@[i as int]@);
        match parse_group(parts[i]) {
            Some(g) => {
                out.push(g);
            },
            None => {
                if !(quad_last && i + 1 == n) {
                    return None;
                }
                match parse_ipv4(parts[i]) {
                    Some(q) => {
                        out.push((q / 65536) as u16);
                        out.push((q % 65536) as u16);
                        return Some(out);
                    },
                    None => {
                        return None;
                    },
                }
            },
        }
        i = i + 1;
    }
    Some(out)
}

/// Eight groups as one number.
fn join_segments(v: &Vec<u16>) -> (bits: u128)
    requires
        v@.len() == 8,
    ensures
        bits == segments_bits(v@),
{
    let hi: u64 = ((v[0] as u64 * 65536 + v[1] as u64) * 65536 + v[2] as u64) * 65536
        + v[3] as u64;
    let lo: u64 = ((v[4] as u64 * 65536 + v[5] as u64) * 65536 + v[6] as u64) * 65536
        + v[7] as u64;
    hi as u128 * 0x1_0000_0000_0000_0000u128 + lo as u128
}

/// Parts a run of groups at its colons.
fn split_groups<'a>(b: &'a [u8]) -> (out: Vec<&'a [u8]>)
    ensures
        slice_views(out@) == group_list(b@),
{
    if b.len() == 0 {
        let out: Vec<&'a [u8]> = Vec::new();
        out
    } else {
        split(b, COLON)
    }
}

/// Reads an IPv6 address.
fn parse_ipv6(b: &[u8]) -> (r: Option<u128>)
    ensures
        r == ipv6_of(b@),
{
    let n = b.len();
    let g = find_gap(b);
    if g >= n {
        let parts = split(b, COLON);
        match parse_segments(&parts, true) {
            Some(v) => {
                if v.len() != 8 {
                    return None;
                }
                Some(join_segments(&v))
            },
            None => None,
        }
    } else {
        let head_parts = split_groups(slice_subrange(b, 0, g));
        let tail_parts = split_groups(slice_subrange(b, g + 2, n));
        assert(b@.subrange(0, g as int) =~= b@.take(g as int));
        assert(b@.subrange(g + 2, n as int) =~= b@.skip(g as int + 2));
        let ghost head = group_list(b@.take(g as int));
        let mut segments = match parse_segments(&head_parts, false) {
            Some(v) => v,
            None => { return None; },
        };
        let back = match parse_segments(&tail_parts, true) {
            Some(v) => v,
            None => { return None; },
        };
        assert(segments@ =~= group_values(head));
        if segments.len() > 7 || back.len() > 7 - segments.len() {
            return None;
        }
        let zeros: usize = 8 - segments.len() - back.len();
        let mut k: usize = 0;
        while k < zeros
            invariant
                k <= zeros,
                segments@ == group_values(head) + zero_segments(k as nat),
            decreases zeros - k,
        {
            segments.push(0);
            assert(segments@ =~= group_values(head) + zero_segments((k + 1) as nat));
            k = k + 1;
        }
        let mut t: usize = 0;
        while t < back.len()
            invariant
                t <= back@.len(),
                segments@ == group_values(head) + zero_segments(zeros as nat) + back@.take(
                    t as int,
                ),
            decreases back@.len() - t,
        {
            segments.push(back[t]);
            assert(segments@ =~= group_values(head) + zero_segments(zeros as nat) + back@.take(
                t as int + 1,
            ));
            t = t + 1;
        }
        assert(back@.take(back@.len() as int) =~= back@);
        Some(join_segments(&segments))
    }
}

/// An internet address: the 32 bits of an IPv4 address or the 128 bits of
/// an IPv6 address, the first byte highest.
#[derive(Debug, Clone, Copy, PartialEq, Eq, Hash, Structural)]
pub enum IpAddress {
    V4(u32),
    V6(u128),
}

/// The address that the bytes `s` write: a dotted quad, or else an IPv6
/// text. `None` where they are neither.
pub open spec fn ip_of(s: Seq<u8>) -> Option<IpAddress> {
    match ipv4_of(s) {
        Some(bits) => Some(IpAddress::V4(bits)),
        None => match ipv6_of(s) {
            Some(bits) => Some(IpAddress::V6(bits)),
            None => None,
        },
    }
}

/// The address that a text writes, read from its bytes in UTF-8.
pub open spec fn ip_of_text(text: Seq<char>) -> Option<IpAddress> {
    ip_of(vstd::utf8::encode_utf8(text))
}

/// Reads an internet address from the bytes of its text.
pub fn parse_ip_bytes(b: &[u8]) -> (r: Option<IpAddress>)
    ensures
        r == ip_of(b@),
{
    match parse_ipv4(b) {
        Some(bits) => Some(IpAddress::V4(bits)),
        None => match parse_ipv6(b) {
            Some(bits) => Some(IpAddress::V6(bits)),
            None => None,
        },
    }
}

/// Reads an internet address from its text.
pub fn parse_ip(text: &str) -> (r: Option<IpAddress>)
    ensures
        r == ip_of_text(text@),
{
    parse_ip_bytes(text.as_bytes())
}

/// An endpoint: an internet address and a port. An IPv6 endpoint also
/// carries a flow label and a scope, both zero unless the network gave
/// others.
#[derive(Debug, Clone, Copy, PartialEq, Eq, Hash, Structural)]
pub enum SocketAddress {
    V4 { ip: u32, port: u16 },
    V6 { ip: u128, port: u16, flowinfo: u32, scope_id: u32 },
}

impl SocketAddress {
    /// The endpoint of an address and a port, with no flow label and no
    /// scope.
    pub open spec fn of(ip: IpAddress, port: u16) -> SocketAddress {
        match ip {
            IpAddress::V4(bits) => SocketAddress::V4 { ip: bits, port },
            IpAddress::V6(bits) => SocketAddress::V6 { ip: bits, port, flowinfo: 0, scope_id: 0 },
        }
    }

    /// The address of the endpoint.
    pub open spec fn spec_ip(self) -> IpAddress {
        match self {
            SocketAddress::V4 { ip, .. } => IpAddress::V4(ip),
            SocketAddress::V6 { ip, .. } => IpAddress::V6(ip),
        }
    }

    /// The port of the endpoint.
    pub open spec fn spec_port(self) -> u16 {
        match self {
            SocketAddress::V4 { port, .. } => port,
            SocketAddress::V6 { port, .. } => port,
        }
    }

    /// Makes the endpoint of an address and a port.
    pub fn new(ip: IpAddress, port: u16) -> (addr: SocketAddress)
        ensures
            addr == Self::of(ip, port),
            addr.spec_ip() == ip,
            addr.spec_port() == port,
    {
        match ip {
            IpAddress::V4(bits) => SocketAddress::V4 { ip: bits, port },
            IpAddress::V6(bits) => SocketAddress::V6 { ip: bits, port, flowinfo: 0, scope_id: 0 },
        }
    }

    /// The address of the endpoint.
    pub fn ip(&self) -> (ip: IpAddress)
        ensures
            ip == self.spec_ip(),
    {
        match *self {
            SocketAddress::V4 { ip, .. } => IpAddress::V4(ip),
            SocketAddress::V6 { ip, .. } => IpAddress::V6(ip),
        }
    }

    /// The port of the endpoint.
    pub fn port(&self) -> (port: u16)
        ensures
            port == self.spec_port(),
    {
        match *self {
            SocketAddress::V4 { port, .. } => port,
            SocketAddress::V6 { port, .. } => port,
        }
    }
}

} // verus!
