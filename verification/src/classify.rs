//! The address classifier.
//!
//! A probe target arrives as text. Before any socket work the text must be
//! classified into its protocol family: a syntactically valid IPv4 address,
//! a syntactically valid IPv6 address, or malformed input, which is rejected
//! and never probed.
//!
//! The grammar is stated over the text split at separator characters. An
//! IPv4 address is four decimal octet texts joined by `.`; an IPv6 address
//! is hexadecimal groups joined by `:`, with at most one `::` standing for a
//! run of zero groups, and optionally a trailing embedded IPv4 address in
//! place of the last two groups.

use vstd::prelude::*;
use vstd::string::StrSliceExecFns;

verus! {

/// The protocol family of a classified address.
#[derive(Debug, Clone, Copy, PartialEq, Eq, Structural)]
pub enum AddressFamily {
    V4,
    V6,
}

/// A parsed IPv4 address: four octets, most significant first.
#[derive(Debug, Clone, Copy, PartialEq, Eq)]
pub struct Ipv4Address {
    pub octets: [u8; 4],
}

/// A parsed IPv6 address: eight 16-bit groups, most significant first.
#[derive(Debug, Clone, Copy, PartialEq, Eq)]
pub struct Ipv6Address {
    pub segments: [u16; 8],
}

/// A parsed address of either family.
#[derive(Debug, Clone, Copy, PartialEq, Eq)]
pub enum IpAddress {
    V4(Ipv4Address),
    V6(Ipv6Address),
}

/// The error for text that is neither a valid IPv4 nor a valid IPv6
/// address. Malformed input cannot become valid, so the caller drops the
/// record rather than retry.
#[derive(Debug, Clone, Copy, PartialEq, Eq, Structural)]
pub struct ParseError;

impl IpAddress {
    /// The family of the parsed address.
    pub fn family(&self) -> (f: AddressFamily)
        ensures
            f is V4 <==> self is V4,
            f is V6 <==> self is V6,
    {
        match self {
            IpAddress::V4(_) => AddressFamily::V4,
            IpAddress::V6(_) => AddressFamily::V6,
        }
    }
}

// ---------------------------------------------------------------------------
// Characters
// ---------------------------------------------------------------------------
/// A decimal digit `0` to `9`.
pub open spec fn is_dec_digit(c: char) -> bool {
    '0' as u32 <= c as u32 <= '9' as u32
}

/// Numeric value of a decimal digit.
pub open spec fn dec_value(c: char) -> int {
    c as u32 - '0' as u32
}

/// A hexadecimal digit, either case.
pub open spec fn is_hex_digit(c: char) -> bool {
    is_dec_digit(c) || 'a' as u32 <= c as u32 <= 'f' as u32 || 'A' as u32 <= c as u32 <= 'F' as u32
}

/// Numeric value of a hexadecimal digit.
pub open spec fn hex_value(c: char) -> int {
    if is_dec_digit(c) {
        dec_value(c)
    } else if 'a' as u32 <= c as u32 <= 'f' as u32 {
        c as u32 - 'a' as u32 + 10
    } else {
        c as u32 - 'A' as u32 + 10
    }
}

/// Every character of `s` is a decimal digit.
pub open spec fn all_dec_digits(s: Seq<char>) -> bool {
    forall|i: int| 0 <= i < s.len() ==> is_dec_digit(#[trigger] s[i])
}

/// Every character of `s` is a hexadecimal digit.
pub open spec fn all_hex_digits(s: Seq<char>) -> bool {
    forall|i: int| 0 <= i < s.len() ==> is_hex_digit(#[trigger] s[i])
}

/// The number denoted by a decimal digit string (most significant first).
pub open spec fn dec_value_of(s: Seq<char>) -> int
    decreases s.len(),
{
    if s.len() == 0 {
        0
    } else {
        dec_value_of(s.drop_last()) * 10 + dec_value(s.last())
    }
}

/// The number denoted by a hexadecimal digit string (most significant first).
pub open spec fn hex_value_of(s: Seq<char>) -> int
    decreases s.len(),
{
    if s.len() == 0 {
        0
    } else {
        hex_value_of(s.drop_last()) * 16 + hex_value(s.last())
    }
}

// ---------------------------------------------------------------------------
// Splitting at a separator
// ---------------------------------------------------------------------------
/// The pieces of `s` between occurrences of `sep`: every occurrence
/// separates two pieces, so `n` occurrences yield `n + 1` pieces, empty
/// pieces included. The empty text yields one empty piece.
pub open spec fn split_on(s: Seq<char>, sep: char) -> Seq<Seq<char>>
    decreases s.len(),
{
    if s.len() == 0 {
        seq![Seq::<char>::empty()]
    } else if s[0] == sep {
        seq![Seq::<char>::empty()] + split_on(s.skip(1), sep)
    } else {
        let rest = split_on(s.skip(1), sep);
        seq![seq![s[0]] + rest[0]] + rest.skip(1)
    }
}

/// Splitting yields at least one piece.
pub proof fn lemma_split_on_nonempty(s: Seq<char>, sep: char)
    ensures
        split_on(s, sep).len() >= 1,
    decreases s.len(),
{
    if s.len() > 0 {
        lemma_split_on_nonempty(s.skip(1), sep);
    }
}

/// The views of a vector of character vectors, piece by piece.
pub open spec fn piece_views(ps: Seq<Vec<char>>) -> Seq<Seq<char>> {
    ps.map_values(|p: Vec<char>| p@)
}

/// `ps` with `pre` prepended to its first piece.
spec fn shift_first(pre: Seq<char>, ps: Seq<Seq<char>>) -> Seq<Seq<char>> {
    seq![pre + ps[0]] + ps.skip(1)
}

/// Split `cs` at every occurrence of `sep`.
pub fn split_chars(cs: &Vec<char>, sep: char) -> (pieces: Vec<Vec<char>>)
    ensures
        piece_views(pieces@) == split_on(cs@, sep),
{
    let mut pieces: Vec<Vec<char>> = Vec::new();
    let mut cur: Vec<char> = Vec::new();
    let n = cs.len();
    let mut j: usize = 0;
    proof {
        lemma_split_on_nonempty(cs@, sep);
        assert(cs@.skip(0) =~= cs@);
        assert(piece_views(pieces@) =~~= Seq::<Seq<char>>::empty());
        assert(shift_first(cur@, split_on(cs@, sep)) =~~= split_on(cs@, sep));
    }
    while j < n
        invariant
            j <= n,
            n == cs@.len(),
            split_on(cs@, sep) == piece_views(pieces@) + shift_first(
                cur@,
                split_on(cs@.skip(j as int), sep),
            ),
        decreases n - j,
    {
        proof {
            let pre = cs@.skip(j as int);
            assert(pre.len() > 0);
            assert(pre[0] == cs@[j as int]);
            assert(pre.skip(1) =~= cs@.skip(j as int + 1));
            lemma_split_on_nonempty(cs@.skip(j as int + 1), sep);
        }
        let c = cs[j];
        if c == sep {
            let ghost rest = split_on(cs@.skip(j as int + 1), sep);
            let ghost old_pieces = pieces@;
            let ghost old_cur = cur@;
            let done = cur;
            cur = Vec::new();
            pieces.push(done);
            proof {
                assert(split_on(cs@.skip(j as int), sep) == seq![Seq::<char>::empty()] + rest);
                assert(shift_first(old_cur, seq![Seq::<char>::empty()] + rest) =~~= seq![old_cur]
                    + rest);
                assert(piece_views(pieces@) =~~= piece_views(old_pieces) + seq![old_cur]);
                assert(shift_first(cur@, rest) =~~= rest);
                assert(piece_views(pieces@) + shift_first(cur@, rest) =~~= piece_views(old_pieces)
                    + (seq![old_cur] + rest));
            }
        } else {
            let ghost rest = split_on(cs@.skip(j as int + 1), sep);
            let ghost old_cur = cur@;
            cur.push(c);
            proof {
                assert(split_on(cs@.skip(j as int), sep) == seq![seq![c] + rest[0]] + rest.skip(1));
                assert(shift_first(old_cur, seq![seq![c] + rest[0]] + rest.skip(1))
                    =~~= seq![old_cur + (seq![c] + rest[0])] + rest.skip(1));
                assert(old_cur + (seq![c] + rest[0]) =~= old_cur.push(c) + rest[0]);
                assert(shift_first(cur@, rest) =~~= seq![old_cur.push(c) + rest[0]] + rest.skip(1));
            }
        }
        j = j + 1;
    }
    proof {
        assert(cs@.skip(n as int) =~= Seq::<char>::empty());
        assert(split_on(cs@.skip(n as int), sep) == seq![Seq::<char>::empty()]);
        assert(shift_first(cur@, seq![Seq::<char>::empty()]) =~~= seq![cur@]);
    }
    let ghost old_pieces = pieces@;
    let ghost last_cur = cur@;
    pieces.push(cur);
    proof {
        assert(piece_views(pieces@) =~~= piece_views(old_pieces) + seq![last_cur]);
    }
    pieces
}

// ---------------------------------------------------------------------------
// IPv4 texts
// ---------------------------------------------------------------------------
/// A decimal octet text: one to three digits, no leading zero, value at most
/// 255.
pub open spec fn is_octet_text(s: Seq<char>) -> bool {
    &&& 1 <= s.len() <= 3
    &&& all_dec_digits(s)
    &&& (s.len() > 1 ==> s[0] != '0')
    &&& dec_value_of(s) <= 255
}

/// A syntactically valid IPv4 address: four octet texts joined by `.`.
pub open spec fn is_ipv4_text(s: Seq<char>) -> bool {
    let ps = split_on(s, '.');
    ps.len() == 4 && (forall|i: int| 0 <= i < 4 ==> is_octet_text(#[trigger] ps[i]))
}

/// The four octets denoted by a valid IPv4 address text.
pub open spec fn ipv4_octets(s: Seq<char>) -> Seq<u8> {
    split_on(s, '.').map_values(|p: Seq<char>| dec_value_of(p) as u8)
}

/// Parse one decimal octet text.
fn parse_octet(p: &Vec<char>) -> (r: Option<u8>)
    ensures
        r is Some <==> is_octet_text(p@),
        r is Some ==> r->0 == dec_value_of(p@),
{
    let len = p.len();
    if len < 1 || len > 3 {
        return None;
    }
    if len > 1 && p[0] == '0' {
        return None;
    }
    let mut v: u32 = 0;
    let mut j: usize = 0;
    while j < len
        invariant
            j <= len,
            len == p@.len(),
            1 <= len <= 3,
            all_dec_digits(p@.take(j as int)),
            v == dec_value_of(p@.take(j as int)),
            v < 1000,
            j <= 2 ==> v < 100,
            j <= 1 ==> v < 10,
        decreases len - j,
    {
        let u = p[j] as u32;
        if u < '0' as u32 || u > '9' as u32 {
            proof {
                assert(!is_dec_digit(p@[j as int]));
            }
            return None;
        }
        proof {
            assert(p@.take(j as int + 1).drop_last() =~= p@.take(j as int));
            assert(p@.take(j as int + 1).last() == p@[j as int]);
        }
        v = v * 10 + (u - '0' as u32);
        j = j + 1;
    }
    proof {
        assert(p@.take(len as int) =~= p@);
    }
    if v > 255 {
        return None;
    }
    Some(v as u8)
}

/// Parse an IPv4 address text into its four octets.
pub fn parse_ipv4(cs: &Vec<char>) -> (r: Option<[u8; 4]>)
    ensures
        r is Some <==> is_ipv4_text(cs@),
        r is Some ==> r->0@ == ipv4_octets(cs@),
{
    let pieces = split_chars(cs, '.');
    let ghost ps = split_on(cs@, '.');
    if pieces.len() != 4 {
        return None;
    }
    let o0 = parse_octet(&pieces[0]);
    let o1 = parse_octet(&pieces[1]);
    let o2 = parse_octet(&pieces[2]);
    let o3 = parse_octet(&pieces[3]);
    match (o0, o1, o2, o3) {
        (Some(a), Some(b), Some(c), Some(d)) => {
            let r = [a, b, c, d];
            proof {
                assert(is_ipv4_text(cs@)) by {
                    assert(forall|i: int| 0 <= i < 4 ==> is_octet_text(#[trigger] ps[i])) by {
                        assert(ps[0] == pieces@[0]@);
                        assert(ps[1] == pieces@[1]@);
                        assert(ps[2] == pieces@[2]@);
                        assert(ps[3] == pieces@[3]@);
                    }
                }
                assert(r@ =~= ipv4_octets(cs@));
            }
            Some(r)
        },
        _ => {
            proof {
                if o0 is None {
                    assert(!is_octet_text(ps[0]));
                } else if o1 is None {
                    assert(!is_octet_text(ps[1]));
                } else if o2 is None {
                    assert(!is_octet_text(ps[2]));
                } else {
                    assert(!is_octet_text(ps[3]));
                }
            }
            None
        },
    }
}

// ---------------------------------------------------------------------------
// IPv6 texts
// ---------------------------------------------------------------------------
/// A hexadecimal group text: one to four hexadecimal digits.
pub open spec fn is_hex_group(s: Seq<char>) -> bool {
    1 <= s.len() <= 4 && all_hex_digits(s)
}

/// Every piece is a hexadecimal group text.
pub open spec fn all_hex_groups(ps: Seq<Seq<char>>) -> bool {
    forall|i: int| 0 <= i < ps.len() ==> is_hex_group(#[trigger] ps[i])
}

/// Every piece is nonempty.
pub open spec fn all_nonempty(ps: Seq<Seq<char>>) -> bool {
    forall|i: int| 0 <= i < ps.len() ==> (#[trigger] ps[i]).len() > 0
}

/// A run of pieces that may close an address: hexadecimal groups, where the
/// last piece may instead be an embedded IPv4 address standing for the final
/// two groups.
pub open spec fn is_group_run(ps: Seq<Seq<char>>) -> bool {
    ps.len() == 0 || (all_hex_groups(ps.drop_last()) && (is_hex_group(ps.last()) || is_ipv4_text(
        ps.last(),
    )))
}

/// How many 16-bit groups a run of pieces stands for: one per piece, two for
/// a trailing embedded IPv4 address.
pub open spec fn run_group_count(ps: Seq<Seq<char>>) -> int {
    if ps.len() >= 1 && !is_hex_group(ps.last()) && is_ipv4_text(ps.last()) {
        ps.len() + 1 as int
    } else {
        ps.len() as int
    }
}

/// The 16-bit groups denoted by hexadecimal group pieces.
pub open spec fn hex_groups(ps: Seq<Seq<char>>) -> Seq<u16> {
    ps.map_values(|p: Seq<char>| hex_value_of(p) as u16)
}

/// The two 16-bit groups denoted by an embedded IPv4 address.
pub open spec fn ipv4_pair_groups(p: Seq<char>) -> Seq<u16> {
    let o = ipv4_octets(p);
    seq![(o[0] * 256 + o[1]) as u16, (o[2] * 256 + o[3]) as u16]
}

/// The 16-bit groups denoted by a run of pieces.
pub open spec fn run_groups(ps: Seq<Seq<char>>) -> Seq<u16> {
    if ps.len() >= 1 && !is_hex_group(ps.last()) && is_ipv4_text(ps.last()) {
        hex_groups(ps.drop_last()) + ipv4_pair_groups(ps.last())
    } else {
        hex_groups(ps)
    }
}

/// `k` zero groups.
pub open spec fn zero_groups(k: int) -> Seq<u16> {
    Seq::new(k as nat, |i: int| 0u16)
}

/// Piece `i` is the single empty piece, standing for a `::` with pieces on
/// both sides of it.
pub open spec fn is_mid_gap(ps: Seq<Seq<char>>, i: int) -> bool {
    &&& 1 <= i <= ps.len() - 2
    &&& ps[i].len() == 0
    &&& forall|j: int| 0 <= j < ps.len() && j != i ==> (#[trigger] ps[j]).len() > 0
}

/// The eight 16-bit groups denoted by the pieces of an IPv6 address text at
/// its `:` separators, or `None` when the pieces do not form one. The forms,
/// in order: no empty piece and exactly eight groups; `::` alone; `::tail`;
/// `head::`; `head::tail`. A `::` always stands for at least one zero group,
/// and only the closing run may end in an embedded IPv4 address.
pub open spec fn ipv6_pieces_groups(ps: Seq<Seq<char>>) -> Option<Seq<u16>> {
    let n = ps.len() as int;
    if all_nonempty(ps) {
        if is_group_run(ps) && run_group_count(ps) == 8 {
            Some(run_groups(ps))
        } else {
            None
        }
    } else if n == 3 && ps[0].len() == 0 && ps[1].len() == 0 && ps[2].len() == 0 {
        Some(zero_groups(8))
    } else if n >= 3 && ps[0].len() == 0 && ps[1].len() == 0 && all_nonempty(ps.skip(2)) {
        let tail = ps.skip(2);
        if is_group_run(tail) && run_group_count(tail) <= 7 {
            Some(zero_groups(8 - run_group_count(tail)) + run_groups(tail))
        } else {
            None
        }
    } else if n >= 3 && ps[n - 1].len() == 0 && ps[n - 2].len() == 0 && all_nonempty(
        ps.take(n - 2),
    ) {
        let head = ps.take(n - 2);
        if all_hex_groups(head) && head.len() <= 7 {
            Some(hex_groups(head) + zero_groups(8 - head.len()))
        } else {
            None
        }
    } else if exists|i: int| is_mid_gap(ps, i) {
        let i = choose|i: int| is_mid_gap(ps, i);
        let head = ps.take(i);
        let tail = ps.skip(i + 1);
        if all_hex_groups(head) && is_group_run(tail) && i + run_group_count(tail) <= 7 {
            Some(
                hex_groups(head) + zero_groups(8 - i - run_group_count(tail)) + run_groups(tail),
            )
        } else {
            None
        }
    } else {
        None
    }
}

/// A syntactically valid IPv6 address text.
pub open spec fn is_ipv6_text(s: Seq<char>) -> bool {
    ipv6_pieces_groups(split_on(s, ':')) is Some
}

/// The eight 16-bit groups denoted by a valid IPv6 address text.
pub open spec fn ipv6_groups(s: Seq<char>) -> Seq<u16> {
    ipv6_pieces_groups(split_on(s, ':'))->0
}

/// Parse one hexadecimal group text.
fn parse_hex_group(p: &Vec<char>) -> (r: Option<u16>)
    ensures
        r is Some <==> is_hex_group(p@),
        r is Some ==> r->0 == hex_value_of(p@),
{
    let len = p.len();
    if len < 1 || len > 4 {
        return None;
    }
    let mut v: u32 = 0;
    let mut j: usize = 0;
    while j < len
        invariant
            j <= len,
            len == p@.len(),
            1 <= len <= 4,
            all_hex_digits(p@.take(j as int)),
            v == hex_value_of(p@.take(j as int)),
            v < 0x10000,
            j <= 3 ==> v < 0x1000,
            j <= 2 ==> v < 0x100,
            j <= 1 ==> v < 0x10,
        decreases len - j,
    {
        let u = p[j] as u32;
        let d: u32 = if u >= '0' as u32 && u <= '9' as u32 {
            u - '0' as u32
        } else if u >= 'a' as u32 && u <= 'f' as u32 {
            u - 'a' as u32 + 10
        } else if u >= 'A' as u32 && u <= 'F' as u32 {
            u - 'A' as u32 + 10
        } else {
            proof {
                assert(!is_hex_digit(p@[j as int]));
            }
            return None;
        };
        proof {
            assert(p@.take(j as int + 1).drop_last() =~= p@.take(j as int));
            assert(p@.take(j as int + 1).last() == p@[j as int]);
            assert(d == hex_value(p@[j as int]));
        }
        v = v * 16 + d;
        j = j + 1;
    }
    proof {
        assert(p@.take(len as int) =~= p@);
    }
    Some(v as u16)
}

/// Index of the first empty piece in `pieces[from..to]`, if any.
fn first_empty(pieces: &Vec<Vec<char>>, from: usize, to: usize) -> (r: Option<usize>)
    requires
        from <= to <= pieces@.len(),
    ensures
        r is None <==> (forall|j: int|
            from <= j < to ==> (#[trigger] piece_views(pieces@)[j]).len() > 0),
        r matches Some(i) ==> from <= i < to && piece_views(pieces@)[i as int].len() == 0 && (
        forall|j: int| from <= j < i ==> (#[trigger] piece_views(pieces@)[j]).len() > 0),
{
    let mut j = from;
    while j < to
        invariant
            from <= j <= to <= pieces@.len(),
            forall|k: int| from <= k < j ==> (#[trigger] piece_views(pieces@)[k]).len() > 0,
        decreases to - j,
    {
        if pieces[j].len() == 0 {
            proof {
                assert(piece_views(pieces@)[j as int].len() == 0);
            }
            return Some(j);
        }
        j = j + 1;
    }
    None
}

/// Parse `pieces[from..to]` as a run of groups. With `ipv4_last` the final
/// piece may be an embedded IPv4 address standing for two groups; without
/// it every piece must be a hexadecimal group.
fn parse_group_run(pieces: &Vec<Vec<char>>, from: usize, to: usize, ipv4_last: bool) -> (r: Option<
    Vec<u16>,
>)
    requires
        from <= to <= pieces@.len(),
    ensures
        ({
            let rs = piece_views(pieces@).subrange(from as int, to as int);
            &&& (ipv4_last ==> ((r is Some <==> is_group_run(rs)) && (r matches Some(g) ==> g@
                == run_groups(rs) && g@.len() == run_group_count(rs))))
            &&& (!ipv4_last ==> ((r is Some <==> all_hex_groups(rs)) && (r matches Some(g) ==> g@
                == hex_groups(rs) && g@.len() == rs.len())))
        }),
{
    let ghost rs = piece_views(pieces@).subrange(from as int, to as int);
    let mut out: Vec<u16> = Vec::new();
    if from == to {
        proof {
            assert(rs =~= Seq::<Seq<char>>::empty());
            assert(out@ =~= hex_groups(rs));
        }
        return Some(out);
    }
    let last = to - 1;
    let mut j = from;
    while j < last
        invariant
            from <= j <= last,
            last == to - 1,
            from < to <= pieces@.len(),
            rs == piece_views(pieces@).subrange(from as int, to as int),
            out@ == hex_groups(rs.take(j - from)),
            out@.len() == j - from,
            all_hex_groups(rs.take(j - from)),
        decreases last - j,
    {
        let g = parse_hex_group(&pieces[j]);
        match g {
            Some(v) => {
                out.push(v);
                proof {
                    assert(rs.take(j - from + 1).drop_last() =~= rs.take(j - from));
                    assert(rs.take(j - from + 1).last() == rs[j - from]);
                    assert(rs[j - from] == pieces@[j as int]@);
                    assert(out@ =~= hex_groups(rs.take(j - from + 1)));
                }
            },
            None => {
                proof {
                    assert(rs[j - from] == pieces@[j as int]@);
                    assert(!is_hex_group(rs[j - from]));
                    if ipv4_last {
                        assert(rs.drop_last()[j - from] == rs[j - from]);
                        assert(!is_group_run(rs));
                    }
                }
                return None;
            },
        }
        j = j + 1;
    }
    // the final piece: a hexadecimal group, or an embedded IPv4 address
    proof {
        assert(rs[last - from] == pieces@[last as int]@);
        assert(rs.last() == rs[last - from]);
        assert(rs.drop_last() =~= rs.take(last - from));
    }
    let g = parse_hex_group(&pieces[last]);
    match g {
        Some(v) => {
            out.push(v);
            proof {
                assert(rs.take(to - from as int) =~= rs);
                assert(rs.take(last - from + 1) =~= rs);
                assert(out@ =~= hex_groups(rs));
                assert(run_groups(rs) == hex_groups(rs));
                assert(run_group_count(rs) == rs.len());
            }
            Some(out)
        },
        None => {
            if !ipv4_last {
                proof {
                    assert(!is_hex_group(rs[last - from]));
                }
                return None;
            }
            let v4 = parse_ipv4(&pieces[last]);
            match v4 {
                Some(o) => {
                    let hi = (o[0] as u16) * 256 + (o[1] as u16);
                    let lo = (o[2] as u16) * 256 + (o[3] as u16);
                    out.push(hi);
                    out.push(lo);
                    proof {
                        assert(is_group_run(rs));
                        assert(run_groups(rs) == hex_groups(rs.drop_last()) + ipv4_pair_groups(
                            rs.last(),
                        ));
                        assert(o@ == ipv4_octets(rs.last()));
                        assert(out@ =~= hex_groups(rs.drop_last()) + ipv4_pair_groups(rs.last()));
                        assert(run_group_count(rs) == rs.len() + 1);
                    }
                    Some(out)
                },
                None => {
                    proof {
                        assert(!is_hex_group(rs.last()) && !is_ipv4_text(rs.last()));
                        assert(!is_group_run(rs));
                    }
                    None
                },
            }
        },
    }
}

/// Lay out head groups, the zero groups a `::` stands for, and tail groups
/// as the eight groups of an address.
fn assemble_groups(head: &Vec<u16>, tail: &Vec<u16>) -> (r: [u16; 8])
    requires
        head@.len() + tail@.len() <= 8,
    ensures
        r@ == head@ + zero_groups(8 - head@.len() - tail@.len()) + tail@,
{
    let mut g: Vec<u16> = Vec::new();
    let mut j: usize = 0;
    while j < head.len()
        invariant
            j <= head@.len(),
            g@ == head@.take(j as int),
        decreases head@.len() - j,
    {
        g.push(head[j]);
        proof {
            assert(g@ =~= head@.take(j + 1));
        }
        j = j + 1;
    }
    proof {
        assert(g@ =~= head@);
    }
    let fill = 8 - tail.len();
    while g.len() < fill
        invariant
            head@.len() <= g@.len() <= fill,
            fill == 8 - tail@.len(),
            head@.len() + tail@.len() <= 8,
            g@ == head@ + zero_groups(g@.len() - head@.len()),
        decreases fill - g@.len(),
    {
        g.push(0);
        proof {
            assert(g@ =~= head@ + zero_groups(g@.len() - head@.len()));
        }
    }
    let mut j: usize = 0;
    while j < tail.len()
        invariant
            j <= tail@.len(),
            g@.len() == 8 - tail@.len() + j,
            head@.len() + tail@.len() <= 8,
            g@ == head@ + zero_groups(8 - head@.len() - tail@.len()) + tail@.take(j as int),
        decreases tail@.len() - j,
    {
        g.push(tail[j]);
        proof {
            assert(tail@.take(j + 1).drop_last() =~= tail@.take(j as int));
            assert(g@ =~= head@ + zero_groups(8 - head@.len() - tail@.len()) + tail@.take(j + 1));
        }
        j = j + 1;
    }
    proof {
        assert(tail@.take(tail@.len() as int) =~= tail@);
    }
    let r = [g[0], g[1], g[2], g[3], g[4], g[5], g[6], g[7]];
    proof {
        assert(r@ =~= g@);
    }
    r
}

/// Parse an IPv6 address text into its eight 16-bit groups.
pub fn parse_ipv6(cs: &Vec<char>) -> (r: Option<[u16; 8]>)
    ensures
        r is Some <==> is_ipv6_text(cs@),
        r is Some ==> r->0@ == ipv6_groups(cs@),
{
    let pieces = split_chars(cs, ':');
    let ghost ps = split_on(cs@, ':');
    let n = pieces.len();
    proof {
        lemma_split_on_nonempty(cs@, ':');
        assert(n as int == ps.len());
        assert(forall|j: int| 0 <= j < n ==> pieces@[j]@ == #[trigger] ps[j]);
    }
    let gap0 = first_empty(&pieces, 0, n);
    if gap0.is_none() {
        // no `::`: exactly eight groups
        let run = parse_group_run(&pieces, 0, n, true);
        proof {
            assert(all_nonempty(ps));
            assert(ps.subrange(0, n as int) =~= ps);
        }
        match run {
            Some(g) => {
                if g.len() == 8 {
                    let empty_tail: Vec<u16> = Vec::new();
                    let r = assemble_groups(&g, &empty_tail);
                    proof {
                        assert(r@ =~= run_groups(ps));
                    }
                    return Some(r);
                } else {
                    return None;
                }
            },
            None => {
                return None;
            },
        }
    }
    let i0 = gap0.unwrap();
    proof {
        assert(!all_nonempty(ps)) by {
            assert(ps[i0 as int].len() == 0);
        }
    }
    // `::` alone
    let only_colons = n == 3 && pieces[0].len() == 0 && pieces[1].len() == 0 && pieces[2].len()
        == 0;
    let ghost guard_colons = ps.len() == 3 && ps[0].len() == 0 && ps[1].len() == 0 && ps[2].len()
        == 0;
    proof {
        assert(only_colons == guard_colons);
    }
    if only_colons {
        let zeros: Vec<u16> = Vec::new();
        let r = assemble_groups(&zeros, &zeros);
        proof {
            assert(r@ =~= zero_groups(8));
        }
        return Some(r);
    }
    // `::tail`
    let lead_prefix = n >= 3 && pieces[0].len() == 0 && pieces[1].len() == 0;
    let lead_gap: Option<usize> = if lead_prefix {
        first_empty(&pieces, 2, n)
    } else {
        None
    };
    let lead_form = lead_prefix && lead_gap.is_none();
    let ghost guard_lead = ps.len() >= 3 && ps[0].len() == 0 && ps[1].len() == 0 && all_nonempty(
        ps.skip(2),
    );
    proof {
        if lead_form {
            assert(guard_lead) by {
                assert forall|k: int| 0 <= k < ps.skip(2).len() implies (#[trigger] ps.skip(
                    2,
                )[k]).len() > 0 by {
                    assert(ps.skip(2)[k] == ps[k + 2]);
                }
            }
        }
        if !lead_form && lead_prefix {
            let k = lead_gap->0;
            assert(ps[k as int].len() == 0);
            assert(ps.skip(2)[k - 2] == ps[k as int]);
            assert(!all_nonempty(ps.skip(2)));
        }
        assert(lead_form == guard_lead);
    }
    if lead_form {
        let run = parse_group_run(&pieces, 2, n, true);
        let ghost tail = ps.skip(2);
        proof {
            assert(ps.subrange(2, n as int) =~= tail);
        }
        match run {
            Some(g) => {
                if g.len() <= 7 {
                    let empty_head: Vec<u16> = Vec::new();
                    let r = assemble_groups(&empty_head, &g);
                    proof {
                        assert(r@ =~= zero_groups(8 - run_group_count(tail)) + run_groups(tail));
                    }
                    return Some(r);
                } else {
                    return None;
                }
            },
            None => {
                return None;
            },
        }
    }
    // `head::`
    let trail_prefix = n >= 3 && pieces[n - 1].len() == 0 && pieces[n - 2].len() == 0;
    let trail_gap: Option<usize> = if trail_prefix {
        first_empty(&pieces, 0, n - 2)
    } else {
        None
    };
    let trail_form = trail_prefix && trail_gap.is_none();
    let ghost guard_trail = ps.len() >= 3 && ps[ps.len() - 1].len() == 0 && ps[ps.len() - 2].len()
        == 0 && all_nonempty(ps.take(ps.len() - 2));
    proof {
        if trail_form {
            assert(guard_trail) by {
                assert forall|k: int| 0 <= k < ps.take(n - 2).len() implies (#[trigger] ps.take(
                    n - 2,
                )[k]).len() > 0 by {
                    assert(ps.take(n - 2)[k] == ps[k]);
                }
            }
        }
        if !trail_form && trail_prefix {
            let k = trail_gap->0;
            assert(ps[k as int].len() == 0);
            assert(ps.take(n - 2)[k as int] == ps[k as int]);
            assert(!all_nonempty(ps.take(n - 2)));
        }
        assert(trail_form == guard_trail);
    }
    if trail_form {
        let run = parse_group_run(&pieces, 0, n - 2, false);
        let ghost head = ps.take(n - 2);
        proof {
            assert(ps.subrange(0, n - 2) =~= head);
        }
        match run {
            Some(g) => {
                if g.len() <= 7 {
                    let empty_tail: Vec<u16> = Vec::new();
                    let r = assemble_groups(&g, &empty_tail);
                    proof {
                        assert(r@ =~= hex_groups(head) + zero_groups(8 - head.len()));
                    }
                    return Some(r);
                } else {
                    return None;
                }
            },
            None => {
                return None;
            },
        }
    }
    // `head::tail` with the single empty piece at `i0`
    let mid_bounds = i0 >= 1 && i0 <= n - 2;
    let mid_gap_rest: Option<usize> = if mid_bounds {
        first_empty(&pieces, i0 + 1, n)
    } else {
        None
    };
    let mid_form = mid_bounds && mid_gap_rest.is_none();
    proof {
        if mid_form {
            assert(is_mid_gap(ps, i0 as int)) by {
                assert(forall|j: int|
                    0 <= j < ps.len() && j != i0 ==> (#[trigger] ps[j]).len() > 0);
            }
        } else {
            assert forall|i: int| !is_mid_gap(ps, i) by {
                if is_mid_gap(ps, i) {
                    if i != i0 {
                        assert(ps[i0 as int].len() > 0);
                        assert(false);
                    } else {
                        assert(mid_bounds);
                        let k = mid_gap_rest->0;
                        assert(ps[k as int].len() == 0);
                        assert(k != i0);
                        assert(false);
                    }
                }
            }
        }
    }
    if mid_form {
        proof {
            let i = choose|i: int| is_mid_gap(ps, i);
            assert(is_mid_gap(ps, i));
            if i != i0 {
                assert(ps[i0 as int].len() > 0);
                assert(false);
            }
        }
        let head_run = parse_group_run(&pieces, 0, i0, false);
        let tail_run = parse_group_run(&pieces, i0 + 1, n, true);
        let ghost head = ps.take(i0 as int);
        let ghost tail = ps.skip(i0 as int + 1);
        proof {
            assert(ps.subrange(0, i0 as int) =~= head);
            assert(ps.subrange(i0 as int + 1, n as int) =~= tail);
        }
        match (head_run, tail_run) {
            (Some(h), Some(t)) => {
                if h.len() + t.len() <= 7 {
                    let r = assemble_groups(&h, &t);
                    proof {
                        assert(h@.len() == i0 as int);
                        assert(r@ =~= hex_groups(head) + zero_groups(
                            8 - i0 - run_group_count(tail),
                        ) + run_groups(tail));
                    }
                    return Some(r);
                } else {
                    return None;
                }
            },
            _ => {
                return None;
            },
        }
    }
    None
}

/// A syntactically valid address text of either family.
pub open spec fn is_ip_text(s: Seq<char>) -> bool {
    is_ipv4_text(s) || is_ipv6_text(s)
}

/// The characters of `text`, one by one.
pub fn str_chars(text: &str) -> (cs: Vec<char>)
    ensures
        cs@ == text@,
{
    let n = text.unicode_len();
    let mut cs: Vec<char> = Vec::new();
    let mut i: usize = 0;
    while i < n
        invariant
            i <= n,
            n == text@.len(),
            cs@ == text@.take(i as int),
        decreases n - i,
    {
        let c = text.get_char(i);
        cs.push(c);
        proof {
            assert(cs@ =~= text@.take(i as int + 1));
        }
        i = i + 1;
    }
    proof {
        assert(text@.take(n as int) =~= text@);
    }
    cs
}

/// Classify a textual address into its protocol family, rejecting text that
/// is not a syntactically valid IPv4 or IPv6 address.
pub fn classify(text: &str) -> (r: Result<IpAddress, ParseError>)
    ensures
        r is Ok <==> is_ip_text(text@),
        is_ipv4_text(text@) ==> (r matches Ok(IpAddress::V4(a)) && a.octets@ == ipv4_octets(
            text@,
        )),
        !is_ipv4_text(text@) && is_ipv6_text(text@) ==> (r matches Ok(IpAddress::V6(a))
            && a.segments@ == ipv6_groups(text@)),
{
    let cs = str_chars(text);
    match parse_ipv4(&cs) {
        Some(o) => Ok(IpAddress::V4(Ipv4Address { octets: o })),
        None => match parse_ipv6(&cs) {
            Some(g) => Ok(IpAddress::V6(Ipv6Address { segments: g })),
            None => Err(ParseError),
        },
    }
}

} // verus!
