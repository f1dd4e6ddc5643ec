//! IP address model and literal parsing.
//!
//! The library carries addresses as plain integer groups. Parsing accepts
//! IPv4 dotted-quad literals (decimal octets, no leading zeros) and IPv6
//! literals (hex groups, one `::` compression, optional embedded IPv4 tail).

use vstd::prelude::*;

verus! {

/// An IP address: four octets, or eight 16-bit groups.
#[derive(Clone, Copy, Debug, PartialEq, Eq, Structural)]
pub enum IpAddress {
    /// IPv4 address, as its four octets.
    V4(u8, u8, u8, u8),
    /// IPv6 address, as its eight groups.
    V6(u16, u16, u16, u16, u16, u16, u16, u16),
}

impl IpAddress {
    /// The address belongs to the IPv4 family.
    pub fn is_ipv4(&self) -> (r: bool)
        ensures
            r == (*self is V4),
    {
        matches!(self, IpAddress::V4(_, _, _, _))
    }

    /// The address belongs to the IPv6 family.
    pub fn is_ipv6(&self) -> (r: bool)
        ensures
            r == (*self is V6),
    {
        matches!(self, IpAddress::V6(_, _, _, _, _, _, _, _))
    }
}

/// `c` is a decimal digit.
pub open spec fn is_dec_digit(c: char) -> bool {
    '0' as u32 <= c as u32 && c as u32 <= '9' as u32
}

/// Value of a decimal digit.
pub open spec fn dec_digit_val(c: char) -> int {
    c as u32 - '0' as u32
}

/// `c` is a hexadecimal digit, either case.
pub open spec fn is_hex_digit(c: char) -> bool {
    ||| is_dec_digit(c)
    ||| 'a' as u32 <= c as u32 && c as u32 <= 'f' as u32
    ||| 'A' as u32 <= c as u32 && c as u32 <= 'F' as u32
}

/// Value of a hexadecimal digit.
pub open spec fn hex_digit_val(c: char) -> int {
    if is_dec_digit(c) {
        c as u32 - '0' as u32
    } else if 'a' as u32 <= c as u32 && c as u32 <= 'f' as u32 {
        c as u32 - 'a' as u32 + 10
    } else {
        c as u32 - 'A' as u32 + 10
    }
}

/// Value of the first `n` characters of `p` read as a decimal numeral.
pub open spec fn dec_val(p: Seq<char>, n: int) -> int
    decreases n,
{
    if n <= 0 {
        0
    } else {
        dec_val(p, n - 1) * 10 + dec_digit_val(p[n - 1])
    }
}

/// Value of the first `n` characters of `p` read as a hexadecimal numeral.
pub open spec fn hex_val(p: Seq<char>, n: int) -> int
    decreases n,
{
    if n <= 0 {
        0
    } else {
        hex_val(p, n - 1) * 16 + hex_digit_val(p[n - 1])
    }
}

/// A decimal numeral of `n` digits stays below `10^n` (stated for the
/// lengths an octet can have).
pub proof fn lemma_dec_val_bound(p: Seq<char>, n: int)
    requires
        0 <= n <= 3,
        forall|i: int| 0 <= i < n ==> is_dec_digit(#[trigger] p[i]),
    ensures
        0 <= dec_val(p, n),
        n <= 1 ==> dec_val(p, n) <= 9,
        n <= 2 ==> dec_val(p, n) <= 99,
        dec_val(p, n) <= 999,
    decreases n,
{
    if n > 0 {
        lemma_dec_val_bound(p, n - 1);
    }
}

/// A hexadecimal numeral of `n` digits stays below `16^n` (stated for the
/// lengths a group can have).
pub proof fn lemma_hex_val_bound(p: Seq<char>, n: int)
    requires
        0 <= n <= 4,
        forall|i: int| 0 <= i < n ==> is_hex_digit(#[trigger] p[i]),
    ensures
        0 <= hex_val(p, n),
        n <= 1 ==> hex_val(p, n) <= 0xf,
        n <= 2 ==> hex_val(p, n) <= 0xff,
        n <= 3 ==> hex_val(p, n) <= 0xfff,
        hex_val(p, n) <= 0xffff,
    decreases n,
{
    if n > 0 {
        lemma_hex_val_bound(p, n - 1);
    }
}

/// The text of one decimal octet: one to three digits, no leading zero,
/// value at most 255.
pub open spec fn is_octet_text(p: Seq<char>) -> bool {
    &&& 1 <= p.len() <= 3
    &&& (forall|i: int| 0 <= i < p.len() ==> is_dec_digit(#[trigger] p[i]))
    &&& (p.len() > 1 ==> p[0] != '0')
    &&& dec_val(p, p.len() as int) <= 255
}

/// Parse one decimal octet.
pub open spec fn spec_parse_octet(p: Seq<char>) -> Option<u8> {
    if is_octet_text(p) {
        Some(dec_val(p, p.len() as int) as u8)
    } else {
        None
    }
}

/// The text of one IPv6 group: one to four hexadecimal digits.
pub open spec fn is_hex_group(p: Seq<char>) -> bool {
    &&& 1 <= p.len() <= 4
    &&& (forall|i: int| 0 <= i < p.len() ==> is_hex_digit(#[trigger] p[i]))
}

/// The group value of a hex-group text.
pub open spec fn group_u16(p: Seq<char>) -> u16 {
    hex_val(p, p.len() as int) as u16
}

/// Parse one IPv6 group.
pub open spec fn spec_parse_group(p: Seq<char>) -> Option<u16> {
    if is_hex_group(p) {
        Some(group_u16(p))
    } else {
        None
    }
}

/// Split a character sequence on a separator. Splitting the empty sequence
/// yields one empty part; every separator ends the part before it.
pub open spec fn spec_split(s: Seq<char>, sep: char) -> Seq<Seq<char>>
    decreases s.len(),
{
    if s.len() == 0 {
        seq![Seq::<char>::empty()]
    } else if s[0] == sep {
        seq![Seq::<char>::empty()] + spec_split(s.drop_first(), sep)
    } else {
        let r = spec_split(s.drop_first(), sep);
        seq![seq![s[0]] + r[0]] + r.drop_first()
    }
}

/// A split always yields at least one part.
pub proof fn lemma_split_nonempty(s: Seq<char>, sep: char)
    ensures
        spec_split(s, sep).len() >= 1,
    decreases s.len(),
{
    if s.len() > 0 {
        lemma_split_nonempty(s.drop_first(), sep);
    }
}

/// The head part extended in front: used to relate a partially consumed
/// input to its full split.
pub open spec fn prepend_head(c: Seq<char>, r: Seq<Seq<char>>) -> Seq<Seq<char>> {
    seq![c + r[0]] + r.drop_first()
}

/// The views of a vector of character vectors.
pub open spec fn views_of(parts: Seq<Vec<char>>) -> Seq<Seq<char>> {
    parts.map_values(|v: Vec<char>| v@)
}

/// Collect the characters of a string slice.
pub fn chars_of(s: &str) -> (r: Vec<char>)
    ensures
        r@ == s@,
{
    let n = s.unicode_len();
    let mut r: Vec<char> = Vec::new();
    let mut i: usize = 0;
    while i < n
        invariant
            i <= n,
            n == s@.len(),
            r@ == s@.take(i as int),
        decreases n - i,
    {
        let c = s.get_char(i);
        r.push(c);
        proof {
            assert(r@ =~= s@.take(i + 1));
        }
        i += 1;
    }
    proof {
        assert(s@.take(n as int) =~= s@);
    }
    r
}

/// Split a character vector on a separator, as `spec_split` describes.
pub fn split_chars(cs: &Vec<char>, sep: char) -> (parts: Vec<Vec<char>>)
    ensures
        views_of(parts@) == spec_split(cs@, sep),
        parts@.len() >= 1,
{
    let n = cs.len();
    let mut parts: Vec<Vec<char>> = Vec::new();
    let mut cur: Vec<char> = Vec::new();
    let mut j: usize = 0;
    proof {
        lemma_split_nonempty(cs@, sep);
        assert(cs@.skip(0int) =~= cs@);
        let r = spec_split(cs@, sep);
        assert(prepend_head(cur@, r) =~~= r);
        assert(views_of(parts@) + prepend_head(cur@, spec_split(cs@.skip(0int), sep)) =~~=
            spec_split(cs@, sep));
    }
    while j < n
        invariant
            j <= n,
            n == cs@.len(),
            spec_split(cs@.skip(j as int), sep).len() >= 1,
            views_of(parts@) + prepend_head(cur@, spec_split(cs@.skip(j as int), sep)) =~~=
                spec_split(cs@, sep),
        decreases n - j,
    {
        let c = cs[j];
        proof {
            assert(cs@.skip(j as int).len() > 0);
            assert(cs@.skip(j as int)[0] == cs@[j as int]);
            assert(cs@.skip(j as int).drop_first() =~= cs@.skip(j + 1));
            lemma_split_nonempty(cs@.skip(j + 1), sep);
        }
        if c == sep {
            let ghost old_parts = parts@;
            let ghost old_cur = cur@;
            let done = cur;
            parts.push(done);
            cur = Vec::new();
            proof {
                let rs = spec_split(cs@.skip(j + 1), sep);
                assert(spec_split(cs@.skip(j as int), sep) =~~= seq![Seq::<char>::empty()] + rs);
                assert(prepend_head(old_cur, seq![Seq::<char>::empty()] + rs) =~~= seq![old_cur]
                    + rs);
                assert(views_of(parts@) =~~= views_of(old_parts) + seq![old_cur]);
                assert(prepend_head(cur@, rs) =~~= rs);
                assert(views_of(parts@) + prepend_head(cur@, rs) =~~= spec_split(cs@, sep));
            }
        } else {
            let ghost old_cur = cur@;
            cur.push(c);
            proof {
                let rs = spec_split(cs@.skip(j + 1), sep);
                assert(spec_split(cs@.skip(j as int), sep) =~~= seq![seq![cs@[j as int]] + rs[0]]
                    + rs.drop_first());
                assert(prepend_head(old_cur, spec_split(cs@.skip(j as int), sep)) =~~=
                    prepend_head(cur@, rs));
                assert(views_of(parts@) + prepend_head(cur@, rs) =~~= spec_split(cs@, sep));
            }
        }
        j += 1;
    }
    proof {
        assert(cs@.skip(n as int) =~= Seq::<char>::empty());
        assert(spec_split(Seq::<char>::empty(), sep) =~~= seq![Seq::<char>::empty()]);
        assert(prepend_head(cur@, seq![Seq::<char>::empty()]) =~~= seq![cur@]);
    }
    let ghost old_parts = parts@;
    let ghost final_cur = cur@;
    parts.push(cur);
    proof {
        assert(views_of(parts@) =~~= views_of(old_parts) + seq![final_cur]);
        assert(views_of(parts@) =~~= spec_split(cs@, sep));
        assert(spec_split(cs@, sep).len() >= 1);
    }
    parts
}

/// Parse one decimal octet from its characters.
pub fn parse_octet(p: &Vec<char>) -> (r: Option<u8>)
    ensures
        r == spec_parse_octet(p@),
{
    let n = p.len();
    if n < 1 || n > 3 {
        return None;
    }
    if n > 1 && p[0] == '0' {
        return None;
    }
    let mut val: u32 = 0;
    let mut i: usize = 0;
    while i < n
        invariant
            i <= n,
            n == p@.len(),
            1 <= n <= 3,
            forall|k: int| 0 <= k < i ==> is_dec_digit(#[trigger] p@[k]),
            val == dec_val(p@, i as int),
            val <= 999,
        decreases n - i,
    {
        let c = p[i];
        let cv = c as u32;
        if cv < '0' as u32 || cv > '9' as u32 {
            assert(!is_dec_digit(p@[i as int]));
            return None;
        }
        proof {
            lemma_dec_val_bound(p@, i as int);
        }
        val = val * 10 + (cv - '0' as u32);
        i += 1;
        proof {
            lemma_dec_val_bound(p@, i as int);
        }
    }
    if val > 255 {
        return None;
    }
    assert(is_octet_text(p@));
    Some(val as u8)
}

/// Parse one IPv6 hex group from its characters.
pub fn parse_group(p: &Vec<char>) -> (r: Option<u16>)
    ensures
        r == spec_parse_group(p@),
{
    let n = p.len();
    if n < 1 || n > 4 {
        return None;
    }
    let mut val: u32 = 0;
    let mut i: usize = 0;
    while i < n
        invariant
            i <= n,
            n == p@.len(),
            1 <= n <= 4,
            forall|k: int| 0 <= k < i ==> is_hex_digit(#[trigger] p@[k]),
            val == hex_val(p@, i as int),
            val <= 0xffff,
        decreases n - i,
    {
        let c = p[i];
        let cv = c as u32;
        let d: u32 = if cv >= '0' as u32 && cv <= '9' as u32 {
            cv - '0' as u32
        } else if cv >= 'a' as u32 && cv <= 'f' as u32 {
            cv - 'a' as u32 + 10
        } else if cv >= 'A' as u32 && cv <= 'F' as u32 {
            cv - 'A' as u32 + 10
        } else {
            assert(!is_hex_digit(p@[i as int]));
            return None;
        };
        proof {
            lemma_hex_val_bound(p@, i as int);
        }
        assert(d == hex_digit_val(p@[i as int]));
        val = val * 16 + d;
        i += 1;
        proof {
            lemma_hex_val_bound(p@, i as int);
        }
    }
    assert(is_hex_group(p@));
    Some(val as u16)
}

/// Parse an IPv4 dotted-quad literal.
pub open spec fn spec_parse_ipv4(s: Seq<char>) -> Option<(u8, u8, u8, u8)> {
    let parts = spec_split(s, '.');
    if parts.len() == 4 && spec_parse_octet(parts[0]) is Some && spec_parse_octet(parts[1]) is Some
        && spec_parse_octet(parts[2]) is Some && spec_parse_octet(parts[3]) is Some {
        Some(
            (
                spec_parse_octet(parts[0])->Some_0,
                spec_parse_octet(parts[1])->Some_0,
                spec_parse_octet(parts[2])->Some_0,
                spec_parse_octet(parts[3])->Some_0,
            ),
        )
    } else {
        None
    }
}

/// Parse an IPv4 literal from its characters.
pub fn parse_ipv4_chars(cs: &Vec<char>) -> (r: Option<(u8, u8, u8, u8)>)
    ensures
        r == spec_parse_ipv4(cs@),
{
    let parts = split_chars(cs, '.');
    if parts.len() != 4 {
        return None;
    }
    let a = match parse_octet(&parts[0]) {
        Some(v) => v,
        None => {
            return None;
        },
    };
    let b = match parse_octet(&parts[1]) {
        Some(v) => v,
        None => {
            return None;
        },
    };
    let c = match parse_octet(&parts[2]) {
        Some(v) => v,
        None => {
            return None;
        },
    };
    let d = match parse_octet(&parts[3]) {
        Some(v) => v,
        None => {
            return None;
        },
    };
    Some((a, b, c, d))
}

/// Every part in the range `[from, to)` is a hex group.
pub open spec fn all_hex_groups(parts: Seq<Seq<char>>, from: int, to: int) -> bool {
    forall|i: int| from <= i < to ==> is_hex_group(#[trigger] parts[i])
}

/// The group values of the parts in `[from, to)`.
pub open spec fn groups_of(parts: Seq<Seq<char>>, from: int, to: int) -> Seq<u16> {
    parts.subrange(from, to).map_values(|p: Seq<char>| group_u16(p))
}

/// Parse a run of parts that may end in an embedded IPv4 literal: either
/// every part is a hex group, or all but the last are and the last is an
/// IPv4 literal contributing its two groups.
pub open spec fn spec_parse_tail(parts: Seq<Seq<char>>, from: int, to: int) -> Option<Seq<u16>> {
    if from == to {
        Some(Seq::<u16>::empty())
    } else if all_hex_groups(parts, from, to) {
        Some(groups_of(parts, from, to))
    } else if all_hex_groups(parts, from, to - 1) && spec_parse_ipv4(parts[to - 1]) is Some {
        let q = spec_parse_ipv4(parts[to - 1])->Some_0;
        Some(
            groups_of(parts, from, to - 1) + seq![
                (q.0 as u16 * 256 + q.1 as u16) as u16,
                (q.2 as u16 * 256 + q.3 as u16) as u16,
            ],
        )
    } else {
        None
    }
}

/// Parse a run of parts (hex groups, optionally ending in an embedded IPv4
/// literal) into group values.
pub fn parse_tail(parts: &Vec<Vec<char>>, from: usize, to: usize) -> (r: Option<Vec<u16>>)
    requires
        from <= to <= parts@.len(),
    ensures
        match r {
            Some(g) => Some(g@) == spec_parse_tail(views_of(parts@), from as int, to as int),
            None => spec_parse_tail(views_of(parts@), from as int, to as int) is None,
        },
{
    let ghost vp = views_of(parts@);
    let mut groups: Vec<u16> = Vec::new();
    if from == to {
        assert(groups@ =~= Seq::<u16>::empty());
        return Some(groups);
    }
    let mut i: usize = from;
    while i < to - 1
        invariant
            from <= i <= to - 1,
            to <= parts@.len(),
            from < to,
            vp == views_of(parts@),
            all_hex_groups(vp, from as int, i as int),
            groups@ =~= groups_of(vp, from as int, i as int),
        decreases to - i,
    {
        match parse_group(&parts[i]) {
            Some(g) => {
                groups.push(g);
                proof {
                    assert(vp[i as int] == parts@[i as int]@);
                    assert(vp.subrange(from as int, i + 1) =~= vp.subrange(from as int, i as int)
                        + seq![vp[i as int]]);
                    assert(groups@ =~= groups_of(vp, from as int, i + 1));
                }
            },
            None => {
                assert(!is_hex_group(vp[i as int]));
                assert(!all_hex_groups(vp, from as int, to as int));
                assert(!all_hex_groups(vp, from as int, to - 1));
                return None;
            },
        }
        i += 1;
    }
    // the final part: a hex group, or an embedded IPv4 literal
    match parse_group(&parts[to - 1]) {
        Some(g) => {
            groups.push(g);
            proof {
                assert(vp[to - 1] == parts@[to - 1]@);
                assert(all_hex_groups(vp, from as int, to as int));
                assert(vp.subrange(from as int, to as int) =~= vp.subrange(from as int, to - 1)
                    + seq![vp[to - 1]]);
                assert(groups@ =~= groups_of(vp, from as int, to as int));
            }
            Some(groups)
        },
        None => {
            assert(!is_hex_group(vp[to - 1]));
            assert(!all_hex_groups(vp, from as int, to as int));
            match parse_ipv4_chars(&parts[to - 1]) {
                Some((a, b, c, d)) => {
                    let hi: u16 = (a as u16) * 256 + (b as u16);
                    let lo: u16 = (c as u16) * 256 + (d as u16);
                    groups.push(hi);
                    groups.push(lo);
                    proof {
                        assert(vp[to - 1] == parts@[to - 1]@);
                        assert(groups@ =~= groups_of(vp, from as int, to - 1) + seq![hi, lo]);
                    }
                    Some(groups)
                },
                None => {
                    assert(spec_parse_ipv4(vp[to - 1]) is None);
                    None
                },
            }
        },
    }
}

/// Index of the first empty part at or after `i`, or the length if none.
pub open spec fn first_empty_from(parts: Seq<Seq<char>>, i: int) -> int
    decreases parts.len() - i,
{
    if i < 0 || i >= parts.len() {
        parts.len() as int
    } else if parts[i].len() == 0 {
        i
    } else {
        first_empty_from(parts, i + 1)
    }
}

/// Bounds and meaning of `first_empty_from`.
pub proof fn lemma_first_empty(parts: Seq<Seq<char>>, i: int)
    requires
        0 <= i <= parts.len(),
    ensures
        i <= first_empty_from(parts, i) <= parts.len(),
        first_empty_from(parts, i) < parts.len() ==> parts[first_empty_from(parts, i)].len() == 0,
        forall|j: int| i <= j < first_empty_from(parts, i) ==> (#[trigger] parts[j]).len() > 0,
    decreases parts.len() - i,
{
    if i < parts.len() && parts[i].len() != 0 {
        lemma_first_empty(parts, i + 1);
    }
}

/// Find the first empty part at or after `i`.
pub fn find_first_empty(parts: &Vec<Vec<char>>, i: usize) -> (r: usize)
    requires
        i <= parts@.len(),
    ensures
        r == first_empty_from(views_of(parts@), i as int),
        i <= r <= parts@.len(),
    decreases parts@.len() - i,
{
    proof {
        lemma_first_empty(views_of(parts@), i as int);
    }
    if i == parts.len() {
        i
    } else if parts[i].len() == 0 {
        i
    } else {
        find_first_empty(parts, i + 1)
    }
}

/// Every part in `[from, to)` is nonempty.
pub fn all_nonempty(parts: &Vec<Vec<char>>, from: usize, to: usize) -> (r: bool)
    requires
        from <= to <= parts@.len(),
    ensures
        r == (forall|j: int| from <= j < to ==> (#[trigger] views_of(parts@)[j]).len() > 0),
{
    let mut i: usize = from;
    while i < to
        invariant
            from <= i <= to,
            to <= parts@.len(),
            forall|j: int| from <= j < i ==> (#[trigger] views_of(parts@)[j]).len() > 0,
        decreases to - i,
    {
        if parts[i].len() == 0 {
            assert(views_of(parts@)[i as int].len() == 0);
            return false;
        }
        assert(views_of(parts@)[i as int].len() > 0);
        i += 1;
    }
    true
}

/// A sequence of `n` zero groups.
pub open spec fn zero_groups(n: int) -> Seq<u16> {
    Seq::new(n as nat, |i: int| 0u16)
}

/// Parse an IPv6 literal: a full eight-group form, or a form compressed
/// with one `::`, either of which may end in an embedded IPv4 literal.
pub open spec fn spec_parse_ipv6(s: Seq<char>) -> Option<Seq<u16>> {
    let parts = spec_split(s, ':');
    let n = parts.len() as int;
    let fe = first_empty_from(parts, 0);
    if fe == n {
        // no empty part: the full form
        match spec_parse_tail(parts, 0, n) {
            Some(g) => if g.len() == 8 {
                Some(g)
            } else {
                None
            },
            None => None,
        }
    } else if n == 3 && parts[0].len() == 0 && parts[1].len() == 0 && parts[2].len() == 0 {
        // "::" alone
        Some(zero_groups(8))
    } else if fe == 0 {
        // leading "::"
        if n >= 3 && parts[1].len() == 0 && (forall|j: int|
            2 <= j < n ==> (#[trigger] parts[j]).len() > 0) {
            match spec_parse_tail(parts, 2, n) {
                Some(g) => if g.len() <= 7 {
                    Some(zero_groups(8 - g.len()) + g)
                } else {
                    None
                },
                None => None,
            }
        } else {
            None
        }
    } else if fe == n - 2 && parts[n - 1].len() == 0 {
        // trailing "::": the left side is pure hex groups
        if n - 2 <= 7 && all_hex_groups(parts, 0, n - 2) {
            Some(groups_of(parts, 0, n - 2) + zero_groups(8 - (n - 2)))
        } else {
            None
        }
    } else if fe < n - 1 && (forall|j: int| fe < j < n ==> (#[trigger] parts[j]).len() > 0) {
        // one interior "::"
        if all_hex_groups(parts, 0, fe) {
            match spec_parse_tail(parts, fe + 1, n) {
                Some(g) => if fe + g.len() <= 7 {
                    Some(groups_of(parts, 0, fe) + zero_groups(8 - fe - g.len()) + g)
                } else {
                    None
                },
                None => None,
            }
        } else {
            None
        }
    } else {
        None
    }
}

/// Parse an IPv6 literal from its characters, yielding its eight groups.
pub fn parse_ipv6_chars(cs: &Vec<char>) -> (r: Option<Vec<u16>>)
    ensures
        match r {
            Some(g) => Some(g@) == spec_parse_ipv6(cs@) && g@.len() == 8,
            None => spec_parse_ipv6(cs@) is None,
        },
{
    let parts = split_chars(cs, ':');
    let ghost vp = views_of(parts@);
    let n = parts.len();
    let fe = find_first_empty(&parts, 0);
    proof {
        lemma_first_empty(vp, 0int);
    }
    if fe == n {
        // full form
        match parse_tail(&parts, 0, n) {
            Some(g) => {
                if g.len() == 8 {
                    Some(g)
                } else {
                    None
                }
            },
            None => None,
        }
    } else if n == 3 && parts[0].len() == 0 && parts[1].len() == 0 && parts[2].len() == 0 {
        let mut g: Vec<u16> = Vec::new();
        let mut k: usize = 0;
        while k < 8
            invariant
                k <= 8,
                g@ =~= zero_groups(k as int),
            decreases 8 - k,
        {
            g.push(0);
            proof {
                assert(g@ =~= zero_groups(k + 1));
            }
            k += 1;
        }
        proof {
            assert(vp[0int].len() == 0 && vp[1int].len() == 0 && vp[2int].len() == 0);
        }
        Some(g)
    } else if fe == 0 {
        if n >= 3 && parts[1].len() == 0 && all_nonempty(&parts, 2, n) {
            proof {
                assert(vp[1int].len() == 0);
            }
            match parse_tail(&parts, 2, n) {
                Some(g) => {
                    if g.len() <= 7 {
                        let mut out: Vec<u16> = Vec::new();
                        let pad = 8 - g.len();
                        let mut k: usize = 0;
                        while k < pad
                            invariant
                                k <= pad,
                                out@ =~= zero_groups(k as int),
                            decreases pad - k,
                        {
                            out.push(0);
                            proof {
                                assert(out@ =~= zero_groups(k + 1));
                            }
                            k += 1;
                        }
                        let mut k2: usize = 0;
                        while k2 < g.len()
                            invariant
                                k2 <= g@.len(),
                                pad == 8 - g@.len(),
                                out@ =~= zero_groups(pad as int) + g@.take(k2 as int),
                            decreases g@.len() - k2,
                        {
                            out.push(g[k2]);
                            proof {
                                assert(out@ =~= zero_groups(pad as int) + g@.take(k2 + 1));
                            }
                            k2 += 1;
                        }
                        proof {
                            assert(g@.take(g@.len() as int) =~= g@);
                            assert(out@ =~= zero_groups(8 - g@.len()) + g@);
                        }
                        Some(out)
                    } else {
                        None
                    }
                },
                None => None,
            }
        } else {
            proof {
                if n >= 3 && vp[1int].len() == 0 {
                    // the nonempty scan failed: some later part is empty
                }
            }
            None
        }
    } else if fe == n - 2 && parts[n - 1].len() == 0 {
        proof {
            assert(vp[n - 1].len() == 0);
            assert(vp[fe as int].len() == 0);
        }
        if n - 2 <= 7 {
            match parse_tail(&parts, 0, n - 2) {
                Some(g) => {
                    proof {
                        // the left side has no empty part, so an embedded
                        // IPv4 part would be the only non-hex possibility;
                        // `spec_parse_tail` agrees with `all_hex_groups`
                        // exactly when every part is a hex group
                        assert(forall|j: int| 0 <= j < n - 2 ==> (#[trigger] vp[j]).len() > 0);
                    }
                    if g.len() == n - 2 {
                        // all hex groups: an embedded IPv4 tail would have
                        // yielded one more group than parts
                        proof {
                            if !all_hex_groups(vp, 0, n - 2) {
                                assert(g@.len() == (n - 2 - 1) + 2);
                                assert(false);
                            }
                            assert(groups_of(vp, 0, n - 2).len() == n - 2);
                        }
                        let mut out = g;
                        let ghost left = out@;
                        let pad = 8 - (n - 2);
                        let mut k: usize = 0;
                        while k < pad
                            invariant
                                k <= pad,
                                out@ =~= left + zero_groups(k as int),
                            decreases pad - k,
                        {
                            out.push(0);
                            proof {
                                assert(out@ =~= left + zero_groups(k + 1));
                            }
                            k += 1;
                        }
                        Some(out)
                    } else {
                        proof {
                            if all_hex_groups(vp, 0, n - 2) {
                                assert(g@ =~= groups_of(vp, 0, n - 2));
                                assert(g@.len() == n - 2);
                                assert(false);
                            }
                        }
                        None
                    }
                },
                None => {
                    proof {
                        if all_hex_groups(vp, 0, n - 2) {
                            assert(spec_parse_tail(vp, 0, n - 2) is Some);
                            assert(false);
                        }
                    }
                    None
                },
            }
        } else {
            None
        }
    } else if fe < n - 1 && all_nonempty(&parts, fe + 1, n) {
        proof {
            assert(vp[fe as int].len() == 0);
            assert(forall|j: int| 0 <= j < fe ==> (#[trigger] vp[j]).len() > 0);
        }
        match parse_tail(&parts, 0, fe) {
            Some(left) => {
                if left.len() == fe {
                    proof {
                        if !all_hex_groups(vp, 0, fe as int) {
                            assert(left@.len() == (fe - 1) + 2);
                            assert(false);
                        }
                        assert(groups_of(vp, 0, fe as int).len() == fe);
                    }
                    match parse_tail(&parts, fe + 1, n) {
                        Some(g) => {
                            if fe <= 7 && g.len() <= 7 - fe {
                                let mut out = left;
                                let ghost lseq = out@;
                                let pad = 8 - fe - g.len();
                                let mut k: usize = 0;
                                while k < pad
                                    invariant
                                        k <= pad,
                                        out@ =~= lseq + zero_groups(k as int),
                                    decreases pad - k,
                                {
                                    out.push(0);
                                    proof {
                                        assert(out@ =~= lseq + zero_groups(k + 1));
                                    }
                                    k += 1;
                                }
                                let mut k2: usize = 0;
                                while k2 < g.len()
                                    invariant
                                        k2 <= g@.len(),
                                        out@ =~= lseq + zero_groups(pad as int) + g@.take(
                                            k2 as int,
                                        ),
                                    decreases g@.len() - k2,
                                {
                                    out.push(g[k2]);
                                    proof {
                                        assert(out@ =~= lseq + zero_groups(pad as int) + g@.take(
                                            k2 + 1));
                                    }
                                    k2 += 1;
                                }
                                proof {
                                    assert(g@.take(g@.len() as int) =~= g@);
                                }
                                Some(out)
                            } else {
                                None
                            }
                        },
                        None => None,
                    }
                } else {
                    proof {
                        if all_hex_groups(vp, 0, fe as int) {
                            assert(left@ =~= groups_of(vp, 0, fe as int));
                            assert(left@.len() == fe);
                            assert(false);
                        }
                    }
                    None
                }
            },
            None => {
                proof {
                    if all_hex_groups(vp, 0, fe as int) {
                        assert(spec_parse_tail(vp, 0, fe as int) is Some);
                        assert(false);
                    }
                }
                None
            },
        }
    } else {
        None
    }
}

/// Parse an IP literal: IPv4 if the text is a dotted quad, IPv6 otherwise.
pub open spec fn spec_parse_ip(s: Seq<char>) -> Option<IpAddress> {
    match spec_parse_ipv4(s) {
        Some(q) => Some(IpAddress::V4(q.0, q.1, q.2, q.3)),
        None => match spec_parse_ipv6(s) {
            Some(g) => Some(
                IpAddress::V6(g[0], g[1], g[2], g[3], g[4], g[5], g[6], g[7]),
            ),
            None => None,
        },
    }
}

/// The character of a decimal digit value.
pub open spec fn digit_char(d: int) -> char {
    if d == 0 {
        '0'
    } else if d == 1 {
        '1'
    } else if d == 2 {
        '2'
    } else if d == 3 {
        '3'
    } else if d == 4 {
        '4'
    } else if d == 5 {
        '5'
    } else if d == 6 {
        '6'
    } else if d == 7 {
        '7'
    } else if d == 8 {
        '8'
    } else {
        '9'
    }
}

/// The character of a hexadecimal digit value, lower case.
pub open spec fn hex_char(d: int) -> char {
    if d < 10 {
        digit_char(d)
    } else if d == 10 {
        'a'
    } else if d == 11 {
        'b'
    } else if d == 12 {
        'c'
    } else if d == 13 {
        'd'
    } else if d == 14 {
        'e'
    } else {
        'f'
    }
}

/// Decimal rendering of a nonnegative number, without leading zeros.
pub open spec fn dec_chars(n: int) -> Seq<char>
    decreases n,
{
    if n < 10 {
        seq![digit_char(n)]
    } else {
        dec_chars(n / 10) + seq![digit_char(n % 10)]
    }
}

/// Hexadecimal rendering of a nonnegative number, lower case, without
/// leading zeros.
pub open spec fn hex_chars(n: int) -> Seq<char>
    decreases n,
{
    if n < 16 {
        seq![hex_char(n)]
    } else {
        hex_chars(n / 16) + seq![hex_char(n % 16)]
    }
}

/// Text of an IPv4 address: the four octets in decimal, joined by dots.
pub open spec fn ipv4_chars(a: u8, b: u8, c: u8, d: u8) -> Seq<char> {
    dec_chars(a as int) + seq!['.'] + dec_chars(b as int) + seq!['.'] + dec_chars(c as int)
        + seq!['.'] + dec_chars(d as int)
}

/// Text of an IPv6 address: the eight groups in lower-case hexadecimal,
/// joined by colons, without zero compression.
pub open spec fn ipv6_chars(
    g0: u16,
    g1: u16,
    g2: u16,
    g3: u16,
    g4: u16,
    g5: u16,
    g6: u16,
    g7: u16,
) -> Seq<char> {
    hex_chars(g0 as int) + seq![':'] + hex_chars(g1 as int) + seq![':'] + hex_chars(g2 as int)
        + seq![':'] + hex_chars(g3 as int) + seq![':'] + hex_chars(g4 as int) + seq![':']
        + hex_chars(g5 as int) + seq![':'] + hex_chars(g6 as int) + seq![':'] + hex_chars(
        g7 as int,
    )
}

/// Text of an address.
pub open spec fn ip_chars(ip: IpAddress) -> Seq<char> {
    match ip {
        IpAddress::V4(a, b, c, d) => ipv4_chars(a, b, c, d),
        IpAddress::V6(g0, g1, g2, g3, g4, g5, g6, g7) => ipv6_chars(g0, g1, g2, g3, g4, g5, g6, g7),
    }
}

/// The one-character text of a decimal digit.
fn digit_str(d: u8) -> (r: &'static str)
    requires
        d <= 9,
    ensures
        r@ == seq![digit_char(d as int)],
{
    proof {
        reveal_strlit("0");
        reveal_strlit("1");
        reveal_strlit("2");
        reveal_strlit("3");
        reveal_strlit("4");
        reveal_strlit("5");
        reveal_strlit("6");
        reveal_strlit("7");
        reveal_strlit("8");
        reveal_strlit("9");
    }
    match d {
        0 => "0",
        1 => "1",
        2 => "2",
        3 => "3",
        4 => "4",
        5 => "5",
        6 => "6",
        7 => "7",
        8 => "8",
        _ => "9",
    }
}

/// The one-character text of a hexadecimal digit, lower case.
fn hex_digit_str(d: u8) -> (r: &'static str)
    requires
        d <= 15,
    ensures
        r@ == seq![hex_char(d as int)],
{
    proof {
        reveal_strlit("a");
        reveal_strlit("b");
        reveal_strlit("c");
        reveal_strlit("d");
        reveal_strlit("e");
        reveal_strlit("f");
    }
    if d <= 9 {
        digit_str(d)
    } else {
        match d {
            10 => "a",
            11 => "b",
            12 => "c",
            13 => "d",
            14 => "e",
            _ => "f",
        }
    }
}

/// Append the decimal rendering of `n`.
pub fn append_dec(s: &mut String, n: u8)
    ensures
        final(s)@ == old(s)@ + dec_chars(n as int),
    decreases n,
{
    if n >= 10 {
        append_dec(s, n / 10);
        s.append(digit_str(n % 10));
    } else {
        s.append(digit_str(n));
    }
}

/// Append the hexadecimal rendering of `n`, lower case.
pub fn append_hex(s: &mut String, n: u16)
    ensures
        final(s)@ == old(s)@ + hex_chars(n as int),
    decreases n,
{
    if n >= 16 {
        append_hex(s, n / 16);
        s.append(hex_digit_str((n % 16) as u8));
    } else {
        s.append(hex_digit_str(n as u8));
    }
}

/// Append the text of an address.
pub fn append_ip(s: &mut String, ip: &IpAddress)
    ensures
        final(s)@ == old(s)@ + ip_chars(*ip),
{
    match ip {
        IpAddress::V4(a, b, c, d) => {
            append_dec(s, *a);
            s.append(".");
            append_dec(s, *b);
            s.append(".");
            append_dec(s, *c);
            s.append(".");
            append_dec(s, *d);
            proof {
                reveal_strlit(".");
            }
        },
        IpAddress::V6(g0, g1, g2, g3, g4, g5, g6, g7) => {
            append_hex(s, *g0);
            s.append(":");
            append_hex(s, *g1);
            s.append(":");
            append_hex(s, *g2);
            s.append(":");
            append_hex(s, *g3);
            s.append(":");
            append_hex(s, *g4);
            s.append(":");
            append_hex(s, *g5);
            s.append(":");
            append_hex(s, *g6);
            s.append(":");
            append_hex(s, *g7);
            proof {
                reveal_strlit(":");
            }
        },
    }
}

/// Render an address as text.
pub fn ip_to_string(ip: &IpAddress) -> (r: String)
    ensures
        r@ == ip_chars(*ip),
{
    let mut s = String::new();
    append_ip(&mut s, ip);
    proof {
        assert(s@ =~= ip_chars(*ip));
    }
    s
}

/// Parse an IP literal from text.
pub fn parse_ip(s: &str) -> (r: Option<IpAddress>)
    ensures
        r == spec_parse_ip(s@),
{
    let cs = chars_of(s);
    match parse_ipv4_chars(&cs) {
        Some((a, b, c, d)) => Some(IpAddress::V4(a, b, c, d)),
        None => {
            match parse_ipv6_chars(&cs) {
                Some(g) => Some(
                    IpAddress::V6(g[0], g[1], g[2], g[3], g[4], g[5], g[6], g[7]),
                ),
                None => None,
            }
        },
    }
}


/// A numeral's value depends only on the characters it reads.
pub proof fn lemma_dec_val_agree(p: Seq<char>, q: Seq<char>, n: int)
    requires
        forall|i: int| 0 <= i < n ==> p[i] == q[i],
    ensures
        dec_val(p, n) == dec_val(q, n),
    decreases n,
{
    if n > 0 {
        lemma_dec_val_agree(p, q, n - 1);
    }
}

/// A hexadecimal numeral's value depends only on the characters it reads.
pub proof fn lemma_hex_val_agree(p: Seq<char>, q: Seq<char>, n: int)
    requires
        forall|i: int| 0 <= i < n ==> p[i] == q[i],
    ensures
        hex_val(p, n) == hex_val(q, n),
    decreases n,
{
    if n > 0 {
        lemma_hex_val_agree(p, q, n - 1);
    }
}

/// The decimal rendering of a value reads back as that value: its digits
/// are decimal digits without a leading zero, it is as short as the value
/// allows, and it contains no separator character.
pub proof fn lemma_dec_chars_props(v: int)
    requires
        0 <= v,
    ensures
        dec_chars(v).len() >= 1,
        forall|i: int| 0 <= i < dec_chars(v).len() ==> is_dec_digit(#[trigger] dec_chars(v)[i]),
        dec_chars(v).len() > 1 ==> dec_chars(v)[0] != '0',
        dec_val(dec_chars(v), dec_chars(v).len() as int) == v,
        v <= 9 ==> dec_chars(v).len() == 1,
        v <= 99 ==> dec_chars(v).len() <= 2,
        v <= 255 ==> dec_chars(v).len() <= 3,
        avoids(dec_chars(v), '.'),
        avoids(dec_chars(v), ':'),
    decreases v,
{
    reveal_with_fuel(dec_val, 3);
    if v < 10 {
        assert(dec_chars(v) == seq![digit_char(v)]);
        assert(dec_val(dec_chars(v), 1) == dec_digit_val(digit_char(v)));
    } else {
        lemma_dec_chars_props(v / 10);
        let s = dec_chars(v / 10);
        let w = dec_chars(v);
        assert(w == s + seq![digit_char(v % 10)]);
        assert(forall|i: int| 0 <= i < s.len() ==> w[i] == s[i]);
        lemma_dec_val_agree(w, s, s.len() as int);
        assert(dec_val(w, w.len() as int) == dec_val(w, s.len() as int) * 10 + dec_digit_val(
            w[w.len() - 1],
        ));
        assert(dec_digit_val(digit_char(v % 10)) == v % 10);
        assert(v / 10 >= 1);
        assert(s[0] != '0') by {
            if s.len() == 1 {
                assert(s == dec_chars(v / 10));
                assert(dec_val(s, 1) == v / 10);
                assert(dec_digit_val(s[0]) >= 1);
            }
        }
    }
}

/// The hexadecimal rendering of a value reads back as that value: its
/// digits are hexadecimal, it is as short as the value allows, and it
/// contains no separator character.
pub proof fn lemma_hex_chars_props(v: int)
    requires
        0 <= v,
    ensures
        hex_chars(v).len() >= 1,
        forall|i: int| 0 <= i < hex_chars(v).len() ==> is_hex_digit(#[trigger] hex_chars(v)[i]),
        hex_val(hex_chars(v), hex_chars(v).len() as int) == v,
        v <= 0xf ==> hex_chars(v).len() == 1,
        v <= 0xff ==> hex_chars(v).len() <= 2,
        v <= 0xfff ==> hex_chars(v).len() <= 3,
        v <= 0xffff ==> hex_chars(v).len() <= 4,
        avoids(hex_chars(v), '.'),
        avoids(hex_chars(v), ':'),
    decreases v,
{
    reveal_with_fuel(hex_val, 3);
    if v < 16 {
        assert(hex_chars(v) == seq![hex_char(v)]);
        assert(hex_val(hex_chars(v), 1) == hex_digit_val(hex_char(v)));
    } else {
        lemma_hex_chars_props(v / 16);
        let s = hex_chars(v / 16);
        let w = hex_chars(v);
        assert(w == s + seq![hex_char(v % 16)]);
        assert(forall|i: int| 0 <= i < s.len() ==> w[i] == s[i]);
        lemma_hex_val_agree(w, s, s.len() as int);
        assert(hex_val(w, w.len() as int) == hex_val(w, s.len() as int) * 16 + hex_digit_val(
            w[w.len() - 1],
        ));
        assert(hex_digit_val(hex_char(v % 16)) == v % 16);
    }
}

/// The sequence holds no occurrence of the character.
pub open spec fn avoids(s: Seq<char>, c: char) -> bool {
    forall|i: int| 0 <= i < s.len() ==> (#[trigger] s[i]) != c
}

/// Splitting a sequence free of the separator yields just that sequence.
pub proof fn lemma_split_no_sep(u: Seq<char>, sep: char)
    requires
        avoids(u, sep),
    ensures
        spec_split(u, sep) =~~= seq![u],
    decreases u.len(),
{
    if u.len() > 0 {
        assert(avoids(u.drop_first(), sep)) by {
            assert(forall|i: int|
                0 <= i < u.drop_first().len() ==> (#[trigger] u.drop_first()[i]) == u[i + 1]);
        }
        lemma_split_no_sep(u.drop_first(), sep);
        let r = spec_split(u.drop_first(), sep);
        assert(seq![u[0]] + r[0] =~= u);
    }
}

/// A separator after a separator-free piece splits right there.
pub proof fn lemma_split_concat(u: Seq<char>, rest: Seq<char>, sep: char)
    requires
        avoids(u, sep),
    ensures
        spec_split(u + seq![sep] + rest, sep) =~~= seq![u] + spec_split(rest, sep),
    decreases u.len(),
{
    let s = u + seq![sep] + rest;
    if u.len() == 0 {
        assert(s[0] == sep);
        assert(s.drop_first() =~= rest);
        assert(spec_split(s, sep) =~~= seq![Seq::<char>::empty()] + spec_split(rest, sep));
        assert(seq![u] =~~= seq![Seq::<char>::empty()]);
    } else {
        assert(s[0] == u[0]);
        assert(s[0] != sep);
        assert(s.drop_first() =~= u.drop_first() + seq![sep] + rest);
        assert(avoids(u.drop_first(), sep)) by {
            assert(forall|i: int|
                0 <= i < u.drop_first().len() ==> (#[trigger] u.drop_first()[i]) == u[i + 1]);
        }
        lemma_split_concat(u.drop_first(), rest, sep);
        let r = spec_split(s.drop_first(), sep);
        lemma_split_nonempty(rest, sep);
        assert(r[0] == u.drop_first());
        assert(seq![s[0]] + r[0] =~= u);
        assert(r.drop_first() =~~= spec_split(rest, sep));
    }
}

/// The pieces joined by the separator.
pub open spec fn join_with(pieces: Seq<Seq<char>>, sep: char) -> Seq<char>
    decreases pieces.len(),
{
    if pieces.len() == 0 {
        Seq::<char>::empty()
    } else if pieces.len() == 1 {
        pieces[0]
    } else {
        pieces.first() + seq![sep] + join_with(pieces.drop_first(), sep)
    }
}

/// Splitting undoes joining, when no piece holds the separator.
pub proof fn lemma_split_join(pieces: Seq<Seq<char>>, sep: char)
    requires
        pieces.len() >= 1,
        forall|i: int| 0 <= i < pieces.len() ==> avoids(#[trigger] pieces[i], sep),
    ensures
        spec_split(join_with(pieces, sep), sep) =~~= pieces,
    decreases pieces.len(),
{
    if pieces.len() == 1 {
        lemma_split_no_sep(pieces[0], sep);
        assert(spec_split(join_with(pieces, sep), sep) =~~= seq![pieces[0]]);
        assert(seq![pieces[0]] =~~= pieces);
    } else {
        let rest = pieces.drop_first();
        assert(forall|i: int| 0 <= i < rest.len() ==> avoids(#[trigger] rest[i], sep)) by {
            assert(forall|i: int| 0 <= i < rest.len() ==> rest[i] == pieces[i + 1]);
        }
        lemma_split_join(rest, sep);
        lemma_split_concat(pieces.first(), join_with(rest, sep), sep);
        assert(spec_split(join_with(pieces, sep), sep) =~~= seq![pieces.first()] + spec_split(
            join_with(rest, sep),
            sep,
        ));
    }
}

/// No piece holds the character, so neither does the joined text, when the
/// separator is another character.
pub proof fn lemma_join_avoids(pieces: Seq<Seq<char>>, sep: char, c: char)
    requires
        sep != c,
        forall|i: int| 0 <= i < pieces.len() ==> avoids(#[trigger] pieces[i], c),
    ensures
        avoids(join_with(pieces, sep), c),
    decreases pieces.len(),
{
    if pieces.len() > 1 {
        let rest = pieces.drop_first();
        assert(forall|i: int| 0 <= i < rest.len() ==> avoids(#[trigger] rest[i], c)) by {
            assert(forall|i: int| 0 <= i < rest.len() ==> rest[i] == pieces[i + 1]);
        }
        lemma_join_avoids(rest, sep, c);
        lemma_concat_avoids(pieces.first(), seq![sep], c);
        lemma_concat_avoids(pieces.first() + seq![sep], join_with(rest, sep), c);
        assert(join_with(pieces, sep) =~= (pieces.first() + seq![sep]) + join_with(rest, sep));
    }
}

/// Concatenation introduces no new character.
pub proof fn lemma_concat_avoids(x: Seq<char>, y: Seq<char>, c: char)
    requires
        avoids(x, c),
        avoids(y, c),
    ensures
        avoids(x + y, c),
{
    assert forall|i: int| 0 <= i < (x + y).len() implies (#[trigger] (x + y)[i]) != c by {
        if i < x.len() {
            assert((x + y)[i] == x[i]);
        } else {
            assert((x + y)[i] == y[i - x.len()]);
        }
    }
}

/// An octet's rendering parses back to the octet.
pub proof fn lemma_parse_octet_of_dec(v: u8)
    ensures
        spec_parse_octet(dec_chars(v as int)) == Some(v),
{
    lemma_dec_chars_props(v as int);
    assert(is_octet_text(dec_chars(v as int)));
}

/// A group's rendering parses back to the group.
pub proof fn lemma_parse_group_of_hex(v: u16)
    ensures
        spec_parse_group(hex_chars(v as int)) == Some(v),
{
    lemma_hex_chars_props(v as int);
    assert(is_hex_group(hex_chars(v as int)));
}

/// Rendering an IPv4 address and parsing the text yields the address back.
#[verifier::rlimit(100)]
pub proof fn lemma_v4_round_trip(a: u8, b: u8, c: u8, d: u8)
    ensures
        spec_parse_ipv4(ipv4_chars(a, b, c, d)) == Some((a, b, c, d)),
{
    let pa = dec_chars(a as int);
    let pb = dec_chars(b as int);
    let pc = dec_chars(c as int);
    let pd = dec_chars(d as int);
    lemma_dec_chars_props(a as int);
    lemma_dec_chars_props(b as int);
    lemma_dec_chars_props(c as int);
    lemma_dec_chars_props(d as int);
    let s = ipv4_chars(a, b, c, d);
    let tail2 = pc + seq!['.'] + pd;
    let tail1 = pb + seq!['.'] + tail2;
    assert(s =~= pa + seq!['.'] + tail1);
    lemma_split_no_sep(pd, '.');
    lemma_split_concat(pc, pd, '.');
    lemma_split_concat(pb, tail2, '.');
    lemma_split_concat(pa, tail1, '.');
    let parts = spec_split(s, '.');
    assert(parts =~~= seq![pa, pb, pc, pd]);
    lemma_parse_octet_of_dec(a);
    lemma_parse_octet_of_dec(b);
    lemma_parse_octet_of_dec(c);
    lemma_parse_octet_of_dec(d);
}

/// Rotate one parenthesis: peel the rightmost piece off a left-nested
/// concatenation.
pub proof fn lemma_rotate(a: Seq<char>, y: Seq<char>, c: Seq<char>, z: Seq<char>)
    ensures
        ((a + y) + c) + z == a + ((y + c) + z),
{
    vstd::seq_lib::lemma_concat_associative(a + y, c, z);
    vstd::seq_lib::lemma_concat_associative(a, y, c + z);
    vstd::seq_lib::lemma_concat_associative(y, c, z);
}

/// The IPv6 rendering, regrouped to the right.
pub proof fn lemma_ipv6_chars_assoc(
    g0: u16,
    g1: u16,
    g2: u16,
    g3: u16,
    g4: u16,
    g5: u16,
    g6: u16,
    g7: u16,
)
    ensures
        ipv6_chars(g0, g1, g2, g3, g4, g5, g6, g7) =~= hex_chars(g0 as int) + seq![':'] + (
        hex_chars(g1 as int) + seq![':'] + (hex_chars(g2 as int) + seq![':'] + (hex_chars(
            g3 as int,
        ) + seq![':'] + (hex_chars(g4 as int) + seq![':'] + (hex_chars(g5 as int) + seq![':'] + (
        hex_chars(g6 as int) + seq![':'] + hex_chars(g7 as int))))))),
{
    let p0 = hex_chars(g0 as int);
    let p1 = hex_chars(g1 as int);
    let p2 = hex_chars(g2 as int);
    let p3 = hex_chars(g3 as int);
    let p4 = hex_chars(g4 as int);
    let p5 = hex_chars(g5 as int);
    let p6 = hex_chars(g6 as int);
    let p7 = hex_chars(g7 as int);
    let c = seq![':'];
    let q0 = p0 + c;
    let q1 = (q0 + p1) + c;
    let q2 = (q1 + p2) + c;
    let q3 = (q2 + p3) + c;
    let q4 = (q3 + p4) + c;
    let q5 = (q4 + p5) + c;
    let r7 = p7;
    let r6 = (p6 + c) + r7;
    let r5 = (p5 + c) + r6;
    let r4 = (p4 + c) + r5;
    let r3 = (p3 + c) + r4;
    let r2 = (p2 + c) + r3;
    let r1 = (p1 + c) + r2;
    assert(ipv6_chars(g0, g1, g2, g3, g4, g5, g6, g7) == ((q5 + p6) + c) + p7);
    lemma_rotate(q5, p6, c, p7);
    assert(q5 + r6 == ((q4 + p5) + c) + r6);
    lemma_rotate(q4, p5, c, r6);
    lemma_rotate(q3, p4, c, r5);
    lemma_rotate(q2, p3, c, r4);
    lemma_rotate(q1, p2, c, r3);
    lemma_rotate(q0, p1, c, r2);
    assert(ipv6_chars(g0, g1, g2, g3, g4, g5, g6, g7) == q0 + r1);
}

/// The IPv6 rendering is the eight group texts joined by colons.
pub proof fn lemma_ipv6_chars_join(
    g0: u16,
    g1: u16,
    g2: u16,
    g3: u16,
    g4: u16,
    g5: u16,
    g6: u16,
    g7: u16,
)
    ensures
        ipv6_chars(g0, g1, g2, g3, g4, g5, g6, g7) =~= join_with(
            seq![
                hex_chars(g0 as int),
                hex_chars(g1 as int),
                hex_chars(g2 as int),
                hex_chars(g3 as int),
                hex_chars(g4 as int),
                hex_chars(g5 as int),
                hex_chars(g6 as int),
                hex_chars(g7 as int),
            ],
            ':',
        ),
{
    let p0 = hex_chars(g0 as int);
    let p1 = hex_chars(g1 as int);
    let p2 = hex_chars(g2 as int);
    let p3 = hex_chars(g3 as int);
    let p4 = hex_chars(g4 as int);
    let p5 = hex_chars(g5 as int);
    let p6 = hex_chars(g6 as int);
    let p7 = hex_chars(g7 as int);
    assert(seq![p6, p7].drop_first() =~= seq![p7]);
    assert(seq![p5, p6, p7].drop_first() =~= seq![p6, p7]);
    assert(seq![p4, p5, p6, p7].drop_first() =~= seq![p5, p6, p7]);
    assert(seq![p3, p4, p5, p6, p7].drop_first() =~= seq![p4, p5, p6, p7]);
    assert(seq![p2, p3, p4, p5, p6, p7].drop_first() =~= seq![p3, p4, p5, p6, p7]);
    assert(seq![p1, p2, p3, p4, p5, p6, p7].drop_first() =~= seq![p2, p3, p4, p5, p6, p7]);
    assert(seq![p0, p1, p2, p3, p4, p5, p6, p7].drop_first() =~= seq![
        p1,
        p2,
        p3,
        p4,
        p5,
        p6,
        p7,
    ]);
    assert(join_with(seq![p7], ':') == p7);
    assert(join_with(seq![p6, p7], ':') == p6 + seq![':'] + p7);
    assert(join_with(seq![p5, p6, p7], ':') == p5 + seq![':'] + (p6 + seq![':'] + p7));
    assert(join_with(seq![p4, p5, p6, p7], ':') == p4 + seq![':'] + (p5 + seq![':'] + (p6
        + seq![':'] + p7)));
    assert(join_with(seq![p3, p4, p5, p6, p7], ':') == p3 + seq![':'] + (p4 + seq![':'] + (p5
        + seq![':'] + (p6 + seq![':'] + p7))));
    assert(join_with(seq![p2, p3, p4, p5, p6, p7], ':') == p2 + seq![':'] + (p3 + seq![':'] + (p4
        + seq![':'] + (p5 + seq![':'] + (p6 + seq![':'] + p7)))));
    assert(join_with(seq![p1, p2, p3, p4, p5, p6, p7], ':') == p1 + seq![':'] + (p2 + seq![':'] + (
    p3 + seq![':'] + (p4 + seq![':'] + (p5 + seq![':'] + (p6 + seq![':'] + p7))))));
    assert(join_with(seq![p0, p1, p2, p3, p4, p5, p6, p7], ':') == p0 + seq![':'] + (p1
        + seq![':'] + (p2 + seq![':'] + (p3 + seq![':'] + (p4 + seq![':'] + (p5 + seq![':'] + (p6
        + seq![':'] + p7)))))));
    lemma_ipv6_chars_assoc(g0, g1, g2, g3, g4, g5, g6, g7);
}

/// Rendering an IPv6 address and parsing the text yields the address back.
#[verifier::rlimit(100)]
pub proof fn lemma_v6_round_trip(
    g0: u16,
    g1: u16,
    g2: u16,
    g3: u16,
    g4: u16,
    g5: u16,
    g6: u16,
    g7: u16,
)
    ensures
        spec_parse_ipv4(ipv6_chars(g0, g1, g2, g3, g4, g5, g6, g7)) is None,
        spec_parse_ipv6(ipv6_chars(g0, g1, g2, g3, g4, g5, g6, g7)) == Some(
            seq![g0, g1, g2, g3, g4, g5, g6, g7],
        ),
{
    let pieces = seq![
        hex_chars(g0 as int),
        hex_chars(g1 as int),
        hex_chars(g2 as int),
        hex_chars(g3 as int),
        hex_chars(g4 as int),
        hex_chars(g5 as int),
        hex_chars(g6 as int),
        hex_chars(g7 as int),
    ];
    lemma_hex_chars_props(g0 as int);
    lemma_hex_chars_props(g1 as int);
    lemma_hex_chars_props(g2 as int);
    lemma_hex_chars_props(g3 as int);
    lemma_hex_chars_props(g4 as int);
    lemma_hex_chars_props(g5 as int);
    lemma_hex_chars_props(g6 as int);
    lemma_hex_chars_props(g7 as int);
    let s = ipv6_chars(g0, g1, g2, g3, g4, g5, g6, g7);
    lemma_ipv6_chars_join(g0, g1, g2, g3, g4, g5, g6, g7);

    // the text holds no dot, so it is no IPv4 literal
    lemma_join_avoids(pieces, ':', '.');
    lemma_split_no_sep(s, '.');
    assert(spec_split(s, '.').len() == 1);

    // split on the colons into the eight group texts
    lemma_split_join(pieces, ':');
    let parts = spec_split(s, ':');
    assert(parts =~~= pieces);

    lemma_first_empty(parts, 0);
    assert(first_empty_from(parts, 0) == 8) by {
        if first_empty_from(parts, 0) < 8 {
            assert(parts[first_empty_from(parts, 0)].len() == 0);
        }
    }
    lemma_parse_group_of_hex(g0);
    lemma_parse_group_of_hex(g1);
    lemma_parse_group_of_hex(g2);
    lemma_parse_group_of_hex(g3);
    lemma_parse_group_of_hex(g4);
    lemma_parse_group_of_hex(g5);
    lemma_parse_group_of_hex(g6);
    lemma_parse_group_of_hex(g7);
    assert(all_hex_groups(parts, 0, 8));
    assert(spec_parse_tail(parts, 0, 8) == Some(groups_of(parts, 0, 8)));
    assert(groups_of(parts, 0, 8) =~= seq![g0, g1, g2, g3, g4, g5, g6, g7]) by {
        assert(parts.subrange(0, 8) =~= parts);
    }
}

/// The rendering of any address parses back to that address: rendering
/// loses nothing.
pub proof fn lemma_render_parse_round_trip(ip: IpAddress)
    ensures
        spec_parse_ip(ip_chars(ip)) == Some(ip),
{
    match ip {
        IpAddress::V4(a, b, c, d) => {
            lemma_v4_round_trip(a, b, c, d);
        },
        IpAddress::V6(g0, g1, g2, g3, g4, g5, g6, g7) => {
            lemma_v6_round_trip(g0, g1, g2, g3, g4, g5, g6, g7);
            let g = spec_parse_ipv6(ip_chars(ip))->Some_0;
            assert(g == seq![g0, g1, g2, g3, g4, g5, g6, g7]);
            assert(g[0] == g0 && g[1] == g1 && g[2] == g2 && g[3] == g3 && g[4] == g4 && g[5]
                == g5 && g[6] == g6 && g[7] == g7);
        },
    }
}

} // verus!
