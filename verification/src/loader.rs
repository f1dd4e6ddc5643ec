//! Target-list assembly: merging loaded lists and reading inline targets.
//!
//! File reading and JSON decoding happen outside the library; they hand in
//! plain `DnsList` values and entry strings.

use vstd::prelude::*;
use crate::error::Error;
use crate::ip::{parse_ip, spec_parse_ip};
use crate::types::{lemma_lex_le_antisym, lemma_lex_le_refl, lemma_lex_le_total, lemma_lex_le_trans, lex_le, str_eq,
    str_le, DnsList, DnsServer};

verus! {

/// All servers of all lists, in order.
pub open spec fn flatten_lists(ls: Seq<DnsList>) -> Seq<DnsServer>
    decreases ls.len(),
{
    if ls.len() == 0 {
        Seq::<DnsServer>::empty()
    } else {
        ls.first().servers@ + flatten_lists(ls.drop_first())
    }
}

/// The addresses are strictly ascending: sorted, with no duplicate.
pub open spec fn strictly_sorted_by_ip(s: Seq<DnsServer>) -> bool {
    forall|a: int, b: int|
        0 <= a < b < s.len() ==> lex_le(#[trigger] s[a].ip@, #[trigger] s[b].ip@) && s[a].ip@
            != s[b].ip@
}

/// Every entry of `out` is one of the entries of `given`.
pub open spec fn all_from(given: Seq<DnsServer>, out: Seq<DnsServer>) -> bool {
    forall|i: int| 0 <= i < out.len() ==> given.contains(#[trigger] out[i])
}

/// Every address of `given` appears among the entries of `out`.
pub open spec fn covers(given: Seq<DnsServer>, out: Seq<DnsServer>) -> bool {
    forall|j: int|
        0 <= j < given.len() ==> exists|i: int|
            0 <= i < out.len() && (#[trigger] given[j]).ip@ == out[i].ip@
}

/// The addresses are sorted (duplicates allowed).
pub open spec fn sorted_by_ip(s: Seq<DnsServer>) -> bool {
    forall|a: int, b: int| 0 <= a < b < s.len() ==> lex_le(#[trigger] s[a].ip@, #[trigger] s[b].ip@)
}

/// Sort servers in place by their address text; the collection of servers
/// is unchanged.
fn sort_servers_by_ip(v: &mut Vec<DnsServer>)
    ensures
        final(v)@.to_multiset() == old(v)@.to_multiset(),
        final(v)@.len() == old(v)@.len(),
        sorted_by_ip(final(v)@),
{
    let n = v.len();
    if n <= 1 {
        return ;
    }
    let mut i: usize = 1;
    while i < n
        invariant
            1 <= i <= n,
            n == v@.len(),
            v@.to_multiset() == old(v)@.to_multiset(),
            sorted_by_ip(v@.take(i as int)),
        decreases n - i,
    {
        let mut p: usize = 0;
        while p < i && str_le(v[p].ip.as_str(), v[i].ip.as_str())
            invariant
                p <= i < n,
                n == v@.len(),
                forall|k: int| 0 <= k < p ==> lex_le(#[trigger] v@[k].ip@, v@[i as int].ip@),
            decreases i - p,
        {
            p += 1;
        }
        if p < i {
            proof {
                lemma_lex_le_total(v@[p as int].ip@, v@[i as int].ip@);
            }
            let ghost before = v@;
            let x = v.remove(i);
            v.insert(p, x);
            proof {
                broadcast use vstd::seq_lib::group_to_multiset_ensures;
                broadcast use vstd::seq_lib::to_multiset_insert;

                let after = v@;
                assert(after =~= before.remove(i as int).insert(p as int, x));
                assert(before.contains(x)) by {
                    assert(before[i as int] == x);
                }
                assert(after.to_multiset() =~= before.to_multiset()) by {
                    assert(before.remove(i as int).to_multiset() =~= before.to_multiset().remove(
                        x,
                    ));
                    assert(before.to_multiset().count(x) > 0);
                }
                assert(forall|k: int| 0 <= k < p ==> after[k] == before[k]);
                assert(after[p as int] == x);
                assert(forall|k: int| p < k <= i ==> after[k] == before[k - 1]);
                assert forall|a: int, b: int|
                    0 <= a < b < i implies lex_le(#[trigger] before[a].ip@, #[trigger]
                before[b].ip@) by {
                    assert(before.take(i as int)[a] == before[a]);
                    assert(before.take(i as int)[b] == before[b]);
                }
                assert forall|a: int, b: int|
                    0 <= a < b < i + 1 implies lex_le(#[trigger] after[a].ip@, #[trigger]
                after[b].ip@) by {
                    if b < p {
                        assert(lex_le(before[a].ip@, before[b].ip@));
                    } else if b == p {
                        assert(lex_le(before[a].ip@, x.ip@));
                    } else if a < p {
                        assert(lex_le(before[a].ip@, before[b - 1].ip@));
                    } else if a == p {
                        assert(lex_le(x.ip@, before[p as int].ip@));
                        if b - 1 == p {
                            assert(after[b] == before[p as int]);
                        } else {
                            assert(lex_le(before[p as int].ip@, before[b - 1].ip@));
                            lemma_lex_le_trans(x.ip@, before[p as int].ip@, before[b - 1].ip@);
                        }
                    } else {
                        assert(lex_le(before[a - 1].ip@, before[b - 1].ip@));
                    }
                }
                assert(sorted_by_ip(after.take(i + 1))) by {
                    assert(forall|k: int| 0 <= k < i + 1 ==> after.take(i + 1)[k] == after[k]);
                }
            }
        } else {
            proof {
                assert forall|a: int, b: int|
                    0 <= a < b < i + 1 implies lex_le(#[trigger] v@.take(i + 1)[a].ip@, #[trigger]
                v@.take(i + 1)[b].ip@) by {
                    if b < i {
                        assert(lex_le(v@.take(i as int)[a].ip@, v@.take(i as int)[b].ip@));
                    } else {
                        assert(lex_le(v@[a].ip@, v@[i as int].ip@));
                    }
                }
            }
        }
        i += 1;
    }
    proof {
        assert(v@.take(n as int) =~= v@);
    }
}

/// Keep the first target of each run of equal addresses in a sorted list.
fn dedup_sorted_by_ip(all: Vec<DnsServer>) -> (out: Vec<DnsServer>)
    requires
        sorted_by_ip(all@),
    ensures
        strictly_sorted_by_ip(out@),
        all_from(all@, out@),
        covers(all@, out@),
{
    let ghost sorted = all@;
    let mut out: Vec<DnsServer> = Vec::new();
    let mut k: usize = 0;
    let n = all.len();
    while k < n
        invariant
            k <= n,
            n == all@.len(),
            all@ == sorted,
            sorted_by_ip(sorted),
            strictly_sorted_by_ip(out@),
            k == 0 ==> out@.len() == 0,
            k > 0 ==> out@.len() > 0 && out@.last().ip@ == sorted[k - 1].ip@,
            forall|i: int| 0 <= i < out@.len() ==> sorted.contains(#[trigger] out@[i]),
            forall|j: int|
                0 <= j < k ==> exists|i: int|
                    0 <= i < out@.len() && (#[trigger] sorted[j]).ip@ == out@[i].ip@,
        decreases n - k,
    {
        let s = &all[k];
        let mut keep = true;
        if out.len() > 0 {
            let last = &out[out.len() - 1];
            if str_eq(last.ip.as_str(), s.ip.as_str()) {
                keep = false;
            }
        }
        if keep {
            let ghost pre_out = out@;
            let item = all[k].clone_server();
            out.push(item);
            proof {
                assert(sorted.contains(sorted[k as int]));
                assert(out@.last() == sorted[k as int]);
                assert forall|a: int, b: int|
                    0 <= a < b < out@.len() implies lex_le(#[trigger] out@[a].ip@, #[trigger]
                out@[b].ip@) && out@[a].ip@ != out@[b].ip@ by {
                    if b < out@.len() - 1 {
                        assert(lex_le(pre_out[a].ip@, pre_out[b].ip@) && pre_out[a].ip@
                            != pre_out[b].ip@);
                    } else {
                        // the new element follows everything kept so far;
                        // `a` indexes the old entries, so some step kept one
                        assert(pre_out.len() > 0);
                        assert(k > 0);
                        assert(pre_out.last().ip@ == sorted[k - 1].ip@);
                        assert(lex_le(sorted[k - 1].ip@, sorted[k as int].ip@));
                        if a < pre_out.len() - 1 {
                            assert(lex_le(pre_out[a].ip@, pre_out[pre_out.len() - 1].ip@));
                        } else {
                            lemma_lex_le_refl(pre_out[a].ip@);
                        }
                        assert(lex_le(out@[a].ip@, sorted[k - 1].ip@));
                        lemma_lex_le_trans(out@[a].ip@, sorted[k - 1].ip@, sorted[k as int].ip@);
                        if out@[a].ip@ == sorted[k as int].ip@ {
                            // then it also equals the previous address,
                            // against strictness or the kept check
                            lemma_lex_le_antisym(out@[a].ip@, sorted[k - 1].ip@);
                            if a < pre_out.len() - 1 {
                                assert(pre_out[a].ip@ != pre_out[pre_out.len() - 1].ip@);
                            }
                            assert(false);
                        }
                    }
                }
                assert forall|j: int|
                    0 <= j < k + 1 implies exists|i: int|
                        0 <= i < out@.len() && (#[trigger] sorted[j]).ip@ == out@[i].ip@ by {
                    if j < k {
                        let i0 = choose|i0: int|
                            0 <= i0 < pre_out.len() && sorted[j].ip@ == pre_out[i0].ip@;
                        assert(sorted[j].ip@ == out@[i0].ip@);
                    } else {
                        assert(sorted[j].ip@ == out@[out@.len() - 1].ip@);
                    }
                }
            }
        } else {
            proof {
                assert(out@.last().ip@ == sorted[k as int].ip@);
                assert forall|j: int|
                    0 <= j < k + 1 implies exists|i: int|
                        0 <= i < out@.len() && (#[trigger] sorted[j]).ip@ == out@[i].ip@ by {
                    if j < k {
                    } else {
                        assert(sorted[j].ip@ == out@[out@.len() - 1].ip@);
                    }
                }
            }
        }
        k += 1;
    }
    proof {
        assert(all_from(all@, out@));
        assert(covers(all@, out@));
    }
    out
}

/// Assembles target lists.
pub struct ConfigLoader {
}

impl ConfigLoader {
    /// Merge several lists into one: the union of their targets, one entry
    /// per address, listed in ascending address order.
    #[verifier::rlimit(60)]
    pub fn merge(lists: Vec<DnsList>) -> (r: DnsList)
        ensures
            strictly_sorted_by_ip(r.servers@),
            // every kept target is one of the given ones
            all_from(flatten_lists(lists@), r.servers@),
            // every given address is kept
            covers(flatten_lists(lists@), r.servers@),
    {
        let ghost given = flatten_lists(lists@);
        // flatten
        let mut rest = lists;
        let mut all: Vec<DnsServer> = Vec::new();
        proof {
            assert(given =~= all@ + flatten_lists(rest@));
        }
        loop
            invariant
                given == all@ + flatten_lists(rest@),
            ensures
                rest@.len() == 0,
                all@ == given,
            decreases rest@.len(),
        {
            if rest.len() == 0 {
                proof {
                    assert(flatten_lists(rest@) =~= Seq::<DnsServer>::empty());
                    assert(all@ =~= given);
                }
                break ;
            }
            let ghost pre = rest@;
            let mut l = rest.remove(0);
            all.append(&mut l.servers);
            proof {
                assert(pre.drop_first() =~= rest@);
                assert(given =~= all@ + flatten_lists(rest@));
            }
        }
        // sort by address
        sort_servers_by_ip(&mut all);
        let ghost sorted = all@;
        proof {
            broadcast use vstd::seq_lib::group_to_multiset_ensures;

            assert(given.to_multiset() == sorted.to_multiset());
        }
        let out = dedup_sorted_by_ip(all);
        proof {
            broadcast use vstd::seq_lib::group_to_multiset_ensures;

            assert(all_from(given, out@)) by {
                assert forall|i: int| 0 <= i < out@.len() implies given.contains(
                    #[trigger] out@[i],
                ) by {
                    assert(sorted.contains(out@[i]));
                    assert(sorted.to_multiset().count(out@[i]) > 0);
                }
            }
            assert(covers(given, out@)) by {
                assert forall|j: int|
                    0 <= j < given.len() implies exists|i: int|
                        0 <= i < out@.len() && (#[trigger] given[j]).ip@ == out@[i].ip@ by {
                    assert(given.contains(given[j]));
                    assert(given.to_multiset().count(given[j]) > 0);
                    assert(sorted.contains(given[j]));
                    let j2 = choose|j2: int| 0 <= j2 < sorted.len() && sorted[j2] == given[j];
                    assert(sorted[j2].ip@ == given[j].ip@);
                    let i2 = choose|i2: int|
                        0 <= i2 < out@.len() && sorted[j2].ip@ == out@[i2].ip@;
                    assert(given[j].ip@ == out@[i2].ip@);
                }
            }
        }
        DnsList { servers: out }
    }
}


/// `c` is ASCII whitespace, as entry trimming understands it.
pub open spec fn is_space(c: char) -> bool {
    c == ' ' || c == '\t' || c == '\n' || c == '\r'
}

/// `s` with its leading and trailing whitespace removed.
pub open spec fn trim_spec(s: Seq<char>) -> Seq<char>
    decreases s.len(),
{
    if s.len() > 0 && is_space(s.first()) {
        trim_spec(s.drop_first())
    } else if s.len() > 0 && is_space(s.last()) {
        trim_spec(s.drop_last())
    } else {
        s
    }
}

/// Index of the first `#` at or after `i`, or the length if none.
pub open spec fn hash_cut_from(s: Seq<char>, i: int) -> int
    decreases s.len() - i,
{
    if i < 0 || i >= s.len() {
        s.len() as int
    } else if s[i] == '#' {
        i
    } else {
        hash_cut_from(s, i + 1)
    }
}

/// Bounds and meaning of `hash_cut_from`.
pub proof fn lemma_hash_cut(s: Seq<char>, i: int)
    requires
        0 <= i <= s.len(),
    ensures
        i <= hash_cut_from(s, i) <= s.len(),
    decreases s.len() - i,
{
    if i < s.len() && s[i] != '#' {
        lemma_hash_cut(s, i + 1);
    }
}

/// The address piece of an inline entry: what stands before the first
/// `#`, trimmed.
pub open spec fn entry_ip(s: Seq<char>) -> Seq<char> {
    trim_spec(s.take(hash_cut_from(s, 0)))
}

/// The name piece of an inline entry: what stands after the first `#`,
/// trimmed; an entry without `#` is named by its address.
pub open spec fn entry_name(s: Seq<char>) -> Seq<char> {
    if hash_cut_from(s, 0) < s.len() {
        trim_spec(s.skip(hash_cut_from(s, 0) + 1))
    } else {
        entry_ip(s)
    }
}

/// The entry's address piece is a valid IP literal.
pub open spec fn entry_valid(s: Seq<char>) -> bool {
    spec_parse_ip(entry_ip(s)) is Some
}

/// Entry `j` is valid and target `j` was built from it, field by field.
pub open spec fn entry_matches(entries: Seq<String>, servers: Seq<DnsServer>, j: int) -> bool {
    &&& entry_valid(entries[j]@)
    &&& servers[j].ip@ == entry_ip(entries[j]@)
    &&& servers[j].name@ == entry_name(entries[j]@)
    &&& servers[j].delay is None
    &&& servers[j].status is Pending
}

/// The first `k` entries are valid and already turned into targets, field
/// by field.
pub open spec fn entries_match(entries: Seq<String>, servers: Seq<DnsServer>, k: int) -> bool {
    forall|j: int| 0 <= j < k ==> #[trigger] entry_matches(entries, servers, j)
}

/// Trim ASCII whitespace from both ends.
pub fn trim_str(s: &str) -> (r: String)
    ensures
        r@ == trim_spec(s@),
{
    let n = s.unicode_len();
    let mut lo: usize = 0;
    proof {
        assert(s@.subrange(0int, n as int) =~= s@);
    }
    loop
        invariant
            lo <= n,
            n == s@.len(),
            trim_spec(s@) == trim_spec(s@.subrange(lo as int, n as int)),
        ensures
            lo <= n,
            trim_spec(s@) == trim_spec(s@.subrange(lo as int, n as int)),
            lo == n || !is_space(s@[lo as int]),
        decreases n - lo,
    {
        if lo == n {
            break ;
        }
        let c = s.get_char(lo);
        if !(c == ' ' || c == '\t' || c == '\n' || c == '\r') {
            assert(!is_space(s@[lo as int]));
            break ;
        }
        proof {
            assert(s@.subrange(lo as int, n as int).first() == s@[lo as int]);
            assert(s@.subrange(lo as int, n as int).drop_first() =~= s@.subrange(
                lo + 1,
                n as int,
            ));
        }
        lo += 1;
    }
    let mut hi: usize = n;
    loop
        invariant
            lo <= hi <= n,
            n == s@.len(),
            lo == n || !is_space(s@[lo as int]),
            trim_spec(s@) == trim_spec(s@.subrange(lo as int, hi as int)),
        ensures
            lo <= hi <= n,
            trim_spec(s@) == trim_spec(s@.subrange(lo as int, hi as int)),
            hi == lo || !is_space(s@[hi - 1]),
        decreases hi,
    {
        if hi == lo {
            break ;
        }
        let c = s.get_char(hi - 1);
        if !(c == ' ' || c == '\t' || c == '\n' || c == '\r') {
            assert(!is_space(s@[hi - 1]));
            break ;
        }
        proof {
            assert(s@.subrange(lo as int, hi as int).last() == s@[hi - 1]);
            assert(s@.subrange(lo as int, hi as int).first() == s@[lo as int]);
            assert(s@.subrange(lo as int, hi as int).drop_last() =~= s@.subrange(
                lo as int,
                hi - 1,
            ));
        }
        hi -= 1;
    }
    proof {
        let w = s@.subrange(lo as int, hi as int);
        if w.len() > 0 {
            assert(w.first() == s@[lo as int]);
            assert(w.last() == s@[hi - 1]);
        }
        assert(trim_spec(w) == w);
    }
    let piece = s.substring_char(lo, hi);
    piece.to_owned()
}

/// Find the first `#`, or the end of the string.
pub fn find_hash(s: &str, i: usize) -> (r: usize)
    requires
        i <= s@.len(),
    ensures
        r == hash_cut_from(s@, i as int),
        i <= r <= s@.len(),
    decreases s@.len() - i,
{
    proof {
        lemma_hash_cut(s@, i as int);
    }
    let n = s.unicode_len();
    if i == n {
        i
    } else if s.get_char(i) == '#' {
        i
    } else {
        find_hash(s, i + 1)
    }
}

/// Split an inline entry into its address and name pieces.
pub fn split_entry(s: &str) -> (r: (String, String))
    ensures
        r.0@ == entry_ip(s@),
        r.1@ == entry_name(s@),
{
    let n = s.unicode_len();
    let cut = find_hash(s, 0);
    let ip_piece = s.substring_char(0, cut);
    proof {
        assert(s@.subrange(0int, cut as int) =~= s@.take(hash_cut_from(s@, 0int)));
    }
    let ip = trim_str(ip_piece);
    if cut < n {
        let name_piece = s.substring_char(cut + 1, n);
        proof {
            assert(s@.subrange(cut + 1, n as int) =~= s@.skip(hash_cut_from(s@, 0int) + 1));
        }
        let name = trim_str(name_piece);
        (ip, name)
    } else {
        let name = ip.clone();
        (ip, name)
    }
}

impl ConfigLoader {
    /// Build a target list from inline entries of the shape `IP#Name`.
    ///
    /// Succeeds exactly when every entry's address piece is an IP literal;
    /// otherwise the first bad entry is reported.
    pub fn from_args(dns_servers: Vec<String>) -> (r: Result<DnsList, Error>)
        ensures
            match r {
                Ok(list) => {
                    &&& list.servers@.len() == dns_servers@.len()
                    &&& entries_match(dns_servers@, list.servers@, dns_servers@.len() as int)
                },
                Err(e) => exists|i: int|
                    0 <= i < dns_servers@.len() && !entry_valid(#[trigger] dns_servers@[i]@) && (
                    forall|j: int| 0 <= j < i ==> entry_valid(#[trigger] dns_servers@[j]@)) && (
                    e matches Error::Parse(m) && m@ == "Invalid IP address: "@ + entry_ip(
                        dns_servers@[i]@,
                    )),
            },
    {
        let mut servers: Vec<DnsServer> = Vec::new();
        let n = dns_servers.len();
        let mut i: usize = 0;
        while i < n
            invariant
                i <= n,
                n == dns_servers@.len(),
                servers@.len() == i,
                entries_match(dns_servers@, servers@, i as int),
            decreases n - i,
        {
            let (ip, name) = split_entry(dns_servers[i].as_str());
            match parse_ip(ip.as_str()) {
                Some(_) => {
                    let ghost pre = servers@;
                    servers.push(DnsServer::new(name, ip));
                    proof {
                        assert(forall|j: int| 0 <= j < i ==> servers@[j] == pre[j]);
                        assert(entries_match(dns_servers@, servers@, i + 1)) by {
                            assert forall|j: int|
                                0 <= j < i + 1 implies #[trigger] entry_matches(
                                dns_servers@,
                                servers@,
                                j,
                            ) by {
                                if j == i {
                                    assert(entry_valid(dns_servers@[i as int]@));
                                    assert(servers@[i as int].ip@ == entry_ip(
                                        dns_servers@[i as int]@,
                                    ));
                                    assert(servers@[i as int].name@ == entry_name(
                                        dns_servers@[i as int]@,
                                    ));
                                } else {
                                    assert(entry_matches(dns_servers@, pre, j));
                                    assert(servers@[j] == pre[j]);
                                }
                            }
                        }
                    }
                },
                None => {
                    let mut m = String::new();
                    m.append("Invalid IP address: ");
                    m.append(ip.as_str());
                    proof {
                        assert(m@ =~= "Invalid IP address: "@ + entry_ip(dns_servers@[i as int]@));
                        assert(!entry_valid(dns_servers@[i as int]@));
                        assert forall|j: int|
                            0 <= j < i implies entry_valid(#[trigger] dns_servers@[j]@) by {
                            assert(entry_matches(dns_servers@, servers@, j));
                        }
                    }
                    return Err(Error::Parse(m));
                },
            }
            i += 1;
        }
        Ok(DnsList { servers })
    }
}


/// Whether a target passes the address-family filter. A target whose
/// address is no IP literal counts as IPv4, like the unparsed fallback
/// address it is listed under.
pub open spec fn family_pass(s: DnsServer, ipv4_only: bool, ipv6_only: bool) -> bool {
    let is_v6 = spec_parse_ip(s.ip@) matches Some(a) && a is V6;
    (!ipv4_only || !is_v6) && (!ipv6_only || is_v6)
}

impl ConfigLoader {
    /// Keep the targets of the requested address families, in order.
    pub fn filter_by_family(servers: Vec<DnsServer>, ipv4_only: bool, ipv6_only: bool) -> (r: Vec<
        DnsServer,
    >)
        ensures
            r@ == servers@.filter(|s: DnsServer| family_pass(s, ipv4_only, ipv6_only)),
    {
        let ghost pred = |s: DnsServer| family_pass(s, ipv4_only, ipv6_only);
        let mut out: Vec<DnsServer> = Vec::new();
        let n = servers.len();
        let mut i: usize = 0;
        proof {
            reveal(Seq::filter);
            assert(servers@.take(0int) =~= Seq::<DnsServer>::empty());
            assert(out@ =~= servers@.take(0int).filter(pred));
        }
        while i < n
            invariant
                i <= n,
                n == servers@.len(),
                out@ == servers@.take(i as int).filter(pred),
                pred == (|s: DnsServer| family_pass(s, ipv4_only, ipv6_only)),
            decreases n - i,
        {
            let s = &servers[i];
            let is_v6 = s.is_ipv6();
            let keep = (!ipv4_only || !is_v6) && (!ipv6_only || is_v6);
            proof {
                reveal(Seq::filter);
                assert(servers@.take(i + 1).drop_last() =~= servers@.take(i as int));
                assert(servers@.take(i + 1).last() == servers@[i as int]);
                assert(keep == pred(servers@[i as int]));
            }
            if keep {
                out.push(servers[i].clone_server());
                proof {
                    assert(out@ =~= servers@.take(i + 1).filter(pred));
                }
            } else {
                proof {
                    assert(out@ =~= servers@.take(i + 1).filter(pred));
                }
            }
            i += 1;
        }
        proof {
            assert(servers@.take(n as int) =~= servers@);
        }
        out
    }
}

} // verus!
