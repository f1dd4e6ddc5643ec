//! Pollution (tampering) comparator: classifying a pair of resolver answer
//! sets as polluted or clean.
//!
//! Resolution itself is network I/O and lives outside the library; it hands
//! in the two plain address lists.

use vstd::prelude::*;
use crate::ip::{ip_chars, append_ip, IpAddress};

verus! {

/// Result of one pollution check.
#[derive(Clone, Debug)]
pub struct PollutionResult {
    /// The checked domain, without its trailing dots.
    pub domain: String,
    /// Addresses the system resolver returned.
    pub system_ips: Vec<IpAddress>,
    /// Addresses the reference (public) resolver returned.
    pub public_ips: Vec<IpAddress>,
    /// Whether the answers diverge in a way the policy flags.
    pub is_polluted: bool,
    /// Human-readable explanation; carries no machine-checked semantics
    /// beyond its stated text.
    pub details: String,
}

impl PollutionResult {
    /// Assemble a pollution check result.
    pub fn new(
        domain: String,
        system_ips: Vec<IpAddress>,
        public_ips: Vec<IpAddress>,
        is_polluted: bool,
        details: String,
    ) -> (r: Self)
        ensures
            r.domain == domain,
            r.system_ips == system_ips,
            r.public_ips == public_ips,
            r.is_polluted == is_polluted,
            r.details == details,
    {
        PollutionResult { domain, system_ips, public_ips, is_polluted, details }
    }
}

/// The fixed allow-list of well-known public resolver addresses.
pub open spec fn spec_public_dns_ips() -> Seq<IpAddress> {
    seq![
        IpAddress::V4(8, 8, 8, 8),
        IpAddress::V4(8, 8, 4, 4),
        IpAddress::V4(1, 1, 1, 1),
        IpAddress::V4(1, 0, 0, 1),
        IpAddress::V4(9, 9, 9, 9),
        IpAddress::V4(208, 67, 222, 222),
        IpAddress::V4(208, 67, 220, 220),
        IpAddress::V6(0x2001, 0x4860, 0x4860, 0, 0, 0, 0, 0x8888),
        IpAddress::V6(0x2001, 0x4860, 0x4860, 0, 0, 0, 0, 0x8844),
        IpAddress::V6(0x2606, 0x4700, 0x4700, 0, 0, 0, 0, 0x1111),
        IpAddress::V6(0x2606, 0x4700, 0x4700, 0, 0, 0, 0, 0x1001),
        IpAddress::V6(0x2620, 0xfe, 0, 0, 0, 0, 0, 0xfe),
        IpAddress::V6(0x2620, 0xfe, 0, 0, 0, 0, 0, 0x9),
    ]
}

/// The pollution decision: both answer sets are nonempty, and some system
/// address is neither among the reference answers nor on the allow-list.
pub open spec fn spec_polluted(
    sys: Seq<IpAddress>,
    pubs: Seq<IpAddress>,
    allow: Seq<IpAddress>,
) -> bool {
    &&& sys.len() > 0
    &&& pubs.len() > 0
    &&& exists|i: int|
        0 <= i < sys.len() && !pubs.contains(#[trigger] sys[i]) && !allow.contains(sys[i])
}

/// Whether the list holds the address.
pub fn contains_ip(v: &Vec<IpAddress>, x: &IpAddress) -> (r: bool)
    ensures
        r == v@.contains(*x),
{
    let n = v.len();
    let mut i: usize = 0;
    while i < n
        invariant
            i <= n,
            n == v@.len(),
            forall|j: int| 0 <= j < i ==> v@[j] != *x,
        decreases n - i,
    {
        if v[i] == *x {
            assert(v@.contains(*x));
            return true;
        }
        i += 1;
    }
    assert(!v@.contains(*x));
    false
}

/// Text of an address list, in the shape `[a, b, c]`.
pub open spec fn ip_list_chars(ips: Seq<IpAddress>) -> Seq<char> {
    seq!['['] + ip_list_inner(ips) + seq![']']
}

/// The comma-joined inside of an address list.
pub open spec fn ip_list_inner(ips: Seq<IpAddress>) -> Seq<char>
    decreases ips.len(),
{
    if ips.len() == 0 {
        Seq::<char>::empty()
    } else if ips.len() == 1 {
        ip_chars(ips[0])
    } else {
        ip_list_inner(ips.drop_last()) + seq![',', ' '] + ip_chars(ips.last())
    }
}

/// Append the text of an address list.
pub fn append_ip_list(s: &mut String, ips: &Vec<IpAddress>)
    ensures
        final(s)@ == old(s)@ + ip_list_chars(ips@),
{
    s.append("[");
    proof {
        reveal_strlit("[");
    }
    let n = ips.len();
    let mut i: usize = 0;
    while i < n
        invariant
            i <= n,
            n == ips@.len(),
            s@ == old(s)@ + seq!['['] + ip_list_inner(ips@.take(i as int)),
        decreases n - i,
    {
        if i > 0 {
            s.append(", ");
            proof {
                reveal_strlit(", ");
            }
        }
        append_ip(s, &ips[i]);
        proof {
            assert(ips@.take(i + 1).drop_last() =~= ips@.take(i as int));
            assert(ips@.take(i + 1).last() == ips@[i as int]);
            assert(s@ =~= old(s)@ + seq!['['] + ip_list_inner(ips@.take(i + 1)));
        }
        i += 1;
    }
    proof {
        assert(ips@.take(n as int) =~= ips@);
    }
    s.append("]");
    proof {
        reveal_strlit("]");
        assert(s@ =~= old(s)@ + ip_list_chars(ips@));
    }
}

/// Text of the explanation attached to a decision: it embeds both address
/// lists when pollution was flagged, only the reference list otherwise.
pub open spec fn spec_detail(sys: Seq<IpAddress>, pubs: Seq<IpAddress>, polluted: bool) -> Seq<
    char,
> {
    if polluted {
        "System DNS returned: "@ + ip_list_chars(sys) + ", Public DNS returned: "@ + ip_list_chars(
            pubs,
        )
    } else {
        "Both returned similar results: "@ + ip_list_chars(pubs)
    }
}

/// Number of characters left after stripping trailing dots.
pub open spec fn trimmed_len(d: Seq<char>) -> int
    decreases d.len(),
{
    if d.len() > 0 && d.last() == '.' {
        trimmed_len(d.drop_last())
    } else {
        d.len() as int
    }
}

/// `trimmed_len` stays within the sequence.
pub proof fn lemma_trimmed_len_bounds(d: Seq<char>)
    ensures
        0 <= trimmed_len(d) <= d.len(),
    decreases d.len(),
{
    if d.len() > 0 && d.last() == '.' {
        lemma_trimmed_len_bounds(d.drop_last());
    }
}

/// A domain in fully-qualified form: unchanged if it already ends in a dot,
/// else with one appended.
pub open spec fn normalized_domain(d: Seq<char>) -> Seq<char> {
    if d.len() > 0 && d.last() == '.' {
        d
    } else {
        d.push('.')
    }
}

/// Qualify a domain with a trailing dot for resolution.
pub fn normalize_domain(domain: &str) -> (r: String)
    ensures
        r@ == normalized_domain(domain@),
{
    let n = domain.unicode_len();
    if n > 0 && domain.get_char(n - 1) == '.' {
        assert(domain@.last() == '.');
        domain.to_owned()
    } else {
        let mut r = domain.to_owned();
        r.append(".");
        proof {
            reveal_strlit(".");
            assert(r@ =~= normalized_domain(domain@));
        }
        r
    }
}

/// Strip every trailing dot from a domain.
pub fn trim_trailing_dots(domain: &str) -> (r: String)
    ensures
        r@ == domain@.take(trimmed_len(domain@)),
        r@.len() == trimmed_len(domain@),
{
    proof {
        lemma_trimmed_len_bounds(domain@);
    }
    let n = domain.unicode_len();
    let mut k: usize = n;
    proof {
        assert(domain@.take(n as int) =~= domain@);
    }
    while k > 0 && domain.get_char(k - 1) == '.'
        invariant
            k <= n,
            n == domain@.len(),
            trimmed_len(domain@.take(k as int)) == trimmed_len(domain@),
        decreases k,
    {
        proof {
            assert(domain@.take(k as int).last() == domain@[k - 1]);
            assert(domain@.take(k as int).drop_last() =~= domain@.take(k - 1));
        }
        k -= 1;
    }
    proof {
        lemma_trimmed_len_bounds(domain@.take(k as int));
        if k > 0 {
            assert(domain@.take(k as int).last() == domain@[k - 1]);
        }
        assert(trimmed_len(domain@.take(k as int)) == k);
    }
    let piece = domain.substring_char(0, k);
    let r = piece.to_owned();
    proof {
        assert(r@ =~= domain@.take(trimmed_len(domain@)));
    }
    r
}

/// The resolution fallback policy: keep the first answer set if it is
/// nonempty, otherwise fall back to the second; never merge the two.
pub fn select_resolved(primary: Vec<IpAddress>, fallback: Vec<IpAddress>) -> (r: Vec<IpAddress>)
    ensures
        primary@.len() > 0 ==> r == primary,
        primary@.len() == 0 ==> r == fallback,
{
    if primary.len() > 0 {
        primary
    } else {
        fallback
    }
}

/// The comparator: holds the fixed allow-list and classifies answer-set
/// pairs.
pub struct PollutionChecker {
    /// Well-known public resolver addresses accepted in system answers.
    pub allow_list: Vec<IpAddress>,
}

impl PollutionChecker {
    /// Build a comparator with the fixed allow-list.
    pub fn new() -> (r: Self)
        ensures
            r.allow_list@ == spec_public_dns_ips(),
    {
        let mut allow: Vec<IpAddress> = Vec::new();
        allow.push(IpAddress::V4(8, 8, 8, 8));
        allow.push(IpAddress::V4(8, 8, 4, 4));
        allow.push(IpAddress::V4(1, 1, 1, 1));
        allow.push(IpAddress::V4(1, 0, 0, 1));
        allow.push(IpAddress::V4(9, 9, 9, 9));
        allow.push(IpAddress::V4(208, 67, 222, 222));
        allow.push(IpAddress::V4(208, 67, 220, 220));
        allow.push(IpAddress::V6(0x2001, 0x4860, 0x4860, 0, 0, 0, 0, 0x8888));
        allow.push(IpAddress::V6(0x2001, 0x4860, 0x4860, 0, 0, 0, 0, 0x8844));
        allow.push(IpAddress::V6(0x2606, 0x4700, 0x4700, 0, 0, 0, 0, 0x1111));
        allow.push(IpAddress::V6(0x2606, 0x4700, 0x4700, 0, 0, 0, 0, 0x1001));
        allow.push(IpAddress::V6(0x2620, 0xfe, 0, 0, 0, 0, 0, 0xfe));
        allow.push(IpAddress::V6(0x2620, 0xfe, 0, 0, 0, 0, 0, 0x9));
        proof {
            assert(allow@ =~= spec_public_dns_ips());
        }
        PollutionChecker { allow_list: allow }
    }

    /// Classify the two answer sets.
    ///
    /// No comparison is attempted when either side is empty; otherwise the
    /// pair is flagged when some system address is neither among the
    /// reference answers nor on the allow-list.
    pub fn detect_pollution(&self, system_ips: &Vec<IpAddress>, public_ips: &Vec<IpAddress>) -> (r:
        bool)
        ensures
            r == spec_polluted(system_ips@, public_ips@, self.allow_list@),
    {
        if system_ips.len() == 0 || public_ips.len() == 0 {
            return false;
        }
        let n = system_ips.len();
        let mut i: usize = 0;
        while i < n
            invariant
                i <= n,
                n == system_ips@.len(),
                n > 0,
                public_ips@.len() > 0,
                forall|j: int| 0 <= j < i ==> public_ips@.contains(#[trigger] system_ips@[j])
                    || self.allow_list@.contains(system_ips@[j]),
            decreases n - i,
        {
            let in_public = contains_ip(public_ips, &system_ips[i]);
            if !in_public {
                let in_allow = contains_ip(&self.allow_list, &system_ips[i]);
                if !in_allow {
                    assert(!public_ips@.contains(system_ips@[i as int]) && !self.allow_list@
                        .contains(system_ips@[i as int]));
                    return true;
                }
            }
            i += 1;
        }
        false
    }

    /// Build the full comparison result for a domain from the two answer
    /// sets: the decision, its explanation, and the domain stripped of
    /// trailing dots.
    pub fn evaluate(&self, domain: &str, system_ips: Vec<IpAddress>, public_ips: Vec<IpAddress>)
        -> (r: PollutionResult)
        ensures
            r.domain@ == domain@.take(trimmed_len(domain@)),
            r.system_ips == system_ips,
            r.public_ips == public_ips,
            r.is_polluted == spec_polluted(system_ips@, public_ips@, self.allow_list@),
            r.details@ == spec_detail(system_ips@, public_ips@, r.is_polluted),
    {
        let is_polluted = self.detect_pollution(&system_ips, &public_ips);
        let mut details = String::new();
        if is_polluted {
            details.append("System DNS returned: ");
            append_ip_list(&mut details, &system_ips);
            details.append(", Public DNS returned: ");
            append_ip_list(&mut details, &public_ips);
        } else {
            details.append("Both returned similar results: ");
            append_ip_list(&mut details, &public_ips);
        }
        proof {
            assert(details@ =~= spec_detail(system_ips@, public_ips@, is_polluted));
        }
        let domain_out = trim_trailing_dots(domain);
        PollutionResult {
            domain: domain_out,
            system_ips,
            public_ips,
            is_polluted,
            details,
        }
    }
}

/// Identical answer sets are never flagged: when the system and reference
/// resolvers return the same addresses, the decision is clean.
pub proof fn lemma_identical_sets_clean(
    sys: Seq<IpAddress>,
    pubs: Seq<IpAddress>,
    allow: Seq<IpAddress>,
)
    requires
        forall|x: IpAddress| sys.contains(x) <==> pubs.contains(x),
    ensures
        !spec_polluted(sys, pubs, allow),
{
    if spec_polluted(sys, pubs, allow) {
        let i = choose|i: int|
            0 <= i < sys.len() && !pubs.contains(#[trigger] sys[i]) && !allow.contains(sys[i]);
        assert(sys.contains(sys[i]));
    }
}

/// An empty system answer set is never flagged, whatever the reference
/// resolver returned.
pub proof fn lemma_empty_system_clean(pubs: Seq<IpAddress>, allow: Seq<IpAddress>)
    ensures
        !spec_polluted(Seq::<IpAddress>::empty(), pubs, allow),
{
}

} // verus!
