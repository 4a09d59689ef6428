//! Binding of clubs to their microsite homepages: equal titles, together with a
//! list of explicit override pairs.

use vstd::prelude::*;
use crate::order::{key_views, sort_order, sorted_order, KeyView, OrderKey};
use crate::menu::{decimal, push_decimal};
use crate::text::{chars_of, same_chars, str_eq, string_from};

verus! {

/// A content entity as the binding reads it: identity, type tag and title.
pub struct CmsNode {
    pub nid: u64,
    pub node_type: String,
    pub title: String,
}

/// A business number of a club entity.
pub struct ClubNumberRow {
    pub entity_id: u64,
    pub value: i64,
}

/// An explicit (club, homepage) pair for clubs whose homepage title differs.
pub struct OverridePair {
    pub club_nid: u64,
    pub homepage_nid: u64,
}

/// A club with its microsite homepage.
pub struct ClubMicrosite {
    /// Club entity identity.
    pub club_nid: u64,
    /// Business number; absent for an intraclub.
    pub club_number: Option<i64>,
    /// Club name.
    pub club_name: String,
    /// Homepage entity identity.
    pub homepage_nid: u64,
    /// Whether the club has no business number.
    pub is_intraclub: bool,
}

/// The known clubs whose homepage title differs from the club title, as pairs of
/// club and homepage identities.
pub fn default_overrides() -> (r: Vec<OverridePair>)
    ensures
        r@.len() == 2,
        r@[0].club_nid == 51008 && r@[0].homepage_nid == 55629,
        r@[1].club_nid == 47596 && r@[1].homepage_nid == 50698,
{
    let mut v: Vec<OverridePair> = Vec::new();
    v.push(OverridePair { club_nid: 51008, homepage_nid: 55629 });
    v.push(OverridePair { club_nid: 47596, homepage_nid: 50698 });
    v
}

/// `n` is a club entity.
pub open spec fn is_club(n: CmsNode) -> bool {
    n.node_type@ == "ssp_club"@
}

/// `n` is a microsite homepage entity.
pub open spec fn is_homepage(n: CmsNode) -> bool {
    n.node_type@ == "microsite_homepage"@
}

/// Pairs (club, homepage) of node positions, for homepage `h` and the clubs among
/// the first `j` nodes whose title equals its title.
pub open spec fn clubs_titled_as(nodes: Seq<CmsNode>, h: int, j: nat) -> Seq<(int, int)>
    decreases j,
{
    if j == 0 {
        Seq::empty()
    } else {
        let prev = clubs_titled_as(nodes, h, (j - 1) as nat);
        let c = nodes[j - 1];
        if is_homepage(nodes[h]) && is_club(c) && c.title@ == nodes[h].title@ {
            prev.push((j - 1, h))
        } else {
            prev
        }
    }
}

/// The title matches for the homepages among the first `i` nodes.
pub open spec fn title_matches(nodes: Seq<CmsNode>, i: nat) -> Seq<(int, int)>
    decreases i,
{
    if i == 0 {
        Seq::empty()
    } else {
        title_matches(nodes, (i - 1) as nat) + clubs_titled_as(nodes, i - 1, nodes.len())
    }
}

/// The first node position with identity `nid` that is a club (`club`) or else a
/// homepage.
pub open spec fn typed_node(nodes: Seq<CmsNode>, nid: u64, club: bool) -> Option<int>
    decreases nodes.len(),
{
    if nodes.len() == 0 {
        None
    } else {
        match typed_node(nodes.drop_last(), nid, club) {
            Some(k) => Some(k),
            None => {
                let n = nodes.last();
                if n.nid == nid && (if club {
                    is_club(n)
                } else {
                    is_homepage(n)
                }) {
                    Some(nodes.len() - 1)
                } else {
                    None
                }
            },
        }
    }
}

/// The override pairs among the first `i` whose club and homepage both exist with
/// their expected types, as node positions.
pub open spec fn override_matches(nodes: Seq<CmsNode>, overrides: Seq<OverridePair>, i: nat) -> Seq<
    (int, int),
>
    decreases i,
{
    if i == 0 {
        Seq::empty()
    } else {
        let prev = override_matches(nodes, overrides, (i - 1) as nat);
        let o = overrides[i - 1];
        match (typed_node(nodes, o.club_nid, true), typed_node(nodes, o.homepage_nid, false)) {
            (Some(c), Some(h)) => prev.push((c, h)),
            _ => prev,
        }
    }
}

/// `s` without repeats, first occurrences kept.
pub open spec fn dedup<A>(s: Seq<A>) -> Seq<A>
    decreases s.len(),
{
    if s.len() == 0 {
        Seq::empty()
    } else {
        let prev = dedup(s.drop_last());
        if prev.contains(s.last()) {
            prev
        } else {
            prev.push(s.last())
        }
    }
}

/// The first business number recorded for club `nid`.
pub open spec fn number_of(numbers: Seq<ClubNumberRow>, nid: u64) -> Option<i64>
    decreases numbers.len(),
{
    if numbers.len() == 0 {
        None
    } else {
        match number_of(numbers.drop_last(), nid) {
            Some(v) => Some(v),
            None => if numbers.last().entity_id == nid {
                Some(numbers.last().value)
            } else {
                None
            },
        }
    }
}

/// The rank of a business number: numbered clubs by number, intraclubs after all.
pub open spec fn number_rank(n: Option<i64>) -> int {
    match n {
        Some(v) => v as int,
        None => i64::MAX + 1,
    }
}

/// All bindings as (club, homepage) node positions, before ordering.
pub open spec fn binding_pairs(
    nodes: Seq<CmsNode>,
    overrides: Seq<OverridePair>,
) -> Seq<(int, int)> {
    dedup(title_matches(nodes, nodes.len()) + override_matches(nodes, overrides, overrides.len()))
}

/// The sort keys of bindings: intraclub last, business number, then name.
pub open spec fn binding_keys(
    nodes: Seq<CmsNode>,
    numbers: Seq<ClubNumberRow>,
    pairs: Seq<(int, int)>,
) -> Seq<KeyView> {
    pairs.map_values(
        |p: (int, int)| (number_rank(number_of(numbers, nodes[p.0].nid)), nodes[p.0].title@),
    )
}

/// All bindings, ordered by intraclub flag, business number and name.
pub open spec fn ordered_bindings(
    nodes: Seq<CmsNode>,
    numbers: Seq<ClubNumberRow>,
    overrides: Seq<OverridePair>,
) -> Seq<(int, int)> {
    let pairs = binding_pairs(nodes, overrides);
    sorted_order(binding_keys(nodes, numbers, pairs), pairs.len()).map_values(|k: int| pairs[k])
}

/// `b` is the binding of club node `club` to homepage node `home`.
pub open spec fn binding_of(
    b: ClubMicrosite,
    club: CmsNode,
    home: CmsNode,
    numbers: Seq<ClubNumberRow>,
) -> bool {
    &&& b.club_nid == club.nid
    &&& b.club_number == number_of(numbers, club.nid)
    &&& b.club_name@ == club.title@
    &&& b.homepage_nid == home.nid
    &&& b.is_intraclub == (number_of(numbers, club.nid) is None)
}

/// Positions as mathematical integers.
pub open spec fn pairs_view(v: Seq<(usize, usize)>) -> Seq<(int, int)> {
    v.map_values(|p: (usize, usize)| (p.0 as int, p.1 as int))
}

/// Whether `n` is a club (`club`) or else a homepage.
fn node_is(n: &CmsNode, club: bool) -> (r: bool)
    ensures
        r == (if club {
            is_club(*n)
        } else {
            is_homepage(*n)
        }),
{
    proof {
        reveal_strlit("ssp_club");
        reveal_strlit("microsite_homepage");
    }
    if club {
        str_eq(n.node_type.as_str(), "ssp_club")
    } else {
        str_eq(n.node_type.as_str(), "microsite_homepage")
    }
}

/// Appends the clubs whose title equals that of homepage node `h`.
fn push_clubs_titled_as(nodes: &Vec<CmsNode>, h: usize, out: &mut Vec<(usize, usize)>)
    requires
        h < nodes@.len(),
    ensures
        pairs_view(final(out)@) == pairs_view(old(out)@) + clubs_titled_as(nodes@, h as int, nodes@.len()),
{
    let ghost start = pairs_view(out@);
    let home = node_is(&nodes[h], false);
    let mut j: usize = 0;
    while j < nodes.len()
        invariant
            h < nodes@.len(),
            j <= nodes@.len(),
            home == is_homepage(nodes@[h as int]),
            pairs_view(out@) == start + clubs_titled_as(nodes@, h as int, j as nat),
        decreases nodes@.len() - j,
    {
        let ghost before = out@;
        let is_c = node_is(&nodes[j], true);
        let same = str_eq(nodes[j].title.as_str(), nodes[h].title.as_str());
        if home && is_c && same {
            out.push((j, h));
            assert(pairs_view(out@) =~= pairs_view(before).push((j as int, h as int)));
        } else {
            assert(out@ == before);
        }
        assert(pairs_view(out@) =~= start + clubs_titled_as(nodes@, h as int, (j + 1) as nat));
        j = j + 1;
    }
}

/// The clubs matched to homepages by equal titles, homepage by homepage.
fn title_match_list(nodes: &Vec<CmsNode>) -> (r: Vec<(usize, usize)>)
    ensures
        pairs_view(r@) == title_matches(nodes@, nodes@.len()),
{
    let mut out: Vec<(usize, usize)> = Vec::new();
    let mut i: usize = 0;
    assert(pairs_view(out@) =~= title_matches(nodes@, 0));
    while i < nodes.len()
        invariant
            i <= nodes@.len(),
            pairs_view(out@) == title_matches(nodes@, i as nat),
        decreases nodes@.len() - i,
    {
        push_clubs_titled_as(nodes, i, &mut out);
        i = i + 1;
    }
    out
}

/// The first node with identity `nid` that is a club (`club`) or else a homepage.
fn find_typed(nodes: &Vec<CmsNode>, nid: u64, club: bool) -> (r: Option<usize>)
    ensures
        r matches Some(k) ==> typed_node(nodes@, nid, club) == Some(k as int) && k < nodes@.len(),
        r is None ==> typed_node(nodes@, nid, club) is None,
{
    let mut i: usize = 0;
    while i < nodes.len()
        invariant
            i <= nodes@.len(),
            typed_node(nodes@.subrange(0, i as int), nid, club) is None,
        decreases nodes@.len() - i,
    {
        assert(nodes@.subrange(0, i + 1).drop_last() =~= nodes@.subrange(0, i as int));
        if nodes[i].nid == nid && node_is(&nodes[i], club) {
            proof {
                lemma_typed_node_prefix(nodes@, nid, club, i + 1);
            }
            return Some(i);
        }
        i = i + 1;
    }
    assert(nodes@.subrange(0, nodes@.len() as int) =~= nodes@);
    None
}

proof fn lemma_typed_node_prefix(nodes: Seq<CmsNode>, nid: u64, club: bool, n: int)
    requires
        0 <= n <= nodes.len(),
        typed_node(nodes.subrange(0, n), nid, club) is Some,
    ensures
        typed_node(nodes, nid, club) == typed_node(nodes.subrange(0, n), nid, club),
    decreases nodes.len() - n,
{
    if n < nodes.len() {
        assert(nodes.subrange(0, n + 1).drop_last() =~= nodes.subrange(0, n));
        lemma_typed_node_prefix(nodes, nid, club, n + 1);
    } else {
        assert(nodes.subrange(0, n) =~= nodes);
    }
}

/// The override pairs whose club and homepage exist with their expected types.
fn override_list(nodes: &Vec<CmsNode>, overrides: &Vec<OverridePair>) -> (r: Vec<(usize, usize)>)
    ensures
        pairs_view(r@) == override_matches(nodes@, overrides@, overrides@.len()),
{
    let mut out: Vec<(usize, usize)> = Vec::new();
    let mut i: usize = 0;
    assert(pairs_view(out@) =~= override_matches(nodes@, overrides@, 0));
    while i < overrides.len()
        invariant
            i <= overrides@.len(),
            pairs_view(out@) == override_matches(nodes@, overrides@, i as nat),
        decreases overrides@.len() - i,
    {
        let o = &overrides[i];
        match (find_typed(nodes, o.club_nid, true), find_typed(nodes, o.homepage_nid, false)) {
            (Some(c), Some(h)) => {
                out.push((c, h));
            },
            _ => {},
        }
        assert(pairs_view(out@) =~= override_matches(nodes@, overrides@, (i + 1) as nat));
        i = i + 1;
    }
    out
}

/// `v` without repeats, first occurrences kept.
fn dedup_list(v: &Vec<(usize, usize)>) -> (r: Vec<(usize, usize)>)
    ensures
        pairs_view(r@) == dedup(pairs_view(v@)),
{
    let mut out: Vec<(usize, usize)> = Vec::new();
    let mut i: usize = 0;
    assert(pairs_view(v@).subrange(0, 0) =~= Seq::<(int, int)>::empty());
    assert(pairs_view(out@) =~= Seq::<(int, int)>::empty());
    while i < v.len()
        invariant
            i <= v@.len(),
            pairs_view(out@) == dedup(pairs_view(v@).subrange(0, i as int)),
        decreases v@.len() - i,
    {
        let x = v[i];
        let mut seen = false;
        let mut j: usize = 0;
        while j < out.len()
            invariant
                j <= out@.len(),
                seen == exists|q: int| 0 <= q < j && out@[q] == x,
            decreases out@.len() - j,
        {
            if out[j].0 == x.0 && out[j].1 == x.1 {
                seen = true;
            }
            j = j + 1;
        }
        let ghost pv = pairs_view(v@).subrange(0, i + 1);
        assert(pv.drop_last() =~= pairs_view(v@).subrange(0, i as int));
        assert(pv.last() == (x.0 as int, x.1 as int));
        proof {
            let ov = pairs_view(out@);
            if seen {
                let q = choose|q: int| 0 <= q < j && out@[q] == x;
                assert(ov[q] == (x.0 as int, x.1 as int));
            } else {
                assert forall|q: int| 0 <= q < ov.len() implies ov[q] != (x.0 as int, x.1 as int) by {
                    assert(out@[q] != x);
                }
            }
        }
        if !seen {
            out.push(x);
            assert(pairs_view(out@) =~= dedup(pv));
        }
        i = i + 1;
    }
    assert(pairs_view(v@).subrange(0, v@.len() as int) =~= pairs_view(v@));
    out
}

/// The first business number recorded for club `nid`.
fn find_number(numbers: &Vec<ClubNumberRow>, nid: u64) -> (r: Option<i64>)
    ensures
        r == number_of(numbers@, nid),
{
    let mut i: usize = 0;
    while i < numbers.len()
        invariant
            i <= numbers@.len(),
            number_of(numbers@.subrange(0, i as int), nid) is None,
        decreases numbers@.len() - i,
    {
        assert(numbers@.subrange(0, i + 1).drop_last() =~= numbers@.subrange(0, i as int));
        if numbers[i].entity_id == nid {
            proof {
                lemma_number_prefix(numbers@, nid, i + 1);
            }
            return Some(numbers[i].value);
        }
        i = i + 1;
    }
    assert(numbers@.subrange(0, numbers@.len() as int) =~= numbers@);
    None
}

proof fn lemma_number_prefix(numbers: Seq<ClubNumberRow>, nid: u64, n: int)
    requires
        0 <= n <= numbers.len(),
        number_of(numbers.subrange(0, n), nid) is Some,
    ensures
        number_of(numbers, nid) == number_of(numbers.subrange(0, n), nid),
    decreases numbers.len() - n,
{
    if n < numbers.len() {
        assert(numbers.subrange(0, n + 1).drop_last() =~= numbers.subrange(0, n));
        lemma_number_prefix(numbers, nid, n + 1);
    } else {
        assert(numbers.subrange(0, n) =~= numbers);
    }
}

/// Positions of the bindings before ordering.
fn binding_pair_list(nodes: &Vec<CmsNode>, overrides: &Vec<OverridePair>) -> (r: Vec<(usize, usize)>)
    ensures
        pairs_view(r@) == binding_pairs(nodes@, overrides@),
{
    let mut all = title_match_list(nodes);
    let ov = override_list(nodes, overrides);
    let ghost t = pairs_view(all@);
    let mut i: usize = 0;
    while i < ov.len()
        invariant
            i <= ov@.len(),
            pairs_view(all@) == t + pairs_view(ov@).subrange(0, i as int),
        decreases ov@.len() - i,
    {
        let ghost before = all@;
        all.push(ov[i]);
        assert(pairs_view(all@) =~= pairs_view(before).push((ov@[i as int].0 as int, ov@[i as int].1 as int)));
        assert(pairs_view(ov@).subrange(0, i + 1) =~= pairs_view(ov@).subrange(0, i as int).push(pairs_view(ov@)[i as int]));
        assert(pairs_view(all@) =~= t + pairs_view(ov@).subrange(0, i + 1));
        i = i + 1;
    }
    assert(pairs_view(ov@).subrange(0, ov@.len() as int) =~= pairs_view(ov@));
    dedup_list(&all)
}

/// Resolves every club's microsite homepage: each club whose title equals a
/// homepage's title, together with each override pair whose club and homepage exist
/// with their expected types, without repeats, ordered with numbered clubs first by
/// business number, intraclubs last, then by name.
pub fn clubs_with_microsites(
    nodes: &Vec<CmsNode>,
    numbers: &Vec<ClubNumberRow>,
    overrides: &Vec<OverridePair>,
) -> (r: Vec<ClubMicrosite>)
    ensures
        r@.len() == ordered_bindings(nodes@, numbers@, overrides@).len(),
        forall|k: int|
            0 <= k < r@.len() ==> {
                let (c, h) = #[trigger] ordered_bindings(nodes@, numbers@, overrides@)[k];
                binding_of(r@[k], nodes@[c], nodes@[h], numbers@)
            },
{
    let pairs = binding_pair_list(nodes, overrides);
    let ghost pv = binding_pairs(nodes@, overrides@);
    let ghost kv = binding_keys(nodes@, numbers@, pv);
    proof {
        lemma_binding_pairs_in_range(nodes@, overrides@);
    }
    let mut keys: Vec<OrderKey> = Vec::new();
    let mut i: usize = 0;
    while i < pairs.len()
        invariant
            i <= pairs@.len(),
            keys@.len() == i,
            pv == pairs_view(pairs@),
            kv == binding_keys(nodes@, numbers@, pv),
            forall|q: int| 0 <= q < pv.len() ==> 0 <= (#[trigger] pv[q]).0 < nodes@.len() && 0 <= pv[q].1 < nodes@.len(),
            forall|q: int| 0 <= q < i ==> ((#[trigger] keys@[q]).rank as int, keys@[q].text@) == kv[q],
        decreases pairs@.len() - i,
    {
        assert(pv[i as int] == (pairs@[i as int].0 as int, pairs@[i as int].1 as int));
        let c = pairs[i].0;
        let number = find_number(numbers, nodes[c].nid);
        let rank: i128 = match number {
            Some(v) => v as i128,
            None => i64::MAX as i128 + 1,
        };
        let text = chars_of(nodes[c].title.as_str());
        keys.push(OrderKey { rank, text });
        i = i + 1;
    }
    assert(key_views(keys@) =~= kv);
    let ord = sort_order(&keys);
    proof {
        crate::order::lemma_sorted_order_range(kv, pv.len() as nat);
    }
    let ghost ob = ordered_bindings(nodes@, numbers@, overrides@);
    let mut out: Vec<ClubMicrosite> = Vec::new();
    let mut j: usize = 0;
    while j < ord.len()
        invariant
            j <= ord@.len(),
            ord@.len() == sorted_order(kv, pv.len() as nat).len(),
            ord@.map_values(|k: usize| k as int) == sorted_order(kv, pv.len() as nat),
            forall|q: int| 0 <= q < ord@.len() ==> 0 <= #[trigger] sorted_order(kv, pv.len() as nat)[q] < pv.len(),
            pv == pairs_view(pairs@),
            pv == binding_pairs(nodes@, overrides@),
            kv == binding_keys(nodes@, numbers@, pv),
            ob == ordered_bindings(nodes@, numbers@, overrides@),
            forall|q: int| 0 <= q < pv.len() ==> 0 <= (#[trigger] pv[q]).0 < nodes@.len() && 0 <= pv[q].1 < nodes@.len(),
            out@.len() == j,
            forall|q: int| 0 <= q < j ==> {
                let (c, h) = #[trigger] ob[q];
                binding_of(out@[q], nodes@[c], nodes@[h], numbers@)
            },
        decreases ord@.len() - j,
    {
        assert(ord@.map_values(|k: usize| k as int)[j as int] == ord@[j as int] as int);
        let k = ord[j];
        assert(ob[j as int] == pv[k as int]);
        assert(pv[k as int] == (pairs@[k as int].0 as int, pairs@[k as int].1 as int));
        let (c, h) = pairs[k];
        let number = find_number(numbers, nodes[c].nid);
        out.push(
            ClubMicrosite {
                club_nid: nodes[c].nid,
                club_number: number,
                club_name: nodes[c].title.clone(),
                homepage_nid: nodes[h].nid,
                is_intraclub: number.is_none(),
            },
        );
        j = j + 1;
    }
    out
}

proof fn lemma_typed_node_range(nodes: Seq<CmsNode>, nid: u64, club: bool)
    ensures
        typed_node(nodes, nid, club) matches Some(k) ==> 0 <= k < nodes.len(),
    decreases nodes.len(),
{
    if nodes.len() > 0 {
        lemma_typed_node_range(nodes.drop_last(), nid, club);
    }
}

proof fn lemma_pairs_in_range(nodes: Seq<CmsNode>, overrides: Seq<OverridePair>)
    ensures
        forall|q: int| 0 <= q < title_matches(nodes, nodes.len()).len() ==> 0 <= (#[trigger] title_matches(nodes, nodes.len())[q]).0 < nodes.len()
            && 0 <= title_matches(nodes, nodes.len())[q].1 < nodes.len(),
        forall|q: int| 0 <= q < override_matches(nodes, overrides, overrides.len()).len() ==> 0 <= (#[trigger] override_matches(nodes, overrides, overrides.len())[q]).0 < nodes.len()
            && 0 <= override_matches(nodes, overrides, overrides.len())[q].1 < nodes.len(),
{
    lemma_title_matches_range(nodes, nodes.len());
    lemma_override_matches_range(nodes, overrides, overrides.len());
}

proof fn lemma_clubs_titled_range(nodes: Seq<CmsNode>, h: int, j: nat)
    requires
        0 <= h < nodes.len(),
        j <= nodes.len(),
    ensures
        forall|q: int| 0 <= q < clubs_titled_as(nodes, h, j).len() ==> 0 <= (#[trigger] clubs_titled_as(nodes, h, j)[q]).0 < nodes.len()
            && clubs_titled_as(nodes, h, j)[q].1 == h,
    decreases j,
{
    if j > 0 {
        lemma_clubs_titled_range(nodes, h, (j - 1) as nat);
        let prev = clubs_titled_as(nodes, h, (j - 1) as nat);
        let cur = clubs_titled_as(nodes, h, j);
        assert forall|q: int| 0 <= q < cur.len() implies 0 <= (#[trigger] cur[q]).0 < nodes.len() && cur[q].1 == h by {
            if q < prev.len() {
                assert(cur[q] == prev[q]);
            }
        }
    }
}

proof fn lemma_title_matches_range(nodes: Seq<CmsNode>, i: nat)
    requires
        i <= nodes.len(),
    ensures
        forall|q: int| 0 <= q < title_matches(nodes, i).len() ==> 0 <= (#[trigger] title_matches(nodes, i)[q]).0 < nodes.len()
            && 0 <= title_matches(nodes, i)[q].1 < nodes.len(),
    decreases i,
{
    if i > 0 {
        lemma_title_matches_range(nodes, (i - 1) as nat);
        lemma_clubs_titled_range(nodes, i - 1, nodes.len());
        let a = title_matches(nodes, (i - 1) as nat);
        let b = clubs_titled_as(nodes, i - 1, nodes.len());
        assert forall|q: int| 0 <= q < title_matches(nodes, i).len() implies 0 <= (#[trigger] title_matches(nodes, i)[q]).0 < nodes.len()
            && 0 <= title_matches(nodes, i)[q].1 < nodes.len() by {
            if q >= a.len() {
                assert(title_matches(nodes, i)[q] == b[q - a.len()]);
            } else {
                assert(title_matches(nodes, i)[q] == a[q]);
            }
        }
    }
}

proof fn lemma_override_matches_range(nodes: Seq<CmsNode>, overrides: Seq<OverridePair>, i: nat)
    requires
        i <= overrides.len(),
    ensures
        forall|q: int| 0 <= q < override_matches(nodes, overrides, i).len() ==> 0 <= (#[trigger] override_matches(nodes, overrides, i)[q]).0 < nodes.len()
            && 0 <= override_matches(nodes, overrides, i)[q].1 < nodes.len(),
    decreases i,
{
    if i > 0 {
        lemma_override_matches_range(nodes, overrides, (i - 1) as nat);
        let o = overrides[i - 1];
        lemma_typed_node_range(nodes, o.club_nid, true);
        lemma_typed_node_range(nodes, o.homepage_nid, false);
        let prev = override_matches(nodes, overrides, (i - 1) as nat);
        let cur = override_matches(nodes, overrides, i);
        assert forall|q: int| 0 <= q < cur.len() implies 0 <= (#[trigger] cur[q]).0 < nodes.len() && 0 <= cur[q].1 < nodes.len() by {
            if q < prev.len() {
                assert(cur[q] == prev[q]);
            }
        }
    }
}

pub proof fn lemma_dedup_members<A>(s: Seq<A>)
    ensures
        forall|q: int| 0 <= q < dedup(s).len() ==> s.contains(#[trigger] dedup(s)[q]),
        forall|x: A| s.contains(x) ==> #[trigger] dedup(s).contains(x),
    decreases s.len(),
{
    if s.len() > 0 {
        let init = s.drop_last();
        lemma_dedup_members(init);
        let d = dedup(s);
        let pd = dedup(init);
        assert forall|q: int| 0 <= q < d.len() implies s.contains(#[trigger] d[q]) by {
            if q < pd.len() {
                assert(d[q] == pd[q]);
                assert(init.contains(pd[q]));
                let m = choose|m: int| 0 <= m < init.len() && init[m] == pd[q];
                assert(s[m] == init[m]);
            } else {
                assert(d[q] == s.last());
                assert(s[s.len() - 1] == s.last());
            }
        }
        assert forall|x: A| s.contains(x) implies #[trigger] d.contains(x) by {
            let m = choose|m: int| 0 <= m < s.len() && s[m] == x;
            if m < s.len() - 1 {
                assert(init[m] == x);
                assert(pd.contains(x));
                let q = choose|q: int| 0 <= q < pd.len() && pd[q] == x;
                if !pd.contains(s.last()) {
                    assert(d[q] == pd[q]);
                }
            } else if !pd.contains(s.last()) {
                assert(d[pd.len() as int] == x);
            }
        }
    }
}

proof fn lemma_binding_pairs_in_range(nodes: Seq<CmsNode>, overrides: Seq<OverridePair>)
    ensures
        forall|q: int| 0 <= q < binding_pairs(nodes, overrides).len() ==> 0 <= (#[trigger] binding_pairs(nodes, overrides)[q]).0 < nodes.len()
            && 0 <= binding_pairs(nodes, overrides)[q].1 < nodes.len(),
{
    let t = title_matches(nodes, nodes.len());
    let o = override_matches(nodes, overrides, overrides.len());
    let all = t + o;
    lemma_pairs_in_range(nodes, overrides);
    lemma_dedup_members(all);
    assert forall|q: int| 0 <= q < binding_pairs(nodes, overrides).len() implies 0 <= (#[trigger] binding_pairs(nodes, overrides)[q]).0 < nodes.len()
        && 0 <= binding_pairs(nodes, overrides)[q].1 < nodes.len() by {
        let x = binding_pairs(nodes, overrides)[q];
        assert(all.contains(x));
        let m = choose|m: int| 0 <= m < all.len() && all[m] == x;
        if m < t.len() {
            assert(all[m] == t[m]);
        } else {
            assert(all[m] == o[m - t.len()]);
        }
    }
}

proof fn lemma_clubs_titled_has(nodes: Seq<CmsNode>, h: int, j: nat, c: int)
    requires
        0 <= h < nodes.len(),
        0 <= c < j <= nodes.len(),
        is_club(nodes[c]),
        is_homepage(nodes[h]),
        nodes[c].title@ == nodes[h].title@,
    ensures
        clubs_titled_as(nodes, h, j).contains((c, h)),
    decreases j,
{
    let cur = clubs_titled_as(nodes, h, j);
    if c == j - 1 {
        assert(cur[cur.len() - 1] == (c, h));
    } else {
        lemma_clubs_titled_has(nodes, h, (j - 1) as nat, c);
        let prev = clubs_titled_as(nodes, h, (j - 1) as nat);
        let q = choose|q: int| 0 <= q < prev.len() && prev[q] == (c, h);
        assert(cur[q] == prev[q]);
    }
}

proof fn lemma_title_matches_has(nodes: Seq<CmsNode>, i: nat, c: int, h: int)
    requires
        0 <= h < i <= nodes.len(),
        0 <= c < nodes.len(),
        is_club(nodes[c]),
        is_homepage(nodes[h]),
        nodes[c].title@ == nodes[h].title@,
    ensures
        title_matches(nodes, i).contains((c, h)),
    decreases i,
{
    let a = title_matches(nodes, (i - 1) as nat);
    let b = clubs_titled_as(nodes, i - 1, nodes.len());
    let cur = title_matches(nodes, i);
    assert(cur == a + b);
    if h == i - 1 {
        lemma_clubs_titled_has(nodes, h, nodes.len(), c);
        let q = choose|q: int| 0 <= q < b.len() && b[q] == (c, h);
        assert(cur[a.len() + q] == b[q]);
    } else {
        lemma_title_matches_has(nodes, (i - 1) as nat, c, h);
        let q = choose|q: int| 0 <= q < a.len() && a[q] == (c, h);
        assert(cur[q] == a[q]);
    }
}

proof fn lemma_override_matches_has(nodes: Seq<CmsNode>, overrides: Seq<OverridePair>, i: nat, m: int)
    requires
        0 <= m < i <= overrides.len(),
        typed_node(nodes, overrides[m].club_nid, true) is Some,
        typed_node(nodes, overrides[m].homepage_nid, false) is Some,
    ensures
        override_matches(nodes, overrides, i).contains(
            (
                typed_node(nodes, overrides[m].club_nid, true)->0,
                typed_node(nodes, overrides[m].homepage_nid, false)->0,
            ),
        ),
    decreases i,
{
    let cur = override_matches(nodes, overrides, i);
    if m == i - 1 {
        assert(cur[cur.len() - 1] == (
            typed_node(nodes, overrides[m].club_nid, true)->0,
            typed_node(nodes, overrides[m].homepage_nid, false)->0,
        ));
    } else {
        lemma_override_matches_has(nodes, overrides, (i - 1) as nat, m);
        let prev = override_matches(nodes, overrides, (i - 1) as nat);
        let x = (
            typed_node(nodes, overrides[m].club_nid, true)->0,
            typed_node(nodes, overrides[m].homepage_nid, false)->0,
        );
        let q = choose|q: int| 0 <= q < prev.len() && prev[q] == x;
        assert(cur[q] == prev[q]);
    }
}

proof fn lemma_ordered_has(
    nodes: Seq<CmsNode>,
    numbers: Seq<ClubNumberRow>,
    overrides: Seq<OverridePair>,
    x: (int, int),
)
    requires
        (title_matches(nodes, nodes.len()) + override_matches(nodes, overrides, overrides.len())).contains(x),
    ensures
        ordered_bindings(nodes, numbers, overrides).contains(x),
{
    let all = title_matches(nodes, nodes.len()) + override_matches(nodes, overrides, overrides.len());
    lemma_dedup_members(all);
    let pairs = binding_pairs(nodes, overrides);
    assert(pairs.contains(x));
    let m = choose|m: int| 0 <= m < pairs.len() && pairs[m] == x;
    let kv = binding_keys(nodes, numbers, pairs);
    crate::order::lemma_sorted_order_complete(kv, pairs.len());
    crate::order::lemma_sorted_order_range(kv, pairs.len());
    let ord = sorted_order(kv, pairs.len());
    assert(ord.contains(m));
    let q = choose|q: int| 0 <= q < ord.len() && ord[q] == m;
    assert(ordered_bindings(nodes, numbers, overrides)[q] == x);
}

/// A club whose title equals a homepage's title is bound to that homepage.
pub proof fn lemma_title_match_bound(
    nodes: Seq<CmsNode>,
    numbers: Seq<ClubNumberRow>,
    overrides: Seq<OverridePair>,
    c: int,
    h: int,
)
    requires
        0 <= c < nodes.len(),
        0 <= h < nodes.len(),
        is_club(nodes[c]),
        is_homepage(nodes[h]),
        nodes[c].title@ == nodes[h].title@,
    ensures
        ordered_bindings(nodes, numbers, overrides).contains((c, h)),
{
    lemma_title_matches_has(nodes, nodes.len(), c, h);
    let t = title_matches(nodes, nodes.len());
    let all = t + override_matches(nodes, overrides, overrides.len());
    let q = choose|q: int| 0 <= q < t.len() && t[q] == (c, h);
    assert(all[q] == t[q]);
    lemma_ordered_has(nodes, numbers, overrides, (c, h));
}

/// An override pair whose club and homepage exist with their expected types binds
/// that club to that homepage, whatever their titles.
pub proof fn lemma_override_bound(
    nodes: Seq<CmsNode>,
    numbers: Seq<ClubNumberRow>,
    overrides: Seq<OverridePair>,
    m: int,
)
    requires
        0 <= m < overrides.len(),
        typed_node(nodes, overrides[m].club_nid, true) is Some,
        typed_node(nodes, overrides[m].homepage_nid, false) is Some,
    ensures
        ordered_bindings(nodes, numbers, overrides).contains(
            (
                typed_node(nodes, overrides[m].club_nid, true)->0,
                typed_node(nodes, overrides[m].homepage_nid, false)->0,
            ),
        ),
{
    let x = (
        typed_node(nodes, overrides[m].club_nid, true)->0,
        typed_node(nodes, overrides[m].homepage_nid, false)->0,
    );
    lemma_override_matches_has(nodes, overrides, overrides.len(), m);
    let t = title_matches(nodes, nodes.len());
    let o = override_matches(nodes, overrides, overrides.len());
    let all = t + o;
    let q = choose|q: int| 0 <= q < o.len() && o[q] == x;
    assert(all[t.len() + q] == o[q]);
    lemma_ordered_has(nodes, numbers, overrides, x);
}

/// A path alias of the store: a public alias for an internal path.
pub struct PathAlias {
    pub path: String,
    pub alias: String,
}

/// A club's URL slug: the path alias of its homepage, without leading slashes.
pub struct ClubSlug {
    pub club_nid: u64,
    pub slug: String,
}

/// The internal path of node `nid`.
pub open spec fn node_path(nid: u64) -> Seq<char> {
    "/node/"@ + decimal(nid as nat)
}

/// `s` without its leading slashes.
pub open spec fn strip_slashes(s: Seq<char>) -> Seq<char>
    decreases s.len(),
{
    if s.len() > 0 && s[0] == '/' {
        strip_slashes(s.skip(1))
    } else {
        s
    }
}

/// The slugs of the first `j` aliases whose path is that of homepage `home`, for club `club`.
pub open spec fn alias_slugs(club: CmsNode, home: CmsNode, aliases: Seq<PathAlias>, j: nat) -> Seq<
    (u64, Seq<char>),
>
    decreases j,
{
    if j == 0 {
        Seq::empty()
    } else {
        let prev = alias_slugs(club, home, aliases, (j - 1) as nat);
        let a = aliases[j - 1];
        if a.path@ == node_path(home.nid) {
            prev.push((club.nid, strip_slashes(a.alias@)))
        } else {
            prev
        }
    }
}

/// The slugs of the first `i` bindings, binding by binding.
pub open spec fn slug_rows(
    nodes: Seq<CmsNode>,
    pairs: Seq<(int, int)>,
    aliases: Seq<PathAlias>,
    i: nat,
) -> Seq<(u64, Seq<char>)>
    decreases i,
{
    if i == 0 {
        Seq::empty()
    } else {
        slug_rows(nodes, pairs, aliases, (i - 1) as nat) + alias_slugs(
            nodes[pairs[i - 1].0],
            nodes[pairs[i - 1].1],
            aliases,
            aliases.len(),
        )
    }
}

/// Every club's slug, by the same binding rule as the homepages, without repeats.
pub open spec fn club_slug_rows(
    nodes: Seq<CmsNode>,
    overrides: Seq<OverridePair>,
    aliases: Seq<PathAlias>,
) -> Seq<(u64, Seq<char>)> {
    let pairs = binding_pairs(nodes, overrides);
    dedup(slug_rows(nodes, pairs, aliases, pairs.len()))
}

/// A slug as a pair of club and text.
pub open spec fn slug_view(s: ClubSlug) -> (u64, Seq<char>) {
    (s.club_nid, s.slug@)
}

/// The alias without its leading slashes.
fn strip_leading_slashes(s: &str) -> (r: String)
    ensures
        r@ == strip_slashes(s@),
{
    let chars = chars_of(s);
    let mut i: usize = 0;
    assert(chars@.skip(0) =~= chars@);
    while i < chars.len() && chars[i] == '/'
        invariant
            i <= chars@.len(),
            strip_slashes(chars@) == strip_slashes(chars@.skip(i as int)),
        decreases chars@.len() - i,
    {
        assert(chars@.skip(i as int).skip(1) =~= chars@.skip(i + 1));
        i = i + 1;
    }
    string_from(&chars, i)
}

/// Appends the slugs of `aliases` whose path is that of homepage `home`.
fn push_alias_slugs(
    club: &CmsNode,
    home: &CmsNode,
    aliases: &Vec<PathAlias>,
    out: &mut Vec<ClubSlug>,
)
    ensures
        final(out)@.map_values(|s: ClubSlug| slug_view(s)) == old(out)@.map_values(
            |s: ClubSlug| slug_view(s),
        ) + alias_slugs(*club, *home, aliases@, aliases@.len()),
{
    let ghost start = out@.map_values(|s: ClubSlug| slug_view(s));
    let mut path = chars_of("/node/");
    proof {
        reveal_strlit("/node/");
    }
    push_decimal(&mut path, home.nid);
    let mut j: usize = 0;
    while j < aliases.len()
        invariant
            j <= aliases@.len(),
            path@ == node_path(home.nid),
            out@.map_values(|s: ClubSlug| slug_view(s)) == start + alias_slugs(*club, *home, aliases@, j as nat),
        decreases aliases@.len() - j,
    {
        let ghost before = out@;
        let pc = chars_of(aliases[j].path.as_str());
        if same_chars(&pc, &path) {
            let slug = strip_leading_slashes(aliases[j].alias.as_str());
            out.push(ClubSlug { club_nid: club.nid, slug });
            assert(out@.map_values(|s: ClubSlug| slug_view(s)) =~= before.map_values(|s: ClubSlug| slug_view(s)).push(
                (club.nid, strip_slashes(aliases@[j as int].alias@)),
            ));
        }
        j = j + 1;
    }
}

/// `v` without repeated slugs, first occurrences kept.
fn dedup_slugs(v: Vec<ClubSlug>) -> (r: Vec<ClubSlug>)
    ensures
        r@.map_values(|s: ClubSlug| slug_view(s)) == dedup(v@.map_values(|s: ClubSlug| slug_view(s))),
{
    let ghost vv = v@.map_values(|s: ClubSlug| slug_view(s));
    let mut out: Vec<ClubSlug> = Vec::new();
    assert(vv.subrange(0, 0) =~= Seq::<(u64, Seq<char>)>::empty());
    assert(out@.map_values(|s: ClubSlug| slug_view(s)) =~= Seq::<(u64, Seq<char>)>::empty());
    let mut i: usize = 0;
    while i < v.len()
        invariant
            i <= v@.len(),
            vv == v@.map_values(|s: ClubSlug| slug_view(s)),
            out@.map_values(|s: ClubSlug| slug_view(s)) == dedup(vv.subrange(0, i as int)),
        decreases v@.len() - i,
    {
        let ghost ov = out@.map_values(|s: ClubSlug| slug_view(s));
        let x = &v[i];
        let mut seen = false;
        let mut j: usize = 0;
        while j < out.len()
            invariant
                j <= out@.len(),
                ov == out@.map_values(|s: ClubSlug| slug_view(s)),
                seen == exists|q: int| 0 <= q < j && ov[q] == slug_view(*x),
            decreases out@.len() - j,
        {
            if out[j].club_nid == x.club_nid && out[j].slug == x.slug {
                seen = true;
                assert(ov[j as int] == slug_view(*x));
            } else {
                assert(ov[j as int] != slug_view(*x));
            }
            j = j + 1;
        }
        let ghost pv = vv.subrange(0, i + 1);
        assert(pv.drop_last() =~= vv.subrange(0, i as int));
        assert(pv.last() == slug_view(*x));
        if !seen {
            out.push(ClubSlug { club_nid: x.club_nid, slug: x.slug.clone() });
            assert(out@.map_values(|s: ClubSlug| slug_view(s)) =~= ov.push(slug_view(*x)));
        }
        i = i + 1;
    }
    assert(vv.subrange(0, v@.len() as int) =~= vv);
    out
}

/// Resolves every club's URL slug: the alias of the path `/node/<homepage>` for each
/// binding of club to homepage (equal titles or an override pair), with its leading
/// slashes removed, without repeated (club, slug) rows.
pub fn club_slugs(nodes: &Vec<CmsNode>, overrides: &Vec<OverridePair>, aliases: &Vec<PathAlias>) -> (r:
    Vec<ClubSlug>)
    ensures
        r@.map_values(|s: ClubSlug| slug_view(s)) == club_slug_rows(nodes@, overrides@, aliases@),
{
    let pairs = binding_pair_list(nodes, overrides);
    let ghost pv = binding_pairs(nodes@, overrides@);
    proof {
        lemma_binding_pairs_in_range(nodes@, overrides@);
    }
    let mut rows: Vec<ClubSlug> = Vec::new();
    let mut i: usize = 0;
    assert(rows@.map_values(|s: ClubSlug| slug_view(s)) =~= slug_rows(nodes@, pv, aliases@, 0));
    while i < pairs.len()
        invariant
            i <= pairs@.len(),
            pv == pairs_view(pairs@),
            forall|q: int| 0 <= q < pv.len() ==> 0 <= (#[trigger] pv[q]).0 < nodes@.len() && 0 <= pv[q].1 < nodes@.len(),
            rows@.map_values(|s: ClubSlug| slug_view(s)) == slug_rows(nodes@, pv, aliases@, i as nat),
        decreases pairs@.len() - i,
    {
        assert(pv[i as int] == (pairs@[i as int].0 as int, pairs@[i as int].1 as int));
        let (c, h) = pairs[i];
        push_alias_slugs(&nodes[c], &nodes[h], aliases, &mut rows);
        i = i + 1;
    }
    dedup_slugs(rows)
}

} // verus!
