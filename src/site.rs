//! Resolution of a microsite's pages: the homepage, then its menu children ordered
//! by weight and title, each with its fused body and rendered paragraphs.

use vstd::prelude::*;
use crate::menu::{
    find_link, first_link_to, homepage_menu_reference, in_site_menu, menu_reference,
    node_uri, node_uri_chars, site_menu, MenuLink,
};
use crate::order::{
    key_le, key_views, lemma_sorted_order_sorted_permutation, sort_order, sorted_order, text_le,
    KeyView, OrderKey,
};
use crate::pages::{
    append_featured, effective_title, paragraphs_markup, render_paragraph, row_body, sv,
    with_featured, FeaturedPageRow, MicrositePage, PageRow,
};
use crate::text::{chars_of, same_chars};

verus! {

/// One page entity as projected from the store, before any menu join.
pub struct NodeRow {
    pub nid: u64,
    pub title: String,
    pub page_title: Option<String>,
    pub body_value: Option<String>,
    pub summary_value: Option<String>,
    pub field_body_value: Option<String>,
    pub status: i8,
    pub hero_image_uri: Option<String>,
    pub nav_image_uri: Option<String>,
}

/// The rows that a microsite's resolution reads: page entities, menu links and
/// embedded paragraphs.
pub struct SiteStore {
    pub nodes: Vec<NodeRow>,
    pub links: Vec<MenuLink>,
    pub paragraphs: Vec<FeaturedPageRow>,
}

/// The first position of `s` whose element satisfies `p`.
pub open spec fn first_match<A>(s: Seq<A>, p: spec_fn(A) -> bool) -> Option<int>
    decreases s.len(),
{
    if s.len() == 0 {
        None
    } else {
        match first_match(s.drop_last(), p) {
            Some(k) => Some(k),
            None => if p(s.last()) {
                Some(s.len() - 1)
            } else {
                None
            },
        }
    }
}

pub(crate) proof fn lemma_first_match_prefix<A>(s: Seq<A>, p: spec_fn(A) -> bool, n: int)
    requires
        0 <= n <= s.len(),
        first_match(s.subrange(0, n), p) is Some,
    ensures
        first_match(s, p) == first_match(s.subrange(0, n), p),
    decreases s.len() - n,
{
    if n < s.len() {
        assert(s.subrange(0, n + 1).drop_last() =~= s.subrange(0, n));
        lemma_first_match_prefix(s, p, n + 1);
    } else {
        assert(s.subrange(0, n) =~= s);
    }
}

proof fn lemma_first_match_bounds<A>(s: Seq<A>, p: spec_fn(A) -> bool)
    ensures
        first_match(s, p) matches Some(k) ==> 0 <= k < s.len() && p(s[k]),
    decreases s.len(),
{
    if s.len() > 0 {
        lemma_first_match_bounds(s.drop_last(), p);
    }
}

/// The page entity with identity `nid`.
pub open spec fn node_with_nid(nodes: Seq<NodeRow>, nid: u64) -> Option<int> {
    first_match(nodes, |n: NodeRow| n.nid == nid)
}

/// The page entity that a link target reference names.
pub open spec fn node_for_uri(nodes: Seq<NodeRow>, uri: Seq<char>) -> Option<int> {
    first_match(nodes, |n: NodeRow| node_uri(n.nid) == uri)
}

/// `l` is an enabled microsites link under parent reference `parent`.
pub open spec fn is_child_link(l: MenuLink, parent: Seq<char>) -> bool {
    l.menu_name@ == site_menu() && l.parent@ == parent && l.enabled
}

/// The children under `parent`, in link order, as pairs of link and node positions:
/// each enabled microsites link with that parent whose target page exists.
pub open spec fn child_entries(store: SiteStore, parent: Seq<char>, n: nat) -> Seq<(int, int)>
    decreases n,
{
    if n == 0 {
        Seq::empty()
    } else {
        let prev = child_entries(store, parent, (n - 1) as nat);
        let l = store.links@[n - 1];
        if is_child_link(l, parent) && node_for_uri(store.nodes@, l.link_uri@) is Some {
            prev.push((n - 1, node_for_uri(store.nodes@, l.link_uri@)->0))
        } else {
            prev
        }
    }
}

/// The sort keys of children: menu weight, then page title.
pub open spec fn child_keys(store: SiteStore, entries: Seq<(int, int)>) -> Seq<KeyView> {
    entries.map_values(
        |e: (int, int)| (store.links@[e.0].weight as int, store.nodes@[e.1].title@),
    )
}

/// The children under `parent`, by weight ascending, then title ascending.
pub open spec fn ordered_children(store: SiteStore, parent: Seq<char>) -> Seq<(int, int)> {
    let entries = child_entries(store, parent, store.links@.len());
    sorted_order(child_keys(store, entries), entries.len()).map_values(|k: int| entries[k])
}

/// The pages of a microsite as pairs of node position and menu link position: the
/// homepage first, if it exists, then the children of its menu entry, if it has one.
pub open spec fn site_plan(store: SiteStore, homepage_nid: u64) -> Seq<(int, Option<int>)> {
    let home = match node_with_nid(store.nodes@, homepage_nid) {
        Some(n) => seq![(n, first_link_to(store.links@, homepage_nid))],
        None => Seq::empty(),
    };
    match first_link_to(store.links@, homepage_nid) {
        Some(k) => home + ordered_children(
            store,
            menu_reference(store.links@[k].uuid@),
        ).map_values(|e: (int, int)| (e.1, Some(e.0))),
        None => home,
    }
}

/// Positions of the paragraphs that page `nid` holds, in list order.
pub open spec fn hosted(paras: Seq<FeaturedPageRow>, nid: u64, n: nat) -> Seq<int>
    decreases n,
{
    if n == 0 {
        Seq::empty()
    } else {
        let prev = hosted(paras, nid, (n - 1) as nat);
        if paras[n - 1].host_nid == nid {
            prev.push(n - 1)
        } else {
            prev
        }
    }
}

/// The paragraphs of page `nid`, by position ascending, ties in list order.
pub open spec fn page_paragraphs(paras: Seq<FeaturedPageRow>, nid: u64) -> Seq<FeaturedPageRow> {
    let h = hosted(paras, nid, paras.len());
    let keys = h.map_values(|i: int| (paras[i].delta as int, Seq::<char>::empty()));
    sorted_order(keys, h.len()).map_values(|k: int| paras[h[k]])
}

/// `page` is node `node` joined with menu link `link` and extended by the markup
/// of the paragraphs `paras`.
pub open spec fn page_built(
    page: MicrositePage,
    node: NodeRow,
    link: Option<MenuLink>,
    paras: Seq<FeaturedPageRow>,
) -> bool {
    let row_like = PageRow {
        nid: node.nid,
        title: node.title,
        page_title: node.page_title,
        body_value: node.body_value,
        summary_value: node.summary_value,
        field_body_value: node.field_body_value,
        status: node.status,
        menu_id: None,
        menu_title: None,
        menu_weight: None,
        menu_parent: None,
        hero_image_uri: node.hero_image_uri,
        nav_image_uri: node.nav_image_uri,
    };
    &&& page.nid == node.nid
    &&& page.title@ == effective_title(row_like)
    &&& page.body_html@ == with_featured(row_body(row_like), paragraphs_markup(paras))
    &&& page.status == (node.status == 1)
    &&& sv(page.hero_image) == sv(node.hero_image_uri)
    &&& sv(page.nav_image) == sv(node.nav_image_uri)
    &&& match link {
        Some(l) => {
            &&& page.menu_id == Some(l.id)
            &&& sv(page.menu_title) == sv(l.title)
            &&& page.menu_weight == Some(l.weight)
            &&& sv(page.menu_parent) == Some(l.parent@)
        },
        None => {
            &&& page.menu_id is None
            &&& page.menu_title is None
            &&& page.menu_weight is None
            &&& page.menu_parent is None
        },
    }
}

/// The position of the page entity with identity `nid`.
pub fn find_node(nodes: &Vec<NodeRow>, nid: u64) -> (r: Option<usize>)
    ensures
        r matches Some(k) ==> node_with_nid(nodes@, nid) == Some(k as int) && k < nodes@.len(),
        r is None ==> node_with_nid(nodes@, nid) is None,
{
    let ghost p = |n: NodeRow| n.nid == nid;
    let mut i: usize = 0;
    while i < nodes.len()
        invariant
            i <= nodes@.len(),
            p == (|n: NodeRow| n.nid == nid),
            first_match(nodes@.subrange(0, i as int), p) is None,
        decreases nodes@.len() - i,
    {
        assert(nodes@.subrange(0, i + 1).drop_last() =~= nodes@.subrange(0, i as int));
        if nodes[i].nid == nid {
            proof {
                lemma_first_match_prefix(nodes@, p, i + 1);
            }
            return Some(i);
        }
        i = i + 1;
    }
    assert(nodes@.subrange(0, nodes@.len() as int) =~= nodes@);
    None
}

/// The position of the page entity that the target reference `uri` names.
pub fn find_node_for_uri(nodes: &Vec<NodeRow>, uri: &Vec<char>) -> (r: Option<usize>)
    ensures
        r matches Some(k) ==> node_for_uri(nodes@, uri@) == Some(k as int) && k < nodes@.len(),
        r is None ==> node_for_uri(nodes@, uri@) is None,
{
    let ghost p = |n: NodeRow| node_uri(n.nid) == uri@;
    let mut i: usize = 0;
    while i < nodes.len()
        invariant
            i <= nodes@.len(),
            p == (|n: NodeRow| node_uri(n.nid) == uri@),
            first_match(nodes@.subrange(0, i as int), p) is None,
        decreases nodes@.len() - i,
    {
        assert(nodes@.subrange(0, i + 1).drop_last() =~= nodes@.subrange(0, i as int));
        let candidate = node_uri_chars(nodes[i].nid);
        if same_chars(&candidate, uri) {
            proof {
                lemma_first_match_prefix(nodes@, p, i + 1);
            }
            return Some(i);
        }
        i = i + 1;
    }
    assert(nodes@.subrange(0, nodes@.len() as int) =~= nodes@);
    None
}

/// Positions of the paragraphs that page `nid` holds, in list order.
fn hosted_paragraphs(paras: &Vec<FeaturedPageRow>, nid: u64) -> (r: Vec<usize>)
    ensures
        r@.len() == hosted(paras@, nid, paras@.len()).len(),
        forall|j: int| 0 <= j < r@.len() ==> r@[j] as int == #[trigger] hosted(paras@, nid, paras@.len())[j],
        forall|j: int| 0 <= j < r@.len() ==> #[trigger] r@[j] < paras@.len(),
{
    let mut out: Vec<usize> = Vec::new();
    let mut i: usize = 0;
    while i < paras.len()
        invariant
            i <= paras@.len(),
            out@.len() == hosted(paras@, nid, i as nat).len(),
            forall|j: int| 0 <= j < out@.len() ==> out@[j] as int == #[trigger] hosted(paras@, nid, i as nat)[j],
            forall|j: int| 0 <= j < out@.len() ==> #[trigger] out@[j] < i,
        decreases paras@.len() - i,
    {
        if paras[i].host_nid == nid {
            out.push(i);
        }
        i = i + 1;
    }
    out
}

/// Positions of page `nid`'s paragraphs, by their position field, ties in list order.
fn paragraph_order(paras: &Vec<FeaturedPageRow>, nid: u64) -> (r: Vec<usize>)
    ensures
        r@.len() == page_paragraphs(paras@, nid).len(),
        forall|j: int| 0 <= j < r@.len() ==> #[trigger] r@[j] < paras@.len(),
        forall|j: int| 0 <= j < r@.len() ==> paras@[#[trigger] r@[j] as int] == page_paragraphs(paras@, nid)[j],
{
    let h = hosted_paragraphs(paras, nid);
    let ghost hs = hosted(paras@, nid, paras@.len());
    let mut keys: Vec<OrderKey> = Vec::new();
    let mut i: usize = 0;
    while i < h.len()
        invariant
            i <= h@.len(),
            keys@.len() == i,
            forall|j: int| 0 <= j < h@.len() ==> #[trigger] h@[j] < paras@.len(),
            forall|j: int| 0 <= j < i ==> (#[trigger] keys@[j]).rank as int == paras@[h@[j] as int].delta as int,
            forall|j: int| 0 <= j < i ==> (#[trigger] keys@[j]).text@ == Seq::<char>::empty(),
        decreases h@.len() - i,
    {
        let t: Vec<char> = Vec::new();
        assert(t@ =~= Seq::<char>::empty());
        keys.push(OrderKey { rank: paras[h[i]].delta as i128, text: t });
        i = i + 1;
    }
    let ghost kv = hs.map_values(|i: int| (paras@[i].delta as int, Seq::<char>::empty()));
    assert(key_views(keys@) =~= kv);
    let ord = sort_order(&keys);
    proof {
        crate::order::lemma_sorted_order_range(kv, h@.len() as nat);
    }
    let mut out: Vec<usize> = Vec::new();
    let mut j: usize = 0;
    while j < ord.len()
        invariant
            j <= ord@.len(),
            ord@.len() == sorted_order(kv, h@.len() as nat).len(),
            hs == hosted(paras@, nid, paras@.len()),
            kv == hs.map_values(|i: int| (paras@[i].delta as int, Seq::<char>::empty())),
            h@.len() == hs.len(),
            forall|q: int| 0 <= q < h@.len() ==> h@[q] as int == #[trigger] hs[q],
            ord@.map_values(|k: usize| k as int) == sorted_order(kv, h@.len() as nat),
            forall|q: int| 0 <= q < ord@.len() ==> 0 <= #[trigger] sorted_order(kv, h@.len() as nat)[q] < h@.len(),
            forall|q: int| 0 <= q < h@.len() ==> #[trigger] h@[q] < paras@.len(),
            out@.len() == j,
            forall|q: int| 0 <= q < j ==> #[trigger] out@[q] < paras@.len(),
            forall|q: int| 0 <= q < j ==> paras@[#[trigger] out@[q] as int] == page_paragraphs(paras@, nid)[q],
        decreases ord@.len() - j,
    {
        assert(ord@.map_values(|k: usize| k as int)[j as int] == ord@[j as int] as int);
        proof {
            let k = ord@[j as int] as int;
            assert(sorted_order(kv, h@.len() as nat)[j as int] == k);
            assert(h@[k] as int == hs[k]);
            assert(page_paragraphs(paras@, nid)[j as int] == paras@[hs[k]]);
        }
        out.push(h[ord[j]]);
        j = j + 1;
    }
    out
}

/// The markup of the paragraphs at positions `idx`, in that order.
fn render_selected(paras: &Vec<FeaturedPageRow>, idx: &Vec<usize>) -> (r: String)
    requires
        forall|j: int| 0 <= j < idx@.len() ==> #[trigger] idx@[j] < paras@.len(),
    ensures
        r@ == paragraphs_markup(idx@.map_values(|i: usize| paras@[i as int])),
{
    let ghost sel = idx@.map_values(|i: usize| paras@[i as int]);
    let mut html = String::new();
    let mut j: usize = 0;
    while j < idx.len()
        invariant
            j <= idx@.len(),
            sel == idx@.map_values(|i: usize| paras@[i as int]),
            forall|q: int| 0 <= q < idx@.len() ==> #[trigger] idx@[q] < paras@.len(),
            html@ == paragraphs_markup(sel.subrange(0, j as int)),
        decreases idx@.len() - j,
    {
        render_paragraph(&mut html, &paras[idx[j]]);
        assert(sel.subrange(0, j + 1).drop_last() =~= sel.subrange(0, j as int));
        j = j + 1;
    }
    assert(sel.subrange(0, idx@.len() as int) =~= sel);
    html
}

fn copy_opt(o: &Option<String>) -> (r: Option<String>)
    ensures
        r == *o,
{
    match o {
        Some(s) => Some(s.clone()),
        None => None,
    }
}

pub open spec fn opt_int(o: Option<usize>) -> Option<int> {
    match o {
        Some(k) => Some(k as int),
        None => None,
    }
}

/// The menu link at an optional position.
pub open spec fn link_at(links: Seq<MenuLink>, k: Option<int>) -> Option<MenuLink> {
    match k {
        Some(i) => Some(links[i]),
        None => None,
    }
}

/// Builds the page of node `node`, joined with link `link`, its body extended by
/// the markup of its paragraphs.
fn build_page(store: &SiteStore, node: usize, link: Option<usize>) -> (page: MicrositePage)
    requires
        node < store.nodes@.len(),
        link matches Some(k) ==> k < store.links@.len(),
    ensures
        page_built(
            page,
            store.nodes@[node as int],
            link_at(store.links@, opt_int(link)),
            page_paragraphs(store.paragraphs@, store.nodes@[node as int].nid),
        ),
{
    let n = &store.nodes[node];
    let (menu_id, menu_title, menu_weight, menu_parent) = match link {
        Some(k) => {
            let l = &store.links[k];
            (Some(l.id), copy_opt(&l.title), Some(l.weight), Some(l.parent.clone()))
        },
        None => (None, None, None, None),
    };
    let row = PageRow {
        nid: n.nid,
        title: n.title.clone(),
        page_title: copy_opt(&n.page_title),
        body_value: copy_opt(&n.body_value),
        summary_value: copy_opt(&n.summary_value),
        field_body_value: copy_opt(&n.field_body_value),
        status: n.status,
        menu_id,
        menu_title,
        menu_weight,
        menu_parent,
        hero_image_uri: copy_opt(&n.hero_image_uri),
        nav_image_uri: copy_opt(&n.nav_image_uri),
    };
    let mut page = MicrositePage::from_row(row);
    let ord = paragraph_order(&store.paragraphs, n.nid);
    let featured = render_selected(&store.paragraphs, &ord);
    assert(ord@.map_values(|i: usize| store.paragraphs@[i as int]) =~= page_paragraphs(
        store.paragraphs@,
        n.nid,
    ));
    append_featured(&mut page, featured);
    page
}

/// The children under parent reference `parent`, in link order.
fn child_list(store: &SiteStore, parent: &Vec<char>) -> (r: Vec<(usize, usize)>)
    ensures
        r@.len() == child_entries(*store, parent@, store.links@.len()).len(),
        forall|j: int|
            0 <= j < r@.len() ==> (r@[j].0 as int, r@[j].1 as int) == #[trigger] child_entries(
                *store,
                parent@,
                store.links@.len(),
            )[j],
        forall|j: int| 0 <= j < r@.len() ==> (#[trigger] r@[j]).0 < store.links@.len() && r@[j].1 < store.nodes@.len(),
{
    let mut out: Vec<(usize, usize)> = Vec::new();
    let mut i: usize = 0;
    while i < store.links.len()
        invariant
            i <= store.links@.len(),
            out@.len() == child_entries(*store, parent@, i as nat).len(),
            forall|j: int|
                0 <= j < out@.len() ==> (out@[j].0 as int, out@[j].1 as int) == #[trigger] child_entries(
                    *store,
                    parent@,
                    i as nat,
                )[j],
            forall|j: int| 0 <= j < out@.len() ==> (#[trigger] out@[j]).0 < i && out@[j].1 < store.nodes@.len(),
        decreases store.links@.len() - i,
    {
        let l = &store.links[i];
        let pc = chars_of(l.parent.as_str());
        if in_site_menu(l) && same_chars(&pc, parent) && l.enabled {
            let uri = chars_of(l.link_uri.as_str());
            match find_node_for_uri(&store.nodes, &uri) {
                Some(n) => {
                    out.push((i, n));
                },
                None => {},
            }
        }
        i = i + 1;
    }
    out
}

/// The children under parent reference `parent`, by weight, then by page title.
fn ordered_child_list(store: &SiteStore, parent: &Vec<char>) -> (r: Vec<(usize, usize)>)
    ensures
        r@.len() == ordered_children(*store, parent@).len(),
        forall|j: int|
            0 <= j < r@.len() ==> (r@[j].0 as int, r@[j].1 as int) == #[trigger] ordered_children(
                *store,
                parent@,
            )[j],
        forall|j: int| 0 <= j < r@.len() ==> (#[trigger] r@[j]).0 < store.links@.len() && r@[j].1 < store.nodes@.len(),
{
    let entries = child_list(store, parent);
    let ghost es = child_entries(*store, parent@, store.links@.len());
    let ghost kv = child_keys(*store, es);
    let mut keys: Vec<OrderKey> = Vec::new();
    let mut i: usize = 0;
    while i < entries.len()
        invariant
            i <= entries@.len(),
            keys@.len() == i,
            es == child_entries(*store, parent@, store.links@.len()),
            entries@.len() == es.len(),
            forall|j: int| 0 <= j < entries@.len() ==> (entries@[j].0 as int, entries@[j].1 as int) == #[trigger] es[j],
            forall|j: int| 0 <= j < entries@.len() ==> (#[trigger] entries@[j]).0 < store.links@.len() && entries@[j].1 < store.nodes@.len(),
            forall|j: int| 0 <= j < i ==> (#[trigger] keys@[j]).rank as int == store.links@[entries@[j].0 as int].weight as int,
            forall|j: int| 0 <= j < i ==> (#[trigger] keys@[j]).text@ == store.nodes@[entries@[j].1 as int].title@,
        decreases entries@.len() - i,
    {
        let (l, n) = entries[i];
        let text = chars_of(store.nodes[n].title.as_str());
        keys.push(OrderKey { rank: store.links[l].weight as i128, text });
        i = i + 1;
    }
    assert forall|j: int| 0 <= j < keys@.len() implies #[trigger] key_views(keys@)[j] == kv[j] by {
        assert(es[j] == (entries@[j].0 as int, entries@[j].1 as int));
    }
    assert(key_views(keys@) =~= kv);
    let ord = sort_order(&keys);
    proof {
        crate::order::lemma_sorted_order_range(kv, es.len() as nat);
    }
    let mut out: Vec<(usize, usize)> = Vec::new();
    let mut j: usize = 0;
    while j < ord.len()
        invariant
            j <= ord@.len(),
            ord@.len() == sorted_order(kv, es.len() as nat).len(),
            ord@.map_values(|k: usize| k as int) == sorted_order(kv, es.len() as nat),
            forall|q: int| 0 <= q < ord@.len() ==> 0 <= #[trigger] sorted_order(kv, es.len() as nat)[q] < es.len(),
            es == child_entries(*store, parent@, store.links@.len()),
            kv == child_keys(*store, es),
            entries@.len() == es.len(),
            forall|q: int| 0 <= q < entries@.len() ==> (entries@[q].0 as int, entries@[q].1 as int) == #[trigger] es[q],
            forall|q: int| 0 <= q < entries@.len() ==> (#[trigger] entries@[q]).0 < store.links@.len() && entries@[q].1 < store.nodes@.len(),
            out@.len() == j,
            forall|q: int| 0 <= q < j ==> (out@[q].0 as int, out@[q].1 as int) == #[trigger] ordered_children(*store, parent@)[q],
            forall|q: int| 0 <= q < j ==> (#[trigger] out@[q]).0 < store.links@.len() && out@[q].1 < store.nodes@.len(),
        decreases ord@.len() - j,
    {
        assert(ord@.map_values(|k: usize| k as int)[j as int] == ord@[j as int] as int);
        proof {
            let k = ord@[j as int] as int;
            assert(sorted_order(kv, es.len() as nat)[j as int] == k);
            assert(ordered_children(*store, parent@)[j as int] == es[k]);
        }
        out.push(entries[ord[j]]);
        j = j + 1;
    }
    out
}

/// Resolves a microsite's pages: the homepage, if its entity exists, then, if it has
/// a menu entry, the enabled pages under that entry by weight and then title. Each
/// page has its effective title, its fused body extended by its paragraphs' markup,
/// and the data of its menu link.
pub fn pages_for_club(homepage_nid: u64, store: &SiteStore) -> (r: Vec<MicrositePage>)
    ensures
        r@.len() == site_plan(*store, homepage_nid).len(),
        forall|k: int|
            0 <= k < r@.len() ==> {
                let (n, l) = #[trigger] site_plan(*store, homepage_nid)[k];
                page_built(
                    r@[k],
                    store.nodes@[n],
                    link_at(store.links@, l),
                    page_paragraphs(store.paragraphs@, store.nodes@[n].nid),
                )
            },
{
    let ghost plan = site_plan(*store, homepage_nid);
    let hp_link = find_link(&store.links, homepage_nid);
    let mut pages: Vec<MicrositePage> = Vec::new();
    let ghost home: Seq<(int, Option<int>)> = Seq::empty();
    match find_node(&store.nodes, homepage_nid) {
        Some(n) => {
            let page = build_page(store, n, hp_link);
            pages.push(page);
            proof {
                home = seq![(n as int, opt_int(hp_link))];
            }
        },
        None => {},
    }
    assert(pages@.len() == home.len());
    assert(forall|k: int| 0 <= k < pages@.len() ==> {
        let (n, l) = #[trigger] home[k];
        page_built(pages@[k], store.nodes@[n], link_at(store.links@, l), page_paragraphs(store.paragraphs@, store.nodes@[n].nid))
    });
    match hp_link {
        Some(k) => {
            let reference = homepage_menu_reference(&store.links, homepage_nid);
            let parent = match reference {
                Some(s) => chars_of(s.as_str()),
                None => Vec::new(),
            };
            let children = ordered_child_list(store, &parent);
            let ghost oc = ordered_children(*store, menu_reference(store.links@[k as int].uuid@));
            let ghost tail = oc.map_values(|e: (int, int)| (e.1, Some(e.0)));
            assert(plan =~= home + tail);
            let mut j: usize = 0;
            while j < children.len()
                invariant
                    j <= children@.len(),
                    children@.len() == oc.len(),
                    tail == oc.map_values(|e: (int, int)| (e.1, Some(e.0))),
                    plan == home + tail,
                    forall|q: int| 0 <= q < children@.len() ==> (children@[q].0 as int, children@[q].1 as int) == #[trigger] oc[q],
                    forall|q: int| 0 <= q < children@.len() ==> (#[trigger] children@[q]).0 < store.links@.len() && children@[q].1 < store.nodes@.len(),
                    pages@.len() == home.len() + j,
                    forall|q: int| 0 <= q < pages@.len() ==> {
                        let (n, l) = #[trigger] plan[q];
                        page_built(pages@[q], store.nodes@[n], link_at(store.links@, l), page_paragraphs(store.paragraphs@, store.nodes@[n].nid))
                    },
                decreases children@.len() - j,
            {
                let (l, n) = children[j];
                let page = build_page(store, n, Some(l));
                pages.push(page);
                proof {
                    assert(plan[home.len() + j] == tail[j as int]);
                    assert(tail[j as int] == (n as int, Some(l as int)));
                }
                j = j + 1;
            }
            pages
        },
        None => {
            assert(plan =~= home);
            pages
        },
    }
}

/// A homepage with no menu entry has no child pages, and its microsite still holds
/// the homepage's own page.
pub proof fn lemma_no_menu_entry(store: SiteStore, homepage_nid: u64)
    requires
        first_link_to(store.links@, homepage_nid) is None,
        node_with_nid(store.nodes@, homepage_nid) is Some,
    ensures
        site_plan(store, homepage_nid) == seq![(node_with_nid(store.nodes@, homepage_nid)->0, None::<int>)],
{
}

/// A microsite's child pages come by menu weight ascending, then by page title:
/// of any two, the earlier has the smaller weight, or the same weight and a title
/// that sorts no later; and they are exactly the enabled children, each once.
pub proof fn lemma_children_by_weight_then_title(store: SiteStore, parent: Seq<char>)
    ensures
        ordered_children(store, parent).len() == child_entries(store, parent, store.links@.len()).len(),
        forall|e: (int, int)|
            child_entries(store, parent, store.links@.len()).contains(e) ==> #[trigger] ordered_children(
                store,
                parent,
            ).contains(e),
        forall|a: int, b: int|
            0 <= a < b < ordered_children(store, parent).len() ==> {
                let ea = #[trigger] ordered_children(store, parent)[a];
                let eb = #[trigger] ordered_children(store, parent)[b];
                store.links@[ea.0].weight < store.links@[eb.0].weight || (store.links@[ea.0].weight
                    == store.links@[eb.0].weight && text_le(
                    store.nodes@[ea.1].title@,
                    store.nodes@[eb.1].title@,
                ))
            },
{
    let entries = child_entries(store, parent, store.links@.len());
    let keys = child_keys(store, entries);
    let ord = sorted_order(keys, entries.len());
    lemma_sorted_order_sorted_permutation(keys, entries.len());
    let oc = ordered_children(store, parent);
    assert forall|e: (int, int)| entries.contains(e) implies #[trigger] oc.contains(e) by {
        let m = choose|m: int| 0 <= m < entries.len() && entries[m] == e;
        assert(ord.contains(m));
        let q = choose|q: int| 0 <= q < ord.len() && ord[q] == m;
        assert(oc[q] == e);
    }
    assert forall|a: int, b: int| 0 <= a < b < oc.len() implies {
        let ea = #[trigger] oc[a];
        let eb = #[trigger] oc[b];
        store.links@[ea.0].weight < store.links@[eb.0].weight || (store.links@[ea.0].weight
            == store.links@[eb.0].weight && text_le(store.nodes@[ea.1].title@, store.nodes@[eb.1].title@))
    } by {
        assert(key_le(keys[ord[a]], keys[ord[b]]));
        assert(oc[a] == entries[ord[a]]);
        assert(oc[b] == entries[ord[b]]);
    }
}

} // verus!
