//! Menu links of the microsite navigation tree and how they name their targets.

use vstd::prelude::*;
use crate::text::{chars_of, same_chars};

verus! {

/// One entry of a named hierarchical menu.
pub struct MenuLink {
    pub id: u64,
    /// Stable identifier of the link's content, from which its reference derives.
    pub uuid: String,
    /// Target entity, as `entity:node/<nid>`.
    pub link_uri: String,
    /// Owning menu namespace.
    pub menu_name: String,
    /// Display title override.
    pub title: Option<String>,
    pub weight: i32,
    /// Reference of the parent link, empty for a root.
    pub parent: String,
    pub enabled: bool,
}

/// The character of a decimal digit.
pub open spec fn digit_char(d: int) -> char {
    if d == 0 {
        '0'
    } else if d == 1 {
        '1'
    } else if d == 2 {
        '2'
    } else if d == 3 {
        '3'
    } else if d == 4 {
        '4'
    } else if d == 5 {
        '5'
    } else if d == 6 {
        '6'
    } else if d == 7 {
        '7'
    } else if d == 8 {
        '8'
    } else {
        '9'
    }
}

/// The decimal numeral of `n`, without leading zeros.
pub open spec fn decimal(n: nat) -> Seq<char>
    decreases n,
{
    if n < 10 {
        seq![digit_char(n as int)]
    } else {
        decimal(n / 10).push(digit_char((n % 10) as int))
    }
}

/// The target reference of a link to node `nid`.
pub open spec fn node_uri(nid: u64) -> Seq<char> {
    "entity:node/"@ + decimal(nid as nat)
}

/// The menu namespace of the microsites.
pub open spec fn site_menu() -> Seq<char> {
    "microsites"@
}

/// The reference by which child links name a link as their parent.
pub open spec fn menu_reference(uuid: Seq<char>) -> Seq<char> {
    "menu_link_content:"@ + uuid
}

/// `l` is an entry of the microsites menu that targets node `nid`.
pub open spec fn links_to(l: MenuLink, nid: u64) -> bool {
    l.menu_name@ == site_menu() && l.link_uri@ == node_uri(nid)
}

/// The first link in `links` that targets node `nid` in the microsites menu.
pub open spec fn first_link_to(links: Seq<MenuLink>, nid: u64) -> Option<int>
    decreases links.len(),
{
    if links.len() == 0 {
        None
    } else {
        match first_link_to(links.drop_last(), nid) {
            Some(k) => Some(k),
            None => if links_to(links.last(), nid) {
                Some(links.len() - 1)
            } else {
                None
            },
        }
    }
}

fn digit_exec(d: u64) -> (c: char)
    requires
        d < 10,
    ensures
        c == digit_char(d as int),
{
    match d {
        0 => '0',
        1 => '1',
        2 => '2',
        3 => '3',
        4 => '4',
        5 => '5',
        6 => '6',
        7 => '7',
        8 => '8',
        _ => '9',
    }
}

/// Appends the decimal numeral of `n`.
pub(crate) fn push_decimal(out: &mut Vec<char>, n: u64)
    ensures
        final(out)@ == old(out)@ + decimal(n as nat),
    decreases n,
{
    if n >= 10 {
        push_decimal(out, n / 10);
    }
    out.push(digit_exec(n % 10));
}

/// The target reference of a link to node `nid`, as characters.
pub fn node_uri_chars(nid: u64) -> (r: Vec<char>)
    ensures
        r@ == node_uri(nid),
{
    let mut out = chars_of("entity:node/");
    proof {
        reveal_strlit("entity:node/");
    }
    push_decimal(&mut out, nid);
    out
}

/// Whether `l` lies in the microsites menu.
pub fn in_site_menu(l: &MenuLink) -> (r: bool)
    ensures
        r == (l.menu_name@ == site_menu()),
{
    let name = chars_of(l.menu_name.as_str());
    let menu = chars_of("microsites");
    proof {
        reveal_strlit("microsites");
    }
    same_chars(&name, &menu)
}

/// Whether `l` targets the node whose reference is `target`.
pub fn targets(l: &MenuLink, target: &Vec<char>) -> (r: bool)
    ensures
        r == (l.link_uri@ == target@),
{
    let uri = chars_of(l.link_uri.as_str());
    same_chars(&uri, target)
}

/// The position of the first microsites link that targets node `nid`.
pub fn find_link(links: &Vec<MenuLink>, nid: u64) -> (r: Option<usize>)
    ensures
        r matches Some(k) ==> first_link_to(links@, nid) == Some(k as int) && k < links@.len(),
        r is None ==> first_link_to(links@, nid) is None,
{
    let target = node_uri_chars(nid);
    let mut i: usize = 0;
    while i < links.len()
        invariant
            i <= links@.len(),
            target@ == node_uri(nid),
            first_link_to(links@.subrange(0, i as int), nid) is None,
        decreases links@.len() - i,
    {
        let hit = in_site_menu(&links[i]) && targets(&links[i], &target);
        assert(links@.subrange(0, i + 1).drop_last() =~= links@.subrange(0, i as int));
        if hit {
            proof {
                lemma_first_link_prefix(links@, nid, i + 1);
            }
            return Some(i);
        }
        i = i + 1;
    }
    assert(links@.subrange(0, links@.len() as int) =~= links@);
    None
}

proof fn lemma_first_link_prefix(links: Seq<MenuLink>, nid: u64, n: int)
    requires
        0 <= n <= links.len(),
        first_link_to(links.subrange(0, n), nid) is Some,
    ensures
        first_link_to(links, nid) == first_link_to(links.subrange(0, n), nid),
    decreases links.len() - n,
{
    if n < links.len() {
        let longer = links.subrange(0, n + 1);
        assert(longer.drop_last() =~= links.subrange(0, n));
        lemma_first_link_prefix(links, nid, n + 1);
    } else {
        assert(links.subrange(0, n) =~= links);
    }
}

/// The reference of the homepage's menu entry: `menu_link_content:<uuid>` of the
/// first microsites link that targets it, or none when the homepage has no entry.
pub fn homepage_menu_reference(links: &Vec<MenuLink>, homepage_nid: u64) -> (r: Option<String>)
    ensures
        r is Some <==> first_link_to(links@, homepage_nid) is Some,
        r is Some ==> r->0@ == menu_reference(
            links@[first_link_to(links@, homepage_nid)->0].uuid@,
        ),
{
    match find_link(links, homepage_nid) {
        Some(k) => {
            let mut s = String::from_str("menu_link_content:");
            s.append(links[k].uuid.as_str());
            proof {
                reveal_strlit("menu_link_content:");
            }
            Some(s)
        },
        None => None,
    }
}

} // verus!
