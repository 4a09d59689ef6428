//! Extraction of public-storage asset references from HTML.

use vstd::prelude::*;
use crate::text::{chars_of, contains_chars, is_substring};
use crate::uri::public_root;

verus! {

/// What `regex` finds for `pattern` in `haystack`: `None` when the pattern does not
/// compile, else the first capture group of each successive match, in order.
pub uninterp spec fn regex_group_one(pattern: Seq<char>, haystack: Seq<char>) -> Option<
    Seq<Option<Seq<char>>>,
>;

pub open spec fn opt_view(o: Option<String>) -> Option<Seq<char>> {
    match o {
        Some(s) => Some(s@),
        None => None,
    }
}

/// Relies on `regex::Regex::new` and `regex::Regex::captures_iter`: compiles the
/// pattern, then lists group 1 of each non-overlapping match, left to right. A group
/// is, by `regex::Match::as_str`, a substring of the haystack.
#[verifier::external_body]
fn capture_group_one(pattern: &str, haystack: &str) -> (r: Option<Vec<Option<String>>>)
    ensures
        r matches Some(v) ==> regex_group_one(pattern@, haystack@) == Some(
            v@.map_values(|o: Option<String>| opt_view(o)),
        ),
        r is None ==> regex_group_one(pattern@, haystack@) is None,
        r matches Some(v) ==> forall|i: int|
            0 <= i < v@.len() && #[trigger] v@[i] is Some ==> is_substring(v@[i]->0@, haystack@),
{
    let re = regex::Regex::new(pattern).ok()?;
    Some(re.captures_iter(haystack).map(|c| c.get(1).map(|m| m.as_str().to_string())).collect())
}

/// The pattern for an asset reference: a `src` or `href` attribute, single or double
/// quoted, whose value holds the public storage path, matched non-greedily.
pub open spec fn media_pattern() -> Seq<char> {
    "(?:src|href)=[\"']([^\"']*?/sites/default/files/[^\"']+)[\"']"@
}

/// The captured values that name the public storage path, in order.
pub open spec fn storage_refs(caps: Seq<Option<Seq<char>>>) -> Seq<Seq<char>>
    decreases caps.len(),
{
    if caps.len() == 0 {
        Seq::empty()
    } else {
        let prev = storage_refs(caps.drop_last());
        match caps.last() {
            Some(s) => if is_substring(public_root(), s) {
                prev.push(s)
            } else {
                prev
            },
            None => prev,
        }
    }
}

/// The asset references of an HTML text, in order of appearance, duplicates kept.
pub open spec fn media_urls_of(html: Seq<char>) -> Seq<Seq<char>> {
    match regex_group_one(media_pattern(), html) {
        Some(caps) => storage_refs(caps),
        None => Seq::empty(),
    }
}

proof fn lemma_storage_refs_members(caps: Seq<Option<Seq<char>>>, hay: Seq<char>)
    requires
        forall|i: int| 0 <= i < caps.len() && #[trigger] caps[i] is Some ==> is_substring(caps[i]->0, hay),
    ensures
        forall|k: int|
            0 <= k < storage_refs(caps).len() ==> is_substring(#[trigger] storage_refs(caps)[k], hay)
                && is_substring(public_root(), storage_refs(caps)[k]),
    decreases caps.len(),
{
    if caps.len() > 0 {
        let init = caps.drop_last();
        assert forall|i: int| 0 <= i < init.len() && #[trigger] init[i] is Some implies is_substring(init[i]->0, hay) by {
            assert(caps[i] == init[i]);
        }
        lemma_storage_refs_members(init, hay);
        let prev = storage_refs(init);
        let last = caps[caps.len() - 1];
        assert(caps.last() == last);
        if last is Some && is_substring(public_root(), last->0) {
            assert(storage_refs(caps) == prev.push(last->0));
            assert forall|k: int| 0 <= k < storage_refs(caps).len() implies is_substring(
                #[trigger] storage_refs(caps)[k],
                hay,
            ) && is_substring(public_root(), storage_refs(caps)[k]) by {
                if k < prev.len() {
                    assert(storage_refs(caps)[k] == prev[k]);
                }
            }
        } else {
            assert(storage_refs(caps) == prev);
        }
    }
}

/// Keeps, in order, the captured values that hold `/sites/default/files/`; absent
/// groups are skipped.
pub fn storage_refs_of(caps: &Vec<Option<String>>) -> (r: Vec<String>)
    ensures
        r@.map_values(|s: String| s@) == storage_refs(caps@.map_values(|o: Option<String>| opt_view(o))),
{
    let ghost gcaps = caps@.map_values(|o: Option<String>| opt_view(o));
    let root = chars_of("/sites/default/files/");
    proof {
        reveal_strlit("/sites/default/files/");
    }
    let mut out: Vec<String> = Vec::new();
    let mut i: usize = 0;
    assert(gcaps.subrange(0, 0) =~= Seq::<Option<Seq<char>>>::empty());
    assert(out@.map_values(|s: String| s@) =~= Seq::<Seq<char>>::empty());
    while i < caps.len()
        invariant
            i <= caps@.len(),
            root@ == public_root(),
            gcaps == caps@.map_values(|o: Option<String>| opt_view(o)),
            out@.map_values(|s: String| s@) == storage_refs(gcaps.subrange(0, i as int)),
        decreases caps@.len() - i,
    {
        let ghost before = gcaps.subrange(0, i as int);
        let ghost after = gcaps.subrange(0, i + 1);
        assert(after.drop_last() =~= before);
        match &caps[i] {
            Some(s) => {
                let sc = chars_of(s.as_str());
                if contains_chars(&sc, &root) {
                    out.push(s.clone());
                    assert(out@.map_values(|s: String| s@) =~= storage_refs(before).push(s@));
                }
            },
            None => {},
        }
        i = i + 1;
    }
    assert(gcaps.subrange(0, caps@.len() as int) =~= gcaps);
    out
}

/// Finds every `src="…"` or `href="…"` value that holds `/sites/default/files/`,
/// in order of appearance, duplicates kept.
pub fn extract_media_urls(html: &str) -> (r: Vec<String>)
    ensures
        r@.map_values(|s: String| s@) == media_urls_of(html@),
        forall|k: int| 0 <= k < r@.len() ==> is_substring(#[trigger] r@[k]@, html@),
        forall|k: int| 0 <= k < r@.len() ==> is_substring(public_root(), #[trigger] r@[k]@),
{
    let pattern = "(?:src|href)=[\"']([^\"']*?/sites/default/files/[^\"']+)[\"']";
    proof {
        reveal_strlit("(?:src|href)=[\"']([^\"']*?/sites/default/files/[^\"']+)[\"']");
    }
    match capture_group_one(pattern, html) {
        None => {
            let out: Vec<String> = Vec::new();
            assert(out@.map_values(|s: String| s@) =~= media_urls_of(html@));
            out
        },
        Some(caps) => {
            let ghost gcaps = caps@.map_values(|o: Option<String>| opt_view(o));
            proof {
                assert forall|i: int| 0 <= i < gcaps.len() && #[trigger] gcaps[i] is Some implies is_substring(gcaps[i]->0, html@) by {
                    assert(caps@[i] is Some);
                }
                lemma_storage_refs_members(gcaps, html@);
            }
            let out = storage_refs_of(&caps);
            assert forall|k: int| 0 <= k < out@.len() implies #[trigger] out@[k]@ == storage_refs(gcaps)[k] by {
                assert(out@.map_values(|s: String| s@)[k] == out@[k]@);
            }
            out
        },
    }
}

/// Extraction is a function of the text alone: two runs on the same HTML give the
/// same list.
pub proof fn lemma_extract_repeatable(html: Seq<char>, first: Seq<Seq<char>>, second: Seq<Seq<char>>)
    requires
        first == media_urls_of(html),
        second == media_urls_of(html),
    ensures
        first == second,
{
}

} // verus!
