//! Homepage-level assets: banner image, logo image and Facebook link.

use vstd::prelude::*;
use crate::site::{first_match, lemma_first_match_prefix};
use crate::text::{chars_of, contains_chars, is_substring};

verus! {

/// Homepage assets, each resolved independently.
pub struct HomepageAssets {
    /// Desktop banner image (storage URI).
    pub banner_image: Option<String>,
    /// Club logo image (storage URI).
    pub logo_image: Option<String>,
    /// Facebook page or group URL.
    pub facebook_url: Option<String>,
}

/// A media entity tagged as belonging to a club, with its stored file.
pub struct ClubMedia {
    pub mid: u64,
    pub name: String,
    pub uri: String,
}

/// `m` is named as a logo.
pub open spec fn is_logo(m: ClubMedia) -> bool {
    is_substring("logo"@, m.name@)
}

/// The oldest logo: least media identity among logos, the earliest on a tie.
pub open spec fn oldest_logo(media: Seq<ClubMedia>) -> Option<int>
    decreases media.len(),
{
    if media.len() == 0 {
        None
    } else {
        let prev = oldest_logo(media.drop_last());
        let l = media.last();
        if is_logo(l) && (prev is None || l.mid < media[prev->0].mid) {
            Some(media.len() - 1)
        } else {
            prev
        }
    }
}

/// `s` names a Facebook page.
pub open spec fn is_facebook(s: String) -> bool {
    is_substring("facebook.com"@, s@)
}

/// The Facebook link: the first social-media link on Facebook, else the first
/// button link on Facebook.
pub open spec fn facebook_choice(social: Seq<String>, buttons: Seq<String>) -> Option<Seq<char>> {
    match first_match(social, |s: String| is_facebook(s)) {
        Some(i) => Some(social[i]@),
        None => match first_match(buttons, |s: String| is_facebook(s)) {
            Some(i) => Some(buttons[i]@),
            None => None,
        },
    }
}

/// The storage URI of the oldest media entity whose name contains `logo`.
pub fn pick_logo(media: &Vec<ClubMedia>) -> (r: Option<String>)
    ensures
        r is Some <==> oldest_logo(media@) is Some,
        r is Some ==> r->0@ == media@[oldest_logo(media@)->0].uri@,
{
    let needle = chars_of("logo");
    proof {
        reveal_strlit("logo");
    }
    let mut best: Option<usize> = None;
    let mut i: usize = 0;
    while i < media.len()
        invariant
            i <= media@.len(),
            needle@ == "logo"@,
            best matches Some(k) ==> k < i,
            oldest_logo(media@.subrange(0, i as int)) == (match best {
                Some(k) => Some(k as int),
                None => None::<int>,
            }),
        decreases media@.len() - i,
    {
        let ghost pre = media@.subrange(0, i + 1);
        assert(pre.drop_last() =~= media@.subrange(0, i as int));
        assert(pre.last() == media@[i as int]);
        let name = chars_of(media[i].name.as_str());
        if contains_chars(&name, &needle) {
            let better = match best {
                None => true,
                Some(k) => media[i].mid < media[k].mid,
            };
            if better {
                best = Some(i);
            }
        }
        i = i + 1;
    }
    assert(media@.subrange(0, media@.len() as int) =~= media@);
    match best {
        Some(k) => Some(media[k].uri.clone()),
        None => None,
    }
}

/// The position of the first link that names a Facebook page.
fn first_facebook(links: &Vec<String>) -> (r: Option<usize>)
    ensures
        r matches Some(k) ==> first_match(links@, |s: String| is_facebook(s)) == Some(k as int)
            && k < links@.len(),
        r is None ==> first_match(links@, |s: String| is_facebook(s)) is None,
{
    let ghost p = |s: String| is_facebook(s);
    let needle = chars_of("facebook.com");
    proof {
        reveal_strlit("facebook.com");
    }
    let mut i: usize = 0;
    while i < links.len()
        invariant
            i <= links@.len(),
            needle@ == "facebook.com"@,
            p == (|s: String| is_facebook(s)),
            first_match(links@.subrange(0, i as int), p) is None,
        decreases links@.len() - i,
    {
        assert(links@.subrange(0, i + 1).drop_last() =~= links@.subrange(0, i as int));
        let chars = chars_of(links[i].as_str());
        if contains_chars(&chars, &needle) {
            proof {
                lemma_first_match_prefix(links@, p, i + 1);
            }
            return Some(i);
        }
        i = i + 1;
    }
    assert(links@.subrange(0, links@.len() as int) =~= links@);
    None
}

/// The Facebook link: a social-media link on Facebook first, else a button link on
/// Facebook.
pub fn pick_facebook_url(social: &Vec<String>, buttons: &Vec<String>) -> (r: Option<String>)
    ensures
        match r {
            Some(s) => facebook_choice(social@, buttons@) == Some(s@),
            None => facebook_choice(social@, buttons@) is None,
        },
{
    match first_facebook(social) {
        Some(i) => Some(social[i].clone()),
        None => match first_facebook(buttons) {
            Some(i) => Some(buttons[i].clone()),
            None => None,
        },
    }
}

/// Resolves a homepage's assets: the first banner image, the oldest logo, and the
/// Facebook link, each absent when nothing matches.
pub fn homepage_assets(
    banners: &Vec<String>,
    media: &Vec<ClubMedia>,
    social: &Vec<String>,
    buttons: &Vec<String>,
) -> (r: HomepageAssets)
    ensures
        r.banner_image is Some <==> banners@.len() > 0,
        r.banner_image is Some ==> r.banner_image->0@ == banners@[0]@,
        r.logo_image is Some <==> oldest_logo(media@) is Some,
        r.logo_image is Some ==> r.logo_image->0@ == media@[oldest_logo(media@)->0].uri@,
        match r.facebook_url {
            Some(s) => facebook_choice(social@, buttons@) == Some(s@),
            None => facebook_choice(social@, buttons@) is None,
        },
{
    let banner_image = if banners.len() > 0 {
        Some(banners[0].clone())
    } else {
        None
    };
    HomepageAssets {
        banner_image,
        logo_image: pick_logo(media),
        facebook_url: pick_facebook_url(social, buttons),
    }
}

} // verus!
