//! User pictures: which stored files are custom avatars, and their public paths.

use vstd::prelude::*;
use crate::text::{chars_of, contains_chars, is_prefix_of, is_substring, starts_with_chars};
use crate::uri::public_scheme;

verus! {

/// A user's picture file.
pub struct UserAvatar {
    pub uid: u64,
    /// File URI (for example `public://pictures/2020-02/a.png`).
    pub uri: String,
}

/// `a` is a custom picture in the public storage, not a default image.
pub open spec fn is_custom_avatar(a: UserAvatar) -> bool {
    !is_substring("default"@, a.uri@) && is_prefix_of(public_scheme(), a.uri@)
}

/// The custom pictures among the first `n` rows, in order.
pub open spec fn custom_among(rows: Seq<UserAvatar>, n: nat) -> Seq<(u64, Seq<char>)>
    decreases n,
{
    if n == 0 {
        Seq::empty()
    } else {
        let prev = custom_among(rows, (n - 1) as nat);
        if is_custom_avatar(rows[n - 1]) {
            prev.push((rows[n - 1].uid, rows[n - 1].uri@))
        } else {
            prev
        }
    }
}

/// A picture as a pair of user and URI.
pub open spec fn avatar_view(a: UserAvatar) -> (u64, Seq<char>) {
    (a.uid, a.uri@)
}

/// Keeps the pictures that are in the public storage and are not default images.
pub fn custom_avatars(rows: Vec<UserAvatar>) -> (r: Vec<UserAvatar>)
    ensures
        r@.map_values(|a: UserAvatar| avatar_view(a)) == custom_among(rows@, rows@.len()),
{
    let default_word = chars_of("default");
    let scheme = chars_of("public://");
    proof {
        reveal_strlit("default");
        reveal_strlit("public://");
    }
    let mut out: Vec<UserAvatar> = Vec::new();
    let mut i: usize = 0;
    assert(out@.map_values(|a: UserAvatar| avatar_view(a)) =~= custom_among(rows@, 0));
    while i < rows.len()
        invariant
            i <= rows@.len(),
            default_word@ == "default"@,
            scheme@ == public_scheme(),
            out@.map_values(|a: UserAvatar| avatar_view(a)) == custom_among(rows@, i as nat),
        decreases rows@.len() - i,
    {
        let ghost before = out@.map_values(|a: UserAvatar| avatar_view(a));
        let uri = chars_of(rows[i].uri.as_str());
        if !contains_chars(&uri, &default_word) && starts_with_chars(&uri, &scheme) {
            out.push(UserAvatar { uid: rows[i].uid, uri: rows[i].uri.clone() });
            assert(out@.map_values(|a: UserAvatar| avatar_view(a)) =~= before.push(
                (rows@[i as int].uid, rows@[i as int].uri@),
            ));
        }
        i = i + 1;
    }
    out
}

} // verus!
