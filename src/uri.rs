//! Rewriting of storage-scheme file URIs to public paths.

use vstd::prelude::*;
use crate::text::{chars_of, is_prefix_of, starts_with_chars, string_from};

verus! {

/// Scheme prefix of the CMS's public file storage.
pub open spec fn public_scheme() -> Seq<char> {
    "public://"@
}

/// Path under which the public file storage is served.
pub open spec fn public_root() -> Seq<char> {
    "/sites/default/files/"@
}

/// The public path of a storage URI: defined only for the public scheme.
pub open spec fn public_path_of(uri: Seq<char>) -> Option<Seq<char>> {
    if is_prefix_of(public_scheme(), uri) {
        Some(public_root() + uri.skip(public_scheme().len() as int))
    } else {
        None
    }
}

/// Rewrites `public://path` to `/sites/default/files/path`; any other URI has no path.
pub fn drupal_uri_to_path(uri: &str) -> (r: Option<String>)
    ensures
        r is Some <==> public_path_of(uri@) is Some,
        r is Some ==> r->0@ == public_path_of(uri@)->0,
{
    let chars = chars_of(uri);
    let scheme = chars_of("public://");
    if starts_with_chars(&chars, &scheme) {
        let mut path = String::from_str("/sites/default/files/");
        let rest = string_from(&chars, scheme.len());
        path.append(rest.as_str());
        proof {
            reveal_strlit("public://");
            reveal_strlit("/sites/default/files/");
        }
        Some(path)
    } else {
        proof {
            reveal_strlit("public://");
        }
        None
    }
}

/// Rewrites a user picture's storage URI to its public path, as `drupal_uri_to_path` does.
pub fn avatar_uri_to_path(uri: &str) -> (r: Option<String>)
    ensures
        r is Some <==> public_path_of(uri@) is Some,
        r is Some ==> r->0@ == public_path_of(uri@)->0,
{
    drupal_uri_to_path(uri)
}

} // verus!
