//! Where the record of a path is kept on disk and where it is asked for.

use vstd::prelude::*;
use vstd::string::StringExecFns;
use crate::text::{chars_of, string_of};

verus! {

/// The address of the coverage service.
pub const BASE_URL: &'static str = "https://api.coverage.testing.moz.tools/v2";

/// `path` with every slash replaced by a dash.
pub open spec fn dashed(path: Seq<char>) -> Seq<char> {
    Seq::new(
        path.len(),
        |i: int|
            if path[i] == '/' {
                '-'
            } else {
                path[i]
            },
    )
}

/// The name of the file that holds the record of `path`.
pub open spec fn cache_file_name_of(path: Seq<char>) -> Seq<char> {
    dashed(path) + ".json"@
}

/// The directory that holds the records of `changeset`.
pub open spec fn cache_directory_of(changeset: Seq<char>) -> Seq<char> {
    "data/"@ + changeset
}

/// The address that answers with the record of `path` in `suite` at
/// `changeset`.
pub open spec fn node_url_of(
    base_url: Seq<char>,
    path: Seq<char>,
    suite: Seq<char>,
    changeset: Seq<char>,
) -> Seq<char> {
    base_url + "/path?path="@ + path + "&suite="@ + suite + "&changeset="@ + changeset
}

/// The address that answers with the record of the root at the latest
/// changeset that the service knows.
pub open spec fn latest_changeset_url_of(base_url: Seq<char>) -> Seq<char> {
    base_url + "/path?path="@
}

/// The name of the file that holds the record of `path`: the path with its
/// slashes turned into dashes, so that it names no directory, and `.json`
/// behind it.
pub fn cache_file_name(path: &str) -> (name: String)
    ensures
        name@ == cache_file_name_of(path@),
{
    let mut chars = chars_of(path);
    let mut i: usize = 0;
    while i < chars.len()
        invariant
            i <= chars@.len(),
            chars@.len() == path@.len(),
            forall|k: int| 0 <= k < i ==> chars@[k] == dashed(path@)[k],
            forall|k: int| i <= k < chars@.len() ==> chars@[k] == path@[k],
        decreases chars@.len() - i,
    {
        if chars[i] == '/' {
            chars.set(i, '-');
        }
        i += 1;
    }
    proof {
        assert(chars@ =~= dashed(path@));
    }
    let mut name = string_of(&chars, 0, chars.len());
    proof {
        assert(chars@.subrange(0, chars@.len() as int) =~= chars@);
    }
    name.append(".json");
    name
}

/// The directory that holds the records of `changeset`.
pub fn cache_directory(changeset: &str) -> (directory: String)
    ensures
        directory@ == cache_directory_of(changeset@),
{
    let mut directory = String::from_str("data/");
    directory.append(changeset);
    directory
}

/// The address to ask for the record of `path` in `suite` at `changeset`.
/// The three are put into the address as they stand.
pub fn node_url(base_url: &str, path: &str, suite: &str, changeset: &str) -> (url: String)
    ensures
        url@ == node_url_of(base_url@, path@, suite@, changeset@),
{
    let mut url = String::from_str(base_url);
    url.append("/path?path=");
    url.append(path);
    url.append("&suite=");
    url.append(suite);
    url.append("&changeset=");
    url.append(changeset);
    url
}

/// The address to ask for the latest changeset.
pub fn latest_changeset_url(base_url: &str) -> (url: String)
    ensures
        url@ == latest_changeset_url_of(base_url@),
{
    let mut url = String::from_str(base_url);
    url.append("/path?path=");
    url
}

} // verus!
