use vstd::prelude::*;

use crate::error::InvalidUrl;

verus! {

/// The root of the remote API.
pub const API_BASE: &'static str = "https://api.github.com";

/// The longest base or path, in characters, handed to the URL parser: far
/// below the point where its offsets would overflow `u32`.
pub const URL_PART_MAX: usize = 0x100_0000;

#[verifier::external_type_specification]
#[verifier::external_body]
pub struct ExParseError(url::ParseError);

/// The URL that the `url` crate makes of `base` with its path set to `path`,
/// or `None` where `base` is not an absolute URL.
pub uninterp spec fn url_with_path(base: Seq<char>, path: Seq<char>) -> Option<Seq<char>>;

/// Relies on url::Url::parse, url::Url::set_path and url::Url::as_str: parse
/// `base`, replace its path by `path` (percent-encoded where needed) and
/// serialise. The result depends on the two strings alone.
#[verifier::external_body]
fn join_url(base: &str, path: &str) -> (r: Result<String, url::ParseError>)
    requires
        base@.len() <= URL_PART_MAX,
        path@.len() <= URL_PART_MAX,
    ensures
        match url_with_path(base@, path@) {
            Some(u) => r matches Ok(s) && s@ == u,
            None => r is Err,
        },
{
    let mut url = url::Url::parse(base)?;
    url.set_path(path);
    Ok(url.as_str().to_string())
}

/// The path of the resource that describes repository `repo`.
pub open spec fn repo_path(repo: Seq<char>) -> Seq<char> {
    seq!['r', 'e', 'p', 'o', 's', '/'] + repo
}

pub open spec fn api_base() -> Seq<char> {
    API_BASE@
}

/// The request URL for repository `repo`: the API root with path `repos/{repo}`.
pub fn fmt_url(repo: &String) -> (r: Result<String, InvalidUrl>)
    requires
        repo@.len() + 6 <= URL_PART_MAX,
    ensures
        match url_with_path(api_base(), repo_path(repo@)) {
            Some(u) => r matches Ok(s) && s@ == u,
            None => r == Err::<String, InvalidUrl>(InvalidUrl),
        },
{
    let mut path = "repos/".to_owned();
    path.append(repo.as_str());
    proof {
        reveal_strlit("repos/");
        reveal_strlit("https://api.github.com");
        assert(path@ =~= repo_path(repo@));
    }
    match join_url(API_BASE, path.as_str()) {
        Ok(s) => Ok(s),
        Err(_) => Err(InvalidUrl),
    }
}

} // verus!
