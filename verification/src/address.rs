use vstd::prelude::*;

verus! {

/// What `url::Url` makes of the text `url`: `None` when it is no URL, else its
/// serialization and its host, when it has one.
pub uninterp spec fn url_parts(url: Seq<char>) -> Option<(Seq<char>, Option<Seq<char>>)>;

/// Parses `url` with `url::Url::parse` and returns `Url::as_str` and
/// `Url::host_str` of the result. The claim: the result is a function of the
/// text alone, named `url_parts`; a parse error gives `None`.
#[verifier::external_body]
pub(crate) fn parse_url(url: &str) -> (r: Option<(String, Option<String>)>)
    ensures
        r.deep_view() == url_parts(url@),
{
    match url::Url::parse(url) {
        Ok(u) => Some((u.as_str().to_string(), u.host_str().map(str::to_string))),
        Err(_) => None,
    }
}

/// The host of the URL `url`; `None` when it is no URL or has no host.
pub fn host_of(url: &str) -> (r: Option<String>)
    ensures
        match url_parts(url@) {
            Some((_, Some(h))) => r matches Some(s) && s@ == h,
            _ => r is None,
        },
{
    match parse_url(url) {
        Some((_, Some(h))) => Some(h),
        _ => None,
    }
}

} // verus!
