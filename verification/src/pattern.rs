use vstd::prelude::*;

verus! {

/// Whether the regular expression `pattern` matches somewhere in `text`;
/// `None` when `pattern` is not a valid regular expression.
pub uninterp spec fn regex_matches(pattern: Seq<char>, text: Seq<char>) -> Option<bool>;

/// The leftmost-first match of `pattern` in `text`; `None` when `pattern`
/// is not a valid regular expression, `Some(None)` when it does not match.
pub uninterp spec fn regex_first(pattern: Seq<char>, text: Seq<char>) -> Option<Option<Seq<char>>>;

/// The text of capture group `group` in the first match of `pattern` in
/// `text`; `None` when `pattern` is not valid, `Some(None)` when it does not
/// match or the group took no part in the match.
pub uninterp spec fn regex_group(pattern: Seq<char>, text: Seq<char>, group: nat) -> Option<
    Option<Seq<char>>,
>;

/// The successive non-overlapping matches of `pattern` in `text`; `None`
/// when `pattern` is not a valid regular expression.
pub uninterp spec fn regex_all(pattern: Seq<char>, text: Seq<char>) -> Option<Seq<Seq<char>>>;

/// Compiles `pattern` with `regex::Regex::new` and asks `Regex::is_match`
/// about `text`. The claim: the answer is a function of the two texts alone,
/// named `regex_matches`; an invalid pattern gives `None`.
#[verifier::external_body]
pub(crate) fn is_match(pattern: &str, text: &str) -> (r: Option<bool>)
    ensures
        r == regex_matches(pattern@, text@),
{
    match regex::Regex::new(pattern) {
        Ok(re) => Some(re.is_match(text)),
        Err(_) => None,
    }
}

/// Compiles `pattern` with `regex::Regex::new` and returns the text of
/// `Regex::find` on `text`. The claim: the result is a function of the two
/// texts alone, named `regex_first`; an invalid pattern gives `None`.
#[verifier::external_body]
pub(crate) fn find(pattern: &str, text: &str) -> (r: Option<Option<String>>)
    ensures
        r.deep_view() == regex_first(pattern@, text@),
{
    match regex::Regex::new(pattern) {
        Ok(re) => match re.find(text) {
            Some(m) => Some(Some(m.as_str().to_string())),
            None => Some(None),
        },
        Err(_) => None,
    }
}

/// Compiles `pattern` with `regex::Regex::new`, takes `Regex::captures` on
/// `text` and `Captures::get(group)`. The claim: the result is a function of
/// its arguments alone, named `regex_group`; an invalid pattern gives `None`.
#[verifier::external_body]
pub(crate) fn capture(pattern: &str, text: &str, group: usize) -> (r: Option<Option<String>>)
    ensures
        r.deep_view() == regex_group(pattern@, text@, group as nat),
{
    match regex::Regex::new(pattern) {
        Ok(re) => match re.captures(text) {
            Some(c) => match c.get(group) {
                Some(m) => Some(Some(m.as_str().to_string())),
                None => Some(None),
            },
            None => Some(None),
        },
        Err(_) => None,
    }
}

/// Compiles `pattern` with `regex::Regex::new` and collects the texts of
/// `Regex::find_iter` on `text`. The claim: the result is a function of the
/// two texts alone, named `regex_all`; an invalid pattern gives `None`.
#[verifier::external_body]
pub(crate) fn find_all(pattern: &str, text: &str) -> (r: Option<Vec<String>>)
    ensures
        r.deep_view() == regex_all(pattern@, text@),
{
    let re = match regex::Regex::new(pattern) {
        Ok(re) => re,
        Err(_) => return None,
    };
    let mut out = Vec::new();
    for m in re.find_iter(text) {
        out.push(m.as_str().to_string());
    }
    Some(out)
}

} // verus!
