use vstd::prelude::*;

verus! {

/// The text of the first element named `tag` in the page `html`, or `None`
/// when there is no such element.
pub uninterp spec fn html_first_text(html: Seq<char>, tag: Seq<char>) -> Option<Seq<char>>;

/// For each element of class `class` in the page `html`, in document order,
/// the attribute `attr` of each of its descendants named `tag`, in document
/// order (`None` for a descendant without that attribute).
pub uninterp spec fn html_class_attrs(
    html: Seq<char>,
    class: Seq<char>,
    tag: Seq<char>,
    attr: Seq<char>,
) -> Seq<Seq<Option<Seq<char>>>>;

/// Parses `html` with `select::document::Document::from` and returns the
/// `Node::text` of the first node that `Document::find(Name(tag))` yields.
/// The claim: the result is a function of the two texts alone, named
/// `html_first_text`.
#[verifier::external_body]
pub(crate) fn first_text(html: &str, tag: &str) -> (r: Option<String>)
    ensures
        r.deep_view() == html_first_text(html@, tag@),
{
    let doc = select::document::Document::from(html);
    let first = doc.find(select::predicate::Name(tag)).next();
    match first {
        Some(node) => Some(node.text()),
        None => None,
    }
}

/// Parses `html` with `select::document::Document::from`, and for each node
/// that `Document::find(Class(class))` yields, collects `Node::attr(attr)` of
/// each node that its `Node::find(Name(tag))` yields. The claim: the result
/// is a function of the four texts alone, named `html_class_attrs`.
#[verifier::external_body]
pub(crate) fn class_attrs(html: &str, class: &str, tag: &str, attr: &str) -> (r: Vec<Vec<Option<String>>>)
    ensures
        r.deep_view() == html_class_attrs(html@, class@, tag@, attr@),
{
    let doc = select::document::Document::from(html);
    let mut out = Vec::new();
    for node in doc.find(select::predicate::Class(class)) {
        let mut attrs = Vec::new();
        for n in node.find(select::predicate::Name(tag)) {
            attrs.push(n.attr(attr).map(str::to_string));
        }
        out.push(attrs);
    }
    out
}

} // verus!
