use select::predicate::{Attr, Class, Name};
use vstd::prelude::*;

verus! {

#[verifier::external_type_specification]
#[verifier::external_body]
pub struct ExDocument(select::document::Document);

/// Text of the first element, in document order, whose class list holds `class`.
pub uninterp spec fn first_text_with_class(source: Seq<char>, class: Seq<char>) -> Option<
    Seq<char>,
>;

/// Markup of the first element, in document order, whose class list holds `class`.
pub uninterp spec fn first_html_with_class(source: Seq<char>, class: Seq<char>) -> Option<
    Seq<char>,
>;

/// Markup of the first element, in document order, whose `id` is `id`.
pub uninterp spec fn first_html_with_id(source: Seq<char>, id: Seq<char>) -> Option<Seq<char>>;

/// Text of the first `p` element below the first element whose class list holds `class`.
pub uninterp spec fn first_paragraph_text_in_class(source: Seq<char>, class: Seq<char>) -> Option<
    Seq<char>,
>;

/// Markup of every element whose class list holds `class`, in document order.
pub uninterp spec fn all_html_with_class(source: Seq<char>, class: Seq<char>) -> Seq<Seq<char>>;

pub open spec fn opt_view(o: Option<String>) -> Option<Seq<char>> {
    match o {
        Some(s) => Some(s@),
        None => None,
    }
}

/// An HTML document, parsed leniently, together with the text it was parsed from.
/// Only `parse` builds one, so `document` is always what select makes of `source`.
pub(crate) struct HtmlDocument {
    source: String,
    document: select::document::Document,
}

impl HtmlDocument {
    pub closed spec fn source(&self) -> Seq<char> {
        self.source@
    }

    /// Relies on select's `Document::from(&str)`, which accepts any text.
    #[verifier::external_body]
    pub(crate) fn parse(source: String) -> (r: HtmlDocument)
        ensures
            r.source() == source@,
    {
        let document = select::document::Document::from(source.as_str());
        HtmlDocument { source, document }
    }

    /// Relies on select's `Document::find` with `Class`, then `Node::text`.
    #[verifier::external_body]
    pub(crate) fn first_text_with_class(&self, class: &str) -> (r: Option<String>)
        ensures
            opt_view(r) == first_text_with_class(self.source(), class@),
    {
        self.document.find(Class(class)).next().map(|n| n.text())
    }

    /// Relies on select's `Document::find` with `Class`, then `Node::html`.
    #[verifier::external_body]
    pub(crate) fn first_html_with_class(&self, class: &str) -> (r: Option<String>)
        ensures
            opt_view(r) == first_html_with_class(self.source(), class@),
    {
        self.document.find(Class(class)).next().map(|n| n.html())
    }

    /// Relies on select's `Document::find` with `Attr("id", ..)`, then `Node::html`.
    #[verifier::external_body]
    pub(crate) fn first_html_with_id(&self, id: &str) -> (r: Option<String>)
        ensures
            opt_view(r) == first_html_with_id(self.source(), id@),
    {
        self.document.find(Attr("id", id)).next().map(|n| n.html())
    }

    /// Relies on select's `Document::find` with `Class`, then `Node::find` with
    /// `Name("p")` and `Node::text`.
    #[verifier::external_body]
    pub(crate) fn first_paragraph_text_in_class(&self, class: &str) -> (r: Option<String>)
        ensures
            opt_view(r) == first_paragraph_text_in_class(self.source(), class@),
    {
        let outer = self.document.find(Class(class)).next();
        outer.and_then(|n| n.find(Name("p")).next()).map(|p| p.text())
    }

    /// Relies on select's `Document::find` with `Class`, then `Node::html` on each match.
    #[verifier::external_body]
    pub(crate) fn all_html_with_class(&self, class: &str) -> (r: Vec<String>)
        ensures
            r@.map_values(|s: String| s@) == all_html_with_class(self.source(), class@),
    {
        self.document.find(Class(class)).map(|n| n.html()).collect()
    }
}

} // verus!
