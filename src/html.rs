use vstd::prelude::*;

verus! {

/// What the analyzer reads of one matched element, as plain values: for each
/// attribute name asked for, in order, its value where the element has it;
/// and the element's first text node, if any.
pub type ElementParts = (Seq<Option<Seq<char>>>, Option<Seq<char>>);

/// One element that a selector matched.
pub struct MatchedElement {
    pub attrs: Vec<Option<String>>,
    pub text: Option<String>,
}

pub open spec fn opt_str_view(o: Option<String>) -> Option<Seq<char>> {
    match o {
        Some(s) => Some(s@),
        None => None,
    }
}

impl View for MatchedElement {
    type V = ElementParts;

    open spec fn view(&self) -> ElementParts {
        (self.attrs@.map_values(|a: Option<String>| opt_str_view(a)), opt_str_view(self.text))
    }
}

pub open spec fn strings_view(v: Seq<String>) -> Seq<Seq<char>> {
    v.map_values(|s: String| s@)
}

pub open spec fn elements_view(v: Seq<MatchedElement>) -> Seq<ElementParts> {
    v.map_values(|e: MatchedElement| e@)
}

/// What scraper makes of a selector over a document: `None` where the
/// selector does not compile, else the matching elements in document order,
/// each read for the given attribute names.
pub uninterp spec fn selector_matches(
    content: Seq<char>,
    selector: Seq<char>,
    attributes: Seq<Seq<char>>,
) -> Option<Seq<ElementParts>>;

/// Relies on scraper: `Selector::parse` compiles the selector (an error where
/// it does not), `Html::parse_document` parses the markup, `Html::select`
/// yields the matching elements in document order, and each element is read
/// with `Element::attr` for every name asked for and `ElementRef::text`.
#[verifier::external_body]
pub(crate) fn select_elements(content: &str, selector: &str, attributes: &Vec<String>) -> (r:
    Option<Vec<MatchedElement>>)
    ensures
        match r {
            Some(v) => selector_matches(content@, selector@, strings_view(attributes@)) == Some(
                elements_view(v@),
            ),
            None => selector_matches(content@, selector@, strings_view(attributes@)).is_none(),
        },
{
    let selector = scraper::Selector::parse(selector).ok()?;
    let document = scraper::Html::parse_document(content);
    Some(document.select(&selector).map(|e| MatchedElement {
        attrs: attributes.iter().map(|a| e.value().attr(a).map(|v| v.to_string())).collect(),
        text: e.text().next().map(|t| t.to_string()),
    }).collect())
}

} // verus!
