use vstd::prelude::*;

verus! {

/// A fetched page: its URL, its raw markup and the in-scope links found on it,
/// in document order.
#[derive(Debug)]
pub struct Page {
    pub url: String,
    pub content: String,
    pub links: Vec<String>,
}

impl Page {
    pub fn new(url: String, content: String, links: Vec<String>) -> (r: Page)
        ensures
            r.url@ == url@,
            r.content@ == content@,
            r.links@ == links@,
    {
        Page { url, content, links }
    }
}

} // verus!
