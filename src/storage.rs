use crate::crawler::CrawlError;
use crate::web_url::{host_of, parse_url, parsed_url, path_of, UrlParts};
use vstd::prelude::*;
use vstd::string::*;

verus! {

/// The path with every `/` replaced by `_`.
pub open spec fn flattened(path: Seq<char>) -> Seq<char> {
    path.map_values(|c: char| if c == '/' { '_' } else { c })
}

/// The report file's name for a parsed page URL:
/// `<host>_<path with slashes replaced by underscores>.txt`, the host being
/// `unknown` where the URL has none.
pub open spec fn report_file_name(u: UrlParts) -> Seq<char> {
    let host = match host_of(u) {
        Some(h) => h,
        None => "unknown"@,
    };
    host + "_"@ + flattened(path_of(u)) + ".txt"@
}

/// Where reports are kept: one file per page under an output directory.
pub struct FileStorage {
    pub base_dir: String,
}

impl FileStorage {
    /// A store rooted at `base_dir`; the directory itself is made by the caller.
    pub fn new(base_dir: &str) -> (r: FileStorage)
        ensures
            r.base_dir@ == base_dir@,
    {
        FileStorage { base_dir: base_dir.to_owned() }
    }

    /// The name of the file that holds the report on `url`; an error where
    /// the URL does not parse.
    pub fn file_name(&self, url: &str) -> (r: Result<String, CrawlError>)
        ensures
            r is Err <==> parsed_url(url@).is_none(),
            r matches Err(e) ==> e == CrawlError::UrlParse,
            r matches Ok(name) ==> name@ == report_file_name(parsed_url(url@).unwrap()),
    {
        let parsed = match parse_url(url) {
            Ok(u) => u,
            Err(_) => {
                return Err(CrawlError::UrlParse);
            },
        };
        let mut name = match &parsed.host {
            Some(h) => h.clone(),
            None => "unknown".to_owned(),
        };
        name.push_str("_");
        let ghost head = name@;
        let path = parsed.path.as_str();
        let n = path.unicode_len();
        let mut i: usize = 0;
        while i < n
            invariant
                n == path@.len(),
                path@ == parsed.path@,
                i <= n,
                name@ == head + flattened(path@).take(i as int),
            decreases n - i,
        {
            let c = path.get_char(i);
            if c == '/' {
                name.push('_');
            } else {
                name.push(c);
            }
            assert(flattened(path@).take(i + 1) =~= flattened(path@).take(i as int).push(
                if c == '/' {
                    '_'
                } else {
                    c
                },
            ));
            i = i + 1;
        }
        name.push_str(".txt");
        assert(flattened(path@).take(n as int) =~= flattened(path@));
        Ok(name)
    }
}

} // verus!
