use crate::html::{
    elements_view, opt_str_view, select_elements, selector_matches, strings_view, ElementParts,
    MatchedElement,
};
use crate::page::Page;
use crate::text::trimmed;
use vstd::prelude::*;
use vstd::string::*;

verus! {

/// `a` and `b` joined by `": "`.
pub open spec fn labelled(a: Seq<char>, b: Seq<char>) -> Seq<char> {
    a + seq![':', ' '] + b
}

/// The `"name: value"` parts for the first `n` attribute names that the
/// element has.
pub open spec fn attr_parts(names: Seq<Seq<char>>, values: Seq<Option<Seq<char>>>, n: int) -> Seq<
    Seq<char>,
>
    decreases n,
{
    if n <= 0 {
        seq![]
    } else {
        attr_parts(names, values, n - 1) + match value_at(values, n - 1) {
            Some(v) => seq![labelled(names[n - 1], v)],
            None => seq![],
        }
    }
}

/// The value read for the attribute at `i`; `None` past the values read.
pub open spec fn value_at(values: Seq<Option<Seq<char>>>, i: int) -> Option<Seq<char>> {
    if 0 <= i < values.len() {
        values[i]
    } else {
        None
    }
}

/// The `"text: t"` part, where the first text node is non-empty once trimmed.
pub open spec fn text_part(text: Option<Seq<char>>) -> Seq<Seq<char>> {
    match text {
        Some(t) => if trimmed(t).len() > 0 {
            seq![labelled(seq!['t', 'e', 'x', 't'], trimmed(t))]
        } else {
            seq![]
        },
        None => seq![],
    }
}

/// All parts of the finding for one element, in order.
pub open spec fn element_parts(names: Seq<Seq<char>>, e: ElementParts) -> Seq<Seq<char>> {
    attr_parts(names, e.0, names.len() as int) + text_part(e.1)
}

/// The parts joined by `", "`.
pub open spec fn joined(parts: Seq<Seq<char>>) -> Seq<char>
    decreases parts.len(),
{
    if parts.len() == 0 {
        seq![]
    } else if parts.len() == 1 {
        parts[0]
    } else {
        joined(parts.drop_last()) + seq![',', ' '] + parts.last()
    }
}

proof fn lemma_joined_push(parts: Seq<Seq<char>>, x: Seq<char>)
    ensures
        joined(parts.push(x)) == if parts.len() == 0 {
            x
        } else {
            joined(parts) + seq![',', ' '] + x
        },
{
    assert(parts.push(x).drop_last() =~= parts);
}

/// The finding string for one element; `None` where it has no part.
pub open spec fn finding_of(names: Seq<Seq<char>>, e: ElementParts) -> Option<Seq<char>> {
    if element_parts(names, e).len() == 0 {
        None
    } else {
        Some(joined(element_parts(names, e)))
    }
}

/// Formats the finding for one matched element: each attribute that it has,
/// in the order asked for, then its trimmed first text node where non-empty.
pub fn format_finding(attributes: &Vec<String>, e: &MatchedElement) -> (r: Option<String>)
    ensures
        opt_str_view(r) == finding_of(strings_view(attributes@), e@),
{
    let ghost names = strings_view(attributes@);
    let ghost values = e@.0;
    let mut out = String::new();
    let mut any = false;
    let n = attributes.len();
    let mut i: usize = 0;
    while i < n
        invariant
            n == attributes@.len(),
            names == strings_view(attributes@),
            values == e@.0,
            i <= n,
            any == (attr_parts(names, values, i as int).len() > 0),
            out@ == joined(attr_parts(names, values, i as int)),
        decreases n - i,
    {
        let ghost prev = attr_parts(names, values, i as int);
        let value = if i < e.attrs.len() {
            &e.attrs[i]
        } else {
            &None
        };
        match value {
            Some(v) => {
                proof {
                    reveal_strlit(", ");
                    reveal_strlit(": ");
                    lemma_joined_push(prev, labelled(names[i as int], v@));
                    assert(value_at(values, i as int) == Some(v@));
                }
                if any {
                    out.push_str(", ");
                }
                out.push_str(attributes[i].as_str());
                out.push_str(": ");
                out.push_str(v.as_str());
                assert(out@ == joined(prev.push(labelled(names[i as int], v@))));
                assert(attr_parts(names, values, i + 1) == prev.push(labelled(names[i as int], v@)));
                any = true;
            },
            None => {
                assert(value_at(values, i as int).is_none());
                assert(attr_parts(names, values, i + 1) =~= prev);
            },
        }
        i = i + 1;
    }
    let ghost attrs_done = attr_parts(names, values, n as int);
    assert(element_parts(names, e@) == attrs_done + text_part(e@.1));
    if let Some(t) = &e.text {
        let tt = t.as_str().trim();
        if tt.unicode_len() > 0 {
            proof {
                reveal_strlit(", ");
                reveal_strlit("text: ");
                lemma_joined_push(attrs_done, labelled(seq!['t', 'e', 'x', 't'], trimmed(t@)));
                assert(text_part(e@.1) == seq![labelled(seq!['t', 'e', 'x', 't'], trimmed(t@))]);
                assert(attrs_done + text_part(e@.1) =~= attrs_done.push(
                    labelled(seq!['t', 'e', 'x', 't'], trimmed(t@)),
                ));
            }
            if any {
                out.push_str(", ");
            }
            out.push_str("text: ");
            out.push_str(tt);
            assert("text: "@ + tt@ =~= labelled(seq!['t', 'e', 'x', 't'], trimmed(t@)));
            return Some(out);
        } else {
            assert(text_part(e@.1) =~= seq![]);
        }
    } else {
        assert(text_part(e@.1) =~= seq![]);
    }
    assert(element_parts(names, e@) =~= attrs_done);
    if !any {
        None
    } else {
        Some(out)
    }
}

/// The findings of the first `n` matched elements, in order.
pub open spec fn match_findings(names: Seq<Seq<char>>, ms: Seq<ElementParts>, n: int) -> Seq<
    Seq<char>,
>
    decreases n,
{
    if n <= 0 {
        seq![]
    } else {
        match_findings(names, ms, n - 1) + match finding_of(names, ms[n - 1]) {
            Some(f) => seq![f],
            None => seq![],
        }
    }
}

/// Builds the findings for the elements that one selector matched, in order,
/// leaving out elements with no part to report.
pub fn findings_from_matches(attributes: &Vec<String>, matches: &Vec<MatchedElement>) -> (r: Vec<
    String,
>)
    ensures
        strings_view(r@) == match_findings(
            strings_view(attributes@),
            elements_view(matches@),
            matches@.len() as int,
        ),
{
    let ghost names = strings_view(attributes@);
    let ghost ms = elements_view(matches@);
    let mut out: Vec<String> = Vec::new();
    let mut i: usize = 0;
    while i < matches.len()
        invariant
            names == strings_view(attributes@),
            ms == elements_view(matches@),
            i <= matches@.len(),
            strings_view(out@) == match_findings(names, ms, i as int),
        decreases matches@.len() - i,
    {
        let f = format_finding(attributes, &matches[i]);
        assert(ms[i as int] == matches@[i as int]@);
        match f {
            Some(s) => {
                out.push(s);
            },
            None => {},
        }
        assert(strings_view(out@) =~= match_findings(names, ms, i + 1));
        i = i + 1;
    }
    out
}

/// What one selector contributes: nothing where it does not compile.
pub open spec fn selector_findings(content: Seq<char>, selector: Seq<char>, names: Seq<Seq<char>>) -> Seq<
    Seq<char>,
> {
    match selector_matches(content, selector, names) {
        Some(ms) => match_findings(names, ms, ms.len() as int),
        None => seq![],
    }
}

/// Applies one selector to the markup. `None` where the selector does not
/// compile: that selector is skipped, not reported.
pub fn select_findings(content: &str, selector: &str, attributes: &Vec<String>) -> (r: Option<
    Vec<String>,
>)
    ensures
        r.is_none() == selector_matches(content@, selector@, strings_view(attributes@)).is_none(),
        r matches Some(v) ==> strings_view(v@) == selector_findings(
            content@,
            selector@,
            strings_view(attributes@),
        ),
{
    match select_elements(content, selector, attributes) {
        Some(matches) => Some(findings_from_matches(attributes, &matches)),
        None => None,
    }
}

/// A pattern as plain values: its name, its selectors and its attribute names.
pub type PatternParts = (Seq<char>, Seq<Seq<char>>, Seq<Seq<char>>);

/// The findings of a pattern's first `n` selectors, in selector order.
pub open spec fn pattern_findings(content: Seq<char>, p: PatternParts, n: int) -> Seq<Seq<char>>
    decreases n,
{
    if n <= 0 {
        seq![]
    } else {
        pattern_findings(content, p, n - 1) + selector_findings(content, p.1[n - 1], p.2)
    }
}

/// A named bundle of selectors and of the attribute names to report.
pub struct AnalysisPattern {
    pub name: String,
    pub selectors: Vec<String>,
    pub attributes: Vec<String>,
}

impl View for AnalysisPattern {
    type V = PatternParts;

    open spec fn view(&self) -> PatternParts {
        (self.name@, strings_view(self.selectors@), strings_view(self.attributes@))
    }
}

impl AnalysisPattern {
    /// All findings of this pattern on the markup, selector by selector.
    pub fn findings(&self, content: &str) -> (r: Vec<String>)
        ensures
            strings_view(r@) == pattern_findings(content@, self@, self@.1.len() as int),
    {
        let ghost p = self@;
        let mut out: Vec<String> = Vec::new();
        let mut i: usize = 0;
        while i < self.selectors.len()
            invariant
                p == self@,
                i <= self.selectors@.len(),
                strings_view(out@) == pattern_findings(content@, p, i as int),
            decreases self.selectors@.len() - i,
        {
            let ghost before = strings_view(out@);
            match select_findings(content, self.selectors[i].as_str(), &self.attributes) {
                Some(mut found) => {
                    out.append(&mut found);
                    assert(strings_view(out@) =~= before + selector_findings(
                        content@,
                        p.1[i as int],
                        p.2,
                    ));
                },
                None => {
                    assert(selector_findings(content@, p.1[i as int], p.2) =~= seq![]);
                },
            }
            assert(strings_view(out@) =~= pattern_findings(content@, p, i + 1));
            i = i + 1;
        }
        out
    }
}

/// A page's findings as plain values: pattern names with their findings, in
/// pattern order.
pub type FindingsParts = Seq<(Seq<char>, Seq<Seq<char>>)>;

/// The result over the first `n` patterns: a pattern with findings is listed
/// under its name, one without is absent.
pub open spec fn analysis_of(patterns: Seq<PatternParts>, content: Seq<char>, n: int) -> FindingsParts
    decreases n,
{
    if n <= 0 {
        seq![]
    } else {
        let p = patterns[n - 1];
        let f = pattern_findings(content, p, p.1.len() as int);
        analysis_of(patterns, content, n - 1) + if f.len() > 0 {
            seq![(p.0, f)]
        } else {
            seq![]
        }
    }
}

/// The findings on one page, keyed by pattern name in pattern order.
pub struct AnalysisResult {
    pub url: String,
    pub findings: Vec<(String, Vec<String>)>,
}

pub open spec fn findings_view(v: Seq<(String, Vec<String>)>) -> FindingsParts {
    v.map_values(|e: (String, Vec<String>)| (e.0@, strings_view(e.1@)))
}

impl View for AnalysisResult {
    type V = (Seq<char>, FindingsParts);

    open spec fn view(&self) -> (Seq<char>, FindingsParts) {
        (self.url@, findings_view(self.findings@))
    }
}

/// Applies a fixed, ordered list of named patterns to a page's markup.
pub struct ContentAnalyzer {
    pub patterns: Vec<AnalysisPattern>,
}

impl View for ContentAnalyzer {
    type V = Seq<PatternParts>;

    open spec fn view(&self) -> Seq<PatternParts> {
        self.patterns@.map_values(|p: AnalysisPattern| p@)
    }
}

impl ContentAnalyzer {
    /// Analyzes one page: for each pattern in order, the findings of its
    /// selectors in order; a pattern without findings is left out.
    pub fn analyze(&self, page: &Page) -> (r: AnalysisResult)
        ensures
            r@ == (page.url@, analysis_of(self@, page.content@, self@.len() as int)),
    {
        let ghost ps = self@;
        let mut findings: Vec<(String, Vec<String>)> = Vec::new();
        let mut i: usize = 0;
        while i < self.patterns.len()
            invariant
                ps == self@,
                i <= self.patterns@.len(),
                findings_view(findings@) == analysis_of(ps, page.content@, i as int),
            decreases self.patterns@.len() - i,
        {
            let pattern = &self.patterns[i];
            assert(ps[i as int] == pattern@);
            let found = pattern.findings(page.content.as_str());
            if found.len() > 0 {
                findings.push((pattern.name.clone(), found));
            }
            assert(findings_view(findings@) =~= analysis_of(ps, page.content@, i + 1));
            i = i + 1;
        }
        AnalysisResult { url: page.url.clone(), findings }
    }
}

impl AnalysisResult {
    /// The number of patterns with at least one finding.
    pub fn patterns_found(&self) -> (r: usize)
        ensures
            r == self@.1.len(),
    {
        self.findings.len()
    }
}

/// One `"- <finding>\n"` line for each of the first `n` findings.
pub open spec fn finding_lines(fs: Seq<Seq<char>>, n: int) -> Seq<char>
    decreases n,
{
    if n <= 0 {
        seq![]
    } else {
        finding_lines(fs, n - 1) + "- "@ + fs[n - 1] + "\n"@
    }
}

/// One section for each of the first `n` patterns: a `"=== <name> ===\n"`
/// header, the finding lines, then a blank line.
pub open spec fn sections(f: FindingsParts, n: int) -> Seq<char>
    decreases n,
{
    if n <= 0 {
        seq![]
    } else {
        sections(f, n - 1) + section(f[n - 1])
    }
}

pub open spec fn section(e: (Seq<char>, Seq<Seq<char>>)) -> Seq<char> {
    "=== "@ + e.0 + " ===\n"@ + finding_lines(e.1, e.1.len() as int) + "\n"@
}

/// The plain-text report of a result.
pub open spec fn report_text(r: (Seq<char>, FindingsParts)) -> Seq<char> {
    "URL: "@ + r.0 + "\n\n"@ + sections(r.1, r.1.len() as int)
}

impl AnalysisResult {
    /// The report: `"URL: <url>\n\n"`, then one section per pattern with
    /// findings, in order.
    pub fn to_string(&self) -> (r: String)
        ensures
            r@ == report_text(self@),
    {
        let ghost f = self@.1;
        let mut out = String::new();
        out.push_str("URL: ");
        out.push_str(self.url.as_str());
        out.push_str("\n\n");
        let mut i: usize = 0;
        while i < self.findings.len()
            invariant
                f == self@.1,
                i <= self.findings@.len(),
                out@ == "URL: "@ + self.url@ + "\n\n"@ + sections(f, i as int),
            decreases self.findings@.len() - i,
        {
            let ghost start = out@;
            let entry = &self.findings[i];
            let fs = &entry.1;
            out.push_str("=== ");
            out.push_str(entry.0.as_str());
            out.push_str(" ===\n");
            let ghost head = out@;
            let mut j: usize = 0;
            while j < fs.len()
                invariant
                    i < self.findings@.len(),
                    entry == self.findings@[i as int],
                    fs == entry.1,
                    j <= fs@.len(),
                    out@ == head + finding_lines(strings_view(fs@), j as int),
                decreases fs@.len() - j,
            {
                out.push_str("- ");
                out.push_str(fs[j].as_str());
                out.push_str("\n");
                assert(out@ =~= head + finding_lines(strings_view(fs@), j + 1));
                j = j + 1;
            }
            out.push_str("\n");
            assert(f[i as int] == (entry.0@, strings_view(fs@)));
            assert(out@ =~= start + section(f[i as int]));
            assert(out@ =~= "URL: "@ + self.url@ + "\n\n"@ + sections(f, i + 1));
            i = i + 1;
        }
        out
    }
}

/// The built-in patterns, in order: login forms, contact links and links to
/// social platforms.
pub open spec fn builtin_patterns() -> Seq<PatternParts> {
    seq![
        (
            "login_forms"@,
            seq![
                "form[action*='login']"@,
                "form[action*='signin']"@,
                "input[type='password']"@,
            ],
            seq!["action"@, "method"@, "id"@, "class"@],
        ),
        ("contact_info"@, seq!["a[href^='mailto:']"@, "a[href^='tel:']"@], seq!["href"@]),
        (
            "social_media"@,
            seq![
                "a[href*='facebook.com']"@,
                "a[href*='twitter.com']"@,
                "a[href*='linkedin.com']"@,
                "a[href*='instagram.com']"@,
            ],
            seq!["href"@],
        ),
    ]
}

impl ContentAnalyzer {
    /// An analyzer with the built-in patterns.
    pub fn new() -> (r: ContentAnalyzer)
        ensures
            r@ == builtin_patterns(),
    {
        let login = AnalysisPattern {
            name: "login_forms".to_owned(),
            selectors: vec![
                "form[action*='login']".to_owned(),
                "form[action*='signin']".to_owned(),
                "input[type='password']".to_owned(),
            ],
            attributes: vec![
                "action".to_owned(),
                "method".to_owned(),
                "id".to_owned(),
                "class".to_owned(),
            ],
        };
        let contact = AnalysisPattern {
            name: "contact_info".to_owned(),
            selectors: vec!["a[href^='mailto:']".to_owned(), "a[href^='tel:']".to_owned()],
            attributes: vec!["href".to_owned()],
        };
        let social = AnalysisPattern {
            name: "social_media".to_owned(),
            selectors: vec![
                "a[href*='facebook.com']".to_owned(),
                "a[href*='twitter.com']".to_owned(),
                "a[href*='linkedin.com']".to_owned(),
                "a[href*='instagram.com']".to_owned(),
            ],
            attributes: vec!["href".to_owned()],
        };
        assert(login@ =~= builtin_patterns()[0]);
        assert(contact@ =~= builtin_patterns()[1]);
        assert(social@ =~= builtin_patterns()[2]);
        let r = ContentAnalyzer { patterns: vec![login, contact, social] };
        assert(r@ =~= builtin_patterns());
        r
    }
}

/// Analysis is a function of the analyzer and the page: two results of
/// `analyze` on the same page are equal, and so are their reports.
pub proof fn lemma_analyze_deterministic(
    a: ContentAnalyzer,
    page: Page,
    r1: AnalysisResult,
    r2: AnalysisResult,
)
    requires
        r1@ == (page.url@, analysis_of(a@, page.content@, a@.len() as int)),
        r2@ == (page.url@, analysis_of(a@, page.content@, a@.len() as int)),
    ensures
        r1@ == r2@,
        report_text(r1@) == report_text(r2@),
{
}

/// No selector of the patterns matches anything in the markup (or does not
/// compile).
pub open spec fn nothing_matches(patterns: Seq<PatternParts>, content: Seq<char>) -> bool {
    forall|i: int, j: int|
        0 <= i < patterns.len() && 0 <= j < patterns[i].1.len() ==> match selector_matches(
            content,
            #[trigger] patterns[i].1[j],
            patterns[i].2,
        ) {
            Some(ms) => ms.len() == 0,
            None => true,
        }
}

proof fn lemma_pattern_without_matches(content: Seq<char>, p: PatternParts, n: int)
    requires
        n <= p.1.len(),
        forall|j: int|
            0 <= j < p.1.len() ==> match selector_matches(content, #[trigger] p.1[j], p.2) {
                Some(ms) => ms.len() == 0,
                None => true,
            },
    ensures
        pattern_findings(content, p, n).len() == 0,
    decreases n,
{
    if n > 0 {
        lemma_pattern_without_matches(content, p, n - 1);
        assert(selector_findings(content, p.1[n - 1], p.2).len() == 0);
    }
}

proof fn lemma_analysis_without_matches(patterns: Seq<PatternParts>, content: Seq<char>, n: int)
    requires
        n <= patterns.len(),
        nothing_matches(patterns, content),
    ensures
        analysis_of(patterns, content, n).len() == 0,
    decreases n,
{
    if n > 0 {
        lemma_analysis_without_matches(patterns, content, n - 1);
        let p = patterns[n - 1];
        assert forall|j: int| 0 <= j < p.1.len() implies match selector_matches(
            content,
            #[trigger] p.1[j],
            p.2,
        ) {
            Some(ms) => ms.len() == 0,
            None => true,
        } by {
            assert(p.1[j] == patterns[n - 1].1[j]);
        }
        lemma_pattern_without_matches(content, p, p.1.len() as int);
    }
}

/// A page on which no pattern matches anything gets an empty result: no
/// pattern is listed, so none is counted.
pub proof fn lemma_no_matches_no_findings(a: ContentAnalyzer, page: Page, r: AnalysisResult)
    requires
        nothing_matches(a@, page.content@),
        r@ == (page.url@, analysis_of(a@, page.content@, a@.len() as int)),
    ensures
        r@.1.len() == 0,
        r.findings@.len() == 0,
{
    lemma_analysis_without_matches(a@, page.content@, a@.len() as int);
}

/// The lines, each followed by a newline.
pub open spec fn unlines(ls: Seq<Seq<char>>) -> Seq<char>
    decreases ls.len(),
{
    if ls.len() == 0 {
        seq![]
    } else {
        ls[0] + seq!['\n'] + unlines(ls.drop_first())
    }
}

/// Splits text into its newline-terminated lines, `cur` being the part of
/// the current line read so far; text after the last newline is dropped.
pub open spec fn split_lines(s: Seq<char>, cur: Seq<char>) -> Seq<Seq<char>>
    decreases s.len(),
{
    if s.len() == 0 {
        seq![]
    } else if s[0] == '\n' {
        seq![cur] + split_lines(s.drop_first(), seq![])
    } else {
        split_lines(s.drop_first(), cur.push(s[0]))
    }
}

/// A section header line: `"=== "`, a name, then `" ==="`.
pub open spec fn is_header(l: Seq<char>) -> bool {
    &&& l.len() >= 8
    &&& l.take(4) == seq!['=', '=', '=', ' ']
    &&& l.skip(l.len() - 4) == seq![' ', '=', '=', '=']
}

/// The names that the header lines among the lines announce, in order.
pub open spec fn header_names(ls: Seq<Seq<char>>) -> Seq<Seq<char>>
    decreases ls.len(),
{
    if ls.len() == 0 {
        seq![]
    } else {
        (if is_header(ls[0]) {
            seq![ls[0].subrange(4, ls[0].len() - 4)]
        } else {
            seq![]
        }) + header_names(ls.drop_first())
    }
}

pub open spec fn no_newline(s: Seq<char>) -> bool {
    !s.contains('\n')
}

/// No URL, pattern name or finding of the result holds a newline.
pub open spec fn single_line_fields(r: (Seq<char>, FindingsParts)) -> bool {
    &&& no_newline(r.0)
    &&& forall|i: int| 0 <= i < r.1.len() ==> no_newline(#[trigger] r.1[i].0)
    &&& forall|i: int, j: int|
        0 <= i < r.1.len() && 0 <= j < r.1[i].1.len() ==> no_newline(#[trigger] r.1[i].1[j])
}

/// The report's lines, as `report_text` writes them.
pub open spec fn finding_line_seq(fs: Seq<Seq<char>>, n: int) -> Seq<Seq<char>>
    decreases n,
{
    if n <= 0 {
        seq![]
    } else {
        finding_line_seq(fs, n - 1).push("- "@ + fs[n - 1])
    }
}

pub open spec fn section_line_seq(e: (Seq<char>, Seq<Seq<char>>)) -> Seq<Seq<char>> {
    seq!["=== "@ + e.0 + " ==="@] + finding_line_seq(e.1, e.1.len() as int) + seq![seq![]]
}

pub open spec fn sections_line_seq(f: FindingsParts, n: int) -> Seq<Seq<char>>
    decreases n,
{
    if n <= 0 {
        seq![]
    } else {
        sections_line_seq(f, n - 1) + section_line_seq(f[n - 1])
    }
}

pub open spec fn report_lines(r: (Seq<char>, FindingsParts)) -> Seq<Seq<char>> {
    seq!["URL: "@ + r.0, seq![]] + sections_line_seq(r.1, r.1.len() as int)
}

proof fn lemma_unlines_append(a: Seq<Seq<char>>, b: Seq<Seq<char>>)
    ensures
        unlines(a + b) == unlines(a) + unlines(b),
    decreases a.len(),
{
    if a.len() == 0 {
        assert(a + b =~= b);
        assert(unlines(a) + unlines(b) =~= unlines(b));
    } else {
        lemma_unlines_append(a.drop_first(), b);
        assert((a + b).drop_first() =~= a.drop_first() + b);
        assert(unlines(a + b) =~= unlines(a) + unlines(b));
    }
}

proof fn lemma_unlines_one(l: Seq<char>)
    ensures
        unlines(seq![l]) == l + seq!['\n'],
{
    assert(seq![l].drop_first() =~= Seq::<Seq<char>>::empty());
    assert(unlines(Seq::<Seq<char>>::empty()) == Seq::<char>::empty());
    assert(unlines(seq![l]) == l + seq!['\n'] + unlines(Seq::<Seq<char>>::empty()));
    assert(l + seq!['\n'] + Seq::<char>::empty() =~= l + seq!['\n']);
}

proof fn lemma_finding_lines_text(fs: Seq<Seq<char>>, n: int)
    ensures
        finding_lines(fs, n) == unlines(finding_line_seq(fs, n)),
    decreases n,
{
    if n > 0 {
        lemma_finding_lines_text(fs, n - 1);
        lemma_unlines_append(finding_line_seq(fs, n - 1), seq!["- "@ + fs[n - 1]]);
        lemma_unlines_one("- "@ + fs[n - 1]);
        reveal_strlit("\n");
        assert(finding_line_seq(fs, n) =~= finding_line_seq(fs, n - 1) + seq!["- "@ + fs[n - 1]]);
        assert(finding_lines(fs, n) =~= unlines(finding_line_seq(fs, n)));
    } else {
        assert(finding_line_seq(fs, n) =~= Seq::<Seq<char>>::empty());
    }
}

proof fn lemma_sections_text(f: FindingsParts, n: int)
    ensures
        sections(f, n) == unlines(sections_line_seq(f, n)),
    decreases n,
{
    if n > 0 {
        lemma_sections_text(f, n - 1);
        let e = f[n - 1];
        let fl = finding_line_seq(e.1, e.1.len() as int);
        lemma_finding_lines_text(e.1, e.1.len() as int);
        lemma_unlines_append(sections_line_seq(f, n - 1), section_line_seq(e));
        lemma_unlines_append(seq!["=== "@ + e.0 + " ==="@] + fl, seq![seq![]]);
        lemma_unlines_append(seq!["=== "@ + e.0 + " ==="@], fl);
        lemma_unlines_one("=== "@ + e.0 + " ==="@);
        lemma_unlines_one(seq![]);
        reveal_strlit("\n");
        reveal_strlit(" ===\n");
        reveal_strlit(" ===");
        assert(section(e) =~= unlines(section_line_seq(e)));
    } else {
        assert(sections_line_seq(f, n) =~= Seq::<Seq<char>>::empty());
    }
}

proof fn lemma_report_text_lines(r: (Seq<char>, FindingsParts))
    ensures
        report_text(r) == unlines(report_lines(r)),
{
    let body = sections_line_seq(r.1, r.1.len() as int);
    lemma_sections_text(r.1, r.1.len() as int);
    lemma_unlines_append(seq!["URL: "@ + r.0, seq![]], body);
    assert(seq!["URL: "@ + r.0, seq![]] =~= seq!["URL: "@ + r.0] + seq![seq![]]);
    lemma_unlines_append(seq!["URL: "@ + r.0], seq![seq![]]);
    lemma_unlines_one("URL: "@ + r.0);
    lemma_unlines_one(seq![]);
    reveal_strlit("\n\n");
    assert(report_text(r) =~= unlines(report_lines(r)));
}

proof fn lemma_split_line(l: Seq<char>, rest: Seq<char>, cur: Seq<char>)
    requires
        no_newline(l),
    ensures
        split_lines(l + seq!['\n'] + rest, cur) == seq![cur + l] + split_lines(rest, seq![]),
    decreases l.len(),
{
    let s = l + seq!['\n'] + rest;
    if l.len() == 0 {
        assert(s[0] == '\n');
        assert(s.drop_first() =~= rest);
        assert(cur + l =~= cur);
    } else {
        assert(s[0] == l[0]);
        assert(l[0] != '\n') by {
            assert(l.contains(l[0]) ==> l[0] != '\n');
        }
        assert(s.drop_first() =~= l.drop_first() + seq!['\n'] + rest);
        assert(no_newline(l.drop_first())) by {
            if l.drop_first().contains('\n') {
                let k = choose|k: int| 0 <= k < l.drop_first().len() && l.drop_first()[k] == '\n';
                assert(l[k + 1] == '\n');
            }
        }
        lemma_split_line(l.drop_first(), rest, cur.push(l[0]));
        assert(cur.push(l[0]) + l.drop_first() =~= cur + l);
    }
}

proof fn lemma_split_unlines(ls: Seq<Seq<char>>)
    requires
        forall|i: int| 0 <= i < ls.len() ==> no_newline(#[trigger] ls[i]),
    ensures
        split_lines(unlines(ls), seq![]) == ls,
    decreases ls.len(),
{
    if ls.len() > 0 {
        lemma_split_unlines(ls.drop_first());
        lemma_split_line(ls[0], unlines(ls.drop_first()), seq![]);
        assert(seq![] + ls[0] =~= ls[0]);
        assert(ls =~= seq![ls[0]] + ls.drop_first());
    }
}

proof fn lemma_header_names_append(a: Seq<Seq<char>>, b: Seq<Seq<char>>)
    ensures
        header_names(a + b) == header_names(a) + header_names(b),
    decreases a.len(),
{
    if a.len() == 0 {
        assert(a + b =~= b);
        assert(header_names(a) + header_names(b) =~= header_names(b));
    } else {
        lemma_header_names_append(a.drop_first(), b);
        assert((a + b).drop_first() =~= a.drop_first() + b);
        assert(header_names(a + b) =~= header_names(a) + header_names(b));
    }
}

proof fn lemma_one_line_headers(l: Seq<char>)
    ensures
        header_names(seq![l]) == if is_header(l) {
            seq![l.subrange(4, l.len() - 4)]
        } else {
            Seq::<Seq<char>>::empty()
        },
{
    assert(seq![l].drop_first() =~= Seq::<Seq<char>>::empty());
    assert(seq![l][0] == l);
    assert(header_names(Seq::<Seq<char>>::empty()) == Seq::<Seq<char>>::empty());
    if is_header(l) {
        assert(header_names(seq![l]) =~= seq![l.subrange(4, l.len() - 4)]);
    } else {
        assert(header_names(seq![l]) =~= Seq::<Seq<char>>::empty());
    }
}

proof fn lemma_finding_lines_no_headers(fs: Seq<Seq<char>>, n: int)
    requires
        n <= fs.len(),
    ensures
        header_names(finding_line_seq(fs, n)) == Seq::<Seq<char>>::empty(),
    decreases n,
{
    if n > 0 {
        lemma_finding_lines_no_headers(fs, n - 1);
        let l = "- "@ + fs[n - 1];
        reveal_strlit("- ");
        assert(l[0] == '-');
        assert(!is_header(l)) by {
            if l.len() >= 8 {
                assert(l.take(4)[0] == '-');
            }
        }
        lemma_header_names_append(finding_line_seq(fs, n - 1), seq![l]);
        lemma_one_line_headers(l);
        assert(finding_line_seq(fs, n) =~= finding_line_seq(fs, n - 1) + seq![l]);
        assert(header_names(finding_line_seq(fs, n)) =~= Seq::<Seq<char>>::empty());
    }
}

proof fn lemma_sections_headers(f: FindingsParts, n: int)
    requires
        0 <= n <= f.len(),
    ensures
        header_names(sections_line_seq(f, n)) == f.take(n).map_values(
            |e: (Seq<char>, Seq<Seq<char>>)| e.0,
        ),
    decreases n,
{
    if n > 0 {
        lemma_sections_headers(f, n - 1);
        let e = f[n - 1];
        let h = "=== "@ + e.0 + " ==="@;
        let fl = finding_line_seq(e.1, e.1.len() as int);
        reveal_strlit("=== ");
        reveal_strlit(" ===");
        assert(h.take(4) =~= seq!['=', '=', '=', ' ']);
        assert(h.skip(h.len() - 4) =~= seq![' ', '=', '=', '=']);
        assert(h.subrange(4, h.len() - 4) =~= e.0);
        lemma_one_line_headers(h);
        lemma_one_line_headers(seq![]);
        lemma_finding_lines_no_headers(e.1, e.1.len() as int);
        lemma_header_names_append(seq![h] + fl, seq![seq![]]);
        lemma_header_names_append(seq![h], fl);
        lemma_header_names_append(sections_line_seq(f, n - 1), section_line_seq(e));
        assert(header_names(section_line_seq(e)) =~= seq![e.0]);
        assert(f.take(n).map_values(|e: (Seq<char>, Seq<Seq<char>>)| e.0) =~= f.take(n - 1).map_values(
            |e: (Seq<char>, Seq<Seq<char>>)| e.0,
        ).push(e.0));
        assert(header_names(sections_line_seq(f, n)) =~= f.take(n).map_values(
            |e: (Seq<char>, Seq<Seq<char>>)| e.0,
        ));
    } else {
        assert(f.take(n).map_values(|e: (Seq<char>, Seq<Seq<char>>)| e.0) =~= Seq::<
            Seq<char>,
        >::empty());
    }
}

proof fn lemma_no_newline_concat(a: Seq<char>, b: Seq<char>)
    requires
        no_newline(a),
        no_newline(b),
    ensures
        no_newline(a + b),
{
    if (a + b).contains('\n') {
        let k = choose|k: int| 0 <= k < (a + b).len() && (a + b)[k] == '\n';
        if k < a.len() {
            assert(a[k] == '\n');
        } else {
            assert(b[k - a.len()] == '\n');
        }
    }
}

proof fn lemma_literals_single_line()
    ensures
        no_newline("URL: "@),
        no_newline("=== "@),
        no_newline(" ==="@),
        no_newline("- "@),
        no_newline(Seq::<char>::empty()),
{
    reveal_strlit("URL: ");
    reveal_strlit("=== ");
    reveal_strlit(" ===");
    reveal_strlit("- ");
}

proof fn lemma_finding_lines_single(fs: Seq<Seq<char>>, n: int)
    requires
        n <= fs.len(),
        forall|j: int| 0 <= j < fs.len() ==> no_newline(#[trigger] fs[j]),
    ensures
        forall|i: int|
            0 <= i < finding_line_seq(fs, n).len() ==> no_newline(#[trigger] finding_line_seq(fs, n)[i]),
    decreases n,
{
    if n > 0 {
        lemma_finding_lines_single(fs, n - 1);
        lemma_literals_single_line();
        lemma_no_newline_concat("- "@, fs[n - 1]);
        let prev = finding_line_seq(fs, n - 1);
        assert forall|i: int| 0 <= i < finding_line_seq(fs, n).len() implies no_newline(
            #[trigger] finding_line_seq(fs, n)[i],
        ) by {
            if i < prev.len() {
                assert(finding_line_seq(fs, n)[i] == prev[i]);
            }
        }
    }
}

proof fn lemma_sections_single(f: FindingsParts, n: int)
    requires
        n <= f.len(),
        forall|i: int| 0 <= i < f.len() ==> no_newline(#[trigger] f[i].0),
        forall|i: int, j: int| 0 <= i < f.len() && 0 <= j < f[i].1.len() ==> no_newline(#[trigger] f[i].1[j]),
    ensures
        forall|i: int|
            0 <= i < sections_line_seq(f, n).len() ==> no_newline(#[trigger] sections_line_seq(f, n)[i]),
    decreases n,
{
    if n > 0 {
        lemma_sections_single(f, n - 1);
        let e = f[n - 1];
        assert forall|j: int| 0 <= j < e.1.len() implies no_newline(#[trigger] e.1[j]) by {
            assert(no_newline(f[n - 1].1[j]));
        }
        lemma_finding_lines_single(e.1, e.1.len() as int);
        lemma_literals_single_line();
        lemma_no_newline_concat("=== "@, e.0);
        lemma_no_newline_concat("=== "@ + e.0, " ==="@);
        let fl = finding_line_seq(e.1, e.1.len() as int);
        let sec = section_line_seq(e);
        assert forall|i: int| 0 <= i < sec.len() implies no_newline(#[trigger] sec[i]) by {
            if i == 0 {
            } else if i <= fl.len() {
                assert(sec[i] == fl[i - 1]);
            } else {
                assert(sec[i] == Seq::<char>::empty());
            }
        }
        let prev = sections_line_seq(f, n - 1);
        assert forall|i: int| 0 <= i < sections_line_seq(f, n).len() implies no_newline(
            #[trigger] sections_line_seq(f, n)[i],
        ) by {
            if i < prev.len() {
                assert(sections_line_seq(f, n)[i] == prev[i]);
            } else {
                assert(sections_line_seq(f, n)[i] == sec[i - prev.len()]);
            }
        }
    }
}

/// The report round-trips its section headers: splitting the report into
/// lines and reading the `=== <name> ===` headers gives exactly the names of
/// the patterns in the result, in order, no more and no less. This needs the
/// URL, the names and the findings to be single lines: a finding that holds a
/// newline could forge a header line.
pub proof fn lemma_report_headers_round_trip(r: (Seq<char>, FindingsParts))
    requires
        single_line_fields(r),
    ensures
        header_names(split_lines(report_text(r), seq![])) == r.1.map_values(
            |e: (Seq<char>, Seq<Seq<char>>)| e.0,
        ),
{
    let f = r.1;
    let n = f.len() as int;
    lemma_report_text_lines(r);
    lemma_sections_single(f, n);
    lemma_literals_single_line();
    lemma_no_newline_concat("URL: "@, r.0);
    let ls = report_lines(r);
    let body = sections_line_seq(f, n);
    assert forall|i: int| 0 <= i < ls.len() implies no_newline(#[trigger] ls[i]) by {
        if i >= 2 {
            assert(ls[i] == body[i - 2]);
        }
    }
    lemma_split_unlines(ls);
    let url_line = "URL: "@ + r.0;
    reveal_strlit("URL: ");
    assert(!is_header(url_line)) by {
        if url_line.len() >= 8 {
            assert(url_line.take(4)[0] == 'U');
        }
    }
    lemma_one_line_headers(url_line);
    lemma_one_line_headers(seq![]);
    assert(seq![url_line, seq![]] =~= seq![url_line] + seq![seq![]]);
    lemma_header_names_append(seq![url_line], seq![seq![]]);
    lemma_header_names_append(seq![url_line, seq![]], body);
    lemma_sections_headers(f, n);
    assert(f.take(n) =~= f);
    assert(header_names(ls) =~= f.map_values(|e: (Seq<char>, Seq<Seq<char>>)| e.0));
}

} // verus!
