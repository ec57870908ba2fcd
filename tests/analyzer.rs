use site_crawler::analyzer::{format_finding, findings_from_matches, select_findings, AnalysisResult, ContentAnalyzer};
use site_crawler::html::MatchedElement;
use site_crawler::page::Page;

fn page(content: &str) -> Page {
    Page::new("https://a.example/".to_string(), content.to_string(), Vec::new())
}

fn names(v: &[&str]) -> Vec<String> {
    v.iter().map(|s| s.to_string()).collect()
}

#[test]
fn mailto_link_is_contact_info() {
    let analyzer = ContentAnalyzer::new();
    let result = analyzer.analyze(&page(
        "<html><body><a href=\"mailto:x@y.com\">Contact</a></body></html>",
    ));
    assert_eq!(result.patterns_found(), 1);
    assert_eq!(result.findings[0].0, "contact_info");
    assert_eq!(result.findings[0].1, vec!["href: mailto:x@y.com, text: Contact".to_string()]);
}

#[test]
fn page_without_matches_has_empty_result() {
    let analyzer = ContentAnalyzer::new();
    let result = analyzer.analyze(&page("<html><body><p>nothing here</p><a href=\"/about\">About</a></body></html>"));
    assert_eq!(result.patterns_found(), 0);
    assert!(result.findings.is_empty());
    assert_eq!(result.to_string(), "URL: https://a.example/\n\n");
}

#[test]
fn analyzing_twice_gives_the_same_report() {
    let analyzer = ContentAnalyzer::new();
    let p = page(
        "<form action=\"/login\" method=\"post\"><input type=\"password\" id=\"pw\"></form>\
         <a href=\"tel:123\">Call</a><a href=\"https://twitter.com/x\">T</a>",
    );
    let a = analyzer.analyze(&p);
    let b = analyzer.analyze(&p);
    assert_eq!(a.to_string(), b.to_string());
    assert_eq!(a.findings, b.findings);
    assert_eq!(a.patterns_found(), 3);
}

#[test]
fn login_form_findings_in_selector_order() {
    let analyzer = ContentAnalyzer::new();
    let result = analyzer.analyze(&page(
        "<form action=\"/login\" method=\"post\" class=\"f\"><input type=\"password\" id=\"pw\"></form>",
    ));
    assert_eq!(result.findings.len(), 1);
    assert_eq!(result.findings[0].0, "login_forms");
    assert_eq!(
        result.findings[0].1,
        vec!["action: /login, method: post, class: f".to_string(), "id: pw".to_string()]
    );
}

#[test]
fn social_links_across_selectors() {
    let analyzer = ContentAnalyzer::new();
    let result = analyzer.analyze(&page(
        "<a href=\"https://linkedin.com/in/x\"></a><a href=\"https://facebook.com/y\">  FB  </a>",
    ));
    assert_eq!(result.findings.len(), 1);
    assert_eq!(result.findings[0].0, "social_media");
    assert_eq!(
        result.findings[0].1,
        vec![
            "href: https://facebook.com/y, text: FB".to_string(),
            "href: https://linkedin.com/in/x".to_string()
        ]
    );
}

#[test]
fn element_matched_twice_is_reported_twice() {
    let analyzer = ContentAnalyzer::new();
    let result = analyzer.analyze(&page(
        "<form action=\"/login/signin\"></form>",
    ));
    assert_eq!(
        result.findings[0].1,
        vec!["action: /login/signin".to_string(), "action: /login/signin".to_string()]
    );
}

#[test]
fn report_sections_follow_pattern_order() {
    let result = AnalysisResult {
        url: "https://a.example/x".to_string(),
        findings: vec![
            ("login_forms".to_string(), vec!["id: pw".to_string()]),
            ("contact_info".to_string(), vec!["href: tel:1".to_string(), "href: tel:2".to_string()]),
        ],
    };
    assert_eq!(
        result.to_string(),
        "URL: https://a.example/x\n\n=== login_forms ===\n- id: pw\n\n=== contact_info ===\n- href: tel:1\n- href: tel:2\n\n"
    );
    assert_eq!(result.patterns_found(), 2);
}

#[test]
fn report_headers_name_exactly_the_patterns_found() {
    let analyzer = ContentAnalyzer::new();
    let result = analyzer.analyze(&page(
        "<a href=\"mailto:a@b.c\">Mail</a><a href=\"https://instagram.com/z\">I</a>",
    ));
    let report = result.to_string();
    let headers: Vec<String> = report
        .lines()
        .filter(|l| l.starts_with("=== ") && l.ends_with(" ==="))
        .map(|l| l[4..l.len() - 4].to_string())
        .collect();
    let names: Vec<String> = result.findings.iter().map(|(n, _)| n.clone()).collect();
    assert_eq!(headers, names);
    assert_eq!(headers, vec!["contact_info".to_string(), "social_media".to_string()]);
}

#[test]
fn finding_lists_present_attributes_then_trimmed_text() {
    let attrs = names(&["action", "method", "id"]);
    let e = MatchedElement {
        attrs: vec![Some("/login".to_string()), None, Some("f1".to_string())],
        text: Some("  Sign in \n".to_string()),
    };
    assert_eq!(format_finding(&attrs, &e), Some("action: /login, id: f1, text: Sign in".to_string()));
}

#[test]
fn finding_of_bare_element_is_none() {
    let attrs = names(&["href"]);
    let e = MatchedElement { attrs: vec![None], text: Some("   ".to_string()) };
    assert_eq!(format_finding(&attrs, &e), None);
    let e2 = MatchedElement { attrs: vec![None], text: Some(" hi ".to_string()) };
    assert_eq!(format_finding(&attrs, &e2), Some("text: hi".to_string()));
}

#[test]
fn findings_skip_elements_without_parts() {
    let attrs = names(&["href"]);
    let ms = vec![
        MatchedElement { attrs: vec![Some("tel:1".to_string())], text: None },
        MatchedElement { attrs: vec![None], text: None },
        MatchedElement { attrs: vec![Some("tel:2".to_string())], text: Some("x".to_string()) },
    ];
    assert_eq!(
        findings_from_matches(&attrs, &ms),
        vec!["href: tel:1".to_string(), "href: tel:2, text: x".to_string()]
    );
}

#[test]
fn selector_that_does_not_compile_is_skipped() {
    let attrs = names(&["href"]);
    assert_eq!(select_findings("<a href=\"tel:1\">x</a>", "a[href^=", &attrs), None);
    assert_eq!(
        select_findings("<a href=\"tel:1\">x</a>", "a[href^='tel:']", &attrs),
        Some(vec!["href: tel:1, text: x".to_string()])
    );
}
