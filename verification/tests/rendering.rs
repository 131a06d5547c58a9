use dbba::diff::{render, split_lines, Span, SpanTag};
use dbba::html_output::HtmlOutputAdapter;
use dbba::output::OutputAdapter;

fn before_projection(spans: &[Span]) -> String {
    let mut s = String::new();
    for sp in spans {
        if sp.tag != SpanTag::Insert {
            s.push_str(&sp.text);
        }
    }
    s
}

fn after_projection(spans: &[Span]) -> String {
    let mut s = String::new();
    for sp in spans {
        if sp.tag != SpanTag::Delete {
            s.push_str(&sp.text);
        }
    }
    s
}

#[test]
fn test_split_lines_keeps_terminators() {
    let lines = split_lines("first\nsecond\rthird\r\nfourth\nlast");
    assert_eq!(lines, vec!["first\n", "second\r", "third\r\n", "fourth\n", "last"]);
    assert!(split_lines("").is_empty());
}

#[test]
fn test_render_round_trip() {
    let before = "a\nb\nc\n";
    let after = "a\nx\nc\nd\n";
    let (l, r) = render(before, after);
    assert_eq!(l.len(), r.len());
    assert_eq!(before_projection(&l), before);
    assert_eq!(after_projection(&r), after);
    for k in 0..l.len() {
        assert_eq!(l[k].tag, r[k].tag);
        match l[k].tag {
            SpanTag::Equal => assert_eq!(l[k].text, r[k].text),
            SpanTag::Delete => assert_eq!(r[k].text, ""),
            SpanTag::Insert => assert_eq!(l[k].text, ""),
        }
    }
}

#[test]
fn test_render_round_trip_no_trailing_newline() {
    let before = "one\ntwo";
    let after = "one\ntoo";
    let (l, r) = render(before, after);
    assert_eq!(before_projection(&l), before);
    assert_eq!(after_projection(&r), after);
}

#[test]
fn test_render_identical_is_all_equal() {
    let text = "a\nb\nc\n";
    let (l, r) = render(text, text);
    assert_eq!(l.len(), 3);
    assert_eq!(r.len(), 3);
    for sp in l.iter().chain(r.iter()) {
        assert_eq!(sp.tag, SpanTag::Equal);
    }
    assert_eq!(before_projection(&l), text);
}

#[test]
fn test_render_one_changed_line() {
    // one line replaced: exactly one deleted line holding the old
    // name, one inserted line holding the new one, the rest equal
    let before = "{\n  \"id\": 1,\n  \"name\": \"John\"\n}";
    let after = "{\n  \"id\": 1,\n  \"name\": \"Jane\"\n}";
    let (l, r) = render(before, after);
    let deletes: Vec<&Span> = l.iter().filter(|sp| sp.tag == SpanTag::Delete).collect();
    let inserts: Vec<&Span> = r.iter().filter(|sp| sp.tag == SpanTag::Insert).collect();
    assert_eq!(deletes.len(), 1);
    assert_eq!(inserts.len(), 1);
    assert!(deletes[0].text.contains("John"));
    assert!(inserts[0].text.contains("Jane"));
    let equals = l.iter().filter(|sp| sp.tag == SpanTag::Equal).count();
    assert_eq!(equals, l.len() - 2);
    assert_eq!(before_projection(&l), before);
    assert_eq!(after_projection(&r), after);
}

#[test]
fn test_html_escape() {
    assert_eq!(
        HtmlOutputAdapter::html_escape("<a href=\"x\">&'y'</a>"),
        "&lt;a href=&quot;x&quot;&gt;&amp;&#39;y&#39;&lt;/a&gt;"
    );
    assert_eq!(HtmlOutputAdapter::html_escape("plain"), "plain");
}

#[test]
fn test_generate_diff_markup() {
    let out = HtmlOutputAdapter::new();
    let (l, r) = out.generate_diff("a\n", "b\n");
    assert_eq!(
        l,
        "<div class=\"diff\"><ul><li class=\"del\"><del>a\n</del></li><li class=\"ins\"><ins></ins></li></ul></div>"
    );
    assert_eq!(
        r,
        "<div class=\"diff\"><ul><li class=\"del\"><del></del></li><li class=\"ins\"><ins>b\n</ins></li></ul></div>"
    );
}

#[test]
fn test_generate_diff_escapes_content() {
    let out = HtmlOutputAdapter::new();
    let (l, _r) = out.generate_diff("<b>\n", "<b>\n");
    assert!(l.contains("&lt;b&gt;"));
    assert!(!l.contains("<b>\n"));
}

#[test]
fn test_adapter_document_shell() {
    let mut out = HtmlOutputAdapter::new();
    out.start_output().unwrap();
    out.write_title("users & roles").unwrap();
    out.close_section().unwrap();
    out.end_output().unwrap();
    let html = out.into_html();
    assert!(html.starts_with("<!DOCTYPE html>"));
    assert!(html.contains("Generated at "));
    assert!(html.contains("users &amp; roles"));
    assert!(html.ends_with("</html>\n"));
}

#[test]
fn test_adapter_no_diff_message() {
    let mut out = HtmlOutputAdapter::new();
    out.write_no_diff_message().unwrap();
    let html = out.into_html();
    assert!(html.contains("No Changes Detected"));
}
