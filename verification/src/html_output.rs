//! HTML report sink: accumulates the report document in a buffer that
//! the caller writes out; owns all markup and styling.

use vstd::prelude::*;

use crate::diff::{render, render_left, render_right, Span, SpanModel, SpanTag};
use crate::error::DbbaError;
use crate::output::{OutputAdapter, OutputEvent};
use crate::strings::push_char;
use crate::value::{datetime_chars, format_datetime, DateTimeParts};
use chrono::{Datelike, Timelike};

verus! {

/// How one character is written inside HTML text.
pub open spec fn html_escape_char(c: char) -> Seq<char> {
    if c == '&' {
        "&amp;"@
    } else if c == '<' {
        "&lt;"@
    } else if c == '>' {
        "&gt;"@
    } else if c == '"' {
        "&quot;"@
    } else if c == '\'' {
        "&#39;"@
    } else {
        seq![c]
    }
}

/// A whole text, escaped for safe embedding in HTML.
pub open spec fn html_escaped(s: Seq<char>) -> Seq<char>
    decreases s.len(),
{
    if s.len() == 0 {
        Seq::empty()
    } else {
        html_escape_char(s[0]) + html_escaped(s.skip(1))
    }
}

proof fn lemma_html_escaped_take(s: Seq<char>, i: int)
    requires
        0 <= i < s.len(),
    ensures
        html_escaped(s.take(i + 1)) == html_escaped(s.take(i)) + html_escape_char(s[i]),
    decreases i,
{
    if i == 0 {
        assert(s.take(1) =~= seq![s[0]]);
        assert(s.take(0) =~= Seq::<char>::empty());
        assert(s.take(1).skip(1) =~= Seq::<char>::empty());
        assert(html_escaped(s.take(1)) =~= html_escaped(s.take(0)) + html_escape_char(s[0]));
    } else {
        lemma_html_escaped_take(s.skip(1), i - 1);
        assert(s.take(i + 1).skip(1) =~= s.skip(1).take(i));
        assert(s.take(i).skip(1) =~= s.skip(1).take(i - 1));
        assert(s.take(i + 1)[0] == s[0]);
        assert(s.take(i)[0] == s[0]);
        assert(s.skip(1)[i - 1] == s[i]);
        assert(html_escaped(s.take(i + 1)) =~= html_escaped(s.take(i)) + html_escape_char(s[i]));
    }
}

/// The HTML markup of one aligned span: a list item carrying the
/// escaped line, marked `del` or `ins` for removed or inserted lines.
pub open spec fn span_html(sp: SpanModel) -> Seq<char> {
    match sp.tag {
        SpanTag::Equal => "<li><span>"@ + html_escaped(sp.text) + "</span></li>"@,
        SpanTag::Delete => "<li class=\"del\"><del>"@ + html_escaped(sp.text) + "</del></li>"@,
        SpanTag::Insert => "<li class=\"ins\"><ins>"@ + html_escaped(sp.text) + "</ins></li>"@,
    }
}

/// The markup of a whole span sequence.
pub open spec fn spans_html(spans: Seq<SpanModel>) -> Seq<char>
    decreases spans.len(),
{
    if spans.len() == 0 {
        Seq::empty()
    } else {
        span_html(spans[0]) + spans_html(spans.skip(1))
    }
}

/// One side of a rendered diff: the span markup in a list container.
pub open spec fn diff_html(spans: Seq<SpanModel>) -> Seq<char> {
    "<div class=\"diff\"><ul>"@ + spans_html(spans) + "</ul></div>"@
}

proof fn lemma_spans_html_take(spans: Seq<SpanModel>, i: int)
    requires
        0 <= i < spans.len(),
    ensures
        spans_html(spans.take(i + 1)) == spans_html(spans.take(i)) + span_html(spans[i]),
    decreases i,
{
    if i == 0 {
        assert(spans.take(1) =~~= seq![spans[0]]);
        assert(spans.take(0) =~= Seq::<SpanModel>::empty());
        assert(spans.take(1).skip(1) =~= Seq::<SpanModel>::empty());
        assert(spans_html(spans.take(1)) =~= spans_html(spans.take(0)) + span_html(spans[0]));
    } else {
        lemma_spans_html_take(spans.skip(1), i - 1);
        assert(spans.take(i + 1).skip(1) =~~= spans.skip(1).take(i));
        assert(spans.take(i).skip(1) =~~= spans.skip(1).take(i - 1));
        assert(spans.take(i + 1)[0] == spans[0]);
        assert(spans.take(i)[0] == spans[0]);
        assert(spans.skip(1)[i - 1] == spans[i]);
        assert(spans_html(spans.take(i + 1)) =~= spans_html(spans.take(i)) + span_html(spans[i]));
    }
}

/// Relies on chrono::Local::now and chrono's Datelike / Timelike
/// accessors: month is 1 to 12, day 1 to 31, hour below 24, minute
/// and second below 60.
#[verifier::external_body]
fn local_now_parts() -> (r: DateTimeParts)
    ensures
        r.wf(),
{
    let now = chrono::Local::now();
    DateTimeParts {
        year: now.year(),
        month: now.month() as u8,
        day: now.day() as u8,
        hour: now.hour() as u8,
        minute: now.minute() as u8,
        second: now.second() as u8,
    }
}

pub const MODERN_CSS: &'static str = "
        * {
          margin: 0;
          padding: 0;
          box-sizing: border-box;
        }

        body {
          font-family: -apple-system, BlinkMacSystemFont, 'Segoe UI', Roboto, Oxygen, Ubuntu, Cantarell, sans-serif;
          line-height: 1.6;
          color: #333;
          background-color: #f8f9fa;
        }

        .container {
          max-width: 1200px;
          margin: 0 auto;
          padding: 20px;
        }

        .header {
          background: linear-gradient(135deg, #667eea 0%, #764ba2 100%);
          color: white;
          padding: 2rem;
          border-radius: 12px;
          margin-bottom: 2rem;
          box-shadow: 0 4px 6px rgba(0, 0, 0, 0.1);
        }

        .header h1 {
          font-size: 2.5rem;
          font-weight: 700;
          margin-bottom: 0.5rem;
        }

        .subtitle {
          font-size: 1.1rem;
          opacity: 0.9;
        }

        .main-content {
          min-height: 400px;
        }

        .table-section {
          background: white;
          border-radius: 12px;
          padding: 2rem;
          margin-bottom: 2rem;
          box-shadow: 0 2px 4px rgba(0, 0, 0, 0.1);
          border: 1px solid #e9ecef;
        }

        .table-title {
          font-size: 1.8rem;
          font-weight: 600;
          color: #2c3e50;
          margin-bottom: 1.5rem;
          padding-bottom: 0.5rem;
          border-bottom: 3px solid #3498db;
        }

        .diff-container {
          margin-top: 1rem;
        }

        .diff-part {
          display: flex;
          gap: 2rem;
          margin-bottom: 2rem;
          border: 1px solid #dee2e6;
          border-radius: 8px;
          overflow: hidden;
        }

        .diff-side {
          flex: 1;
          min-width: 0;
        }

        .diff-header {
          font-size: 1.2rem;
          font-weight: 600;
          padding: 1rem;
          margin: 0;
          text-align: center;
          color: white;
        }

        .diff-left .diff-header {
          background-color: #e74c3c;
        }

        .diff-right .diff-header {
          background-color: #27ae60;
        }

        .diff-content {
          padding: 1rem;
          background-color: #f8f9fa;
          min-height: 200px;
          overflow-x: auto;
        }

        .no-diff-message {
          text-align: center;
          padding: 4rem 2rem;
          background: white;
          border-radius: 12px;
          box-shadow: 0 2px 4px rgba(0, 0, 0, 0.1);
        }

        .no-diff-message h2 {
          color: #27ae60;
          margin-bottom: 1rem;
          font-size: 2rem;
        }

        .no-diff-message p {
          font-size: 1.2rem;
          color: #6c757d;
        }

        .footer {
          text-align: center;
          padding: 2rem;
          color: #6c757d;
          margin-top: 2rem;
        }

        @media (max-width: 768px) {
          .container {
            padding: 10px;
          }

          .header h1 {
            font-size: 2rem;
          }

          .diff-part {
            flex-direction: column;
            gap: 0;
          }

          .diff-side {
            border-bottom: 1px solid #dee2e6;
          }

          .diff-side:last-child {
            border-bottom: none;
          }
        }

        @media (prefers-color-scheme: dark) {
          body {
            background-color: #1a1a1a;
            color: #e0e0e0;
          }

          .table-section {
            background: #2d2d2d;
            border-color: #444;
          }

          .table-title {
            color: #f0f0f0;
          }

          .diff-content {
            background-color: #383838;
            color: #e0e0e0;
          }

          .no-diff-message {
            background: #2d2d2d;
          }

          .diff ul {
            background: #2d2d2d !important;
            color: #e0e0e0;
          }

          .diff li.ins {
            background: #2d5a2d !important;
            color: #90ee90 !important;
          }

          .diff li.del {
            background: #5a2d2d !important;
            color: #ffb3b3 !important;
          }

          .diff li:hover {
            background: #4a4a00 !important;
          }
        }
        ";

pub const DIFFY_CSS: &'static str = "
        .diff {
          overflow: auto;
          border-radius: 6px;
        }

        .diff ul {
          background: #fff;
          overflow: auto;
          font-size: 13px;
          list-style: none;
          margin: 0;
          padding: 0;
          display: table;
          width: 100%;
          font-family: 'Monaco', 'Menlo', 'Ubuntu Mono', monospace;
        }

        .diff del, .diff ins {
          display: block;
          text-decoration: none;
        }

        .diff li {
          padding: 0;
          display: table-row;
          margin: 0;
          height: 1em;
        }

        .diff li.ins {
          background: #dfd;
          color: #080;
        }

        .diff li.del {
          background: #fee;
          color: #b00;
        }

        .diff li:hover {
          background: #ffc;
        }

        .diff del, .diff ins, .diff span {
          white-space: pre-wrap;
          font-family: 'Monaco', 'Menlo', 'Ubuntu Mono', monospace;
        }

        .diff del strong {
          font-weight: normal;
          background: #fcc;
        }

        .diff ins strong {
          font-weight: normal;
          background: #9f9;
        }

        .diff li.diff-comment {
          display: none;
        }

        .diff li.diff-block-info {
          background: none repeat scroll 0 0 gray;
        }
        ";

pub const HEADER_PRE: &'static str = "<!DOCTYPE html>\n<html lang=\"en\">\n<head>\n  <meta charset=\"UTF-8\">\n  <meta name=\"viewport\" content=\"width=device-width, initial-scale=1.0\">\n  <title>Database Diff Report</title>\n  <style>\n";

pub const HEADER_MID: &'static str = "\n  </style>\n</head>\n<body>\n  <div class=\"container\">\n    <header class=\"header\">\n      <h1>Database Diff Report</h1>\n      <p class=\"subtitle\">Generated at ";

pub const HEADER_POST: &'static str = "</p>\n    </header>\n    <main class=\"main-content\">\n";

pub const FOOTER: &'static str = "    </main>\n    <footer class=\"footer\">\n      <p>Generated by dbba</p>\n    </footer>\n  </div>\n</body>\n</html>\n";

pub const TITLE_PRE: &'static str = "<section class=\"table-section\">\n  <h2 class=\"table-title\">";

pub const TITLE_POST: &'static str = "</h2>\n  <div class=\"diff-container\">\n";

pub const SECTION_PRE: &'static str = "<div class=\"diff-part\">\n  <div class=\"diff-side diff-left\">\n    <h3 class=\"diff-header\">Before</h3>\n    <div class=\"diff-content\">";

pub const SECTION_MID: &'static str = "</div>\n  </div>\n  <div class=\"diff-side diff-right\">\n    <h3 class=\"diff-header\">After</h3>\n    <div class=\"diff-content\">";

pub const SECTION_POST: &'static str = "</div>\n  </div>\n</div>\n";

pub const NO_DIFF: &'static str = "<div class=\"no-diff-message\">\n  <h2>No Changes Detected</h2>\n  <p>The database state remained unchanged during the operation.</p>\n</div>\n";

pub const CLOSE_SECTION: &'static str = "  </div>\n</section>\n";

/// The document head and report header, stamped with a generation
/// time.
pub open spec fn start_html(p: DateTimeParts) -> Seq<char> {
    HEADER_PRE@ + MODERN_CSS@ + "\n"@ + DIFFY_CSS@ + HEADER_MID@ + datetime_chars(p) + HEADER_POST@
}

/// A table section heading, with the table name escaped.
pub open spec fn title_html(title: Seq<char>) -> Seq<char> {
    TITLE_PRE@ + html_escaped(title) + TITLE_POST@
}

/// One before/after pair of rendered diff sides.
pub open spec fn diff_section_html(left: Seq<char>, right: Seq<char>) -> Seq<char> {
    SECTION_PRE@ + left + SECTION_MID@ + right + SECTION_POST@
}

/// HTML output adapter: generates the diff report document into an
/// in-memory buffer, logging each accepted call.
pub struct HtmlOutputAdapter {
    buffer: String,
    event_log: Ghost<Seq<OutputEvent>>,
}

impl View for HtmlOutputAdapter {
    type V = Seq<char>;

    closed spec fn view(&self) -> Seq<char> {
        self.buffer@
    }
}

impl HtmlOutputAdapter {
    /// A fresh adapter with an empty report.
    pub fn new() -> (r: Self)
        ensures
            r@ == Seq::<char>::empty(),
            r.events() == Seq::<OutputEvent>::empty(),
    {
        HtmlOutputAdapter { buffer: String::new(), event_log: Ghost(Seq::empty()) }
    }

    /// Hands the accumulated report document out.
    pub fn into_html(self) -> (r: String)
        ensures
            r@ == self@,
    {
        self.buffer
    }

    /// The general stylesheet of the report document.
    pub fn modern_css() -> (r: String)
        ensures
            r@ == MODERN_CSS@,
    {
        String::from_str(MODERN_CSS)
    }

    /// The stylesheet of the diff listings.
    pub fn diffy_css() -> (r: String)
        ensures
            r@ == DIFFY_CSS@,
    {
        String::from_str(DIFFY_CSS)
    }

    /// Escapes a text for safe embedding in HTML.
    pub fn html_escape(s: &str) -> (r: String)
        ensures
            r@ == html_escaped(s@),
    {
        let n = s.unicode_len();
        let mut out = String::new();
        let mut i: usize = 0;
        proof {
            assert(s@.take(0) =~= Seq::<char>::empty());
        }
        while i < n
            invariant
                i <= n,
                n == s@.len(),
                out@ == html_escaped(s@.take(i as int)),
            decreases n - i,
        {
            let c = s.get_char(i);
            if c == '&' {
                out.append("&amp;");
            } else if c == '<' {
                out.append("&lt;");
            } else if c == '>' {
                out.append("&gt;");
            } else if c == '"' {
                out.append("&quot;");
            } else if c == '\'' {
                out.append("&#39;");
            } else {
                push_char(&mut out, c);
            }
            proof {
                lemma_html_escaped_take(s@, i as int);
            }
            i = i + 1;
        }
        proof {
            assert(s@.take(n as int) =~= s@);
        }
        out
    }

    /// Builds the markup of one rendered diff side.
    fn spans_to_html(spans: &Vec<Span>) -> (r: String)
        ensures
            r@ == diff_html(spans@.map_values(|sp: Span| sp@)),
    {
        let ghost model: Seq<SpanModel> = spans@.map_values(|sp: Span| sp@);
        let mut out = String::from_str("<div class=\"diff\"><ul>");
        let n = spans.len();
        let mut i: usize = 0;
        proof {
            assert(model.take(0) =~= Seq::<SpanModel>::empty());
            assert(out@ =~= "<div class=\"diff\"><ul>"@ + spans_html(model.take(0)));
        }
        while i < n
            invariant
                i <= n,
                n == spans.len(),
                model == spans@.map_values(|sp: Span| sp@),
                out@ == "<div class=\"diff\"><ul>"@ + spans_html(model.take(i as int)),
            decreases n - i,
        {
            let escaped = Self::html_escape(spans[i].text.as_str());
            match spans[i].tag {
                SpanTag::Equal => {
                    out.append("<li><span>");
                    out.append(escaped.as_str());
                    out.append("</span></li>");
                },
                SpanTag::Delete => {
                    out.append("<li class=\"del\"><del>");
                    out.append(escaped.as_str());
                    out.append("</del></li>");
                },
                SpanTag::Insert => {
                    out.append("<li class=\"ins\"><ins>");
                    out.append(escaped.as_str());
                    out.append("</ins></li>");
                },
            }
            proof {
                lemma_spans_html_take(model, i as int);
                assert(model[i as int] == spans@[i as int]@);
                assert(out@ =~= "<div class=\"diff\"><ul>"@ + spans_html(model.take(i + 1)));
            }
            i = i + 1;
        }
        out.append("</ul></div>");
        proof {
            assert(model.take(n as int) =~= model);
            assert(out@ =~= diff_html(model));
        }
        out
    }
}

impl OutputAdapter for HtmlOutputAdapter {
    closed spec fn events(&self) -> Seq<OutputEvent> {
        self.event_log@
    }

    /// This sink writes to memory: no call of it fails.
    open spec fn obeys_infallible() -> bool {
        true
    }

    open spec fn rendered_diff(left: Seq<char>, right: Seq<char>) -> (Seq<char>, Seq<char>) {
        (diff_html(render_left(left, right)), diff_html(render_right(left, right)))
    }

    /// Writes the document head, stamped with the local time.
    fn start_output(&mut self) -> (r: Result<(), DbbaError>)
        ensures
            r is Ok,
            exists|p: DateTimeParts|
                p.wf() && final(self)@ == old(self)@ + #[trigger] start_html(p),
    {
        self.event_log = Ghost(self.event_log@.push(OutputEvent::Start));
        let parts = local_now_parts();
        let stamp = format_datetime(&parts);
        self.buffer.append(HEADER_PRE);
        self.buffer.append(MODERN_CSS);
        self.buffer.append("\n");
        self.buffer.append(DIFFY_CSS);
        self.buffer.append(HEADER_MID);
        self.buffer.append(stamp.as_str());
        self.buffer.append(HEADER_POST);
        proof {
            assert(final(self)@ =~= old(self)@ + start_html(parts));
        }
        Ok(())
    }

    /// Writes the document footer.
    fn end_output(&mut self) -> (r: Result<(), DbbaError>)
        ensures
            r is Ok,
            final(self)@ == old(self)@ + FOOTER@,
    {
        self.event_log = Ghost(self.event_log@.push(OutputEvent::End));
        self.buffer.append(FOOTER);
        Ok(())
    }

    /// Opens a table section with its escaped name.
    fn write_title(&mut self, title: &str) -> (r: Result<(), DbbaError>)
        ensures
            r is Ok,
            final(self)@ == old(self)@ + title_html(title@),
    {
        self.event_log = Ghost(self.event_log@.push(OutputEvent::Title(title@)));
        self.buffer.append(TITLE_PRE);
        let escaped = Self::html_escape(title);
        self.buffer.append(escaped.as_str());
        self.buffer.append(TITLE_POST);
        proof {
            assert(final(self)@ =~= old(self)@ + title_html(title@));
        }
        Ok(())
    }

    /// Writes one before/after diff pair, already rendered.
    fn write_diff_section(&mut self, left: &str, right: &str) -> (r: Result<(), DbbaError>)
        ensures
            r is Ok,
            final(self)@ == old(self)@ + diff_section_html(left@, right@),
    {
        self.event_log = Ghost(self.event_log@.push(OutputEvent::DiffSection(left@, right@)));
        self.buffer.append(SECTION_PRE);
        self.buffer.append(left);
        self.buffer.append(SECTION_MID);
        self.buffer.append(right);
        self.buffer.append(SECTION_POST);
        proof {
            assert(final(self)@ =~= old(self)@ + diff_section_html(left@, right@));
        }
        Ok(())
    }

    /// Writes the message shown when nothing changed.
    fn write_no_diff_message(&mut self) -> (r: Result<(), DbbaError>)
        ensures
            r is Ok,
            final(self)@ == old(self)@ + NO_DIFF@,
    {
        self.event_log = Ghost(self.event_log@.push(OutputEvent::NoDiff));
        self.buffer.append(NO_DIFF);
        Ok(())
    }

    /// Closes the open table section.
    fn close_section(&mut self) -> (r: Result<(), DbbaError>)
        ensures
            r is Ok,
            final(self)@ == old(self)@ + CLOSE_SECTION@,
    {
        self.event_log = Ghost(self.event_log@.push(OutputEvent::CloseSection));
        self.buffer.append(CLOSE_SECTION);
        Ok(())
    }

    /// Renders the line diff of two texts as the two sides' markup.
    fn generate_diff(&self, left: &str, right: &str) -> (r: (String, String))
        ensures
            r.0@ == diff_html(render_left(left@, right@)),
            r.1@ == diff_html(render_right(left@, right@)),
    {
        let (lspans, rspans) = render(left, right);
        let lh = Self::spans_to_html(&lspans);
        let rh = Self::spans_to_html(&rspans);
        (lh, rh)
    }
}

} // verus!
