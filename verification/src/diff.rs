//! Line-level diff rendering: aligning two texts into parallel span
//! sequences tagged Equal / Delete / Insert, with symmetric empty
//! placeholders so that a side-by-side rendering shows blank space
//! opposite inserted or deleted lines.

use vstd::prelude::*;

use crate::strings::{push_char, str_eq};
use similar::{ChangeTag, TextDiff};

verus! {

#[derive(PartialEq, Eq, Structural, Clone, Copy, Debug)]
pub enum SpanTag {
    Equal,
    Delete,
    Insert,
}

/// One aligned unit of diff output: a line (or an empty placeholder)
/// with its change tag.
pub struct Span {
    pub tag: SpanTag,
    pub text: String,
}

/// The mathematical model of a span.
#[verifier::ext_equal]
pub struct SpanModel {
    pub tag: SpanTag,
    pub text: Seq<char>,
}

impl View for Span {
    type V = SpanModel;

    open spec fn view(&self) -> SpanModel {
        SpanModel { tag: self.tag, text: self.text@ }
    }
}

/// The before-side content of one span: Insert spans contribute
/// nothing to the before text.
pub open spec fn before_part(sp: SpanModel) -> Seq<char> {
    if sp.tag == SpanTag::Insert {
        Seq::empty()
    } else {
        sp.text
    }
}

/// The after-side content of one span: Delete spans contribute
/// nothing to the after text.
pub open spec fn after_part(sp: SpanModel) -> Seq<char> {
    if sp.tag == SpanTag::Delete {
        Seq::empty()
    } else {
        sp.text
    }
}

/// Projection of a span sequence onto the before text: the Equal and
/// Delete contents, concatenated.
pub open spec fn before_project(spans: Seq<SpanModel>) -> Seq<char>
    decreases spans.len(),
{
    if spans.len() == 0 {
        Seq::empty()
    } else {
        before_part(spans[0]) + before_project(spans.skip(1))
    }
}

/// Projection of a span sequence onto the after text: the Equal and
/// Insert contents, concatenated.
pub open spec fn after_project(spans: Seq<SpanModel>) -> Seq<char>
    decreases spans.len(),
{
    if spans.len() == 0 {
        Seq::empty()
    } else {
        after_part(spans[0]) + after_project(spans.skip(1))
    }
}

/// The line-level alignment of two texts, as the outside diff engine
/// computes it: a function of the two texts alone.
pub uninterp spec fn diff_spans(before: Seq<char>, after: Seq<char>) -> Seq<SpanModel>;

/// Relies on similar::TextDiff::from_lines and iter_all_changes: the
/// changes carry the line tokens of both inputs, in order — the Equal
/// and Delete values are the old text's lines and concatenate back to
/// it exactly, the Equal and Insert values likewise for the new text —
/// and the computed diff depends on the two texts alone.
#[verifier::external_body]
fn line_diff(before: &str, after: &str) -> (r: Vec<Span>)
    ensures
        r@.map_values(|sp: Span| sp@) == diff_spans(before@, after@),
        before_project(r@.map_values(|sp: Span| sp@)) == before@,
        after_project(r@.map_values(|sp: Span| sp@)) == after@,
{
    let diff = TextDiff::from_lines(before, after);
    let mut spans = Vec::new();
    for change in diff.iter_all_changes() {
        let tag = match change.tag() {
            ChangeTag::Equal => SpanTag::Equal,
            ChangeTag::Delete => SpanTag::Delete,
            ChangeTag::Insert => SpanTag::Insert,
        };
        spans.push(Span { tag, text: change.value().to_string() });
    }
    spans
}

/// The lines of a text, each keeping its terminator; a line ends
/// after a line feed, after a carriage return / line feed pair, or
/// after a lone carriage return, and a non-empty tail without a
/// terminator is the last line.
pub open spec fn lines_acc(s: Seq<char>, cur: Seq<char>) -> Seq<Seq<char>>
    decreases s.len(),
{
    if s.len() == 0 {
        if cur.len() == 0 {
            Seq::empty()
        } else {
            seq![cur]
        }
    } else if s[0] == '\n' {
        seq![cur.push('\n')] + lines_acc(s.skip(1), Seq::empty())
    } else if s[0] == '\r' && s.len() >= 2 && s[1] == '\n' {
        seq![cur + seq!['\r', '\n']] + lines_acc(s.skip(2), Seq::empty())
    } else if s[0] == '\r' {
        seq![cur.push('\r')] + lines_acc(s.skip(1), Seq::empty())
    } else {
        lines_acc(s.skip(1), cur.push(s[0]))
    }
}

pub open spec fn lines_of(s: Seq<char>) -> Seq<Seq<char>> {
    lines_acc(s, Seq::empty())
}

/// All lines joined back together.
pub open spec fn concat_lines(ls: Seq<Seq<char>>) -> Seq<char>
    decreases ls.len(),
{
    if ls.len() == 0 {
        Seq::empty()
    } else {
        ls[0] + concat_lines(ls.skip(1))
    }
}

/// Splitting into lines loses nothing: the lines join back to the
/// text.
pub proof fn lemma_lines_concat(s: Seq<char>, cur: Seq<char>)
    ensures
        concat_lines(lines_acc(s, cur)) == cur + s,
    decreases s.len(),
{
    if s.len() == 0 {
        if cur.len() == 0 {
            assert(concat_lines(lines_acc(s, cur)) =~= cur + s);
        } else {
            assert(lines_acc(s, cur) == seq![cur]);
            assert(seq![cur].skip(1) =~= Seq::<Seq<char>>::empty());
            assert(seq![cur][0] == cur);
            assert(concat_lines(seq![cur]) == cur + concat_lines(seq![cur].skip(1)));
            assert(cur + Seq::<char>::empty() =~= cur + s);
        }
    } else if s[0] == '\n' {
        lemma_lines_concat(s.skip(1), Seq::empty());
        let tail = lines_acc(s.skip(1), Seq::empty());
        assert((seq![cur.push('\n')] + tail).skip(1) =~= tail);
        assert(concat_lines(seq![cur.push('\n')] + tail) == cur.push('\n') + concat_lines(tail));
        assert(cur.push('\n') + (Seq::<char>::empty() + s.skip(1)) =~= cur + s);
    } else if s[0] == '\r' && s.len() >= 2 && s[1] == '\n' {
        lemma_lines_concat(s.skip(2), Seq::empty());
        let tail = lines_acc(s.skip(2), Seq::empty());
        assert((seq![cur + seq!['\r', '\n']] + tail).skip(1) =~= tail);
        assert(concat_lines(seq![cur + seq!['\r', '\n']] + tail) == (cur + seq!['\r', '\n'])
            + concat_lines(tail));
        assert((cur + seq!['\r', '\n']) + (Seq::<char>::empty() + s.skip(2)) =~= cur + s);
    } else if s[0] == '\r' {
        lemma_lines_concat(s.skip(1), Seq::empty());
        let tail = lines_acc(s.skip(1), Seq::empty());
        assert((seq![cur.push('\r')] + tail).skip(1) =~= tail);
        assert(concat_lines(seq![cur.push('\r')] + tail) == cur.push('\r') + concat_lines(tail));
        assert(cur.push('\r') + (Seq::<char>::empty() + s.skip(1)) =~= cur + s);
    } else {
        lemma_lines_concat(s.skip(1), cur.push(s[0]));
        assert(cur.push(s[0]) + s.skip(1) =~= cur + s);
    }
}

/// Splits a text into its lines, terminators kept.
pub fn split_lines(t: &str) -> (r: Vec<String>)
    ensures
        r@.map_values(|l: String| l@) == lines_of(t@),
{
    let n = t.unicode_len();
    let mut out: Vec<String> = Vec::new();
    let mut cur = String::new();
    let mut i: usize = 0;
    proof {
        assert(t@.skip(0) =~= t@);
        assert(out@.map_values(|l: String| l@) =~= Seq::<Seq<char>>::empty());
    }
    while i < n
        invariant
            i <= n,
            n == t@.len(),
            lines_of(t@) == out@.map_values(|l: String| l@) + lines_acc(t@.skip(i as int), cur@),
        decreases n - i,
    {
        let ghost pre_out = out@.map_values(|l: String| l@);
        let ghost rest = t@.skip(i as int);
        proof {
            assert(rest[0] == t@[i as int]);
            assert(rest.skip(1) =~= t@.skip(i as int + 1));
        }
        let c = t.get_char(i);
        if c == '\n' {
            push_char(&mut cur, '\n');
            let ghost line = cur@;
            out.push(cur);
            cur = String::new();
            proof {
                assert(out@.map_values(|l: String| l@) =~= pre_out.push(line));
                assert(pre_out.push(line) + lines_acc(t@.skip(i as int + 1), cur@) =~= pre_out + (
                seq![line] + lines_acc(t@.skip(i as int + 1), Seq::empty())));
            }
            i = i + 1;
        } else if c == '\r' {
            let mut crlf = false;
            if i + 1 < n {
                if t.get_char(i + 1) == '\n' {
                    crlf = true;
                }
            }
            if crlf {
                let ghost cur0 = cur@;
                proof {
                    assert(rest.len() >= 2 && rest[1] == t@[i as int + 1]);
                    assert(rest.skip(2) =~= t@.skip(i as int + 2));
                }
                push_char(&mut cur, '\r');
                push_char(&mut cur, '\n');
                let ghost line = cur@;
                out.push(cur);
                cur = String::new();
                proof {
                    assert(line =~= cur0 + seq!['\r', '\n']);
                    assert(lines_acc(rest, cur0) == seq![cur0 + seq!['\r', '\n']] + lines_acc(
                        rest.skip(2),
                        Seq::empty(),
                    ));
                    assert(out@.map_values(|l: String| l@) =~= pre_out.push(line));
                    assert(pre_out.push(line) + lines_acc(t@.skip(i as int + 2), cur@) =~= pre_out
                        + (seq![line] + lines_acc(t@.skip(i as int + 2), Seq::empty())));
                }
                i = i + 2;
            } else {
                proof {
                    assert(rest.len() >= 2 ==> rest[1] != '\n');
                }
                push_char(&mut cur, '\r');
                let ghost line = cur@;
                out.push(cur);
                cur = String::new();
                proof {
                    assert(out@.map_values(|l: String| l@) =~= pre_out.push(line));
                    assert(pre_out.push(line) + lines_acc(t@.skip(i as int + 1), cur@) =~= pre_out
                        + (seq![line] + lines_acc(t@.skip(i as int + 1), Seq::empty())));
                }
                i = i + 1;
            }
        } else {
            push_char(&mut cur, c);
            i = i + 1;
        }
    }
    proof {
        assert(t@.skip(n as int) =~= Seq::<char>::empty());
    }
    if !cur.as_str().is_empty() {
        let ghost line = cur@;
        let ghost pre_out = out@.map_values(|l: String| l@);
        out.push(cur);
        proof {
            assert(out@.map_values(|l: String| l@) =~= pre_out.push(line));
            assert(pre_out.push(line) =~= pre_out + seq![line]);
        }
    } else {
        proof {
            assert(out@.map_values(|l: String| l@) + lines_acc(Seq::<char>::empty(), cur@)
                =~= out@.map_values(|l: String| l@));
        }
    }
    out
}

/// The before-side spans of the rendered pair: Insert spans carry an
/// empty placeholder.
pub open spec fn blank_inserts(spans: Seq<SpanModel>) -> Seq<SpanModel> {
    spans.map_values(
        |sp: SpanModel| SpanModel {
            tag: sp.tag,
            text: if sp.tag == SpanTag::Insert {
                Seq::empty()
            } else {
                sp.text
            },
        },
    )
}

/// The after-side spans of the rendered pair: Delete spans carry an
/// empty placeholder.
pub open spec fn blank_deletes(spans: Seq<SpanModel>) -> Seq<SpanModel> {
    spans.map_values(
        |sp: SpanModel| SpanModel {
            tag: sp.tag,
            text: if sp.tag == SpanTag::Delete {
                Seq::empty()
            } else {
                sp.text
            },
        },
    )
}

/// All-Equal spans, one per line: what rendering a text against
/// itself yields.
pub open spec fn equal_spans(lines: Seq<Seq<char>>) -> Seq<SpanModel> {
    lines.map_values(|l: Seq<char>| SpanModel { tag: SpanTag::Equal, text: l })
}

/// What `render` returns on the before side.
pub open spec fn render_left(before: Seq<char>, after: Seq<char>) -> Seq<SpanModel> {
    if before == after {
        equal_spans(lines_of(before))
    } else {
        blank_inserts(diff_spans(before, after))
    }
}

/// What `render` returns on the after side.
pub open spec fn render_right(before: Seq<char>, after: Seq<char>) -> Seq<SpanModel> {
    if before == after {
        equal_spans(lines_of(after))
    } else {
        blank_deletes(diff_spans(before, after))
    }
}

proof fn lemma_before_project_blank_inserts(spans: Seq<SpanModel>)
    ensures
        before_project(blank_inserts(spans)) == before_project(spans),
    decreases spans.len(),
{
    if spans.len() > 0 {
        lemma_before_project_blank_inserts(spans.skip(1));
        assert(blank_inserts(spans).skip(1) =~= blank_inserts(spans.skip(1)));
        assert(before_part(blank_inserts(spans)[0]) == before_part(spans[0]));
        assert(before_project(blank_inserts(spans)) =~= before_project(spans));
    } else {
        assert(blank_inserts(spans) =~= spans);
    }
}

proof fn lemma_after_project_blank_deletes(spans: Seq<SpanModel>)
    ensures
        after_project(blank_deletes(spans)) == after_project(spans),
    decreases spans.len(),
{
    if spans.len() > 0 {
        lemma_after_project_blank_deletes(spans.skip(1));
        assert(blank_deletes(spans).skip(1) =~= blank_deletes(spans.skip(1)));
        assert(after_part(blank_deletes(spans)[0]) == after_part(spans[0]));
        assert(after_project(blank_deletes(spans)) =~= after_project(spans));
    } else {
        assert(blank_deletes(spans) =~= spans);
    }
}

proof fn lemma_equal_spans_project(lines: Seq<Seq<char>>)
    ensures
        before_project(equal_spans(lines)) == concat_lines(lines),
        after_project(equal_spans(lines)) == concat_lines(lines),
    decreases lines.len(),
{
    if lines.len() > 0 {
        lemma_equal_spans_project(lines.skip(1));
        assert(equal_spans(lines).skip(1) =~= equal_spans(lines.skip(1)));
        assert(before_project(equal_spans(lines)) =~= concat_lines(lines));
        assert(after_project(equal_spans(lines)) =~= concat_lines(lines));
    } else {
        assert(equal_spans(lines) =~= Seq::<SpanModel>::empty());
    }
}

/// Renders the line-level alignment of two texts as two parallel span
/// sequences of the same length: an Equal span carries the line on
/// both sides; a Delete span carries the line on the before side and
/// an empty placeholder opposite; an Insert span the reverse.
/// Projecting the before side (Equal and Delete content) recovers the
/// before text exactly, and likewise the after side; rendering a text
/// against itself yields all-Equal spans.
pub fn render(before: &str, after: &str) -> (r: (Vec<Span>, Vec<Span>))
    ensures
        r.0@.map_values(|sp: Span| sp@) == render_left(before@, after@),
        r.1@.map_values(|sp: Span| sp@) == render_right(before@, after@),
        r.0@.len() == r.1@.len(),
        forall|k: int|
            0 <= k < r.0@.len() ==> r.0@[k]@.tag == r.1@[k]@.tag,
        forall|k: int|
            0 <= k < r.0@.len() && r.0@[k]@.tag == SpanTag::Insert ==> r.0@[k]@.text
                == Seq::<char>::empty(),
        forall|k: int|
            0 <= k < r.1@.len() && r.1@[k]@.tag == SpanTag::Delete ==> r.1@[k]@.text
                == Seq::<char>::empty(),
        before_project(r.0@.map_values(|sp: Span| sp@)) == before@,
        after_project(r.1@.map_values(|sp: Span| sp@)) == after@,
        before@ == after@ ==> forall|k: int|
            0 <= k < r.0@.len() ==> r.0@[k]@.tag == SpanTag::Equal,
{
    if str_eq(before, after) {
        let lines = split_lines(before);
        let ghost lmodel = lines@.map_values(|l: String| l@);
        let mut left: Vec<Span> = Vec::new();
        let mut right: Vec<Span> = Vec::new();
        let n = lines.len();
        let mut i: usize = 0;
        proof {
            assert(left@.map_values(|sp: Span| sp@) =~~= equal_spans(lmodel.take(0)));
            assert(right@.map_values(|sp: Span| sp@) =~~= equal_spans(lmodel.take(0)));
        }
        while i < n
            invariant
                i <= n,
                n == lines.len(),
                lmodel == lines@.map_values(|l: String| l@),
                left@.map_values(|sp: Span| sp@) == equal_spans(lmodel.take(i as int)),
                right@.map_values(|sp: Span| sp@) == equal_spans(lmodel.take(i as int)),
            decreases n - i,
        {
            let ghost prevl = left@;
            let ghost prevr = right@;
            left.push(Span { tag: SpanTag::Equal, text: lines[i].clone() });
            right.push(Span { tag: SpanTag::Equal, text: lines[i].clone() });
            proof {
                let lv = left@.map_values(|sp: Span| sp@);
                let rv = right@.map_values(|sp: Span| sp@);
                let target = equal_spans(lmodel.take(i + 1));
                assert(left@.len() == prevl.len() + 1);
                assert(prevl.map_values(|sp: Span| sp@).len() == prevl.len());
                assert(equal_spans(lmodel.take(i as int)).len() == i);
                assert(lv.len() == i + 1);
                assert(rv.len() == i + 1);
                assert(target.len() == i + 1);
                assert forall|k: int| 0 <= k < i + 1 implies lv[k] == target[k] && rv[k]
                    == target[k] by {
                    assert(lmodel.take(i + 1)[k] == lmodel[k]);
                    if k < i {
                        assert(left@[k] == prevl[k]);
                        assert(right@[k] == prevr[k]);
                        assert(prevl.map_values(|sp: Span| sp@)[k] == equal_spans(lmodel.take(
                            i as int,
                        ))[k]);
                        assert(prevr.map_values(|sp: Span| sp@)[k] == equal_spans(lmodel.take(
                            i as int,
                        ))[k]);
                        assert(lmodel.take(i as int)[k] == lmodel[k]);
                    } else {
                        assert(left@[k] == left@.last());
                        assert(right@[k] == right@.last());
                        assert(lv[k].text == lines@[i as int]@);
                        assert(rv[k].text == lines@[i as int]@);
                    }
                }
                assert(lv =~~= target);
                assert(rv =~~= target);
            }
            i = i + 1;
        }
        proof {
            assert(lmodel.take(n as int) =~= lmodel);
            lemma_equal_spans_project(lmodel);
            lemma_lines_concat(before@, Seq::<char>::empty());
            assert(Seq::<char>::empty() + before@ =~= before@);
            assert forall|k: int| 0 <= k < left@.len() implies #[trigger] left@[k]@
                == equal_spans(lmodel)[k] by {
                assert(left@.map_values(|sp: Span| sp@)[k] == left@[k]@);
            }
            assert forall|k: int| 0 <= k < right@.len() implies #[trigger] right@[k]@
                == equal_spans(lmodel)[k] by {
                assert(right@.map_values(|sp: Span| sp@)[k] == right@[k]@);
            }
        }
        (left, right)
    } else {
        let spans = line_diff(before, after);
        let ghost smodel = spans@.map_values(|sp: Span| sp@);
        let mut left: Vec<Span> = Vec::new();
        let mut right: Vec<Span> = Vec::new();
        let n = spans.len();
        let mut i: usize = 0;
        proof {
            assert(left@.map_values(|sp: Span| sp@) =~~= blank_inserts(smodel.take(0)));
            assert(right@.map_values(|sp: Span| sp@) =~~= blank_deletes(smodel.take(0)));
        }
        while i < n
            invariant
                i <= n,
                n == spans.len(),
                smodel == spans@.map_values(|sp: Span| sp@),
                left@.map_values(|sp: Span| sp@) == blank_inserts(smodel.take(i as int)),
                right@.map_values(|sp: Span| sp@) == blank_deletes(smodel.take(i as int)),
            decreases n - i,
        {
            let ghost prevl = left@;
            let ghost prevr = right@;
            match spans[i].tag {
                SpanTag::Equal => {
                    left.push(Span { tag: SpanTag::Equal, text: spans[i].text.clone() });
                    right.push(Span { tag: SpanTag::Equal, text: spans[i].text.clone() });
                },
                SpanTag::Delete => {
                    left.push(Span { tag: SpanTag::Delete, text: spans[i].text.clone() });
                    right.push(Span { tag: SpanTag::Delete, text: String::new() });
                },
                SpanTag::Insert => {
                    left.push(Span { tag: SpanTag::Insert, text: String::new() });
                    right.push(Span { tag: SpanTag::Insert, text: spans[i].text.clone() });
                },
            }
            proof {
                let lv = left@.map_values(|sp: Span| sp@);
                let rv = right@.map_values(|sp: Span| sp@);
                assert(left@.len() == prevl.len() + 1);
                assert(prevl.map_values(|sp: Span| sp@).len() == prevl.len());
                assert(blank_inserts(smodel.take(i as int)).len() == i);
                assert(lv.len() == i + 1);
                assert(right@.len() == prevr.len() + 1);
                assert(prevr.map_values(|sp: Span| sp@).len() == prevr.len());
                assert(blank_deletes(smodel.take(i as int)).len() == i);
                assert(rv.len() == i + 1);
                assert forall|k: int| 0 <= k < i + 1 implies lv[k] == blank_inserts(smodel.take(
                    i + 1,
                ))[k] && rv[k] == blank_deletes(smodel.take(i + 1))[k] by {
                    assert(smodel.take(i + 1)[k] == smodel[k]);
                    if k < i {
                        assert(left@[k] == prevl[k]);
                        assert(right@[k] == prevr[k]);
                        assert(prevl.map_values(|sp: Span| sp@)[k] == blank_inserts(smodel.take(
                            i as int,
                        ))[k]);
                        assert(prevr.map_values(|sp: Span| sp@)[k] == blank_deletes(smodel.take(
                            i as int,
                        ))[k]);
                        assert(smodel.take(i as int)[k] == smodel[k]);
                    } else {
                        assert(smodel[i as int] == spans@[i as int]@);
                    }
                }
                assert(lv =~~= blank_inserts(smodel.take(i + 1)));
                assert(rv =~~= blank_deletes(smodel.take(i + 1)));
            }
            i = i + 1;
        }
        proof {
            assert(smodel.take(n as int) =~= smodel);
            lemma_before_project_blank_inserts(smodel);
            lemma_after_project_blank_deletes(smodel);
            assert forall|k: int| 0 <= k < left@.len() implies #[trigger] left@[k]@
                == blank_inserts(smodel)[k] by {
                assert(left@.map_values(|sp: Span| sp@)[k] == left@[k]@);
            }
            assert forall|k: int| 0 <= k < right@.len() implies #[trigger] right@[k]@
                == blank_deletes(smodel)[k] by {
                assert(right@.map_values(|sp: Span| sp@)[k] == right@[k]@);
            }
        }
        (left, right)
    }
}

} // verus!
