//! Canonical serialization of records: a pretty-printed JSON object
//! with keys in stored (sorted) order, used as the comparable text of
//! a record.

use vstd::prelude::*;

use crate::record::{Record, RecordModel};
use crate::strings::{int_dec_of, push_char, push_i64_dec};
use crate::value::{hex_digit, CanonicalValue, ValueModel};

verus! {

/// How one character is written inside a JSON string literal.
pub open spec fn json_escape_char(c: char) -> Seq<char> {
    if c == '"' {
        seq!['\\', '"']
    } else if c == '\\' {
        seq!['\\', '\\']
    } else if c == '\u{8}' {
        seq!['\\', 'b']
    } else if c == '\u{c}' {
        seq!['\\', 'f']
    } else if c == '\n' {
        seq!['\\', 'n']
    } else if c == '\r' {
        seq!['\\', 'r']
    } else if c == '\t' {
        seq!['\\', 't']
    } else if (c as u32) < 0x20 {
        seq!['\\', 'u', '0', '0', hex_digit((c as u32) as int / 16), hex_digit(
            (c as u32) as int % 16,
        )]
    } else {
        seq![c]
    }
}

/// A whole text, escaped for a JSON string literal.
pub open spec fn json_escape(s: Seq<char>) -> Seq<char>
    decreases s.len(),
{
    if s.len() == 0 {
        Seq::empty()
    } else {
        json_escape_char(s[0]) + json_escape(s.skip(1))
    }
}

proof fn lemma_json_escape_take(s: Seq<char>, i: int)
    requires
        0 <= i < s.len(),
    ensures
        json_escape(s.take(i + 1)) == json_escape(s.take(i)) + json_escape_char(s[i]),
    decreases i,
{
    if i == 0 {
        assert(s.take(1) =~= seq![s[0]]);
        assert(s.take(0) =~= Seq::<char>::empty());
        assert(s.take(1).skip(1) =~= Seq::<char>::empty());
        assert(json_escape(s.take(1)) =~= json_escape(s.take(0)) + json_escape_char(s[0]));
    } else {
        lemma_json_escape_take(s.skip(1), i - 1);
        assert(s.take(i + 1).skip(1) =~= s.skip(1).take(i));
        assert(s.take(i).skip(1) =~= s.skip(1).take(i - 1));
        assert(s.take(i + 1)[0] == s[0]);
        assert(s.take(i)[0] == s[0]);
        assert(s.skip(1)[i - 1] == s[i]);
        assert(json_escape(s.take(i + 1)) =~= json_escape(s.take(i)) + json_escape_char(s[i]));
    }
}

/// Appends the JSON-escaped characters of `t` to `s`.
fn push_json_escaped(s: &mut String, t: &str)
    ensures
        final(s)@ == old(s)@ + json_escape(t@),
{
    let n = t.unicode_len();
    let mut i: usize = 0;
    proof {
        assert(t@.take(0) =~= Seq::<char>::empty());
    }
    while i < n
        invariant
            i <= n,
            n == t@.len(),
            s@ == old(s)@ + json_escape(t@.take(i as int)),
        decreases n - i,
    {
        let c = t.get_char(i);
        if c == '"' {
            push_char(s, '\\');
            push_char(s, '"');
        } else if c == '\\' {
            push_char(s, '\\');
            push_char(s, '\\');
        } else if c == '\u{8}' {
            push_char(s, '\\');
            push_char(s, 'b');
        } else if c == '\u{c}' {
            push_char(s, '\\');
            push_char(s, 'f');
        } else if c == '\n' {
            push_char(s, '\\');
            push_char(s, 'n');
        } else if c == '\r' {
            push_char(s, '\\');
            push_char(s, 'r');
        } else if c == '\t' {
            push_char(s, '\\');
            push_char(s, 't');
        } else if (c as u32) < 0x20 {
            let code = c as u32;
            push_char(s, '\\');
            push_char(s, 'u');
            push_char(s, '0');
            push_char(s, '0');
            push_char(s, crate::value::hex_digit_char((code / 16) as u8));
            push_char(s, crate::value::hex_digit_char((code % 16) as u8));
        } else {
            push_char(s, c);
        }
        proof {
            lemma_json_escape_take(t@, i as int);
            assert(s@ =~= old(s)@ + json_escape(t@.take(i as int + 1)));
        }
        i = i + 1;
    }
    proof {
        assert(t@.take(n as int) =~= t@);
    }
}

/// A JSON string literal: quote, escaped text, quote.
pub open spec fn json_string(s: Seq<char>) -> Seq<char> {
    seq!['"'] + json_escape(s) + seq!['"']
}

/// Appends the JSON string literal for `t` to `s`.
fn push_json_string(s: &mut String, t: &str)
    ensures
        final(s)@ == old(s)@ + json_string(t@),
{
    push_char(s, '"');
    push_json_escaped(s, t);
    push_char(s, '"');
    assert(final(s)@ =~= old(s)@ + json_string(t@));
}

/// The JSON text of one canonical value. A float's stored decimal
/// rendering is written bare, as a JSON number.
pub open spec fn json_value(v: ValueModel) -> Seq<char> {
    match v {
        ValueModel::Null => "null"@,
        ValueModel::Integer(i) => int_dec_of(i),
        ValueModel::Float(s) => s,
        ValueModel::Boolean(b) => if b {
            "true"@
        } else {
            "false"@
        },
        ValueModel::Text(s) => json_string(s),
    }
}

/// Appends the JSON text of one canonical value to `s`.
fn push_json_value(s: &mut String, v: &CanonicalValue)
    ensures
        final(s)@ == old(s)@ + json_value(v@),
{
    match v {
        CanonicalValue::Null => s.append("null"),
        CanonicalValue::Integer(i) => push_i64_dec(s, *i),
        CanonicalValue::Float(f) => s.append(f.as_str()),
        CanonicalValue::Boolean(b) => {
            if *b {
                s.append("true")
            } else {
                s.append("false")
            }
        },
        CanonicalValue::Text(t) => push_json_string(s, t.as_str()),
    }
}

/// One pretty-printed entry: a line break, a two-space indent, the
/// key as a JSON string, a colon, the value.
pub open spec fn json_entry(k: Seq<char>, v: ValueModel) -> Seq<char> {
    "\n  "@ + json_string(k) + ": "@ + json_value(v)
}

fn push_json_entry(s: &mut String, k: &str, v: &CanonicalValue)
    ensures
        final(s)@ == old(s)@ + json_entry(k@, v@),
{
    s.append("\n  ");
    push_json_string(s, k);
    s.append(": ");
    push_json_value(s, v);
    assert(final(s)@ =~= old(s)@ + json_entry(k@, v@));
}

/// Entries after the first, each preceded by a comma.
pub open spec fn json_rest(fields: RecordModel) -> Seq<char>
    decreases fields.len(),
{
    if fields.len() == 0 {
        Seq::empty()
    } else {
        ","@ + json_entry(fields[0].0, fields[0].1) + json_rest(fields.skip(1))
    }
}

proof fn lemma_json_rest_take(fields: RecordModel, i: int)
    requires
        0 <= i < fields.len(),
    ensures
        json_rest(fields.take(i + 1)) == json_rest(fields.take(i)) + ","@ + json_entry(
            fields[i].0,
            fields[i].1,
        ),
    decreases i,
{
    if i == 0 {
        assert(fields.take(1) =~= seq![fields[0]]);
        assert(fields.take(0) =~= Seq::<(Seq<char>, ValueModel)>::empty());
        assert(fields.take(1).skip(1) =~= Seq::<(Seq<char>, ValueModel)>::empty());
        assert(json_rest(fields.take(1)) =~= json_rest(fields.take(0)) + ","@ + json_entry(
            fields[0].0,
            fields[0].1,
        ));
    } else {
        lemma_json_rest_take(fields.skip(1), i - 1);
        assert(fields.take(i + 1).skip(1) =~= fields.skip(1).take(i));
        assert(fields.take(i).skip(1) =~= fields.skip(1).take(i - 1));
        assert(fields.take(i + 1)[0] == fields[0]);
        assert(fields.take(i)[0] == fields[0]);
        assert(fields.skip(1)[i - 1] == fields[i]);
        assert(json_rest(fields.take(i + 1)) =~= json_rest(fields.take(i)) + ","@ + json_entry(
            fields[i].0,
            fields[i].1,
        ));
    }
}

/// The canonical serialized text of a record: a pretty-printed JSON
/// object whose keys appear in the record's stored order.
pub open spec fn json_record(fields: RecordModel) -> Seq<char> {
    if fields.len() == 0 {
        "{}"@
    } else {
        "{"@ + json_entry(fields[0].0, fields[0].1) + json_rest(fields.skip(1)) + "\n}"@
    }
}

/// Serializes a record to its canonical text. Total: every record has
/// a canonical text, and equal records (same columns, same values)
/// always yield byte-identical text.
pub fn serialize_record(rec: &Record) -> (r: String)
    ensures
        r@ == json_record(rec@),
{
    let n = rec.fields.len();
    if n == 0 {
        let s = String::from_str("{}");
        return s;
    }
    let mut s = String::from_str("{");
    push_json_entry(&mut s, rec.fields[0].0.as_str(), &rec.fields[0].1);
    let ghost tail: RecordModel = rec@.skip(1);
    let mut i: usize = 1;
    proof {
        assert(tail.take(0) =~= Seq::<(Seq<char>, ValueModel)>::empty());
        assert(rec@[0] == (rec.fields@[0].0@, rec.fields@[0].1@));
        assert(s@ =~= "{"@ + json_entry(rec@[0].0, rec@[0].1) + json_rest(tail.take(0)));
    }
    while i < n
        invariant
            1 <= i <= n,
            n == rec.fields.len(),
            tail == rec@.skip(1),
            s@ == "{"@ + json_entry(rec@[0].0, rec@[0].1) + json_rest(tail.take(i - 1)),
        decreases n - i,
    {
        s.append(",");
        push_json_entry(&mut s, rec.fields[i].0.as_str(), &rec.fields[i].1);
        proof {
            lemma_json_rest_take(tail, i - 1);
            assert(tail[i - 1] == rec@[i as int]);
            assert(rec@[i as int] == (rec.fields@[i as int].0@, rec.fields@[i as int].1@));
            assert(s@ =~= "{"@ + json_entry(rec@[0].0, rec@[0].1) + json_rest(tail.take(
                i as int,
            )));
        }
        i = i + 1;
    }
    s.append("\n}");
    proof {
        assert(tail.take(n - 1) =~= tail);
        assert(s@ =~= json_record(rec@));
    }
    s
}

} // verus!
