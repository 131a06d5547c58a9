//! The canonical value model: every database column value is coerced
//! into one of a closed set of comparable, serializable variants.

use vstd::prelude::*;

use crate::strings::{dec_of, digit_char, push_char, push_u64_dec, str_eq};
use md5::{Digest, Md5};

verus! {

/// A canonical column value. A source NULL is always `Null`; binary
/// data is represented as `Text` holding a digest string; a finite
/// 64-bit float is represented by its decimal rendering, kept in
/// `Float` so that it still serializes as a bare number.
pub enum CanonicalValue {
    Null,
    Integer(i64),
    Float(String),
    Boolean(bool),
    Text(String),
}

/// The mathematical model of a `CanonicalValue`.
pub enum ValueModel {
    Null,
    Integer(int),
    Float(Seq<char>),
    Boolean(bool),
    Text(Seq<char>),
}

impl View for CanonicalValue {
    type V = ValueModel;

    open spec fn view(&self) -> ValueModel {
        match self {
            CanonicalValue::Null => ValueModel::Null,
            CanonicalValue::Integer(i) => ValueModel::Integer(*i as int),
            CanonicalValue::Float(s) => ValueModel::Float(s@),
            CanonicalValue::Boolean(b) => ValueModel::Boolean(*b),
            CanonicalValue::Text(s) => ValueModel::Text(s@),
        }
    }
}

impl Clone for CanonicalValue {
    fn clone(&self) -> (r: Self)
        ensures
            r@ == self@,
    {
        match self {
            CanonicalValue::Null => CanonicalValue::Null,
            CanonicalValue::Integer(i) => CanonicalValue::Integer(*i),
            CanonicalValue::Float(s) => CanonicalValue::Float(s.clone()),
            CanonicalValue::Boolean(b) => CanonicalValue::Boolean(*b),
            CanonicalValue::Text(s) => CanonicalValue::Text(s.clone()),
        }
    }
}

/// A calendar date and a time of day, as plain fields. This is what
/// the coercion layer reads of a driver's date/time value.
#[derive(Clone, Copy)]
pub struct DateTimeParts {
    pub year: i32,
    pub month: u8,
    pub day: u8,
    pub hour: u8,
    pub minute: u8,
    pub second: u8,
}

impl DateTimeParts {
    /// Field ranges of a calendar date and time; the year is
    /// unconstrained.
    pub open spec fn wf(self) -> bool {
        1 <= self.month <= 12 && 1 <= self.day <= 31 && self.hour < 24 && self.minute < 60
            && self.second < 60
    }
}

/// Two decimal digits, zero-padded.
pub open spec fn pad2(n: int) -> Seq<char> {
    seq![digit_char(n / 10), digit_char(n % 10)]
}

/// At least four decimal digits, zero-padded.
pub open spec fn pad4(m: int) -> Seq<char> {
    if m < 10 {
        seq!['0', '0', '0'] + dec_of(m as nat)
    } else if m < 100 {
        seq!['0', '0'] + dec_of(m as nat)
    } else if m < 1000 {
        seq!['0'] + dec_of(m as nat)
    } else {
        dec_of(m as nat)
    }
}

/// Zero-padded year, with a sign for years before year zero.
pub open spec fn year_chars(y: int) -> Seq<char> {
    if y < 0 {
        seq!['-'] + pad4(-y)
    } else {
        pad4(y)
    }
}

/// `YYYY-MM-DD HH:MM:SS`: 24-hour, zero-padded, no timezone suffix.
pub open spec fn datetime_chars(p: DateTimeParts) -> Seq<char> {
    year_chars(p.year as int) + seq!['-'] + pad2(p.month as int) + seq!['-'] + pad2(p.day as int)
        + seq![' '] + pad2(p.hour as int) + seq![':'] + pad2(p.minute as int) + seq![':'] + pad2(
        p.second as int,
    )
}

fn push_pad2(s: &mut String, n: u8)
    requires
        n < 100,
    ensures
        final(s)@ == old(s)@ + pad2(n as int),
{
    push_char(s, crate::strings::digit_to_char((n / 10) as u64));
    push_char(s, crate::strings::digit_to_char((n % 10) as u64));
    assert(final(s)@ =~= old(s)@ + pad2(n as int));
}

fn push_pad4(s: &mut String, m: u64)
    ensures
        final(s)@ == old(s)@ + pad4(m as int),
{
    if m < 10 {
        push_char(s, '0');
        push_char(s, '0');
        push_char(s, '0');
    } else if m < 100 {
        push_char(s, '0');
        push_char(s, '0');
    } else if m < 1000 {
        push_char(s, '0');
    }
    push_u64_dec(s, m);
    assert(final(s)@ =~= old(s)@ + pad4(m as int));
}

/// Formats a date and time in the canonical `YYYY-MM-DD HH:MM:SS`
/// shape used for date/time columns and for report timestamps.
pub fn format_datetime(p: &DateTimeParts) -> (r: String)
    requires
        p.wf(),
    ensures
        r@ == datetime_chars(*p),
{
    let mut s = String::new();
    if p.year < 0 {
        push_char(&mut s, '-');
        let mag: u64 = (-(p.year as i64)) as u64;
        push_pad4(&mut s, mag);
    } else {
        push_pad4(&mut s, p.year as u64);
    }
    push_char(&mut s, '-');
    push_pad2(&mut s, p.month);
    push_char(&mut s, '-');
    push_pad2(&mut s, p.day);
    push_char(&mut s, ' ');
    push_pad2(&mut s, p.hour);
    push_char(&mut s, ':');
    push_pad2(&mut s, p.minute);
    push_char(&mut s, ':');
    push_pad2(&mut s, p.second);
    assert(s@ =~= datetime_chars(*p));
    s
}

/// The MD5 digest of a byte sequence. The digest is computed by an
/// outside crate; this name stands for its result, which depends on
/// the input bytes alone.
pub uninterp spec fn md5_of(bytes: Seq<u8>) -> Seq<u8>;

/// Relies on md5::Md5 (the RustCrypto MD5 implementation): the digest
/// is a pure function of the input bytes and is 128 bits (16 bytes)
/// long.
#[verifier::external_body]
pub fn md5_digest(bytes: &[u8]) -> (r: Vec<u8>)
    ensures
        r@ == md5_of(bytes@),
        r@.len() == 16,
{
    Md5::digest(bytes).to_vec()
}

/// Lowercase hexadecimal digit character for a value below sixteen.
pub open spec fn hex_digit(d: int) -> char {
    if d < 10 {
        digit_char(d)
    } else if d == 10 { 'a' }
    else if d == 11 { 'b' }
    else if d == 12 { 'c' }
    else if d == 13 { 'd' }
    else if d == 14 { 'e' }
    else { 'f' }
}

/// Lowercase hexadecimal rendering of a byte sequence, two digits per
/// byte.
pub open spec fn hex_chars(bs: Seq<u8>) -> Seq<char>
    decreases bs.len(),
{
    if bs.len() == 0 {
        Seq::empty()
    } else {
        seq![hex_digit(bs[0] as int / 16), hex_digit(bs[0] as int % 16)] + hex_chars(bs.skip(1))
    }
}

pub(crate) fn hex_digit_char(d: u8) -> (r: char)
    requires
        d < 16,
    ensures
        r == hex_digit(d as int),
{
    if d < 10 {
        crate::strings::digit_to_char(d as u64)
    } else if d == 10 { 'a' }
    else if d == 11 { 'b' }
    else if d == 12 { 'c' }
    else if d == 13 { 'd' }
    else if d == 14 { 'e' }
    else { 'f' }
}

proof fn lemma_hex_chars_take(bs: Seq<u8>, i: int)
    requires
        0 <= i < bs.len(),
    ensures
        hex_chars(bs.take(i + 1)) == hex_chars(bs.take(i)) + seq![
            hex_digit(bs[i] as int / 16),
            hex_digit(bs[i] as int % 16),
        ],
    decreases i,
{
    if i == 0 {
        assert(bs.take(1) =~= seq![bs[0]]);
        assert(bs.take(0) =~= Seq::<u8>::empty());
        assert(bs.take(1).skip(1) =~= Seq::<u8>::empty());
        assert(hex_chars(bs.take(1)) =~= hex_chars(bs.take(0)) + seq![
            hex_digit(bs[0] as int / 16),
            hex_digit(bs[0] as int % 16),
        ]);
    } else {
        lemma_hex_chars_take(bs.skip(1), i - 1);
        assert(bs.take(i + 1).skip(1) =~= bs.skip(1).take(i));
        assert(bs.take(i).skip(1) =~= bs.skip(1).take(i - 1));
        assert(bs.take(i + 1)[0] == bs[0]);
        assert(bs.take(i)[0] == bs[0]);
        assert(bs.skip(1)[i - 1] == bs[i]);
        assert(hex_chars(bs.take(i + 1)) =~= hex_chars(bs.take(i)) + seq![
            hex_digit(bs[i] as int / 16),
            hex_digit(bs[i] as int % 16),
        ]);
    }
}

/// Appends the lowercase hexadecimal rendering of `bs` to `s`.
fn push_hex(s: &mut String, bs: &[u8])
    ensures
        final(s)@ == old(s)@ + hex_chars(bs@),
{
    let n = bs.len();
    let mut i: usize = 0;
    proof {
        assert(bs@.take(0) =~= Seq::<u8>::empty());
    }
    while i < n
        invariant
            i <= n,
            n == bs@.len(),
            s@ == old(s)@ + hex_chars(bs@.take(i as int)),
        decreases n - i,
    {
        let b = bs[i];
        push_char(s, hex_digit_char(b / 16));
        push_char(s, hex_digit_char(b % 16));
        proof {
            lemma_hex_chars_take(bs@, i as int);
        }
        i = i + 1;
    }
    proof {
        assert(bs@.take(n as int) =~= bs@);
    }
}

/// The canonical text standing in for a binary value.
pub open spec fn digest_text(bytes: Seq<u8>) -> Seq<char> {
    "MD5 Digest value: "@ + hex_chars(md5_of(bytes))
}

/// Builds the digest text for a binary value.
pub fn digest_string(bytes: &Vec<u8>) -> (r: String)
    ensures
        r@ == digest_text(bytes@),
{
    let mut s = String::from_str("MD5 Digest value: ");
    let digest = md5_digest(bytes.as_slice());
    push_hex(&mut s, digest.as_slice());
    s
}

/// One column value as the driver exposes it: the declared type name
/// decides which of the read attempts the coercion consults, and each
/// attempt may have failed (`None`).
pub struct RawCell {
    pub is_null: bool,
    pub int_val: Option<i64>,
    pub float_text: Option<String>,
    pub datetime_val: Option<DateTimeParts>,
    pub bytes_val: Option<Vec<u8>>,
    pub bool_val: Option<bool>,
    pub text_val: Option<String>,
}

/// The mathematical model of a `RawCell`.
pub struct RawCellModel {
    pub is_null: bool,
    pub int_val: Option<i64>,
    pub float_text: Option<Seq<char>>,
    pub datetime_val: Option<DateTimeParts>,
    pub bytes_val: Option<Seq<u8>>,
    pub bool_val: Option<bool>,
    pub text_val: Option<Seq<char>>,
}

impl View for RawCell {
    type V = RawCellModel;

    open spec fn view(&self) -> RawCellModel {
        RawCellModel {
            is_null: self.is_null,
            int_val: self.int_val,
            float_text: match self.float_text {
                Option::Some(s) => Option::Some(s@),
                Option::None => Option::None,
            },
            datetime_val: self.datetime_val,
            bytes_val: match self.bytes_val {
                Option::Some(b) => Option::Some(b@),
                Option::None => Option::None,
            },
            bool_val: self.bool_val,
            text_val: match self.text_val {
                Option::Some(s) => Option::Some(s@),
                Option::None => Option::None,
            },
        }
    }
}

impl RawCell {
    /// A cell whose source value is NULL.
    pub fn null() -> (r: RawCell)
        ensures
            r@.is_null,
    {
        RawCell {
            is_null: true,
            int_val: None,
            float_text: None,
            datetime_val: None,
            bytes_val: None,
            bool_val: None,
            text_val: None,
        }
    }
}

pub open spec fn is_integer_type(ty: Seq<char>) -> bool {
    ty == "TINYINT"@ || ty == "SMALLINT"@ || ty == "MEDIUMINT"@ || ty == "INT"@ || ty == "BIGINT"@
}

pub open spec fn is_float_type(ty: Seq<char>) -> bool {
    ty == "FLOAT"@ || ty == "DOUBLE"@ || ty == "DECIMAL"@
}

pub open spec fn is_datetime_type(ty: Seq<char>) -> bool {
    ty == "DATETIME"@ || ty == "TIMESTAMP"@
}

pub open spec fn is_binary_type(ty: Seq<char>) -> bool {
    ty == "BLOB"@ || ty == "TINYBLOB"@ || ty == "MEDIUMBLOB"@ || ty == "LONGBLOB"@
        || ty == "BINARY"@ || ty == "VARBINARY"@
}

pub open spec fn is_boolean_type(ty: Seq<char>) -> bool {
    ty == "BIT"@
}

/// What `coerce` returns, for every cell and declared type name.
pub open spec fn coerce_model(c: RawCellModel, ty: Seq<char>) -> ValueModel {
    if c.is_null {
        ValueModel::Null
    } else if is_integer_type(ty) {
        match c.int_val {
            Option::Some(i) => ValueModel::Integer(i as int),
            Option::None => ValueModel::Null,
        }
    } else if is_float_type(ty) {
        match c.float_text {
            Option::Some(s) => ValueModel::Float(s),
            Option::None => ValueModel::Null,
        }
    } else if is_datetime_type(ty) {
        match c.datetime_val {
            Option::Some(p) => ValueModel::Text(datetime_chars(p)),
            Option::None => ValueModel::Null,
        }
    } else if is_binary_type(ty) {
        match c.bytes_val {
            Option::Some(b) => ValueModel::Text(digest_text(b)),
            Option::None => ValueModel::Null,
        }
    } else if is_boolean_type(ty) {
        match c.bool_val {
            Option::Some(b) => ValueModel::Boolean(b),
            Option::None => ValueModel::Null,
        }
    } else {
        match c.bytes_val {
            Option::Some(b) => ValueModel::Text(digest_text(b)),
            Option::None => match c.text_val {
                Option::Some(t) => ValueModel::Text(t),
                Option::None => ValueModel::Null,
            },
        }
    }
}

fn is_integer_type_name(ty: &str) -> (r: bool)
    ensures
        r == is_integer_type(ty@),
{
    str_eq(ty, "TINYINT") || str_eq(ty, "SMALLINT") || str_eq(ty, "MEDIUMINT") || str_eq(ty, "INT")
        || str_eq(ty, "BIGINT")
}

fn is_float_type_name(ty: &str) -> (r: bool)
    ensures
        r == is_float_type(ty@),
{
    str_eq(ty, "FLOAT") || str_eq(ty, "DOUBLE") || str_eq(ty, "DECIMAL")
}

fn is_datetime_type_name(ty: &str) -> (r: bool)
    ensures
        r == is_datetime_type(ty@),
{
    str_eq(ty, "DATETIME") || str_eq(ty, "TIMESTAMP")
}

fn is_binary_type_name(ty: &str) -> (r: bool)
    ensures
        r == is_binary_type(ty@),
{
    str_eq(ty, "BLOB") || str_eq(ty, "TINYBLOB") || str_eq(ty, "MEDIUMBLOB") || str_eq(
        ty,
        "LONGBLOB",
    ) || str_eq(ty, "BINARY") || str_eq(ty, "VARBINARY")
}

/// Coerces one raw column value, with its declared type name, into
/// the canonical value model. Total: a source NULL is always `Null`,
/// and a failed read degrades to `Null` instead of failing. For an
/// unrecognized type the binary read is attempted before the text
/// read, so that binary-compatible values are never captured as
/// lossy text. A date/time value needs fields in calendar range.
pub fn coerce(cell: &RawCell, declared_type: &str) -> (r: CanonicalValue)
    requires
        cell.datetime_val matches Some(p) ==> p.wf(),
    ensures
        r@ == coerce_model(cell@, declared_type@),
        cell@.is_null ==> r@ == ValueModel::Null,
{
    if cell.is_null {
        return CanonicalValue::Null;
    }
    if is_integer_type_name(declared_type) {
        return match cell.int_val {
            Some(i) => CanonicalValue::Integer(i),
            None => CanonicalValue::Null,
        };
    }
    if is_float_type_name(declared_type) {
        return match &cell.float_text {
            Some(s) => CanonicalValue::Float(s.clone()),
            None => CanonicalValue::Null,
        };
    }
    if is_datetime_type_name(declared_type) {
        return match &cell.datetime_val {
            Some(p) => CanonicalValue::Text(format_datetime(p)),
            None => CanonicalValue::Null,
        };
    }
    if is_binary_type_name(declared_type) {
        return match &cell.bytes_val {
            Some(b) => CanonicalValue::Text(digest_string(b)),
            None => CanonicalValue::Null,
        };
    }
    if str_eq(declared_type, "BIT") {
        return match cell.bool_val {
            Some(b) => CanonicalValue::Boolean(b),
            None => CanonicalValue::Null,
        };
    }
    match &cell.bytes_val {
        Some(b) => CanonicalValue::Text(digest_string(b)),
        None => match &cell.text_val {
            Some(t) => CanonicalValue::Text(t.clone()),
            None => CanonicalValue::Null,
        },
    }
}

} // verus!
