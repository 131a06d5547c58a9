//! Normalized records: an ordered mapping from column name to
//! canonical value, ordered by column name so that two structurally
//! identical records always serialize identically.

use vstd::prelude::*;

use crate::strings::{int_dec_of, lex_lt, str_eq, str_lt};
use crate::value::{CanonicalValue, ValueModel};

verus! {

/// The mathematical model of a record: column name / value pairs in
/// their stored order.
pub type RecordModel = Seq<(Seq<char>, ValueModel)>;

/// A normalized record: column name / canonical value pairs, kept
/// sorted by column name ascending.
pub struct Record {
    pub fields: Vec<(String, CanonicalValue)>,
}

impl View for Record {
    type V = RecordModel;

    open spec fn view(&self) -> RecordModel {
        self.fields@.map_values(|p: (String, CanonicalValue)| (p.0@, p.1@))
    }
}

/// Strictly ascending column names (which also makes them unique).
pub open spec fn record_sorted(fields: RecordModel) -> bool {
    forall|i: int, j: int| 0 <= i < j < fields.len() ==> lex_lt(fields[i].0, fields[j].0)
}

impl Record {
    pub open spec fn wf(&self) -> bool {
        record_sorted(self@)
    }

    /// An empty record.
    pub fn new() -> (r: Record)
        ensures
            r.wf(),
            r@ == Seq::<(Seq<char>, ValueModel)>::empty(),
    {
        let r = Record { fields: Vec::new() };
        proof {
            assert(r@ =~= Seq::<(Seq<char>, ValueModel)>::empty());
        }
        r
    }
}

/// Insertion into a name-sorted record: keeps the order, replaces the
/// value if the name is already present.
pub open spec fn sorted_insert(fields: RecordModel, k: Seq<char>, v: ValueModel) -> RecordModel
    decreases fields.len(),
{
    if fields.len() == 0 {
        seq![(k, v)]
    } else if lex_lt(fields[0].0, k) {
        seq![fields[0]] + sorted_insert(fields.skip(1), k, v)
    } else if fields[0].0 == k {
        seq![(k, v)] + fields.skip(1)
    } else {
        seq![(k, v)] + fields
    }
}

/// The record that normalization builds from columns read in source
/// order: each column inserted in turn, the last occurrence of a name
/// winning.
pub open spec fn normalize_model(cols: Seq<(Seq<char>, ValueModel)>) -> RecordModel
    decreases cols.len(),
{
    if cols.len() == 0 {
        Seq::empty()
    } else {
        sorted_insert(normalize_model(cols.drop_last()), cols.last().0, cols.last().1)
    }
}

/// Lexicographic order is total: two sequences are ordered one way,
/// the other way, or equal.
pub proof fn lemma_lex_lt_total(a: Seq<char>, b: Seq<char>)
    ensures
        lex_lt(a, b) || lex_lt(b, a) || a == b,
    decreases a.len(),
{
    if b.len() == 0 {
        if a.len() == 0 {
            assert(a =~= b);
        }
    } else if a.len() == 0 {
    } else if a[0] != b[0] {
        if a[0] as u32 == b[0] as u32 {
            crate::strings::char_inj(a[0], b[0]);
        }
    } else {
        lemma_lex_lt_total(a.skip(1), b.skip(1));
        if a.skip(1) == b.skip(1) {
            assert(a =~= seq![a[0]] + a.skip(1));
            assert(b =~= seq![b[0]] + b.skip(1));
        }
    }
}

proof fn lemma_sorted_insert_split(fields: RecordModel, k: Seq<char>, v: ValueModel, i: int)
    requires
        0 <= i <= fields.len(),
        forall|j: int| 0 <= j < i ==> lex_lt(fields[j].0, k),
    ensures
        sorted_insert(fields, k, v) == fields.take(i) + sorted_insert(fields.skip(i), k, v),
    decreases i,
{
    if i == 0 {
        assert(fields.take(0) =~= Seq::<(Seq<char>, ValueModel)>::empty());
        assert(fields.skip(0) =~= fields);
        assert(fields.take(0) + sorted_insert(fields, k, v) =~= sorted_insert(fields, k, v));
    } else {
        assert(fields.len() > 0);
        assert(lex_lt(fields[0].0, k));
        lemma_sorted_insert_split(fields.skip(1), k, v, i - 1);
        assert(fields.skip(1).take(i - 1) =~= fields.take(i).skip(1));
        assert(fields.skip(1).skip(i - 1) =~= fields.skip(i));
        assert(sorted_insert(fields, k, v) == seq![fields[0]] + sorted_insert(fields.skip(1), k, v));
        assert(seq![fields[0]] + (fields.skip(1).take(i - 1) + sorted_insert(fields.skip(i), k, v))
            =~= fields.take(i) + sorted_insert(fields.skip(i), k, v));
    }
}

impl Record {
    /// Inserts a column, keeping the name order and replacing the
    /// value of a name already present.
    pub fn insert_field(&mut self, name: String, value: CanonicalValue)
        requires
            old(self).wf(),
        ensures
            final(self).wf(),
            final(self)@ == sorted_insert(old(self)@, name@, value@),
    {
        let ghost orig: RecordModel = self@;
        let ghost k: Seq<char> = name@;
        let ghost v: ValueModel = value@;
        let n = self.fields.len();
        let mut i: usize = 0;
        while i < n
            invariant
                i <= n,
                n == self.fields.len(),
                k == name@,
                forall|j: int| 0 <= j < i ==> lex_lt(self@[j].0, k),
            ensures
                i <= n,
                n == self.fields.len(),
                forall|j: int| 0 <= j < i ==> lex_lt(self@[j].0, k),
                i < n ==> !lex_lt(self@[i as int].0, k),
            decreases n - i,
        {
            proof {
                assert(self@[i as int] == (self.fields@[i as int].0@, self.fields@[i as int].1@));
            }
            if !str_lt(self.fields[i].0.as_str(), name.as_str()) {
                break;
            }
            i = i + 1;
        }
        proof {
            lemma_sorted_insert_split(orig, k, v, i as int);
        }
        if i < n && str_eq(self.fields[i].0.as_str(), name.as_str()) {
            // replace in place
            self.fields.remove(i);
            self.fields.insert(i, (name, value));
            proof {
                assert(orig.skip(i as int).len() > 0);
                assert(orig.skip(i as int)[0] == orig[i as int]);
                assert(!lex_lt(orig[i as int].0, k));
                assert(sorted_insert(orig.skip(i as int), k, v) == seq![(k, v)] + orig.skip(
                    i as int,
                ).skip(1));
                assert(orig.skip(i as int).skip(1) =~= orig.skip(i as int + 1));
                assert(self@ =~= orig.take(i as int) + (seq![(k, v)] + orig.skip(i as int + 1)));
                assert(self@ == sorted_insert(orig, k, v));
                assert(self@.len() == orig.len());
                assert forall|x: int, y: int| 0 <= x < y < self@.len() implies lex_lt(
                    self@[x].0,
                    self@[y].0,
                ) by {
                    assert(forall|m: int|
                        0 <= m < orig.len() && m != i ==> self@[m] == orig[m]);
                    if x != i && y != i {
                        assert(lex_lt(orig[x].0, orig[y].0));
                    } else if y == i {
                        assert(lex_lt(orig[x].0, k));
                    } else {
                        assert(orig[i as int].0 == k);
                        assert(lex_lt(orig[i as int].0, orig[y].0));
                    }
                }
            }
        } else {
            self.fields.insert(i, (name, value));
            proof {
                if i < n {
                    assert(orig.skip(i as int).len() > 0);
                    assert(orig.skip(i as int)[0] == orig[i as int]);
                    assert(!lex_lt(orig[i as int].0, k) && orig[i as int].0 != k);
                    lemma_lex_lt_total(orig[i as int].0, k);
                    assert(lex_lt(k, orig[i as int].0));
                    assert(sorted_insert(orig.skip(i as int), k, v) == seq![(k, v)] + orig.skip(
                        i as int,
                    ));
                } else {
                    assert(orig.skip(i as int) =~= Seq::<(Seq<char>, ValueModel)>::empty());
                    assert(sorted_insert(orig.skip(i as int), k, v) == seq![(k, v)]);
                    assert(seq![(k, v)] + orig.skip(i as int) =~= seq![(k, v)]);
                }
                assert(self@ =~= orig.take(i as int) + (seq![(k, v)] + orig.skip(i as int)));
                assert(self@ == sorted_insert(orig, k, v));
                assert forall|x: int, y: int| 0 <= x < y < self@.len() implies lex_lt(
                    self@[x].0,
                    self@[y].0,
                ) by {
                    if x != i && y != i {
                        assert(lex_lt(orig[if x < i { x } else { x - 1 }].0, orig[if y < i {
                            y
                        } else {
                            y - 1
                        }].0));
                    } else if y == i {
                        assert(lex_lt(orig[x].0, k));
                    } else {
                        // x == i: k orders before every later old element
                        assert(self@[y] == orig[y - 1]);
                        if y - 1 == i {
                            assert(lex_lt(k, orig[i as int].0));
                        } else {
                            assert(lex_lt(k, orig[i as int].0));
                            assert(lex_lt(orig[i as int].0, orig[y - 1].0));
                            lemma_lex_lt_trans(k, orig[i as int].0, orig[y - 1].0);
                        }
                    }
                }
            }
        }
    }
}

/// Lexicographic order is transitive.
pub proof fn lemma_lex_lt_trans(a: Seq<char>, b: Seq<char>, c: Seq<char>)
    requires
        lex_lt(a, b),
        lex_lt(b, c),
    ensures
        lex_lt(a, c),
    decreases a.len() + b.len() + c.len(),
{
    if c.len() == 0 {
    } else if b.len() == 0 {
    } else if a.len() == 0 {
    } else if a[0] != b[0] {
        if b[0] != c[0] {
            assert((a[0] as u32) < (c[0] as u32));
            if a[0] == c[0] {
                assert(false);
            }
        } else {
            assert(a[0] != c[0]);
        }
    } else {
        if b[0] != c[0] {
            assert(a[0] != c[0]);
        } else {
            lemma_lex_lt_trans(a.skip(1), b.skip(1), c.skip(1));
        }
    }
}

/// Normalizes a full row: every column is inserted in source order
/// into a record keyed and ordered by column name; no column is ever
/// dropped, and on a repeated name the later column wins.
pub fn normalize(cols: &Vec<(String, CanonicalValue)>) -> (r: Record)
    ensures
        r.wf(),
        r@ == normalize_model(cols@.map_values(|p: (String, CanonicalValue)| (p.0@, p.1@))),
{
    let ghost model: Seq<(Seq<char>, ValueModel)> = cols@.map_values(
        |p: (String, CanonicalValue)| (p.0@, p.1@),
    );
    let mut r = Record::new();
    let n = cols.len();
    let mut i: usize = 0;
    proof {
        assert(model.take(0) =~= Seq::<(Seq<char>, ValueModel)>::empty());
    }
    while i < n
        invariant
            i <= n,
            n == cols@.len(),
            model == cols@.map_values(|p: (String, CanonicalValue)| (p.0@, p.1@)),
            r.wf(),
            r@ == normalize_model(model.take(i as int)),
        decreases n - i,
    {
        let name = cols[i].0.clone();
        let value = cols[i].1.clone();
        r.insert_field(name, value);
        proof {
            assert(model.take(i + 1).drop_last() =~= model.take(i as int));
            assert(model.take(i + 1).last() == model[i as int]);
        }
        i = i + 1;
    }
    proof {
        assert(model.take(n as int) =~= model);
    }
    r
}

/// The value stored under a column name, if any: the first pair with
/// that name.
pub open spec fn find_field(fields: RecordModel, k: Seq<char>) -> Option<ValueModel>
    decreases fields.len(),
{
    if fields.len() == 0 {
        Option::None
    } else if fields[0].0 == k {
        Option::Some(fields[0].1)
    } else {
        find_field(fields.skip(1), k)
    }
}

/// The identity string of a record: the `id` field if present (an
/// integer id in decimal digits, a float or string id verbatim), the
/// sentinel `unknown` otherwise.
pub open spec fn identity_model(fields: RecordModel) -> Seq<char> {
    match find_field(fields, "id"@) {
        Option::None => "unknown"@,
        Option::Some(v) => match v {
            ValueModel::Integer(i) => int_dec_of(i),
            ValueModel::Float(s) => s,
            ValueModel::Text(s) => s,
            _ => "unknown"@,
        },
    }
}

/// Extracts the stable identity used to correlate the same logical
/// record across two snapshots. A pure function of one record.
pub fn identity_of(rec: &Record) -> (r: String)
    ensures
        r@ == identity_model(rec@),
{
    let n = rec.fields.len();
    let mut i: usize = 0;
    proof {
        assert(rec@.skip(0) =~= rec@);
    }
    while i < n
        invariant
            i <= n,
            n == rec.fields.len(),
            find_field(rec@, "id"@) == find_field(rec@.skip(i as int), "id"@),
        decreases n - i,
    {
        if str_eq(rec.fields[i].0.as_str(), "id") {
            proof {
                assert(rec@.skip(i as int)[0] == rec@[i as int]);
            }
            return match &rec.fields[i].1 {
                CanonicalValue::Integer(v) => crate::strings::i64_to_dec(*v),
                CanonicalValue::Float(s) => s.clone(),
                CanonicalValue::Text(s) => s.clone(),
                CanonicalValue::Null => String::from_str("unknown"),
                CanonicalValue::Boolean(_) => String::from_str("unknown"),
            };
        }
        proof {
            assert(rec@.skip(i as int)[0] == rec@[i as int]);
            assert(rec@.skip(i as int).skip(1) =~= rec@.skip(i as int + 1));
        }
        i = i + 1;
    }
    proof {
        assert(rec@.skip(n as int) =~= Seq::<(Seq<char>, ValueModel)>::empty());
    }
    String::from_str("unknown")
}


/// Lexicographic order is irreflexive.
pub proof fn lemma_lex_lt_irrefl(a: Seq<char>)
    ensures
        !lex_lt(a, a),
    decreases a.len(),
{
    if a.len() > 0 {
        lemma_lex_lt_irrefl(a.skip(1));
    }
}

/// Pairwise distinct column names.
pub open spec fn names_unique(cols: Seq<(Seq<char>, ValueModel)>) -> bool {
    forall|i: int, j: int| 0 <= i < j < cols.len() ==> cols[i].0 != cols[j].0
}

proof fn lemma_cons_contains(x: (Seq<char>, ValueModel), s: RecordModel, p: (Seq<char>, ValueModel))
    ensures
        (seq![x] + s).contains(p) <==> (x == p || s.contains(p)),
{
    let t = seq![x] + s;
    assert(t[0] == x);
    if s.contains(p) {
        let j = choose|j: int| 0 <= j < s.len() && s[j] == p;
        assert(t[j + 1] == p);
    }
    if t.contains(p) && x != p {
        let j = choose|j: int| 0 <= j < t.len() && t[j] == p;
        assert(j > 0);
        assert(s[j - 1] == p);
    }
}

/// Inserting a fresh name adds exactly that pair.
proof fn lemma_sorted_insert_fresh_membership(
    fields: RecordModel,
    k: Seq<char>,
    v: ValueModel,
    p: (Seq<char>, ValueModel),
)
    requires
        forall|i: int| 0 <= i < fields.len() ==> fields[i].0 != k,
    ensures
        sorted_insert(fields, k, v).contains(p) <==> (fields.contains(p) || p == (k, v)),
    decreases fields.len(),
{
    if fields.len() == 0 {
        assert(seq![(k, v)][0] == (k, v));
        if fields.contains(p) {
            assert(false);
        }
        if sorted_insert(fields, k, v).contains(p) {
            let j = choose|j: int|
                0 <= j < sorted_insert(fields, k, v).len() && sorted_insert(fields, k, v)[j] == p;
            assert(j == 0);
        }
    } else if lex_lt(fields[0].0, k) {
        assert(forall|i: int|
            0 <= i < fields.skip(1).len() ==> #[trigger] fields.skip(1)[i] == fields[i + 1]);
        lemma_sorted_insert_fresh_membership(fields.skip(1), k, v, p);
        lemma_cons_contains(fields[0], sorted_insert(fields.skip(1), k, v), p);
        lemma_cons_contains(fields[0], fields.skip(1), p);
        assert(fields =~= seq![fields[0]] + fields.skip(1));
    } else {
        assert(fields[0].0 != k);
        lemma_cons_contains((k, v), fields, p);
    }
}

/// The name of every inserted entry is the new name or one already
/// present.
proof fn lemma_sorted_insert_key_member(fields: RecordModel, k: Seq<char>, v: ValueModel, j: int)
    requires
        0 <= j < sorted_insert(fields, k, v).len(),
    ensures
        sorted_insert(fields, k, v)[j].0 == k || exists|i: int|
            0 <= i < fields.len() && fields[i].0 == #[trigger] sorted_insert(fields, k, v)[j].0,
    decreases fields.len(),
{
    let r = sorted_insert(fields, k, v);
    if fields.len() == 0 {
        assert(r[0] == (k, v));
    } else if lex_lt(fields[0].0, k) {
        if j == 0 {
            assert(r[0] == fields[0]);
        } else {
            lemma_sorted_insert_key_member(fields.skip(1), k, v, j - 1);
            assert(r[j] == sorted_insert(fields.skip(1), k, v)[j - 1]);
            if sorted_insert(fields.skip(1), k, v)[j - 1].0 != k {
                let i = choose|i: int|
                    0 <= i < fields.skip(1).len() && fields.skip(1)[i].0 == sorted_insert(
                        fields.skip(1),
                        k,
                        v,
                    )[j - 1].0;
                assert(fields[i + 1].0 == r[j].0);
            }
        }
    } else if fields[0].0 == k {
        if j == 0 {
            assert(r[0] == (k, v));
        } else {
            assert(r[j] == fields.skip(1)[j - 1]);
            assert(fields[j].0 == r[j].0);
        }
    } else {
        if j == 0 {
            assert(r[0] == (k, v));
        } else {
            assert(r[j] == fields[j - 1]);
        }
    }
}

/// Insertion keeps the strict name order.
proof fn lemma_sorted_insert_sorted(fields: RecordModel, k: Seq<char>, v: ValueModel)
    requires
        record_sorted(fields),
    ensures
        record_sorted(sorted_insert(fields, k, v)),
    decreases fields.len(),
{
    let r = sorted_insert(fields, k, v);
    if fields.len() == 0 {
    } else if lex_lt(fields[0].0, k) {
        assert(record_sorted(fields.skip(1))) by {
            assert(forall|i: int|
                0 <= i < fields.skip(1).len() ==> #[trigger] fields.skip(1)[i] == fields[i + 1]);
        }
        lemma_sorted_insert_sorted(fields.skip(1), k, v);
        let rest = sorted_insert(fields.skip(1), k, v);
        assert forall|x: int, y: int| 0 <= x < y < r.len() implies lex_lt(r[x].0, r[y].0) by {
            if x == 0 {
                assert(r[y] == rest[y - 1]);
                lemma_sorted_insert_key_member(fields.skip(1), k, v, y - 1);
                if rest[y - 1].0 == k {
                    assert(lex_lt(fields[0].0, k));
                } else {
                    let i = choose|i: int|
                        0 <= i < fields.skip(1).len() && fields.skip(1)[i].0 == rest[y - 1].0;
                    assert(fields.skip(1)[i] == fields[i + 1]);
                    assert(lex_lt(fields[0].0, fields[i + 1].0));
                }
            } else {
                assert(r[x] == rest[x - 1] && r[y] == rest[y - 1]);
            }
        }
    } else if fields[0].0 == k {
        assert forall|x: int, y: int| 0 <= x < y < r.len() implies lex_lt(r[x].0, r[y].0) by {
            if x == 0 {
                assert(r[y] == fields.skip(1)[y - 1]);
                assert(fields.skip(1)[y - 1] == fields[y]);
                assert(lex_lt(fields[0].0, fields[y].0));
            } else {
                assert(r[x] == fields[x] && r[y] == fields[y]);
            }
        }
    } else {
        lemma_lex_lt_total(fields[0].0, k);
        assert(lex_lt(k, fields[0].0));
        assert forall|x: int, y: int| 0 <= x < y < r.len() implies lex_lt(r[x].0, r[y].0) by {
            if x == 0 {
                assert(r[y] == fields[y - 1]);
                if y == 1 {
                } else {
                    assert(lex_lt(fields[0].0, fields[y - 1].0));
                    lemma_lex_lt_trans(k, fields[0].0, fields[y - 1].0);
                }
            } else {
                assert(r[x] == fields[x - 1] && r[y] == fields[y - 1]);
            }
        }
    }
}

/// Normalization yields a name-sorted record.
pub proof fn lemma_normalize_sorted(cols: Seq<(Seq<char>, ValueModel)>)
    ensures
        record_sorted(normalize_model(cols)),
    decreases cols.len(),
{
    if cols.len() > 0 {
        lemma_normalize_sorted(cols.drop_last());
        lemma_sorted_insert_sorted(normalize_model(cols.drop_last()), cols.last().0, cols.last().1);
    }
}

/// With unique column names, normalization keeps exactly the given
/// pairs.
proof fn lemma_normalize_membership(cols: Seq<(Seq<char>, ValueModel)>, p: (Seq<char>, ValueModel))
    requires
        names_unique(cols),
    ensures
        normalize_model(cols).contains(p) <==> cols.contains(p),
    decreases cols.len(),
{
    if cols.len() == 0 {
        if cols.contains(p) {
            let j = choose|j: int| 0 <= j < cols.len() && cols[j] == p;
            assert(false);
        }
        if normalize_model(cols).contains(p) {
            let j = choose|j: int|
                0 <= j < normalize_model(cols).len() && normalize_model(cols)[j] == p;
            assert(false);
        }
    } else {
        let pre = cols.drop_last();
        assert(names_unique(pre)) by {
            assert(forall|i: int| 0 <= i < pre.len() ==> #[trigger] pre[i] == cols[i]);
        }
        let lastk = cols.last().0;
        assert forall|i: int|
            0 <= i < normalize_model(pre).len() implies #[trigger] normalize_model(pre)[i].0
            != lastk by {
            if normalize_model(pre)[i].0 == lastk {
                let q = normalize_model(pre)[i];
                assert(normalize_model(pre).contains(q));
                lemma_normalize_membership(pre, q);
                assert(pre.contains(q));
                let m = choose|m: int| 0 <= m < pre.len() && pre[m] == q;
                assert(cols[m].0 == cols[cols.len() - 1].0);
                assert(false);
            }
        }
        lemma_sorted_insert_fresh_membership(
            normalize_model(pre),
            cols.last().0,
            cols.last().1,
            p,
        );
        lemma_normalize_membership(pre, p);
        if cols.contains(p) {
            let j = choose|j: int| 0 <= j < cols.len() && cols[j] == p;
            if j < cols.len() - 1 {
                assert(pre[j] == p);
            } else {
                assert(p == (cols.last().0, cols.last().1));
            }
        }
        if pre.contains(p) {
            let j = choose|j: int| 0 <= j < pre.len() && pre[j] == p;
            assert(cols[j] == p);
        }
        if p == (cols.last().0, cols.last().1) {
            assert(cols[cols.len() - 1] == p);
        }
    }
}

/// Two name-sorted records holding the same pairs are the same
/// record.
proof fn lemma_sorted_same_membership(s1: RecordModel, s2: RecordModel)
    requires
        record_sorted(s1),
        record_sorted(s2),
        forall|p: (Seq<char>, ValueModel)| s1.contains(p) <==> s2.contains(p),
    ensures
        s1 == s2,
    decreases s1.len(),
{
    if s1.len() == 0 {
        if s2.len() > 0 {
            assert(s2.contains(s2[0]));
            assert(s1.contains(s2[0]));
            assert(false);
        }
        assert(s1 =~= s2);
    } else {
        assert(s2.len() > 0) by {
            assert(s1.contains(s1[0]));
            assert(s2.contains(s1[0]));
        }
        assert(s1[0] == s2[0]) by {
            assert(s1.contains(s1[0]));
            assert(s2.contains(s1[0]));
            let j = choose|j: int| 0 <= j < s2.len() && s2[j] == s1[0];
            assert(s2.contains(s2[0]));
            assert(s1.contains(s2[0]));
            let i = choose|i: int| 0 <= i < s1.len() && s1[i] == s2[0];
            if j > 0 {
                assert(lex_lt(s2[0].0, s2[j].0));
                if i > 0 {
                    assert(lex_lt(s1[0].0, s1[i].0));
                    lemma_lex_lt_trans(s2[0].0, s2[j].0, s1[i].0);
                    lemma_lex_lt_irrefl(s2[0].0);
                    assert(false);
                } else {
                    lemma_lex_lt_irrefl(s2[0].0);
                    assert(false);
                }
            }
        }
        assert forall|p: (Seq<char>, ValueModel)| s1.skip(1).contains(p) <==> s2.skip(
            1,
        ).contains(p) by {
            if s1.skip(1).contains(p) {
                let j = choose|j: int| 0 <= j < s1.skip(1).len() && s1.skip(1)[j] == p;
                assert(s1[j + 1] == p);
                assert(s1.contains(p));
                assert(s2.contains(p));
                let m = choose|m: int| 0 <= m < s2.len() && s2[m] == p;
                if m == 0 {
                    assert(p == s1[0]);
                    assert(lex_lt(s1[0].0, s1[j + 1].0));
                    lemma_lex_lt_irrefl(s1[0].0);
                    assert(false);
                }
                assert(s2.skip(1)[m - 1] == p);
            }
            if s2.skip(1).contains(p) {
                let j = choose|j: int| 0 <= j < s2.skip(1).len() && s2.skip(1)[j] == p;
                assert(s2[j + 1] == p);
                assert(s2.contains(p));
                assert(s1.contains(p));
                let m = choose|m: int| 0 <= m < s1.len() && s1[m] == p;
                if m == 0 {
                    assert(p == s2[0]);
                    assert(lex_lt(s2[0].0, s2[j + 1].0));
                    lemma_lex_lt_irrefl(s2[0].0);
                    assert(false);
                }
                assert(s1.skip(1)[m - 1] == p);
            }
        }
        assert(record_sorted(s1.skip(1))) by {
            assert(forall|i: int|
                0 <= i < s1.skip(1).len() ==> #[trigger] s1.skip(1)[i] == s1[i + 1]);
        }
        assert(record_sorted(s2.skip(1))) by {
            assert(forall|i: int|
                0 <= i < s2.skip(1).len() ==> #[trigger] s2.skip(1)[i] == s2[i + 1]);
        }
        lemma_sorted_same_membership(s1.skip(1), s2.skip(1));
        assert(s1 =~= seq![s1[0]] + s1.skip(1));
        assert(s2 =~= seq![s2[0]] + s2.skip(1));
    }
}

/// Normalization does not depend on the order the columns were read
/// in: two structurally identical rows — the same column names and
/// values, in any insertion order — normalize to the same record, and
/// therefore serialize to byte-identical canonical text.
pub proof fn lemma_normalize_order_independent(
    cols1: Seq<(Seq<char>, ValueModel)>,
    cols2: Seq<(Seq<char>, ValueModel)>,
)
    requires
        names_unique(cols1),
        names_unique(cols2),
        forall|p: (Seq<char>, ValueModel)| cols1.contains(p) <==> cols2.contains(p),
    ensures
        normalize_model(cols1) == normalize_model(cols2),
{
    lemma_normalize_sorted(cols1);
    lemma_normalize_sorted(cols2);
    assert forall|p: (Seq<char>, ValueModel)|
        normalize_model(cols1).contains(p) <==> normalize_model(cols2).contains(p) by {
        lemma_normalize_membership(cols1, p);
        lemma_normalize_membership(cols2, p);
    }
    lemma_sorted_same_membership(normalize_model(cols1), normalize_model(cols2));
}

} // verus!
