//! Change detection between two snapshots of one table, and the
//! orchestration of a whole diff run.

use vstd::prelude::*;

use crate::error::DbbaError;
use crate::json::json_record;
use crate::models::{DatabaseSnapshot, SnapshotModel, TableChanges, TableModel};
use crate::output::{OutputAdapter, OutputEvent};
use crate::record::{identity_model, Record, RecordModel};
use crate::strings::{lex_lt, str_eq};

verus! {

/// The model of an identity map: identity / serialized-text pairs in
/// stored order.
pub type IdEntries = Seq<(Seq<char>, Seq<char>)>;

/// The text stored under an identity, if any: the first pair with
/// that identity.
pub open spec fn lookup_id(entries: IdEntries, k: Seq<char>) -> Option<Seq<char>>
    decreases entries.len(),
{
    if entries.len() == 0 {
        Option::None
    } else if entries[0].0 == k {
        Option::Some(entries[0].1)
    } else {
        lookup_id(entries.skip(1), k)
    }
}

/// Whether an identity is present.
pub open spec fn has_id(entries: IdEntries, k: Seq<char>) -> bool {
    lookup_id(entries, k) is Some
}

/// Pairwise distinct identities.
pub open spec fn unique_ids(entries: IdEntries) -> bool {
    forall|i: int, j: int| 0 <= i < j < entries.len() ==> entries[i].0 != entries[j].0
}

/// Insertion into an identity map: replaces the text of an identity
/// already present (in place), appends a new identity at the end.
pub open spec fn insert_entry(entries: IdEntries, k: Seq<char>, v: Seq<char>) -> IdEntries
    decreases entries.len(),
{
    if entries.len() == 0 {
        seq![(k, v)]
    } else if entries[0].0 == k {
        seq![(k, v)] + entries.skip(1)
    } else {
        seq![entries[0]] + insert_entry(entries.skip(1), k, v)
    }
}

/// The identity map built from a table's records, in order: identity
/// to canonical serialized text, a later record with the same
/// identity overwriting an earlier one.
pub open spec fn json_map_model(recs: Seq<RecordModel>) -> IdEntries
    decreases recs.len(),
{
    if recs.len() == 0 {
        Seq::empty()
    } else {
        insert_entry(
            json_map_model(recs.drop_last()),
            identity_model(recs.last()),
            json_record(recs.last()),
        )
    }
}

/// The identities of `b`, in order, that are absent from `a`.
pub open spec fn only_in(b: IdEntries, a: IdEntries) -> Seq<Seq<char>>
    decreases b.len(),
{
    if b.len() == 0 {
        Seq::empty()
    } else {
        let pre = only_in(b.drop_last(), a);
        if lookup_id(a, b.last().0) is None {
            pre.push(b.last().0)
        } else {
            pre
        }
    }
}

/// The identities of `b`, in order, that are present in `a` with a
/// different text.
pub open spec fn changed_keys(b: IdEntries, a: IdEntries) -> Seq<Seq<char>>
    decreases b.len(),
{
    if b.len() == 0 {
        Seq::empty()
    } else {
        let pre = changed_keys(b.drop_last(), a);
        match lookup_id(a, b.last().0) {
            Option::Some(v) => if v != b.last().1 {
                pre.push(b.last().0)
            } else {
                pre
            },
            Option::None => pre,
        }
    }
}

/// A map from record identity to canonical serialized text, with
/// stored insertion order; inserting an identity a second time
/// overwrites the first text.
pub struct IdMap {
    pub entries: Vec<(String, String)>,
}

impl View for IdMap {
    type V = IdEntries;

    open spec fn view(&self) -> IdEntries {
        self.entries@.map_values(|p: (String, String)| (p.0@, p.1@))
    }
}

proof fn lemma_insert_entry_split(entries: IdEntries, k: Seq<char>, v: Seq<char>, i: int)
    requires
        0 <= i <= entries.len(),
        forall|j: int| 0 <= j < i ==> entries[j].0 != k,
    ensures
        insert_entry(entries, k, v) == entries.take(i) + insert_entry(entries.skip(i), k, v),
    decreases i,
{
    if i == 0 {
        assert(entries.take(0) =~= Seq::<(Seq<char>, Seq<char>)>::empty());
        assert(entries.skip(0) =~= entries);
        assert(entries.take(0) + insert_entry(entries, k, v) =~= insert_entry(entries, k, v));
    } else {
        lemma_insert_entry_split(entries.skip(1), k, v, i - 1);
        assert(entries.skip(1).take(i - 1) =~= entries.take(i).skip(1));
        assert(entries.skip(1).skip(i - 1) =~= entries.skip(i));
        assert(entries.len() > 0 && entries[0].0 != k);
        assert(insert_entry(entries, k, v) == seq![entries[0]] + insert_entry(
            entries.skip(1),
            k,
            v,
        ));
        assert(seq![entries[0]] + (entries.skip(1).take(i - 1) + insert_entry(
            entries.skip(i),
            k,
            v,
        )) =~= entries.take(i) + insert_entry(entries.skip(i), k, v));
    }
}

impl IdMap {
    pub open spec fn wf(&self) -> bool {
        unique_ids(self@)
    }

    pub fn new() -> (r: IdMap)
        ensures
            r.wf(),
            r@ == Seq::<(Seq<char>, Seq<char>)>::empty(),
    {
        let r = IdMap { entries: Vec::new() };
        proof {
            assert(r@ =~= Seq::<(Seq<char>, Seq<char>)>::empty());
        }
        r
    }

    /// Inserts an identity with its serialized text; a repeated
    /// identity keeps exactly one entry, the last text winning.
    pub fn insert(&mut self, k: String, v: String)
        requires
            old(self).wf(),
        ensures
            final(self).wf(),
            final(self)@ == insert_entry(old(self)@, k@, v@),
    {
        let ghost orig: IdEntries = self@;
        let ghost gk: Seq<char> = k@;
        let ghost gv: Seq<char> = v@;
        let n = self.entries.len();
        let mut i: usize = 0;
        while i < n
            invariant
                i <= n,
                n == self.entries.len(),
                gk == k@,
                forall|j: int| 0 <= j < i ==> self@[j].0 != gk,
            ensures
                i <= n,
                n == self.entries.len(),
                forall|j: int| 0 <= j < i ==> self@[j].0 != gk,
                i < n ==> self@[i as int].0 == gk,
            decreases n - i,
        {
            proof {
                assert(self@[i as int] == (self.entries@[i as int].0@, self.entries@[i as int].1@));
            }
            if str_eq(self.entries[i].0.as_str(), k.as_str()) {
                break;
            }
            i = i + 1;
        }
        proof {
            lemma_insert_entry_split(orig, gk, gv, i as int);
        }
        if i < n {
            self.entries.remove(i);
            self.entries.insert(i, (k, v));
            proof {
                assert(orig.skip(i as int)[0] == orig[i as int]);
                assert(insert_entry(orig.skip(i as int), gk, gv) == seq![(gk, gv)] + orig.skip(
                    i as int,
                ).skip(1));
                assert(orig.skip(i as int).skip(1) =~= orig.skip(i as int + 1));
                assert(self@ =~= orig.take(i as int) + (seq![(gk, gv)] + orig.skip(i as int + 1)));
                assert(self@ == insert_entry(orig, gk, gv));
                assert(self@.len() == orig.len());
                assert forall|x: int, y: int| 0 <= x < y < self@.len() implies self@[x].0
                    != self@[y].0 by {
                    assert(forall|m: int| 0 <= m < orig.len() && m != i ==> self@[m] == orig[m]);
                    assert(orig[i as int].0 == gk);
                }
            }
        } else {
            self.entries.push((k, v));
            proof {
                assert(orig.skip(i as int) =~= Seq::<(Seq<char>, Seq<char>)>::empty());
                assert(insert_entry(orig.skip(i as int), gk, gv) == seq![(gk, gv)]);
                assert(self@ =~= orig.take(i as int) + seq![(gk, gv)]);
                assert(orig.take(n as int) =~= orig);
                assert(self@ == insert_entry(orig, gk, gv));
            }
        }
    }

    /// The serialized text stored under an identity, if any.
    pub fn get(&self, k: &str) -> (r: Option<&String>)
        ensures
            match r {
                Option::Some(v) => lookup_id(self@, k@) == Option::Some(v@),
                Option::None => lookup_id(self@, k@) is None,
            },
    {
        let n = self.entries.len();
        let mut i: usize = 0;
        proof {
            assert(self@.skip(0) =~= self@);
        }
        while i < n
            invariant
                i <= n,
                n == self.entries.len(),
                lookup_id(self@, k@) == lookup_id(self@.skip(i as int), k@),
            decreases n - i,
        {
            proof {
                assert(self@.skip(i as int)[0] == self@[i as int]);
                assert(self@.skip(i as int).skip(1) =~= self@.skip(i as int + 1));
            }
            if str_eq(self.entries[i].0.as_str(), k) {
                return Some(&self.entries[i].1);
            }
            i = i + 1;
        }
        proof {
            assert(self@.skip(n as int) =~= Seq::<(Seq<char>, Seq<char>)>::empty());
        }
        None
    }
}

/// Builds the identity map of one table side: each record's identity
/// mapped to its canonical serialized text, in record order, a later
/// record with the same identity overwriting an earlier one.
pub fn records_to_json_map(records: &Vec<Record>) -> (r: IdMap)
    ensures
        r.wf(),
        r@ == json_map_model(records@.map_values(|rec: Record| rec@)),
{
    let ghost model: Seq<RecordModel> = records@.map_values(|rec: Record| rec@);
    let mut map = IdMap::new();
    let n = records.len();
    let mut i: usize = 0;
    proof {
        assert(model.take(0) =~= Seq::<RecordModel>::empty());
    }
    while i < n
        invariant
            i <= n,
            n == records.len(),
            model == records@.map_values(|rec: Record| rec@),
            map.wf(),
            map@ == json_map_model(model.take(i as int)),
        decreases n - i,
    {
        let id = crate::record::identity_of(&records[i]);
        let json = crate::json::serialize_record(&records[i]);
        map.insert(id, json);
        proof {
            assert(model.take(i + 1).drop_last() =~= model.take(i as int));
            assert(model.take(i + 1).last() == model[i as int]);
            assert(model[i as int] == records@[i as int]@);
        }
        i = i + 1;
    }
    proof {
        assert(model.take(n as int) =~= model);
    }
    map
}

/// Detects the changes between the before and after identity maps of
/// one table: `deleted_ids` are present only before, `added_ids` only
/// after, `modified_ids` in both with texts that differ byte for
/// byte; each in stored map order, and the three are pairwise
/// disjoint. The table name is left empty for the caller to fill.
pub fn detect_changes(before: &IdMap, after: &IdMap) -> (r: TableChanges)
    ensures
        r.table_name@ == Seq::<char>::empty(),
        r.deleted_ids@.map_values(|s: String| s@) == only_in(before@, after@),
        r.added_ids@.map_values(|s: String| s@) == only_in(after@, before@),
        r.modified_ids@.map_values(|s: String| s@) == changed_keys(before@, after@),
{
    let mut deleted_ids: Vec<String> = Vec::new();
    let mut modified_ids: Vec<String> = Vec::new();
    let nb = before.entries.len();
    let mut i: usize = 0;
    proof {
        assert(before@.take(0) =~= Seq::<(Seq<char>, Seq<char>)>::empty());
        assert(deleted_ids@.map_values(|s: String| s@) =~= Seq::<Seq<char>>::empty());
        assert(modified_ids@.map_values(|s: String| s@) =~= Seq::<Seq<char>>::empty());
    }
    while i < nb
        invariant
            i <= nb,
            nb == before.entries.len(),
            deleted_ids@.map_values(|s: String| s@) == only_in(before@.take(i as int), after@),
            modified_ids@.map_values(|s: String| s@) == changed_keys(
                before@.take(i as int),
                after@,
            ),
        decreases nb - i,
    {
        proof {
            let ghost entry = before.entries@[i as int];
            assert(before@[i as int] == (entry.0@, entry.1@));
            assert(before@.take(i + 1).drop_last() =~= before@.take(i as int));
            assert(before@.take(i + 1).last() == before@[i as int]);
        }
        match after.get(before.entries[i].0.as_str()) {
            None => {
                deleted_ids.push(before.entries[i].0.clone());
                proof {
                    assert(deleted_ids@.map_values(|s: String| s@) =~= only_in(
                        before@.take(i as int),
                        after@,
                    ).push(before@[i as int].0));
                }
            },
            Some(v) => {
                if !str_eq(v.as_str(), before.entries[i].1.as_str()) {
                    modified_ids.push(before.entries[i].0.clone());
                    proof {
                        assert(modified_ids@.map_values(|s: String| s@) =~= changed_keys(
                            before@.take(i as int),
                            after@,
                        ).push(before@[i as int].0));
                    }
                }
            },
        }
        i = i + 1;
    }
    let mut added_ids: Vec<String> = Vec::new();
    let na = after.entries.len();
    let mut j: usize = 0;
    proof {
        assert(before@.take(nb as int) =~= before@);
        assert(after@.take(0) =~= Seq::<(Seq<char>, Seq<char>)>::empty());
        assert(added_ids@.map_values(|s: String| s@) =~= Seq::<Seq<char>>::empty());
    }
    while j < na
        invariant
            j <= na,
            na == after.entries.len(),
            added_ids@.map_values(|s: String| s@) == only_in(after@.take(j as int), before@),
        decreases na - j,
    {
        proof {
            assert(after@[j as int] == (after.entries@[j as int].0@, after.entries@[j as int].1@));
            assert(after@.take(j + 1).drop_last() =~= after@.take(j as int));
            assert(after@.take(j + 1).last() == after@[j as int]);
        }
        if before.get(after.entries[j].0.as_str()).is_none() {
            added_ids.push(after.entries[j].0.clone());
            proof {
                assert(added_ids@.map_values(|s: String| s@) =~= only_in(
                    after@.take(j as int),
                    before@,
                ).push(after@[j as int].0));
            }
        }
        j = j + 1;
    }
    proof {
        assert(after@.take(na as int) =~= after@);
    }
    TableChanges {
        table_name: String::new(),
        deleted_ids,
        added_ids,
        modified_ids,
    }
}


/// Whether one table differs between the two snapshot sides: any
/// identity removed, added, or with changed serialized content.
pub open spec fn table_has_changes(brecs: TableModel, arecs: TableModel) -> bool {
    only_in(json_map_model(brecs), json_map_model(arecs)).len() > 0 || only_in(
        json_map_model(arecs),
        json_map_model(brecs),
    ).len() > 0 || changed_keys(json_map_model(brecs), json_map_model(arecs)).len() > 0
}

/// The after-side contents of a table: empty for a table the after
/// snapshot does not hold.
pub open spec fn after_records(a: SnapshotModel, name: Seq<char>) -> TableModel {
    match crate::models::lookup_table(a, name) {
        Option::Some(t) => t,
        Option::None => Seq::empty(),
    }
}

/// Whether the table stored under `name` in the before snapshot
/// differs from its after side.
pub open spec fn name_changed(b: SnapshotModel, a: SnapshotModel, name: Seq<char>) -> bool {
    match crate::models::lookup_table(b, name) {
        Option::Some(t) => table_has_changes(t, after_records(a, name)),
        Option::None => false,
    }
}

/// Whether anything changed, over the tables of the before snapshot:
/// tables appearing only in the after snapshot are not compared.
pub open spec fn db_has_changes(b: SnapshotModel, a: SnapshotModel) -> bool {
    exists|i: int| 0 <= i < b.len() && #[trigger] name_changed(b, a, b[i].0)
}

/// An existing position's name is found by lookup.
pub proof fn lemma_lookup_table_some(tables: SnapshotModel, i: int)
    requires
        0 <= i < tables.len(),
    ensures
        crate::models::lookup_table(tables, tables[i].0) is Some,
    decreases i,
{
    if tables[0].0 != tables[i].0 {
        lemma_lookup_table_some(tables.skip(1), i - 1);
        assert(tables.skip(1)[i - 1] == tables[i]);
    }
}

/// A name that lookup finds belongs to some position.
pub proof fn lemma_lookup_table_exists(tables: SnapshotModel, name: Seq<char>)
    ensures
        (crate::models::lookup_table(tables, name) is Some) <==> exists|i: int|
            0 <= i < tables.len() && tables[i].0 == name,
    decreases tables.len(),
{
    if tables.len() > 0 {
        lemma_lookup_table_exists(tables.skip(1), name);
        if tables[0].0 == name {
            assert(tables[0].0 == name && 0 < tables.len());
        } else if crate::models::lookup_table(tables, name) is Some {
            let j = choose|j: int| 0 <= j < tables.skip(1).len() && tables.skip(1)[j].0 == name;
            assert(tables[j + 1].0 == name);
        } else if exists|i: int| 0 <= i < tables.len() && tables[i].0 == name {
            let i = choose|i: int| 0 <= i < tables.len() && tables[i].0 == name;
            assert(i > 0);
            assert(tables.skip(1)[i - 1].0 == name);
        }
    }
}

proof fn lemma_seq_insert_contains(s: Seq<Seq<char>>, p: int, x: Seq<char>, y: Seq<char>)
    requires
        0 <= p <= s.len(),
    ensures
        s.insert(p, x).contains(y) <==> (s.contains(y) || x == y),
{
    let t = s.insert(p, x);
    assert(t[p] == x);
    if s.contains(y) {
        let j = choose|j: int| 0 <= j < s.len() && s[j] == y;
        if j < p {
            assert(t[j] == y);
        } else {
            assert(t[j + 1] == y);
        }
    }
    if t.contains(y) && x != y {
        let j = choose|j: int| 0 <= j < t.len() && t[j] == y;
        assert(j != p);
        if j < p {
            assert(s[j] == y);
        } else {
            assert(s[j - 1] == y);
        }
    }
}

/// Insertion into an ascending name list: before the first name that
/// does not order below the new one.
pub open spec fn insert_name(names: Seq<Seq<char>>, k: Seq<char>) -> Seq<Seq<char>>
    decreases names.len(),
{
    if names.len() == 0 {
        seq![k]
    } else if lex_lt(names[0], k) {
        seq![names[0]] + insert_name(names.skip(1), k)
    } else {
        seq![k] + names
    }
}

/// The snapshot's table names, in ascending order: the order the
/// report walks the tables in.
pub open spec fn sorted_names_model(b: SnapshotModel) -> Seq<Seq<char>>
    decreases b.len(),
{
    if b.len() == 0 {
        Seq::empty()
    } else {
        insert_name(sorted_names_model(b.drop_last()), b.last().0)
    }
}

proof fn lemma_insert_name_split(names: Seq<Seq<char>>, k: Seq<char>, p: int)
    requires
        0 <= p <= names.len(),
        forall|j: int| 0 <= j < p ==> lex_lt(names[j], k),
        p < names.len() ==> !lex_lt(names[p], k),
    ensures
        insert_name(names, k) == names.take(p) + (seq![k] + names.skip(p)),
    decreases p,
{
    if p == 0 {
        assert(names.take(0) =~= Seq::<Seq<char>>::empty());
        assert(names.skip(0) =~= names);
        if names.len() == 0 {
            assert(insert_name(names, k) =~= names.take(0) + (seq![k] + names.skip(0)));
        } else {
            assert(!lex_lt(names[0], k));
            assert(insert_name(names, k) =~= names.take(0) + (seq![k] + names.skip(0)));
        }
    } else {
        assert(lex_lt(names[0], k));
        lemma_insert_name_split(names.skip(1), k, p - 1);
        assert(names.skip(1).take(p - 1) =~= names.take(p).skip(1));
        assert(names.skip(1).skip(p - 1) =~= names.skip(p));
        assert(insert_name(names, k) == seq![names[0]] + insert_name(names.skip(1), k));
        assert(seq![names[0]] + (names.skip(1).take(p - 1) + (seq![k] + names.skip(p)))
            =~= names.take(p) + (seq![k] + names.skip(p)));
    }
}

/// Names in ascending order, repeated names allowed.
pub open spec fn names_sorted(names: Seq<Seq<char>>) -> bool {
    forall|k1: int, k2: int| 0 <= k1 < k2 < names.len() ==> !lex_lt(names[k2], names[k1])
}

/// The table names of a snapshot, sorted ascending for a consistent
/// report order; every name is a key of the snapshot and every table
/// of the snapshot is named.
fn sorted_table_names(snap: &DatabaseSnapshot) -> (r: Vec<String>)
    ensures
        forall|k: int|
            0 <= k < r@.len() ==> #[trigger] crate::models::lookup_table(snap@, r@[k]@) is Some,
        forall|j: int|
            0 <= j < snap@.len() ==> r@.map_values(|s2: String| s2@).contains(
                #[trigger] snap@[j].0,
            ),
        names_sorted(r@.map_values(|s2: String| s2@)),
        r@.map_values(|s2: String| s2@) == sorted_names_model(snap@),
{
    let mut names: Vec<String> = Vec::new();
    let n = snap.tables.len();
    let mut i: usize = 0;
    while i < n
        invariant
            i <= n,
            n == snap.tables.len(),
            forall|k: int|
                0 <= k < names@.len() ==> #[trigger] crate::models::lookup_table(
                    snap@,
                    names@[k]@,
                ) is Some,
            forall|j: int|
                0 <= j < i ==> names@.map_values(|s2: String| s2@).contains(
                    #[trigger] snap@[j].0,
                ),
            names_sorted(names@.map_values(|s2: String| s2@)),
            names@.map_values(|s2: String| s2@) == sorted_names_model(snap@.take(i as int)),
        decreases n - i,
    {
        let name = snap.tables[i].0.clone();
        let ghost gname: Seq<char> = name@;
        proof {
            assert(snap@[i as int] == (snap.tables@[i as int].0@, snap.tables@[
                i as int
            ].1@.map_values(|rec: Record| rec@)));
            lemma_lookup_table_some(snap@, i as int);
        }
        let mut p: usize = 0;
        while p < names.len() && crate::strings::str_lt(names[p].as_str(), name.as_str())
            invariant
                p <= names.len(),
                gname == name@,
                forall|j: int| 0 <= j < p ==> lex_lt(names@[j]@, gname),
            decreases names.len() - p,
        {
            p = p + 1;
        }
        proof {
            assert(p < names.len() ==> !lex_lt(names@[p as int]@, gname));
        }
        let ghost prev = names@.map_values(|s2: String| s2@);
        let ghost old_names = names@;
        names.insert(p, name);
        proof {
            let nv = names@.map_values(|s2: String| s2@);
            assert(nv =~~= prev.insert(p as int, gname));
            lemma_insert_name_split(prev, gname, p as int);
            assert(nv =~~= prev.take(p as int) + (seq![gname] + prev.skip(p as int)));
            assert(nv == insert_name(prev, gname));
            assert(snap@.take(i + 1).drop_last() =~= snap@.take(i as int));
            assert(snap@.take(i + 1).last() == snap@[i as int]);
            assert(nv == sorted_names_model(snap@.take(i + 1)));
            assert forall|k: int|
                0 <= k < names@.len() implies #[trigger] crate::models::lookup_table(
                snap@,
                names@[k]@,
            ) is Some by {
                assert(names@[k]@ == nv[k]);
                if k != p {
                    let k0: int = if k < p {
                        k
                    } else {
                        k - 1
                    };
                    assert(nv[k] == prev[k0]);
                    assert(prev[k0] == old_names[k0]@);
                }
            }
            assert forall|j: int| 0 <= j < i + 1 implies nv.contains(#[trigger] snap@[j].0) by {
                if j < i {
                    lemma_seq_insert_contains(prev, p as int, gname, snap@[j].0);
                } else {
                    assert(nv[p as int] == gname);
                }
            }
            assert forall|k1: int, k2: int| 0 <= k1 < k2 < nv.len() implies !lex_lt(
                nv[k2],
                nv[k1],
            ) by {
                assert(forall|m: int| 0 <= m < p ==> #[trigger] nv[m] == prev[m]);
                assert(forall|m: int| p < m < nv.len() ==> #[trigger] nv[m] == prev[m - 1]);
                assert(nv[p as int] == gname);
                if k1 != p && k2 != p {
                    let m1: int = if k1 < p { k1 } else { k1 - 1 };
                    let m2: int = if k2 < p { k2 } else { k2 - 1 };
                    assert(!lex_lt(prev[m2], prev[m1]));
                } else if k2 == p {
                    // an earlier entry orders below the new name
                    assert(lex_lt(prev[k1], gname));
                    if lex_lt(gname, prev[k1]) {
                        crate::record::lemma_lex_lt_trans(prev[k1], gname, prev[k1]);
                        crate::record::lemma_lex_lt_irrefl(prev[k1]);
                    }
                } else {
                    // the new name orders no higher than any later entry
                    if lex_lt(prev[k2 - 1], gname) {
                        if p < prev.len() {
                            assert(!lex_lt(prev[p as int], gname));
                            assert(!lex_lt(prev[k2 - 1], prev[p as int]));
                            crate::record::lemma_lex_lt_total(prev[p as int], prev[k2 - 1]);
                            if prev[p as int] == prev[k2 - 1] {
                                assert(lex_lt(prev[p as int], gname));
                                assert(false);
                            } else {
                                assert(lex_lt(prev[p as int], prev[k2 - 1]));
                                crate::record::lemma_lex_lt_trans(
                                    prev[p as int],
                                    prev[k2 - 1],
                                    gname,
                                );
                                assert(false);
                            }
                        } else {
                            assert(k2 - 1 < prev.len());
                            assert(false);
                        }
                    }
                }
            }
        }
        i = i + 1;
    }
    proof {
        assert(snap@.take(n as int) =~= snap@);
    }
    names
}

/// The text a side holds for an identity: empty for a missing side.
pub open spec fn text_or_empty(v: Option<Seq<char>>) -> Seq<char> {
    match v {
        Option::Some(t) => t,
        Option::None => Seq::empty(),
    }
}

/// The changed identities of one table, in report order: removed,
/// then added, then modified.
pub open spec fn changed_ids(bm: IdEntries, am: IdEntries) -> Seq<Seq<char>> {
    only_in(bm, am) + only_in(am, bm) + changed_keys(bm, am)
}

/// The sink calls for a run of changed identities: one diff section
/// per identity, rendered by the sink from the identity's before and
/// after serialized texts (empty for a missing side).
pub open spec fn id_section_events<O: OutputAdapter>(
    bm: IdEntries,
    am: IdEntries,
    ids: Seq<Seq<char>>,
) -> Seq<OutputEvent>
    decreases ids.len(),
{
    if ids.len() == 0 {
        Seq::empty()
    } else {
        let pair = O::rendered_diff(
            text_or_empty(lookup_id(bm, ids[0])),
            text_or_empty(lookup_id(am, ids[0])),
        );
        seq![OutputEvent::DiffSection(pair.0, pair.1)] + id_section_events::<O>(
            bm,
            am,
            ids.skip(1),
        )
    }
}

/// The sink calls for one table: nothing for an unchanged table, else
/// a titled section with one diff per changed identity.
pub open spec fn table_events<O: OutputAdapter>(
    b: SnapshotModel,
    a: SnapshotModel,
    name: Seq<char>,
) -> Seq<OutputEvent> {
    match crate::models::lookup_table(b, name) {
        Option::Some(t) => {
            let bm = json_map_model(t);
            let am = json_map_model(after_records(a, name));
            if changed_ids(bm, am).len() == 0 {
                Seq::empty()
            } else {
                seq![OutputEvent::Title(name)] + id_section_events::<O>(bm, am, changed_ids(bm, am))
                    + seq![OutputEvent::CloseSection]
            }
        },
        Option::None => Seq::empty(),
    }
}

/// The sink calls for a run over the given table names, in order.
pub open spec fn tables_events<O: OutputAdapter>(
    b: SnapshotModel,
    a: SnapshotModel,
    names: Seq<Seq<char>>,
) -> Seq<OutputEvent>
    decreases names.len(),
{
    if names.len() == 0 {
        Seq::empty()
    } else {
        table_events::<O>(b, a, names[0]) + tables_events::<O>(b, a, names.skip(1))
    }
}

/// The sink calls of a whole diff run: the start, the changed tables
/// in ascending name order, the no-changes message exactly when
/// nothing changed, and the end.
pub open spec fn report_events<O: OutputAdapter>(
    b: SnapshotModel,
    a: SnapshotModel,
) -> Seq<OutputEvent> {
    seq![OutputEvent::Start] + tables_events::<O>(b, a, sorted_names_model(b)) + (if db_has_changes(
        b,
        a,
    ) {
        Seq::empty()
    } else {
        seq![OutputEvent::NoDiff]
    }) + seq![OutputEvent::End]
}

proof fn lemma_id_events_concat<O: OutputAdapter>(
    bm: IdEntries,
    am: IdEntries,
    ids1: Seq<Seq<char>>,
    ids2: Seq<Seq<char>>,
)
    ensures
        id_section_events::<O>(bm, am, ids1 + ids2) == id_section_events::<O>(bm, am, ids1)
            + id_section_events::<O>(bm, am, ids2),
    decreases ids1.len(),
{
    if ids1.len() == 0 {
        assert(ids1 + ids2 =~= ids2);
        assert(id_section_events::<O>(bm, am, ids1) + id_section_events::<O>(bm, am, ids2)
            =~= id_section_events::<O>(bm, am, ids2));
    } else {
        lemma_id_events_concat::<O>(bm, am, ids1.skip(1), ids2);
        assert((ids1 + ids2)[0] == ids1[0]);
        assert((ids1 + ids2).skip(1) =~= ids1.skip(1) + ids2);
        assert(id_section_events::<O>(bm, am, ids1 + ids2) =~= id_section_events::<O>(
            bm,
            am,
            ids1,
        ) + id_section_events::<O>(bm, am, ids2));
    }
}

proof fn lemma_tables_events_step<O: OutputAdapter>(
    b: SnapshotModel,
    a: SnapshotModel,
    names: Seq<Seq<char>>,
    i: int,
)
    requires
        0 <= i < names.len(),
    ensures
        tables_events::<O>(b, a, names.take(i + 1)) == tables_events::<O>(b, a, names.take(i))
            + table_events::<O>(b, a, names[i]),
    decreases i,
{
    if i == 0 {
        assert(names.take(1) =~= seq![names[0]]);
        assert(names.take(0) =~= Seq::<Seq<char>>::empty());
        assert(names.take(1).skip(1) =~= Seq::<Seq<char>>::empty());
        assert(tables_events::<O>(b, a, names.take(1)) =~= tables_events::<O>(b, a, names.take(0))
            + table_events::<O>(b, a, names[0]));
    } else {
        lemma_tables_events_step::<O>(b, a, names.skip(1), i - 1);
        assert(names.take(i + 1).skip(1) =~= names.skip(1).take(i));
        assert(names.take(i).skip(1) =~= names.skip(1).take(i - 1));
        assert(names.take(i + 1)[0] == names[0]);
        assert(names.take(i)[0] == names[0]);
        assert(names.skip(1)[i - 1] == names[i]);
        assert(tables_events::<O>(b, a, names.take(i + 1)) =~= tables_events::<O>(
            b,
            a,
            names.take(i),
        ) + table_events::<O>(b, a, names[i]));
    }
}

/// Core database diff logic: compares two snapshots table by table
/// and writes the report through the output adapter.
pub struct DbDiff<O: OutputAdapter> {
    output_adapter: O,
}

impl<O: OutputAdapter> DbDiff<O> {
    /// The output adapter this run writes through.
    pub closed spec fn adapter(&self) -> O {
        self.output_adapter
    }

    /// Creates a new diff run around an output adapter.
    pub fn new(output_adapter: O) -> (r: Self)
        ensures
            r.adapter() == output_adapter,
    {
        Self { output_adapter }
    }

    /// Hands the output adapter back, with the report it accumulated.
    pub fn into_output_adapter(self) -> (r: O)
        ensures
            r == self.adapter(),
    {
        self.output_adapter
    }

    /// Writes one rendered diff section for each identity in `ids`:
    /// the sink renders the identity's before and after serialized
    /// texts, an empty text standing in for a missing side.
    fn write_id_sections(
        out: &mut O,
        ids: &Vec<String>,
        before_map: &IdMap,
        after_map: &IdMap,
    ) -> (r: Result<(), DbbaError>)
        ensures
            O::obeys_infallible() ==> r is Ok,
            r is Ok ==> final(out).events() == old(out).events() + id_section_events::<O>(
                before_map@,
                after_map@,
                ids@.map_values(|s2: String| s2@),
            ),
    {
        let ghost bm: IdEntries = before_map@;
        let ghost am: IdEntries = after_map@;
        let ghost idsv: Seq<Seq<char>> = ids@.map_values(|s2: String| s2@);
        let n = ids.len();
        let mut i: usize = 0;
        proof {
            assert(idsv.take(0) =~= Seq::<Seq<char>>::empty());
            assert(old(out).events() + id_section_events::<O>(bm, am, idsv.take(0)) =~= old(
                out,
            ).events());
        }
        while i < n
            invariant
                i <= n,
                n == ids.len(),
                bm == before_map@,
                am == after_map@,
                idsv == ids@.map_values(|s2: String| s2@),
                out.events() == old(out).events() + id_section_events::<O>(bm, am, idsv.take(
                    i as int,
                )),
            decreases n - i,
        {
            proof {
                assert(idsv[i as int] == ids@[i as int]@);
                reveal_strlit("");
                assert(""@ =~= Seq::<char>::empty());
            }
            let left: &str = match before_map.get(ids[i].as_str()) {
                Some(v) => v.as_str(),
                None => "",
            };
            let right: &str = match after_map.get(ids[i].as_str()) {
                Some(v) => v.as_str(),
                None => "",
            };
            proof {
                assert(left@ == text_or_empty(lookup_id(bm, idsv[i as int])));
                assert(right@ == text_or_empty(lookup_id(am, idsv[i as int])));
            }
            let (left_html, right_html) = out.generate_diff(left, right);
            let res = out.write_diff_section(left_html.as_str(), right_html.as_str());
            if res.is_err() {
                return res;
            }
            proof {
                let pair = O::rendered_diff(left@, right@);
                assert(idsv.take(i + 1) =~= idsv.take(i as int) + seq![idsv[i as int]]);
                lemma_id_events_concat::<O>(bm, am, idsv.take(i as int), seq![idsv[i as int]]);
                assert(seq![idsv[i as int]].skip(1) =~= Seq::<Seq<char>>::empty());
                assert(seq![idsv[i as int]][0] == idsv[i as int]);
                assert(pair == O::rendered_diff(
                    text_or_empty(lookup_id(bm, idsv[i as int])),
                    text_or_empty(lookup_id(am, idsv[i as int])),
                ));
                assert(id_section_events::<O>(bm, am, seq![idsv[i as int]]) == seq![
                    OutputEvent::DiffSection(pair.0, pair.1),
                ] + id_section_events::<O>(bm, am, seq![idsv[i as int]].skip(1)));
                assert(id_section_events::<O>(bm, am, seq![idsv[i as int]]) =~~= seq![
                    OutputEvent::DiffSection(pair.0, pair.1),
                ]);
                assert(out.events() =~= old(out).events() + id_section_events::<O>(
                    bm,
                    am,
                    idsv.take(i + 1),
                ));
            }
            i = i + 1;
        }
        proof {
            assert(idsv.take(n as int) =~= idsv);
        }
        Ok(())
    }

    /// Runs the diff of two snapshots: for each table of the before
    /// snapshot, in ascending name order, detects the changed
    /// identities and writes a titled section with one rendered
    /// before/after pair per changed record; writes the no-changes
    /// message instead when nothing changed; reports whether anything
    /// changed at all. On success the sink has accepted exactly the
    /// calls of `report_events`, in that order; with a sink that
    /// never fails, the run succeeds.
    pub fn execute(
        &mut self,
        before: &DatabaseSnapshot,
        after: &DatabaseSnapshot,
    ) -> (r: Result<bool, DbbaError>)
        ensures
            O::obeys_infallible() ==> r is Ok,
            r matches Ok(h) ==> h == db_has_changes(before@, after@),
            r is Ok ==> final(self).adapter().events() == old(self).adapter().events()
                + report_events::<O>(before@, after@),
    {
        let names = sorted_table_names(before);
        let ghost nv: Seq<Seq<char>> = names@.map_values(|s2: String| s2@);
        let res = self.output_adapter.start_output();
        if res.is_err() {
            return Err(res.unwrap_err());
        }
        let ghost base: Seq<OutputEvent> = old(self).output_adapter.events();
        let empty_records: Vec<Record> = Vec::new();
        let mut has_changes = false;
        let n = names.len();
        let mut i: usize = 0;
        proof {
            assert(nv.take(0) =~= Seq::<Seq<char>>::empty());
            assert(self.output_adapter.events() =~= base + seq![OutputEvent::Start]
                + tables_events::<O>(before@, after@, nv.take(0)));
        }
        while i < n
            invariant
                i <= n,
                n == names.len(),
                nv == names@.map_values(|s2: String| s2@),
                base == old(self).output_adapter.events(),
                forall|k: int|
                    0 <= k < names@.len() ==> #[trigger] crate::models::lookup_table(
                        before@,
                        names@[k]@,
                    ) is Some,
                empty_records@.len() == 0,
                has_changes == exists|j: int|
                    0 <= j < i && #[trigger] name_changed(before@, after@, nv[j]),
                self.output_adapter.events() == base + seq![OutputEvent::Start]
                    + tables_events::<O>(before@, after@, nv.take(i as int)),
            decreases n - i,
        {
            proof {
                assert(nv[i as int] == names@[i as int]@);
            }
            let ghost ev0: Seq<OutputEvent> = self.output_adapter.events();
            let before_records = match before.get_table(names[i].as_str()) {
                Some(t) => t,
                None => {
                    proof {
                        assert(false);
                    }
                    &empty_records
                },
            };
            let after_found = after.get_table(names[i].as_str());
            let after_recs = match after_found {
                Some(t) => t,
                None => &empty_records,
            };
            let ghost brecs: TableModel = before_records@.map_values(|rec: Record| rec@);
            let ghost arecs: TableModel = after_recs@.map_values(|rec: Record| rec@);
            proof {
                assert(crate::models::lookup_table(before@, nv[i as int]) == Option::Some(brecs));
                if after_found is None {
                    assert(arecs =~= Seq::<RecordModel>::empty());
                    assert(after_records(after@, nv[i as int]) =~= arecs);
                } else {
                    assert(after_records(after@, nv[i as int]) == arecs);
                }
            }
            let before_map = records_to_json_map(before_records);
            let after_map = records_to_json_map(after_recs);
            let changes = detect_changes(&before_map, &after_map);
            let ghost bmv: IdEntries = before_map@;
            let ghost amv: IdEntries = after_map@;
            let ghost d: Seq<Seq<char>> = changes.deleted_ids@.map_values(|s2: String| s2@);
            let ghost ad: Seq<Seq<char>> = changes.added_ids@.map_values(|s2: String| s2@);
            let ghost m: Seq<Seq<char>> = changes.modified_ids@.map_values(|s2: String| s2@);
            proof {
                assert(d.len() == changes.deleted_ids@.len());
                assert(ad.len() == changes.added_ids@.len());
                assert(m.len() == changes.modified_ids@.len());
                assert(bmv == json_map_model(brecs));
                assert(amv == json_map_model(after_records(after@, nv[i as int])));
                assert(changed_ids(bmv, amv) == (d + ad) + m);
                assert(changes.spec_has_changes() == table_has_changes(brecs, arecs));
                assert(name_changed(before@, after@, nv[i as int]) == table_has_changes(
                    brecs,
                    arecs,
                ));
            }
            if changes.has_changes() {
                has_changes = true;
                let res2 = self.output_adapter.write_title(names[i].as_str());
                if res2.is_err() {
                    return Err(res2.unwrap_err());
                }
                let ghost ev1: Seq<OutputEvent> = self.output_adapter.events();
                let res3 = Self::write_id_sections(
                    &mut self.output_adapter,
                    &changes.deleted_ids,
                    &before_map,
                    &after_map,
                );
                if res3.is_err() {
                    return Err(res3.unwrap_err());
                }
                let ghost ev2: Seq<OutputEvent> = self.output_adapter.events();
                let res4 = Self::write_id_sections(
                    &mut self.output_adapter,
                    &changes.added_ids,
                    &before_map,
                    &after_map,
                );
                if res4.is_err() {
                    return Err(res4.unwrap_err());
                }
                let ghost ev3: Seq<OutputEvent> = self.output_adapter.events();
                let res5 = Self::write_id_sections(
                    &mut self.output_adapter,
                    &changes.modified_ids,
                    &before_map,
                    &after_map,
                );
                if res5.is_err() {
                    return Err(res5.unwrap_err());
                }
                let res6 = self.output_adapter.close_section();
                if res6.is_err() {
                    return Err(res6.unwrap_err());
                }
                proof {
                    assert(name_changed(before@, after@, nv[i as int]));
                    assert(changed_ids(bmv, amv).len() > 0);
                    assert(ev1 == ev0.push(OutputEvent::Title(nv[i as int])));
                    assert(ev2 == ev1 + id_section_events::<O>(bmv, amv, d));
                    assert(ev3 == ev2 + id_section_events::<O>(bmv, amv, ad));
                    lemma_id_events_concat::<O>(bmv, amv, d + ad, m);
                    lemma_id_events_concat::<O>(bmv, amv, d, ad);
                    assert(id_section_events::<O>(bmv, amv, changed_ids(bmv, amv))
                        == (id_section_events::<O>(bmv, amv, d) + id_section_events::<O>(
                        bmv,
                        amv,
                        ad,
                    )) + id_section_events::<O>(bmv, amv, m));
                    assert(table_events::<O>(before@, after@, nv[i as int]) == seq![
                        OutputEvent::Title(nv[i as int]),
                    ] + id_section_events::<O>(bmv, amv, changed_ids(bmv, amv)) + seq![
                        OutputEvent::CloseSection,
                    ]);
                    assert(self.output_adapter.events() =~= ev0 + table_events::<O>(
                        before@,
                        after@,
                        nv[i as int],
                    ));
                    lemma_tables_events_step::<O>(before@, after@, nv, i as int);
                    assert(self.output_adapter.events() =~= base + seq![OutputEvent::Start]
                        + tables_events::<O>(before@, after@, nv.take(i + 1)));
                }
            } else {
                proof {
                    assert(!name_changed(before@, after@, nv[i as int]));
                    assert forall|j: int|
                        0 <= j < i + 1 && #[trigger] name_changed(
                            before@,
                            after@,
                            nv[j],
                        ) implies j < i by {}
                    assert(changed_ids(bmv, amv).len() == 0);
                    assert(table_events::<O>(before@, after@, nv[i as int])
                        =~= Seq::<OutputEvent>::empty());
                    lemma_tables_events_step::<O>(before@, after@, nv, i as int);
                    assert(self.output_adapter.events() =~= base + seq![OutputEvent::Start]
                        + tables_events::<O>(before@, after@, nv.take(i + 1)));
                }
            }
            i = i + 1;
        }
        proof {
            assert(nv.take(n as int) =~= nv);
            if has_changes {
                let j = choose|j: int|
                    0 <= j < n && #[trigger] name_changed(before@, after@, nv[j]);
                lemma_lookup_table_exists(before@, nv[j]);
                let t = choose|t: int| 0 <= t < before@.len() && before@[t].0 == nv[j];
                assert(name_changed(before@, after@, before@[t].0));
                assert(db_has_changes(before@, after@));
            }
            if db_has_changes(before@, after@) {
                let t = choose|t: int|
                    0 <= t < before@.len() && #[trigger] name_changed(
                        before@,
                        after@,
                        before@[t].0,
                    );
                assert(nv.contains(before@[t].0));
                let k = choose|k: int| 0 <= k < nv.len() && nv[k] == before@[t].0;
                assert(name_changed(before@, after@, nv[k]));
                assert(has_changes);
            }
            assert(has_changes == db_has_changes(before@, after@));
        }
        let ghost evl: Seq<OutputEvent> = self.output_adapter.events();
        if !has_changes {
            let res7 = self.output_adapter.write_no_diff_message();
            if res7.is_err() {
                return Err(res7.unwrap_err());
            }
        }
        let res8 = self.output_adapter.end_output();
        if res8.is_err() {
            return Err(res8.unwrap_err());
        }
        proof {
            assert(nv == sorted_names_model(before@));
            if has_changes {
                assert(self.output_adapter.events() =~= base + report_events::<O>(
                    before@,
                    after@,
                ));
            } else {
                assert(self.output_adapter.events() == evl.push(OutputEvent::NoDiff).push(
                    OutputEvent::End,
                ));
                assert(self.output_adapter.events() =~= base + report_events::<O>(
                    before@,
                    after@,
                ));
            }
        }
        Ok(has_changes)
    }
}


/// With unique identities, lookup at a position's own identity yields
/// that position's text.
pub proof fn lemma_lookup_id_index(e: IdEntries, i: int)
    requires
        unique_ids(e),
        0 <= i < e.len(),
    ensures
        lookup_id(e, e[i].0) == Option::Some(e[i].1),
    decreases i,
{
    if i == 0 {
    } else {
        assert(e[0].0 != e[i].0);
        assert(unique_ids(e.skip(1))) by {
            assert(forall|x: int, y: int|
                0 <= x < y < e.skip(1).len() ==> e.skip(1)[x] == e[x + 1] && e.skip(1)[y] == e[y
                    + 1]);
        }
        lemma_lookup_id_index(e.skip(1), i - 1);
        assert(e.skip(1)[i - 1] == e[i]);
    }
}

/// An identity that lookup finds belongs to some position, and the
/// other way round.
pub proof fn lemma_lookup_id_exists(e: IdEntries, k: Seq<char>)
    ensures
        has_id(e, k) <==> exists|i: int| 0 <= i < e.len() && e[i].0 == k,
    decreases e.len(),
{
    if e.len() > 0 {
        lemma_lookup_id_exists(e.skip(1), k);
        if e[0].0 == k {
            assert(e[0].0 == k && 0 < e.len());
        } else if has_id(e, k) {
            let j = choose|j: int| 0 <= j < e.skip(1).len() && e.skip(1)[j].0 == k;
            assert(e[j + 1].0 == k);
        } else if exists|i: int| 0 <= i < e.len() && e[i].0 == k {
            let i = choose|i: int| 0 <= i < e.len() && e[i].0 == k;
            assert(i > 0);
            assert(e.skip(1)[i - 1].0 == k);
        }
    }
}

proof fn lemma_id_push_contains(s: Seq<Seq<char>>, x: Seq<char>, y: Seq<char>)
    ensures
        s.push(x).contains(y) <==> (s.contains(y) || x == y),
{
    assert(s.push(x)[s.len() as int] == x);
    if s.contains(y) {
        let j = choose|j: int| 0 <= j < s.len() && s[j] == y;
        assert(s.push(x)[j] == y);
    }
    if s.push(x).contains(y) && x != y {
        let j = choose|j: int| 0 <= j < s.push(x).len() && s.push(x)[j] == y;
        assert(j < s.len());
        assert(s[j] == y);
    }
}

/// Looking past the last entry changes nothing when the last entry's
/// identity is another.
proof fn lemma_lookup_id_drop_last(e: IdEntries, k: Seq<char>)
    requires
        e.len() > 0,
        e.last().0 != k,
    ensures
        lookup_id(e, k) == lookup_id(e.drop_last(), k),
    decreases e.len(),
{
    if e.len() == 1 {
        assert(e.drop_last() =~= Seq::<(Seq<char>, Seq<char>)>::empty());
    } else if e[0].0 == k {
        assert(e.drop_last()[0] == e[0]);
    } else {
        assert(e.skip(1).last() == e.last());
        lemma_lookup_id_drop_last(e.skip(1), k);
        assert(e.skip(1).drop_last() =~= e.drop_last().skip(1));
        assert(e.drop_last().len() > 0);
        assert(e.drop_last()[0] == e[0]);
        assert(lookup_id(e, k) == lookup_id(e.skip(1), k));
        assert(lookup_id(e.drop_last(), k) == lookup_id(e.drop_last().skip(1), k));
    }
}

/// Membership in the removed identities: present before, absent
/// after.
pub proof fn lemma_only_in_contains(b: IdEntries, a: IdEntries, k: Seq<char>)
    ensures
        only_in(b, a).contains(k) <==> (has_id(b, k) && !has_id(a, k)),
    decreases b.len(),
{
    lemma_lookup_id_exists(b, k);
    if b.len() > 0 {
        lemma_only_in_contains(b.drop_last(), a, k);
        lemma_lookup_id_exists(b.drop_last(), k);
        let pre = only_in(b.drop_last(), a);
        if lookup_id(a, b.last().0) is None {
            lemma_id_push_contains(pre, b.last().0, k);
        }
        if has_id(b, k) && !has_id(a, k) {
            let i = choose|i: int| 0 <= i < b.len() && b[i].0 == k;
            if i < b.len() - 1 {
                assert(b.drop_last()[i].0 == k);
            } else {
                assert(b.last().0 == k);
            }
        }
        if only_in(b, a).contains(k) && !(lookup_id(a, b.last().0) is None) {
            assert(only_in(b, a) == pre);
        }
    }
}

/// Membership in the modified identities: present on both sides with
/// texts that differ.
pub proof fn lemma_changed_contains(b: IdEntries, a: IdEntries, k: Seq<char>)
    requires
        unique_ids(b),
    ensures
        changed_keys(b, a).contains(k) <==> (has_id(b, k) && has_id(a, k) && lookup_id(b, k)
            != lookup_id(a, k)),
    decreases b.len(),
{
    lemma_lookup_id_exists(b, k);
    if b.len() > 0 {
        assert(unique_ids(b.drop_last())) by {
            assert(forall|x: int|
                0 <= x < b.drop_last().len() ==> b.drop_last()[x] == b[x]);
        }
        lemma_changed_contains(b.drop_last(), a, k);
        lemma_lookup_id_exists(b.drop_last(), k);
        let pre = changed_keys(b.drop_last(), a);
        let lastk = b.last().0;
        if lastk == k {
            lemma_lookup_id_index(b, b.len() - 1);
            assert(lookup_id(b, k) == Option::Some(b.last().1));
            assert(!has_id(b.drop_last(), k)) by {
                lemma_lookup_id_exists(b.drop_last(), k);
                if exists|i: int| 0 <= i < b.drop_last().len() && b.drop_last()[i].0 == k {
                    let i = choose|i: int|
                        0 <= i < b.drop_last().len() && b.drop_last()[i].0 == k;
                    assert(b[i].0 == b[b.len() - 1].0);
                    assert(false);
                }
            }
            match lookup_id(a, lastk) {
                Option::Some(v) => {
                    if v != b.last().1 {
                        lemma_id_push_contains(pre, lastk, k);
                    }
                },
                Option::None => {},
            }
        } else {
            lemma_lookup_id_drop_last(b, k);
            match lookup_id(a, lastk) {
                Option::Some(v) => {
                    if v != b.last().1 {
                        lemma_id_push_contains(pre, lastk, k);
                    }
                },
                Option::None => {},
            }
            if has_id(b, k) && has_id(a, k) && lookup_id(b, k) != lookup_id(a, k) {
                let i = choose|i: int| 0 <= i < b.len() && b[i].0 == k;
                assert(i < b.len() - 1);
                assert(b.drop_last()[i].0 == k);
            }
        }
    }
}

proof fn lemma_only_in_all_present(b: IdEntries, a: IdEntries)
    requires
        forall|i: int| 0 <= i < b.len() ==> has_id(a, #[trigger] b[i].0),
    ensures
        only_in(b, a).len() == 0,
    decreases b.len(),
{
    if b.len() > 0 {
        assert(forall|i: int|
            0 <= i < b.drop_last().len() ==> #[trigger] b.drop_last()[i] == b[i]);
        lemma_only_in_all_present(b.drop_last(), a);
    }
}

proof fn lemma_changed_none_when_equal(b: IdEntries, a: IdEntries)
    requires
        forall|i: int|
            0 <= i < b.len() ==> lookup_id(a, #[trigger] b[i].0) == Option::Some(b[i].1),
    ensures
        changed_keys(b, a).len() == 0,
    decreases b.len(),
{
    if b.len() > 0 {
        assert(forall|i: int|
            0 <= i < b.drop_last().len() ==> #[trigger] b.drop_last()[i] == b[i]);
        lemma_changed_none_when_equal(b.drop_last(), a);
    }
}

/// Comparing a table side against itself finds nothing: no removed,
/// no added, no modified identities.
pub proof fn lemma_detect_identical(e: IdEntries)
    requires
        unique_ids(e),
    ensures
        only_in(e, e).len() == 0,
        changed_keys(e, e).len() == 0,
{
    assert forall|i: int| 0 <= i < e.len() implies lookup_id(e, #[trigger] e[i].0)
        == Option::Some(e[i].1) by {
        lemma_lookup_id_index(e, i);
    }
    lemma_only_in_all_present(e, e);
    lemma_changed_none_when_equal(e, e);
}

/// Present on both sides with the same text.
pub open spec fn unchanged_id(b: IdEntries, a: IdEntries, k: Seq<char>) -> bool {
    has_id(b, k) && has_id(a, k) && lookup_id(b, k) == lookup_id(a, k)
}

/// Partition law: every identity present on either side falls in
/// exactly one of removed (`only_in(b, a)`), added (`only_in(a, b)`),
/// modified (`changed_keys(b, a)`) or unchanged; never in two.
pub proof fn lemma_detect_partition(b: IdEntries, a: IdEntries, k: Seq<char>)
    requires
        unique_ids(b),
        unique_ids(a),
        has_id(b, k) || has_id(a, k),
    ensures
        only_in(b, a).contains(k) <==> (has_id(b, k) && !has_id(a, k)),
        only_in(a, b).contains(k) <==> (has_id(a, k) && !has_id(b, k)),
        changed_keys(b, a).contains(k) <==> (has_id(b, k) && has_id(a, k) && lookup_id(b, k)
            != lookup_id(a, k)),
        only_in(b, a).contains(k) || only_in(a, b).contains(k) || changed_keys(b, a).contains(k)
            || unchanged_id(b, a, k),
        !(only_in(b, a).contains(k) && only_in(a, b).contains(k)),
        !(only_in(b, a).contains(k) && changed_keys(b, a).contains(k)),
        !(only_in(b, a).contains(k) && unchanged_id(b, a, k)),
        !(only_in(a, b).contains(k) && changed_keys(b, a).contains(k)),
        !(only_in(a, b).contains(k) && unchanged_id(b, a, k)),
        !(changed_keys(b, a).contains(k) && unchanged_id(b, a, k)),
{
    lemma_only_in_contains(b, a, k);
    lemma_only_in_contains(a, b, k);
    lemma_changed_contains(b, a, k);
}

} // verus!
