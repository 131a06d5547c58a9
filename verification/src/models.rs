//! Data model: connection information, snapshots, and detected
//! changes.

use vstd::prelude::*;

use crate::record::{Record, RecordModel};
use crate::strings::{dec_of, push_char, push_u64_dec};

verus! {

/// Database connection information.
#[derive(Debug, Clone)]
pub struct DbInfo {
    pub host: String,
    pub port: u16,
    pub username: String,
    pub password: String,
    pub database: String,
    pub encoding: String,
}

impl DbInfo {
    pub fn new(
        host: String,
        port: u16,
        username: String,
        password: String,
        database: String,
        encoding: String,
    ) -> (r: Self)
        ensures
            r.host@ == host@,
            r.port == port,
            r.username@ == username@,
            r.password@ == password@,
            r.database@ == database@,
            r.encoding@ == encoding@,
    {
        Self { host, port, username, password, database, encoding }
    }

    /// The connection URL built from the fields.
    pub open spec fn url_model(self) -> Seq<char> {
        "mysql://"@ + self.username@ + seq![':'] + self.password@ + seq!['@'] + self.host@
            + seq![':'] + dec_of(self.port as nat) + seq!['/'] + self.database@ + "?charset="@
            + self.encoding@
    }

    /// Builds the MySQL connection URL.
    pub fn connection_url(&self) -> (r: String)
        ensures
            r@ == self.url_model(),
    {
        let mut s = String::from_str("mysql://");
        s.append(self.username.as_str());
        push_char(&mut s, ':');
        s.append(self.password.as_str());
        push_char(&mut s, '@');
        s.append(self.host.as_str());
        push_char(&mut s, ':');
        push_u64_dec(&mut s, self.port as u64);
        push_char(&mut s, '/');
        s.append(self.database.as_str());
        s.append("?charset=");
        s.append(self.encoding.as_str());
        assert(s@ =~= self.url_model());
        s
    }
}

/// Data of a single table: the normalized records in fetch order.
pub type TableData = Vec<Record>;

/// The model of one table's contents.
pub type TableModel = Seq<RecordModel>;

/// The model of a snapshot: table name / contents pairs in stored
/// order.
pub type SnapshotModel = Seq<(Seq<char>, TableModel)>;

/// A full database snapshot: every table's rows at one instant, built
/// once, immutable afterwards.
pub struct DatabaseSnapshot {
    pub tables: Vec<(String, TableData)>,
}

/// The table stored under a name, if any: the first pair with that
/// name.
pub open spec fn lookup_table(tables: SnapshotModel, name: Seq<char>) -> Option<TableModel>
    decreases tables.len(),
{
    if tables.len() == 0 {
        Option::None
    } else if tables[0].0 == name {
        Option::Some(tables[0].1)
    } else {
        lookup_table(tables.skip(1), name)
    }
}

impl View for DatabaseSnapshot {
    type V = SnapshotModel;

    open spec fn view(&self) -> SnapshotModel {
        self.tables@.map_values(
            |p: (String, TableData)| (p.0@, p.1@.map_values(|r: Record| r@)),
        )
    }
}

impl DatabaseSnapshot {
    /// Table names are unique.
    pub open spec fn wf(&self) -> bool {
        forall|i: int, j: int| 0 <= i < j < self@.len() ==> self@[i].0 != self@[j].0
    }

    pub fn new() -> (r: DatabaseSnapshot)
        ensures
            r.wf(),
            r@ == Seq::<(Seq<char>, TableModel)>::empty(),
    {
        let r = DatabaseSnapshot { tables: Vec::new() };
        proof {
            assert(r@ =~= Seq::<(Seq<char>, TableModel)>::empty());
        }
        r
    }

    /// Stores one table's rows. Each table is stored once, when its
    /// fetch completes.
    pub fn insert_table(&mut self, name: String, records: TableData)
        requires
            old(self).wf(),
            lookup_table(old(self)@, name@) is None,
        ensures
            final(self).wf(),
            final(self)@ == old(self)@.push((name@, records@.map_values(|r: Record| r@))),
    {
        let ghost orig: SnapshotModel = self@;
        let ghost gname: Seq<char> = name@;
        let ghost grecs: TableModel = records@.map_values(|r: Record| r@);
        proof {
            lemma_lookup_table_none_keys(orig, gname);
        }
        self.tables.push((name, records));
        proof {
            assert(self@ =~= orig.push((gname, grecs)));
        }
    }

    /// The rows of a table, if the snapshot holds it.
    pub fn get_table(&self, name: &str) -> (r: Option<&TableData>)
        ensures
            match r {
                Option::Some(t) => lookup_table(self@, name@) == Option::Some(
                    t@.map_values(|rec: Record| rec@),
                ),
                Option::None => lookup_table(self@, name@) is None,
            },
    {
        let n = self.tables.len();
        let mut i: usize = 0;
        proof {
            assert(self@.skip(0) =~= self@);
        }
        while i < n
            invariant
                i <= n,
                n == self.tables.len(),
                lookup_table(self@, name@) == lookup_table(self@.skip(i as int), name@),
            decreases n - i,
        {
            proof {
                assert(self@.skip(i as int)[0] == self@[i as int]);
                assert(self@.skip(i as int).skip(1) =~= self@.skip(i as int + 1));
            }
            if crate::strings::str_eq(self.tables[i].0.as_str(), name) {
                return Some(&self.tables[i].1);
            }
            i = i + 1;
        }
        proof {
            assert(self@.skip(n as int) =~= Seq::<(Seq<char>, TableModel)>::empty());
        }
        None
    }
}

/// A name that lookup does not find is missing from every entry.
pub proof fn lemma_lookup_table_none_keys(tables: SnapshotModel, name: Seq<char>)
    requires
        lookup_table(tables, name) is None,
    ensures
        forall|i: int| 0 <= i < tables.len() ==> tables[i].0 != name,
    decreases tables.len(),
{
    if tables.len() > 0 {
        lemma_lookup_table_none_keys(tables.skip(1), name);
        assert forall|i: int| 0 <= i < tables.len() implies tables[i].0 != name by {
            if i > 0 {
                assert(tables.skip(1)[i - 1] == tables[i]);
            }
        }
    }
}

/// Changes detected in one table: the three identity sets are
/// pairwise disjoint by construction.
#[derive(Debug, Clone)]
pub struct TableChanges {
    pub table_name: String,
    pub deleted_ids: Vec<String>,
    pub added_ids: Vec<String>,
    pub modified_ids: Vec<String>,
}

impl TableChanges {
    pub open spec fn spec_has_changes(&self) -> bool {
        self.deleted_ids@.len() > 0 || self.added_ids@.len() > 0 || self.modified_ids@.len() > 0
    }

    /// Whether any identity was removed, added or modified.
    pub fn has_changes(&self) -> (r: bool)
        ensures
            r == self.spec_has_changes(),
    {
        self.deleted_ids.len() > 0 || self.added_ids.len() > 0 || self.modified_ids.len() > 0
    }
}

/// All changes in the database, one entry per table.
#[derive(Debug, Clone)]
pub struct DatabaseChanges {
    pub tables: Vec<TableChanges>,
}

impl DatabaseChanges {
    pub fn new() -> (r: Self)
        ensures
            r.tables@.len() == 0,
    {
        Self { tables: Vec::new() }
    }

    pub open spec fn spec_has_changes(&self) -> bool {
        exists|i: int| 0 <= i < self.tables@.len() && self.tables@[i].spec_has_changes()
    }

    /// Whether any table changed.
    pub fn has_changes(&self) -> (r: bool)
        ensures
            r == self.spec_has_changes(),
    {
        let n = self.tables.len();
        let mut i: usize = 0;
        while i < n
            invariant
                i <= n,
                n == self.tables.len(),
                forall|j: int| 0 <= j < i ==> !self.tables@[j].spec_has_changes(),
            decreases n - i,
        {
            if self.tables[i].has_changes() {
                return true;
            }
            i = i + 1;
        }
        false
    }
}

impl Default for DatabaseChanges {
    fn default() -> (r: Self)
        ensures
            r.tables@.len() == 0,
    {
        Self::new()
    }
}

} // verus!
