use vstd::prelude::*;
use crate::error::DbError;
use crate::table::{names_unique, parts_valid, text_between, Predicate, Table, TableOp};
use crate::value::{ColumnDef, Value};

verus! {

/// A named collection of tables, in the order they were created.
pub struct Database {
    tables: Vec<(String, Table)>,
}

/// The root of the store: databases by name, the database selected with `USE` (by name, so it
/// may have been dropped since), and where snapshots are written, if anywhere.
pub struct Catalog {
    databases: Vec<(String, Database)>,
    current: Option<String>,
    path: Option<String>,
}

/// One parsed command.
pub enum Command {
    CreateDatabase(String),
    DropDatabase(String),
    Use(String),
    CreateTable(String, Vec<ColumnDef>),
    DropTable(String),
    AlterAdd(String, Vec<ColumnDef>),
    Insert(String, Vec<String>),
    Select(String, Option<Vec<String>>, Option<Predicate>),
    Update(String, Vec<(String, String)>, Option<Predicate>),
    Delete(String, Option<Predicate>),
    Exit,
    Empty,
}

/// What the session does after a command has run: write a snapshot, and whether to stop.
#[derive(PartialEq, Eq, Structural, Clone, Copy, Debug)]
pub struct Step {
    pub save: bool,
    pub exit: bool,
}

/// No two entries share a name.
pub open spec fn keys_unique<X>(e: Seq<(String, X)>) -> bool {
    forall|a: int, b: int|
        #![trigger e[a], e[b]]
        0 <= a < e.len() && 0 <= b < e.len() && a != b ==> e[a].0@ != e[b].0@
}

/// The position of the entry called `k`.
pub open spec fn key_index<X>(e: Seq<(String, X)>, k: Seq<char>) -> Option<int> {
    if exists|i: int| 0 <= i < e.len() && e[i].0@ == k {
        Some(choose|i: int| 0 <= i < e.len() && e[i].0@ == k)
    } else {
        None
    }
}

/// Finds the entry called `k`.
pub fn find_key<X>(e: &Vec<(String, X)>, k: &String) -> (r: Option<usize>)
    requires
        keys_unique(e@),
    ensures
        r.is_some() <==> key_index(e@, k@).is_some(),
        r.is_some() ==> r.unwrap() as int == key_index(e@, k@).unwrap(),
{
    let mut i: usize = 0;
    while i < e.len()
        invariant
            i <= e@.len(),
            keys_unique(e@),
            forall|q: int| 0 <= q < i ==> e@[q].0@ != k@,
        decreases e@.len() - i,
    {
        if e[i].0 == *k {
            proof {
                assert(e@[i as int].0@ == k@);
                assert(exists|q: int| 0 <= q < e@.len() && e@[q].0@ == k@);
                let c = choose|q: int| 0 <= q < e@.len() && e@[q].0@ == k@;
                assert(e@[c].0@ == k@);
                assert(c == i as int);
            }
            return Some(i);
        }
        i = i + 1;
    }
    None
}

/// What `op` on the table called `name` does to a database's tables `old`: they become `new`
/// and the result is `r`.
pub open spec fn table_applied(
    old: Seq<(String, Table)>,
    new: Seq<(String, Table)>,
    name: String,
    op: TableOp,
    r: Result<Option<String>, DbError>,
) -> bool {
    match key_index(old, name@) {
        None => r == Err::<Option<String>, DbError>(DbError::NotFound) && new == old,
        Some(t) => {
            &&& new == old.update(t, (old[t].0, new[t].1))
            &&& old[t].1.outcome(name, op, new[t].1, r)
        },
    }
}

/// What creating the table `name` with the header `header` does to a database's tables.
pub open spec fn table_created(
    old: Seq<(String, Table)>,
    new: Seq<(String, Table)>,
    name: String,
    header: Seq<ColumnDef>,
    r: Result<Option<String>, DbError>,
) -> bool {
    if key_index(old, name@).is_some() || !names_unique(header) {
        r == Err::<Option<String>, DbError>(DbError::AlreadyExists) && new == old
    } else {
        &&& new.len() == old.len() + 1
        &&& new.drop_last() == old
        &&& new.last().0 == name
        &&& new.last().1.header() == header
        &&& new.last().1.row_count() == 0
        &&& new.last().1.columns() == Seq::new(header.len(), |j: int| Seq::<Value>::empty())
        &&& r is Ok && r->Ok_0 is Some
        &&& r->Ok_0->Some_0@ == "Table "@ + name@ + " created."@
    }
}

/// What dropping the table `name` does to a database's tables.
pub open spec fn table_dropped(
    old: Seq<(String, Table)>,
    new: Seq<(String, Table)>,
    name: String,
    r: Result<Option<String>, DbError>,
) -> bool {
    match key_index(old, name@) {
        None => r == Err::<Option<String>, DbError>(DbError::NotFound) && new == old,
        Some(t) => {
            &&& new == old.remove(t)
            &&& r is Ok && r->Ok_0 is Some
            &&& r->Ok_0->Some_0@ == "Table "@ + name@ + " deleted."@
        },
    }
}

/// Whether the names in `e` are pairwise different.
fn unique_keys<X>(e: &Vec<(String, X)>) -> (r: bool)
    ensures
        r == keys_unique(e@),
{
    let mut a: usize = 0;
    while a < e.len()
        invariant
            a <= e@.len(),
            forall|x: int, y: int| #![trigger e@[x], e@[y]] 0 <= x < a && 0 <= y < e@.len() && x != y ==> e@[x].0@ != e@[y].0@,
        decreases e@.len() - a,
    {
        let mut b: usize = 0;
        while b < e.len()
            invariant
                a < e@.len(),
                b <= e@.len(),
                forall|x: int, y: int| #![trigger e@[x], e@[y]] 0 <= x < a && 0 <= y < e@.len() && x != y ==> e@[x].0@ != e@[y].0@,
                forall|y: int| 0 <= y < b && a != y ==> e@[a as int].0@ != #[trigger] e@[y].0@,
            decreases e@.len() - b,
        {
            if a != b && e[a].0 == e[b].0 {
                return false;
            }
            b = b + 1;
        }
        a = a + 1;
    }
    true
}

impl Database {
    /// The tables, in order of creation.
    pub closed spec fn view(&self) -> Seq<(String, Table)> {
        self.tables@
    }

    pub open spec fn well_formed(&self) -> bool {
        &&& keys_unique(self.view())
        &&& forall|i: int| 0 <= i < self.view().len() ==> (#[trigger] self.view()[i]).1.well_formed()
    }

    /// A database without tables.
    pub fn new() -> (d: Database)
        ensures
            d.view() == Seq::<(String, Table)>::empty(),
            d.well_formed(),
    {
        Database { tables: Vec::new() }
    }

    /// Carries out `op` on the table called `name`; fails with `NotFound` where there is none.
    pub fn apply(&mut self, name: &String, op: TableOp) -> (r: Result<Option<String>, DbError>)
        requires
            old(self).well_formed(),
        ensures
            final(self).well_formed(),
            table_applied(old(self).view(), final(self).view(), *name, op, r),
    {
        match find_key(&self.tables, name) {
            None => Err(DbError::NotFound),
            Some(t) => {
                let (tname, mut tab) = self.tables.remove(t);
                let r = tab.apply(name, op);
                self.tables.insert(t, (tname, tab));
                assert(self.tables@ =~= old(self).tables@.update(t as int, (tname, tab)));
                proof {
                    assert forall|a: int, b: int| 0 <= a < self.tables@.len() && 0 <= b < self.tables@.len() && a != b
                        implies #[trigger] self.tables@[a].0@ != #[trigger] self.tables@[b].0@ by {
                        assert(self.tables@[a].0 == old(self).tables@[a].0);
                        assert(self.tables@[b].0 == old(self).tables@[b].0);
                    }
                }
                r
            },
        }
    }

    /// Creates an empty table. Fails with `AlreadyExists` where the name is taken or where two
    /// of its columns share a name.
    pub fn create_table(&mut self, name: &String, header: Vec<ColumnDef>) -> (r: Result<Option<String>, DbError>)
        requires
            old(self).well_formed(),
        ensures
            final(self).well_formed(),
            table_created(old(self).view(), final(self).view(), *name, header@, r),
    {
        if find_key(&self.tables, name).is_some() {
            return Err(DbError::AlreadyExists);
        }
        let t = Table::new(header)?;
        proof {
            assert forall|q: int| 0 <= q < self.tables@.len() implies self.tables@[q].0@ != name@ by {}
        }
        self.tables.push((name.clone(), t));
        assert(self.tables@.drop_last() =~= old(self).tables@);
        Ok(Some(text_between("Table ", name, " created.")))
    }

    /// Removes the table called `name`; fails with `NotFound` where there is none.
    pub fn drop_table(&mut self, name: &String) -> (r: Result<Option<String>, DbError>)
        requires
            old(self).well_formed(),
        ensures
            final(self).well_formed(),
            table_dropped(old(self).view(), final(self).view(), *name, r),
    {
        match find_key(&self.tables, name) {
            None => Err(DbError::NotFound),
            Some(t) => {
                self.tables.remove(t);
                proof {
                    assert forall|a: int, b: int| 0 <= a < self.tables@.len() && 0 <= b < self.tables@.len() && a != b
                        implies #[trigger] self.tables@[a].0@ != #[trigger] self.tables@[b].0@ by {
                        let a0 = if a < t { a } else { a + 1 };
                        let b0 = if b < t { b } else { b + 1 };
                        assert(self.tables@[a] == old(self).tables@[a0]);
                        assert(self.tables@[b] == old(self).tables@[b0]);
                    }
                    assert forall|i: int| 0 <= i < self.tables@.len() implies (#[trigger] self.tables@[i]).1.well_formed() by {
                        let i0 = if i < t { i } else { i + 1 };
                        assert(self.tables@[i] == old(self).tables@[i0]);
                    }
                }
                Ok(Some(text_between("Table ", name, " deleted.")))
            },
        }
    }

    /// A database of the given tables, as a snapshot holds them; `None` where two share a name.
    pub fn from_tables(tables: Vec<(String, Table)>) -> (r: Option<Database>)
        requires
            forall|i: int| 0 <= i < tables@.len() ==> (#[trigger] tables@[i]).1.well_formed(),
        ensures
            r is Some <==> keys_unique(tables@),
            r is Some ==> r->Some_0.well_formed() && r->Some_0.view() == tables@,
    {
        if !unique_keys(&tables) {
            return None;
        }
        Some(Database { tables })
    }

    /// The tables, in order of creation.
    pub fn tables(&self) -> (r: &Vec<(String, Table)>)
        ensures
            r@ == self.view(),
    {
        &self.tables
    }
}

impl Catalog {
    /// The databases, in order of creation, each with its tables.
    pub closed spec fn dbs(&self) -> Seq<(String, Seq<(String, Table)>)> {
        Seq::new(self.databases@.len(), |i: int| (self.databases@[i].0, self.databases@[i].1.view()))
    }

    /// The name of the database selected with `USE`.
    pub closed spec fn current(&self) -> Option<String> {
        self.current
    }

    /// Where snapshots are written.
    pub closed spec fn path(&self) -> Option<String> {
        self.path
    }

    pub closed spec fn well_formed(&self) -> bool {
        &&& keys_unique(self.databases@)
        &&& forall|i: int| 0 <= i < self.databases@.len() ==> (#[trigger] self.databases@[i]).1.well_formed()
    }

    /// The position of the selected database, or why there is none.
    pub open spec fn active(&self) -> Result<int, DbError> {
        match self.current() {
            None => Err(DbError::NoActiveDatabase),
            Some(n) => match key_index(self.dbs(), n@) {
                None => Err(DbError::ActiveDatabaseMissing),
                Some(i) => Ok(i),
            },
        }
    }

    /// Every well-formed catalog has pairwise different database names, pairwise different table
    /// names in each database, and only well-formed tables.
    pub proof fn lemma_catalog_shape(&self)
        requires
            self.well_formed(),
        ensures
            keys_unique(self.dbs()),
            forall|d: int| 0 <= d < self.dbs().len() ==> keys_unique(#[trigger] self.dbs()[d].1),
            forall|d: int, t: int| 0 <= d < self.dbs().len() && 0 <= t < self.dbs()[d].1.len() ==>
                (#[trigger] self.dbs()[d].1[t]).1.well_formed(),
    {
        assert forall|a: int, b: int| 0 <= a < self.dbs().len() && 0 <= b < self.dbs().len() && a != b
            implies #[trigger] self.dbs()[a].0@ != #[trigger] self.dbs()[b].0@ by {
            assert(self.databases@[a].0@ != self.databases@[b].0@);
        }
        assert forall|d: int| 0 <= d < self.dbs().len() implies keys_unique(#[trigger] self.dbs()[d].1) by {
            assert(self.databases@[d].1.well_formed());
        }
        assert forall|d: int, t: int| 0 <= d < self.dbs().len() && 0 <= t < self.dbs()[d].1.len() implies
            (#[trigger] self.dbs()[d].1[t]).1.well_formed() by {
            assert(self.databases@[d].1.well_formed());
        }
    }

    /// What creating the database `name` does.
    pub open spec fn db_created(self, new: Catalog, name: String, r: Result<Option<String>, DbError>) -> bool {
        &&& new.current() == self.current()
        &&& new.path() == self.path()
        &&& r is Err <==> key_index(self.dbs(), name@).is_some()
        &&& r is Err ==> r->Err_0 == DbError::AlreadyExists && new.dbs() == self.dbs()
        &&& r is Ok ==> new.dbs() == self.dbs().push((name, Seq::<(String, Table)>::empty()))
                && r->Ok_0 is Some && r->Ok_0->Some_0@ == "Database "@ + name@ + " created."@
    }

    /// What dropping the database `name` does.
    pub open spec fn db_dropped(self, new: Catalog, name: String, r: Result<Option<String>, DbError>) -> bool {
        &&& new.current() == self.current()
        &&& new.path() == self.path()
        &&& match key_index(self.dbs(), name@) {
                None => r == Err::<Option<String>, DbError>(DbError::NotFound) && new.dbs() == self.dbs(),
                Some(d) => {
                    &&& new.dbs() == self.dbs().remove(d)
                    &&& r is Ok && r->Ok_0 is Some
                    &&& r->Ok_0->Some_0@ == "Database "@ + name@ + " deleted."@
                },
            }
    }

    /// What selecting the database `name` does.
    pub open spec fn db_used(self, new: Catalog, name: String, r: Result<Option<String>, DbError>) -> bool {
        &&& new.dbs() == self.dbs()
        &&& new.path() == self.path()
        &&& match key_index(self.dbs(), name@) {
                None => r == Err::<Option<String>, DbError>(DbError::NotFound) && new.current() == self.current(),
                Some(d) => {
                    &&& new.current() == Some(name)
                    &&& r is Ok && r->Ok_0 is Some
                    &&& r->Ok_0->Some_0@ == "Using database "@ + name@ + "."@
                },
            }
    }

    /// What creating the table `name` in the selected database does.
    pub open spec fn table_created_in(self, new: Catalog, name: String, header: Seq<ColumnDef>, r: Result<Option<String>, DbError>) -> bool {
        &&& new.current() == self.current()
        &&& new.path() == self.path()
        &&& match self.active() {
            Err(e) => r == Err::<Option<String>, DbError>(e) && new.dbs() == self.dbs(),
            Ok(d) => {
                &&& new.dbs() == self.dbs().update(d, (self.dbs()[d].0, new.dbs()[d].1))
                &&& table_created(self.dbs()[d].1, new.dbs()[d].1, name, header, r)
            },
        }
    }

    /// What dropping the table `name` of the selected database does.
    pub open spec fn table_dropped_in(self, new: Catalog, name: String, r: Result<Option<String>, DbError>) -> bool {
        &&& new.current() == self.current()
        &&& new.path() == self.path()
        &&& match self.active() {
            Err(e) => r == Err::<Option<String>, DbError>(e) && new.dbs() == self.dbs(),
            Ok(d) => {
                &&& new.dbs() == self.dbs().update(d, (self.dbs()[d].0, new.dbs()[d].1))
                &&& table_dropped(self.dbs()[d].1, new.dbs()[d].1, name, r)
            },
        }
    }

    /// What `op` on the table `name` of the selected database does.
    pub open spec fn applied_in(self, new: Catalog, name: String, op: TableOp, r: Result<Option<String>, DbError>) -> bool {
        &&& new.current() == self.current()
        &&& new.path() == self.path()
        &&& match self.active() {
            Err(e) => r == Err::<Option<String>, DbError>(e) && new.dbs() == self.dbs(),
            Ok(d) => {
                &&& new.dbs() == self.dbs().update(d, (self.dbs()[d].0, new.dbs()[d].1))
                &&& table_applied(self.dbs()[d].1, new.dbs()[d].1, name, op, r)
            },
        }
    }

    /// The parts of a well-formed catalog make it again: every table's parts pass
    /// `Table::from_parts` (one column per header entry, each of `row_count` values), the table
    /// names of each database pass `Database::from_tables`, and the database names pass
    /// `Catalog::from_parts`; a snapshot of it therefore loads back to the same databases, tables,
    /// headers and values, in order.
    pub proof fn lemma_snapshot_parts(&self)
        requires
            self.well_formed(),
        ensures
            keys_unique(self.dbs()),
            forall|d: int| 0 <= d < self.dbs().len() ==> keys_unique(#[trigger] self.dbs()[d].1),
            forall|d: int, t: int| 0 <= d < self.dbs().len() && 0 <= t < self.dbs()[d].1.len() ==> {
                let tab = (#[trigger] self.dbs()[d].1[t]).1;
                parts_valid(tab.header(), tab.columns(), tab.row_count())
            },
    {
        self.lemma_catalog_shape();
        assert forall|d: int, t: int| 0 <= d < self.dbs().len() && 0 <= t < self.dbs()[d].1.len() implies {
            let tab = (#[trigger] self.dbs()[d].1[t]).1;
            parts_valid(tab.header(), tab.columns(), tab.row_count())
        } by {
            self.dbs()[d].1[t].1.lemma_parts_round_trip();
        }
    }

    /// An empty catalog that writes its snapshots to `path`, if given.
    pub fn new(path: Option<String>) -> (c: Catalog)
        ensures
            c.well_formed(),
            c.dbs() == Seq::<(String, Seq<(String, Table)>)>::empty(),
            c.current() is None,
            c.path() == path,
    {
        let c = Catalog { databases: Vec::new(), current: None, path };
        assert(c.dbs() =~= Seq::<(String, Seq<(String, Table)>)>::empty());
        c
    }

    /// A catalog from its parts, as a snapshot holds them; `None` where two databases share a
    /// name.
    pub fn from_parts(databases: Vec<(String, Database)>, current: Option<String>, path: Option<String>) -> (r: Option<Catalog>)
        requires
            forall|i: int| 0 <= i < databases@.len() ==> (#[trigger] databases@[i]).1.well_formed(),
        ensures
            r is Some <==> keys_unique(databases@),
            r is Some ==> {
                let c = r->Some_0;
                &&& c.well_formed()
                &&& c.current() == current
                &&& c.path() == path
                &&& c.dbs() == Seq::new(databases@.len(), |i: int| (databases@[i].0, databases@[i].1.view()))
            },
    {
        if !unique_keys(&databases) {
            return None;
        }
        Some(Catalog { databases, current, path })
    }

    /// Creating a database under a name just created fails with `AlreadyExists`.
    pub proof fn lemma_create_twice(
        self,
        name: String,
        c2: Catalog,
        r1: Result<Option<String>, DbError>,
        c3: Catalog,
        r2: Result<Option<String>, DbError>,
    )
        requires
            self.db_created(c2, name, r1),
            r1 is Ok,
            c2.db_created(c3, name, r2),
        ensures
            r2 == Err::<Option<String>, DbError>(DbError::AlreadyExists),
    {
        let last = c2.dbs().len() - 1;
        assert(c2.dbs()[last].0@ == name@);
    }

    /// Selecting a database that is not there fails with `NotFound`.
    pub proof fn lemma_use_missing(self, name: String, c2: Catalog, r: Result<Option<String>, DbError>)
        requires
            key_index(self.dbs(), name@) is None,
            self.db_used(c2, name, r),
        ensures
            r == Err::<Option<String>, DbError>(DbError::NotFound),
    {
    }

    /// Where snapshots are written, if anywhere.
    pub fn snapshot_path(&self) -> (r: &Option<String>)
        ensures
            *r == self.path(),
    {
        &self.path
    }

    /// The selected database's name, if one was selected.
    pub fn current_name(&self) -> (r: &Option<String>)
        ensures
            *r == self.current(),
    {
        &self.current
    }

    /// The databases, in order of creation.
    pub fn databases(&self) -> (r: &Vec<(String, Database)>)
        ensures
            r@.len() == self.dbs().len(),
            forall|i: int| 0 <= i < r@.len() ==> (#[trigger] r@[i]).0 == self.dbs()[i].0 && r@[i].1.view() == self.dbs()[i].1,
    {
        &self.databases
    }

    /// Creates an empty database. Fails with `AlreadyExists` where the name is taken.
    pub fn create_database(&mut self, name: &String) -> (r: Result<Option<String>, DbError>)
        requires
            old(self).well_formed(),
        ensures
            final(self).well_formed(),
            old(self).db_created(*final(self), *name, r),
    {
        proof {
            self.lemma_index_agrees(name@);
        }
        if find_key(&self.databases, name).is_some() {
            return Err(DbError::AlreadyExists);
        }
        proof {
            assert forall|q: int| 0 <= q < self.databases@.len() implies self.databases@[q].0@ != name@ by {
                if self.databases@[q].0@ == name@ {
                    assert(self.dbs()[q].0@ == name@);
                }
            }
        }
        self.databases.push((name.clone(), Database::new()));
        assert(self.dbs() =~= old(self).dbs().push((*name, Seq::<(String, Table)>::empty())));
        Ok(Some(text_between("Database ", name, " created.")))
    }

    /// Removes the database called `name`; fails with `NotFound` where there is none. The
    /// selected name is kept even where it names the dropped database.
    pub fn drop_database(&mut self, name: &String) -> (r: Result<Option<String>, DbError>)
        requires
            old(self).well_formed(),
        ensures
            final(self).well_formed(),
            old(self).db_dropped(*final(self), *name, r),
    {
        proof {
            self.lemma_index_agrees(name@);
        }
        match find_key(&self.databases, name) {
            None => Err(DbError::NotFound),
            Some(d) => {
                self.databases.remove(d);
                proof {
                    assert forall|a: int, b: int| 0 <= a < self.databases@.len() && 0 <= b < self.databases@.len() && a != b
                        implies #[trigger] self.databases@[a].0@ != #[trigger] self.databases@[b].0@ by {
                        let a0 = if a < d { a } else { a + 1 };
                        let b0 = if b < d { b } else { b + 1 };
                        assert(self.databases@[a] == old(self).databases@[a0]);
                        assert(self.databases@[b] == old(self).databases@[b0]);
                    }
                    assert forall|i: int| 0 <= i < self.databases@.len() implies (#[trigger] self.databases@[i]).1.well_formed() by {
                        let i0 = if i < d { i } else { i + 1 };
                        assert(self.databases@[i] == old(self).databases@[i0]);
                    }
                    assert(self.dbs() =~= old(self).dbs().remove(d as int));
                }
                Ok(Some(text_between("Database ", name, " deleted.")))
            },
        }
    }

    /// Selects the database called `name`; fails with `NotFound` where there is none.
    pub fn use_database(&mut self, name: &String) -> (r: Result<Option<String>, DbError>)
        requires
            old(self).well_formed(),
        ensures
            final(self).well_formed(),
            old(self).db_used(*final(self), *name, r),
    {
        proof {
            self.lemma_index_agrees(name@);
        }
        match find_key(&self.databases, name) {
            None => Err(DbError::NotFound),
            Some(_) => {
                self.current = Some(name.clone());
                Ok(Some(text_between("Using database ", name, ".")))
            },
        }
    }

    /// The position of the selected database, or why there is none.
    fn active_index(&self) -> (r: Result<usize, DbError>)
        requires
            self.well_formed(),
        ensures
            match self.active() {
                Err(e) => r == Err::<usize, DbError>(e),
                Ok(d) => r is Ok && r->Ok_0 as int == d && d < self.dbs().len(),
            },
    {
        match &self.current {
            None => Err(DbError::NoActiveDatabase),
            Some(n) => {
                proof {
                    self.lemma_index_agrees(n@);
                }
                match find_key(&self.databases, n) {
                    None => Err(DbError::ActiveDatabaseMissing),
                    Some(d) => Ok(d),
                }
            },
        }
    }

    /// Puts `db` back at position `d`, where it was taken from.
    proof fn lemma_put_back(&self, old_cat: Catalog, d: int)
        requires
            old_cat.well_formed(),
            0 <= d < old_cat.databases@.len(),
            self.databases@.len() == old_cat.databases@.len(),
            self.databases@[d].0 == old_cat.databases@[d].0,
            self.databases@[d].1.well_formed(),
            forall|i: int| 0 <= i < self.databases@.len() && i != d ==> self.databases@[i] == old_cat.databases@[i],
        ensures
            self.well_formed(),
            self.dbs() == old_cat.dbs().update(d, (old_cat.dbs()[d].0, self.dbs()[d].1)),
    {
        assert forall|a: int, b: int| 0 <= a < self.databases@.len() && 0 <= b < self.databases@.len() && a != b
            implies #[trigger] self.databases@[a].0@ != #[trigger] self.databases@[b].0@ by {
            assert(self.databases@[a].0 == old_cat.databases@[a].0);
            assert(self.databases@[b].0 == old_cat.databases@[b].0);
        }
        assert forall|i: int| 0 <= i < self.databases@.len() implies (#[trigger] self.databases@[i]).1.well_formed() by {
            if i != d {
                assert(self.databases@[i] == old_cat.databases@[i]);
            }
        }
        assert(self.dbs() =~= old_cat.dbs().update(d, (old_cat.dbs()[d].0, self.dbs()[d].1)));
    }

    /// Creates an empty table in the selected database.
    pub fn create_table(&mut self, name: &String, header: Vec<ColumnDef>) -> (r: Result<Option<String>, DbError>)
        requires
            old(self).well_formed(),
        ensures
            final(self).well_formed(),
            old(self).table_created_in(*final(self), *name, header@, r),
    {
        let d = self.active_index()?;
        let (dname, mut db) = self.databases.remove(d);
        let r = db.create_table(name, header);
        self.databases.insert(d, (dname, db));
        proof {
            self.lemma_put_back(*old(self), d as int);
        }
        r
    }

    /// Removes a table of the selected database.
    pub fn drop_table(&mut self, name: &String) -> (r: Result<Option<String>, DbError>)
        requires
            old(self).well_formed(),
        ensures
            final(self).well_formed(),
            old(self).table_dropped_in(*final(self), *name, r),
    {
        let d = self.active_index()?;
        let (dname, mut db) = self.databases.remove(d);
        let r = db.drop_table(name);
        self.databases.insert(d, (dname, db));
        proof {
            self.lemma_put_back(*old(self), d as int);
        }
        r
    }

    /// Carries out `op` on a table of the selected database.
    pub fn apply(&mut self, name: &String, op: TableOp) -> (r: Result<Option<String>, DbError>)
        requires
            old(self).well_formed(),
        ensures
            final(self).well_formed(),
            old(self).applied_in(*final(self), *name, op, r),
    {
        let d = self.active_index()?;
        let (dname, mut db) = self.databases.remove(d);
        let r = db.apply(name, op);
        self.databases.insert(d, (dname, db));
        proof {
            self.lemma_put_back(*old(self), d as int);
        }
        r
    }

    /// What running `cmd` does: the catalog becomes `new` and the result is `r`.
    pub open spec fn ran(self, new: Catalog, cmd: Command, r: Result<Option<String>, DbError>) -> bool {
        match cmd {
            Command::CreateDatabase(n) => self.db_created(new, n, r),
            Command::DropDatabase(n) => self.db_dropped(new, n, r),
            Command::Use(n) => self.db_used(new, n, r),
            Command::CreateTable(n, h) => self.table_created_in(new, n, h@, r),
            Command::DropTable(n) => self.table_dropped_in(new, n, r),
            Command::AlterAdd(n, cols) => self.applied_in(new, n, TableOp::AlterAdd(cols), r),
            Command::Insert(n, vals) => self.applied_in(new, n, TableOp::Insert(vals), r),
            Command::Select(n, proj, pred) => self.applied_in(new, n, TableOp::Select(proj, pred), r),
            Command::Update(n, assigns, pred) => self.applied_in(new, n, TableOp::Update(assigns, pred), r),
            Command::Delete(n, pred) => self.applied_in(new, n, TableOp::Delete(pred), r),
            Command::Exit | Command::Empty => r == Ok::<Option<String>, DbError>(None) && new == self,
        }
    }

    /// Whether a successful run of `cmd` may have changed the catalog, so that a snapshot is due.
    pub open spec fn mutates(cmd: Command) -> bool {
        !(cmd is Select || cmd is Exit || cmd is Empty)
    }

    /// Runs one command. `Exit` and the empty command change nothing and return no message:
    /// ending the session is the caller's part, after its last snapshot.
    pub fn run(&mut self, cmd: Command) -> (r: Result<Option<String>, DbError>)
        requires
            old(self).well_formed(),
        ensures
            final(self).well_formed(),
            old(self).ran(*final(self), cmd, r),
    {
        match cmd {
            Command::CreateDatabase(n) => self.create_database(&n),
            Command::DropDatabase(n) => self.drop_database(&n),
            Command::Use(n) => self.use_database(&n),
            Command::CreateTable(n, h) => self.create_table(&n, h),
            Command::DropTable(n) => self.drop_table(&n),
            Command::AlterAdd(n, cols) => self.apply(&n, TableOp::AlterAdd(cols)),
            Command::Insert(n, vals) => self.apply(&n, TableOp::Insert(vals)),
            Command::Select(n, proj, pred) => self.apply(&n, TableOp::Select(proj, pred)),
            Command::Update(n, assigns, pred) => self.apply(&n, TableOp::Update(assigns, pred)),
            Command::Delete(n, pred) => self.apply(&n, TableOp::Delete(pred)),
            Command::Exit | Command::Empty => Ok(None),
        }
    }

    /// Runs `cmd` and says what the session does next: a snapshot follows every command that
    /// succeeded and may have changed the catalog, and `.exit`, which then ends the session.
    pub fn run_step(&mut self, cmd: Command) -> (out: (Result<Option<String>, DbError>, Step))
        requires
            old(self).well_formed(),
        ensures
            final(self).well_formed(),
            old(self).ran(*final(self), cmd, out.0),
            out.1.exit == (cmd is Exit),
            out.1.save == ((out.0 is Ok && Catalog::mutates(cmd)) || cmd is Exit),
    {
        let exit = matches!(cmd, Command::Exit);
        let mutating = Catalog::is_mutating(&cmd);
        let r = self.run(cmd);
        let save = (r.is_ok() && mutating) || exit;
        (r, Step { save, exit })
    }

    /// Whether a successful run of `cmd` calls for a snapshot.
    pub fn is_mutating(cmd: &Command) -> (r: bool)
        ensures
            r == Catalog::mutates(*cmd),
    {
        match cmd {
            Command::Select(..) | Command::Exit | Command::Empty => false,
            _ => true,
        }
    }

    /// `key_index` over the stored databases and over `dbs()` agree.
    proof fn lemma_index_agrees(&self, k: Seq<char>)
        requires
            self.well_formed(),
        ensures
            key_index(self.databases@, k) == key_index(self.dbs(), k),
    {
        if exists|i: int| 0 <= i < self.databases@.len() && self.databases@[i].0@ == k {
            let i = choose|i: int| 0 <= i < self.databases@.len() && self.databases@[i].0@ == k;
            assert(self.dbs()[i].0@ == k);
            let j = choose|j: int| 0 <= j < self.dbs().len() && self.dbs()[j].0@ == k;
            assert(self.databases@[j].0@ == k);
            assert(i == j);
        } else {
            assert forall|i: int| 0 <= i < self.dbs().len() implies self.dbs()[i].0@ != k by {
                assert(self.dbs()[i].0 == self.databases@[i].0);
            }
        }
    }
}

} // verus!
