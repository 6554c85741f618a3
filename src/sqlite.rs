use vstd::prelude::*;

use crate::schema::DbError;

verus! {

/// What stands at the catalog's location.
#[derive(Clone, Copy, Debug, PartialEq, Eq, Structural)]
pub enum DirState {
    /// Nothing: the catalog is empty.
    Missing,
    /// Something that is not a directory.
    NotADirectory,
    /// A directory.
    Directory,
}

/// A catalog operation on one named collection.
#[derive(Clone, Copy, Debug, PartialEq, Eq, Structural)]
pub enum CatalogOp {
    Open,
    Create,
    Delete,
}

/// Whether a catalog operation may go ahead, given whether the collection
/// exists: opening and deleting need it, creating needs its absence.
pub open spec fn catalog_check_spec(op: CatalogOp, exists: bool) -> Result<(), DbError> {
    match op {
        CatalogOp::Create => if exists {
            Err(DbError::AlreadyExists)
        } else {
            Ok(())
        },
        _ => if exists {
            Ok(())
        } else {
            Err(DbError::NoSuchCollection)
        },
    }
}

/// Decides whether a catalog operation may go ahead.
pub fn catalog_check(op: CatalogOp, exists: bool) -> (r: Result<(), DbError>)
    ensures
        r == catalog_check_spec(op, exists),
{
    match op {
        CatalogOp::Create => if exists {
            Err(DbError::AlreadyExists)
        } else {
            Ok(())
        },
        _ => if exists {
            Ok(())
        } else {
            Err(DbError::NoSuchCollection)
        },
    }
}

/// The collection that a directory entry holds, if its name has the
/// extension `db` after a non-empty stem.
pub open spec fn stem_of(entry: Seq<char>) -> Option<Seq<char>> {
    if entry.len() > 3 && entry.subrange(entry.len() - 3, entry.len() as int) == ".db"@ {
        Some(entry.subrange(0, entry.len() - 3))
    } else {
        None
    }
}

/// The collections among the entries of a directory, in entry order.
pub open spec fn names_of(entries: Seq<Seq<char>>) -> Seq<Seq<char>>
    decreases entries.len(),
{
    if entries.len() == 0 {
        Seq::empty()
    } else {
        let rest = names_of(entries.drop_last());
        match stem_of(entries.last()) {
            Some(s) => rest.push(s),
            None => rest,
        }
    }
}

/// The collections among the entries of a directory.
pub fn collection_names(entries: &Vec<String>) -> (r: Vec<String>)
    ensures
        crate::text::string_views(r@) == names_of(crate::text::string_views(entries@)),
{
    proof {
        reveal_strlit(".db");
    }
    let ghost ev = crate::text::string_views(entries@);
    let mut out: Vec<String> = Vec::new();
    let mut i: usize = 0;
    while i < entries.len()
        invariant
            i <= entries@.len(),
            ev == crate::text::string_views(entries@),
            ".db"@ == seq!['.', 'd', 'b'],
            crate::text::string_views(out@) == names_of(ev.take(i as int)),
        decreases entries@.len() - i,
    {
        assert(ev.take(i + 1).drop_last() =~= ev.take(i as int));
        let e = entries[i].as_str();
        let n = e.unicode_len();
        if n > 3 && e.get_char(n - 3) == '.' && e.get_char(n - 2) == 'd' && e.get_char(n - 1) == 'b' {
            assert(e@.subrange(n - 3, n as int) =~= ".db"@);
            let stem = String::from_str(e.substring_char(0, n - 3));
            proof {
                crate::text::lemma_string_views_push(out@, stem);
            }
            out.push(stem);
        } else {
            assert(stem_of(e@) is None) by {
                if n > 3 && e@.subrange(n - 3, n as int) == ".db"@ {
                    assert(e@.subrange(n - 3, n as int)[0] == e@[n - 3]);
                    assert(e@.subrange(n - 3, n as int)[1] == e@[n - 2]);
                    assert(e@.subrange(n - 3, n as int)[2] == e@[n - 1]);
                }
            }
        }
        i = i + 1;
    }
    assert(ev.take(i as int) =~= ev);
    out
}

/// The embedded catalog: one database file per collection, in one directory.
pub struct SqliteDB {
    path: String,
}

impl SqliteDB {
    /// A catalog rooted at the directory `db_path`.
    pub fn new(db_path: &str) -> (r: SqliteDB)
        ensures
            r.path_view() == db_path@,
    {
        SqliteDB { path: String::from_str(db_path) }
    }

    /// The directory of the catalog.
    pub closed spec fn path_view(&self) -> Seq<char> {
        self.path@
    }

    /// The directory of the catalog.
    pub fn path(&self) -> (r: &str)
        ensures
            r@ == self.path_view(),
    {
        self.path.as_str()
    }

    /// The file that holds the collection `name`: `<directory>/<name>.db`.
    pub fn file_path(&self, name: &str) -> (r: String)
        ensures
            r@ == self.path_view() + "/"@ + name@ + ".db"@,
    {
        let mut s = self.path.clone();
        s.append("/");
        s.append(name);
        s.append(".db");
        s
    }

    /// The collections of the catalog, given what stands at its location and,
    /// for a directory, the names of its entries: none where nothing stands,
    /// an error where something else than a directory does.
    pub fn list_files(&self, state: DirState, entries: &Vec<String>) -> (r: Result<
        Vec<String>,
        DbError,
    >)
        ensures
            match state {
                DirState::Missing => r matches Ok(v) && v@.len() == 0,
                DirState::NotADirectory => r == Err::<Vec<String>, DbError>(DbError::Backend),
                DirState::Directory => r matches Ok(v) && crate::text::string_views(v@) == names_of(
                    crate::text::string_views(entries@),
                ),
            },
    {
        match state {
            DirState::Missing => Ok(Vec::new()),
            DirState::NotADirectory => Err(DbError::Backend),
            DirState::Directory => Ok(collection_names(entries)),
        }
    }
}

} // verus!
