//! Where the files of the database lie.
use crate::db::TargetTable;
use crate::path;
use crate::text;
use vstd::prelude::*;

verus! {

/// The directory of the database.
#[derive(Debug)]
pub struct Store {
    pub db_dir: String,
}

/// The name of the file that a table is kept in.
pub open spec fn table_file(target: TargetTable) -> Seq<char> {
    target.name_text() + ".parquet"@
}

/// The tables that only the index fills.
pub open spec fn index_tables() -> Seq<TargetTable> {
    seq![
        TargetTable::FileReferences,
        TargetTable::Locations,
        TargetTable::BaseTags,
        TargetTable::TagsByLocation,
    ]
}

/// The files that the index is made of, below the directory of the database.
pub open spec fn index_files(dir: Seq<char>) -> Seq<Seq<char>> {
    index_tables().map_values(|t: TargetTable| path::joined_to(dir, table_file(t))) + seq![
        path::joined_to(dir, "current_scan.parquet"@),
        path::joined_to(dir, "live_ids.parquet"@),
    ]
}

impl Store {
    /// The file that a table is kept in.
    pub fn path_for_target(&self, target: TargetTable) -> (r: String)
        ensures
            r@ == path::joined_to(self.db_dir@, table_file(target)),
    {
        let name = text::cat3(target.name(), ".parquet", "");
        proof {
            assert(name@ =~= table_file(target)) by {
                reveal_strlit("");
                assert(""@ =~= Seq::<char>::empty());
            }
        }
        path::join_path(self.db_dir.as_str(), name.as_str())
    }

    /// The file that the result of a scan is kept in while it is worked on.
    pub fn temp_scan_path(&self) -> (r: String)
        ensures
            r@ == path::joined_to(self.db_dir@, "current_scan.parquet"@),
    {
        path::join_path(self.db_dir.as_str(), "current_scan.parquet")
    }

    /// The file that the ids that are in use are kept in while they are worked on.
    pub fn temp_live_path(&self) -> (r: String)
        ensures
            r@ == path::joined_to(self.db_dir@, "live_ids.parquet"@),
    {
        path::join_path(self.db_dir.as_str(), "live_ids.parquet")
    }

    /// The directory that results of searches are kept in.
    pub fn cache_dir(&self) -> (r: String)
        ensures
            r@ == path::joined_to(self.db_dir@, "cache"@),
    {
        path::join_path(self.db_dir.as_str(), "cache")
    }

    /// The files that go when the index is cleared. The tables of items and of the tags that
    /// users gave are not among them.
    pub fn index_files(&self) -> (r: Vec<String>)
        ensures
            text::texts(r@) == index_files(self.db_dir@),
    {
        let mut v: Vec<String> = Vec::new();
        v.push(self.path_for_target(TargetTable::FileReferences));
        v.push(self.path_for_target(TargetTable::Locations));
        v.push(self.path_for_target(TargetTable::BaseTags));
        v.push(self.path_for_target(TargetTable::TagsByLocation));
        v.push(self.temp_scan_path());
        v.push(self.temp_live_path());
        proof {
            assert(text::texts(v@) =~= index_files(self.db_dir@));
        }
        v
    }
}

proof fn lemma_joined_names_differ(dir: Seq<char>, a: Seq<char>, b: Seq<char>)
    requires
        a.len() > 0,
        b.len() > 0,
        a[0] != '/',
        b[0] != '/',
        a != b,
    ensures
        path::joined_to(dir, a) != path::joined_to(dir, b),
{
    let x = path::joined_to(dir, a);
    let y = path::joined_to(dir, b);
    if x == y {
        let n = x.len() - a.len();
        assert(x.skip(n) =~= a);
        assert(y.skip(y.len() - b.len()) =~= b);
    }
}

proof fn lemma_table_files()
    ensures
        forall|t: TargetTable|
            (#[trigger] table_file(t)).len() > 0 && table_file(t)[0] != '/' && table_file(t)
                != "current_scan.parquet"@ && table_file(t) != "live_ids.parquet"@,
        forall|t: TargetTable, u: TargetTable|
            t != u ==> (#[trigger] table_file(t)) != (#[trigger] table_file(u)),
        "current_scan.parquet"@.len() > 0 && "current_scan.parquet"@[0] == 'c',
        "live_ids.parquet"@.len() > 0 && "live_ids.parquet"@[0] == 'l',
{
    reveal_strlit("file_references");
    reveal_strlit("locations");
    reveal_strlit("base_tags");
    reveal_strlit("tags_by_location");
    reveal_strlit("item_references");
    reveal_strlit("system_tags");
    reveal_strlit("user_tags");
    reveal_strlit("data_types");
    reveal_strlit("removed_files");
    reveal_strlit(".parquet");
    reveal_strlit("current_scan.parquet");
    reveal_strlit("live_ids.parquet");
    assert forall|t: TargetTable| (#[trigger] table_file(t)).len() > 0 && table_file(t)[0] != '/'
        && table_file(t) != "current_scan.parquet"@ && table_file(t) != "live_ids.parquet"@ by {
        let n = t.name_text();
        assert(n.len() > 0);
        assert(table_file(t)[0] == n[0]);
        assert(table_file(t).len() == n.len() + 8);
    }
    assert forall|t: TargetTable, u: TargetTable| t != u implies (#[trigger] table_file(t)) != (
    #[trigger] table_file(u)) by {
        let n = t.name_text();
        let m = u.name_text();
        assert(n.len() > 0 && m.len() > 0);
        assert(table_file(t)[0] == n[0]);
        assert(table_file(u)[0] == m[0]);
        assert(table_file(t).len() == n.len() + 8);
        assert(table_file(u).len() == m.len() + 8);
    }
}

/// Clearing the index removes the tables that a scan fills, and what a scan leaves behind; the
/// tables of tags, notes and types that users made stay.
pub proof fn law_tags_of_users_outlive_the_index(dir: Seq<char>, t: TargetTable)
    ensures
        index_files(dir).contains(path::joined_to(dir, table_file(t))) <==> (t
            == TargetTable::FileReferences || t == TargetTable::Locations || t
            == TargetTable::BaseTags || t == TargetTable::TagsByLocation),
        index_files(dir).contains(path::joined_to(dir, "current_scan.parquet"@)),
        index_files(dir).contains(path::joined_to(dir, "live_ids.parquet"@)),
{
    lemma_table_files();
    let files = index_files(dir);
    let own = path::joined_to(dir, table_file(t));
    assert(files.len() == 6);
    assert(files[0] == path::joined_to(dir, table_file(TargetTable::FileReferences)));
    assert(files[1] == path::joined_to(dir, table_file(TargetTable::Locations)));
    assert(files[2] == path::joined_to(dir, table_file(TargetTable::BaseTags)));
    assert(files[3] == path::joined_to(dir, table_file(TargetTable::TagsByLocation)));
    assert(files[4] == path::joined_to(dir, "current_scan.parquet"@));
    assert(files[5] == path::joined_to(dir, "live_ids.parquet"@));
    if files.contains(own) {
        let i = choose|i: int| 0 <= i < files.len() && files[i] == own;
        if i == 4 {
            lemma_joined_names_differ(dir, table_file(t), "current_scan.parquet"@);
        } else if i == 5 {
            lemma_joined_names_differ(dir, table_file(t), "live_ids.parquet"@);
        } else {
            let u = index_tables()[i];
            if u != t {
                lemma_joined_names_differ(dir, table_file(t), table_file(u));
            }
        }
    }
}

/// No two tables are kept in the same file.
pub proof fn law_tables_are_kept_apart(dir: Seq<char>, t: TargetTable, u: TargetTable)
    ensures
        path::joined_to(dir, table_file(t)) == path::joined_to(dir, table_file(u)) ==> t == u,
{
    lemma_table_files();
    if t != u {
        lemma_joined_names_differ(dir, table_file(t), table_file(u));
    }
}

} // verus!
