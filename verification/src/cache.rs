//! The cache of search results: its files, and which of them are given up.
use crate::path;
use crate::text;
use crate::types::Progress;
use vstd::prelude::*;

verus! {

/// The keys of what is noted in a cache file.
pub const META_QUERY: &'static str = "ttfm.query";

pub const META_INDEX_VERSION: &'static str = "ttfm.index_version";

pub const META_CREATED_AT: &'static str = "ttfm.created_at";

/// A file in the directory of the cache.
#[derive(Debug)]
pub struct CachedFile {
    pub path: String,
    pub is_file: bool,
    pub size: u64,
    /// When it was last accessed.
    pub accessed: i128,
}

#[verifier::ext_equal]
pub struct FileModel {
    pub path: Seq<char>,
    pub is_file: bool,
    pub size: u64,
    pub accessed: i128,
}

impl View for CachedFile {
    type V = FileModel;

    open spec fn view(&self) -> FileModel {
        FileModel {
            path: self.path@,
            is_file: self.is_file,
            size: self.size,
            accessed: self.accessed,
        }
    }
}

pub open spec fn file_models(v: Seq<CachedFile>) -> Seq<FileModel> {
    v.map_values(|f: CachedFile| f@)
}

/// Whether a file holds results.
pub open spec fn holds_results(f: FileModel) -> bool {
    f.is_file && path::extension_of(f.path) == Some("parquet"@)
}

/// The files with one more, behind all that were not accessed later.
pub open spec fn with_file(s: Seq<FileModel>, x: FileModel) -> Seq<FileModel>
    decreases s.len(),
{
    if s.len() == 0 || s.last().accessed <= x.accessed {
        s.push(x)
    } else {
        with_file(s.drop_last(), x).push(s.last())
    }
}

/// The files that hold results, the one longest not accessed first.
pub open spec fn oldest_first(s: Seq<FileModel>) -> Seq<FileModel>
    decreases s.len(),
{
    if s.len() == 0 {
        Seq::empty()
    } else {
        let before = oldest_first(s.drop_last());
        if holds_results(s.last()) {
            with_file(before, s.last())
        } else {
            before
        }
    }
}

/// The size of files together.
pub open spec fn total_size(s: Seq<FileModel>) -> nat
    decreases s.len(),
{
    if s.len() == 0 {
        0
    } else {
        s[0].size as nat + total_size(s.skip(1))
    }
}

/// How many of the first files must go for the others to fit into a limit.
pub open spec fn surplus(s: Seq<FileModel>, limit: nat) -> nat
    decreases s.len(),
{
    if s.len() == 0 || total_size(s) <= limit {
        0
    } else {
        1 + surplus(s.skip(1), limit)
    }
}

/// The files that are given up, in that order.
pub open spec fn given_up(s: Seq<FileModel>, limit: nat) -> Seq<FileModel> {
    oldest_first(s).take(surplus(oldest_first(s), limit) as int)
}

/// The files that hold results and stay.
pub open spec fn retained(s: Seq<FileModel>, limit: nat) -> Seq<FileModel> {
    oldest_first(s).skip(surplus(oldest_first(s), limit) as int)
}

pub open spec fn in_order(s: Seq<FileModel>) -> bool {
    forall|i: int, j: int|
        0 <= i < j < s.len() ==> (#[trigger] s[i]).accessed <= (#[trigger] s[j]).accessed
}

proof fn lemma_with_file(s: Seq<FileModel>, x: FileModel)
    requires
        in_order(s),
    ensures
        in_order(with_file(s, x)),
        with_file(s, x).len() == s.len() + 1,
        forall|i: int|
            0 <= i < s.len() + 1 ==> (#[trigger] with_file(s, x)[i]) == x || s.contains(
                with_file(s, x)[i],
            ),
    decreases s.len(),
{
    let r = with_file(s, x);
    if s.len() == 0 || s.last().accessed <= x.accessed {
        assert forall|i: int| 0 <= i < r.len() implies (#[trigger] r[i]) == x || s.contains(r[i]) by {
            if i < s.len() {
                assert(r[i] == s[i]);
            }
        }
    } else {
        let front = s.drop_last();
        let inner = with_file(front, x);
        lemma_with_file(front, x);
        assert forall|i: int| 0 <= i < inner.len() implies (#[trigger] inner[i]).accessed
            <= s.last().accessed && (inner[i] == x || s.contains(inner[i])) by {
            if inner[i] != x {
                let k = choose|k: int| 0 <= k < front.len() && front[k] == inner[i];
                assert(s[k] == inner[i]);
                assert(s[k].accessed <= s[s.len() - 1].accessed);
            }
        }
        assert forall|i: int| 0 <= i < r.len() implies (#[trigger] r[i]) == x || s.contains(r[i]) by {
            if i < inner.len() {
                assert(r[i] == inner[i]);
            } else {
                assert(r[i] == s[s.len() - 1]);
            }
        }
        assert forall|i: int, j: int| 0 <= i < j < r.len() implies (#[trigger] r[i]).accessed
            <= (#[trigger] r[j]).accessed by {
            assert(r[i] == inner[i]);
            if j < inner.len() {
                assert(r[j] == inner[j]);
            }
        }
    }
}

proof fn lemma_oldest_first(s: Seq<FileModel>)
    ensures
        in_order(oldest_first(s)),
        forall|i: int|
            0 <= i < oldest_first(s).len() ==> holds_results(#[trigger] oldest_first(s)[i])
                && s.contains(oldest_first(s)[i]),
    decreases s.len(),
{
    if s.len() > 0 {
        let front = s.drop_last();
        let before = oldest_first(front);
        lemma_oldest_first(front);
        let r = oldest_first(s);
        if holds_results(s.last()) {
            lemma_with_file(before, s.last());
        }
        assert forall|i: int| 0 <= i < r.len() implies holds_results(#[trigger] r[i])
            && s.contains(r[i]) by {
            if holds_results(s.last()) && r[i] == s.last() {
                assert(s[s.len() - 1] == r[i]);
            } else {
                assert(before.contains(r[i]));
                let k = choose|k: int| 0 <= k < before.len() && before[k] == r[i];
                assert(front.contains(before[k]));
                let m = choose|m: int| 0 <= m < front.len() && front[m] == before[k];
                assert(s[m] == r[i]);
            }
        }
    }
}

proof fn lemma_surplus(s: Seq<FileModel>, limit: nat)
    ensures
        surplus(s, limit) <= s.len(),
        total_size(s.skip(surplus(s, limit) as int)) <= limit,
        forall|k: int| 0 <= k < surplus(s, limit) ==> total_size(#[trigger] s.skip(k)) > limit,
    decreases s.len(),
{
    if s.len() == 0 || total_size(s) <= limit {
        assert(s.skip(0) =~= s);
    } else {
        let rest = s.skip(1);
        lemma_surplus(rest, limit);
        let n = surplus(rest, limit);
        assert(s.skip(1 + n as int) =~= rest.skip(n as int));
        assert forall|k: int| 0 <= k < 1 + n implies total_size(#[trigger] s.skip(k)) > limit by {
            if k == 0 {
                assert(s.skip(0) =~= s);
            } else {
                assert(s.skip(k) =~= rest.skip(k - 1));
            }
        }
    }
}

/// What stays fits into the limit, and nothing that was accessed later than what stays is
/// given up. Without the last of the files that are given up, what stays would not fit.
pub proof fn law_least_used_go_first(s: Seq<FileModel>, limit: nat)
    ensures
        total_size(retained(s, limit)) <= limit,
        given_up(s, limit) + retained(s, limit) == oldest_first(s),
        forall|i: int, j: int|
            0 <= i < given_up(s, limit).len() && 0 <= j < retained(s, limit).len() ==> (
            #[trigger] given_up(s, limit)[i]).accessed <= (#[trigger] retained(s, limit)[j]).accessed,
        given_up(s, limit).len() > 0 ==> total_size(
            seq![given_up(s, limit).last()] + retained(s, limit),
        ) > limit,
{
    let all = oldest_first(s);
    let n = surplus(all, limit) as int;
    lemma_oldest_first(s);
    lemma_surplus(all, limit);
    assert(all.take(n) + all.skip(n) =~= all);
    assert forall|i: int, j: int|
        0 <= i < given_up(s, limit).len() && 0 <= j < retained(s, limit).len() implies (
    #[trigger] given_up(s, limit)[i]).accessed <= (#[trigger] retained(s, limit)[j]).accessed by {
        assert(given_up(s, limit)[i] == all[i]);
        assert(retained(s, limit)[j] == all[n + j]);
    }
    if n > 0 {
        assert(seq![given_up(s, limit).last()] + retained(s, limit) =~= all.skip(n - 1));
    }
}

/// Only files of the cache that hold results are given up.
pub proof fn law_other_files_stay(s: Seq<FileModel>, limit: nat)
    ensures
        forall|i: int|
            0 <= i < given_up(s, limit).len() ==> holds_results(#[trigger] given_up(s, limit)[i])
                && s.contains(given_up(s, limit)[i]),
{
    lemma_oldest_first(s);
    lemma_surplus(oldest_first(s), limit);
    assert forall|i: int| 0 <= i < given_up(s, limit).len() implies holds_results(
        #[trigger] given_up(s, limit)[i],
    ) && s.contains(given_up(s, limit)[i]) by {
        assert(given_up(s, limit)[i] == oldest_first(s)[i]);
    }
}

/// Each file of the cache that holds results is given up or stays, as often as it is there,
/// and no other file is either.
pub proof fn law_results_go_or_stay(s: Seq<FileModel>, limit: nat)
    ensures
        (given_up(s, limit) + retained(s, limit)).to_multiset() == s.filter(
            |f: FileModel| f.is_file && path::extension_of(f.path) == Some("parquet"@),
        ).to_multiset(),
{
    law_least_used_go_first(s, limit);
    lemma_results_are_kept(s);
}

proof fn lemma_with_file_adds(s: Seq<FileModel>, x: FileModel)
    ensures
        with_file(s, x).to_multiset() =~= s.to_multiset().insert(x),
    decreases s.len(),
{
    broadcast use vstd::seq_lib::group_to_multiset_ensures;

    if s.len() > 0 && s.last().accessed > x.accessed {
        let front = s.drop_last();
        lemma_with_file_adds(front, x);
        assert(front.push(s.last()) =~= s);
        assert(s.to_multiset() =~= front.to_multiset().insert(s.last()));
        assert(with_file(s, x) == with_file(front, x).push(s.last()));
    }
}

proof fn lemma_results_are_kept(s: Seq<FileModel>)
    ensures
        oldest_first(s).to_multiset() =~= s.filter(
            |f: FileModel| f.is_file && path::extension_of(f.path) == Some("parquet"@),
        ).to_multiset(),
    decreases s.len(),
{
    broadcast use vstd::seq_lib::group_to_multiset_ensures;

    let pred = |f: FileModel| f.is_file && path::extension_of(f.path) == Some("parquet"@);
    reveal_with_fuel(Seq::filter, 2);
    if s.len() == 0 {
        assert(s.filter(pred) =~= Seq::<FileModel>::empty());
        assert(oldest_first(s) =~= s.filter(pred));
    } else {
        let front = s.drop_last();
        lemma_results_are_kept(front);
        lemma_with_file_adds(oldest_first(front), s.last());
        assert(s.filter(pred) == if pred(s.last()) {
            front.filter(pred).push(s.last())
        } else {
            front.filter(pred)
        });
    }
}

/// The size of files together is the sum of their sizes.
pub proof fn law_sizes_add_up(a: Seq<FileModel>, b: Seq<FileModel>, f: FileModel)
    ensures
        total_size(a + b) == total_size(a) + total_size(b),
        total_size(a.push(f)) == total_size(a) + f.size,
    decreases a.len(),
{
    let none = Seq::<FileModel>::empty();
    if a.len() == 0 {
        assert(a + b =~= b);
        assert(a.push(f)[0] == f);
        assert(a.push(f).skip(1) =~= none);
        assert(total_size(none) == 0);
    } else {
        law_sizes_add_up(a.skip(1), b, f);
        assert((a + b).skip(1) =~= a.skip(1) + b);
        assert(a.push(f).skip(1) =~= a.skip(1).push(f));
        assert((a + b)[0] == a[0]);
        assert(a.push(f)[0] == a[0]);
    }
}

proof fn lemma_ending(stem: Seq<char>, ending: Seq<char>)
    requires
        stem.len() > 0,
        !ending.contains('.'),
    ensures
        path::split_name(stem.push('.') + ending) == (stem, Some(ending)),
{
    let name = stem.push('.') + ending;
    let d = path::last_dot(name);
    let n = stem.len() as int;
    path::lemma_last_dot(name);
    assert(name[n] == '.');
    if d > n {
        assert(name[d] == ending[d - n - 1]);
        assert(ending.contains('.'));
    }
    assert(name.take(n) =~= stem);
    assert(name.skip(n + 1) =~= ending);
}

proof fn lemma_result_path(dir: Seq<char>, cid: Seq<char>)
    requires
        path::is_name(cid),
    ensures
        path::is_name(cid + ".parquet"@),
        path::is_name(cid + ".parquet"@ + ".tmp"@),
        path::joined_to(dir, cid + ".parquet"@) + ".tmp"@ == path::joined_to(
            dir,
            cid + ".parquet"@ + ".tmp"@,
        ),
        path::split_name(cid + ".parquet"@) == (cid, Some("parquet"@)),
        path::split_name(cid + ".parquet"@ + ".tmp"@) == (cid + ".parquet"@, Some("tmp"@)),
        cid + ".parquet"@ != ".."@,
        cid + ".parquet"@ + ".tmp"@ != ".."@,
{
    reveal_strlit(".");
    reveal_strlit("..");
    reveal_strlit(".parquet");
    reveal_strlit("parquet");
    reveal_strlit(".tmp");
    reveal_strlit("tmp");
    let name = cid + ".parquet"@;
    assert(name =~= cid.push('.') + "parquet"@);
    assert(name + ".tmp"@ =~= name.push('.') + "tmp"@);
    lemma_ending(cid, "parquet"@);
    lemma_ending(name, "tmp"@);
    assert(path::joined_to(dir, name) + ".tmp"@ =~= path::joined_to(dir, name + ".tmp"@));
}

/// The file of a search lies in the directory of the cache and is counted among those that hold
/// results; the one in which results are collected lies beside it and is not, so that it is not
/// given up.
pub proof fn law_only_finished_files_count(dir: Seq<char>, cid: Seq<char>, f: FileModel)
    requires
        path::is_name(cid),
        f.is_file,
    ensures
        f.path == path::joined_to(dir, cid + ".parquet"@) ==> holds_results(f) && path::stem_of(
            f.path,
        ) == Some(cid) && (path::parent_of(f.path) matches Some(d) && path::same(d, dir)),
        f.path == path::joined_to(dir, cid + ".parquet"@) + ".tmp"@ ==> !holds_results(f) && (
        path::parent_of(f.path) matches Some(d) && path::same(d, dir)),
{
    reveal_strlit("parquet");
    reveal_strlit("tmp");
    lemma_result_path(dir, cid);
    path::law_joined_name_lies_in_the_directory(dir, cid + ".parquet"@);
    path::law_joined_name_lies_in_the_directory(dir, cid + ".parquet"@ + ".tmp"@);
    assert("parquet"@.len() != "tmp"@.len());
}

/// A cache of search results, with a limit on the size of its files.
#[derive(Debug)]
pub struct CacheManager {
    pub cache_dir: String,
    pub max_size_bytes: i64,
}

impl CacheManager {
    /// The limit; a negative one counts from the end of the range of sizes.
    pub open spec fn limit(self) -> nat {
        if self.max_size_bytes >= 0 {
            self.max_size_bytes as nat
        } else {
            (self.max_size_bytes + 0x1_0000_0000_0000_0000) as nat
        }
    }

    pub fn new(cache_dir: String, max_size_bytes: i64) -> (r: Self)
        ensures
            r.cache_dir@ == cache_dir@,
            r.max_size_bytes == max_size_bytes,
    {
        CacheManager { cache_dir, max_size_bytes }
    }

    /// The file of a search.
    pub fn path_for(&self, cid: &str) -> (r: String)
        ensures
            r@ == path::joined_to(self.cache_dir@, cid@ + ".parquet"@),
    {
        let mut name = cid.to_string();
        name.push_str(".parquet");
        path::join_path(self.cache_dir.as_str(), name.as_str())
    }

    /// The file in which the results of a search are collected.
    pub fn unfinished_path_for(&self, cid: &str) -> (r: String)
        ensures
            r@ == path::joined_to(self.cache_dir@, cid@ + ".parquet"@) + ".tmp"@,
    {
        let mut p = self.path_for(cid);
        p.push_str(".tmp");
        p
    }

    fn limit_bytes(&self) -> (r: u64)
        ensures
            r as nat == self.limit(),
    {
        if self.max_size_bytes >= 0 {
            self.max_size_bytes as u64
        } else {
            (self.max_size_bytes as i128 + 0x1_0000_0000_0000_0000) as u64
        }
    }

    /// The files that are given up, by what lies in the directory of the cache.
    pub fn cleanup(&self, entries: Vec<CachedFile>) -> (r: Vec<String>)
        requires
            total_size(oldest_first(file_models(entries@))) <= u64::MAX,
        ensures
            text::texts(r@) == given_up(file_models(entries@), self.limit()).map_values(
                |f: FileModel| f.path,
            ),
    {
        let ghost all = oldest_first(file_models(entries@));
        let sorted = sort_results(entries);
        let limit = self.limit_bytes();
        let mut current = size_of_files(&sorted);
        let mut out: Vec<String> = Vec::new();
        let mut i: usize = 0;
        proof {
            lemma_surplus(all, limit as nat);
            assert(all.skip(0) =~= all);
            assert(text::texts(out@) =~= all.take(0).map_values(|f: FileModel| f.path));
        }
        while i < sorted.len() && current > limit
            invariant
                i <= sorted@.len(),
                all == file_models(sorted@),
                limit as nat == self.limit(),
                current as nat == total_size(all.skip(i as int)),
                i <= surplus(all, limit as nat),
                surplus(all, limit as nat) <= all.len(),
                i + surplus(all.skip(i as int), limit as nat) == surplus(all, limit as nat),
                text::texts(out@) == all.take(i as int).map_values(|f: FileModel| f.path),
            decreases sorted.len() - i,
        {
            proof {
                let rest = all.skip(i as int);
                assert(rest[0] == sorted@[i as int]@);
                assert(rest.skip(1) =~= all.skip(i + 1));
                text::lemma_texts_push(out@, sorted@[i as int].path);
                assert(all.take(i + 1).map_values(|f: FileModel| f.path) =~= all.take(
                    i as int,
                ).map_values(|f: FileModel| f.path).push(sorted@[i as int].path@));
            }
            current = current - sorted[i].size;
            out.push(sorted[i].path.as_str().to_string());
            i += 1;
        }
        proof {
            assert(surplus(all.skip(i as int), limit as nat) == 0);
        }
        out
    }

    /// How far a search has come, by which of its two files are there.
    pub fn get_progress(&self, unfinished: bool, finished: bool) -> (r: Progress)
        ensures
            r == if unfinished {
                Progress { current: 0, total: None, is_done: false }
            } else if !finished {
                Progress { current: 0, total: None, is_done: false }
            } else {
                Progress { current: 1, total: Some(1), is_done: true }
            },
    {
        if unfinished {
            return Progress { current: 0, total: None, is_done: false };
        }
        if !finished {
            return Progress::default();
        }
        Progress { current: 1, total: Some(1), is_done: true }
    }
}

proof fn lemma_insert_file(s: Seq<FileModel>, x: FileModel, pos: int)
    requires
        0 <= pos <= s.len(),
        forall|j: int| pos <= j < s.len() ==> (#[trigger] s[j]).accessed > x.accessed,
        pos > 0 ==> s[pos - 1].accessed <= x.accessed,
    ensures
        with_file(s, x) == s.insert(pos, x),
    decreases s.len(),
{
    if pos == s.len() {
        assert(s.insert(pos, x) =~= s.push(x));
    } else {
        lemma_insert_file(s.drop_last(), x, pos);
        assert(s.insert(pos, x) =~= s.drop_last().insert(pos, x).push(s.last()));
    }
}

fn insert_file(out: &mut Vec<CachedFile>, x: CachedFile)
    ensures
        file_models(final(out)@) == with_file(file_models(old(out)@), x@),
{
    let ghost ms = file_models(out@);
    let mut pos: usize = out.len();
    while pos > 0 && out[pos - 1].accessed > x.accessed
        invariant
            pos <= out@.len(),
            ms == file_models(out@),
            out@ == old(out)@,
            forall|j: int| pos <= j < out@.len() ==> (#[trigger] ms[j]).accessed > x.accessed,
        ensures
            pos <= out@.len(),
            ms == file_models(out@),
            out@ == old(out)@,
            forall|j: int| pos <= j < out@.len() ==> (#[trigger] ms[j]).accessed > x.accessed,
            pos > 0 ==> ms[pos - 1].accessed <= x.accessed,
        decreases pos,
    {
        pos -= 1;
    }
    proof {
        lemma_insert_file(ms, x@, pos as int);
    }
    out.insert(pos, x);
    proof {
        assert(file_models(out@) =~= ms.insert(pos as int, x@));
    }
}

/// Whether a file holds results.
pub fn is_result(f: &CachedFile) -> (r: bool)
    ensures
        r == holds_results(f@),
{
    f.is_file && match path::extension(f.path.as_str()) {
        Some(e) => text::str_eq(e.as_str(), "parquet"),
        None => false,
    }
}

fn sort_results(entries: Vec<CachedFile>) -> (r: Vec<CachedFile>)
    ensures
        file_models(r@) == oldest_first(file_models(entries@)),
{
    let ghost whole = entries@;
    let ghost ms = file_models(whole);
    let mut rest = entries;
    let ghost mut n: int = 0;
    let mut out: Vec<CachedFile> = Vec::new();
    proof {
        assert(whole.skip(0) =~= whole);
        assert(file_models(out@) =~= Seq::empty());
    }
    while rest.len() > 0
        invariant
            0 <= n <= whole.len(),
            rest@ == whole.skip(n),
            ms == file_models(whole),
            file_models(out@) == oldest_first(ms.take(n)),
        decreases rest@.len(),
    {
        let f = rest.remove(0);
        proof {
            assert(f == whole[n]);
            assert(rest@ =~= whole.skip(n + 1));
            assert(ms.take(n + 1).drop_last() =~= ms.take(n));
            assert(ms.take(n + 1).last() == f@);
            n = n + 1;
        }
        if is_result(&f) {
            insert_file(&mut out, f);
        }
    }
    proof {
        assert(ms.take(ms.len() as int) =~= ms);
    }
    out
}

fn size_of_files(v: &Vec<CachedFile>) -> (r: u64)
    requires
        total_size(file_models(v@)) <= u64::MAX,
    ensures
        r as nat == total_size(file_models(v@)),
{
    let ghost ms = file_models(v@);
    let mut total: u64 = 0;
    let mut i: usize = v.len();
    while i > 0
        invariant
            i <= v@.len(),
            ms == file_models(v@),
            total_size(ms) <= u64::MAX,
            total as nat == total_size(ms.skip(i as int)),
        decreases i,
    {
        i -= 1;
        proof {
            assert(ms.skip(i as int)[0] == v@[i as int]@);
            assert(ms.skip(i as int).skip(1) =~= ms.skip(i + 1));
            lemma_rest_is_smaller(ms, i as int);
        }
        total = total + v[i].size;
    }
    proof {
        assert(ms.skip(0) =~= ms);
    }
    total
}

proof fn lemma_rest_is_smaller(s: Seq<FileModel>, i: int)
    requires
        0 <= i <= s.len(),
    ensures
        total_size(s.skip(i)) <= total_size(s),
    decreases i,
{
    if i == 0 {
        assert(s.skip(0) =~= s);
    } else {
        lemma_rest_is_smaller(s, i - 1);
        assert(s.skip(i - 1).skip(1) =~= s.skip(i));
    }
}

} // verus!
