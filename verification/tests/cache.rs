use ttfm::cache::{CacheManager, CachedFile, META_CREATED_AT, META_INDEX_VERSION, META_QUERY};

fn file(path: &str, size: u64, accessed: i128) -> CachedFile {
    CachedFile { path: path.to_string(), is_file: true, size, accessed }
}

#[test]
fn test_cache_path_for() {
    let cm = CacheManager::new("/tmp/c".to_string(), 1024);
    let path = cm.path_for("test-cid");
    assert!(path.contains("test-cid.parquet"));
    assert_eq!(path, "/tmp/c/test-cid.parquet");
}

#[test]
fn test_cache_cleanup_lru() {
    let cm = CacheManager::new("/cache".to_string(), 100);
    let f1 = file("/cache/a.parquet", 60, 1);
    let f2 = file("/cache/b.parquet", 60, 2);
    let removed = cm.cleanup(vec![f2, f1]);
    assert_eq!(removed, vec!["/cache/a.parquet"]);
}

#[test]
fn test_cache_get_progress() {
    let cm = CacheManager::new("/cache".to_string(), 1024);
    let cid = "test-progress";
    assert_eq!(cm.unfinished_path_for(cid), format!("{}.tmp", cm.path_for(cid)));

    let prog = cm.get_progress(false, false);
    assert_eq!(prog.current, 0);
    assert_eq!(prog.total, None);

    let prog = cm.get_progress(true, false);
    assert_eq!(prog.current, 0);
    assert_eq!(prog.total, None);

    let prog = cm.get_progress(false, true);
    assert_eq!(prog.current, 1);
    assert_eq!(prog.total, Some(1));
    assert!(prog.is_done);
    assert!(!cm.get_progress(true, true).is_done);
}

#[test]
fn test_cache_cleanup_ignores_non_parquet() {
    let cm = CacheManager::new("/cache".to_string(), 10);
    let f_parquet = file("/cache/a.parquet", 20, 1);
    let f_other = file("/cache/important.txt", 20, 1);
    let removed = cm.cleanup(vec![f_other, f_parquet]);
    assert_eq!(removed, vec!["/cache/a.parquet"]);
}

#[test]
fn cleanup_stops_as_soon_as_the_rest_fits() {
    let cm = CacheManager::new("/c".to_string(), 50);
    let files = vec![
        file("/c/new.parquet", 30, 9),
        file("/c/old.parquet", 10, 1),
        file("/c/mid.parquet", 20, 5),
        CachedFile { path: "/c/dir.parquet".to_string(), is_file: false, size: 999, accessed: 0 },
    ];
    assert_eq!(cm.cleanup(files), vec!["/c/old.parquet"]);
    assert!(cm.cleanup(vec![file("/c/a.parquet", 50, 1)]).is_empty());
    assert!(cm.cleanup(vec![]).is_empty());
    let same = vec![file("/c/x.parquet", 40, 3), file("/c/y.parquet", 40, 3)];
    assert_eq!(cm.cleanup(same), vec!["/c/x.parquet"]);
}

#[test]
fn a_negative_limit_is_a_huge_one() {
    let cm = CacheManager::new("/c".to_string(), -1);
    assert!(cm.cleanup(vec![file("/c/a.parquet", u64::MAX, 1)]).is_empty());
}

#[test]
fn notes_have_keys() {
    assert_eq!(META_QUERY, "ttfm.query");
    assert_eq!(META_INDEX_VERSION, "ttfm.index_version");
    assert_eq!(META_CREATED_AT, "ttfm.created_at");
}
