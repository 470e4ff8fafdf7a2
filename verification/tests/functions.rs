use chrono::TimeZone;
use sea_query::{Alias, PostgresQueryBuilder, Query};
use ttfm::col::Col;
use ttfm::db::schema::ColumnDef;
use ttfm::db::TargetTable;
use ttfm::functions::{
    can_show_time, rebuild_values_from_path, show_time, DirectoryFunction, ExtensionFunction, FileStat,
    FilenameFunction, IndexingFunction, InodeFunction, ModifiedStrFunction, ModifiedTsFunction,
    NameIndexingFunction, ParentDirFunction, PathFunction, SafeMetadata, ScanRole,
    SizeBytesFunction, SizeStrFunction, StemFunction, TagDefinition, TagError, TagValue,
    TypeFromExtFunction, METADATA_ERROR,
};

fn metadata() -> SafeMetadata {
    SafeMetadata {
        is_dir: false,
        len: 5,
        modified: 1_700_000_000,
        file_ref: Some(77),
        size_text: "5.0 B".to_string(),
    }
}

#[test]
fn test_extension_tagger_logic() {
    let tagger = ExtensionFunction::new();
    let stat = FileStat::Found(metadata());

    let values = tagger.tag_file("test.rs", &stat).unwrap();
    assert_eq!(values[0], TagValue::Text("rs".to_string()));

    let values = tagger.tag_file("no_extension", &stat).unwrap();
    assert_eq!(values[0], TagValue::Null);
}

#[test]
fn test_size_bytes_function() {
    let f = SizeBytesFunction::new();
    assert_eq!(f.role(), ScanRole::Integrity);
}

#[test]
fn test_inode_function() {
    let f = InodeFunction::new();
    assert_eq!(f.role(), ScanRole::ScanId);
    assert_eq!(f.get_columns()[0].name, "file_id");
}

#[test]
fn test_col_file_id_direct() {
    let mut query = Query::select();
    query.column(Alias::new(Col::FileId.name()));
    let sql = query.to_string(PostgresQueryBuilder);
    assert!(
        sql.contains("\"file_id\""),
        "Direct Col::FileId should be snake_case"
    );
}

#[test]
fn test_metadata_generate_error_handling() {
    let safe_m = SafeMetadata::recovered();
    let path = "dummy";

    assert_eq!(
        SizeBytesFunction::generate(path, &safe_m).unwrap().0,
        METADATA_ERROR
    );
    assert_eq!(
        ModifiedTsFunction::generate(path, &safe_m).unwrap().0,
        METADATA_ERROR
    );
    assert_eq!(SizeStrFunction::generate(path, &safe_m).unwrap(), "-");
    assert_eq!(ModifiedStrFunction::generate(path, &safe_m).unwrap(), "-");
}

#[test]
fn test_metadata_generate_loop_recovery() {
    let stat = FileStat::Unreadable;
    let path = "/tmp/loop";
    assert_eq!(
        SizeBytesFunction::new().tag_file(path, &stat).unwrap(),
        vec![TagValue::BigInt(METADATA_ERROR)]
    );
    assert_eq!(
        ModifiedTsFunction::new().tag_file(path, &stat).unwrap(),
        vec![TagValue::BigInt(METADATA_ERROR)]
    );
    assert_eq!(
        SizeStrFunction::new().tag_file(path, &stat).unwrap(),
        vec![TagValue::Text("-".to_string())]
    );
    assert_eq!(
        ModifiedStrFunction::new().tag_file(path, &stat).unwrap(),
        vec![TagValue::Text("-".to_string())]
    );
}

#[test]
fn test_metadata_generate_success() {
    let path = "/tmp/test.txt";
    let safe_m = metadata();
    assert_eq!(SizeBytesFunction::generate(path, &safe_m).unwrap().0, 5);
    assert!(ModifiedTsFunction::generate(path, &safe_m).unwrap().0 > 0);
    assert_eq!(SizeStrFunction::generate(path, &safe_m).unwrap(), "5.0 B");
    let shown = ModifiedStrFunction::generate(path, &safe_m).unwrap();
    assert!(!shown.is_empty());
    assert_ne!(shown, "1700000000");
    assert!(shown.starts_with("2023-11-1"), "{shown}");
    let at = chrono::Local.timestamp_opt(1_700_000_000, 0).unwrap();
    assert_eq!(shown, at.format("%Y-%m-%d %H:%M").to_string());
    assert_eq!(shown.len(), "2023-11-14 22:13".len());
}

#[test]
fn files_are_tagged_by_what_is_known_of_them() {
    let path = "/a/b/Photo.JPG";
    let found = FileStat::Found(metadata());
    let text = |s: &str| vec![TagValue::Text(s.to_string())];
    assert_eq!(PathFunction::new().tag_file(path, &found).unwrap(), text(path));
    assert_eq!(ParentDirFunction::new().tag_file(path, &found).unwrap(), text("/a/b"));
    assert_eq!(FilenameFunction::new().tag_file(path, &found).unwrap(), text("Photo.JPG"));
    assert_eq!(StemFunction::new().tag_file(path, &found).unwrap(), text("Photo"));
    assert_eq!(ExtensionFunction::new().tag_file(path, &found).unwrap(), text("jpg"));
    assert_eq!(
        SizeBytesFunction::new().tag_file(path, &found).unwrap(),
        vec![TagValue::BigInt(5)]
    );
    assert!(!TypeFromExtFunction::new().tag_file(path, &found).unwrap().is_empty());
    assert!(!DirectoryFunction::new().tag_file(path, &found).unwrap().is_empty());
    assert_eq!(
        SizeBytesFunction::new().tag_file(path, &FileStat::NotFound).unwrap_err(),
        TagError::NotFound
    );
}

#[test]
fn a_file_without_an_identity_has_none() {
    let mut m = metadata();
    assert_eq!(InodeFunction::generate("x", &m).unwrap(), 77);
    m.file_ref = None;
    assert_eq!(InodeFunction::generate("x", &m).unwrap_err(), TagError::NoFileId);
}

#[test]
fn times_that_could_not_be_read_are_a_dash() {
    assert_eq!(show_time(METADATA_ERROR, "now".to_string()), "-");
    assert_eq!(show_time(0, "1970-01-01 00:00".to_string()), "1970-01-01 00:00");
}

#[test]
fn types_that_are_only_defined_tag_no_file() {
    let found = FileStat::Found(metadata());
    assert!(NameIndexingFunction.tag_file("/a", &found).unwrap().is_empty());
    assert_eq!(NameIndexingFunction.name(), Col::Name);
    assert!(NameIndexingFunction.get_columns().is_empty());
}

#[test]
fn test_triager_rebuild_from_path_strict() {
    let values = rebuild_values_from_path("/test/dir/file.txt");
    assert_eq!(values.len(), 4, "Should contain exactly 4 columns");
    assert_eq!(values[0], TagValue::Text("/test/dir/file.txt".into()));
    assert_eq!(values[1], TagValue::Text("/test/dir".into()));
    assert_eq!(values[2], TagValue::Text("file.txt".into()));
    assert_eq!(values[3], TagValue::Text("txt".into()));
}

#[test]
fn times_of_the_calendar_can_be_shown() {
    assert!(can_show_time(-1));
    assert!(can_show_time(0));
    assert!(can_show_time(8_210_000_000_000));
    assert!(!can_show_time(8_210_000_000_001));
    assert!(!can_show_time(-2));
}

#[test]
fn sizes_and_times_belong_to_files_not_to_places() {
    let table = |columns: Vec<ColumnDef>| columns[0].target_table;
    assert_eq!(table(SizeBytesFunction::new().get_columns()), TargetTable::FileReferences);
    assert_eq!(table(ModifiedTsFunction::new().get_columns()), TargetTable::FileReferences);
    assert_eq!(table(ExtensionFunction::new().get_columns()), TargetTable::Locations);
    assert_eq!(rebuild_values_from_path("/a/b.txt").len(), 4);
}

#[test]
fn definitions_know_their_role() {
    assert_eq!(PathFunction::tag_role(), ScanRole::Location);
    assert_eq!(ModifiedStrFunction::tag_role(), ScanRole::Other);
}

#[test]
fn directories_are_kept_as_they_are_written() {
    let dir = |path: &str| ParentDirFunction::generate(path, &metadata()).unwrap();
    assert_eq!(dir("a//b/c"), "a//b");
    assert_eq!(dir("/a/./b/"), "/a");
    assert_eq!(dir("/a"), "/");
    assert_eq!(dir("//"), "");
    assert_eq!(dir("./a"), ".");
    assert_eq!(dir("a/.."), "a");
    for path in ["a//b/c", "/a/./b/", "/a", "//", "./a", ".", "./.", "a", "", "/.", "x/.y/./z//"] {
        let want = std::path::Path::new(path).parent().map(|p| p.to_str().unwrap().to_string());
        assert_eq!(ttfm::path::parent(path), want, "{path}");
    }
}
