use ttfm::plugins::{
    detect_mime, known_mime, mime_tag, target, FileHead, MimetypeOverridePlugin, MimetypePlugin,
    PluginValue, SamplePlugin,
};

fn names(v: &[&str]) -> Vec<String> {
    v.iter().map(|s| s.to_string()).collect()
}

#[test]
fn packages_offer_what_is_asked_for() {
    let core = target(&names(&[])).unwrap();
    assert!(core.starts_with("package ttfm:plugin;\n\ninterface core {"), "{core}");
    assert!(core.ends_with("world plugin {\n    export core;\n}"), "{core}");
    let all = target(&names(&["indexing", "query", "display"])).unwrap();
    assert!(all.contains("variant tag-value {"), "{all}");
    assert!(all.contains("normalize-label: func(label: string) -> option<string>;"), "{all}");
    assert!(all.contains("record display-format {"), "{all}");
    assert!(all.ends_with(
        "world plugin {\n    export core;\n    export indexing;\n    export query;\n    export display;\n}"
    ));
}

#[test]
fn other_interfaces_are_refused() {
    assert_eq!(
        target(&names(&["indexing", "storage", "other"])).unwrap_err(),
        "unknown interface: `storage`. expected one of: indexing, query, display"
    );
}

#[test]
fn content_is_told_by_its_first_bytes() {
    let mut png = [0u8; 16];
    png[..8].copy_from_slice(&[0x89, b'P', b'N', b'G', 0x0d, 0x0a, 0x1a, 0x0a]);
    assert_eq!(detect_mime(FileHead::Bytes(png)), "image/png");
    assert_eq!(detect_mime(FileHead::Bytes([1u8; 16])), "application/octet-stream");
    assert_eq!(detect_mime(FileHead::Directory), "inode/directory");
    assert_eq!(detect_mime(FileHead::Closed), "empty");
    assert_eq!(detect_mime(FileHead::Short), "application/octet-stream");
    assert_eq!(known_mime(Some("text/html".to_string())), "text/html");
    assert_eq!(known_mime(None), "application/octet-stream");
}

#[test]
fn plugins_tag_files() {
    assert_eq!(MimetypePlugin::tag_file(FileHead::Closed), vec![PluginValue::Empty]);
    assert_eq!(
        MimetypePlugin::tag_file(FileHead::Directory),
        vec![PluginValue::Text("inode/directory".to_string())]
    );
    assert_eq!(mime_tag("empty".to_string()), PluginValue::Empty);
    assert_eq!(MimetypePlugin::name(), MimetypeOverridePlugin::name());
    assert_ne!(MimetypePlugin::version(), MimetypeOverridePlugin::version());
    assert_eq!(
        MimetypeOverridePlugin::tag_file("/a"),
        vec![PluginValue::Text("application/x-test-override".to_string())]
    );
    assert_eq!(SamplePlugin::tag_file("/a"), vec![PluginValue::Text("text/plain".to_string())]);
    assert_eq!(SamplePlugin::show("v".to_string(), "f"), "v");
    assert_eq!(SamplePlugin::expand("t", "l"), None);
    assert_eq!(SamplePlugin::expand_projection("t"), None);
    assert_eq!(SamplePlugin::normalize_label("l"), None);
}
