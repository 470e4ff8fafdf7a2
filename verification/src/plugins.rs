//! Plugins: the interfaces that they can offer, and the one that tags files by their content.
use crate::path;
use crate::text;
use crate::text::{cat3, str_eq};
use vstd::prelude::*;

verus! {

// ---------------------------------------------------------------------------
// Interfaces
// ---------------------------------------------------------------------------

/// What every plugin offers.
pub const CORE_WIT: &'static str = "interface core {
    name: func() -> string;
    version: func() -> string;
}";

/// What a plugin that tags files offers.
pub const INDEXING_WIT: &'static str = "interface indexing {
    enum value-type { text, big-int, boolean, double }
    variant tag-value {
        text(string),
        big-int(s64),
        boolean(bool),
        double(f64),
        empty,
    }
    get-value-type: func() -> value-type;
    tag-file: func(path: string) -> list<tag-value>;
}";

/// What a plugin that takes part in searches offers.
pub const QUERY_WIT: &'static str = "interface query {
    normalize-label: func(label: string) -> option<string>;
    expand: func(tag-type: string, label: string) -> option<string>;
    expand-projection: func(tag-type: string) -> option<string>;
}";

/// What a plugin that shows values offers.
pub const DISPLAY_WIT: &'static str = "interface display {
    record display-format {
        id: string,
        label: string,
    }
    default-format: func() -> option<display-format>;
    formats: func() -> list<display-format>;
    show: func(value: string, format-id: string) -> string;
}";

/// The definition of an interface by its name, with its line among the exports.
pub open spec fn interface(name: Seq<char>) -> Option<(Seq<char>, Seq<char>)> {
    if name == "indexing"@ {
        Some((INDEXING_WIT@, "export indexing;"@))
    } else if name == "query"@ {
        Some((QUERY_WIT@, "export query;"@))
    } else if name == "display"@ {
        Some((DISPLAY_WIT@, "export display;"@))
    } else {
        None
    }
}

/// The first name that is no interface.
pub open spec fn first_unknown(names: Seq<Seq<char>>) -> Option<Seq<char>>
    decreases names.len(),
{
    if names.len() == 0 {
        None
    } else if interface(names[0]) is None {
        Some(names[0])
    } else {
        first_unknown(names.skip(1))
    }
}

/// The definitions of interfaces.
pub open spec fn definitions(names: Seq<Seq<char>>) -> Seq<Seq<char>> {
    seq!["package ttfm:plugin;"@, CORE_WIT@] + names.map_values(
        |n: Seq<char>| (interface(n)->0).0,
    )
}

/// The lines for the exports of interfaces.
pub open spec fn export_lines(names: Seq<Seq<char>>) -> Seq<Seq<char>> {
    seq!["export core;"@] + names.map_values(|n: Seq<char>| (interface(n)->0).1)
}

/// The package of a plugin that offers interfaces.
pub open spec fn package_text(names: Seq<Seq<char>>) -> Seq<char> {
    text::joined(
        definitions(names).push(
            "world plugin {\n    "@ + text::joined(export_lines(names), "\n    "@) + "\n}"@,
        ),
        "\n\n"@,
    )
}

/// What is said of a name that is no interface.
pub open spec fn unknown_text(name: Seq<char>) -> Seq<char> {
    "unknown interface: `"@ + name + "`. expected one of: indexing, query, display"@
}

fn find_interface(name: &str) -> (r: Option<(&'static str, &'static str)>)
    ensures
        interface(name@) == match r {
            Some(p) => Some((p.0@, p.1@)),
            None => None,
        },
{
    if str_eq(name, "indexing") {
        Some((INDEXING_WIT, "export indexing;"))
    } else if str_eq(name, "query") {
        Some((QUERY_WIT, "export query;"))
    } else if str_eq(name, "display") {
        Some((DISPLAY_WIT, "export display;"))
    } else {
        None
    }
}

/// The package of a plugin that offers interfaces besides the core; the first name that is
/// none is refused.
pub fn target(interfaces: &Vec<String>) -> (r: Result<String, String>)
    ensures
        match first_unknown(text::texts(interfaces@)) {
            Some(n) => r matches Err(e) && e@ == unknown_text(n),
            None => r matches Ok(t) && t@ == package_text(text::texts(interfaces@)),
        },
{
    let ghost ns = text::texts(interfaces@);
    let mut parts: Vec<String> = Vec::new();
    parts.push("package ttfm:plugin;".to_string());
    parts.push(CORE_WIT.to_string());
    let mut exports: Vec<String> = Vec::new();
    exports.push("export core;".to_string());
    let mut i: usize = 0;
    proof {
        assert(text::texts(parts@) =~= definitions(ns.take(0)));
        assert(text::texts(exports@) =~= export_lines(ns.take(0)));
        assert(ns.skip(0) =~= ns);
    }
    while i < interfaces.len()
        invariant
            i <= interfaces@.len(),
            ns == text::texts(interfaces@),
            text::texts(parts@) == definitions(ns.take(i as int)),
            text::texts(exports@) == export_lines(ns.take(i as int)),
            first_unknown(ns) == first_unknown(ns.skip(i as int)),
        decreases interfaces.len() - i,
    {
        let name = interfaces[i].as_str();
        proof {
            assert(ns.skip(i as int)[0] == name@);
            assert(ns.skip(i as int).skip(1) =~= ns.skip(i + 1));
            assert(definitions(ns.take(i + 1)) =~= definitions(ns.take(i as int)).push(
                (interface(name@)->0).0,
            ));
            assert(export_lines(ns.take(i + 1)) =~= export_lines(ns.take(i as int)).push(
                (interface(name@)->0).1,
            ));
        }
        match find_interface(name) {
            Some((wit, line)) => {
                let wit = wit.to_string();
                let line = line.to_string();
                proof {
                    text::lemma_texts_push(parts@, wit);
                    text::lemma_texts_push(exports@, line);
                }
                parts.push(wit);
                exports.push(line);
            },
            None => {
                return Err(
                    cat3(
                        "unknown interface: `",
                        name,
                        "`. expected one of: indexing, query, display",
                    ),
                );
            },
        }
        i += 1;
    }
    proof {
        assert(ns.take(ns.len() as int) =~= ns);
    }
    let lines = text::join(&exports, "\n    ");
    let world = cat3("world plugin {\n    ", lines.as_str(), "\n}");
    proof {
        text::lemma_texts_push(parts@, world);
    }
    parts.push(world);
    Ok(text::join(&parts, "\n\n"))
}

/// Every plugin offers the core, and a plugin that offers nothing else has a package too.
pub proof fn law_every_package_has_a_core(names: Seq<Seq<char>>)
    ensures
        definitions(names)[1] == CORE_WIT@,
        export_lines(names)[0] == "export core;"@,
        first_unknown(Seq::empty()) is None,
{
}

// ---------------------------------------------------------------------------
// Files by their content
// ---------------------------------------------------------------------------

/// What could be read of a file.
#[derive(Clone, Copy, Debug)]
pub enum FileHead {
    Directory,
    /// It could not be opened.
    Closed,
    /// It has fewer bytes than are looked at.
    Short,
    /// Its first bytes.
    Bytes([u8; 16]),
}

/// The MIME type that bytes stand for, as `infer::get` tells it.
pub uninterp spec fn sniffed(bytes: Seq<u8>) -> Option<Seq<char>>;

/// `infer::get` with `Type::mime_type`: the MIME type of the first matcher for the bytes, if
/// there is one. It depends on the bytes alone.
#[verifier::external_body]
fn sniff(bytes: &[u8; 16]) -> (r: Option<String>)
    ensures
        path::opt_text(r) == sniffed(bytes@),
{
    infer::get(bytes).map(|k| k.mime_type().to_string())
}

pub open spec fn mime_or_default(found: Option<Seq<char>>) -> Seq<char> {
    match found {
        Some(m) => m,
        None => "application/octet-stream"@,
    }
}

/// The MIME type of a file by what its first bytes told.
pub fn known_mime(found: Option<String>) -> (r: String)
    ensures
        r@ == mime_or_default(path::opt_text(found)),
{
    match found {
        Some(m) => m,
        None => "application/octet-stream".to_string(),
    }
}

/// The MIME type of a file.
pub open spec fn mime_of(head: FileHead) -> Seq<char> {
    match head {
        FileHead::Directory => "inode/directory"@,
        FileHead::Closed => "empty"@,
        FileHead::Short => "application/octet-stream"@,
        FileHead::Bytes(b) => mime_or_default(sniffed(b@)),
    }
}

/// Tells the MIME type of a file by what could be read of it.
pub fn detect_mime(head: FileHead) -> (r: String)
    ensures
        r@ == mime_of(head),
{
    match head {
        FileHead::Directory => "inode/directory".to_string(),
        FileHead::Closed => "empty".to_string(),
        FileHead::Short => "application/octet-stream".to_string(),
        FileHead::Bytes(b) => known_mime(sniff(&b)),
    }
}

/// A tag that a plugin gives.
#[derive(Debug, PartialEq, Eq)]
pub enum PluginValue {
    Text(String),
    Empty,
}

#[verifier::ext_equal]
pub enum PluginValueModel {
    Text(Seq<char>),
    Empty,
}

impl View for PluginValue {
    type V = PluginValueModel;

    open spec fn view(&self) -> PluginValueModel {
        match *self {
            PluginValue::Text(s) => PluginValueModel::Text(s@),
            PluginValue::Empty => PluginValueModel::Empty,
        }
    }
}

/// The tag of a file with a MIME type; there is none for a file that could not be opened.
pub fn mime_tag(mime: String) -> (r: PluginValue)
    ensures
        r@ == if mime@ == "empty"@ {
            PluginValueModel::Empty
        } else {
            PluginValueModel::Text(mime@)
        },
{
    if str_eq(mime.as_str(), "empty") {
        PluginValue::Empty
    } else {
        PluginValue::Text(mime)
    }
}

/// The plugin that tags files with their MIME types.
#[derive(Clone, Copy, Debug)]
pub struct MimetypePlugin;

impl MimetypePlugin {
    pub fn name() -> (r: String)
        ensures
            r@ == "mimetype"@,
    {
        "mimetype".to_string()
    }

    pub fn version() -> (r: String)
        ensures
            r@ == "0.2.3"@,
    {
        "0.2.3".to_string()
    }

    /// The tags of a file.
    pub fn tag_file(head: FileHead) -> (r: Vec<PluginValue>)
        ensures
            r@.len() == 1,
            r@[0]@ == if mime_of(head) == "empty"@ {
                PluginValueModel::Empty
            } else {
                PluginValueModel::Text(mime_of(head))
            },
    {
        let mut out: Vec<PluginValue> = Vec::new();
        out.push(mime_tag(detect_mime(head)));
        out
    }
}

/// A plugin that stands in for `MimetypePlugin`: it gives every file the same tag.
#[derive(Clone, Copy, Debug)]
pub struct MimetypeOverridePlugin;

impl MimetypeOverridePlugin {
    pub fn name() -> (r: String)
        ensures
            r@ == "mimetype"@,
    {
        "mimetype".to_string()
    }

    pub fn version() -> (r: String)
        ensures
            r@ == "0.1.0"@,
    {
        "0.1.0".to_string()
    }

    /// The tags of a file.
    pub fn tag_file(_path: &str) -> (r: Vec<PluginValue>)
        ensures
            r@.len() == 1,
            r@[0]@ == PluginValueModel::Text("application/x-test-override"@),
    {
        let mut out: Vec<PluginValue> = Vec::new();
        out.push(PluginValue::Text("application/x-test-override".to_string()));
        out
    }
}

/// A plugin that offers every interface and does the least.
#[derive(Clone, Copy, Debug)]
pub struct SamplePlugin;

impl SamplePlugin {
    pub fn name() -> (r: String)
        ensures
            r@ == "sample"@,
    {
        "sample".to_string()
    }

    pub fn version() -> (r: String)
        ensures
            r@ == "0.1.0"@,
    {
        "0.1.0".to_string()
    }

    /// The tags of a file.
    pub fn tag_file(_path: &str) -> (r: Vec<PluginValue>)
        ensures
            r@.len() == 1,
            r@[0]@ == PluginValueModel::Text("text/plain"@),
    {
        let mut out: Vec<PluginValue> = Vec::new();
        out.push(PluginValue::Text("text/plain".to_string()));
        out
    }

    /// Labels stay as they are.
    pub fn normalize_label(_label: &str) -> (r: Option<String>)
        ensures
            r is None,
    {
        None
    }

    /// Tags stand for themselves.
    pub fn expand(_tag_type: &str, _label: &str) -> (r: Option<String>)
        ensures
            r is None,
    {
        None
    }

    /// Types stand for themselves.
    pub fn expand_projection(_tag_type: &str) -> (r: Option<String>)
        ensures
            r is None,
    {
        None
    }

    /// A value is shown as it is.
    pub fn show(value: String, _format_id: &str) -> (r: String)
        ensures
            r@ == value@,
    {
        value
    }
}

} // verus!
