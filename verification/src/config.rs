//! Settings: how edits are confirmed and conflicts resolved, and which plugins are loaded.
use crate::path;
use crate::text::str_eq;
use vstd::prelude::*;

verus! {

/// When an edit is confirmed by the user.
#[derive(Clone, Copy, Debug, PartialEq, Eq, Structural)]
pub enum ConfirmMode {
    Auto,
    Always,
    Never,
}

/// What happens where the target of a move exists, or a tag would get several values.
#[derive(Clone, Copy, Debug, PartialEq, Eq, Structural)]
pub enum ConflictPolicy {
    Abort,
    Skip,
    Serial,
    First,
}

/// What happens where an item lies at several paths.
#[derive(Clone, Copy, Debug, PartialEq, Eq, Structural)]
pub enum HardlinkPolicy {
    Abort,
    Skip,
    All,
}

/// What is left out with an item that is skipped: all of its writes, or only the moves.
#[derive(Clone, Copy, Debug, PartialEq, Eq, Structural)]
pub enum SkipScope {
    Item,
    FsOnly,
}

impl ConfirmMode {
    pub open spec fn named(s: Seq<char>) -> Option<ConfirmMode> {
        if s == "auto"@ {
            Some(ConfirmMode::Auto)
        } else if s == "always"@ {
            Some(ConfirmMode::Always)
        } else if s == "never"@ {
            Some(ConfirmMode::Never)
        } else {
            None
        }
    }

    pub fn from_name(s: &str) -> (r: Option<Self>)
        ensures
            r == Self::named(s@),
    {
        if str_eq(s, "auto") {
            Some(ConfirmMode::Auto)
        } else if str_eq(s, "always") {
            Some(ConfirmMode::Always)
        } else if str_eq(s, "never") {
            Some(ConfirmMode::Never)
        } else {
            None
        }
    }
}

impl ConflictPolicy {
    pub open spec fn named(s: Seq<char>) -> Option<ConflictPolicy> {
        if s == "abort"@ {
            Some(ConflictPolicy::Abort)
        } else if s == "skip"@ {
            Some(ConflictPolicy::Skip)
        } else if s == "serial"@ {
            Some(ConflictPolicy::Serial)
        } else if s == "first"@ {
            Some(ConflictPolicy::First)
        } else {
            None
        }
    }

    pub fn from_name(s: &str) -> (r: Option<Self>)
        ensures
            r == Self::named(s@),
    {
        if str_eq(s, "abort") {
            Some(ConflictPolicy::Abort)
        } else if str_eq(s, "skip") {
            Some(ConflictPolicy::Skip)
        } else if str_eq(s, "serial") {
            Some(ConflictPolicy::Serial)
        } else if str_eq(s, "first") {
            Some(ConflictPolicy::First)
        } else {
            None
        }
    }
}

impl HardlinkPolicy {
    pub open spec fn named(s: Seq<char>) -> Option<HardlinkPolicy> {
        if s == "abort"@ {
            Some(HardlinkPolicy::Abort)
        } else if s == "skip"@ {
            Some(HardlinkPolicy::Skip)
        } else if s == "all"@ {
            Some(HardlinkPolicy::All)
        } else {
            None
        }
    }

    pub fn from_name(s: &str) -> (r: Option<Self>)
        ensures
            r == Self::named(s@),
    {
        if str_eq(s, "abort") {
            Some(HardlinkPolicy::Abort)
        } else if str_eq(s, "skip") {
            Some(HardlinkPolicy::Skip)
        } else if str_eq(s, "all") {
            Some(HardlinkPolicy::All)
        } else {
            None
        }
    }
}

impl SkipScope {
    pub open spec fn named(s: Seq<char>) -> Option<SkipScope> {
        if s == "item"@ {
            Some(SkipScope::Item)
        } else if s == "fs_only"@ {
            Some(SkipScope::FsOnly)
        } else {
            None
        }
    }

    pub fn from_name(s: &str) -> (r: Option<Self>)
        ensures
            r == Self::named(s@),
    {
        if str_eq(s, "item") {
            Some(SkipScope::Item)
        } else if str_eq(s, "fs_only") {
            Some(SkipScope::FsOnly)
        } else {
            None
        }
    }
}

/// The settings for edits.
#[derive(Clone, Copy, Debug, PartialEq, Eq, Structural)]
pub struct EditConfig {
    pub confirm: ConfirmMode,
    pub on_conflict: Option<ConflictPolicy>,
    pub on_hardlink: Option<HardlinkPolicy>,
    pub skip_scope: SkipScope,
}

impl EditConfig {
    pub open spec fn usual() -> EditConfig {
        EditConfig {
            confirm: ConfirmMode::Auto,
            on_conflict: None,
            on_hardlink: None,
            skip_scope: SkipScope::Item,
        }
    }
}

impl Default for EditConfig {
    fn default() -> (r: Self)
        ensures
            r == EditConfig::usual(),
    {
        EditConfig {
            confirm: ConfirmMode::Auto,
            on_conflict: None,
            on_hardlink: None,
            skip_scope: SkipScope::Item,
        }
    }
}

/// Whether a plugin is switched on.
#[derive(Debug, PartialEq, Eq)]
pub struct PluginStatus {
    pub name: String,
    pub enabled: bool,
}

/// The settings for plugins: whether any are loaded, and which are switched on or off.
#[derive(Debug, PartialEq, Eq)]
pub struct PluginsConfig {
    pub enabled: bool,
    pub status: Vec<PluginStatus>,
}

pub open spec fn status_models(v: Seq<PluginStatus>) -> Seq<(Seq<char>, bool)> {
    v.map_values(|p: PluginStatus| (p.name@, p.enabled))
}

/// The status that is set for a plugin.
pub open spec fn status_of(v: Seq<(Seq<char>, bool)>, name: Seq<char>) -> Option<bool>
    decreases v.len(),
{
    if v.len() == 0 {
        None
    } else if v[0].0 == name {
        Some(v[0].1)
    } else {
        status_of(v.skip(1), name)
    }
}

impl Default for PluginsConfig {
    fn default() -> (r: Self)
        ensures
            r.enabled,
            r.status@.len() == 0,
    {
        PluginsConfig { enabled: true, status: Vec::new() }
    }
}

impl PluginsConfig {
    /// The status that is set for a plugin.
    pub fn status(&self, name: &str) -> (r: Option<bool>)
        ensures
            r == status_of(status_models(self.status@), name@),
    {
        let ghost ms = status_models(self.status@);
        let mut i: usize = 0;
        proof {
            assert(ms.skip(0) =~= ms);
        }
        while i < self.status.len()
            invariant
                i <= self.status@.len(),
                ms == status_models(self.status@),
                status_of(ms, name@) == status_of(ms.skip(i as int), name@),
            decreases self.status@.len() - i,
        {
            proof {
                assert(ms.skip(i as int).skip(1) =~= ms.skip(i + 1));
            }
            if str_eq(self.status[i].name.as_str(), name) {
                return Some(self.status[i].enabled);
            }
            i += 1;
        }
        None
    }
}

/// All settings.
#[derive(Debug, PartialEq, Eq)]
pub struct Config {
    pub plugins: PluginsConfig,
    pub edit: EditConfig,
}

/// The settings as a file gives them: what it does not mention is absent.
#[derive(Debug)]
pub struct RawConfig {
    pub plugins_enabled: Option<bool>,
    pub plugin_status: Vec<PluginStatus>,
    pub confirm: Option<String>,
    pub on_conflict: Option<String>,
    pub on_hardlink: Option<String>,
    pub skip_scope: Option<String>,
}

/// A value that a setting does not know.
#[derive(Debug, PartialEq, Eq)]
pub struct UnknownValue {
    pub value: String,
}

/// A setting: the value where none is given, the value of the name that is given, or the
/// name that stands for none.
pub open spec fn setting<T>(given: Option<Seq<char>>, usual: T, named: Option<T>) -> Result<
    T,
    Seq<char>,
> {
    match given {
        None => Ok(usual),
        Some(s) => match named {
            Some(v) => Ok(v),
            None => Err(s),
        },
    }
}

pub open spec fn name_or_empty(o: Option<String>) -> Seq<char> {
    match o {
        Some(s) => s@,
        None => seq![],
    }
}

pub open spec fn wrapped<T>(o: Option<T>) -> Option<Option<T>> {
    match o {
        Some(v) => Some(Some(v)),
        None => None,
    }
}

/// The settings for edits that a file gives; the first of them that is not known fails.
pub open spec fn edit_settings(raw: RawConfig) -> Result<EditConfig, Seq<char>> {
    let usual = EditConfig::usual();
    match setting(
        path::opt_text(raw.confirm),
        usual.confirm,
        ConfirmMode::named(name_or_empty(raw.confirm)),
    ) {
        Err(e) => Err(e),
        Ok(confirm) => match setting(
            path::opt_text(raw.on_conflict),
            usual.on_conflict,
            wrapped(ConflictPolicy::named(name_or_empty(raw.on_conflict))),
        ) {
            Err(e) => Err(e),
            Ok(on_conflict) => match setting(
                path::opt_text(raw.on_hardlink),
                usual.on_hardlink,
                wrapped(HardlinkPolicy::named(name_or_empty(raw.on_hardlink))),
            ) {
                Err(e) => Err(e),
                Ok(on_hardlink) => match setting(
                    path::opt_text(raw.skip_scope),
                    usual.skip_scope,
                    SkipScope::named(name_or_empty(raw.skip_scope)),
                ) {
                    Err(e) => Err(e),
                    Ok(skip_scope) => Ok(
                        EditConfig { confirm, on_conflict, on_hardlink, skip_scope },
                    ),
                },
            },
        },
    }
}

impl Default for Config {
    fn default() -> (r: Self)
        ensures
            r.plugins.enabled,
            r.plugins.status@.len() == 0,
            r.edit == EditConfig::usual(),
    {
        Config::new()
    }
}

impl Config {
    /// The settings where no file gives any.
    pub fn new() -> (r: Self)
        ensures
            r.plugins.enabled,
            r.plugins.status@.len() == 0,
            r.edit == EditConfig::usual(),
    {
        Config { plugins: PluginsConfig::default(), edit: EditConfig::default() }
    }

    /// The settings that a file gives, completed with the usual ones.
    pub fn from_raw(raw: RawConfig) -> (r: Result<Self, UnknownValue>)
        ensures
            match r {
                Ok(c) => edit_settings(raw) == Ok::<EditConfig, Seq<char>>(c.edit)
                    && c.plugins.status == raw.plugin_status && c.plugins.enabled == (
                match raw.plugins_enabled {
                    Some(b) => b,
                    None => true,
                }),
                Err(e) => edit_settings(raw) == Err::<EditConfig, Seq<char>>(e.value@),
            },
    {
        let mut edit = EditConfig::default();
        match &raw.confirm {
            None => {},
            Some(s) => match ConfirmMode::from_name(s.as_str()) {
                Some(v) => {
                    edit.confirm = v;
                },
                None => {
                    return Err(UnknownValue { value: s.clone() });
                },
            },
        }
        match &raw.on_conflict {
            None => {},
            Some(s) => match ConflictPolicy::from_name(s.as_str()) {
                Some(v) => {
                    edit.on_conflict = Some(v);
                },
                None => {
                    return Err(UnknownValue { value: s.clone() });
                },
            },
        }
        match &raw.on_hardlink {
            None => {},
            Some(s) => match HardlinkPolicy::from_name(s.as_str()) {
                Some(v) => {
                    edit.on_hardlink = Some(v);
                },
                None => {
                    return Err(UnknownValue { value: s.clone() });
                },
            },
        }
        match &raw.skip_scope {
            None => {},
            Some(s) => match SkipScope::from_name(s.as_str()) {
                Some(v) => {
                    edit.skip_scope = v;
                },
                None => {
                    return Err(UnknownValue { value: s.clone() });
                },
            },
        }
        let enabled = match raw.plugins_enabled {
            Some(b) => b,
            None => true,
        };
        Ok(Config { plugins: PluginsConfig { enabled, status: raw.plugin_status }, edit })
    }

    /// The settings that a file gives, where it could be read; the usual ones where it could
    /// not, or where it holds a value that is unknown.
    pub fn load(file: Option<RawConfig>) -> (r: Self)
        ensures
            match file {
                Some(raw) if edit_settings(raw) is Ok => edit_settings(raw) == Ok::<
                    EditConfig,
                    Seq<char>,
                >(r.edit) && r.plugins.status == raw.plugin_status && r.plugins.enabled == (
                match raw.plugins_enabled {
                    Some(b) => b,
                    None => true,
                }),
                _ => r.plugins.enabled && r.plugins.status@.len() == 0 && r.edit
                    == EditConfig::usual(),
            },
    {
        match file {
            Some(raw) => match Config::from_raw(raw) {
                Ok(c) => c,
                Err(_) => Config::new(),
            },
            None => Config::new(),
        }
    }
}

// ---------------------------------------------------------------------------
// Laws
// ---------------------------------------------------------------------------

/// No two names stand for the same value of a setting.
pub proof fn law_values_have_one_name(a: Seq<char>, b: Seq<char>)
    ensures
        ConfirmMode::named(a) is Some && ConfirmMode::named(a) == ConfirmMode::named(b) ==> a == b,
        ConflictPolicy::named(a) is Some && ConflictPolicy::named(a) == ConflictPolicy::named(b)
            ==> a == b,
        HardlinkPolicy::named(a) is Some && HardlinkPolicy::named(a) == HardlinkPolicy::named(b)
            ==> a == b,
        SkipScope::named(a) is Some && SkipScope::named(a) == SkipScope::named(b) ==> a == b,
{
}

/// Each value of a setting has a name. The results are the names.
pub proof fn law_values_can_be_named(
    c: ConfirmMode,
    p: ConflictPolicy,
    h: HardlinkPolicy,
    k: SkipScope,
) -> (r: (Seq<char>, Seq<char>, Seq<char>, Seq<char>))
    ensures
        ConfirmMode::named(r.0) == Some(c),
        ConflictPolicy::named(r.1) == Some(p),
        HardlinkPolicy::named(r.2) == Some(h),
        SkipScope::named(r.3) == Some(k),
{
    reveal_strlit("auto");
    reveal_strlit("always");
    reveal_strlit("never");
    reveal_strlit("abort");
    reveal_strlit("skip");
    reveal_strlit("serial");
    reveal_strlit("first");
    reveal_strlit("all");
    reveal_strlit("item");
    reveal_strlit("fs_only");
    assert("auto"@.len() == 4 && "always"@.len() == 6 && "never"@.len() == 5);
    assert("abort"@.len() == 5 && "skip"@.len() == 4 && "serial"@.len() == 6);
    assert("abort"@[0] == 'a' && "first"@[0] == 'f' && "first"@.len() == 5);
    assert("all"@.len() == 3 && "item"@.len() == 4 && "fs_only"@.len() == 7);
    let mode = match c {
        ConfirmMode::Auto => "auto"@,
        ConfirmMode::Always => "always"@,
        ConfirmMode::Never => "never"@,
    };
    let policy = match p {
        ConflictPolicy::Abort => "abort"@,
        ConflictPolicy::Skip => "skip"@,
        ConflictPolicy::Serial => "serial"@,
        ConflictPolicy::First => "first"@,
    };
    let paths = match h {
        HardlinkPolicy::Abort => "abort"@,
        HardlinkPolicy::Skip => "skip"@,
        HardlinkPolicy::All => "all"@,
    };
    let scope = match k {
        SkipScope::Item => "item"@,
        SkipScope::FsOnly => "fs_only"@,
    };
    (mode, policy, paths, scope)
}

/// The settings for edits are those that a file names, and the usual ones where it names none;
/// a name that stands for nothing is refused, and it alone.
pub proof fn law_given_settings_count(raw: RawConfig)
    ensures
        edit_settings(raw) matches Ok(e) ==> {
            &&& match raw.confirm {
                Some(s) => ConfirmMode::named(s@) == Some(e.confirm),
                None => e.confirm == ConfirmMode::Auto,
            }
            &&& match raw.on_conflict {
                Some(s) => ConflictPolicy::named(s@) == e.on_conflict && e.on_conflict is Some,
                None => e.on_conflict is None,
            }
            &&& match raw.on_hardlink {
                Some(s) => HardlinkPolicy::named(s@) == e.on_hardlink && e.on_hardlink is Some,
                None => e.on_hardlink is None,
            }
            &&& match raw.skip_scope {
                Some(s) => SkipScope::named(s@) == Some(e.skip_scope),
                None => e.skip_scope == SkipScope::Item,
            }
        },
        edit_settings(raw) is Err <==> {
            ||| raw.confirm matches Some(s) && ConfirmMode::named(s@) is None
            ||| raw.on_conflict matches Some(s) && ConflictPolicy::named(s@) is None
            ||| raw.on_hardlink matches Some(s) && HardlinkPolicy::named(s@) is None
            ||| raw.skip_scope matches Some(s) && SkipScope::named(s@) is None
        },
{
}

/// The status of a plugin is the first that is set for its name; one that is not named has
/// none.
pub proof fn law_first_status_counts(v: Seq<(Seq<char>, bool)>, name: Seq<char>, k: int)
    requires
        0 <= k < v.len(),
        forall|i: int| 0 <= i < k ==> (#[trigger] v[i]).0 != name,
    ensures
        v[k].0 == name ==> status_of(v, name) == Some(v[k].1),
        k == v.len() - 1 && v[k].0 != name ==> status_of(v, name) is None,
    decreases v.len(),
{
    let rest = v.skip(1);
    if k > 0 {
        assert(v[0].0 != name);
        assert forall|i: int| 0 <= i < k - 1 implies (#[trigger] rest[i]).0 != name by {
            assert(rest[i] == v[i + 1]);
        }
        law_first_status_counts(rest, name, k - 1);
        assert(rest[k - 1] == v[k]);
    } else if v.len() == 1 {
        assert(rest.len() == 0);
        assert(status_of(rest, name) is None);
    }
}

} // verus!
