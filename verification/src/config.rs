//! The configuration of the rewriter: the patterns of barrel files, the
//! aliases, the links, and the two modes that say how much a finding weighs.

use crate::text::{copy_strings, glue3, pair_views, same_str, views};
use vstd::prelude::*;

verus! {

/// What to do with an import that cannot be rewritten, such as a namespace
/// import of a barrel file.
#[derive(Debug, Clone, Copy, PartialEq, Eq, Structural)]
pub enum UnsupportedImportMode {
    /// Fail the file.
    Error,
    /// Warn and leave the import out of the rewrite.
    Warn,
    /// Leave the import out of the rewrite without a word.
    Off,
}

/// What to do with a barrel file that is not made of re-exports alone.
#[derive(Debug, Clone, Copy, PartialEq, Eq, Structural)]
pub enum InvalidBarrelMode {
    /// Fail the file.
    Error,
    /// Warn and leave the import as it is.
    Warn,
    /// Leave the import as it is without a word.
    Off,
}

/// The name of a mode in the configuration: 0 for `error`, 1 for `warn`,
/// 2 for `off`.
pub open spec fn mode_name(level: int) -> Seq<char> {
    if level == 0 {
        "error"@
    } else if level == 1 {
        "warn"@
    } else {
        "off"@
    }
}

/// The message for a name that names no mode of the setting `setting`.
pub open spec fn invalid_mode_message(setting: Seq<char>, name: Seq<char>) -> Seq<char> {
    "Invalid "@ + setting + " '"@ + name + "'. Valid options are: error, warn, off"@
}

/// The three names of the modes differ from each other.
pub proof fn lemma_mode_names_differ()
    ensures
        mode_name(0) != mode_name(1),
        mode_name(0) != mode_name(2),
        mode_name(1) != mode_name(2),
{
    reveal_strlit("error");
    reveal_strlit("warn");
    reveal_strlit("off");
    assert(mode_name(0).len() == 5);
    assert(mode_name(1).len() == 4);
    assert(mode_name(2).len() == 3);
}

fn level_of_name(name: &str) -> (r: Option<u8>)
    ensures
        match r {
            Some(level) => level <= 2 && name@ == mode_name(level as int),
            None => forall|level: int| name@ != #[trigger] mode_name(level),
        },
{
    if same_str(name, "error") {
        Some(0)
    } else if same_str(name, "warn") {
        Some(1)
    } else if same_str(name, "off") {
        Some(2)
    } else {
        None
    }
}

fn invalid_mode(setting: &str, name: &str) -> (r: String)
    ensures
        r@ == invalid_mode_message(setting@, name@),
{
    let head = glue3("Invalid ", setting, " '");
    glue3(head.as_str(), name, "'. Valid options are: error, warn, off")
}

impl UnsupportedImportMode {
    /// The place of the mode among the three: see [`mode_name`].
    pub open spec fn level(self) -> int {
        match self {
            UnsupportedImportMode::Error => 0,
            UnsupportedImportMode::Warn => 1,
            UnsupportedImportMode::Off => 2,
        }
    }

    /// The name of the mode in the configuration.
    pub fn to_string(&self) -> (r: String)
        ensures
            r@ == mode_name(self.level()),
    {
        match self {
            UnsupportedImportMode::Error => "error".to_owned(),
            UnsupportedImportMode::Warn => "warn".to_owned(),
            UnsupportedImportMode::Off => "off".to_owned(),
        }
    }

    /// The mode of the name `name`; any other text than the three names is
    /// refused.
    pub fn from_name(name: &str) -> (r: Result<Self, String>)
        ensures
            match r {
                Ok(mode) => name@ == mode_name(mode.level()),
                Err(message) => {
                    &&& forall|level: int| name@ != #[trigger] mode_name(level)
                    &&& message@ == invalid_mode_message("unsupported_import_mode"@, name@)
                },
            },
    {
        match level_of_name(name) {
            Some(0) => Ok(UnsupportedImportMode::Error),
            Some(1) => Ok(UnsupportedImportMode::Warn),
            Some(_) => Ok(UnsupportedImportMode::Off),
            None => Err(invalid_mode("unsupported_import_mode", name)),
        }
    }
}

impl Default for UnsupportedImportMode {
    fn default() -> (r: Self)
        ensures
            r == UnsupportedImportMode::Error,
    {
        UnsupportedImportMode::Error
    }
}

impl InvalidBarrelMode {
    /// The place of the mode among the three: see [`mode_name`].
    pub open spec fn level(self) -> int {
        match self {
            InvalidBarrelMode::Error => 0,
            InvalidBarrelMode::Warn => 1,
            InvalidBarrelMode::Off => 2,
        }
    }

    /// The name of the mode in the configuration.
    pub fn to_string(&self) -> (r: String)
        ensures
            r@ == mode_name(self.level()),
    {
        match self {
            InvalidBarrelMode::Error => "error".to_owned(),
            InvalidBarrelMode::Warn => "warn".to_owned(),
            InvalidBarrelMode::Off => "off".to_owned(),
        }
    }

    /// The mode of the name `name`; any other text than the three names is
    /// refused.
    pub fn from_name(name: &str) -> (r: Result<Self, String>)
        ensures
            match r {
                Ok(mode) => name@ == mode_name(mode.level()),
                Err(message) => {
                    &&& forall|level: int| name@ != #[trigger] mode_name(level)
                    &&& message@ == invalid_mode_message("invalid_barrel_mode"@, name@)
                },
            },
    {
        match level_of_name(name) {
            Some(0) => Ok(InvalidBarrelMode::Error),
            Some(1) => Ok(InvalidBarrelMode::Warn),
            Some(_) => Ok(InvalidBarrelMode::Off),
            None => Err(invalid_mode("invalid_barrel_mode", name)),
        }
    }
}

impl Default for InvalidBarrelMode {
    fn default() -> (r: Self)
        ensures
            r == InvalidBarrelMode::Error,
    {
        InvalidBarrelMode::Error
    }
}

/// A rule that resolves the imports that match a pattern.
#[derive(Debug, Clone)]
pub struct Alias {
    /// The pattern that an import specifier must match.
    pub pattern: String,
    /// The templates of the files that the import may stand for, the first
    /// that exists being taken.
    pub paths: Vec<String>,
    /// The directories in whose files the rule holds; everywhere if absent.
    pub context: Option<Vec<String>>,
}

/// A rule with its texts as sequences of characters.
pub struct AliasView {
    pub pattern: Seq<char>,
    pub paths: Seq<Seq<char>>,
    pub context: Option<Seq<Seq<char>>>,
}

impl View for Alias {
    type V = AliasView;

    open spec fn view(&self) -> AliasView {
        AliasView {
            pattern: self.pattern@,
            paths: views(self.paths@),
            context: match self.context {
                Some(list) => Some(views(list@)),
                None => None,
            },
        }
    }
}

impl Alias {
    /// A rule with the same pattern, templates and context.
    pub fn duplicate(&self) -> (r: Self)
        ensures
            r@ == self@,
    {
        Alias {
            pattern: self.pattern.clone(),
            paths: copy_strings(&self.paths),
            context: match &self.context {
                Some(list) => Some(copy_strings(list)),
                None => None,
            },
        }
    }
}

/// The configuration of the rewriter.
#[derive(Debug, Clone)]
pub struct Config {
    /// The patterns of the files that count as barrel files.
    pub patterns: Vec<String>,
    /// The rules that resolve aliased imports.
    pub aliases: Option<Vec<Alias>>,
    /// The links, each from a path outside the working directory to a path
    /// inside it.
    pub symlinks: Option<Vec<(String, String)>>,
    /// Whether to report what is done.
    pub debug: Option<bool>,
    /// What to do with an import that cannot be rewritten.
    pub unsupported_import_mode: UnsupportedImportMode,
    /// What to do with a barrel file that is not valid.
    pub invalid_barrel_mode: InvalidBarrelMode,
}

/// A configuration with its texts as sequences of characters.
pub struct ConfigView {
    pub patterns: Seq<Seq<char>>,
    pub aliases: Option<Seq<AliasView>>,
    pub symlinks: Option<Seq<(Seq<char>, Seq<char>)>>,
    pub debug: Option<bool>,
    pub unsupported_import_mode: UnsupportedImportMode,
    pub invalid_barrel_mode: InvalidBarrelMode,
}

impl View for Config {
    type V = ConfigView;

    open spec fn view(&self) -> ConfigView {
        ConfigView {
            patterns: views(self.patterns@),
            aliases: match self.aliases {
                Some(list) => Some(views(list@)),
                None => None,
            },
            symlinks: match self.symlinks {
                Some(list) => Some(pair_views(list@)),
                None => None,
            },
            debug: self.debug,
            unsupported_import_mode: self.unsupported_import_mode,
            invalid_barrel_mode: self.invalid_barrel_mode,
        }
    }
}

fn copy_aliases(v: &Vec<Alias>) -> (r: Vec<Alias>)
    ensures
        views(r@) == views(v@),
{
    let mut r: Vec<Alias> = Vec::new();
    let mut i: usize = 0;
    while i < v.len()
        invariant
            i <= v.len(),
            views(r@) =~= views(v@).take(i as int),
        decreases v.len() - i,
    {
        let ghost before = views(r@);
        r.push(v[i].duplicate());
        assert(views(r@) =~= before.push(v@[i as int]@));
        i += 1;
    }
    assert(views(v@).take(v@.len() as int) =~= views(v@));
    r
}

fn copy_links(v: &Vec<(String, String)>) -> (r: Vec<(String, String)>)
    ensures
        pair_views(r@) == pair_views(v@),
{
    let mut r: Vec<(String, String)> = Vec::new();
    let mut i: usize = 0;
    while i < v.len()
        invariant
            i <= v.len(),
            pair_views(r@) =~= pair_views(v@).take(i as int),
        decreases v.len() - i,
    {
        let ghost before = pair_views(r@);
        r.push((v[i].0.clone(), v[i].1.clone()));
        assert(pair_views(r@) =~= before.push(pair_views(v@)[i as int]));
        i += 1;
    }
    assert(pair_views(v@).take(v@.len() as int) =~= pair_views(v@));
    r
}

impl Config {
    /// A configuration with the same settings.
    pub fn duplicate(&self) -> (r: Self)
        ensures
            r@ == self@,
    {
        Config {
            patterns: copy_strings(&self.patterns),
            aliases: match &self.aliases {
                Some(list) => Some(copy_aliases(list)),
                None => None,
            },
            symlinks: match &self.symlinks {
                Some(list) => Some(copy_links(list)),
                None => None,
            },
            debug: self.debug,
            unsupported_import_mode: self.unsupported_import_mode,
            invalid_barrel_mode: self.invalid_barrel_mode,
        }
    }
}

} // verus!
