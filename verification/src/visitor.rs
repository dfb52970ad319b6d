//! The rewriter for one file: what it is set up with, how it finds the
//! barrel file that an import names, which step comes next for an import,
//! and how the imports that it made take the place of the imports of the
//! module.

use crate::alias_resolver::{
    declared_rules, evaluation_order, first_match, resolution, rule_views, rules_in_order,
    AliasResolver, Resolution, ResolutionView,
};
use crate::cache::{known, PathCache};
use crate::config::{AliasView, Config, ConfigView, InvalidBarrelMode};
use crate::import_transformer::{
    rewritten, transform_import, ImportDecl, ImportDeclView, Rewrite, RewriteView, Setting,
};
use crate::path_resolver::{
    covers, holds, invalid_path_message, link_table, resolved, virtual_path, PathResolver,
};
use crate::paths::{dirname, is_absolute, joined, parent, path_join};
use crate::pattern_matcher::{pattern_matches, wildcard, CompiledPattern};
use crate::re_export::{
    analysis, analyze_barrel_file, fault_text, BarrelFault, Module, ReExport, ReExportView,
};
use crate::text::{chars_of, glue, glue3, same_str, split, views};
use vstd::prelude::*;

verus! {

/// The rewriter for one file.
pub struct BarrelTransformVisitor {
    source_dir: String,
    alias_resolver: AliasResolver,
    path_resolver: PathResolver,
    patterns: Vec<String>,
    compiled_patterns: Vec<CompiledPattern>,
    debug: bool,
    config: Config,
}

/// The patterns of barrel files as virtual paths: the first `n` of
/// `patterns`, each joined to `cwd` and mapped into the virtual file system,
/// or the failure of the first that has no place there.
pub open spec fn barrel_patterns(patterns: Seq<Seq<char>>, cwd: Seq<char>, n: int) -> Result<
    Seq<Seq<char>>,
    Seq<char>,
>
    decreases n,
{
    if n <= 0 {
        Ok(Seq::empty())
    } else {
        match barrel_patterns(patterns, cwd, n - 1) {
            Err(message) => Err(message),
            Ok(list) => match virtual_path(cwd, joined(cwd, patterns[n - 1])) {
                Some(pattern) => Ok(list.push(pattern)),
                None => Err(invalid_path_message(joined(cwd, patterns[n - 1]))),
            },
        }
    }
}

/// The file that is rewritten as an absolute path: `filename` seen from
/// `cwd`, led through the links.
pub open spec fn source_file(
    links: Seq<(Seq<char>, Seq<char>)>,
    cwd: Seq<char>,
    filename: Seq<char>,
) -> Seq<char> {
    joined(cwd, resolved(links, cwd, joined(cwd, filename)))
}

/// Whether `path` matches one of `patterns`.
pub open spec fn matches_any(patterns: Seq<Seq<char>>, path: Seq<char>) -> bool {
    exists|i: int|
        0 <= i < patterns.len() && pattern_matches(
            split(#[trigger] patterns[i], wildcard()),
            path,
        )
}

/// The barrel file that the local import `import_path` names for a file in
/// `source_dir`: the import seen from that directory where it is relative,
/// led through the links and mapped into the virtual file system, if it has
/// a place there and matches a pattern of barrel files.
pub open spec fn local_barrel(
    patterns: Seq<Seq<char>>,
    links: Seq<(Seq<char>, Seq<char>)>,
    cwd: Seq<char>,
    source_dir: Seq<char>,
    import_path: Seq<char>,
) -> Option<Seq<char>> {
    let path = if import_path.len() > 0 && import_path[0] == '.' {
        joined(source_dir, import_path)
    } else {
        import_path
    };
    match virtual_path(cwd, resolved(links, cwd, path)) {
        Some(file) => if matches_any(patterns, file) {
            Some(file)
        } else {
            None
        },
        None => None,
    }
}

/// What the rules make of an import, with a file that is no barrel file
/// taken for no match.
pub open spec fn barrel_of(found: ResolutionView, patterns: Seq<Seq<char>>) -> ResolutionView {
    match found {
        ResolutionView::Resolved(file) => if matches_any(patterns, file) {
            found
        } else {
            ResolutionView::Unmatched
        },
        _ => found,
    }
}

/// An import is resolved through the rules where it neither begins with a
/// dot nor is an absolute path.
pub open spec fn is_aliased(import_path: Seq<char>) -> bool {
    !(import_path.len() > 0 && import_path[0] == '.') && !is_absolute(import_path)
}

/// The message for a barrel file that is not valid.
pub open spec fn invalid_barrel_message(file_path: Seq<char>, fault: BarrelFault) -> Seq<char> {
    "E_INVALID_BARREL_FILE: Invalid barrel file "@ + file_path + ": "@ + fault_text(fault)
}

/// What the analysis of a barrel file comes to under a mode.
#[derive(Debug, Clone, PartialEq)]
pub struct BarrelExports {
    /// The re-exports; nothing where the file is no valid barrel file and
    /// the mode lets that pass.
    pub re_exports: Option<Vec<ReExport>>,
    /// The warning, where the mode asks for one.
    pub warning: Option<String>,
}

/// The parts of a [`BarrelExports`] by their views.
pub struct BarrelExportsView {
    pub re_exports: Option<Seq<ReExportView>>,
    pub warning: Option<Seq<char>>,
}

impl View for BarrelExports {
    type V = BarrelExportsView;

    open spec fn view(&self) -> BarrelExportsView {
        BarrelExportsView {
            re_exports: match self.re_exports {
                Some(list) => Some(views(list@)),
                None => None,
            },
            warning: match self.warning {
                Some(text) => Some(text@),
                None => None,
            },
        }
    }
}

/// What a module comes to as a barrel file under `mode`: its re-exports
/// where it is valid; else a failure, a warning or nothing, as the mode
/// says.
pub open spec fn barrel_exports(
    body: Seq<crate::re_export::ModuleItem>,
    file_path: Seq<char>,
    mode: InvalidBarrelMode,
) -> Result<BarrelExportsView, Seq<char>> {
    match analysis(body, file_path) {
        Ok(list) => Ok(BarrelExportsView { re_exports: Some(list), warning: None }),
        Err(fault) => match mode {
            InvalidBarrelMode::Error => Err(invalid_barrel_message(file_path, fault)),
            InvalidBarrelMode::Warn => Ok(
                BarrelExportsView {
                    re_exports: None,
                    warning: Some("Warning: "@ + invalid_barrel_message(file_path, fault)),
                },
            ),
            InvalidBarrelMode::Off => Ok(BarrelExportsView { re_exports: None, warning: None }),
        },
    }
}

/// Analyses the module `ast`, read from `file_path`, as a barrel file, and
/// weighs what is found by the mode of the configuration: see
/// [`barrel_exports`].
pub fn parse_barrel_file_exports(file_path: &str, ast: &Module, config: &Config) -> (r: Result<
    BarrelExports,
    String,
>)
    ensures
        match barrel_exports(ast.body@, file_path@, config.invalid_barrel_mode) {
            Ok(exports) => r is Ok && r->Ok_0@ == exports,
            Err(message) => r is Err && r->Err_0@ == message,
        },
{
    match analyze_barrel_file(ast, file_path) {
        Ok(re_exports) => Ok(BarrelExports { re_exports: Some(re_exports), warning: None }),
        Err(e) => {
            let head = glue3("E_INVALID_BARREL_FILE: Invalid barrel file ", file_path, ": ");
            let error_msg = glue(head.as_str(), e.to_string().as_str());
            match config.invalid_barrel_mode {
                InvalidBarrelMode::Error => Err(error_msg),
                InvalidBarrelMode::Warn => Ok(
                    BarrelExports {
                        re_exports: None,
                        warning: Some(glue("Warning: ", error_msg.as_str())),
                    },
                ),
                InvalidBarrelMode::Off => Ok(BarrelExports { re_exports: None, warning: None }),
            }
        },
    }
}

/// The re-exports that a cache of barrel files keeps for a path: those of
/// a valid barrel file, and nothing for a file that was let pass as no
/// barrel file.
pub open spec fn kept_exports(entry: Option<Vec<ReExport>>) -> Option<Seq<ReExportView>> {
    match entry {
        Some(list) => Some(views(list@)),
        None => None,
    }
}

/// Keeps in `cache` what the analysis of the barrel file `file_path` came
/// to, unless the cache has an entry for it, and says whether it did.
pub fn remember_barrel_exports(
    cache: &mut PathCache<Option<Vec<ReExport>>>,
    file_path: &str,
    exports: &BarrelExports,
) -> (stored: bool)
    ensures
        stored == (known(old(cache).keys(), old(cache).values(), file_path@) is None),
        stored ==> {
            &&& final(cache).keys() == old(cache).keys().push(file_path@)
            &&& final(cache).values().len() == old(cache).values().len() + 1
            &&& final(cache).values().drop_last() == old(cache).values()
            &&& kept_exports(final(cache).values().last()) == exports@.re_exports
        },
        !stored ==> final(cache).keys() == old(cache).keys() && final(cache).values() == old(
            cache,
        ).values(),
{
    let copy = match &exports.re_exports {
        None => None,
        Some(list) => {
            let mut out: Vec<ReExport> = Vec::new();
            let mut i: usize = 0;
            while i < list.len()
                invariant
                    i <= list.len(),
                    views(out@) =~= views(list@).take(i as int),
                decreases list.len() - i,
            {
                let ghost before = views(out@);
                out.push(
                    ReExport {
                        exported_name: list[i].exported_name.clone(),
                        source_path: list[i].source_path.clone(),
                        original_name: list[i].original_name.clone(),
                        is_default: list[i].is_default,
                    },
                );
                assert(views(out@) =~= before.push(list@[i as int]@));
                i += 1;
            }
            assert(views(list@).take(list@.len() as int) =~= views(list@));
            Some(out)
        },
    };
    let ghost before = cache.values();
    let stored = cache.insert(file_path, copy);
    proof {
        if stored {
            assert(before.push(copy).drop_last() =~= before);
        }
    }
    stored
}

/// What is to be done next for an import.
#[derive(Debug, Clone, PartialEq)]
pub enum Progress {
    /// The import stays as it is, with a warning where one is due.
    Keep { warning: Option<String> },
    /// Whether this file exists decides how to go on.
    Probe(String),
    /// The module of this barrel file is needed.
    Parse(String),
    /// These statements take the place of the import.
    Replace(Rewrite),
}

/// A step with its texts as sequences of characters.
pub enum ProgressView {
    Keep { warning: Option<Seq<char>> },
    Probe(Seq<char>),
    Parse(Seq<char>),
    Replace(RewriteView),
}

impl View for Progress {
    type V = ProgressView;

    open spec fn view(&self) -> ProgressView {
        match self {
            Progress::Keep { warning } => ProgressView::Keep { warning: option_view(*warning) },
            Progress::Probe(path) => ProgressView::Probe(path@),
            Progress::Parse(path) => ProgressView::Parse(path@),
            Progress::Replace(rewrite) => ProgressView::Replace(rewrite@),
        }
    }
}

/// The texts of the patterns of `v`.
pub open spec fn pattern_parts(v: Seq<CompiledPattern>) -> Seq<Seq<Seq<char>>> {
    Seq::new(v.len(), |i: int| v[i].literals())
}

/// The patterns of `texts`, each split at its wildcards.
pub open spec fn split_all(texts: Seq<Seq<char>>) -> Seq<Seq<Seq<char>>> {
    Seq::new(texts.len(), |i: int| split(texts[i], wildcard()))
}

impl BarrelTransformVisitor {
    /// The directory of the file that is rewritten, as a virtual path.
    pub closed spec fn source_dir(&self) -> Seq<char> {
        self.source_dir@
    }

    /// The working directory.
    pub closed spec fn cwd(&self) -> Seq<char> {
        self.path_resolver.cwd()
    }

    /// The links.
    pub closed spec fn links(&self) -> Seq<(Seq<char>, Seq<char>)> {
        self.path_resolver.links()
    }

    /// The patterns of barrel files, as virtual paths.
    pub closed spec fn patterns(&self) -> Seq<Seq<char>> {
        views(self.patterns@)
    }

    /// Whether the rewriter reports what it does.
    pub closed spec fn reports(&self) -> bool {
        self.debug
    }

    #[verifier::type_invariant]
    closed spec fn consistent(&self) -> bool {
        &&& pattern_parts(self.compiled_patterns@) == split_all(views(self.patterns@))
        &&& self.alias_resolver.resolver_cwd() == self.path_resolver.cwd()
        &&& self.alias_resolver.links() == self.path_resolver.links()
    }

    /// The rules for the file, in the order in which they are tried.
    pub closed spec fn rules(&self) -> Seq<(int, crate::config::AliasView)> {
        rule_views(self.alias_resolver.compiled())
    }

    /// The configuration that the rewriter was set up with.
    pub closed spec fn settings(&self) -> ConfigView {
        self.config@
    }

    /// The mode for imports that cannot be rewritten.
    pub open spec fn unsupported_import_mode(&self) -> crate::config::UnsupportedImportMode {
        self.settings().unsupported_import_mode
    }

    /// The mode for barrel files that are not valid.
    pub open spec fn invalid_barrel_mode(&self) -> InvalidBarrelMode {
        self.settings().invalid_barrel_mode
    }
}


/// What setting up the rewriter for a file comes to: the failure of a
/// pattern or of a rule; nothing for a file outside the working directory;
/// else the virtual path of the file.
pub open spec fn setup(config: ConfigView, cwd: Seq<char>, filename: Seq<char>) -> Result<
    Option<Seq<char>>,
    Seq<char>,
> {
    let links = match config.symlinks {
        Some(list) => link_table(list, cwd),
        None => Seq::empty(),
    };
    match barrel_patterns(config.patterns, cwd, config.patterns.len() as int) {
        Err(message) => Err(message),
        Ok(_) => {
            let file = source_file(links, cwd, filename);
            if !covers(cwd, file) {
                Ok(None)
            } else {
                match virtual_path(cwd, file) {
                    None => Err(invalid_path_message(file)),
                    Some(virtual_file) => match evaluation_order(
                        rules_of(config),
                        cwd,
                        cwd,
                        virtual_file,
                        rules_of(config).len() as int,
                    ) {
                        Err(message) => Err(message),
                        Ok(_) => Ok(Some(virtual_file)),
                    },
                }
            }
        },
    }
}

/// The rules of a configuration.
pub open spec fn rules_of(config: ConfigView) -> Seq<AliasView> {
    match config.aliases {
        Some(list) => list,
        None => Seq::empty(),
    }
}

impl BarrelTransformVisitor {
    /// Sets the rewriter up for the file `filename`, compiled in the working
    /// directory `cwd`: see [`setup`]. There is no rewriter for a file
    /// outside the working directory.
    pub fn new(config: &Config, cwd: String, filename: String) -> (r: Result<Option<Self>, String>)
        ensures
            match setup(config@, cwd@, filename@) {
                Err(message) => r is Err && r->Err_0@ == message,
                Ok(None) => r is Ok && r->Ok_0 is None,
                Ok(Some(file)) => {
                    &&& r is Ok
                    &&& r->Ok_0 is Some
                    &&& r->Ok_0->Some_0.source_dir() == parent(file)
                    &&& r->Ok_0->Some_0.cwd() == cwd@
                    &&& r->Ok_0->Some_0.links() == match config@.symlinks {
                        Some(list) => link_table(list, cwd@),
                        None => Seq::empty(),
                    }
                    &&& barrel_patterns(
                        config@.patterns,
                        cwd@,
                        config@.patterns.len() as int,
                    ) == Ok::<Seq<Seq<char>>, Seq<char>>(r->Ok_0->Some_0.patterns())
                    &&& evaluation_order(
                        rules_of(config@),
                        cwd@,
                        cwd@,
                        file,
                        rules_of(config@).len() as int,
                    ) is Ok
                    &&& r->Ok_0->Some_0.rules() == rules_in_order(
                        evaluation_order(
                            rules_of(config@),
                            cwd@,
                            cwd@,
                            file,
                            rules_of(config@).len() as int,
                        )->Ok_0,
                        rules_of(config@),
                    )
                    &&& r->Ok_0->Some_0.settings() == config@
                    &&& r->Ok_0->Some_0.reports() == (config.debug == Some(true))
                },
            },
    {
        let path_resolver = PathResolver::new(&config.symlinks, cwd.as_str());
        assert(path_resolver.links() =~= match config@.symlinks {
            Some(list) => link_table(list, cwd@),
            None => Seq::empty(),
        });
        let (patterns, compiled_patterns) = match Self::compile_patterns(
            cwd.as_str(),
            config,
            &path_resolver,
        ) {
            Ok(pair) => pair,
            Err(message) => {
                return Err(message);
            },
        };
        let source_file_path = path_join(cwd.as_str(), filename.as_str());
        let source_file_path = path_resolver.resolve_path(source_file_path.as_str());
        let source_file_path = path_join(cwd.as_str(), source_file_path.as_str());
        let base = chars_of(cwd.as_str());
        let file = chars_of(source_file_path.as_str());
        if !holds(&base, &file) {
            return Ok(None);
        }
        let source_file_virtual_path = match path_resolver.to_virtual_path(
            source_file_path.as_str(),
        ) {
            Ok(path) => path,
            Err(message) => {
                return Err(message);
            },
        };
        let source_dir = dirname(source_file_virtual_path.as_str());
        assert(declared_rules(config.aliases) == rules_of(config@));
        let alias_resolver = match AliasResolver::new(
            &config.aliases,
            &path_resolver,
            cwd.as_str(),
            source_file_virtual_path.as_str(),
        ) {
            Ok(resolver) => resolver,
            Err(message) => {
                return Err(message);
            },
        };
        let debug = match config.debug {
            Some(flag) => flag,
            None => false,
        };
        Ok(
            Some(
                BarrelTransformVisitor {
                    source_dir,
                    alias_resolver,
                    path_resolver,
                    patterns,
                    compiled_patterns,
                    debug,
                    config: config.duplicate(),
                },
            ),
        )
    }

    fn compile_patterns(cwd: &str, config: &Config, path_resolver: &PathResolver) -> (r: Result<
        (Vec<String>, Vec<CompiledPattern>),
        String,
    >)
        requires
            path_resolver.cwd() == cwd@,
        ensures
            match barrel_patterns(config@.patterns, cwd@, config@.patterns.len() as int) {
                Ok(list) => {
                    &&& r is Ok
                    &&& views(r->Ok_0.0@) == list
                    &&& pattern_parts(r->Ok_0.1@) == split_all(list)
                },
                Err(message) => r is Err && r->Err_0@ == message,
            },
    {
        let mut texts: Vec<String> = Vec::new();
        let mut compiled_patterns: Vec<CompiledPattern> = Vec::new();
        let mut i: usize = 0;
        assert(views(texts@) =~= Seq::<Seq<char>>::empty());
        assert(pattern_parts(compiled_patterns@) =~= split_all(views(texts@)));
        while i < config.patterns.len()
            invariant
                i <= config.patterns.len(),
                path_resolver.cwd() == cwd@,
                barrel_patterns(config@.patterns, cwd@, i as int) == Ok::<
                    Seq<Seq<char>>,
                    Seq<char>,
                >(views(texts@)),
                pattern_parts(compiled_patterns@) == split_all(views(texts@)),
            decreases config.patterns.len() - i,
        {
            assert(config@.patterns[i as int] == config.patterns@[i as int]@);
            let joined_path = path_join(cwd, config.patterns[i].as_str());
            let virtual_path = match path_resolver.to_virtual_path(joined_path.as_str()) {
                Ok(path) => path,
                Err(message) => {
                    proof {
                        lemma_pattern_fails_for_good(
                            config@.patterns,
                            cwd@,
                            i + 1,
                            config@.patterns.len() as int,
                        );
                    }
                    return Err(message);
                },
            };
            let compiled_pattern = match CompiledPattern::new(virtual_path.as_str()) {
                Ok(pattern) => pattern,
                Err(message) => {
                    return Err(message);
                },
            };
            let ghost texts_before = views(texts@);
            let ghost parts_before = pattern_parts(compiled_patterns@);
            compiled_patterns.push(compiled_pattern);
            texts.push(virtual_path);
            assert(views(texts@) =~= texts_before.push(virtual_path@));
            assert(pattern_parts(compiled_patterns@) =~= parts_before.push(
                compiled_pattern.literals(),
            ));
            assert(pattern_parts(compiled_patterns@) =~= split_all(views(texts@)));
            i += 1;
        }
        Ok((texts, compiled_patterns))
    }

    /// Whether `import_path` matches a pattern of barrel files.
    pub fn match_pattern(&self, import_path: &str) -> (r: bool)
        ensures
            r == matches_any(self.patterns(), import_path@),
    {
        proof {
            use_type_invariant(self);
        }
        let ghost texts = views(self.patterns@);
        let mut i: usize = 0;
        assert(pattern_parts(self.compiled_patterns@).len() == split_all(texts).len());
        while i < self.compiled_patterns.len()
            invariant
                i <= self.compiled_patterns.len(),
                self.compiled_patterns@.len() == texts.len(),
                texts == views(self.patterns@),
                pattern_parts(self.compiled_patterns@) == split_all(texts),
                forall|j: int|
                    0 <= j < i ==> !pattern_matches(
                        split(#[trigger] texts[j], wildcard()),
                        import_path@,
                    ),
            decreases self.compiled_patterns.len() - i,
        {
            assert(pattern_parts(self.compiled_patterns@)[i as int] == split_all(texts)[i as int]);
            if self.compiled_patterns[i].matches(import_path) {
                assert(pattern_matches(split(texts[i as int], wildcard()), import_path@));
                return true;
            }
            i += 1;
        }
        assert(pattern_parts(self.compiled_patterns@).len() == split_all(texts).len());
        false
    }

    /// The barrel file that the local import `import_path` names: see
    /// [`local_barrel`].
    pub fn resolve_local_import(&self, import_path: &str) -> (r: Option<String>)
        ensures
            match local_barrel(
                self.patterns(),
                self.links(),
                self.cwd(),
                self.source_dir(),
                import_path@,
            ) {
                Some(file) => r is Some && r->Some_0@ == file,
                None => r is None,
            },
    {
        let p = chars_of(import_path);
        let import_path = if p.len() > 0 && p[0] == '.' {
            path_join(self.source_dir.as_str(), import_path)
        } else {
            import_path.to_owned()
        };
        let resolved_import_path = self.path_resolver.resolve_path(import_path.as_str());
        let barrel_file = match self.path_resolver.to_virtual_path(resolved_import_path.as_str()) {
            Ok(resolved_path) => resolved_path,
            Err(_) => {
                return None;
            },
        };
        if !self.match_pattern(barrel_file.as_str()) {
            return None;
        }
        Some(barrel_file)
    }

    /// What the rules make of the import `import_path`, as far as `probes`
    /// lets them: see [`resolution`]. A file that the rules resolve to and
    /// that is no barrel file counts as no match.
    pub fn resolve_aliased_import(&self, import_path: &str, probes: &Vec<bool>) -> (r: Result<
        Resolution,
        String,
    >)
        ensures
            match resolution(self.rules(), self.links(), self.cwd(), import_path@, probes@) {
                Ok(found) => r is Ok && r->Ok_0@ == barrel_of(found, self.patterns()),
                Err(message) => r is Err && r->Err_0@ == message,
            },
    {
        proof {
            use_type_invariant(self);
        }
        match self.alias_resolver.resolve(import_path, probes) {
            Err(message) => Err(message),
            Ok(Resolution::Resolved(resolved_path)) => {
                if !self.match_pattern(resolved_path.as_str()) {
                    return Ok(Resolution::Unmatched);
                }
                Ok(Resolution::Resolved(resolved_path))
            },
            Ok(Resolution::Probe(path)) => Ok(Resolution::Probe(path)),
            Ok(Resolution::Unmatched) => Ok(Resolution::Unmatched),
        }
    }

    /// What finding the barrel file of the import `import_path` comes to, as
    /// far as `probes` lets it be found: through the rules where the import
    /// is neither relative nor absolute, else as a local import.
    pub open spec fn located(&self, import_path: Seq<char>, probes: Seq<bool>) -> Result<
        ResolutionView,
        Seq<char>,
    > {
        if is_aliased(import_path) {
            match resolution(self.rules(), self.links(), self.cwd(), import_path, probes) {
                Ok(found) => Ok(barrel_of(found, self.patterns())),
                Err(message) => Err(message),
            }
        } else {
            match local_barrel(
                self.patterns(),
                self.links(),
                self.cwd(),
                self.source_dir(),
                import_path,
            ) {
                Some(file) => Ok(ResolutionView::Resolved(file)),
                None => Ok(ResolutionView::Unmatched),
            }
        }
    }

    /// Finds the barrel file that the import `import_path` names: see
    /// [`Self::located`]. `Unmatched` says that the import names no barrel
    /// file and stays as it is.
    pub fn find_barrel_file(&self, import_path: &str, probes: &Vec<bool>) -> (r: Result<
        Resolution,
        String,
    >)
        ensures
            match self.located(import_path@, probes@) {
                Ok(found) => r is Ok && r->Ok_0@ == found,
                Err(message) => r is Err && r->Err_0@ == message,
            },
    {
        let p = chars_of(import_path);
        if !(p.len() > 0 && p[0] == '.') && !(p.len() > 0 && p[0] == '/') {
            self.resolve_aliased_import(import_path, probes)
        } else {
            match self.resolve_local_import(import_path) {
                Some(barrel_file) => Ok(Resolution::Resolved(barrel_file)),
                None => Ok(Resolution::Unmatched),
            }
        }
    }

    /// What is known of the re-exports of the barrel file `file`: what the
    /// cache keeps for it; else what the module parsed from it comes to as a
    /// barrel file; nothing where neither is at hand.
    pub open spec fn exports_at_hand(
        &self,
        file: Seq<char>,
        kept: Option<Option<Vec<ReExport>>>,
        parsed: Option<(String, Module)>,
    ) -> Option<Result<BarrelExportsView, Seq<char>>> {
        match kept {
            Some(entry) => Some(
                Ok(BarrelExportsView { re_exports: kept_exports(entry), warning: None }),
            ),
            None => match parsed {
                Some((path, ast)) => if path@ == file {
                    Some(barrel_exports(ast.body@, file, self.invalid_barrel_mode()))
                } else {
                    None
                },
                None => None,
            },
        }
    }

    /// What is to be done next for the import `import_decl`: the disk is to
    /// be asked whether a candidate exists, or for the module of the barrel
    /// file, or the import stays, or statements take its place.
    pub open spec fn progress(
        &self,
        import_decl: ImportDeclView,
        probes: Seq<bool>,
        parsed: Option<(String, Module)>,
        keys: Seq<Seq<char>>,
        values: Seq<Option<Vec<ReExport>>>,
    ) -> Result<ProgressView, Seq<char>> {
        match self.located(import_decl.src, probes) {
            Err(message) => Err(message),
            Ok(ResolutionView::Unmatched) => Ok(ProgressView::Keep { warning: None }),
            Ok(ResolutionView::Probe(path)) => Ok(ProgressView::Probe(path)),
            Ok(ResolutionView::Resolved(file)) => match self.exports_at_hand(
                file,
                known(keys, values, file),
                parsed,
            ) {
                None => Ok(ProgressView::Parse(file)),
                Some(Err(message)) => Err(message),
                Some(Ok(exports)) => match exports.re_exports {
                    None => Ok(ProgressView::Keep { warning: exports.warning }),
                    Some(re_exports) => match rewritten(
                        import_decl,
                        Setting {
                            source_dir: self.source_dir(),
                            barrel_file: file,
                            re_exports,
                            mode: self.unsupported_import_mode(),
                            src: import_decl.src,
                            coded: true,
                        },
                    ) {
                        Err(message) => Err(message),
                        Ok(rewrite) => Ok(ProgressView::Replace(rewrite)),
                    },
                },
            },
        }
    }

    /// Whether this step analyses a module and so adds to the cache: the
    /// barrel file is found, the cache keeps nothing for it, and the module
    /// parsed from it is at hand and does not fail.
    pub open spec fn learns(
        &self,
        import_decl: ImportDeclView,
        probes: Seq<bool>,
        parsed: Option<(String, Module)>,
        keys: Seq<Seq<char>>,
        values: Seq<Option<Vec<ReExport>>>,
    ) -> Option<(Seq<char>, Option<Seq<ReExportView>>)> {
        match self.located(import_decl.src, probes) {
            Ok(ResolutionView::Resolved(file)) => if known(keys, values, file) is None {
                match self.exports_at_hand(file, None, parsed) {
                    Some(Ok(exports)) => Some((file, exports.re_exports)),
                    _ => None,
                }
            } else {
                None
            },
            _ => None,
        }
    }

    /// Takes the next step for the import `import_decl`: see
    /// [`Self::progress`].
    ///
    /// `probes` says of the candidates that were probed whether each exists,
    /// and is empty at first. `parsed` is the module that was parsed, with
    /// the path of its file, once one was asked for. `cache` keeps the
    /// re-exports of the barrel files that were analysed; it is looked up
    /// before a module is asked for, and takes what the analysis of `parsed`
    /// comes to.
    pub fn process_import(
        &self,
        import_decl: &ImportDecl,
        probes: &Vec<bool>,
        parsed: &Option<(String, Module)>,
        cache: &mut PathCache<Option<Vec<ReExport>>>,
    ) -> (r: Result<Progress, String>)
        ensures
            match self.progress(
                import_decl@,
                probes@,
                *parsed,
                old(cache).keys(),
                old(cache).values(),
            ) {
                Ok(progress) => r is Ok && r->Ok_0@ == progress,
                Err(message) => r is Err && r->Err_0@ == message,
            },
            match self.learns(
                import_decl@,
                probes@,
                *parsed,
                old(cache).keys(),
                old(cache).values(),
            ) {
                Some((file, re_exports)) => {
                    &&& final(cache).keys() == old(cache).keys().push(file)
                    &&& final(cache).values().len() == old(cache).values().len() + 1
                    &&& final(cache).values().drop_last() == old(cache).values()
                    &&& kept_exports(final(cache).values().last()) == re_exports
                },
                None => {
                    &&& final(cache).keys() == old(cache).keys()
                    &&& final(cache).values() == old(cache).values()
                },
            },
    {
        let barrel_file = match self.find_barrel_file(import_decl.src.as_str(), probes) {
            Err(message) => {
                return Err(message);
            },
            Ok(Resolution::Unmatched) => {
                return Ok(Progress::Keep { warning: None });
            },
            Ok(Resolution::Probe(path)) => {
                return Ok(Progress::Probe(path));
            },
            Ok(Resolution::Resolved(barrel_file)) => barrel_file,
        };
        match cache.get(barrel_file.as_str()) {
            Some(entry) => {
                return match entry {
                    None => Ok(Progress::Keep { warning: None }),
                    Some(re_exports) => match self.rewrite_import(
                        import_decl,
                        barrel_file.as_str(),
                        re_exports,
                    ) {
                        Ok(rewrite) => Ok(Progress::Replace(rewrite)),
                        Err(message) => Err(message),
                    },
                };
            },
            None => {},
        }
        let ast = match parsed {
            Some((path, ast)) => {
                if !same_str(path.as_str(), barrel_file.as_str()) {
                    return Ok(Progress::Parse(barrel_file));
                }
                ast
            },
            None => {
                return Ok(Progress::Parse(barrel_file));
            },
        };
        let exports = match parse_barrel_file_exports(barrel_file.as_str(), ast, &self.config) {
            Ok(exports) => exports,
            Err(message) => {
                return Err(message);
            },
        };
        remember_barrel_exports(cache, barrel_file.as_str(), &exports);
        match exports.re_exports {
            None => Ok(Progress::Keep { warning: exports.warning }),
            Some(re_exports) => match self.rewrite_import(
                import_decl,
                barrel_file.as_str(),
                &re_exports,
            ) {
                Ok(rewrite) => Ok(Progress::Replace(rewrite)),
                Err(message) => Err(message),
            },
        }
    }

    /// Rewrites the import `import_decl` of the barrel file `barrel_file`,
    /// whose re-exports are `re_exports`, for the file of this rewriter: see
    /// [`rewritten`].
    pub fn rewrite_import(
        &self,
        import_decl: &ImportDecl,
        barrel_file: &str,
        re_exports: &Vec<ReExport>,
    ) -> (r: Result<Rewrite, String>)
        ensures
            match rewritten(
                import_decl@,
                Setting {
                    source_dir: self.source_dir(),
                    barrel_file: barrel_file@,
                    re_exports: views(re_exports@),
                    mode: self.unsupported_import_mode(),
                    src: import_decl.src@,
                    coded: true,
                },
            ) {
                Ok(rewrite) => r is Ok && r->Ok_0@ == rewrite,
                Err(message) => r is Err && r->Err_0@ == message,
            },
    {
        transform_import(
            self.source_dir.as_str(),
            import_decl,
            barrel_file,
            re_exports,
            &self.config,
        )
    }

    /// The configuration that the rewriter was set up with.
    pub fn config(&self) -> (r: &Config)
        ensures
            r@ == self.settings(),
    {
        &self.config
    }

    /// Whether the rewriter reports what it does.
    pub fn debug(&self) -> (r: bool)
        ensures
            r == self.reports(),
    {
        self.debug
    }

    /// Rewrites the import `import_decl` of the barrel file `barrel_file`,
    /// whose module is `ast`: the failure or the warning that the module
    /// earns as a barrel file, and for a valid one the rewrite of the
    /// import. Nothing is rewritten where the module is let pass as no
    /// barrel file.
    pub fn transform_import(&self, import_decl: &ImportDecl, barrel_file: &str, ast: &Module) -> (r:
        Result<(Option<Rewrite>, Option<String>), String>)
        ensures
            match barrel_exports(ast.body@, barrel_file@, self.invalid_barrel_mode()) {
                Err(message) => r is Err && r->Err_0@ == message,
                Ok(exports) => match exports.re_exports {
                    None => {
                        &&& r is Ok
                        &&& r->Ok_0.0 is None
                        &&& option_view(r->Ok_0.1) == exports.warning
                    },
                    Some(re_exports) => match rewritten(
                        import_decl@,
                        Setting {
                            source_dir: self.source_dir(),
                            barrel_file: barrel_file@,
                            re_exports,
                            mode: self.unsupported_import_mode(),
                            src: import_decl.src@,
                            coded: true,
                        },
                    ) {
                        Err(message) => r is Err && r->Err_0@ == message,
                        Ok(rewrite) => {
                            &&& r is Ok
                            &&& r->Ok_0.0 is Some
                            &&& r->Ok_0.0->Some_0@ == rewrite
                            &&& r->Ok_0.1 is None
                        },
                    },
                },
            },
    {
        let exports = match parse_barrel_file_exports(barrel_file, ast, &self.config) {
            Ok(exports) => exports,
            Err(message) => {
                return Err(message);
            },
        };
        match exports.re_exports {
            None => Ok((None, exports.warning)),
            Some(re_exports) => {
                match self.rewrite_import(import_decl, barrel_file, &re_exports) {
                    Ok(rewrite) => Ok((Some(rewrite), None)),
                    Err(message) => Err(message),
                }
            },
        }
    }
}

/// The view of a text that may be absent.
pub open spec fn option_view(text: Option<String>) -> Option<Seq<char>> {
    match text {
        Some(t) => Some(t@),
        None => None,
    }
}

/// A failure among the first `n` patterns is the failure of the first `m`,
/// for every `m` from `n` on.
pub proof fn lemma_pattern_fails_for_good(patterns: Seq<Seq<char>>, cwd: Seq<char>, n: int, m: int)
    requires
        n <= m,
        barrel_patterns(patterns, cwd, n) is Err,
    ensures
        barrel_patterns(patterns, cwd, m) == barrel_patterns(patterns, cwd, n),
    decreases m - n,
{
    if n < m {
        lemma_pattern_fails_for_good(patterns, cwd, n, m - 1);
    }
}

/// A statement of a module that was rewritten.
#[derive(Debug, Clone, PartialEq)]
pub enum Statement<T> {
    /// A statement of the module as it was.
    Kept(T),
    /// An import that the rewrite made, in the place of statement `from` of
    /// the module as it was.
    Made { decl: ImportDecl, from: usize },
}

/// The imports that a step puts in the place of its import: those of a
/// rewrite, and none for any other step and for no step.
pub open spec fn made_by(step: Option<Progress>) -> Seq<ImportDecl> {
    match step {
        Some(Progress::Replace(rewrite)) => rewrite.imports@,
        _ => Seq::empty(),
    }
}

/// What stands in the place of statement `at` of a module: the imports that
/// its step made, where it made any, and else the statement itself.
pub open spec fn statements_for<T>(item: T, step: Option<Progress>, at: usize) -> Seq<
    Statement<T>,
> {
    let made = made_by(step);
    if made.len() > 0 {
        Seq::new(made.len(), |k: int| Statement::Made { decl: made[k], from: at })
    } else {
        seq![Statement::Kept(item)]
    }
}

/// The step of statement `i`: none behind the end of `steps`.
pub open spec fn step_of(steps: Seq<Option<Progress>>, i: int) -> Option<Progress> {
    if 0 <= i < steps.len() {
        steps[i]
    } else {
        None
    }
}

/// The first `n` statements of a module, each with what stands in its
/// place.
pub open spec fn rewritten_items<T>(items: Seq<T>, steps: Seq<Option<Progress>>, n: int) -> Seq<
    Statement<T>,
>
    decreases n,
{
    if n <= 0 {
        Seq::empty()
    } else {
        rewritten_items(items, steps, n - 1) + statements_for(
            items[n - 1],
            step_of(steps, n - 1),
            (n - 1) as usize,
        )
    }
}

fn reversed<T>(v: Vec<T>) -> (r: Vec<T>)
    ensures
        r@.len() == v@.len(),
        forall|k: int| 0 <= k < r@.len() ==> r@[k] == v@[v@.len() - 1 - k],
{
    let mut v = v;
    let ghost all = v@;
    let mut r: Vec<T> = Vec::new();
    while v.len() > 0
        invariant
            v@.len() + r@.len() == all.len(),
            v@ == all.take(v@.len() as int),
            forall|k: int| 0 <= k < r@.len() ==> r@[k] == all[all.len() - 1 - k],
        decreases v.len(),
    {
        let ghost n = v@.len() as int;
        let x = v.pop().unwrap();
        assert(x == all[n - 1]);
        assert(all.take(n).take(n - 1) =~= all.take(n - 1));
        r.push(x);
    }
    r
}

/// Puts the imports that were made in the place of the imports they were
/// made of: see [`rewritten_items`]. `steps` holds for each statement the
/// last step that was taken for it, and nothing for a statement that is no
/// import or whose import failed.
pub fn visit_mut_module_items<T>(items: Vec<T>, steps: Vec<Option<Progress>>) -> (r: Vec<
    Statement<T>,
>)
    ensures
        r@ == rewritten_items(items@, steps@, items@.len() as int),
{
    let ghost all = items@;
    let ghost given = steps@;
    let count = items.len();
    let mut items = reversed(items);
    let mut steps = reversed(steps);
    let mut out: Vec<Statement<T>> = Vec::new();
    let mut i: usize = 0;
    while items.len() > 0
        invariant
            all.len() == count,
            i + items@.len() == all.len(),
            forall|k: int| 0 <= k < items@.len() ==> items@[k] == all[all.len() - 1 - k],
            steps@.len() == if i < given.len() {
                given.len() - i
            } else {
                0
            },
            forall|k: int| 0 <= k < steps@.len() ==> steps@[k] == given[given.len() - 1 - k],
            out@ == rewritten_items(all, given, i as int),
        decreases items.len(),
    {
        let item = items.pop().unwrap();
        assert(item == all[i as int]);
        let step = match steps.pop() {
            Some(step) => step,
            None => None,
        };
        assert(step == step_of(given, i as int));
        let ghost before = out@;
        match step {
            Some(Progress::Replace(rewrite)) => {
                if rewrite.imports.len() > 0 {
                    let ghost made_all = rewrite.imports@;
                    let made_count = rewrite.imports.len();
                    let mut made = reversed(rewrite.imports);
                    let mut j: usize = 0;
                    assert(out@ =~= before + Seq::new(
                        0,
                        |k: int| Statement::<T>::Made { decl: made_all[k], from: i },
                    ));
                    while made.len() > 0
                        invariant
                            made_all.len() == made_count,
                            j + made@.len() == made_all.len(),
                            forall|k: int|
                                0 <= k < made@.len() ==> made@[k] == made_all[made_all.len() - 1
                                    - k],
                            out@ == before + Seq::new(
                                j as nat,
                                |k: int| Statement::<T>::Made { decl: made_all[k], from: i },
                            ),
                        decreases made.len(),
                    {
                        let decl = made.pop().unwrap();
                        assert(decl == made_all[j as int]);
                        out.push(Statement::Made { decl, from: i });
                        j += 1;
                        assert(out@ =~= before + Seq::new(
                            j as nat,
                            |k: int| Statement::<T>::Made { decl: made_all[k], from: i },
                        ));
                    }
                    assert(out@ =~= before + statements_for(item, step, i));
                } else {
                    out.push(Statement::Kept(item));
                    assert(out@ =~= before + statements_for(item, step, i));
                }
            },
            _ => {
                out.push(Statement::Kept(item));
                assert(out@ =~= before + statements_for(item, step, i));
            },
        }
        i += 1;
    }
    out
}

/// The statements of a module, each kept.
pub open spec fn all_kept<T>(items: Seq<T>, n: int) -> Seq<Statement<T>> {
    Seq::new(n as nat, |i: int| Statement::Kept(items[i]))
}

/// A module of which no statement had a rewrite for its last step stays as
/// it is: the same statements, as many, in their order.
pub proof fn lemma_nothing_to_replace<T>(items: Seq<T>, steps: Seq<Option<Progress>>, n: int)
    requires
        0 <= n <= items.len(),
        forall|i: int| 0 <= i < steps.len() ==> made_by(#[trigger] steps[i]).len() == 0,
    ensures
        rewritten_items(items, steps, n) == all_kept(items, n),
    decreases n,
{
    if n > 0 {
        lemma_nothing_to_replace(items, steps, n - 1);
        assert(made_by(step_of(steps, n - 1)).len() == 0);
        assert(all_kept(items, n - 1) + seq![Statement::Kept(items[n - 1])] =~= all_kept(
            items,
            n,
        ));
    } else {
        assert(all_kept(items, 0) =~= Seq::<Statement<T>>::empty());
    }
}

impl BarrelTransformVisitor {
    /// An import whose source no rule matches and that, seen from the file,
    /// names no barrel file stays as it is, whatever is known of the disk:
    /// its step is to keep it, without a question and without a warning, and
    /// it makes no import.
    pub proof fn lemma_direct_import_is_kept(
        self,
        import_decl: ImportDeclView,
        probes: Seq<bool>,
        parsed: Option<(String, Module)>,
        keys: Seq<Seq<char>>,
        values: Seq<Option<Vec<ReExport>>>,
    )
        requires
            is_aliased(import_decl.src) ==> first_match(
                self.rules(),
                import_decl.src,
                self.rules().len() as int,
            ) is None,
            !is_aliased(import_decl.src) ==> local_barrel(
                self.patterns(),
                self.links(),
                self.cwd(),
                self.source_dir(),
                import_decl.src,
            ) is None,
        ensures
            self.located(import_decl.src, probes) == Ok::<ResolutionView, Seq<char>>(
                ResolutionView::Unmatched,
            ),
            self.progress(import_decl, probes, parsed, keys, values) == Ok::<
                ProgressView,
                Seq<char>,
            >(ProgressView::Keep { warning: None }),
            self.learns(import_decl, probes, parsed, keys, values) is None,
    {
    }
}

/// To rewrite a module again whose imports all name modules directly
/// changes nothing: where the last step of every import was to keep it, as
/// [`BarrelTransformVisitor::lemma_direct_import_is_kept`] says of such
/// imports, the module comes back statement by statement.
pub proof fn lemma_rewritten_module_stays<T>(items: Seq<T>, steps: Seq<Option<Progress>>)
    requires
        forall|i: int|
            0 <= i < steps.len() ==> (#[trigger] steps[i]) is None || steps[i]->Some_0 is Keep,
    ensures
        rewritten_items(items, steps, items.len() as int) == all_kept(items, items.len() as int),
        rewritten_items(items, steps, items.len() as int).len() == items.len(),
{
    assert forall|i: int| 0 <= i < steps.len() implies made_by(#[trigger] steps[i]).len()
        == 0 by {}
    lemma_nothing_to_replace(items, steps, items.len() as int);
}

} // verus!
