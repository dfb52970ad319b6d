//! The rewrite of one import statement that names a barrel file into
//! imports of the modules that the barrel file takes its names from.

use crate::config::{Config, UnsupportedImportMode};
use crate::paths::{
    dirname, joined, parent, path_difference, path_join, pushed, resolve_relative_path,
    specifier_of,
};
use crate::re_export::{default_name, ReExport, ReExportView};
use crate::text::{
    append_chars, chars_of, comes_before, glue3, join, join_first, lemma_lex_total,
    lemma_lex_transitive, lex_lt, pair_views, same_str, same_text, string_of, views,
};
use vstd::prelude::*;

verus! {

/// One binding of an import statement.
#[derive(Debug, Clone, PartialEq)]
pub enum ImportSpecifier {
    /// `local` for the default export.
    Default { local: String },
    /// `local`, or `imported as local`.
    Named { local: String, imported: Option<String>, is_type_only: bool },
    /// `* as local`.
    Namespace { local: String },
}

/// A binding with its texts as sequences of characters.
pub enum ImportSpecifierView {
    Default { local: Seq<char> },
    Named { local: Seq<char>, imported: Option<Seq<char>>, is_type_only: bool },
    Namespace { local: Seq<char> },
}

impl View for ImportSpecifier {
    type V = ImportSpecifierView;

    open spec fn view(&self) -> ImportSpecifierView {
        match self {
            ImportSpecifier::Default { local } => ImportSpecifierView::Default { local: local@ },
            ImportSpecifier::Named { local, imported, is_type_only } => ImportSpecifierView::Named {
                local: local@,
                imported: match imported {
                    Some(name) => Some(name@),
                    None => None,
                },
                is_type_only: *is_type_only,
            },
            ImportSpecifier::Namespace { local } => ImportSpecifierView::Namespace {
                local: local@,
            },
        }
    }
}

/// An import statement.
#[derive(Debug, Clone, PartialEq)]
pub struct ImportDecl {
    /// The bindings in their order.
    pub specifiers: Vec<ImportSpecifier>,
    /// The module that is imported from, as written.
    pub src: String,
    /// Whether the statement imports types only.
    pub type_only: bool,
    /// The attributes behind `with`, each a key and a value.
    pub with: Option<Vec<(String, String)>>,
}

/// An import statement with its texts as sequences of characters.
pub struct ImportDeclView {
    pub specifiers: Seq<ImportSpecifierView>,
    pub src: Seq<char>,
    pub type_only: bool,
    pub with: Option<Seq<(Seq<char>, Seq<char>)>>,
}

impl View for ImportDecl {
    type V = ImportDeclView;

    open spec fn view(&self) -> ImportDeclView {
        ImportDeclView {
            specifiers: views(self.specifiers@),
            src: self.src@,
            type_only: self.type_only,
            with: match self.with {
                Some(list) => Some(pair_views(list@)),
                None => None,
            },
        }
    }
}

/// What a rewrite gives: the statements that take the place of the import,
/// ordered by the modules they import from, and the warnings on the way.
#[derive(Debug, Clone, PartialEq)]
pub struct Rewrite {
    pub imports: Vec<ImportDecl>,
    pub warnings: Vec<String>,
}

/// The place of the first of the first `n` re-exports that is exported
/// under `name`.
pub open spec fn position_by_name(re_exports: Seq<ReExportView>, name: Seq<char>, n: int) -> Option<
    int,
>
    decreases n,
{
    if n <= 0 {
        None
    } else {
        match position_by_name(re_exports, name, n - 1) {
            Some(k) => Some(k),
            None => if re_exports[n - 1].exported_name == name {
                Some(n - 1)
            } else {
                None
            },
        }
    }
}

/// The place of the first of the first `n` re-exports that hands on a
/// default export.
pub open spec fn position_of_default(re_exports: Seq<ReExportView>, n: int) -> Option<int>
    decreases n,
{
    if n <= 0 {
        None
    } else {
        match position_of_default(re_exports, n - 1) {
            Some(k) => Some(k),
            None => if re_exports[n - 1].is_default {
                Some(n - 1)
            } else {
                None
            },
        }
    }
}

/// A specifier of a module is relative where it begins with a dot.
pub open spec fn is_relative(source_path: Seq<char>) -> bool {
    source_path.len() > 0 && source_path[0] == '.'
}

/// The specifier under which a file in `source_dir` imports what the barrel
/// file in `barrel_file_dir` takes from `source_path`: `source_path` itself
/// where it names a package; else the path from `source_dir` to the module,
/// nothing where there is none.
pub open spec fn import_path_of(
    barrel_file_dir: Seq<char>,
    source_dir: Seq<char>,
    source_path: Seq<char>,
) -> Option<Seq<char>> {
    if !is_relative(source_path) {
        Some(source_path)
    } else {
        match path_difference(
            pushed(source_dir, joined(barrel_file_dir, source_path)),
            source_dir,
        ) {
            Some(difference) => Some(specifier_of(difference)),
            None => None,
        }
    }
}

/// The binding that imports the re-export `re_export` directly under the
/// name `local`: the default binding for a default export; else the named
/// binding, which names what is imported where `local` is another name than
/// the one in the module of the re-export.
pub open spec fn direct_specifier(
    local: Seq<char>,
    is_type_only: bool,
    re_export: ReExportView,
) -> ImportSpecifierView {
    if re_export.is_default {
        ImportSpecifierView::Default { local }
    } else {
        ImportSpecifierView::Named {
            local,
            imported: if local != re_export.original_name {
                Some(re_export.original_name)
            } else {
                None
            },
            is_type_only,
        }
    }
}

/// A message with its code before it, or without where the caller asks for
/// the bare text.
pub open spec fn coded_text(coded: bool, code: Seq<char>, text: Seq<char>) -> Seq<char> {
    if coded {
        code + text
    } else {
        text
    }
}

/// The message for a namespace import of a barrel file.
pub open spec fn namespace_message(coded: bool) -> Seq<char> {
    coded_text(
        coded,
        "E_NO_NAMESPACE_IMPORTS: "@,
        "Namespace imports are not supported for barrel file optimization"@,
    )
}

/// The warning for a namespace import of a barrel file.
pub open spec fn namespace_warning(src: Seq<char>) -> Seq<char> {
    "Warning: Namespace imports are not supported for barrel file optimization. Import from "@
        + src + " will be skipped."@
}

/// The message for names that the barrel file does not export.
pub open spec fn unresolved_message(
    coded: bool,
    barrel_file: Seq<char>,
    missing: Seq<Seq<char>>,
) -> Seq<char> {
    coded_text(
        coded,
        "E_UNRESOLVED_EXPORTS: "@,
        "The following exports were not found in the barrel file "@ + barrel_file + ": "@
            + join(missing, ", "@),
    )
}

/// The message for a module that no relative path leads to.
pub open spec fn unreachable_message(
    coded: bool,
    source_dir: Seq<char>,
    source_path: Seq<char>,
) -> Seq<char> {
    coded_text(
        coded,
        "E_INVALID_FILE_PATH: "@,
        "No relative path leads from "@ + source_dir + " to "@ + source_path,
    )
}

/// What has been made of the bindings of an import so far.
pub struct Plan {
    /// The direct bindings, each with the module to import it from.
    pub placed: Seq<(Seq<char>, ImportSpecifierView)>,
    /// The names that the barrel file does not export.
    pub missing: Seq<Seq<char>>,
    /// The warnings.
    pub warnings: Seq<Seq<char>>,
}

/// What the rewrite needs to know besides the import statement.
pub struct Setting {
    /// The directory of the file that imports.
    pub source_dir: Seq<char>,
    /// The barrel file that is imported from.
    pub barrel_file: Seq<char>,
    /// The re-exports of the barrel file.
    pub re_exports: Seq<ReExportView>,
    /// What to do with a namespace import.
    pub mode: UnsupportedImportMode,
    /// The module that the import names.
    pub src: Seq<char>,
    /// Whether the messages of failures begin with their codes.
    pub coded: bool,
}

/// `plan` with the re-export at `found` imported under `local`, or with
/// `name` missing where nothing was found.
pub open spec fn placed_or_missing(
    plan: Plan,
    setting: Setting,
    found: Option<int>,
    name: Seq<char>,
    local: Seq<char>,
    is_type_only: bool,
) -> Result<Plan, Seq<char>> {
    match found {
        None => Ok(Plan { missing: plan.missing.push(name), ..plan }),
        Some(k) => {
            let re_export = setting.re_exports[k];
            match import_path_of(
                parent(setting.barrel_file),
                setting.source_dir,
                re_export.source_path,
            ) {
                None => Err(
                    unreachable_message(
                        setting.coded,
                        setting.source_dir,
                        re_export.source_path,
                    ),
                ),
                Some(path) => Ok(
                    Plan {
                        placed: plan.placed.push(
                            (path, direct_specifier(local, is_type_only, re_export)),
                        ),
                        ..plan
                    },
                ),
            }
        },
    }
}

/// `plan` after one more binding.
///
/// A named binding asks for the name that it imports, its own where it
/// names no other; a default binding asks for the default export, and is
/// missing as `default`. A namespace binding fails the rewrite, or is left
/// out of it with or without a warning, as the mode says.
pub open spec fn advance(plan: Plan, specifier: ImportSpecifierView, setting: Setting) -> Result<
    Plan,
    Seq<char>,
> {
    match specifier {
        ImportSpecifierView::Named { local, imported, is_type_only } => {
            let name = match imported {
                Some(name) => name,
                None => local,
            };
            placed_or_missing(
                plan,
                setting,
                position_by_name(setting.re_exports, name, setting.re_exports.len() as int),
                name,
                local,
                is_type_only,
            )
        },
        ImportSpecifierView::Default { local } => {
            match position_of_default(setting.re_exports, setting.re_exports.len() as int) {
                None => Ok(Plan { missing: plan.missing.push(default_name()), ..plan }),
                Some(k) => match import_path_of(
                    parent(setting.barrel_file),
                    setting.source_dir,
                    setting.re_exports[k].source_path,
                ) {
                    None => Err(
                        unreachable_message(
                            setting.coded,
                            setting.source_dir,
                            setting.re_exports[k].source_path,
                        ),
                    ),
                    Some(path) => Ok(
                        Plan {
                            placed: plan.placed.push(
                                (path, ImportSpecifierView::Default { local }),
                            ),
                            ..plan
                        },
                    ),
                },
            }
        },
        ImportSpecifierView::Namespace { local } => match setting.mode {
            UnsupportedImportMode::Error => Err(namespace_message(setting.coded)),
            UnsupportedImportMode::Warn => Ok(
                Plan { warnings: plan.warnings.push(namespace_warning(setting.src)), ..plan },
            ),
            UnsupportedImportMode::Off => Ok(plan),
        },
    }
}

/// The plan after the first `n` bindings, or the failure of the first
/// binding that fails.
pub open spec fn plan_of(specifiers: Seq<ImportSpecifierView>, setting: Setting, n: int) -> Result<
    Plan,
    Seq<char>,
>
    decreases n,
{
    if n <= 0 {
        Ok(Plan { placed: Seq::empty(), missing: Seq::empty(), warnings: Seq::empty() })
    } else {
        match plan_of(specifiers, setting, n - 1) {
            Err(message) => Err(message),
            Ok(plan) => advance(plan, specifiers[n - 1], setting),
        }
    }
}

/// `groups` with one more binding for the module `path`: behind the
/// bindings that the module has, or in a new group at the place that keeps
/// the modules in the order of the dictionary.
pub open spec fn with_binding(
    groups: Seq<(Seq<char>, Seq<ImportSpecifierView>)>,
    path: Seq<char>,
    specifier: ImportSpecifierView,
) -> Seq<(Seq<char>, Seq<ImportSpecifierView>)>
    decreases groups.len(),
{
    if groups.len() == 0 {
        seq![(path, seq![specifier])]
    } else if groups.last().0 == path {
        groups.drop_last().push((path, groups.last().1.push(specifier)))
    } else if lex_lt(groups.last().0, path) {
        groups.push((path, seq![specifier]))
    } else {
        with_binding(groups.drop_last(), path, specifier).push(groups.last())
    }
}

/// The first `n` placed bindings, grouped by module.
pub open spec fn grouped(placed: Seq<(Seq<char>, ImportSpecifierView)>, n: int) -> Seq<
    (Seq<char>, Seq<ImportSpecifierView>),
>
    decreases n,
{
    if n <= 0 {
        Seq::empty()
    } else {
        with_binding(grouped(placed, n - 1), placed[n - 1].0, placed[n - 1].1)
    }
}

/// One import statement for each group, with the flag and the attributes of
/// the statement that is rewritten.
pub open spec fn statements(
    groups: Seq<(Seq<char>, Seq<ImportSpecifierView>)>,
    type_only: bool,
    with: Option<Seq<(Seq<char>, Seq<char>)>>,
) -> Seq<ImportDeclView> {
    Seq::new(
        groups.len(),
        |i: int|
            ImportDeclView { specifiers: groups[i].1, src: groups[i].0, type_only, with },
    )
}

/// What a rewrite gives by its views.
pub struct RewriteView {
    pub imports: Seq<ImportDeclView>,
    pub warnings: Seq<Seq<char>>,
}

impl View for Rewrite {
    type V = RewriteView;

    open spec fn view(&self) -> RewriteView {
        RewriteView { imports: views(self.imports@), warnings: views(self.warnings@) }
    }
}

/// What the rewrite of `import_decl` comes to: the failure of the first
/// binding that fails; else the failure that names every missing export;
/// else the statements, one for each module, in the order of the
/// dictionary.
pub open spec fn rewritten(import_decl: ImportDeclView, setting: Setting) -> Result<
    RewriteView,
    Seq<char>,
> {
    match plan_of(import_decl.specifiers, setting, import_decl.specifiers.len() as int) {
        Err(message) => Err(message),
        Ok(plan) => if plan.missing.len() > 0 {
            Err(unresolved_message(setting.coded, setting.barrel_file, plan.missing))
        } else {
            Ok(
                RewriteView {
                    imports: statements(
                        grouped(plan.placed, plan.placed.len() as int),
                        import_decl.type_only,
                        import_decl.with,
                    ),
                    warnings: plan.warnings,
                },
            )
        },
    }
}

/// The first re-export that is exported under `name`.
pub fn find_re_export_by_name<'a>(re_exports: &'a Vec<ReExport>, name: &str) -> (r: Option<
    &'a ReExport,
>)
    ensures
        match position_by_name(views(re_exports@), name@, re_exports@.len() as int) {
            Some(k) => 0 <= k < re_exports@.len() && r == Some(&re_exports@[k]),
            None => r is None,
        },
{
    let mut i: usize = 0;
    while i < re_exports.len()
        invariant
            i <= re_exports.len(),
            position_by_name(views(re_exports@), name@, i as int) is None,
        decreases re_exports.len() - i,
    {
        assert(views(re_exports@)[i as int] == re_exports@[i as int]@);
        if same_str(re_exports[i].exported_name.as_str(), name) {
            proof {
                lemma_position_by_name_stays(
                    views(re_exports@),
                    name@,
                    i + 1,
                    re_exports@.len() as int,
                );
            }
            return Some(&re_exports[i]);
        }
        i += 1;
    }
    None
}

/// The first re-export that hands on a default export.
pub fn find_default_re_export(re_exports: &Vec<ReExport>) -> (r: Option<&ReExport>)
    ensures
        match position_of_default(views(re_exports@), re_exports@.len() as int) {
            Some(k) => 0 <= k < re_exports@.len() && r == Some(&re_exports@[k]),
            None => r is None,
        },
{
    let mut i: usize = 0;
    while i < re_exports.len()
        invariant
            i <= re_exports.len(),
            position_of_default(views(re_exports@), i as int) is None,
        decreases re_exports.len() - i,
    {
        assert(views(re_exports@)[i as int] == re_exports@[i as int]@);
        if re_exports[i].is_default {
            proof {
                lemma_position_of_default_stays(
                    views(re_exports@),
                    i + 1,
                    re_exports@.len() as int,
                );
            }
            return Some(&re_exports[i]);
        }
        i += 1;
    }
    None
}

/// A place found among the first `n` re-exports is the place found among
/// the first `m`, for every `m` from `n` on.
pub proof fn lemma_position_by_name_stays(
    re_exports: Seq<ReExportView>,
    name: Seq<char>,
    n: int,
    m: int,
)
    requires
        n <= m,
        position_by_name(re_exports, name, n) is Some,
    ensures
        position_by_name(re_exports, name, m) == position_by_name(re_exports, name, n),
    decreases m - n,
{
    if n < m {
        lemma_position_by_name_stays(re_exports, name, n, m - 1);
    }
}

/// A default found among the first `n` re-exports is the one found among
/// the first `m`, for every `m` from `n` on.
pub proof fn lemma_position_of_default_stays(re_exports: Seq<ReExportView>, n: int, m: int)
    requires
        n <= m,
        position_of_default(re_exports, n) is Some,
    ensures
        position_of_default(re_exports, m) == position_of_default(re_exports, n),
    decreases m - n,
{
    if n < m {
        lemma_position_of_default_stays(re_exports, n, m - 1);
    }
}

/// The specifier under which a file in `source_dir` imports what the barrel
/// file in `barrel_file_dir` re-exports: see [`import_path_of`].
pub fn resolve_import_path(barrel_file_dir: &str, source_dir: &str, re_export: &ReExport) -> (r:
    Option<String>)
    ensures
        match import_path_of(barrel_file_dir@, source_dir@, re_export.source_path@) {
            Some(path) => r is Some && r->Some_0@ == path,
            None => r is None,
        },
{
    let source = chars_of(re_export.source_path.as_str());
    if !(source.len() > 0 && source[0] == '.') {
        return Some(re_export.source_path.clone());
    }
    let target_path = path_join(barrel_file_dir, re_export.source_path.as_str());
    resolve_relative_path(source_dir, target_path.as_str())
}

/// The default binding under the name `local`.
pub fn create_default_specifier(local: &String) -> (r: ImportSpecifier)
    ensures
        r@ == (ImportSpecifierView::Default { local: local@ }),
{
    ImportSpecifier::Default { local: local.clone() }
}

/// The binding that imports `re_export` directly under the name `local`:
/// see [`direct_specifier`].
pub fn create_named_specifier(local: &String, re_export: &ReExport, is_type_only: bool) -> (r:
    ImportSpecifier)
    ensures
        r@ == direct_specifier(local@, is_type_only, re_export@),
{
    if re_export.is_default {
        create_default_specifier(local)
    } else {
        ImportSpecifier::Named {
            local: local.clone(),
            imported: if !same_str(local.as_str(), re_export.original_name.as_str()) {
                Some(re_export.original_name.clone())
            } else {
                None
            },
            is_type_only,
        }
    }
}

/// The name that a named binding asks the module for.
pub fn extract_imported_name(local: &String, imported: &Option<String>) -> (r: String)
    ensures
        r@ == match imported {
            Some(name) => name@,
            None => local@,
        },
{
    match imported {
        Some(name) => name.clone(),
        None => local.clone(),
    }
}

/// The views of the groups of `v`.
pub open spec fn group_views(v: Seq<(Vec<char>, Vec<ImportSpecifier>)>) -> Seq<
    (Seq<char>, Seq<ImportSpecifierView>),
> {
    Seq::new(v.len(), |i: int| (v[i].0@, views(v[i].1@)))
}

/// Adds one binding for the module `path` to the groups: see
/// [`with_binding`].
pub fn add_import_specifier(
    new_imports: &mut Vec<(Vec<char>, Vec<ImportSpecifier>)>,
    import_path: String,
    specifier: ImportSpecifier,
)
    ensures
        group_views(final(new_imports)@) == with_binding(
            group_views(old(new_imports)@),
            import_path@,
            specifier@,
        ),
{
    let path = chars_of(import_path.as_str());
    let ghost before = group_views(new_imports@);
    let mut at: usize = new_imports.len();
    assert(before.take(at as int) =~= before);
    assert(before.skip(at as int) =~= Seq::empty());
    while at > 0 && !same_text(&new_imports[at - 1].0, &path) && !comes_before(
        &new_imports[at - 1].0,
        &path,
    )
        invariant
            at <= new_imports.len(),
            group_views(new_imports@) == before,
            new_imports@ == old(new_imports)@,
            path@ == import_path@,
            with_binding(before, path@, specifier@) == with_binding(
                before.take(at as int),
                path@,
                specifier@,
            ) + before.skip(at as int),
        decreases at,
    {
        assert(before[at - 1].0 == new_imports@[at - 1].0@);
        assert(before.take(at as int).drop_last() =~= before.take(at - 1));
        assert(before.take(at as int).last() == before[at - 1]);
        assert(seq![before[at - 1]] + before.skip(at as int) =~= before.skip(at - 1));
        at -= 1;
    }
    let ghost head = before.take(at as int);
    if at > 0 && same_text(&new_imports[at - 1].0, &path) {
        assert(head.last() == before[at - 1]);
        assert(before[at - 1].0 == new_imports@[at - 1].0@);
        let mut group = new_imports.remove(at - 1);
        let ghost bindings = views(group.1@);
        group.1.push(specifier);
        assert(views(group.1@) =~= bindings.push(specifier@));
        new_imports.insert(at - 1, group);
        assert(group_views(new_imports@) =~= head.drop_last().push(
            (path@, bindings.push(specifier@)),
        ) + before.skip(at as int));
    } else {
        proof {
            if at > 0 {
                assert(head.last() == before[at - 1]);
                assert(before[at - 1].0 == new_imports@[at - 1].0@);
            }
        }
        let mut bindings: Vec<ImportSpecifier> = Vec::new();
        bindings.push(specifier);
        assert(views(bindings@) =~= seq![specifier@]);
        new_imports.insert(at, (path, bindings));
        assert(group_views(new_imports@) =~= head.push((path@, seq![specifier@])) + before.skip(
            at as int,
        ));
    }
}


fn copy_attributes(with: &Option<Vec<(String, String)>>) -> (r: Option<Vec<(String, String)>>)
    ensures
        match with {
            Some(list) => r is Some && pair_views(r->Some_0@) == pair_views(list@),
            None => r is None,
        },
{
    match with {
        None => None,
        Some(list) => {
            let mut out: Vec<(String, String)> = Vec::new();
            let mut i: usize = 0;
            while i < list.len()
                invariant
                    i <= list.len(),
                    pair_views(out@) =~= pair_views(list@).take(i as int),
                decreases list.len() - i,
            {
                let ghost before = pair_views(out@);
                out.push((list[i].0.clone(), list[i].1.clone()));
                assert(pair_views(out@) =~= before.push(pair_views(list@)[i as int]));
                i += 1;
            }
            assert(pair_views(list@).take(list@.len() as int) =~= pair_views(list@));
            Some(out)
        },
    }
}

fn with_code(coded: bool, code: &str, text: String) -> (r: String)
    ensures
        r@ == coded_text(coded, code@, text@),
{
    if coded {
        crate::text::glue(code, text.as_str())
    } else {
        text
    }
}

fn unresolved(coded: bool, barrel_file: &str, missing: &Vec<String>) -> (r: String)
    ensures
        r@ == unresolved_message(coded, barrel_file@, views(missing@)),
{
    let mut names: Vec<char> = Vec::new();
    let comma = chars_of(", ");
    let mut i: usize = 0;
    while i < missing.len()
        invariant
            i <= missing.len(),
            comma@ == ", "@,
            names@ == join_first(views(missing@), ", "@, i as int),
        decreases missing.len() - i,
    {
        if i > 0 {
            append_chars(&mut names, &comma);
        }
        assert(views(missing@)[i as int] == missing@[i as int]@);
        let name = chars_of(missing[i].as_str());
        append_chars(&mut names, &name);
        assert(names@ =~= join_first(views(missing@), ", "@, i + 1));
        i += 1;
    }
    let head = glue3(
        "The following exports were not found in the barrel file ",
        barrel_file,
        ": ",
    );
    let mut out = chars_of(head.as_str());
    append_chars(&mut out, &names);
    with_code(coded, "E_UNRESOLVED_EXPORTS: ", string_of(&out))
}

fn namespace_error(coded: bool) -> (r: String)
    ensures
        r@ == namespace_message(coded),
{
    let text = "Namespace imports are not supported for barrel file optimization";
    with_code(coded, "E_NO_NAMESPACE_IMPORTS: ", text.to_owned())
}

fn namespace_warned(src: &str) -> (r: String)
    ensures
        r@ == namespace_warning(src@),
{
    let head =
        "Warning: Namespace imports are not supported for barrel file optimization. Import from ";
    glue3(head, src, " will be skipped.")
}

fn unreachable(coded: bool, source_dir: &str, source_path: &str) -> (r: String)
    ensures
        r@ == unreachable_message(coded, source_dir@, source_path@),
{
    let head = glue3("No relative path leads from ", source_dir, " to ");
    with_code(
        coded,
        "E_INVALID_FILE_PATH: ",
        crate::text::glue(head.as_str(), source_path),
    )
}

/// Rewrites one import of the barrel file `barrel_file`, whose re-exports
/// are `re_exports`, for a file in the directory `source_dir`: see
/// [`rewritten`]. Either every binding but the namespace bindings is
/// rewritten or the import fails as a whole, with a message that begins
/// with its code.
pub fn transform_import(
    source_dir: &str,
    import_decl: &ImportDecl,
    barrel_file: &str,
    re_exports: &Vec<ReExport>,
    config: &Config,
) -> (r: Result<Rewrite, String>)
    ensures
        match rewritten(
            import_decl@,
            Setting {
                source_dir: source_dir@,
                barrel_file: barrel_file@,
                re_exports: views(re_exports@),
                mode: config.unsupported_import_mode,
                src: import_decl.src@,
                coded: true,
            },
        ) {
            Ok(rewrite) => r is Ok && r->Ok_0@ == rewrite,
            Err(message) => r is Err && r->Err_0@ == message,
        },
{
    rewrite_with(
        source_dir,
        import_decl,
        barrel_file,
        re_exports,
        config.unsupported_import_mode,
        true,
    )
}

/// Rewrites one import as [`transform_import`] does, under the mode `mode`
/// for namespace imports; the messages of failures begin with their codes
/// where `coded`.
pub fn rewrite_with(
    source_dir: &str,
    import_decl: &ImportDecl,
    barrel_file: &str,
    re_exports: &Vec<ReExport>,
    mode: UnsupportedImportMode,
    coded: bool,
) -> (r: Result<Rewrite, String>)
    ensures
        match rewritten(
            import_decl@,
            Setting {
                source_dir: source_dir@,
                barrel_file: barrel_file@,
                re_exports: views(re_exports@),
                mode,
                src: import_decl.src@,
                coded,
            },
        ) {
            Ok(rewrite) => r is Ok && r->Ok_0@ == rewrite,
            Err(message) => r is Err && r->Err_0@ == message,
        },
{
    let ghost setting = Setting {
        source_dir: source_dir@,
        barrel_file: barrel_file@,
        re_exports: views(re_exports@),
        mode,
        src: import_decl.src@,
        coded,
    };
    let ghost specifiers = views(import_decl.specifiers@);
    let barrel_file_dir = dirname(barrel_file);
    let mut new_imports: Vec<(Vec<char>, Vec<ImportSpecifier>)> = Vec::new();
    let mut missing_exports: Vec<String> = Vec::new();
    let mut warnings: Vec<String> = Vec::new();
    let ghost mut placed: Seq<(Seq<char>, ImportSpecifierView)> = Seq::empty();
    assert(group_views(new_imports@) =~= grouped(placed, 0));
    assert(views(missing_exports@) =~= Seq::<Seq<char>>::empty());
    assert(views(warnings@) =~= Seq::<Seq<char>>::empty());
    let mut i: usize = 0;
    while i < import_decl.specifiers.len()
        invariant
            i <= import_decl.specifiers.len(),
            specifiers == views(import_decl.specifiers@),
            barrel_file_dir@ == parent(barrel_file@),
            setting == (Setting {
                source_dir: source_dir@,
                barrel_file: barrel_file@,
                re_exports: views(re_exports@),
                mode,
                src: import_decl.src@,
                coded,
            }),
            plan_of(specifiers, setting, i as int) == Ok::<Plan, Seq<char>>(
                Plan {
                    placed,
                    missing: views(missing_exports@),
                    warnings: views(warnings@),
                },
            ),
            group_views(new_imports@) == grouped(placed, placed.len() as int),
        decreases import_decl.specifiers.len() - i,
    {
        assert(specifiers[i as int] == import_decl.specifiers@[i as int]@);
        let ghost missing_before = views(missing_exports@);
        let ghost warnings_before = views(warnings@);
        match &import_decl.specifiers[i] {
            ImportSpecifier::Named { local, imported, is_type_only } => {
                let imported_name = extract_imported_name(local, imported);
                match find_re_export_by_name(re_exports, imported_name.as_str()) {
                    Some(re_export) => {
                        let ghost k = position_by_name(
                            views(re_exports@),
                            imported_name@,
                            re_exports@.len() as int,
                        )->Some_0;
                        assert(setting.re_exports[k] == re_export@);
                        let import_path = match resolve_import_path(
                            barrel_file_dir.as_str(),
                            source_dir,
                            re_export,
                        ) {
                            Some(path) => path,
                            None => {
                                proof {
                                    lemma_plan_fails_for_good(
                                        specifiers,
                                        setting,
                                        i + 1,
                                        specifiers.len() as int,
                                    );
                                }
                                return Err(
                                    unreachable(coded, source_dir, re_export.source_path.as_str()),
                                );
                            },
                        };
                        let new_specifier = create_named_specifier(local, re_export, *is_type_only);
                        proof {
                            assert(placed.take(placed.len() as int) =~= placed.push(
                                (import_path@, new_specifier@),
                            ).take(placed.len() as int));
                            lemma_grouped_reads_prefix(
                                placed,
                                placed.push((import_path@, new_specifier@)),
                                placed.len() as int,
                            );
                            placed = placed.push((import_path@, new_specifier@));
                        }
                        add_import_specifier(&mut new_imports, import_path, new_specifier);
                    },
                    None => {
                        missing_exports.push(imported_name);
                        assert(views(missing_exports@) =~= missing_before.push(imported_name@));
                    },
                }
            },
            ImportSpecifier::Default { local } => {
                match find_default_re_export(re_exports) {
                    Some(re_export) => {
                        let ghost k = position_of_default(
                            views(re_exports@),
                            re_exports@.len() as int,
                        )->Some_0;
                        assert(setting.re_exports[k] == re_export@);
                        let import_path = match resolve_import_path(
                            barrel_file_dir.as_str(),
                            source_dir,
                            re_export,
                        ) {
                            Some(path) => path,
                            None => {
                                proof {
                                    lemma_plan_fails_for_good(
                                        specifiers,
                                        setting,
                                        i + 1,
                                        specifiers.len() as int,
                                    );
                                }
                                return Err(
                                    unreachable(coded, source_dir, re_export.source_path.as_str()),
                                );
                            },
                        };
                        let new_specifier = create_default_specifier(local);
                        proof {
                            assert(placed.take(placed.len() as int) =~= placed.push(
                                (import_path@, new_specifier@),
                            ).take(placed.len() as int));
                            lemma_grouped_reads_prefix(
                                placed,
                                placed.push((import_path@, new_specifier@)),
                                placed.len() as int,
                            );
                            placed = placed.push((import_path@, new_specifier@));
                        }
                        add_import_specifier(&mut new_imports, import_path, new_specifier);
                    },
                    None => {
                        let name = "default".to_owned();
                        missing_exports.push(name);
                        assert(views(missing_exports@) =~= missing_before.push(default_name()));
                    },
                }
            },
            ImportSpecifier::Namespace { .. } => match mode {
                UnsupportedImportMode::Error => {
                    proof {
                        lemma_plan_fails_for_good(
                            specifiers,
                            setting,
                            i + 1,
                            specifiers.len() as int,
                        );
                    }
                    return Err(namespace_error(coded));
                },
                UnsupportedImportMode::Warn => {
                    warnings.push(namespace_warned(import_decl.src.as_str()));
                    assert(views(warnings@) =~= warnings_before.push(
                        namespace_warning(import_decl.src@),
                    ));
                },
                UnsupportedImportMode::Off => {},
            },
        }
        i += 1;
    }
    if missing_exports.len() > 0 {
        return Err(unresolved(coded, barrel_file, &missing_exports));
    }
    let ghost groups = group_views(new_imports@);
    let ghost all = statements(groups, import_decl.type_only, import_decl@.with);
    let mut imports: Vec<ImportDecl> = Vec::new();
    assert(views(imports@) =~= all.take(0));
    assert(group_views(new_imports@) =~= groups.skip(0));
    while new_imports.len() > 0
        invariant
            all == statements(groups, import_decl.type_only, import_decl@.with),
            imports@.len() + new_imports@.len() == groups.len(),
            views(imports@) == all.take(imports@.len() as int),
            group_views(new_imports@) == groups.skip(imports@.len() as int),
        decreases new_imports.len(),
    {
        let ghost done = views(imports@);
        let ghost rest = group_views(new_imports@);
        let group = new_imports.remove(0);
        assert(rest[0] == (group.0@, views(group.1@)));
        let statement = ImportDecl {
            specifiers: group.1,
            src: string_of(&group.0),
            type_only: import_decl.type_only,
            with: copy_attributes(&import_decl.with),
        };
        assert(statement@ == all[imports@.len() as int]);
        imports.push(statement);
        assert(views(imports@) =~= done.push(statement@));
        assert(group_views(new_imports@) =~= rest.skip(1));
        assert(rest.skip(1) =~= groups.skip(imports@.len() as int));
    }
    assert(all.take(all.len() as int) =~= all);
    Ok(Rewrite { imports, warnings })
}

/// A failure among the first `n` bindings is the failure of the first `m`,
/// for every `m` from `n` on.
pub proof fn lemma_plan_fails_for_good(
    specifiers: Seq<ImportSpecifierView>,
    setting: Setting,
    n: int,
    m: int,
)
    requires
        n <= m,
        plan_of(specifiers, setting, n) is Err,
    ensures
        plan_of(specifiers, setting, m) == plan_of(specifiers, setting, n),
    decreases m - n,
{
    if n < m {
        lemma_plan_fails_for_good(specifiers, setting, n, m - 1);
    }
}

/// The groups of the first `n` bindings read those bindings only.
pub proof fn lemma_grouped_reads_prefix(
    a: Seq<(Seq<char>, ImportSpecifierView)>,
    b: Seq<(Seq<char>, ImportSpecifierView)>,
    n: int,
)
    requires
        0 <= n <= a.len(),
        n <= b.len(),
        a.take(n) == b.take(n),
    ensures
        grouped(a, n) == grouped(b, n),
    decreases n,
{
    if n > 0 {
        assert(a[n - 1] == a.take(n)[n - 1]);
        assert(b[n - 1] == b.take(n)[n - 1]);
        assert(a.take(n - 1) =~= a.take(n).take(n - 1));
        assert(b.take(n - 1) =~= b.take(n).take(n - 1));
        lemma_grouped_reads_prefix(a, b, n - 1);
    }
}

/// The modules of `groups` stand in the order of the dictionary, each once.
pub open spec fn in_dictionary_order(groups: Seq<(Seq<char>, Seq<ImportSpecifierView>)>) -> bool {
    forall|i: int, j: int|
        0 <= i < j < groups.len() ==> lex_lt((#[trigger] groups[i]).0, (#[trigger] groups[j]).0)
}

/// The bindings among the first `n` placed ones that are imported from
/// `module`, in their order.
pub open spec fn bindings_from(
    placed: Seq<(Seq<char>, ImportSpecifierView)>,
    module: Seq<char>,
    n: int,
) -> Seq<ImportSpecifierView>
    decreases n,
{
    if n <= 0 {
        Seq::empty()
    } else if placed[n - 1].0 == module {
        bindings_from(placed, module, n - 1).push(placed[n - 1].1)
    } else {
        bindings_from(placed, module, n - 1)
    }
}

/// The bindings of the group of `module`; none where it has no group.
pub open spec fn group_of(
    groups: Seq<(Seq<char>, Seq<ImportSpecifierView>)>,
    module: Seq<char>,
) -> Seq<ImportSpecifierView>
    decreases groups.len(),
{
    if groups.len() == 0 {
        Seq::empty()
    } else if groups.last().0 == module {
        groups.last().1
    } else {
        group_of(groups.drop_last(), module)
    }
}

/// Where every module of `groups` comes before `bound`, and `path` does,
/// every module of the groups with one more binding for `path` does.
pub proof fn lemma_with_binding_stays_before(
    groups: Seq<(Seq<char>, Seq<ImportSpecifierView>)>,
    path: Seq<char>,
    specifier: ImportSpecifierView,
    bound: Seq<char>,
)
    requires
        forall|g: int| 0 <= g < groups.len() ==> lex_lt((#[trigger] groups[g]).0, bound),
        lex_lt(path, bound),
    ensures
        forall|k: int|
            0 <= k < with_binding(groups, path, specifier).len() ==> lex_lt(
                (#[trigger] with_binding(groups, path, specifier)[k]).0,
                bound,
            ),
    decreases groups.len(),
{
    let out = with_binding(groups, path, specifier);
    if groups.len() > 0 {
        let init = groups.drop_last();
        assert forall|g: int| 0 <= g < init.len() implies lex_lt(
            (#[trigger] init[g]).0,
            bound,
        ) by {
            assert(init[g] == groups[g]);
        }
        if groups.last().0 == path {
            assert forall|k: int| 0 <= k < out.len() implies lex_lt(
                (#[trigger] out[k]).0,
                bound,
            ) by {
                assert(out[k].0 == groups[k].0);
            }
        } else if lex_lt(groups.last().0, path) {
            assert forall|k: int| 0 <= k < out.len() implies lex_lt(
                (#[trigger] out[k]).0,
                bound,
            ) by {
                if k < groups.len() {
                    assert(out[k] == groups[k]);
                }
            }
        } else {
            lemma_with_binding_stays_before(init, path, specifier, bound);
            let inner = with_binding(init, path, specifier);
            assert forall|k: int| 0 <= k < out.len() implies lex_lt(
                (#[trigger] out[k]).0,
                bound,
            ) by {
                if k < inner.len() {
                    assert(out[k] == inner[k]);
                } else {
                    assert(out[k] == groups[groups.len() - 1]);
                }
            }
        }
    }
}

/// One more binding keeps the modules in the order of the dictionary.
pub proof fn lemma_with_binding_keeps_order(
    groups: Seq<(Seq<char>, Seq<ImportSpecifierView>)>,
    path: Seq<char>,
    specifier: ImportSpecifierView,
)
    requires
        in_dictionary_order(groups),
    ensures
        in_dictionary_order(with_binding(groups, path, specifier)),
    decreases groups.len(),
{
    let out = with_binding(groups, path, specifier);
    if groups.len() > 0 {
        let last = groups.last();
        let init = groups.drop_last();
        assert forall|g: int| 0 <= g < init.len() implies lex_lt(
            (#[trigger] init[g]).0,
            last.0,
        ) by {
            assert(init[g] == groups[g]);
            assert(lex_lt(groups[g].0, groups[groups.len() - 1].0));
        }
        assert forall|i: int, j: int| 0 <= i < j < init.len() implies lex_lt(
            (#[trigger] init[i]).0,
            (#[trigger] init[j]).0,
        ) by {
            assert(init[i] == groups[i] && init[j] == groups[j]);
        }
        if last.0 == path {
            assert forall|i: int, j: int| 0 <= i < j < out.len() implies lex_lt(
                (#[trigger] out[i]).0,
                (#[trigger] out[j]).0,
            ) by {
                assert(out[i].0 == groups[i].0 && out[j].0 == groups[j].0);
            }
        } else if lex_lt(last.0, path) {
            assert forall|i: int, j: int| 0 <= i < j < out.len() implies lex_lt(
                (#[trigger] out[i]).0,
                (#[trigger] out[j]).0,
            ) by {
                if j == groups.len() {
                    assert(out[i] == groups[i]);
                    if i < groups.len() - 1 {
                        assert(init[i] == groups[i]);
                        lemma_lex_transitive(groups[i].0, last.0, path);
                    }
                } else {
                    assert(out[i] == groups[i] && out[j] == groups[j]);
                }
            }
        } else {
            lemma_lex_total(last.0, path);
            let inner = with_binding(init, path, specifier);
            lemma_with_binding_keeps_order(init, path, specifier);
            lemma_with_binding_stays_before(init, path, specifier, last.0);
            assert forall|i: int, j: int| 0 <= i < j < out.len() implies lex_lt(
                (#[trigger] out[i]).0,
                (#[trigger] out[j]).0,
            ) by {
                if j == inner.len() {
                    assert(out[i] == inner[i]);
                } else {
                    assert(out[i] == inner[i] && out[j] == inner[j]);
                }
            }
        }
    }
}

/// A module that comes behind every module of `groups` has no group.
pub proof fn lemma_no_group_behind(
    groups: Seq<(Seq<char>, Seq<ImportSpecifierView>)>,
    module: Seq<char>,
)
    requires
        forall|g: int| 0 <= g < groups.len() ==> lex_lt((#[trigger] groups[g]).0, module),
    ensures
        group_of(groups, module) == Seq::<ImportSpecifierView>::empty(),
    decreases groups.len(),
{
    if groups.len() > 0 {
        let init = groups.drop_last();
        assert(lex_lt(groups[groups.len() - 1].0, module));
        lemma_lex_total(groups.last().0, module);
        assert forall|g: int| 0 <= g < init.len() implies lex_lt(
            (#[trigger] init[g]).0,
            module,
        ) by {
            assert(init[g] == groups[g]);
        }
        lemma_no_group_behind(init, module);
    }
}

/// One more binding for `path` goes to the end of the group of `path` and
/// leaves the group of every other module as it is.
pub proof fn lemma_with_binding_extends_group(
    groups: Seq<(Seq<char>, Seq<ImportSpecifierView>)>,
    path: Seq<char>,
    specifier: ImportSpecifierView,
    module: Seq<char>,
)
    requires
        in_dictionary_order(groups),
    ensures
        group_of(with_binding(groups, path, specifier), module) == if module == path {
            group_of(groups, path).push(specifier)
        } else {
            group_of(groups, module)
        },
    decreases groups.len(),
{
    let out = with_binding(groups, path, specifier);
    let none = Seq::<ImportSpecifierView>::empty();
    if groups.len() == 0 {
        assert(out.drop_last() =~= groups);
        assert(none.push(specifier) =~= seq![specifier]);
        assert(group_of(groups, module) == none);
        assert(group_of(out, module) == if module == path {
            seq![specifier]
        } else {
            group_of(out.drop_last(), module)
        });
    } else {
        let last = groups.last();
        let init = groups.drop_last();
        if last.0 == path {
            assert(out.drop_last() =~= init);
            assert(out.last() == (path, last.1.push(specifier)));
        } else if lex_lt(last.0, path) {
            assert(out.drop_last() =~= groups);
            assert(out.last() == (path, seq![specifier]));
            assert forall|g: int| 0 <= g < groups.len() implies lex_lt(
                (#[trigger] groups[g]).0,
                path,
            ) by {
                if g < groups.len() - 1 {
                    assert(lex_lt(groups[g].0, groups[groups.len() - 1].0));
                    lemma_lex_transitive(groups[g].0, last.0, path);
                }
            }
            lemma_no_group_behind(groups, path);
            assert(none.push(specifier) =~= seq![specifier]);
        } else {
            let inner = with_binding(init, path, specifier);
            assert forall|i: int, j: int| 0 <= i < j < init.len() implies lex_lt(
                (#[trigger] init[i]).0,
                (#[trigger] init[j]).0,
            ) by {
                assert(init[i] == groups[i] && init[j] == groups[j]);
            }
            lemma_with_binding_extends_group(init, path, specifier, module);
            assert(out.drop_last() =~= inner);
            assert(out.last() == last);
        }
    }
}

/// One more binding leaves no group empty.
pub proof fn lemma_with_binding_fills(
    groups: Seq<(Seq<char>, Seq<ImportSpecifierView>)>,
    path: Seq<char>,
    specifier: ImportSpecifierView,
)
    requires
        forall|g: int| 0 <= g < groups.len() ==> (#[trigger] groups[g]).1.len() > 0,
    ensures
        forall|k: int|
            0 <= k < with_binding(groups, path, specifier).len() ==> (#[trigger] with_binding(
                groups,
                path,
                specifier,
            )[k]).1.len() > 0,
    decreases groups.len(),
{
    let out = with_binding(groups, path, specifier);
    if groups.len() > 0 {
        let init = groups.drop_last();
        assert forall|g: int| 0 <= g < init.len() implies (#[trigger] init[g]).1.len() > 0 by {
            assert(init[g] == groups[g]);
        }
        if groups.last().0 == path {
            assert forall|k: int| 0 <= k < out.len() implies (#[trigger] out[k]).1.len() > 0 by {
                if k < init.len() {
                    assert(out[k] == init[k]);
                }
            }
        } else if lex_lt(groups.last().0, path) {
            assert forall|k: int| 0 <= k < out.len() implies (#[trigger] out[k]).1.len() > 0 by {
                if k < groups.len() {
                    assert(out[k] == groups[k]);
                }
            }
        } else {
            lemma_with_binding_fills(init, path, specifier);
            let inner = with_binding(init, path, specifier);
            assert forall|k: int| 0 <= k < out.len() implies (#[trigger] out[k]).1.len() > 0 by {
                if k < inner.len() {
                    assert(out[k] == inner[k]);
                } else {
                    assert(out[k] == groups[groups.len() - 1]);
                }
            }
        }
    }
}

/// The statements of a rewrite stand in the order of the dictionary of the
/// modules they import from, each module once; the statement of a module
/// holds the bindings that were placed in that module, in the order in
/// which they were placed; no statement is without a binding.
pub proof fn lemma_grouped(placed: Seq<(Seq<char>, ImportSpecifierView)>, n: int)
    requires
        0 <= n <= placed.len(),
    ensures
        in_dictionary_order(grouped(placed, n)),
        forall|module: Seq<char>|
            #[trigger] group_of(grouped(placed, n), module) == bindings_from(placed, module, n),
        forall|k: int|
            0 <= k < grouped(placed, n).len() ==> (#[trigger] grouped(placed, n)[k]).1.len() > 0,
    decreases n,
{
    if n > 0 {
        lemma_grouped(placed, n - 1);
        let before = grouped(placed, n - 1);
        let path = placed[n - 1].0;
        let specifier = placed[n - 1].1;
        lemma_with_binding_keeps_order(before, path, specifier);
        lemma_with_binding_fills(before, path, specifier);
        assert forall|module: Seq<char>| #[trigger]
            group_of(grouped(placed, n), module) == bindings_from(placed, module, n) by {
            lemma_with_binding_extends_group(before, path, specifier, module);
        }
    }
}

} // verus!
