//! Barrel files: what a module must look like to be one, and the re-exports
//! that it holds.

use crate::text::{glue, glue3, same_str, views};
use vstd::prelude::*;

verus! {

/// A name that a barrel file hands on from another module.
#[derive(Debug, Clone, PartialEq)]
pub struct ReExport {
    /// The name under which the barrel file exports it.
    pub exported_name: String,
    /// The module that the barrel file takes it from, as written there.
    pub source_path: String,
    /// The name that it has in that module; `default` for its default export.
    pub original_name: String,
    /// Whether it is the default export of that module.
    pub is_default: bool,
}

/// A re-export with its texts as sequences of characters.
pub struct ReExportView {
    pub exported_name: Seq<char>,
    pub source_path: Seq<char>,
    pub original_name: Seq<char>,
    pub is_default: bool,
}

impl View for ReExport {
    type V = ReExportView;

    open spec fn view(&self) -> ReExportView {
        ReExportView {
            exported_name: self.exported_name@,
            source_path: self.source_path@,
            original_name: self.original_name@,
            is_default: self.is_default,
        }
    }
}

/// Why a module is no barrel file.
#[derive(Debug, Clone, PartialEq)]
pub enum BarrelError {
    /// It holds something that is not a re-export.
    NonExportCode(String),
    /// It re-exports everything of a module.
    WildcardExport(String),
    /// It re-exports a module as a namespace.
    NamespaceExport(String),
    /// It exports names without a module to take them from.
    MissingSource(String),
    /// It holds no re-export at all.
    NoReExports(String),
}

/// A finding of the analysis with its text as a sequence of characters.
pub enum BarrelFault {
    NonExportCode(Seq<char>),
    WildcardExport(Seq<char>),
    NamespaceExport(Seq<char>),
    MissingSource(Seq<char>),
    NoReExports(Seq<char>),
}

impl View for BarrelError {
    type V = BarrelFault;

    open spec fn view(&self) -> BarrelFault {
        match self {
            BarrelError::NonExportCode(m) => BarrelFault::NonExportCode(m@),
            BarrelError::WildcardExport(m) => BarrelFault::WildcardExport(m@),
            BarrelError::NamespaceExport(m) => BarrelFault::NamespaceExport(m@),
            BarrelError::MissingSource(m) => BarrelFault::MissingSource(m@),
            BarrelError::NoReExports(m) => BarrelFault::NoReExports(m@),
        }
    }
}

/// The text of a finding.
pub open spec fn fault_text(fault: BarrelFault) -> Seq<char> {
    match fault {
        BarrelFault::NonExportCode(m) => "Barrel file contains non-export code: "@ + m,
        BarrelFault::WildcardExport(m) => "Wildcard exports are not supported in barrel files: "@
            + m,
        BarrelFault::NamespaceExport(m) => "Namespace exports are not supported in barrel files: "@
            + m,
        BarrelFault::MissingSource(m) => "Export declaration without source: "@ + m,
        BarrelFault::NoReExports(m) => "No re-exports found in barrel file: "@ + m,
    }
}

impl BarrelError {
    /// The finding as a sentence.
    pub fn to_string(&self) -> (r: String)
        ensures
            r@ == fault_text(self@),
    {
        match self {
            BarrelError::NonExportCode(m) => glue(
                "Barrel file contains non-export code: ",
                m.as_str(),
            ),
            BarrelError::WildcardExport(m) => glue(
                "Wildcard exports are not supported in barrel files: ",
                m.as_str(),
            ),
            BarrelError::NamespaceExport(m) => glue(
                "Namespace exports are not supported in barrel files: ",
                m.as_str(),
            ),
            BarrelError::MissingSource(m) => glue(
                "Export declaration without source: ",
                m.as_str(),
            ),
            BarrelError::NoReExports(m) => glue(
                "No re-exports found in barrel file: ",
                m.as_str(),
            ),
        }
    }
}

/// The kind of a declaration that a module exports in place.
#[derive(Debug, Clone, Copy, PartialEq, Eq, Structural)]
pub enum Declaration {
    Variable,
    Class,
    Function,
    Interface,
    TypeAlias,
    Enum,
    Namespace,
    Other,
}

/// One name in the braces of an export statement.
#[derive(Debug, Clone, PartialEq)]
#[allow(inconsistent_fields)]
pub enum ExportSpecifier {
    /// `orig` or `orig as exported`.
    Named { orig: String, exported: Option<String> },
    /// A default export handed on under the name `exported`.
    Default { exported: String },
    /// `* as name`.
    Namespace { name: String },
}

/// A statement at the top of a module, as far as the analysis reads it.
#[derive(Debug, Clone, PartialEq)]
pub enum ModuleItem {
    /// `export { .. } from src`, or without a source.
    ExportNamed { specifiers: Vec<ExportSpecifier>, src: Option<String> },
    /// `export` before a declaration.
    ExportDecl(Declaration),
    /// `export * from src`.
    ExportAll,
    /// `export default` before a declaration.
    ExportDefaultDecl,
    /// `export default` before an expression.
    ExportDefaultExpr,
    /// An import.
    Import,
    /// `import x = ..`.
    TsImportEquals,
    /// `export = ..`.
    TsExportAssignment,
    /// `export as namespace ..`.
    TsNamespaceExport,
    /// Any other statement.
    Stmt,
}

/// A module: its statements in their order.
#[derive(Debug, Clone, PartialEq)]
pub struct Module {
    pub body: Vec<ModuleItem>,
}

/// What a declaration exported in place is called in a finding.
pub open spec fn declaration_text(declaration: Declaration) -> Seq<char> {
    match declaration {
        Declaration::Variable => "Variable declarations are not allowed in barrel files"@,
        Declaration::Class => "Class declarations are not allowed in barrel files"@,
        Declaration::Function => "Function declarations are not allowed in barrel files"@,
        Declaration::Interface => "Interface declarations are not allowed in barrel files"@,
        Declaration::TypeAlias => "Type alias declarations are not allowed in barrel files"@,
        Declaration::Enum => "Enum declarations are not allowed in barrel files"@,
        Declaration::Namespace => "Module declarations are not allowed in barrel files"@,
        Declaration::Other => "Unknown declaration type in barrel file"@,
    }
}

/// What an export of names without a source is told: the text names the
/// first of its specifiers, where it has one.
pub open spec fn missing_source_text(specifiers: Seq<ExportSpecifier>) -> Seq<char> {
    if specifiers.len() == 0 {
        "Export declaration does not have a source"@
    } else {
        match specifiers[0] {
            ExportSpecifier::Named { orig, exported } => "Export '"@ + match exported {
                Some(name) => name@,
                None => orig@,
            } + "' does not have a source"@,
            ExportSpecifier::Default { .. } => "Default export does not have a source"@,
            ExportSpecifier::Namespace { name } => "Namespace export '"@ + name@
                + "' does not have a source"@,
        }
    }
}

/// The finding against a statement; none against an export of names,
/// with or without a source.
pub open spec fn item_fault(item: ModuleItem) -> Option<BarrelFault> {
    match item {
        ModuleItem::ExportNamed { .. } => None,
        ModuleItem::ExportDecl(declaration) => Some(
            BarrelFault::NonExportCode(declaration_text(declaration)),
        ),
        ModuleItem::ExportAll => Some(
            BarrelFault::WildcardExport("Wildcard exports are not allowed in barrel files"@),
        ),
        ModuleItem::ExportDefaultDecl => Some(
            BarrelFault::NonExportCode(
                "Default export declarations are not allowed in barrel files"@,
            ),
        ),
        ModuleItem::ExportDefaultExpr => Some(
            BarrelFault::NonExportCode(
                "Default export expressions are not allowed in barrel files"@,
            ),
        ),
        ModuleItem::Import => Some(
            BarrelFault::NonExportCode("Import declarations are not allowed in barrel files"@),
        ),
        ModuleItem::TsImportEquals => Some(
            BarrelFault::NonExportCode(
                "TypeScript import equals declarations are not allowed in barrel files"@,
            ),
        ),
        ModuleItem::TsExportAssignment => Some(
            BarrelFault::NonExportCode(
                "TypeScript export assignments are not allowed in barrel files"@,
            ),
        ),
        ModuleItem::TsNamespaceExport => Some(
            BarrelFault::NonExportCode(
                "TypeScript namespace exports are not allowed in barrel files"@,
            ),
        ),
        ModuleItem::Stmt => Some(
            BarrelFault::NonExportCode("Statements are not allowed in barrel files"@),
        ),
    }
}

/// The finding against the first of the first `n` statements that has one.
pub open spec fn first_fault(body: Seq<ModuleItem>, n: int) -> Option<BarrelFault>
    decreases n,
{
    if n <= 0 {
        None
    } else {
        match first_fault(body, n - 1) {
            Some(fault) => Some(fault),
            None => item_fault(body[n - 1]),
        }
    }
}

/// The text `default`, the name of a default export.
pub open spec fn default_name() -> Seq<char> {
    "default"@
}

/// The re-export that one specifier of an export statement from `source`
/// makes, or the finding against it: a namespace makes none.
pub open spec fn specifier_outcome(specifier: ExportSpecifier, source: Seq<char>) -> Result<
    ReExportView,
    BarrelFault,
> {
    match specifier {
        ExportSpecifier::Named { orig, exported } => Ok(
            ReExportView {
                exported_name: match exported {
                    Some(name) => name@,
                    None => orig@,
                },
                source_path: source,
                original_name: orig@,
                is_default: orig@ == default_name(),
            },
        ),
        ExportSpecifier::Default { exported } => Ok(
            ReExportView {
                exported_name: exported@,
                source_path: source,
                original_name: default_name(),
                is_default: true,
            },
        ),
        ExportSpecifier::Namespace { name } => Err(
            BarrelFault::NamespaceExport("export * as "@ + name@ + " from '"@ + source + "'"@),
        ),
    }
}

/// `found` and then the re-exports of the first `n` specifiers of one
/// export statement from `source`, or the first finding against one of
/// them.
pub open spec fn collect_specifiers(
    found: Seq<ReExportView>,
    specifiers: Seq<ExportSpecifier>,
    source: Seq<char>,
    n: int,
) -> Result<Seq<ReExportView>, BarrelFault>
    decreases n,
{
    if n <= 0 {
        Ok(found)
    } else {
        match collect_specifiers(found, specifiers, source, n - 1) {
            Err(fault) => Err(fault),
            Ok(list) => match specifier_outcome(specifiers[n - 1], source) {
                Ok(re_export) => Ok(list.push(re_export)),
                Err(fault) => Err(fault),
            },
        }
    }
}

/// The re-exports of the first `n` statements in their order, or the first
/// finding against an export of names: that it has no source, before any of
/// its specifiers is read, or else what one of its specifiers earns.
pub open spec fn collect_items(body: Seq<ModuleItem>, n: int) -> Result<
    Seq<ReExportView>,
    BarrelFault,
>
    decreases n,
{
    if n <= 0 {
        Ok(Seq::empty())
    } else {
        match collect_items(body, n - 1) {
            Err(fault) => Err(fault),
            Ok(list) => match body[n - 1] {
                ModuleItem::ExportNamed { specifiers, src } => match src {
                    Some(source) => collect_specifiers(
                        list,
                        specifiers@,
                        source@,
                        specifiers@.len() as int,
                    ),
                    None => Err(BarrelFault::MissingSource(missing_source_text(specifiers@))),
                },
                _ => Ok(list),
            },
        }
    }
}

/// What the analysis of a module gives: the finding against the first
/// statement that is no export of names; else the first finding against an
/// export of names, that it has no source or what one of its specifiers
/// earns; else the re-exports in the order of the module, of which there
/// must be one at least.
pub open spec fn analysis(body: Seq<ModuleItem>, file_path: Seq<char>) -> Result<
    Seq<ReExportView>,
    BarrelFault,
> {
    match first_fault(body, body.len() as int) {
        Some(fault) => Err(fault),
        None => match collect_items(body, body.len() as int) {
            Err(fault) => Err(fault),
            Ok(list) => if list.len() == 0 {
                Err(BarrelFault::NoReExports(file_path))
            } else {
                Ok(list)
            },
        },
    }
}

fn declaration_message(declaration: &Declaration) -> (r: String)
    ensures
        r@ == declaration_text(*declaration),
{
    let text = match declaration {
        Declaration::Variable => "Variable declarations are not allowed in barrel files",
        Declaration::Class => "Class declarations are not allowed in barrel files",
        Declaration::Function => "Function declarations are not allowed in barrel files",
        Declaration::Interface => "Interface declarations are not allowed in barrel files",
        Declaration::TypeAlias => "Type alias declarations are not allowed in barrel files",
        Declaration::Enum => "Enum declarations are not allowed in barrel files",
        Declaration::Namespace => "Module declarations are not allowed in barrel files",
        Declaration::Other => "Unknown declaration type in barrel file",
    };
    text.to_owned()
}

fn missing_source_message(specifiers: &Vec<ExportSpecifier>) -> (r: String)
    ensures
        r@ == missing_source_text(specifiers@),
{
    if specifiers.len() == 0 {
        return "Export declaration does not have a source".to_owned();
    }
    match &specifiers[0] {
        ExportSpecifier::Named { orig, exported } => {
            let exported_name = match exported {
                Some(name) => name.as_str(),
                None => orig.as_str(),
            };
            glue3("Export '", exported_name, "' does not have a source")
        },
        ExportSpecifier::Default { .. } => "Default export does not have a source".to_owned(),
        ExportSpecifier::Namespace { name } => glue3(
            "Namespace export '",
            name.as_str(),
            "' does not have a source",
        ),
    }
}

fn check_item(item: &ModuleItem) -> (r: Result<(), BarrelError>)
    ensures
        match item_fault(*item) {
            Some(fault) => r is Err && r->Err_0@ == fault,
            None => r is Ok,
        },
{
    match item {
        ModuleItem::ExportNamed { .. } => Ok(()),
        ModuleItem::ExportDecl(declaration) => Err(
            BarrelError::NonExportCode(declaration_message(declaration)),
        ),
        ModuleItem::ExportAll => Err(
            BarrelError::WildcardExport(
                "Wildcard exports are not allowed in barrel files".to_owned(),
            ),
        ),
        ModuleItem::ExportDefaultDecl => Err(
            BarrelError::NonExportCode(
                "Default export declarations are not allowed in barrel files".to_owned(),
            ),
        ),
        ModuleItem::ExportDefaultExpr => Err(
            BarrelError::NonExportCode(
                "Default export expressions are not allowed in barrel files".to_owned(),
            ),
        ),
        ModuleItem::Import => Err(
            BarrelError::NonExportCode(
                "Import declarations are not allowed in barrel files".to_owned(),
            ),
        ),
        ModuleItem::TsImportEquals => Err(
            BarrelError::NonExportCode(
                "TypeScript import equals declarations are not allowed in barrel files".to_owned(),
            ),
        ),
        ModuleItem::TsExportAssignment => Err(
            BarrelError::NonExportCode(
                "TypeScript export assignments are not allowed in barrel files".to_owned(),
            ),
        ),
        ModuleItem::TsNamespaceExport => Err(
            BarrelError::NonExportCode(
                "TypeScript namespace exports are not allowed in barrel files".to_owned(),
            ),
        ),
        ModuleItem::Stmt => Err(
            BarrelError::NonExportCode("Statements are not allowed in barrel files".to_owned()),
        ),
    }
}

/// Checks that a module holds nothing but exports of names. The finding is
/// against the first statement that is something else. Whether an export
/// of names has a source is not looked at here.
pub fn validate_barrel_file(ast: &Module) -> (r: Result<(), BarrelError>)
    ensures
        match first_fault(ast.body@, ast.body@.len() as int) {
            Some(fault) => r is Err && r->Err_0@ == fault,
            None => r is Ok,
        },
        r is Ok <==> forall|i: int|
            0 <= i < ast.body@.len() ==> (#[trigger] ast.body@[i]) is ExportNamed,
{
    proof {
        lemma_only_exports_of_names_pass(ast.body@, ast.body@.len() as int);
    }
    let mut i: usize = 0;
    while i < ast.body.len()
        invariant
            i <= ast.body.len(),
            first_fault(ast.body@, i as int) is None,
        decreases ast.body.len() - i,
    {
        match check_item(&ast.body[i]) {
            Ok(()) => {},
            Err(e) => {
                proof {
                    lemma_first_fault_stays(ast.body@, i + 1, ast.body@.len() as int);
                }
                return Err(e);
            },
        }
        i += 1;
    }
    Ok(())
}

/// A finding among the first `n` statements is the finding among the first
/// `m`, for every `m` from `n` on.
pub proof fn lemma_first_fault_stays(body: Seq<ModuleItem>, n: int, m: int)
    requires
        n <= m,
        first_fault(body, n) is Some,
    ensures
        first_fault(body, m) == first_fault(body, n),
    decreases m - n,
{
    if n < m {
        lemma_first_fault_stays(body, n, m - 1);
    }
}

fn re_export_of(specifier: &ExportSpecifier, source: &String) -> (r: Result<
    ReExport,
    BarrelError,
>)
    ensures
        match specifier_outcome(*specifier, source@) {
            Ok(re_export) => r is Ok && r->Ok_0@ == re_export,
            Err(fault) => r is Err && r->Err_0@ == fault,
        },
{
    match specifier {
        ExportSpecifier::Named { orig, exported } => Ok(
            ReExport {
                exported_name: match exported {
                    Some(name) => name.clone(),
                    None => orig.clone(),
                },
                source_path: source.clone(),
                original_name: orig.clone(),
                is_default: same_str(orig.as_str(), "default"),
            },
        ),
        ExportSpecifier::Default { exported } => Ok(
            ReExport {
                exported_name: exported.clone(),
                source_path: source.clone(),
                original_name: "default".to_owned(),
                is_default: true,
            },
        ),
        ExportSpecifier::Namespace { name } => {
            let head = glue3("export * as ", name.as_str(), " from '");
            Err(BarrelError::NamespaceExport(glue3(head.as_str(), source.as_str(), "'")))
        },
    }
}

/// Analyses a module as a barrel file: see [`analysis`]. `file_path` names
/// the module in the finding that it holds no re-export.
pub fn analyze_barrel_file(ast: &Module, file_path: &str) -> (r: Result<Vec<ReExport>, BarrelError>)
    ensures
        match analysis(ast.body@, file_path@) {
            Ok(list) => r is Ok && views(r->Ok_0@) == list,
            Err(fault) => r is Err && r->Err_0@ == fault,
        },
{
    match validate_barrel_file(ast) {
        Ok(()) => {},
        Err(e) => {
            return Err(e);
        },
    }
    let mut re_exports: Vec<ReExport> = Vec::new();
    let mut i: usize = 0;
    assert(views(re_exports@) =~= Seq::<ReExportView>::empty());
    while i < ast.body.len()
        invariant
            i <= ast.body.len(),
            first_fault(ast.body@, ast.body@.len() as int) is None,
            collect_items(ast.body@, i as int) == Ok::<Seq<ReExportView>, BarrelFault>(
                views(re_exports@),
            ),
        decreases ast.body.len() - i,
    {
        match &ast.body[i] {
            ModuleItem::ExportNamed { specifiers, src } => {
                let source = match src {
                    Some(source) => source,
                    None => {
                        proof {
                            lemma_item_fault_stays(ast.body@, i + 1, ast.body@.len() as int);
                        }
                        return Err(
                            BarrelError::MissingSource(missing_source_message(specifiers)),
                        );
                    },
                };
                let ghost found = views(re_exports@);
                let mut j: usize = 0;
                while j < specifiers.len()
                    invariant
                        j <= specifiers.len(),
                        i < ast.body.len(),
                        first_fault(ast.body@, ast.body@.len() as int) is None,
                        collect_items(ast.body@, i as int) == Ok::<
                            Seq<ReExportView>,
                            BarrelFault,
                        >(found),
                        ast.body@[i as int] == (ModuleItem::ExportNamed {
                            specifiers: *specifiers,
                            src: Some(*source),
                        }),
                        collect_specifiers(found, specifiers@, source@, j as int) == Ok::<
                            Seq<ReExportView>,
                            BarrelFault,
                        >(views(re_exports@)),
                    decreases specifiers.len() - j,
                {
                    match re_export_of(&specifiers[j], source) {
                        Ok(re_export) => {
                            let ghost before = views(re_exports@);
                            re_exports.push(re_export);
                            assert(views(re_exports@) =~= before.push(re_export@));
                        },
                        Err(e) => {
                            proof {
                                lemma_specifier_fault_stays(
                                    found,
                                    specifiers@,
                                    source@,
                                    j + 1,
                                    specifiers@.len() as int,
                                );
                                lemma_item_fault_stays(ast.body@, i + 1, ast.body@.len() as int);
                            }
                            return Err(e);
                        },
                    }
                    j += 1;
                }
            },
            _ => {},
        }
        i += 1;
    }
    if re_exports.len() == 0 {
        return Err(BarrelError::NoReExports(file_path.to_owned()));
    }
    Ok(re_exports)
}

/// A finding against one of the first `n` specifiers is the finding against
/// the first `m`, for every `m` from `n` on.
pub proof fn lemma_specifier_fault_stays(
    found: Seq<ReExportView>,
    specifiers: Seq<ExportSpecifier>,
    source: Seq<char>,
    n: int,
    m: int,
)
    requires
        n <= m,
        collect_specifiers(found, specifiers, source, n) is Err,
    ensures
        collect_specifiers(found, specifiers, source, m) == collect_specifiers(
            found,
            specifiers,
            source,
            n,
        ),
    decreases m - n,
{
    if n < m {
        lemma_specifier_fault_stays(found, specifiers, source, n, m - 1);
    }
}

/// A finding against a specifier in the first `n` statements is the finding
/// in the first `m`, for every `m` from `n` on.
pub proof fn lemma_item_fault_stays(body: Seq<ModuleItem>, n: int, m: int)
    requires
        n <= m,
        collect_items(body, n) is Err,
    ensures
        collect_items(body, m) == collect_items(body, n),
    decreases m - n,
{
    if n < m {
        lemma_item_fault_stays(body, n, m - 1);
    }
}

/// No statement among the first `n` earns a finding exactly where each of
/// them is an export of names.
pub proof fn lemma_only_exports_of_names_pass(body: Seq<ModuleItem>, n: int)
    requires
        0 <= n <= body.len(),
    ensures
        first_fault(body, n) is None <==> forall|i: int|
            0 <= i < n ==> (#[trigger] body[i]) is ExportNamed,
    decreases n,
{
    if n > 0 {
        lemma_only_exports_of_names_pass(body, n - 1);
        if first_fault(body, n) is None {
            assert forall|i: int| 0 <= i < n implies (#[trigger] body[i]) is ExportNamed by {
                if i == n - 1 {
                    assert(item_fault(body[i]) is None);
                }
            }
        } else {
            if first_fault(body, n - 1) is None {
                assert(item_fault(body[n - 1]) is Some);
                assert(!(body[n - 1] is ExportNamed));
            }
        }
    }
}

/// A statement is a re-export where it is an export of names from a
/// source.
pub open spec fn is_re_export(item: ModuleItem) -> bool {
    match item {
        ModuleItem::ExportNamed { src, .. } => src is Some,
        _ => false,
    }
}

/// The first finding is the finding against one of the statements, and it
/// is not that the module holds no re-export.
pub proof fn lemma_first_fault_is_of_an_item(body: Seq<ModuleItem>, n: int)
    requires
        0 <= n <= body.len(),
        first_fault(body, n) is Some,
    ensures
        exists|i: int| 0 <= i < n && #[trigger] item_fault(body[i]) == first_fault(body, n),
        !(first_fault(body, n)->Some_0 is NoReExports),
    decreases n,
{
    if first_fault(body, n - 1) is Some {
        lemma_first_fault_is_of_an_item(body, n - 1);
        let i = choose|i: int|
            0 <= i < n - 1 && #[trigger] item_fault(body[i]) == first_fault(body, n - 1);
        assert(item_fault(body[i]) == first_fault(body, n));
    } else {
        assert(item_fault(body[n - 1]) == first_fault(body, n));
    }
}

/// A finding against the specifiers of a statement is that one of them is
/// a namespace.
pub proof fn lemma_specifier_fault_is_a_namespace(
    found: Seq<ReExportView>,
    specifiers: Seq<ExportSpecifier>,
    source: Seq<char>,
    n: int,
)
    requires
        collect_specifiers(found, specifiers, source, n) is Err,
    ensures
        collect_specifiers(found, specifiers, source, n)->Err_0 is NamespaceExport,
    decreases n,
{
    if n > 0 && collect_specifiers(found, specifiers, source, n - 1) is Err {
        lemma_specifier_fault_is_a_namespace(found, specifiers, source, n - 1);
    }
}

/// A finding against an export of names is that it has no source or that
/// one of its specifiers is a namespace.
pub proof fn lemma_item_fault_is_of_an_export(body: Seq<ModuleItem>, n: int)
    requires
        collect_items(body, n) is Err,
    ensures
        collect_items(body, n)->Err_0 is MissingSource || collect_items(
            body,
            n,
        )->Err_0 is NamespaceExport,
    decreases n,
{
    if n > 0 {
        match collect_items(body, n - 1) {
            Err(_) => {
                lemma_item_fault_is_of_an_export(body, n - 1);
            },
            Ok(list) => match body[n - 1] {
                ModuleItem::ExportNamed { specifiers, src } => match src {
                    Some(source) => {
                        lemma_specifier_fault_is_a_namespace(
                            list,
                            specifiers@,
                            source@,
                            specifiers@.len() as int,
                        );
                    },
                    None => {},
                },
                _ => {},
            },
        }
    }
}

/// A module that holds anything but exports of names from a source is no
/// barrel file, whatever else it holds; the finding is against one of its
/// statements and is the same whatever the file is called.
pub proof fn lemma_analysis_refuses(
    body: Seq<ModuleItem>,
    file_path: Seq<char>,
    other_path: Seq<char>,
    i: int,
)
    requires
        0 <= i < body.len(),
        !is_re_export(body[i]),
    ensures
        analysis(body, file_path) is Err,
        !(analysis(body, file_path)->Err_0 is NoReExports),
        analysis(body, file_path) == analysis(body, other_path),
{
    let n = body.len() as int;
    lemma_only_exports_of_names_pass(body, n);
    if first_fault(body, n) is Some {
        lemma_first_fault_is_of_an_item(body, n);
    } else {
        assert(body[i] is ExportNamed);
        assert(collect_items(body, i + 1) is Err);
        lemma_item_fault_stays(body, i + 1, n);
        lemma_item_fault_is_of_an_export(body, n);
    }
}

/// What the analysis gives as the re-exports of a module is never empty.
pub proof fn lemma_analysis_is_not_empty(body: Seq<ModuleItem>, file_path: Seq<char>)
    ensures
        analysis(body, file_path) is Ok ==> analysis(body, file_path)->Ok_0.len() > 0,
{
}

} // verus!
