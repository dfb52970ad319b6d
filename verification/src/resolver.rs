//! Resolution with the working directory given at each call: the relative
//! path between two paths, computed name by name; the virtual path of a
//! path; and the barrel file that an import names under one rule.

use crate::alias_resolver::{Resolution, ResolutionView};
use crate::config::UnsupportedImportMode;
use crate::import_transformer::{
    rewrite_with, rewritten, ImportDecl, ImportDeclView, Rewrite, Setting,
};
use crate::path_resolver::{holds, rest_below, virtual_path};
use crate::paths::{
    ascents, components, current_dir, difference, dirname, is_absolute, joined, names_of,
    normalize_chars, parent, parent_dir, path_join, push_chars, slash,
};
use crate::pattern_matcher::{
    apply_components_to_template, count_wildcards, fill, values_of, wildcard, Components,
};
use crate::re_export::{
    analysis, analyze_barrel_file, fault_text, BarrelError, BarrelFault, Module, ReExport,
};
use crate::regex_matcher::{
    components_of, extract_pattern_components, extraction, try_extract_pattern_components,
};
use crate::text::{
    append_chars, chars_of, copy_range, count_char, glue, glue3, join, join_first, same_str,
    same_text, split_on, string_of, views,
};
use crate::visitor::{Progress, ProgressView};
use vstd::prelude::*;

verus! {

/// The relative path from the directory `from` to `to`: `to` itself where
/// it alone is absolute, nothing where `from` alone is; else the components
/// that lead from `from` to `to`, behind `.` unless they begin with `..`.
pub open spec fn relative_path(from: Seq<char>, to: Seq<char>) -> Option<Seq<char>> {
    if is_absolute(to) != is_absolute(from) {
        if is_absolute(to) {
            Some(to)
        } else {
            None
        }
    } else {
        match difference(components(to), components(from), 0, Seq::empty()) {
            None => None,
            Some(found) => Some(
                join(
                    if found.len() == 0 || found[0] != parent_dir() {
                        seq![current_dir()] + found
                    } else {
                        found
                    },
                    slash(),
                ),
            ),
        }
    }
}

fn components_of_path(path: &Vec<char>) -> (r: Vec<Vec<char>>)
    ensures
        views(r@) == components(path@),
{
    let pieces = split_on(path, '/');
    let mut out: Vec<Vec<char>> = Vec::new();
    if path.len() > 0 && path[0] == '/' {
        let mut root: Vec<char> = Vec::new();
        root.push('/');
        assert(root@ =~= slash());
        out.push(root);
    }
    let ghost head = views(out@);
    assert(head =~= if is_absolute(path@) {
        seq![slash()]
    } else {
        Seq::<Seq<char>>::empty()
    });
    let mut i: usize = 0;
    assert(views(out@) =~= head + names_of(views(pieces@), 0));
    while i < pieces.len()
        invariant
            i <= pieces.len(),
            views(out@) == head + names_of(views(pieces@), i as int),
        decreases pieces.len() - i,
    {
        let piece = &pieces[i];
        assert(views(pieces@)[i as int] == piece@);
        let is_dot = piece.len() == 1 && piece[0] == '.';
        assert(is_dot == (piece@ == current_dir())) by {
            if is_dot {
                assert(piece@ =~= current_dir());
            }
        }
        if !(piece.len() == 0 || (is_dot && i > 0)) {
            let ghost before = views(out@);
            out.push(copy_range(piece, 0, piece.len()));
            assert(piece@.subrange(0, piece@.len() as int) =~= piece@);
            assert(views(out@) =~= before.push(piece@));
        }
        i += 1;
    }
    out
}

fn is_text(piece: &Vec<char>, a: char, len: usize) -> (r: bool)
    requires
        1 <= len <= 2,
    ensures
        r == (piece@ == if len == 1 {
            seq![a]
        } else {
            seq![a, a]
        }),
{
    if piece.len() != len {
        return false;
    }
    let r = if len == 1 {
        piece[0] == a
    } else {
        piece[0] == a && piece[1] == a
    };
    assert(r ==> piece@ =~= if len == 1 {
        seq![a]
    } else {
        seq![a, a]
    });
    r
}

fn push_rest(out: &mut Vec<Vec<char>>, from: &Vec<Vec<char>>, start: usize)
    requires
        start <= from.len(),
    ensures
        views(final(out)@) == views(old(out)@) + views(from@).skip(start as int),
{
    let ghost before = views(out@);
    let mut j: usize = start;
    assert(views(out@) =~= before + views(from@).subrange(start as int, j as int));
    while j < from.len()
        invariant
            start <= j <= from.len(),
            views(out@) == before + views(from@).subrange(start as int, j as int),
        decreases from.len() - j,
    {
        let ghost so_far = views(out@);
        out.push(copy_range(&from[j], 0, from[j].len()));
        assert(from@[j as int]@.subrange(0, from@[j as int]@.len() as int) =~= from@[j as int]@);
        assert(views(out@) =~= so_far.push(views(from@)[j as int]));
        assert(views(out@) =~= before + views(from@).subrange(start as int, j + 1));
        j += 1;
    }
    assert(views(from@).subrange(start as int, from@.len() as int) =~= views(from@).skip(
        start as int,
    ));
}

fn up() -> (r: Vec<char>)
    ensures
        r@ == parent_dir(),
{
    let r: Vec<char> = vec!['.', '.'];
    assert(r@ =~= parent_dir());
    r
}

/// The relative import specifier that leads from the directory `from_path`
/// to `to_path`: see [`relative_path`].
pub fn resolve_relative_path(from_path: &str, to_path: &str) -> (r: Option<String>)
    ensures
        match relative_path(from_path@, to_path@) {
            Some(path) => r is Some && r->Some_0@ == path,
            None => r is None,
        },
{
    let from = chars_of(from_path);
    let to = chars_of(to_path);
    let from_absolute = from.len() > 0 && from[0] == '/';
    let to_absolute = to.len() > 0 && to[0] == '/';
    if to_absolute != from_absolute {
        if to_absolute {
            return Some(string_of(&to));
        } else {
            return None;
        }
    }
    let path = components_of_path(&to);
    let base = components_of_path(&from);
    let mut comps: Vec<Vec<char>> = Vec::new();
    let mut i: usize = 0;
    let ghost wanted = difference(views(path@), views(base@), 0, Seq::empty());
    assert(views(comps@) =~= Seq::<Seq<char>>::empty());
    loop
        invariant_except_break
            i <= path.len() || i <= base.len(),
            difference(views(path@), views(base@), i as int, views(comps@)) == wanted,
        invariant
            from@ == from_path@,
            to@ == to_path@,
            is_absolute(to@) == is_absolute(from@),
            views(path@) == components(to@),
            views(base@) == components(from@),
            wanted == difference(views(path@), views(base@), 0, Seq::empty()),
        ensures
            wanted == Some(views(comps@)),
        decreases path.len() + base.len() - i,
    {
        if i >= path.len() && i >= base.len() {
            break;
        }
        let ghost before = views(comps@);
        if i >= base.len() {
            push_rest(&mut comps, &path, i);
            break;
        }
        assert(views(base@)[i as int] == base@[i as int]@);
        if i >= path.len() {
            comps.push(up());
            assert(views(comps@) =~= before.push(parent_dir()));
        } else {
            assert(views(path@)[i as int] == path@[i as int]@);
            if comps.len() == 0 && same_text(&path[i], &base[i]) {
            } else if is_text(&base[i], '.', 1) {
                comps.push(copy_range(&path[i], 0, path[i].len()));
                assert(path@[i as int]@.subrange(0, path@[i as int]@.len() as int)
                    =~= path@[i as int]@);
                assert(views(comps@) =~= before.push(path@[i as int]@));
            } else if is_text(&base[i], '.', 2) {
                return None;
            } else {
                let mut j: usize = i;
                assert(views(comps@) =~= before + ascents(0));
                while j < base.len()
                    invariant
                        i <= j <= base.len(),
                        views(comps@) == before + ascents(j - i),
                    decreases base.len() - j,
                {
                    let ghost so_far = views(comps@);
                    comps.push(up());
                    assert(views(comps@) =~= so_far.push(parent_dir()));
                    assert(views(comps@) =~= before + ascents(j + 1 - i));
                    j += 1;
                }
                push_rest(&mut comps, &path, i);
                break;
            }
        }
        i += 1;
    }
    let mut out: Vec<char> = Vec::new();
    let ghost found = views(comps@);
    let ghost all = if found.len() == 0 || found[0] != parent_dir() {
        seq![current_dir()] + found
    } else {
        found
    };
    let dotted = comps.len() == 0 || !is_text(&comps[0], '.', 2);
    proof {
        if comps.len() > 0 {
            assert(found[0] == comps@[0]@);
        }
    }
    if dotted {
        out.push('.');
    }
    assert(out@ =~= join_first(all, slash(), if dotted {
        1int
    } else {
        0int
    }));
    let mut j: usize = 0;
    while j < comps.len()
        invariant
            j <= comps.len(),
            found == views(comps@),
            all == if dotted {
                seq![current_dir()] + found
            } else {
                found
            },
            out@ == join_first(all, slash(), j + if dotted {
                1int
            } else {
                0int
            }),
        decreases comps.len() - j,
    {
        if j > 0 || dotted {
            out.push('/');
        }
        assert(found[j as int] == comps@[j as int]@);
        append_chars(&mut out, &comps[j]);
        assert(out@ =~= join_first(all, slash(), j + 1 + if dotted {
            1int
        } else {
            0int
        }));
        j += 1;
    }
    Some(string_of(&out))
}

/// The message for a path that has no place in the virtual file system.
pub open spec fn unsupported_path_message(path: Seq<char>) -> Seq<char> {
    "Absolute paths not starting with cwd are not supported: "@ + path
}

/// Maps `path` into the virtual file system, seen from `cwd`: see
/// [`virtual_path`].
pub fn resolve_to_virtual_path(cwd: &str, path: &str) -> (r: Result<String, String>)
    ensures
        match virtual_path(cwd@, path@) {
            Some(v) => r is Ok && r->Ok_0@ == v,
            None => r is Err && r->Err_0@ == unsupported_path_message(path@),
        },
{
    let p = chars_of(path);
    let root: Vec<char> = vec!['/', 'c', 'w', 'd'];
    assert(root@ =~= crate::path_resolver::virtual_root());
    if holds(&root, &p) {
        return Ok(string_of(&p));
    }
    let base = chars_of(cwd);
    if holds(&base, &p) {
        let rest = rest_below(&base, &p);
        return Ok(string_of(&normalize_chars(&push_chars(&root, &rest))));
    }
    if p.len() > 0 && p[0] == '/' {
        return Err(glue("Absolute paths not starting with cwd are not supported: ", path));
    }
    Ok(string_of(&normalize_chars(&push_chars(&root, &p))))
}

/// Every template takes as many components as there are.
pub open spec fn templates_fit(paths: Seq<Seq<char>>, components: nat) -> bool {
    forall|i: int|
        0 <= i < paths.len() ==> count_char(#[trigger] paths[i], wildcard()) == components
}

/// What looking for a barrel file comes to from template `k` on, when
/// `probes` says of each earlier candidate whether it exists: a candidate
/// with no place in the virtual file system fails; the first candidate whose
/// existence is not known is to be probed; the first that exists is the
/// file; with no template left there is no barrel file.
pub open spec fn barrel_file_from(
    cwd: Seq<char>,
    values: Seq<Seq<char>>,
    paths: Seq<Seq<char>>,
    probes: Seq<bool>,
    k: int,
) -> Result<ResolutionView, Seq<char>>
    decreases paths.len() - k,
{
    if k < 0 || k >= paths.len() {
        Ok(ResolutionView::Unmatched)
    } else {
        let path = fill(paths[k], values);
        match virtual_path(cwd, path) {
            None => Err(unsupported_path_message(path)),
            Some(file) => if k >= probes.len() {
                Ok(ResolutionView::Probe(file))
            } else if probes[k] {
                Ok(ResolutionView::Resolved(file))
            } else {
                barrel_file_from(cwd, values, paths, probes, k + 1)
            },
        }
    }
}

/// Looks for the barrel file that the templates `paths` name when they are
/// filled with `components`, as far as `probes` lets it be found: see
/// [`barrel_file_from`].
pub fn barrel_file_among(
    cwd: &str,
    components: &Components,
    paths: &Vec<String>,
    probes: &Vec<bool>,
) -> (r: Result<Resolution, String>)
    requires
        templates_fit(views(paths@), components@.len()),
    ensures
        match barrel_file_from(cwd@, values_of(components@), views(paths@), probes@, 0) {
            Ok(found) => r is Ok && r->Ok_0@ == found,
            Err(message) => r is Err && r->Err_0@ == message,
        },
{
    let mut k: usize = 0;
    while k < paths.len()
        invariant
            k <= paths.len(),
            templates_fit(views(paths@), components@.len()),
            barrel_file_from(cwd@, values_of(components@), views(paths@), probes@, 0)
                == barrel_file_from(
                cwd@,
                values_of(components@),
                views(paths@),
                probes@,
                k as int,
            ),
        decreases paths.len() - k,
    {
        assert(views(paths@)[k as int] == paths@[k as int]@);
        let resolved_path = apply_components_to_template(paths[k].as_str(), components);
        let file = match resolve_to_virtual_path(cwd, resolved_path.as_str()) {
            Ok(file) => file,
            Err(message) => {
                return Err(message);
            },
        };
        if k >= probes.len() {
            return Ok(Resolution::Probe(file));
        }
        if probes[k] {
            return Ok(Resolution::Resolved(file));
        }
        k += 1;
    }
    Ok(Resolution::Unmatched)
}

/// Whether every template takes as many components as there are.
pub fn fit(paths: &Vec<String>, components: usize) -> (r: bool)
    ensures
        r == templates_fit(views(paths@), components as nat),
{
    let mut i: usize = 0;
    while i < paths.len()
        invariant
            i <= paths.len(),
            forall|j: int|
                0 <= j < i ==> count_char(#[trigger] views(paths@)[j], wildcard()) == components,
        decreases paths.len() - i,
    {
        assert(views(paths@)[i as int] == paths@[i as int]@);
        if count_wildcards(paths[i].as_str()) != components {
            return false;
        }
        i += 1;
    }
    true
}

/// Looks for the barrel file that `import_path` names under the rule with
/// the pattern `pattern` and the templates `paths`; nothing where the
/// pattern makes no regular expression or a template does not take the
/// components that the pattern finds.
pub fn try_resolve_barrel_file(
    cwd: &str,
    import_path: &str,
    pattern: &str,
    paths: &Vec<String>,
    probes: &Vec<bool>,
) -> (r: Option<Result<Resolution, String>>)
    ensures
        r is Some <==> extraction(import_path@, pattern@) is Some && templates_fit(
            views(paths@),
            components_of(extraction(import_path@, pattern@)->Some_0).len(),
        ),
        r is Some ==> match barrel_file_from(
            cwd@,
            values_of(components_of(extraction(import_path@, pattern@)->Some_0)),
            views(paths@),
            probes@,
            0,
        ) {
            Ok(found) => r->Some_0 is Ok && r->Some_0->Ok_0@ == found,
            Err(message) => r->Some_0 is Err && r->Some_0->Err_0@ == message,
        },
{
    match try_extract_pattern_components(import_path, pattern) {
        None => None,
        Some(components) => {
            if !fit(paths, components.len()) {
                return None;
            }
            Some(resolve_barrel_file(cwd, import_path, pattern, paths, probes))
        },
    }
}

/// Looks for the barrel file that `import_path` names under the rule with
/// the pattern `pattern` and the templates `paths`: the templates are
/// filled with what the regular expression of the pattern finds in
/// `import_path`, and [`barrel_file_among`] goes through them. The pattern
/// must make a regular expression, and each template must take the
/// components that it finds.
pub fn resolve_barrel_file(
    cwd: &str,
    import_path: &str,
    pattern: &str,
    paths: &Vec<String>,
    probes: &Vec<bool>,
) -> (r: Result<Resolution, String>)
    requires
        extraction(import_path@, pattern@) is Some,
        templates_fit(
            views(paths@),
            components_of(extraction(import_path@, pattern@)->Some_0).len(),
        ),
    ensures
        match barrel_file_from(
            cwd@,
            values_of(components_of(extraction(import_path@, pattern@)->Some_0)),
            views(paths@),
            probes@,
            0,
        ) {
            Ok(found) => r is Ok && r->Ok_0@ == found,
            Err(message) => r is Err && r->Err_0@ == message,
        },
{
    let components = extract_pattern_components(import_path, pattern);
    barrel_file_among(cwd, &components, paths, probes)
}

/// What a file that was read comes to: its module, or why it could not be
/// read or parsed.
pub open spec fn module_at_hand(
    parsed: Option<(String, Result<Module, String>)>,
    file: Seq<char>,
) -> Option<Result<Module, String>> {
    match parsed {
        Some((path, module)) => if path@ == file {
            Some(module)
        } else {
            None
        },
        None => None,
    }
}

/// Why a module is no barrel file, as an import under one rule is told:
/// that it holds no re-export, or else the finding against it behind the
/// name of the file.
pub open spec fn refusal_text(file: Seq<char>, fault: BarrelFault) -> Seq<char> {
    match fault {
        BarrelFault::NoReExports(_) => fault_text(fault),
        _ => "Invalid barrel file "@ + file + ": "@ + fault_text(fault),
    }
}

/// The message for a barrel file that was found and cannot be used.
pub open spec fn analysis_message(file: Seq<char>, reason: Seq<char>) -> Seq<char> {
    "Error analyzing barrel file "@ + file + ": "@ + reason
}

/// What is to be done next for an import under one rule, when looking for
/// its barrel file has come to `found`:
///
/// with no barrel file the import fails; a candidate is to be probed; the
/// module of the barrel file is to be parsed; a module that cannot be read,
/// is no barrel file, or does not export what is imported fails the import;
/// else the statements of the rewrite take the place of the import.
pub open spec fn progress_under_rule(
    cwd: Seq<char>,
    filename: Seq<char>,
    import_decl: ImportDeclView,
    found: Result<ResolutionView, Seq<char>>,
    parsed: Option<(String, Result<Module, String>)>,
) -> Result<ProgressView, Seq<char>> {
    match found {
        Err(reason) => Err(
            "Could not resolve barrel file for "@ + import_decl.src + ": "@ + reason,
        ),
        Ok(ResolutionView::Unmatched) => Err(
            "Could not resolve barrel file for import from "@ + import_decl.src,
        ),
        Ok(ResolutionView::Probe(path)) => Ok(ProgressView::Probe(path)),
        Ok(ResolutionView::Resolved(file)) => match module_at_hand(parsed, file) {
            None => Ok(ProgressView::Parse(file)),
            Some(Err(reason)) => Err(analysis_message(file, reason@)),
            Some(Ok(ast)) => match analysis(ast.body@, file) {
                Err(fault) => Err(analysis_message(file, refusal_text(file, fault))),
                Ok(re_exports) => {
                    let source_file = joined(cwd, filename);
                    match virtual_path(cwd, source_file) {
                        None => Err(
                            "Error resolving source file "@ + source_file + ": "@
                                + unsupported_path_message(source_file),
                        ),
                        Some(file_path) => match rewritten(
                            import_decl,
                            Setting {
                                source_dir: parent(file_path),
                                barrel_file: file,
                                re_exports,
                                mode: UnsupportedImportMode::Error,
                                src: import_decl.src,
                                coded: false,
                            },
                        ) {
                            Err(reason) => Err(
                                "Error transforming import from "@ + import_decl.src + ": "@
                                    + reason,
                            ),
                            Ok(rewrite) => Ok(ProgressView::Replace(rewrite)),
                        },
                    }
                },
            },
        },
    }
}

/// Rewrites one import of the barrel file `barrel_file` for a file in the
/// directory `source_dir`: see [`rewritten`]. A namespace import fails, and
/// the messages of failures are the bare texts, without codes.
pub fn transform_import(
    source_dir: &str,
    import_decl: &ImportDecl,
    barrel_file: &str,
    re_exports: &Vec<ReExport>,
) -> (r: Result<Rewrite, String>)
    ensures
        match rewritten(
            import_decl@,
            Setting {
                source_dir: source_dir@,
                barrel_file: barrel_file@,
                re_exports: views(re_exports@),
                mode: UnsupportedImportMode::Error,
                src: import_decl.src@,
                coded: false,
            },
        ) {
            Ok(rewrite) => r is Ok && r->Ok_0@ == rewrite,
            Err(message) => r is Err && r->Err_0@ == message,
        },
{
    rewrite_with(
        source_dir,
        import_decl,
        barrel_file,
        re_exports,
        UnsupportedImportMode::Error,
        false,
    )
}

/// Takes the next step for an import under one rule, when looking for its
/// barrel file has come to `found`: see [`progress_under_rule`]. `parsed` is
/// the file that was read, with its path, once one was asked for.
pub fn continue_import(
    cwd: &str,
    filename: &str,
    import_decl: &ImportDecl,
    found: Result<Resolution, String>,
    parsed: &Option<(String, Result<Module, String>)>,
) -> (r: Result<Progress, String>)
    ensures
        match progress_under_rule(
            cwd@,
            filename@,
            import_decl@,
            match found {
                Ok(resolution) => Ok(resolution@),
                Err(reason) => Err(reason@),
            },
            *parsed,
        ) {
            Ok(progress) => r is Ok && r->Ok_0@ == progress,
            Err(message) => r is Err && r->Err_0@ == message,
        },
{
    let import_source = import_decl.src.as_str();
    let barrel_file = match found {
        Err(reason) => {
            let head = glue3("Could not resolve barrel file for ", import_source, ": ");
            return Err(glue(head.as_str(), reason.as_str()));
        },
        Ok(Resolution::Unmatched) => {
            return Err(glue("Could not resolve barrel file for import from ", import_source));
        },
        Ok(Resolution::Probe(path)) => {
            return Ok(Progress::Probe(path));
        },
        Ok(Resolution::Resolved(path)) => path,
    };
    let module = match parsed {
        Some((path, module)) => {
            if !same_str(path.as_str(), barrel_file.as_str()) {
                return Ok(Progress::Parse(barrel_file));
            }
            module
        },
        None => {
            return Ok(Progress::Parse(barrel_file));
        },
    };
    let head = glue3("Error analyzing barrel file ", barrel_file.as_str(), ": ");
    let ast = match module {
        Ok(ast) => ast,
        Err(reason) => {
            return Err(glue(head.as_str(), reason.as_str()));
        },
    };
    let re_exports = match analyze_barrel_file(ast, barrel_file.as_str()) {
        Ok(re_exports) => re_exports,
        Err(e) => {
            let reason = match &e {
                BarrelError::NoReExports(_) => e.to_string(),
                _ => {
                    let invalid = glue3("Invalid barrel file ", barrel_file.as_str(), ": ");
                    glue(invalid.as_str(), e.to_string().as_str())
                },
            };
            return Err(glue(head.as_str(), reason.as_str()));
        },
    };
    let source_file = path_join(cwd, filename);
    let source_file = match resolve_to_virtual_path(cwd, source_file.as_str()) {
        Ok(path) => path,
        Err(e) => {
            let head = glue3("Error resolving source file ", source_file.as_str(), ": ");
            return Err(glue(head.as_str(), e.as_str()));
        },
    };
    let source_dir = dirname(source_file.as_str());
    match transform_import(
        source_dir.as_str(),
        import_decl,
        barrel_file.as_str(),
        &re_exports,
    ) {
        Ok(rewrite) => Ok(Progress::Replace(rewrite)),
        Err(e) => {
            let head = glue3("Error transforming import from ", import_source, ": ");
            Err(glue(head.as_str(), e.as_str()))
        },
    }
}

/// Takes the next step for the import `import_decl` of the file `filename`,
/// which matched the rule with the pattern `pattern` and the templates
/// `paths`; nothing where the rule cannot be applied: see
/// [`try_resolve_barrel_file`].
pub fn try_process_import(
    cwd: &str,
    filename: &str,
    import_decl: &ImportDecl,
    pattern: &str,
    paths: &Vec<String>,
    probes: &Vec<bool>,
    parsed: &Option<(String, Result<Module, String>)>,
) -> (r: Option<Result<Progress, String>>)
    ensures
        r is Some <==> extraction(import_decl.src@, pattern@) is Some && templates_fit(
            views(paths@),
            components_of(extraction(import_decl.src@, pattern@)->Some_0).len(),
        ),
        r is Some ==> match progress_under_rule(
            cwd@,
            filename@,
            import_decl@,
            barrel_file_from(
                cwd@,
                values_of(components_of(extraction(import_decl.src@, pattern@)->Some_0)),
                views(paths@),
                probes@,
                0,
            ),
            *parsed,
        ) {
            Ok(progress) => r->Some_0 is Ok && r->Some_0->Ok_0@ == progress,
            Err(message) => r->Some_0 is Err && r->Some_0->Err_0@ == message,
        },
{
    match try_extract_pattern_components(import_decl.src.as_str(), pattern) {
        None => None,
        Some(components) => {
            if !fit(paths, components.len()) {
                return None;
            }
            Some(process_import(cwd, filename, import_decl, pattern, paths, probes, parsed))
        },
    }
}

/// Takes the next step for the import `import_decl` of the file `filename`,
/// which matched the rule with the pattern `pattern` and the templates
/// `paths`: [`resolve_barrel_file`] looks for the barrel file, and
/// [`continue_import`] goes on from what it found. The pattern must make a
/// regular expression, and each template must take the components that it
/// finds.
pub fn process_import(
    cwd: &str,
    filename: &str,
    import_decl: &ImportDecl,
    pattern: &str,
    paths: &Vec<String>,
    probes: &Vec<bool>,
    parsed: &Option<(String, Result<Module, String>)>,
) -> (r: Result<Progress, String>)
    requires
        extraction(import_decl.src@, pattern@) is Some,
        templates_fit(
            views(paths@),
            components_of(extraction(import_decl.src@, pattern@)->Some_0).len(),
        ),
    ensures
        match progress_under_rule(
            cwd@,
            filename@,
            import_decl@,
            barrel_file_from(
                cwd@,
                values_of(components_of(extraction(import_decl.src@, pattern@)->Some_0)),
                views(paths@),
                probes@,
                0,
            ),
            *parsed,
        ) {
            Ok(progress) => r is Ok && r->Ok_0@ == progress,
            Err(message) => r is Err && r->Err_0@ == message,
        },
{
    let found = resolve_barrel_file(cwd, import_decl.src.as_str(), pattern, paths, probes);
    continue_import(cwd, filename, import_decl, found, parsed)
}

} // verus!
