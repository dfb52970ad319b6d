use barrel_files::alias_resolver::Resolution;
use barrel_files::paths::{dirname, path_join};
use barrel_files::pattern_matcher::Components;
use barrel_files::import_transformer::{ImportDecl, ImportSpecifier, Rewrite};
use barrel_files::re_export::{ExportSpecifier, Module, ModuleItem};
use barrel_files::resolver::{
    barrel_file_among, continue_import, fit, process_import, resolve_barrel_file,
    resolve_relative_path, resolve_to_virtual_path, transform_import, try_process_import,
    try_resolve_barrel_file,
};
use barrel_files::visitor::Progress;

#[test]
fn resolver_test_resolve_relative_path() {
    // Common directory one level up
    assert_eq!(
        resolve_relative_path("/a/b", "/a/c"),
        Some("../c".to_string())
    );
    // Common directory two levels up
    assert_eq!(
        resolve_relative_path("/a/b/c", "/a/d/e"),
        Some("../../d/e".to_string())
    );
    // No common directory
    assert_eq!(
        resolve_relative_path("/a/b/c", "/d/e/f"),
        Some("../../../d/e/f".to_string())
    );
    // Subdirectory of base directory
    assert_eq!(
        resolve_relative_path("/a/b", "/a/b/c"),
        Some("./c".to_string())
    );
    // Same directory
    assert_eq!(resolve_relative_path("/a/b", "/a/b"), Some(".".to_string()));
}

#[test]
fn resolver_test_resolve_to_virtual_path() {
    // Test with path starting with cwd
    let cwd = "/home/user/project";
    let path = "/home/user/project/src/main.rs";
    assert_eq!(
        resolve_to_virtual_path(cwd, path).unwrap(),
        "/cwd/src/main.rs"
    );

    // Test with relative path
    let path = "src/main.rs";
    assert_eq!(
        resolve_to_virtual_path(cwd, path).unwrap(),
        "/cwd/src/main.rs"
    );

    // Test with absolute path not starting with cwd
    let path = "/other/path/file.rs";
    assert!(resolve_to_virtual_path(cwd, path).is_err());
    assert_eq!(
        resolve_to_virtual_path(cwd, path).unwrap_err(),
        "Absolute paths not starting with cwd are not supported: /other/path/file.rs"
    );
}

#[test]
fn resolver_test_dirname() {
    // Test with normal path
    assert_eq!(dirname("/path/to/file.txt"), "/path/to");

    // Test with path ending with directory separator
    assert_eq!(dirname("/path/to/dir/"), "/path/to");

    // Test with root path
    assert_eq!(dirname("/"), "");

    // Test with relative path
    assert_eq!(dirname("path/to/file.txt"), "path/to");

    // Test with single file (no directory)
    assert_eq!(dirname("file.txt"), "");
}

#[test]
fn resolver_test_path_join() {
    // Basic path joining
    assert_eq!(path_join("a", "b"), "a/b");
    assert_eq!(path_join("a/", "b"), "a/b");

    // Absolute path in second arg replaces first
    assert_eq!(path_join("a", "/b"), "/b");

    // Handling of . and .. components
    assert_eq!(path_join("a/b", "../c"), "a/c");
    assert_eq!(path_join("a/b", "./c"), "a/b/c");
    assert_eq!(path_join("a/b", "../../c"), "c");

    // Handling of multiple slashes and normalization
    assert_eq!(path_join("a//b", "c"), "a/b/c");
    assert_eq!(path_join("a/./b", "c"), "a/b/c");

    // Complex cases
    assert_eq!(path_join("/a/b/c", "../d/./e"), "/a/b/d/e");
    assert_eq!(path_join("", "a/b"), "a/b");
    assert_eq!(path_join("a/b", ""), "a/b");
}

fn expected_relative(from: &str, to: &str) -> Option<String> {
    // The difference that `pathdiff` finds, behind `.` unless it climbs.
    let difference = pathdiff::diff_paths(to, from)?
        .to_string_lossy()
        .to_string();
    if to.starts_with('/') != from.starts_with('/') {
        return Some(difference);
    }
    if difference == ".." || difference.starts_with("../") {
        Some(difference)
    } else if difference.is_empty() {
        Some(".".to_string())
    } else {
        Some(format!("./{}", difference))
    }
}

#[test]
fn relative_path_agrees_with_the_difference_of_paths() {
    let paths = [
        "", ".", "..", "/", "a", "a/b", "/a", "/a/b", "/a/b/c", "/a/c", "/d/e/f", "./a", "a/./b",
        "a//b/", "../a", "a/../b", "/a/../b", "/..", "./", "b", "a/b/c/d", "/a/./b",
    ];
    for from in paths {
        for to in paths {
            assert_eq!(
                resolve_relative_path(from, to),
                expected_relative(from, to),
                "{:?} {:?}",
                from,
                to
            );
        }
    }
}

#[test]
fn virtual_path_is_the_same_with_and_without_a_resolver() {
    let resolver = barrel_files::path_resolver::PathResolver::new(&None, "/home/user/project");
    for path in [
        "/cwd/a.ts",
        "/home/user/project/src/../a.ts",
        "src/./a.ts",
        "",
        "/home/user/project",
    ] {
        assert_eq!(
            resolve_to_virtual_path("/home/user/project", path),
            resolver.to_virtual_path(path)
        );
    }
}

#[test]
fn barrel_file_is_the_first_candidate_that_exists() {
    let paths = vec![
        "src/entities/*/index.ts".to_string(),
        "src/entities/*.ts".to_string(),
    ];
    let cwd = "/home/user/project";
    assert_eq!(
        resolve_barrel_file(cwd, "#entities/user", "#entities/*", &paths, &vec![]),
        Ok(Resolution::Probe(
            "/cwd/src/entities/user/index.ts".to_string()
        ))
    );
    assert_eq!(
        resolve_barrel_file(cwd, "#entities/user", "#entities/*", &paths, &vec![true]),
        Ok(Resolution::Resolved(
            "/cwd/src/entities/user/index.ts".to_string()
        ))
    );
    assert_eq!(
        resolve_barrel_file(cwd, "#entities/user", "#entities/*", &paths, &vec![false]),
        Ok(Resolution::Probe("/cwd/src/entities/user.ts".to_string()))
    );
    assert_eq!(
        resolve_barrel_file(
            cwd,
            "#entities/user",
            "#entities/*",
            &paths,
            &vec![false, true]
        ),
        Ok(Resolution::Resolved("/cwd/src/entities/user.ts".to_string()))
    );
    assert_eq!(
        resolve_barrel_file(
            cwd,
            "#entities/user",
            "#entities/*",
            &paths,
            &vec![false, false]
        ),
        Ok(Resolution::Unmatched)
    );
}

#[test]
fn barrel_file_outside_the_virtual_file_system_fails() {
    let paths = vec!["/abs/*.ts".to_string()];
    assert_eq!(
        resolve_barrel_file("/home/user/project", "#e/user", "#e/*", &paths, &vec![]),
        Err("Absolute paths not starting with cwd are not supported: /abs/user.ts".to_string())
    );
}

#[test]
fn rule_that_cannot_be_applied_gives_no_answer() {
    let paths = vec!["src/*/index.ts".to_string()];
    let cwd = "/home/user/project";
    // The import does not match: there is no component for the template.
    assert_eq!(
        try_resolve_barrel_file(cwd, "#other/user", "#entities/*", &paths, &vec![]),
        None
    );
    assert_eq!(
        try_resolve_barrel_file(cwd, "#entities/user", "#entities/*", &paths, &vec![]),
        Some(Ok(Resolution::Probe(
            "/cwd/src/user/index.ts".to_string()
        )))
    );
    assert!(fit(&paths, 1));
    assert!(!fit(&paths, 0));
    assert!(fit(&vec![], 3));
}

#[test]
fn candidates_are_the_templates_filled_with_the_components() {
    let mut components = Components::new();
    components.insert(0, "auth".to_string());
    components.insert(1, "login".to_string());
    let paths = vec!["./src/features/*/components/*/index.ts".to_string()];
    assert_eq!(
        barrel_file_among("/home/user/project", &components, &paths, &vec![]),
        Ok(Resolution::Probe(
            "/cwd/src/features/auth/components/login/index.ts".to_string()
        ))
    );
}

fn named_import(locals: &[&str], src: &str) -> ImportDecl {
    ImportDecl {
        specifiers: locals
            .iter()
            .map(|local| ImportSpecifier::Named {
                local: local.to_string(),
                imported: None,
                is_type_only: false,
            })
            .collect(),
        src: src.to_string(),
        type_only: false,
        with: None,
    }
}

fn user_barrel() -> Module {
    Module {
        body: vec![ModuleItem::ExportNamed {
            specifiers: vec![ExportSpecifier::Named {
                orig: "User".to_string(),
                exported: None,
            }],
            src: Some("./models".to_string()),
        }],
    }
}

#[test]
fn import_under_a_rule_is_rewritten_step_by_step() {
    let cwd = "/home/user/project";
    let paths = vec!["src/entities/*/index.ts".to_string()];
    let decl = named_import(&["User"], "#entities/user");
    let file = "/cwd/src/entities/user/index.ts".to_string();
    assert_eq!(
        process_import(cwd, "src/pages/main.ts", &decl, "#entities/*", &paths, &vec![], &None),
        Ok(Progress::Probe(file.clone()))
    );
    assert_eq!(
        process_import(
            cwd,
            "src/pages/main.ts",
            &decl,
            "#entities/*",
            &paths,
            &vec![false],
            &None
        ),
        Err("Could not resolve barrel file for import from #entities/user".to_string())
    );
    assert_eq!(
        process_import(
            cwd,
            "src/pages/main.ts",
            &decl,
            "#entities/*",
            &paths,
            &vec![true],
            &None
        ),
        Ok(Progress::Parse(file.clone()))
    );
    assert_eq!(
        process_import(
            cwd,
            "src/pages/main.ts",
            &decl,
            "#entities/*",
            &paths,
            &vec![true],
            &Some((file.clone(), Ok(user_barrel())))
        ),
        Ok(Progress::Replace(Rewrite {
            imports: vec![named_import(&["User"], "../entities/user/models")],
            warnings: vec![],
        }))
    );
    assert_eq!(
        try_process_import(
            cwd,
            "src/pages/main.ts",
            &decl,
            "#other/*",
            &paths,
            &vec![],
            &None
        ),
        None
    );
    assert_eq!(
        try_process_import(
            cwd,
            "src/pages/main.ts",
            &decl,
            "#entities/*",
            &paths,
            &vec![],
            &None
        ),
        Some(Ok(Progress::Probe(file)))
    );
}

#[test]
fn import_under_a_rule_fails_with_the_reason() {
    let cwd = "/home/user/project";
    let decl = named_import(&["User", "Admin"], "#entities/user");
    let file = "/cwd/src/entities/user/index.ts".to_string();
    let found = || Ok(barrel_files::alias_resolver::Resolution::Resolved(file.clone()));
    assert_eq!(
        continue_import(cwd, "src/main.ts", &decl, Err("no place".to_string()), &None),
        Err("Could not resolve barrel file for #entities/user: no place".to_string())
    );
    assert_eq!(
        continue_import(
            cwd,
            "src/main.ts",
            &decl,
            found(),
            &Some((file.clone(), Err("Failed to load file: gone".to_string())))
        ),
        Err(
            "Error analyzing barrel file /cwd/src/entities/user/index.ts: Failed to load file: gone"
                .to_string()
        )
    );
    assert_eq!(
        continue_import(
            cwd,
            "src/main.ts",
            &decl,
            found(),
            &Some((file.clone(), Ok(Module { body: vec![ModuleItem::ExportAll] })))
        ),
        Err(
            "Error analyzing barrel file /cwd/src/entities/user/index.ts: Invalid barrel file /cwd/src/entities/user/index.ts: Wildcard exports are not supported in barrel files: Wildcard exports are not allowed in barrel files"
                .to_string()
        )
    );
    assert_eq!(
        continue_import(
            cwd,
            "/elsewhere/main.ts",
            &decl,
            found(),
            &Some((file.clone(), Ok(user_barrel())))
        ),
        Err(
            "Error resolving source file /elsewhere/main.ts: Absolute paths not starting with cwd are not supported: /elsewhere/main.ts"
                .to_string()
        )
    );
    assert_eq!(
        continue_import(
            cwd,
            "src/main.ts",
            &decl,
            found(),
            &Some((file.clone(), Ok(user_barrel())))
        ),
        Err(
            "Error transforming import from #entities/user: The following exports were not found in the barrel file /cwd/src/entities/user/index.ts: Admin"
                .to_string()
        )
    );
    // A module without a re-export is told so, and a namespace import fails.
    assert_eq!(
        continue_import(
            cwd,
            "src/main.ts",
            &decl,
            found(),
            &Some((file.clone(), Ok(Module { body: vec![] })))
        ),
        Err(
            "Error analyzing barrel file /cwd/src/entities/user/index.ts: No re-exports found in barrel file: /cwd/src/entities/user/index.ts"
                .to_string()
        )
    );
    let namespace = ImportDecl {
        specifiers: vec![ImportSpecifier::Namespace {
            local: "all".to_string(),
        }],
        src: "#entities/user".to_string(),
        type_only: false,
        with: None,
    };
    assert_eq!(
        continue_import(
            cwd,
            "src/main.ts",
            &namespace,
            found(),
            &Some((file.clone(), Ok(user_barrel())))
        ),
        Err(
            "Error transforming import from #entities/user: Namespace imports are not supported for barrel file optimization"
                .to_string()
        )
    );
}

#[test]
fn import_under_a_rule_is_rewritten_with_bare_messages() {
    let re_exports = barrel_files::re_export::analyze_barrel_file(&user_barrel(), "/cwd/i.ts")
        .unwrap();
    assert_eq!(
        transform_import(
            "/cwd/src",
            &named_import(&["User"], "#entities/user"),
            "/cwd/src/entities/user/index.ts",
            &re_exports
        ),
        Ok(Rewrite {
            imports: vec![named_import(&["User"], "./entities/user/models")],
            warnings: vec![],
        })
    );
    assert_eq!(
        transform_import(
            "/cwd/src",
            &named_import(&["User", "Admin", "Guest"], "#entities/user"),
            "/cwd/src/entities/user/index.ts",
            &re_exports
        ),
        Err(
            "The following exports were not found in the barrel file /cwd/src/entities/user/index.ts: Admin, Guest"
                .to_string()
        )
    );
    assert_eq!(
        transform_import(
            "/..",
            &named_import(&["User"], "#entities/user"),
            "/cwd/src/entities/user/index.ts",
            &re_exports
        ),
        Err("No relative path leads from /.. to ./models".to_string())
    );
}
