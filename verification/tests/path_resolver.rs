use barrel_files::path_resolver::PathResolver;

fn links(pairs: &[(&str, &str)]) -> Option<Vec<(String, String)>> {
    Some(
        pairs
            .iter()
            .map(|(from, to)| (from.to_string(), to.to_string()))
            .collect(),
    )
}

#[test]
fn test_exact_file_symlink_resolution() {
    let symlinks = links(&[("../external/components/index.ts", "/cwd/src/ui/index.ts")]);
    let resolver = PathResolver::new(&symlinks, "/home/user/project");

    let resolved = resolver.resolve_path("../external/components/index.ts");
    assert_eq!(resolved, "/cwd/src/ui/index.ts");
}

#[test]
fn test_directory_symlink_resolution() {
    let symlinks = links(&[("../external/components", "/cwd/src/ui")]);
    let resolver = PathResolver::new(&symlinks, "/home/user/project");

    let resolved = resolver.resolve_path("../external/components/Button/index.ts");
    assert_eq!(resolved, "/cwd/src/ui/Button/index.ts");
}

#[test]
fn test_absolute_file_with_relative_symlink_resolution() {
    let symlinks = links(&[
        ("../external/components", "/cwd/components"),
        (
            "../external/components/file.ts",
            "/cwd/components/custom-file.ts",
        ),
    ]);
    let resolver = PathResolver::new(&symlinks, "/home/user/project");

    let resolved = resolver.resolve_path("/home/user/external/components/file.ts");
    assert_eq!(resolved, "/cwd/components/custom-file.ts");
}

#[test]
fn test_absolute_directory_with_relative_symlink_resolution() {
    let symlinks = links(&[("../external/components", "/cwd/components")]);
    let resolver = PathResolver::new(&symlinks, "/home/user/project");

    let resolved = resolver.resolve_path("/home/user/external/components/Button/index.ts");
    assert_eq!(resolved, "/cwd/components/Button/index.ts");
}

#[test]
fn test_relative_file_with_absolute_symlink_resolution() {
    let symlinks = links(&[
        ("/home/user/external/components", "/cwd/components"),
        (
            "/home/user/external/components/file.ts",
            "/cwd/components/custom-file.ts",
        ),
    ]);
    let resolver = PathResolver::new(&symlinks, "/home/user/project");

    let resolved = resolver.resolve_path("../external/components/file.ts");
    assert_eq!(resolved, "/cwd/components/custom-file.ts");
}

#[test]
fn test_relative_directory_with_absolute_symlink_resolution() {
    let symlinks = links(&[("/home/user/external/components", "/cwd/components")]);
    let resolver = PathResolver::new(&symlinks, "/home/user/project");

    let resolved = resolver.resolve_path("../external/components/Button/index.ts");
    assert_eq!(resolved, "/cwd/components/Button/index.ts");
}

#[test]
fn test_directory_symlink_with_trailing_slash() {
    let symlinks = links(&[("../external/components/", "/cwd/src/ui")]);
    let resolver = PathResolver::new(&symlinks, "/home/user/project");

    let resolved = resolver.resolve_path("../external/components/Button/index.ts");
    assert_eq!(resolved, "/cwd/src/ui/Button/index.ts");
}

#[test]
fn test_file_symlink_priority_over_directory() {
    let symlinks = links(&[
        ("../external/components", "/cwd/src/ui"),
        (
            "../external/components/Button/index.ts",
            "/cwd/src/special/index.ts",
        ),
    ]);
    let resolver = PathResolver::new(&symlinks, "/home/user/project");

    // Specific file symlink should take priority
    let resolved = resolver.resolve_path("../external/components/Button/index.ts");
    assert_eq!(resolved, "/cwd/src/special/index.ts");

    // Other files should use directory symlink
    let resolved2 = resolver.resolve_path("../external/components/Input/index.ts");
    assert_eq!(resolved2, "/cwd/src/ui/Input/index.ts");
}

#[test]
fn test_no_symlink_match() {
    let symlinks = links(&[("../external/components", "/cwd/src/ui")]);
    let resolver = PathResolver::new(&symlinks, "/home/user/project");

    let resolved = resolver.resolve_path("../other/path/index.ts");
    assert_eq!(resolved, "../other/path/index.ts");
}

#[test]
fn test_empty_symlinks() {
    let resolver = PathResolver::new(&Some(Vec::new()), "/home/user/project");

    let resolved = resolver.resolve_path("../external/file.ts");
    assert_eq!(resolved, "../external/file.ts");
}

#[test]
fn test_nested_directory_symlinks() {
    let symlinks = links(&[("../../shared/workspace/features", "/cwd/src/features")]);
    let resolver = PathResolver::new(&symlinks, "/home/user/project");

    let resolved = resolver.resolve_path("../../shared/workspace/features/auth/api/index.ts");
    assert_eq!(resolved, "/cwd/src/features/auth/api/index.ts");
}

#[test]
fn path_resolver_test_resolve_to_virtual_path() {
    let cwd = "/home/user/project";
    let resolver = PathResolver::new(&Some(Vec::new()), cwd);

    // Test with path starting with cwd
    let path = "/home/user/project/src/main.rs";
    assert_eq!(resolver.to_virtual_path(path).unwrap(), "/cwd/src/main.rs");

    // Test with relative path
    let path = "src/main.rs";
    assert_eq!(resolver.to_virtual_path(path).unwrap(), "/cwd/src/main.rs");

    // Test with relative path starting with ./
    let path = "./src/main.rs";
    assert_eq!(resolver.to_virtual_path(path).unwrap(), "/cwd/src/main.rs");

    // Test with nested ./ in the path
    let path = "tests/./fixtures/src/features/f1/index.ts";
    assert_eq!(
        resolver.to_virtual_path(path).unwrap(),
        "/cwd/tests/fixtures/src/features/f1/index.ts"
    );

    // Test with absolute path not starting with cwd
    let path = "/other/path/file.rs";
    assert!(resolver.to_virtual_path(path).is_err());
    assert_eq!(
        resolver.to_virtual_path(path).unwrap_err(),
        "E_INVALID_FILE_PATH: Absolute paths not starting with cwd are not supported: /other/path/file.rs"
    );
}

#[test]
fn test_to_virtual_path_already_virtual() {
    let resolver = PathResolver::new(&Some(Vec::new()), "/home/user/project");

    let path = "/cwd/src/components/index.ts";
    assert_eq!(
        resolver.to_virtual_path(path).unwrap(),
        "/cwd/src/components/index.ts"
    );

    let path = "/cwd/nested/deep/file.ts";
    assert_eq!(
        resolver.to_virtual_path(path).unwrap(),
        "/cwd/nested/deep/file.ts"
    );
}

#[test]
fn resolver_without_links_leaves_paths_alone() {
    let resolver = PathResolver::new(&None, "/home/user/project");
    assert_eq!(resolver.resolve_path("src/a.ts"), "src/a.ts");
    assert_eq!(resolver.resolve_path("/abs/./a.ts"), "/abs/./a.ts");
}

#[test]
fn longest_directory_link_wins_whatever_the_order() {
    let one = links(&[("../ext", "/cwd/a"), ("../ext/deep", "/cwd/b")]);
    let two = links(&[("../ext/deep", "/cwd/b"), ("../ext", "/cwd/a")]);
    for symlinks in [one, two] {
        let resolver = PathResolver::new(&symlinks, "/home/user/project");
        assert_eq!(resolver.resolve_path("../ext/deep/x.ts"), "/cwd/b/x.ts");
        assert_eq!(resolver.resolve_path("../ext/other/x.ts"), "/cwd/a/other/x.ts");
    }
}

#[test]
fn first_of_two_links_with_one_source_wins() {
    let symlinks = links(&[("../ext", "/cwd/a"), ("../ext/", "/cwd/b")]);
    let resolver = PathResolver::new(&symlinks, "/home/user/project");
    assert_eq!(resolver.resolve_path("../ext/x.ts"), "/cwd/a/x.ts");
}

#[test]
fn link_holds_only_what_lies_behind_a_separator() {
    let symlinks = links(&[("../ext/comp", "/cwd/a")]);
    let resolver = PathResolver::new(&symlinks, "/home/user/project");
    assert_eq!(
        resolver.resolve_path("../ext/components/x.ts"),
        "../ext/components/x.ts"
    );
    assert_eq!(resolver.resolve_path("../ext/comp"), "/cwd/a");
}

#[test]
fn working_directory_itself_maps_to_the_virtual_root() {
    let resolver = PathResolver::new(&None, "/home/user/project");
    assert_eq!(resolver.to_virtual_path("/home/user/project").unwrap(), "/cwd");
    assert_eq!(resolver.to_virtual_path("/cwd").unwrap(), "/cwd");
    assert!(resolver.to_virtual_path("/home/user/projectile/a.ts").is_err());
    assert!(resolver.to_virtual_path("/cwdx/a.ts").is_err());
    assert_eq!(resolver.to_virtual_path("").unwrap(), "/cwd");
    assert_eq!(resolver.to_virtual_path("../a.ts").unwrap(), "/a.ts");
    let at_root = PathResolver::new(&None, "/");
    assert_eq!(at_root.to_virtual_path("/some/file").unwrap(), "/cwd/some/file");
}

#[test]
fn duplicate_resolves_as_the_resolver_it_was_made_of() {
    let symlinks = links(&[("../ext", "/cwd/a")]);
    let resolver = PathResolver::new(&symlinks, "/home/user/project");
    let copy = resolver.duplicate();
    assert_eq!(copy.resolve_path("../ext/x.ts"), "/cwd/a/x.ts");
    assert_eq!(
        copy.to_virtual_path("/home/user/project/x.ts").unwrap(),
        "/cwd/x.ts"
    );
}

#[test]
fn directory_link_moves_what_it_holds() {
    let resolver = PathResolver::new(&None, "/home/user/project");
    assert_eq!(
        resolver.try_directory_symlink("/ext/ui/Button/index.ts", "/ext/ui", "/cwd/src/ui"),
        Some("/cwd/src/ui/Button/index.ts".to_string())
    );
    assert_eq!(
        resolver.try_directory_symlink("/ext/ui", "/ext/ui", "/cwd/src/./ui"),
        Some("/cwd/src/./ui".to_string())
    );
    // The directory and the path are normalised before they are compared.
    assert_eq!(
        resolver.try_directory_symlink("/ext/ui/../x.ts", "/ext/ui", "/cwd/src/ui"),
        None
    );
    assert_eq!(
        resolver.try_directory_symlink("/ext/./ui//Button/", "/ext/other/../ui/", "/cwd/src/ui"),
        Some("/cwd/src/ui/Button".to_string())
    );
    assert_eq!(
        resolver.try_directory_symlink("/a/b", "/", "/cwd"),
        Some("/cwd/a/b".to_string())
    );
    assert_eq!(
        resolver.try_directory_symlink("/ext/uix/a.ts", "/ext/ui", "/cwd/src/ui"),
        None
    );
    assert_eq!(resolver.try_directory_symlink("/ext", "/ext/ui", "/cwd"), None);
    assert_eq!(resolver.try_directory_symlink("/a", "", "/cwd"), None);
}

#[test]
fn directory_of_a_link_is_normalised() {
    let resolver = PathResolver::new(&None, "/home/user/project");
    assert_eq!(resolver.normalize_directory_path("/ext/ui/"), "/ext/ui");
    assert_eq!(resolver.normalize_directory_path("/ext//./ui"), "/ext/ui");
    assert_eq!(resolver.normalize_directory_path("a/../b/"), "b");
    assert_eq!(resolver.normalize_directory_path("/"), "/");
    assert_eq!(resolver.normalize_directory_path(""), "");
    assert_eq!(resolver.normalize_directory_path("/.."), "..");
}

#[test]
fn copy_of_a_resolver_resolves_as_it_does() {
    let symlinks = links(&[("../ext", "/cwd/a")]);
    let resolver = PathResolver::new(&symlinks, "/home/user/project");
    let copy = resolver.clone();
    assert_eq!(copy.resolve_path("../ext/x.ts"), "/cwd/a/x.ts");
}
