use barrel_files::paths::{
    dirname, normalize_path, path_join, relative_specifier, resolve_relative_path,
};

#[test]
fn paths_test_resolve_relative_path() {
    // Common directory one level up
    assert_eq!(
        resolve_relative_path("/a/b", "/a/c"),
        Some("../c".to_string())
    );
    // Common directory two levels up
    assert_eq!(
        resolve_relative_path("/a/b/c", "/a/d/e"),
        Some("../../d/e".to_string())
    );
    // No common directory
    assert_eq!(
        resolve_relative_path("/a/b/c", "/d/e/f"),
        Some("../../../d/e/f".to_string())
    );
    // Subdirectory of base directory
    assert_eq!(
        resolve_relative_path("/a/b", "/a/b/c"),
        Some("./c".to_string())
    );
    // Same directory
    assert_eq!(
        resolve_relative_path("/a/b", "/a/b"),
        Some("./".to_string())
    );
}

#[test]
fn paths_test_dirname() {
    assert_eq!(dirname("/path/to/file.txt"), "/path/to");
    assert_eq!(dirname("/path/to/dir/"), "/path/to");
    assert_eq!(dirname("/"), "");
    assert_eq!(dirname("path/to/file.txt"), "path/to");
    assert_eq!(dirname("file.txt"), "");
}

#[test]
fn test_normalize_path() {
    // Basic normalization
    assert_eq!(normalize_path("a/b/c"), "a/b/c");
    assert_eq!(normalize_path("a/./b"), "a/b");
    assert_eq!(normalize_path("a/b/../c"), "a/c");
    assert_eq!(normalize_path("a/../b"), "b");

    // Multiple components
    assert_eq!(normalize_path("a/b/../../c"), "c");
    assert_eq!(normalize_path("./a/b"), "a/b");

    // Absolute paths
    assert_eq!(normalize_path("/a/b/../c"), "/a/c");
    assert_eq!(normalize_path("/a/./b"), "/a/b");

    // Edge cases
    assert_eq!(normalize_path("."), "");
    assert_eq!(normalize_path("a/.."), "");

    // Going beyond root directory
    assert_eq!(normalize_path("/a/../.."), "..");
    assert_eq!(normalize_path("/a/../../b"), "../b");
    assert_eq!(normalize_path("/a/b/../../../c"), "../c");

    // Multiple parent directories at start
    assert_eq!(normalize_path("../a/b"), "../a/b");
    assert_eq!(normalize_path("../../a"), "../../a");
    assert_eq!(normalize_path("../../../a/b/c"), "../../../a/b/c");

    // Mixed cases with parent directories
    assert_eq!(normalize_path("../a/../b"), "../b");
    assert_eq!(normalize_path("../../a/b/../c"), "../../a/c");

    // Complex cases with current directory
    assert_eq!(normalize_path("./a/../b"), "b");
    assert_eq!(normalize_path("a/./b/../c"), "a/c");

    // Empty path components
    assert_eq!(normalize_path("a//b"), "a/b");
    assert_eq!(normalize_path("a/./b//c"), "a/b/c");

    // Root directory edge cases
    assert_eq!(normalize_path("/"), "/");
    assert_eq!(normalize_path("/.."), "..");
    assert_eq!(normalize_path("/."), "/");
}

#[test]
fn paths_test_path_join() {
    // Basic path joining
    assert_eq!(path_join("a", "b"), "a/b");
    assert_eq!(path_join("a/", "b"), "a/b");

    // Absolute path in second arg replaces first
    assert_eq!(path_join("a", "/b"), "/b");

    // Handling of . and .. components
    assert_eq!(path_join("a/b", "../c"), "a/c");
    assert_eq!(path_join("a/b", "./c"), "a/b/c");
    assert_eq!(path_join("a/b", "../../c"), "c");
    assert_eq!(path_join("/cwd/a", "../../../c"), "../c");

    // Handling of multiple slashes and normalization
    assert_eq!(path_join("a//b", "c"), "a/b/c");
    assert_eq!(path_join("a/./b", "c"), "a/b/c");

    // Complex cases
    assert_eq!(path_join("/a/b/c", "../d/./e"), "/a/b/d/e");
    assert_eq!(path_join("", "a/b"), "a/b");
    assert_eq!(path_join("a/b", ""), "a/b");
}

#[test]
fn normalize_agrees_with_the_components_of_std() {
    let inputs = [
        "", ".", "..", "/", "//", "/.", "/..", "a", "a/", "a//", "./a", "a/.", "a/..", "a/../..",
        "../..", "../../a/..", "/a/../../..", "/../a", "x/./y/../z//", "...", ".a", "a./b",
        "..a/b", "a/..b/..", "é/ü/../ß",
    ];
    for input in inputs {
        let mut kept: Vec<std::path::Component> = Vec::new();
        for component in std::path::Path::new(input).components() {
            match component {
                std::path::Component::ParentDir => {
                    if !kept.is_empty()
                        && !matches!(kept.last(), Some(std::path::Component::RootDir))
                        && !matches!(kept.last(), Some(std::path::Component::ParentDir))
                    {
                        kept.pop();
                    } else if matches!(kept.last(), Some(std::path::Component::RootDir)) {
                        kept.pop();
                        kept.push(component);
                    } else {
                        kept.push(component);
                    }
                }
                std::path::Component::CurDir => {}
                _ => kept.push(component),
            }
        }
        let mut expected = std::path::PathBuf::new();
        for component in &kept {
            expected.push(component.as_os_str());
        }
        assert_eq!(
            normalize_path(input),
            expected.to_string_lossy(),
            "{:?}",
            input
        );
    }
}

#[test]
fn dirname_agrees_with_the_parent_of_std() {
    let inputs = [
        "", ".", "..", "/", "//", "/.", "/a", "//a", "a", "a/", "a/b", "a//b", "a/./b", "a/b/.",
        "./b", "./a/b", "./", "./.", "a/..", "a/b/../c", "x//y/z", "/./a", "/a/b/", "/a/b//",
        "a/.b", "a./b", ".a/b", "..a", "a/../", "/a/./", "é/ü",
    ];
    for input in inputs {
        let expected = std::path::Path::new(input)
            .parent()
            .unwrap_or_else(|| std::path::Path::new(""))
            .to_string_lossy()
            .to_string();
        assert_eq!(dirname(input), expected, "{:?}", input);
    }
}

#[test]
fn path_join_agrees_with_the_join_of_std() {
    let cases = [
        ("", ""), ("", "a"), ("a", ""), ("a/", "b"), ("a", "/b"), ("/", "a"), ("/a", "../.."),
        ("a/b", "../../.."), ("/cwd", "./x/../y"),
    ];
    for (base, path) in cases {
        let raw = std::path::Path::new(base).join(path);
        assert_eq!(
            path_join(base, path),
            normalize_path(&raw.to_string_lossy()),
            "{:?} {:?}",
            base,
            path
        );
    }
}

#[test]
fn relative_specifier_keeps_what_climbs_and_marks_the_rest() {
    assert_eq!(relative_specifier(".."), "..");
    assert_eq!(relative_specifier("../c"), "../c");
    assert_eq!(relative_specifier("c"), "./c");
    assert_eq!(relative_specifier(""), "./");
    assert_eq!(relative_specifier("..c"), "./..c");
    assert_eq!(relative_specifier("/a"), "/a");
}

#[test]
fn relative_path_of_targets_that_are_not_below_a_common_directory() {
    assert_eq!(resolve_relative_path("/a", "../../x"), Some("../../x".to_string()));
    assert_eq!(resolve_relative_path("a/..", "b"), Some("./b".to_string()));
    assert_eq!(resolve_relative_path("a", "/b"), Some("/b".to_string()));
    // No relative path leads out of a directory that is named by `..`.
    assert_eq!(resolve_relative_path("/..", "/c"), None);
}

#[test]
fn normalised_path_stays_as_it_is() {
    let inputs = [
        "", ".", "..", "/", "//", "/..", "a/./b/../c//", "../../a/..", "/a/../../..", "é/ü/../ß",
        "/cwd/src/./x/../index.ts",
    ];
    for input in inputs {
        let once = normalize_path(input);
        assert_eq!(normalize_path(&once), once, "{:?}", input);
    }
}

#[test]
fn relative_path_is_made_of_the_components_that_differ() {
    // What the two ways to the relative path have in common is the
    // difference of the components of the two paths.
    let paths = [
        "", ".", "..", "/", "a", "a/b", "/a", "/a/b", "/a/b/c", "/a/c", "/d/e/f", "./a", "a/./b",
        "a//b/", "../a", "a/../b", "/a/../b", "/..", "./", "b", "../../x", "/a/./b", "é/ü",
    ];
    for from in paths {
        for to in paths {
            let mut full = std::path::PathBuf::from(from);
            full.push(to);
            let full = full.to_string_lossy().to_string();
            let expected = match barrel_files::resolver::resolve_relative_path(from, &full) {
                None => None,
                Some(found) if full.starts_with('/') != from.starts_with('/') => Some(found),
                Some(found) => {
                    let difference = if found == "." {
                        ""
                    } else if let Some(rest) = found.strip_prefix("./") {
                        rest
                    } else {
                        &found
                    };
                    Some(relative_specifier(difference))
                }
            };
            assert_eq!(
                resolve_relative_path(from, to),
                expected,
                "{:?} {:?}",
                from,
                to
            );
        }
    }
}
