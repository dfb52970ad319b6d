use barrel_files::alias_resolver::{AliasResolver, Resolution};
use barrel_files::config::Alias;
use barrel_files::path_resolver::PathResolver;

fn alias(pattern: &str, paths: &[&str], context: Option<&[&str]>) -> Alias {
    Alias {
        pattern: pattern.to_string(),
        paths: paths.iter().map(|p| p.to_string()).collect(),
        context: context.map(|list| list.iter().map(|c| c.to_string()).collect()),
    }
}

fn patterns_of(resolver: &AliasResolver) -> Vec<String> {
    resolver
        .compiled_aliases()
        .iter()
        .map(|a| a.alias.pattern.clone())
        .collect()
}

#[test]
fn alias_resolver_test_match_pattern() {
    let rule1 = Alias {
        pattern: "#features/*".to_string(),
        paths: vec!["src/features/*/index.ts".to_string()],
        context: None,
    };

    let rule2 = Alias {
        pattern: "#features/*/testing".to_string(),
        paths: vec!["src/features/*/testing.ts".to_string()],
        context: None,
    };

    let config = Some(vec![rule2.clone(), rule1.clone()]);
    let cwd = "/".to_string();
    let source_file = "/some/file".to_string();
    let path_resolver = PathResolver::new(&None, &cwd);
    let visitor = AliasResolver::new(&config, &path_resolver, &cwd, &source_file).unwrap();

    // The more specific rule should be first in sorted_rules
    assert_eq!(
        visitor.compiled_aliases()[0].alias.pattern,
        "#features/*/testing"
    );
    assert_eq!(visitor.compiled_aliases()[1].alias.pattern, "#features/*");

    // Test matching
    let matched = visitor.match_pattern("#features/some");
    assert!(matched.is_some());
    assert_eq!(matched.unwrap().alias.pattern, "#features/*");

    let matched = visitor.match_pattern("#features/some/testing");
    assert!(matched.is_some());
    assert_eq!(matched.unwrap().alias.pattern, "#features/*/testing");

    let matched = visitor.match_pattern("#other/some");
    assert!(matched.is_none());
}

#[test]
fn test_context_filtering() {
    let no_context_alias = alias("#no-context/*", &["src/no-context/*/index.ts"], None);
    let matching_context_alias = alias(
        "#matching-context/*",
        &["src/matching-context/*/index.ts"],
        Some(&["/cwd/src"]),
    );
    let non_matching_context_alias = alias(
        "#non-matching-context/*",
        &["src/non-matching-context/*/index.ts"],
        Some(&["/cwd/other"]),
    );
    let multiple_contexts_alias = alias(
        "#multiple-contexts/*",
        &["src/multiple-contexts/*/index.ts"],
        Some(&["/cwd/other", "/cwd/src"]),
    );

    let config = Some(vec![
        no_context_alias.clone(),
        matching_context_alias.clone(),
        non_matching_context_alias.clone(),
        multiple_contexts_alias.clone(),
    ]);

    let cwd = "/cwd".to_string();
    let source_file = "/cwd/src/components/Button.tsx".to_string();
    let path_resolver = PathResolver::new(&None, &cwd);
    let resolver = AliasResolver::new(&config, &path_resolver, &cwd, &source_file).unwrap();

    assert_eq!(resolver.compiled_aliases().len(), 3);

    let patterns = patterns_of(&resolver);
    assert!(patterns.contains(&no_context_alias.pattern));
    assert!(patterns.contains(&matching_context_alias.pattern));
    assert!(patterns.contains(&multiple_contexts_alias.pattern));
    assert!(!patterns.contains(&non_matching_context_alias.pattern));
}

#[test]
fn test_context_filtering_with_different_source_file() {
    let no_context_alias = alias("#no-context/*", &["src/no-context/*/index.ts"], None);
    let matching_context_alias = alias(
        "#matching-context/*",
        &["src/matching-context/*/index.ts"],
        Some(&["/cwd/src"]),
    );
    let other_context_alias = alias(
        "#other-context/*",
        &["src/other-context/*/index.ts"],
        Some(&["/cwd/other"]),
    );

    let config = Some(vec![
        no_context_alias.clone(),
        matching_context_alias.clone(),
        other_context_alias.clone(),
    ]);

    let cwd = "/cwd".to_string();
    let source_file = "/cwd/other/components/Button.tsx".to_string();
    let path_resolver = PathResolver::new(&None, &cwd);
    let resolver = AliasResolver::new(&config, &path_resolver, &cwd, &source_file).unwrap();

    assert_eq!(resolver.compiled_aliases().len(), 2);

    let patterns = patterns_of(&resolver);
    assert!(patterns.contains(&no_context_alias.pattern));
    assert!(patterns.contains(&other_context_alias.pattern));
    assert!(!patterns.contains(&matching_context_alias.pattern));
}

#[test]
fn test_context_filtering_with_no_matching_context() {
    let no_context_alias = alias("#no-context/*", &["src/no-context/*/index.ts"], None);
    let src_context_alias = alias(
        "#src-context/*",
        &["src/src-context/*/index.ts"],
        Some(&["/cwd/src"]),
    );
    let other_context_alias = alias(
        "#other-context/*",
        &["src/other-context/*/index.ts"],
        Some(&["/cwd/other"]),
    );

    let config = Some(vec![
        no_context_alias.clone(),
        src_context_alias.clone(),
        other_context_alias.clone(),
    ]);

    let cwd = "/cwd".to_string();
    let source_file = "/cwd/tests/components/Button.test.tsx".to_string();
    let path_resolver = PathResolver::new(&None, &cwd);
    let resolver = AliasResolver::new(&config, &path_resolver, &cwd, &source_file).unwrap();

    assert_eq!(resolver.compiled_aliases().len(), 1);

    let patterns = patterns_of(&resolver);
    assert!(patterns.contains(&no_context_alias.pattern));
    assert!(!patterns.contains(&src_context_alias.pattern));
    assert!(!patterns.contains(&other_context_alias.pattern));
}

#[test]
fn test_empty_aliases_list() {
    let config = Some(vec![]);
    let cwd = "/cwd".to_string();
    let source_file = "/cwd/src/components/Button.tsx".to_string();
    let path_resolver = PathResolver::new(&None, &cwd);
    let resolver = AliasResolver::new(&config, &path_resolver, &cwd, &source_file).unwrap();

    assert_eq!(resolver.compiled_aliases().len(), 0);

    let matched = resolver.match_pattern("#features/some");
    assert!(matched.is_none());
}

#[test]
fn test_null_aliases_list() {
    let config = None;
    let cwd = "/cwd".to_string();
    let source_file = "/cwd/src/components/Button.tsx".to_string();
    let path_resolver = PathResolver::new(&None, &cwd);
    let resolver = AliasResolver::new(&config, &path_resolver, &cwd, &source_file).unwrap();

    assert_eq!(resolver.compiled_aliases().len(), 0);

    let matched = resolver.match_pattern("#features/some");
    assert!(matched.is_none());
}

#[test]
fn test_no_duplicate_aliases_with_multiple_matching_contexts() {
    let alias_with_multiple_contexts = alias(
        "#multi-context/*",
        &["src/multi-context/*/index.ts"],
        Some(&["/cwd/src", "/cwd/src/components", "/cwd/src/features"]),
    );

    let config = Some(vec![alias_with_multiple_contexts.clone()]);

    let cwd = "/cwd".to_string();
    let source_file = "/cwd/src/components/Button.tsx".to_string();
    let path_resolver = PathResolver::new(&None, &cwd);
    let resolver = AliasResolver::new(&config, &path_resolver, &cwd, &source_file).unwrap();

    assert_eq!(resolver.compiled_aliases().len(), 1);
    assert_eq!(
        resolver.compiled_aliases()[0].alias.pattern,
        "#multi-context/*"
    );
}

#[test]
fn context_holds_for_files_below_it_only() {
    let rule = alias("#scoped/*", &["src/*/index.ts"], Some(&["/a/b"]));
    let config = Some(vec![rule]);
    let path_resolver = PathResolver::new(&None, "/");
    let inside = AliasResolver::new(&config, &path_resolver, "/", "/cwd/a/b/c.ts").unwrap();
    assert_eq!(inside.compiled_aliases().len(), 1);
    let outside = AliasResolver::new(&config, &path_resolver, "/", "/cwd/a/x/c.ts").unwrap();
    assert_eq!(outside.compiled_aliases().len(), 0);
    let beside = AliasResolver::new(&config, &path_resolver, "/", "/cwd/a/bc/c.ts").unwrap();
    assert_eq!(beside.compiled_aliases().len(), 0);
}

#[test]
fn rules_are_tried_by_wildcards_and_then_by_declaration() {
    let config = Some(vec![
        alias("#a/*/*", &["x/*/*"], None),
        alias("#a/*/b", &["first/*"], None),
        alias("#a/c/*", &["second/*"], None),
        alias("#a/c/b", &["exact"], None),
    ]);
    let path_resolver = PathResolver::new(&None, "/cwd");
    let resolver = AliasResolver::new(&config, &path_resolver, "/cwd", "/cwd/f.ts").unwrap();
    assert_eq!(
        patterns_of(&resolver),
        vec!["#a/c/b", "#a/*/b", "#a/c/*", "#a/*/*"]
    );
    let places: Vec<usize> = resolver
        .compiled_aliases()
        .iter()
        .map(|a| a.declared)
        .collect();
    assert_eq!(places, vec![3, 1, 2, 0]);
    assert_eq!(
        resolver.match_pattern("#a/c/b").unwrap().alias.pattern,
        "#a/c/b"
    );
    assert_eq!(resolver.match_pattern("#a/c/b").unwrap().declared, 3);
    let config = Some(vec![
        alias("#a/*/*", &["x/*/*"], None),
        alias("#a/*/b", &["first/*"], None),
        alias("#a/c/*", &["second/*"], None),
    ]);
    let resolver = AliasResolver::new(&config, &path_resolver, "/cwd", "/cwd/f.ts").unwrap();
    // Both rules with one wildcard match: the one declared first is chosen.
    assert_eq!(
        resolver.match_pattern("#a/c/b").unwrap().alias.pattern,
        "#a/*/b"
    );
    assert_eq!(
        resolver.match_pattern("#a/c/d").unwrap().alias.pattern,
        "#a/c/*"
    );
    assert_eq!(
        resolver.match_pattern("#a/x/y").unwrap().alias.pattern,
        "#a/*/*"
    );
}

#[test]
fn resolve_asks_for_each_candidate_in_turn() {
    let config = Some(vec![alias(
        "#features/*",
        &["src/features/*/index.ts", "src/features/*.ts"],
        None,
    )]);
    let path_resolver = PathResolver::new(&None, "/home/user/project");
    let resolver = AliasResolver::new(
        &config,
        &path_resolver,
        "/home/user/project",
        "/cwd/src/main.ts",
    )
    .unwrap();

    assert_eq!(
        resolver.resolve("#other/auth", &vec![]),
        Ok(Resolution::Unmatched)
    );
    assert_eq!(
        resolver.resolve("#features/auth", &vec![]),
        Ok(Resolution::Probe(
            "/cwd/src/features/auth/index.ts".to_string()
        ))
    );
    assert_eq!(
        resolver.resolve("#features/auth", &vec![true]),
        Ok(Resolution::Resolved(
            "/cwd/src/features/auth/index.ts".to_string()
        ))
    );
    assert_eq!(
        resolver.resolve("#features/auth", &vec![false]),
        Ok(Resolution::Probe("/cwd/src/features/auth.ts".to_string()))
    );
    assert_eq!(
        resolver.resolve("#features/auth", &vec![false, true]),
        Ok(Resolution::Resolved("/cwd/src/features/auth.ts".to_string()))
    );
    // The first file that exists is taken, whatever is known of the others.
    assert_eq!(
        resolver.resolve("#features/auth", &vec![true, true]),
        Ok(Resolution::Resolved(
            "/cwd/src/features/auth/index.ts".to_string()
        ))
    );
    assert_eq!(
        resolver.resolve("#features/auth", &vec![false, false]),
        Err(
            "E_BARREL_FILE_NOT_FOUND: Could not resolve barrel file for import alias #features/auth"
                .to_string()
        )
    );
}

#[test]
fn resolve_fails_on_a_candidate_outside_the_virtual_file_system() {
    let config = Some(vec![alias(
        "#ext/*",
        &["src/ext/*.ts", "/elsewhere/*.ts"],
        None,
    )]);
    let path_resolver = PathResolver::new(&None, "/home/user/project");
    let resolver = AliasResolver::new(
        &config,
        &path_resolver,
        "/home/user/project",
        "/cwd/src/main.ts",
    )
    .unwrap();
    assert_eq!(
        resolver.resolve("#ext/a", &vec![]),
        Ok(Resolution::Probe("/cwd/src/ext/a.ts".to_string()))
    );
    assert_eq!(
        resolver.resolve("#ext/a", &vec![false]),
        Err(
            "E_INVALID_FILE_PATH: Absolute paths not starting with cwd are not supported: /elsewhere/a.ts"
                .to_string()
        )
    );
}

#[test]
fn resolve_leads_candidates_through_the_links() {
    let config = Some(vec![alias("#ui/*", &["../external/components/*/index.ts"], None)]);
    let links = Some(vec![(
        "../external/components".to_string(),
        "/cwd/src/ui".to_string(),
    )]);
    let path_resolver = PathResolver::new(&links, "/home/user/project");
    let resolver = AliasResolver::new(
        &config,
        &path_resolver,
        "/home/user/project",
        "/cwd/src/main.ts",
    )
    .unwrap();
    assert_eq!(
        resolver.resolve("#ui/Button", &vec![]),
        Ok(Resolution::Probe("/cwd/src/ui/Button/index.ts".to_string()))
    );
}

#[test]
fn template_must_take_the_components_of_its_pattern() {
    let path_resolver = PathResolver::new(&None, "/cwd");
    let too_many = Some(vec![alias("#lib/*", &["src/*/*/index.ts"], None)]);
    assert_eq!(
        AliasResolver::new(&too_many, &path_resolver, "/cwd", "/cwd/f.ts").err(),
        Some(
            "Failed to compile alias pattern '#lib/*': path template 'src/*/*/index.ts' does not take the components of the pattern"
                .to_string()
        )
    );
    let too_few = Some(vec![
        alias("#ok/*", &["src/*.ts"], None),
        alias("#lib/*", &["src/*.ts", "src/index.ts"], None),
    ]);
    assert_eq!(
        AliasResolver::new(&too_few, &path_resolver, "/cwd", "/cwd/f.ts").err(),
        Some(
            "Failed to compile alias pattern '#lib/*': path template 'src/index.ts' does not take the components of the pattern"
                .to_string()
        )
    );
    // A rule that does not hold for the file is not compiled.
    let elsewhere = Some(vec![alias(
        "#lib/*",
        &["src/index.ts"],
        Some(&["/cwd/other"]),
    )]);
    assert!(AliasResolver::new(&elsewhere, &path_resolver, "/cwd", "/cwd/f.ts").is_ok());
}
