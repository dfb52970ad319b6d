use barrel_files::cache::{FileCache, PathCache};
use barrel_files::re_export::{Module, ModuleItem, ReExport};
use barrel_files::visitor::{remember_barrel_exports, BarrelExports};

#[test]
fn path_cache_keeps_the_first_value_of_a_path() {
    let mut cache: PathCache<bool> = PathCache::new();
    assert!(cache.is_empty());
    assert_eq!(cache.len(), 0);
    assert_eq!(cache.get("/cwd/a.ts"), None);
    assert!(cache.insert("/cwd/a.ts", true));
    assert!(cache.insert("/cwd/b.ts", false));
    assert!(!cache.insert("/cwd/a.ts", false));
    assert_eq!(cache.len(), 2);
    assert!(!cache.is_empty());
    assert_eq!(cache.get("/cwd/a.ts"), Some(&true));
    assert_eq!(cache.get("/cwd/b.ts"), Some(&false));
    assert_eq!(cache.get("/cwd/c.ts"), None);
    cache.clear();
    assert!(cache.is_empty());
    assert_eq!(cache.get("/cwd/a.ts"), None);
    assert!(cache.insert("/cwd/a.ts", false));
    assert_eq!(cache.get("/cwd/a.ts"), Some(&false));
}

#[test]
fn path_cache_replaces_on_demand() {
    let mut cache: PathCache<u8> = PathCache::new();
    cache.replace("/cwd/a.ts", 1);
    cache.replace("/cwd/b.ts", 2);
    cache.replace("/cwd/a.ts", 3);
    assert_eq!(cache.len(), 2);
    assert_eq!(cache.get("/cwd/a.ts"), Some(&3));
    assert_eq!(cache.get("/cwd/b.ts"), Some(&2));
    assert!(!cache.insert("/cwd/a.ts", 4));
    assert_eq!(cache.get("/cwd/a.ts"), Some(&3));
}

#[test]
fn test_file_cache_new() {
    let cache = FileCache::new(1000);
    assert_eq!(cache.cache_duration_ms(), 1000);
    assert_eq!(cache.len(), 0);
    assert!(cache.is_empty());
}

#[test]
fn file_cache_holds_an_entry_while_it_is_fresh() {
    let module = Module {
        body: vec![ModuleItem::ExportAll],
    };
    let mut cache = FileCache::new(1000);
    assert!(!cache.store("/cwd/a.ts", module.clone(), None));
    assert!(cache.is_empty());
    assert!(cache.store("/cwd/a.ts", Module { body: vec![] }, Some(1000)));
    // A second module for the path takes the place of the first.
    assert!(cache.store("/cwd/a.ts", module.clone(), Some(5000)));
    assert_eq!(cache.len(), 1);
    assert!(!cache.store("/cwd/a.ts", Module { body: vec![] }, None));
    assert_eq!(cache.get("/cwd/a.ts", Some(1000)), None);
    assert_eq!(cache.get("/cwd/a.ts", Some(5000)), Some(&module));
    assert_eq!(cache.get("/cwd/a.ts", Some(6000)), Some(&module));
    assert_eq!(cache.get("/cwd/a.ts", Some(6001)), None);
    assert_eq!(cache.get("/cwd/a.ts", Some(4999)), None);
    assert_eq!(cache.get("/cwd/a.ts", None), None);
    assert_eq!(cache.get("/cwd/b.ts", Some(5000)), None);
    cache.clear();
    assert_eq!(cache.len(), 0);
    assert_eq!(cache.cache_duration_ms(), 1000);
    assert_eq!(cache.get("/cwd/a.ts", Some(5000)), None);
}

#[test]
fn file_cache_times_do_not_wrap() {
    let mut cache = FileCache::new(u64::MAX);
    assert!(cache.store("/cwd/a.ts", Module { body: vec![] }, Some(u64::MAX)));
    assert!(cache.get("/cwd/a.ts", Some(u64::MAX)).is_some());
    assert!(cache.get("/cwd/a.ts", Some(0)).is_none());
    let mut strict = FileCache::new(0);
    assert!(strict.store("/cwd/a.ts", Module { body: vec![] }, Some(0)));
    assert!(strict.get("/cwd/a.ts", Some(0)).is_some());
    assert!(strict.get("/cwd/a.ts", Some(1)).is_none());
    assert!(strict.get("/cwd/a.ts", Some(u64::MAX)).is_none());
}

#[test]
fn barrel_exports_are_remembered_once() {
    let mut cache: PathCache<Option<Vec<ReExport>>> = PathCache::new();
    let valid = BarrelExports {
        re_exports: Some(vec![ReExport {
            exported_name: "a".to_string(),
            source_path: "./a".to_string(),
            original_name: "b".to_string(),
            is_default: false,
        }]),
        warning: None,
    };
    let passed = BarrelExports {
        re_exports: None,
        warning: Some("Warning: x".to_string()),
    };
    assert!(remember_barrel_exports(&mut cache, "/cwd/index.ts", &valid));
    assert!(remember_barrel_exports(&mut cache, "/cwd/other.ts", &passed));
    assert!(!remember_barrel_exports(&mut cache, "/cwd/index.ts", &passed));
    assert_eq!(cache.get("/cwd/index.ts"), Some(&valid.re_exports));
    assert_eq!(cache.get("/cwd/other.ts"), Some(&None));
    assert_eq!(cache.get("/cwd/none.ts"), None);
}
