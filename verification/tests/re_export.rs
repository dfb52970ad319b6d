use barrel_files::re_export::{
    analyze_barrel_file, validate_barrel_file, BarrelError, Declaration, ExportSpecifier, Module,
    ModuleItem, ReExport,
};

fn named(orig: &str, exported: Option<&str>) -> ExportSpecifier {
    ExportSpecifier::Named {
        orig: orig.to_string(),
        exported: exported.map(|e| e.to_string()),
    }
}

fn export_named(specifiers: Vec<ExportSpecifier>, src: Option<&str>) -> ModuleItem {
    ModuleItem::ExportNamed {
        specifiers,
        src: src.map(|s| s.to_string()),
    }
}

#[test]
fn test_validate_barrel_file() {
    // A valid barrel file with named exports
    let mut module = Module { body: vec![] };
    module.body.push(export_named(
        vec![named("Button", None)],
        Some("./components/Button"),
    ));
    let result = validate_barrel_file(&module);
    assert!(result.is_ok());

    // An invalid barrel file with an import declaration
    let mut module = Module { body: vec![] };
    module.body.push(ModuleItem::Import);
    let result = validate_barrel_file(&module);
    assert!(result.is_err());
    match result {
        Err(BarrelError::NonExportCode(_)) => {}
        _ => panic!("Expected NonExportCode error"),
    }

    // An invalid barrel file with a wildcard export
    let mut module = Module { body: vec![] };
    module.body.push(ModuleItem::ExportAll);
    let result = validate_barrel_file(&module);
    assert!(result.is_err());
    match result {
        Err(BarrelError::WildcardExport(_)) => {}
        _ => panic!("Expected WildcardExport error"),
    }

    // An invalid barrel file with a non-export statement
    let mut module = Module { body: vec![] };
    module.body.push(ModuleItem::Stmt);
    let result = validate_barrel_file(&module);
    assert!(result.is_err());
    match result {
        Err(BarrelError::NonExportCode(_)) => {}
        _ => panic!("Expected NonExportCode error"),
    }

    // An invalid barrel file with a default export declaration
    let mut module = Module { body: vec![] };
    module.body.push(ModuleItem::ExportDefaultDecl);
    let result = validate_barrel_file(&module);
    assert!(result.is_err());
    match result {
        Err(BarrelError::NonExportCode(_)) => {}
        _ => panic!("Expected NonExportCode error"),
    }
}

#[test]
fn test_analyze_barrel_file() {
    // A valid barrel file with named exports
    let mut module = Module { body: vec![] };
    module.body.push(export_named(
        vec![named("Button", None)],
        Some("./components/Button"),
    ));

    let result = analyze_barrel_file(&module, "/path/to/barrel/index.ts");
    assert!(result.is_ok());

    let re_exports = result.unwrap();
    assert_eq!(re_exports.len(), 1);
    assert_eq!(re_exports[0].exported_name, "Button");
    assert_eq!(re_exports[0].source_path, "./components/Button");
    assert_eq!(re_exports[0].original_name, "Button");
    assert!(!re_exports[0].is_default);

    // A barrel file with renamed exports
    let mut module = Module { body: vec![] };
    module.body.push(export_named(
        vec![named("Button", Some("CustomButton"))],
        Some("./components/Button"),
    ));

    let result = analyze_barrel_file(&module, "/path/to/barrel/index.ts");
    assert!(result.is_ok());

    let re_exports = result.unwrap();
    assert_eq!(re_exports.len(), 1);
    assert_eq!(re_exports[0].exported_name, "CustomButton");
    assert_eq!(re_exports[0].source_path, "./components/Button");
    assert_eq!(re_exports[0].original_name, "Button");
    assert!(!re_exports[0].is_default);

    // A barrel file with a default export
    let mut module = Module { body: vec![] };
    module.body.push(export_named(
        vec![ExportSpecifier::Default {
            exported: "Button".to_string(),
        }],
        Some("./components/Button"),
    ));

    let result = analyze_barrel_file(&module, "/path/to/barrel/index.ts");
    assert!(result.is_ok());

    let re_exports = result.unwrap();
    assert_eq!(re_exports.len(), 1);
    assert_eq!(re_exports[0].exported_name, "Button");
    assert_eq!(re_exports[0].source_path, "./components/Button");
    assert_eq!(re_exports[0].original_name, "default");
    assert!(re_exports[0].is_default);
}

#[test]
fn re_exports_keep_the_order_of_the_module() {
    let module = Module {
        body: vec![
            export_named(
                vec![named("b", None), named("default", Some("a"))],
                Some("./one"),
            ),
            export_named(vec![], Some("./empty")),
            export_named(vec![named("c", Some("d"))], Some("pkg")),
        ],
    };
    let re_exports = analyze_barrel_file(&module, "/cwd/index.ts").unwrap();
    assert_eq!(
        re_exports,
        vec![
            ReExport {
                exported_name: "b".to_string(),
                source_path: "./one".to_string(),
                original_name: "b".to_string(),
                is_default: false,
            },
            ReExport {
                exported_name: "a".to_string(),
                source_path: "./one".to_string(),
                original_name: "default".to_string(),
                is_default: true,
            },
            ReExport {
                exported_name: "d".to_string(),
                source_path: "pkg".to_string(),
                original_name: "c".to_string(),
                is_default: false,
            },
        ]
    );
}

#[test]
fn every_statement_but_an_export_of_names_is_refused() {
    let cases = vec![
        (
            ModuleItem::ExportDecl(Declaration::Variable),
            BarrelError::NonExportCode(
                "Variable declarations are not allowed in barrel files".to_string(),
            ),
        ),
        (
            ModuleItem::ExportDecl(Declaration::Class),
            BarrelError::NonExportCode(
                "Class declarations are not allowed in barrel files".to_string(),
            ),
        ),
        (
            ModuleItem::ExportDecl(Declaration::Function),
            BarrelError::NonExportCode(
                "Function declarations are not allowed in barrel files".to_string(),
            ),
        ),
        (
            ModuleItem::ExportDecl(Declaration::Interface),
            BarrelError::NonExportCode(
                "Interface declarations are not allowed in barrel files".to_string(),
            ),
        ),
        (
            ModuleItem::ExportDecl(Declaration::TypeAlias),
            BarrelError::NonExportCode(
                "Type alias declarations are not allowed in barrel files".to_string(),
            ),
        ),
        (
            ModuleItem::ExportDecl(Declaration::Enum),
            BarrelError::NonExportCode(
                "Enum declarations are not allowed in barrel files".to_string(),
            ),
        ),
        (
            ModuleItem::ExportDecl(Declaration::Namespace),
            BarrelError::NonExportCode(
                "Module declarations are not allowed in barrel files".to_string(),
            ),
        ),
        (
            ModuleItem::ExportDecl(Declaration::Other),
            BarrelError::NonExportCode("Unknown declaration type in barrel file".to_string()),
        ),
        (
            ModuleItem::ExportAll,
            BarrelError::WildcardExport(
                "Wildcard exports are not allowed in barrel files".to_string(),
            ),
        ),
        (
            ModuleItem::ExportDefaultDecl,
            BarrelError::NonExportCode(
                "Default export declarations are not allowed in barrel files".to_string(),
            ),
        ),
        (
            ModuleItem::ExportDefaultExpr,
            BarrelError::NonExportCode(
                "Default export expressions are not allowed in barrel files".to_string(),
            ),
        ),
        (
            ModuleItem::Import,
            BarrelError::NonExportCode(
                "Import declarations are not allowed in barrel files".to_string(),
            ),
        ),
        (
            ModuleItem::TsImportEquals,
            BarrelError::NonExportCode(
                "TypeScript import equals declarations are not allowed in barrel files"
                    .to_string(),
            ),
        ),
        (
            ModuleItem::TsExportAssignment,
            BarrelError::NonExportCode(
                "TypeScript export assignments are not allowed in barrel files".to_string(),
            ),
        ),
        (
            ModuleItem::TsNamespaceExport,
            BarrelError::NonExportCode(
                "TypeScript namespace exports are not allowed in barrel files".to_string(),
            ),
        ),
        (
            ModuleItem::Stmt,
            BarrelError::NonExportCode("Statements are not allowed in barrel files".to_string()),
        ),
    ];
    for (item, expected) in cases {
        let module = Module {
            body: vec![
                export_named(vec![named("a", None)], Some("./a")),
                item,
                ModuleItem::ExportAll,
            ],
        };
        assert_eq!(validate_barrel_file(&module), Err(expected.clone()));
        assert_eq!(analyze_barrel_file(&module, "/cwd/index.ts"), Err(expected));
    }
}

#[test]
fn statement_that_is_refused_counts_before_a_specifier() {
    let module = Module {
        body: vec![
            export_named(vec![named("a", None)], None),
            ModuleItem::Stmt,
        ],
    };
    let refused = BarrelError::NonExportCode(
        "Statements are not allowed in barrel files".to_string(),
    );
    assert_eq!(validate_barrel_file(&module), Err(refused.clone()));
    assert_eq!(
        analyze_barrel_file(&module, "/cwd/index.ts"),
        Err(refused.clone())
    );
    let module = Module {
        body: vec![
            export_named(
                vec![ExportSpecifier::Namespace {
                    name: "ns".to_string(),
                }],
                Some("./mod"),
            ),
            ModuleItem::Stmt,
        ],
    };
    assert_eq!(analyze_barrel_file(&module, "/cwd/index.ts"), Err(refused));
}

#[test]
fn exports_of_names_are_read_in_their_order() {
    // A namespace before an export without a source is met first.
    let module = Module {
        body: vec![
            export_named(
                vec![ExportSpecifier::Namespace {
                    name: "ns".to_string(),
                }],
                Some("x"),
            ),
            export_named(vec![named("a", None)], None),
        ],
    };
    assert!(validate_barrel_file(&module).is_ok());
    assert_eq!(
        analyze_barrel_file(&module, "/cwd/index.ts"),
        Err(BarrelError::NamespaceExport(
            "export * as ns from 'x'".to_string()
        ))
    );
    let module = Module {
        body: vec![
            export_named(vec![named("a", None)], None),
            export_named(
                vec![ExportSpecifier::Namespace {
                    name: "ns".to_string(),
                }],
                Some("x"),
            ),
        ],
    };
    assert_eq!(
        analyze_barrel_file(&module, "/cwd/index.ts"),
        Err(BarrelError::MissingSource(
            "Export 'a' does not have a source".to_string()
        ))
    );
}

#[test]
fn export_without_a_source_is_refused_whatever_its_specifiers() {
    let missing = BarrelError::MissingSource(
        "Export declaration does not have a source".to_string(),
    );
    // Alone, with no specifier: an export of names, and no re-export.
    let alone = Module {
        body: vec![export_named(vec![], None)],
    };
    assert_eq!(validate_barrel_file(&alone), Ok(()));
    assert_eq!(
        analyze_barrel_file(&alone, "/cwd/index.ts"),
        Err(missing.clone())
    );
    // Before and behind a re-export.
    let before = Module {
        body: vec![
            export_named(vec![], None),
            export_named(vec![named("a", None)], Some("./a")),
        ],
    };
    assert_eq!(validate_barrel_file(&before), Ok(()));
    assert_eq!(
        analyze_barrel_file(&before, "/cwd/index.ts"),
        Err(missing.clone())
    );
    let behind = Module {
        body: vec![
            export_named(vec![named("a", None)], Some("./a")),
            export_named(vec![], None),
        ],
    };
    assert_eq!(
        analyze_barrel_file(&behind, "/cwd/other.ts"),
        Err(missing)
    );
    // The source is missed before a namespace among the specifiers is read.
    let mixed = Module {
        body: vec![export_named(
            vec![
                named("a", None),
                ExportSpecifier::Namespace {
                    name: "ns".to_string(),
                },
            ],
            None,
        )],
    };
    assert_eq!(validate_barrel_file(&mixed), Ok(()));
    assert_eq!(
        analyze_barrel_file(&mixed, "/cwd/index.ts"),
        Err(BarrelError::MissingSource(
            "Export 'a' does not have a source".to_string()
        ))
    );
}

#[test]
fn exports_without_a_source_are_refused() {
    let module = Module {
        body: vec![export_named(vec![named("a", Some("b"))], None)],
    };
    assert_eq!(
        analyze_barrel_file(&module, "/cwd/index.ts"),
        Err(BarrelError::MissingSource(
            "Export 'b' does not have a source".to_string()
        ))
    );
    let module = Module {
        body: vec![export_named(
            vec![ExportSpecifier::Default {
                exported: "a".to_string(),
            }],
            None,
        )],
    };
    assert_eq!(
        analyze_barrel_file(&module, "/cwd/index.ts"),
        Err(BarrelError::MissingSource(
            "Default export does not have a source".to_string()
        ))
    );
    let module = Module {
        body: vec![export_named(
            vec![ExportSpecifier::Namespace {
                name: "ns".to_string(),
            }],
            None,
        )],
    };
    assert_eq!(
        analyze_barrel_file(&module, "/cwd/index.ts"),
        Err(BarrelError::MissingSource(
            "Namespace export 'ns' does not have a source".to_string()
        ))
    );
}

#[test]
fn namespace_re_export_is_refused() {
    let module = Module {
        body: vec![
            export_named(vec![named("a", None)], Some("./a")),
            export_named(
                vec![ExportSpecifier::Namespace {
                    name: "ns".to_string(),
                }],
                Some("./mod"),
            ),
        ],
    };
    assert!(validate_barrel_file(&module).is_ok());
    assert_eq!(
        analyze_barrel_file(&module, "/cwd/index.ts"),
        Err(BarrelError::NamespaceExport(
            "export * as ns from './mod'".to_string()
        ))
    );
}

#[test]
fn module_without_a_re_export_is_no_barrel_file() {
    let empty = Module { body: vec![] };
    assert!(validate_barrel_file(&empty).is_ok());
    assert_eq!(
        analyze_barrel_file(&empty, "/cwd/index.ts"),
        Err(BarrelError::NoReExports("/cwd/index.ts".to_string()))
    );
    let hollow = Module {
        body: vec![export_named(vec![], Some("./a"))],
    };
    assert_eq!(
        analyze_barrel_file(&hollow, "/cwd/index.ts"),
        Err(BarrelError::NoReExports("/cwd/index.ts".to_string()))
    );
}

#[test]
fn findings_read_as_sentences() {
    assert_eq!(
        BarrelError::NonExportCode("x".to_string()).to_string(),
        "Barrel file contains non-export code: x"
    );
    assert_eq!(
        BarrelError::WildcardExport("x".to_string()).to_string(),
        "Wildcard exports are not supported in barrel files: x"
    );
    assert_eq!(
        BarrelError::NamespaceExport("x".to_string()).to_string(),
        "Namespace exports are not supported in barrel files: x"
    );
    assert_eq!(
        BarrelError::MissingSource("x".to_string()).to_string(),
        "Export declaration without source: x"
    );
    assert_eq!(
        BarrelError::NoReExports("x".to_string()).to_string(),
        "No re-exports found in barrel file: x"
    );
}
