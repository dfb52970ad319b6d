use barrel_files::config::{Alias, Config, InvalidBarrelMode, UnsupportedImportMode};

#[test]
fn test_enum_display() {
    assert_eq!(UnsupportedImportMode::Error.to_string(), "error");
    assert_eq!(UnsupportedImportMode::Warn.to_string(), "warn");
    assert_eq!(UnsupportedImportMode::Off.to_string(), "off");

    assert_eq!(InvalidBarrelMode::Error.to_string(), "error");
    assert_eq!(InvalidBarrelMode::Warn.to_string(), "warn");
    assert_eq!(InvalidBarrelMode::Off.to_string(), "off");
}

#[test]
fn modes_are_read_from_their_names() {
    let test_cases = vec![
        (
            "error",
            UnsupportedImportMode::Error,
            InvalidBarrelMode::Error,
        ),
        ("warn", UnsupportedImportMode::Warn, InvalidBarrelMode::Warn),
        ("off", UnsupportedImportMode::Off, InvalidBarrelMode::Off),
    ];
    for (mode_str, expected_unsupported, expected_invalid) in test_cases {
        assert_eq!(
            UnsupportedImportMode::from_name(mode_str),
            Ok(expected_unsupported)
        );
        assert_eq!(InvalidBarrelMode::from_name(mode_str), Ok(expected_invalid));
    }
}

#[test]
fn other_names_are_no_modes() {
    assert_eq!(
        UnsupportedImportMode::from_name("invalid"),
        Err(
            "Invalid unsupported_import_mode 'invalid'. Valid options are: error, warn, off"
                .to_string()
        )
    );
    assert_eq!(
        InvalidBarrelMode::from_name("Error"),
        Err("Invalid invalid_barrel_mode 'Error'. Valid options are: error, warn, off".to_string())
    );
    assert!(InvalidBarrelMode::from_name("").is_err());
}

#[test]
fn modes_default_to_error() {
    assert_eq!(UnsupportedImportMode::default(), UnsupportedImportMode::Error);
    assert_eq!(InvalidBarrelMode::default(), InvalidBarrelMode::Error);
}

#[test]
fn duplicate_keeps_every_setting() {
    let config = Config {
        patterns: vec!["src/*/index.ts".to_string()],
        aliases: Some(vec![Alias {
            pattern: "@features/*".to_string(),
            paths: vec!["src/features/*/index.ts".to_string()],
            context: Some(vec!["src".to_string()]),
        }]),
        symlinks: Some(vec![("../ext".to_string(), "/cwd/ext".to_string())]),
        debug: Some(true),
        unsupported_import_mode: UnsupportedImportMode::Warn,
        invalid_barrel_mode: InvalidBarrelMode::Off,
    };
    let copy = config.duplicate();
    assert_eq!(copy.patterns, config.patterns);
    let aliases = copy.aliases.unwrap();
    assert_eq!(aliases.len(), 1);
    assert_eq!(aliases[0].pattern, "@features/*");
    assert_eq!(&aliases[0].paths, &vec!["src/features/*/index.ts"]);
    assert_eq!(aliases[0].context.as_ref().unwrap(), &vec!["src"]);
    assert_eq!(copy.symlinks, config.symlinks);
    assert_eq!(copy.debug, Some(true));
    assert_eq!(copy.unsupported_import_mode, UnsupportedImportMode::Warn);
    assert_eq!(copy.invalid_barrel_mode, InvalidBarrelMode::Off);
}

fn strings(value: &serde_json::Value, field: &str) -> Result<Vec<String>, String> {
    value
        .as_array()
        .ok_or_else(|| format!("invalid type for `{}`: expected a sequence", field))?
        .iter()
        .map(|item| {
            item.as_str()
                .map(|s| s.to_string())
                .ok_or_else(|| format!("invalid type in `{}`: expected a string", field))
        })
        .collect()
}

/// Reads a configuration from JSON, the modes through the library.
fn parse_config(json: &str) -> Result<Config, String> {
    let value: serde_json::Value = serde_json::from_str(json).map_err(|e| e.to_string())?;
    let patterns = strings(
        value
            .get("patterns")
            .ok_or_else(|| "missing field `patterns`".to_string())?,
        "patterns",
    )?;
    let aliases = match value.get("aliases") {
        None | Some(serde_json::Value::Null) => None,
        Some(list) => Some(
            list.as_array()
                .ok_or_else(|| "invalid type for `aliases`".to_string())?
                .iter()
                .map(|alias| {
                    Ok(Alias {
                        pattern: alias
                            .get("pattern")
                            .and_then(|p| p.as_str())
                            .ok_or_else(|| "missing field `pattern`".to_string())?
                            .to_string(),
                        paths: strings(
                            alias
                                .get("paths")
                                .ok_or_else(|| "missing field `paths`".to_string())?,
                            "paths",
                        )?,
                        context: match alias.get("context") {
                            None | Some(serde_json::Value::Null) => None,
                            Some(context) => Some(strings(context, "context")?),
                        },
                    })
                })
                .collect::<Result<Vec<Alias>, String>>()?,
        ),
    };
    let symlinks = match value.get("symlinks") {
        None | Some(serde_json::Value::Null) => None,
        Some(map) => Some(
            map.as_object()
                .ok_or_else(|| "invalid type for `symlinks`".to_string())?
                .iter()
                .map(|(from, to)| {
                    Ok((
                        from.clone(),
                        to.as_str()
                            .ok_or_else(|| "invalid type in `symlinks`".to_string())?
                            .to_string(),
                    ))
                })
                .collect::<Result<Vec<(String, String)>, String>>()?,
        ),
    };
    let unsupported_import_mode = match value.get("unsupported_import_mode") {
        None => UnsupportedImportMode::default(),
        Some(mode) => UnsupportedImportMode::from_name(
            mode.as_str()
                .ok_or_else(|| "invalid type for `unsupported_import_mode`".to_string())?,
        )?,
    };
    let invalid_barrel_mode = match value.get("invalid_barrel_mode") {
        None => InvalidBarrelMode::default(),
        Some(mode) => InvalidBarrelMode::from_name(
            mode.as_str()
                .ok_or_else(|| "invalid type for `invalid_barrel_mode`".to_string())?,
        )?,
    };
    Ok(Config {
        patterns,
        aliases,
        symlinks,
        debug: value.get("debug").and_then(|d| d.as_bool()),
        unsupported_import_mode,
        invalid_barrel_mode,
    })
}

#[test]
fn config_test_config_parsing() {
    let config_json = r#"{
            "aliases": [
                {
                    "pattern": "@features/*",
                    "paths": ["src/features/*/index.ts"],
                    "context": ["src"]
                }
            ],
            "patterns": [
                "src/entities/*/index.ts",
                "src/features/*/index.ts"
            ],
            "cache_duration_ms": 1000
        }"#;

    let config: Config = parse_config(config_json).expect("Failed to parse config JSON");

    assert!(config.aliases.is_some());
    let aliases = config.aliases.unwrap();
    assert_eq!(aliases.len(), 1);
    assert_eq!(aliases[0].pattern, "@features/*");
    assert_eq!(&aliases[0].paths, &vec!["src/features/*/index.ts"]);
    let context = aliases[0].context.as_ref().unwrap();
    assert_eq!(context, &vec!["src"]);
    let patterns = config.patterns;
    assert_eq!(patterns.len(), 2);
    assert_eq!(patterns[0], "src/entities/*/index.ts");
    assert_eq!(patterns[1], "src/features/*/index.ts");
}

#[test]
fn test_mode_validation() {
    let config_json = r#"{
            "patterns": ["src/*/index.ts"],
            "unsupported_import_mode": "warn",
            "invalid_barrel_mode": "off"
        }"#;

    let config: Config = parse_config(config_json).expect("Failed to parse config JSON");

    assert_eq!(config.unsupported_import_mode, UnsupportedImportMode::Warn);
    assert_eq!(config.invalid_barrel_mode, InvalidBarrelMode::Off);
}

#[test]
fn test_mode_defaults() {
    let config_json = r#"{
            "patterns": ["src/*/index.ts"]
        }"#;

    let config: Config = parse_config(config_json).expect("Failed to parse config JSON");

    assert_eq!(config.unsupported_import_mode, UnsupportedImportMode::Error);
    assert_eq!(config.invalid_barrel_mode, InvalidBarrelMode::Error);
}

#[test]
fn test_invalid_mode_validation() {
    let config_json = r#"{
            "patterns": ["src/*/index.ts"],
            "unsupported_import_mode": "invalid",
            "invalid_barrel_mode": "invalid"
        }"#;

    let result: Result<Config, _> = parse_config(config_json);
    assert!(result.is_err());

    let error = result.unwrap_err();
    assert!(error
        .to_string()
        .contains("Invalid unsupported_import_mode"));
}

#[test]
fn test_all_valid_modes() {
    let test_cases = vec![
        (
            "error",
            UnsupportedImportMode::Error,
            InvalidBarrelMode::Error,
        ),
        ("warn", UnsupportedImportMode::Warn, InvalidBarrelMode::Warn),
        ("off", UnsupportedImportMode::Off, InvalidBarrelMode::Off),
    ];

    for (mode_str, expected_unsupported, expected_invalid) in test_cases {
        let config_json = format!(
            r#"{{
                    "patterns": ["src/*/index.ts"],
                    "unsupported_import_mode": "{}",
                    "invalid_barrel_mode": "{}"
                }}"#,
            mode_str, mode_str
        );

        let config: Config = parse_config(&config_json).expect("Failed to parse config JSON");

        assert_eq!(config.unsupported_import_mode, expected_unsupported);
        assert_eq!(config.invalid_barrel_mode, expected_invalid);
    }
}
