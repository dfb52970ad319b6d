//! Rewrites imports of barrel files into imports of the modules that the
//! barrel files take their names from.
//!
//! A barrel file is a module that holds nothing but re-exports. The library
//! matches import specifiers against wildcard patterns, resolves aliases in
//! the order of their specificity, maps paths into a virtual file system
//! through configured links, reads the re-exports of a barrel file, and
//! makes the statements that take the place of an import.
//!
//! The library looks at no disk and parses no source text: whoever calls it
//! answers where a file exists and hands over the statements of a module.

pub mod alias_resolver;
pub mod cache;
pub mod config;
pub mod import_transformer;
pub mod path_resolver;
pub mod paths;
pub mod pattern_matcher;
pub mod re_export;
pub mod regex_matcher;
pub mod resolver;
pub mod text;
pub mod visitor;
