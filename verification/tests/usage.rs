use cargo_sane::model::manifest::DependencySpec;
use cargo_sane::utils::cargo::{is_rust_source, unused_among, DependencyUsageAnalyzer};
use regex::Regex;
use std::collections::BTreeSet;

fn declared(names: &[&str]) -> Vec<(String, DependencySpec)> {
    names
        .iter()
        .map(|n| (n.to_string(), DependencySpec::Simple("1.0.0".to_string())))
        .collect()
}

fn used_in(sources: &[&str]) -> BTreeSet<String> {
    let analyzer = DependencyUsageAnalyzer::new(sources.iter().map(|s| s.to_string()).collect());
    let used = analyzer.find_used_dependencies();
    let set: BTreeSet<String> = used.iter().cloned().collect();
    assert_eq!(set.len(), used.len(), "a name occurs twice");
    set
}

/// The names in use, found with the four patterns that describe the forms.
fn used_by_patterns(sources: &[&str]) -> BTreeSet<String> {
    let patterns = [
        r"(?m)^use\s+([a-zA-Z_][a-zA-Z0-9_]*)(?:::|;)",
        r"(?m)^extern\s+crate\s+([a-zA-Z_][a-zA-Z0-9_]*)",
        r"#\[macro_use\]\s*extern\s+crate\s+([a-zA-Z_][a-zA-Z0-9_]*)",
        r"([a-zA-Z_][a-zA-Z0-9_]*)(?:::|\!)",
    ];
    let mut used = BTreeSet::new();
    for content in sources {
        for pattern in patterns {
            let re = Regex::new(pattern).unwrap();
            for cap in re.captures_iter(content) {
                let name = cap.get(1).unwrap().as_str().to_string();
                used.insert(name.replace('_', "-"));
                used.insert(name);
            }
        }
    }
    for name in ["std", "core", "alloc", "proc_macro", "test"] {
        used.insert(name.to_string());
    }
    used
}

const MAIN: &str = r#"
use serde::Serialize;
use tokio::runtime::Runtime;

fn main() {
    println!("Hello, world!");
}
"#;

#[test]
fn only_the_dependency_not_imported_is_unused() {
    let analyzer = DependencyUsageAnalyzer::new(vec![MAIN.to_string()]);
    let unused = analyzer.find_unused_dependencies(&declared(&["serde", "tokio", "left-pad"]));
    assert_eq!(unused, vec!["left-pad".to_string()]);
}

#[test]
fn unused_dependencies_keep_the_order_of_declaration() {
    let analyzer = DependencyUsageAnalyzer::new(vec![MAIN.to_string()]);
    let unused = analyzer
        .find_unused_dependencies(&declared(&["unused-crate", "serde", "another-unused", "tokio"]));
    assert_eq!(unused, vec!["unused-crate".to_string(), "another-unused".to_string()]);
    assert!(analyzer.find_unused_dependencies(&declared(&[])).is_empty());
}

#[test]
fn hyphen_and_underscore_stand_for_each_other() {
    let analyzer =
        DependencyUsageAnalyzer::new(vec!["use serde_json::Value;\nuse my_crate;\n".to_string()]);
    let unused = analyzer.find_unused_dependencies(&declared(&[
        "serde-json",
        "serde_json",
        "my-crate",
        "serde",
        "json",
    ]));
    assert_eq!(unused, vec!["serde".to_string(), "json".to_string()]);
    let used = vec!["a-b".to_string()];
    assert!(unused_among(&declared(&["a_b", "a-b"]), &used).is_empty());
    let used = vec!["a_b".to_string()];
    assert!(unused_among(&declared(&["a_b", "a-b"]), &used).is_empty());
    assert_eq!(unused_among(&declared(&["a_b_c"]), &used), vec!["a_b_c".to_string()]);
}

#[test]
fn names_of_the_standard_library_are_always_in_use() {
    let used = used_in(&[]);
    let expected: BTreeSet<String> =
        ["std", "core", "alloc", "proc_macro", "test"].iter().map(|s| s.to_string()).collect();
    assert_eq!(used, expected);
    let analyzer = DependencyUsageAnalyzer::new(vec![]);
    assert!(analyzer
        .find_unused_dependencies(&declared(&["std", "core", "alloc", "proc-macro", "proc_macro", "test"]))
        .is_empty());
}

#[test]
fn each_form_counts_as_a_reference() {
    assert!(used_in(&["use anyhow;\n"]).contains("anyhow"));
    assert!(used_in(&["use  clap::Parser;\n"]).contains("clap"));
    assert!(!used_in(&["  use indented;\n"]).contains("indented"));
    assert!(!used_in(&["use braces{a};\n"]).contains("braces"));
    assert!(used_in(&["extern crate libc;\n"]).contains("libc"));
    assert!(used_in(&["extern  crate\n  spread_out ;\n"]).contains("spread-out"));
    assert!(!used_in(&["pub extern crate hidden;\n"]).contains("hidden"));
    assert!(used_in(&["  #[macro_use]extern crate log;\n"]).contains("log"));
    assert!(used_in(&["#[macro_use]\nextern crate lazy_static;\n"]).contains("lazy-static"));
    assert!(used_in(&["let v = serde_json::json!({});"]).contains("serde_json"));
    assert!(used_in(&["let v = serde_json::json!({});"]).contains("json"));
    assert!(used_in(&["let v = serde_json::json!({});"]).contains("serde-json"));
    assert!(!used_in(&["let v = serde_json::json!({});"]).contains("erde_json"));
    assert!(used_in(&["12abc::x"]).contains("abc"));
    assert!(!used_in(&["a1b::x"]).contains("b"));
    assert!(!used_in(&["word : : other ! "]).contains("word"));
}

#[test]
fn analysis_agrees_with_the_patterns() {
    let sources = [
        MAIN,
        "",
        "use a;use b;\nuse c::d::{e, f};\nuse\tg ;\nuse h\n::i;\n",
        "extern crate alpha;\n extern crate beta;\nextern crate gamma as g;\nextern crateless x;\n",
        "#[macro_use] extern crate one;\n#[macro_use]extern crate two_2;#[macro_use]\n\n extern\tcrate three;",
        "#![macro_use] #[macro_use ] extern crate four; #[macro_use] extern  crate 5five;",
        "fn f() { vec![1]; a::b::c(); x!(); _y::z; __::q; 9z9::w; p9_::r!(); s:::t; u! = v!; }",
        "mod m { pub use crate::inner::Thing; }\nuse self::m::Thing;\nuse super::*;\n",
        "caf\u{e9}::x; \u{e9}cole!(); na\u{ef}ve::y; a\u{300}::b; \u{1F980}crab::z!",
        "use\u{a0}nbsp::x;\nuse\u{2003}em_space;\r\nuse crlf::x;\r\nextern\u{3000}crate wide;",
        "a::b!c::d!::e:: f!! g:: :h:: i:j::k",
        "use std::fmt;\nuse core::mem;\nassert!(true); println!(\"{}\", 1); Vec::<u8>::new();",
        "use_not::x; user; use1::y;\nusex::z;\nuse ;\nuse 1a::b;\n",
    ];
    for source in sources {
        assert_eq!(used_in(&[source]), used_by_patterns(&[source]), "source {:?}", source);
    }
    assert_eq!(used_in(&sources), used_by_patterns(&sources));
}

#[test]
fn source_files_end_in_rs() {
    assert!(is_rust_source("main.rs"));
    assert!(is_rust_source("a.rs"));
    assert!(is_rust_source("lib.test.rs"));
    assert!(is_rust_source("..rs"));
    assert!(!is_rust_source(".rs"));
    assert!(!is_rust_source("rs"));
    assert!(!is_rust_source(""));
    assert!(!is_rust_source("main.rs.bak"));
    assert!(!is_rust_source("main.RS"));
    assert!(!is_rust_source("mainrs"));
    assert!(!is_rust_source("Cargo.toml"));
}
