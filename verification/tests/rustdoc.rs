//! How rustdoc is asked for JSON.

use config_docs::error::ExtractError;
use config_docs::json::Json;
use config_docs::rustdoc::{
    additional_json_files, additional_package_warning, additional_packages, generated_json,
    json_file_path, library_name, runs_outcome, rustdoc_arguments, rustdoc_target_dir, Run,
};

#[test]
fn test_package_to_library_name_mapping() {
    // A package that sets the name of its library
    let lib_name = library_name("stackslib");
    assert_eq!(lib_name, "blockstack_lib");

    // A package name with hyphens
    let lib_name = library_name("config-docs-generator");
    assert_eq!(lib_name, "config_docs_generator");

    // A package name without hyphens
    let lib_name = library_name("normalpackage");
    assert_eq!(lib_name, "normalpackage");
}

#[test]
fn library_names_have_no_hyphen() {
    assert_eq!(library_name("-a--b-"), "_a__b_");
    assert_eq!(library_name(""), "");
    assert_eq!(library_name("stacks-lib"), "stacks_lib");
    assert_eq!(library_name("größe-ß"), "größe_ß");
}

#[test]
fn target_dir_follows_cargo() {
    assert_eq!(rustdoc_target_dir(None), "target/rustdoc-json");
    assert_eq!(rustdoc_target_dir(Some("/tmp/build")), "/tmp/build/rustdoc-json");
    assert_eq!(rustdoc_target_dir(Some("")), "/rustdoc-json");
}

#[test]
fn json_file_is_named_after_library() {
    assert_eq!(
        json_file_path(&rustdoc_target_dir(None), &library_name("stackslib")),
        "target/rustdoc-json/doc/blockstack_lib.json"
    );
}

#[test]
fn additional_json_is_where_rustdoc_leaves_it() {
    let dir = rustdoc_target_dir(None);
    let files: Vec<String> = additional_packages()
        .iter()
        .map(|package| json_file_path(&dir, &library_name(package)))
        .collect();
    assert_eq!(additional_packages(), vec!["stacks-common".to_string()]);
    assert_eq!(files, vec!["target/rustdoc-json/doc/stacks_common.json".to_string()]);
    assert_eq!(additional_json_files(), files);
}

#[test]
fn arguments_name_package_and_target_dir() {
    let arguments = rustdoc_arguments("stackslib", "target/rustdoc-json");
    assert_eq!(
        arguments,
        vec![
            "+nightly",
            "rustdoc",
            "--lib",
            "-p",
            "stackslib",
            "--target-dir",
            "target/rustdoc-json",
            "--",
            "-Z",
            "unstable-options",
            "--output-format",
            "json",
            "--document-private-items",
        ]
    );
}

fn run(success: bool, stderr: &str) -> Result<Run, String> {
    Ok(Run {
        success,
        stderr: stderr.to_string(),
    })
}

fn not_started(cause: &str) -> Result<Run, String> {
    Err(cause.to_string())
}

fn additional(run: Result<Run, String>) -> Vec<(String, Result<Run, String>)> {
    vec![("stacks-common".to_string(), run)]
}

#[test]
fn failure_on_main_package_is_an_error() {
    assert!(runs_outcome(&run(true, "warning: unused"), &vec![]).is_ok());
    let error = runs_outcome(&run(false, "no such package"), &vec![]).unwrap_err();
    assert_eq!(error, ExtractError::RustdocFailed("no such package".to_string()));
    assert_eq!(error.message(), "cargo rustdoc failed: no such package");
    assert_eq!(error.cause(), None);
}

#[test]
fn run_that_does_not_start_is_an_error() {
    let error = runs_outcome(&not_started("no cargo"), &vec![]).unwrap_err();
    assert_eq!(error, ExtractError::NotStarted("no cargo".to_string()));
    assert_eq!(error.message(), "Failed to run cargo rustdoc command");
    assert_eq!(error.cause(), Some("no cargo".to_string()));

    let mut runs = additional(run(true, ""));
    runs.push(("second".to_string(), not_started("gone")));
    runs.push(("third".to_string(), not_started("gone too")));
    let error = runs_outcome(&run(true, ""), &runs).unwrap_err();
    assert_eq!(
        error,
        ExtractError::AdditionalNotStarted("second".to_string(), "gone".to_string())
    );
    assert_eq!(error.message(), "Failed to run cargo rustdoc command for second");
    assert_eq!(error.cause(), Some("gone".to_string()));
}

#[test]
fn json_is_generated_where_all_steps_succeed() {
    let text: Result<String, String> = Ok("[true]".to_string());
    let json = generated_json(&run(true, ""), &additional(run(true, "")), &text).unwrap();
    assert!(matches!(json, Json::List(items) if items.len() == 1));
    // An additional run may fail, as long as it starts.
    assert!(generated_json(&run(true, ""), &additional(run(false, "bad")), &text).is_ok());

    let error = generated_json(&run(false, "x"), &additional(not_started("y")), &text).unwrap_err();
    assert_eq!(error, ExtractError::RustdocFailed("x".to_string()));
    let error = generated_json(&run(true, ""), &additional(not_started("y")), &text).unwrap_err();
    assert_eq!(
        error,
        ExtractError::AdditionalNotStarted("stacks-common".to_string(), "y".to_string())
    );
}

#[test]
fn json_that_cannot_be_read_is_an_error() {
    let text: Result<String, String> = Err("no such file".to_string());
    let error = generated_json(&run(true, ""), &vec![], &text).unwrap_err();
    assert_eq!(error, ExtractError::UnreadableJson("no such file".to_string()));
    assert_eq!(error.message(), "Failed to read generated rustdoc JSON file");
    assert_eq!(error.cause(), Some("no such file".to_string()));

    let text: Result<String, String> = Ok("{".to_string());
    let error = generated_json(&run(true, ""), &vec![], &text).unwrap_err();
    assert_eq!(
        error,
        ExtractError::InvalidJson(
            "EOF while parsing an object at line 1 column 1".to_string()
        )
    );
    assert_eq!(error.message(), "Failed to parse rustdoc JSON output");
}

#[test]
fn failure_on_additional_package_is_a_warning() {
    assert_eq!(additional_package_warning("stacks-common", true, "ignored"), None);
    assert_eq!(
        additional_package_warning("stacks-common", false, "broken"),
        Some("Warning: Failed to generate rustdoc for stacks-common: broken".to_string())
    );
}
