use devil::scaffold::{
    c_manifest, c_source, cpp_manifest, cpp_source, created_message, parse_language,
    scaffold_error_message, scaffold_plan, Language, ScaffoldError,
};

#[test]
fn c_project_plan_creates_sources_and_manifest() {
    let r = scaffold_plan("foo", "c", false);
    let plan = r.ok().unwrap();
    assert_eq!(plan.root, Some("Dev/foo".to_string()));
    assert_eq!(plan.subdirs, vec!["src".to_string()]);
    assert!(!plan.run_cargo_init);
    assert_eq!(plan.files.len(), 2);
    assert_eq!(plan.files[0].path, "src/main.c");
    assert!(plan.files[0].contents.contains("#include <stdio.h>"));
    assert_eq!(plan.files[1].path, "CMakeLists.txt");
    let manifest = &plan.files[1].contents;
    assert!(manifest.contains("project(foo VERSION 0.1.0 LANGUAGES C)"));
    assert!(manifest.contains("add_executable(foo src/main.c ${SOURCES})"));
    assert!(manifest.contains("target_include_directories(foo PRIVATE src)"));
    assert!(manifest.contains("set_target_properties(foo PROPERTIES"));
}

#[test]
fn existing_target_is_refused_and_plans_nothing() {
    let r = scaffold_plan("foo", "c", true);
    assert!(matches!(r, Err(ScaffoldError::DirectoryExists)));
}

#[test]
fn rust_plan_delegates_to_the_toolchain() {
    let r = scaffold_plan("bar", "rust", false);
    let plan = r.ok().unwrap();
    assert_eq!(plan.root, Some("Dev/bar".to_string()));
    assert!(plan.subdirs.is_empty());
    assert!(plan.files.is_empty());
    assert!(plan.run_cargo_init);
}

#[test]
fn cpp_plan_uses_cxx_manifest() {
    let r = scaffold_plan("baz", "c++", false);
    let plan = r.ok().unwrap();
    assert_eq!(plan.files[0].path, "src/main.cpp");
    let manifest = &plan.files[1].contents;
    assert!(manifest.contains("project(baz VERSION 0.1.0 LANGUAGES CXX)"));
    assert!(manifest.contains("add_executable(baz ${SOURCES})"));
}

#[test]
fn cpp_spelled_out_is_accepted_too() {
    let r = scaffold_plan("baz", "cpp", false);
    assert!(r.is_ok());
}

#[test]
fn dot_name_reuses_the_current_directory() {
    let r = scaffold_plan(".", "c", true);
    let plan = r.ok().unwrap();
    assert_eq!(plan.root, None);
    assert!(manifest_names_dot(&plan.files[1].contents));
}

fn manifest_names_dot(manifest: &str) -> bool {
    manifest.contains("project(. VERSION 0.1.0 LANGUAGES C)")
}

#[test]
fn unknown_language_is_refused() {
    let r = scaffold_plan("foo", "go", false);
    assert!(matches!(r, Err(ScaffoldError::UnsupportedLanguage)));
}

#[test]
fn existing_target_wins_over_unknown_language() {
    let r = scaffold_plan("foo", "go", true);
    assert!(matches!(r, Err(ScaffoldError::DirectoryExists)));
}

#[test]
fn language_identifiers_parse() {
    assert_eq!(parse_language("rust"), Some(Language::Rust));
    assert_eq!(parse_language("c"), Some(Language::C));
    assert_eq!(parse_language("c++"), Some(Language::Cpp));
    assert_eq!(parse_language("cpp"), Some(Language::Cpp));
    assert_eq!(parse_language("go"), None);
    assert_eq!(parse_language("C"), None);
}

#[test]
fn manifest_substitutes_the_name_four_times() {
    let manifest = c_manifest("zz9");
    assert_eq!(manifest.matches("zz9").count(), 4);
    let manifest = cpp_manifest("zz9");
    assert_eq!(manifest.matches("zz9").count(), 4);
}

#[test]
fn c_source_is_the_hello_world_starter() {
    assert_eq!(
        c_source(),
        "#include <stdio.h>\n\nint main() {\n    printf(\"Hello, world!\\n\");\n    return 0;\n}\n"
    );
}

#[test]
fn c_manifest_exact_text() {
    let expected = "cmake_minimum_required(VERSION 3.10)\nproject(foo VERSION 0.1.0 LANGUAGES C)\n\nset(CMAKE_C_FLAGS \"${CMAKE_C_FLAGS} -Wall -Wextra -Wpedantic\")\nset(CMAKE_C_STANDARD 11)\nset(CMAKE_C_STANDARD_REQUIRED ON)\nset(CMAKE_C_FLAGS \"${CMAKE_C_FLAGS} -std=c${CMAKE_C_STANDARD}\")\n\nfile(GLOB_RECURSE SOURCES \"src/*.c\")\n\nadd_executable(foo src/main.c ${SOURCES})\ntarget_include_directories(foo PRIVATE src)\nset_target_properties(foo PROPERTIES\nRUNTIME_OUTPUT_DIRECTORY \"${CMAKE_BINARY_DIR}/bin\"\nARCHIVE_OUTPUT_DIRECTORY \"${CMAKE_BINARY_DIR}/lib\"\nLIBRARY_OUTPUT_DIRECTORY \"${CMAKE_BINARY_DIR}/lib\"\n)";
    assert_eq!(c_manifest("foo"), expected);
}

#[test]
fn cpp_source_keeps_doubled_braces() {
    assert_eq!(
        cpp_source(),
        "#include <iostream>\n\nint main() {{\n    std::cout << \"Hello, world!\" << std::endl;\n    return 0;\n}}\n"
    );
}

#[test]
fn error_and_success_messages() {
    assert_eq!(
        scaffold_error_message(ScaffoldError::DirectoryExists, "Dev/foo", "c"),
        "Project directory already exists: Dev/foo"
    );
    assert_eq!(
        scaffold_error_message(ScaffoldError::UnsupportedLanguage, "Dev/foo", "go"),
        "Language not supported: go"
    );
    assert_eq!(created_message("Dev/foo"), "Created project at: Dev/foo");
}
