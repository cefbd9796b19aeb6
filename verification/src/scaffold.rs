//! The pure part of project scaffolding: language selection, placement of
//! the target directory, and the exact starter files to create. Carrying the
//! plan out against the file system is the caller's business.

use vstd::prelude::*;

use crate::order::str_eq;

verus! {

/// The closed set of supported project languages.
#[derive(PartialEq, Eq, Structural, Clone, Copy, Debug)]
pub enum Language {
    Rust,
    C,
    Cpp,
}

/// Why a scaffold request is refused before any file is touched.
#[derive(PartialEq, Eq, Structural, Clone, Copy, Debug)]
pub enum ScaffoldError {
    DirectoryExists,
    UnsupportedLanguage,
}

/// The language a command-line identifier denotes, if any.
pub open spec fn spec_parse_language(s: Seq<char>) -> Option<Language> {
    if s == "rust"@ {
        Some(Language::Rust)
    } else if s == "c"@ {
        Some(Language::C)
    } else if s == "c++"@ || s == "cpp"@ {
        Some(Language::Cpp)
    } else {
        None
    }
}

/// Parse a project-language identifier.
pub fn parse_language(s: &str) -> (r: Option<Language>)
    ensures
        r == spec_parse_language(s@),
{
    if str_eq(s, "rust") {
        Some(Language::Rust)
    } else if str_eq(s, "c") {
        Some(Language::C)
    } else if str_eq(s, "c++") {
        Some(Language::Cpp)
    } else if str_eq(s, "cpp") {
        Some(Language::Cpp)
    } else {
        None
    }
}

/// The starter source file of a C project.
pub open spec fn c_source_text() -> Seq<char> {
    "#include <stdio.h>\n\nint main() {\n    printf(\"Hello, world!\\n\");\n    return 0;\n}\n"@
}

/// The starter source file of a C++ project.
pub open spec fn cpp_source_text() -> Seq<char> {
    "#include <iostream>\n\nint main() {{\n    std::cout << \"Hello, world!\" << std::endl;\n    return 0;\n}}\n"@
}

/// The build manifest of a C project, with the project name substituted into
/// the project declaration, the executable target and its properties.
pub open spec fn c_manifest_text(name: Seq<char>) -> Seq<char> {
    "cmake_minimum_required(VERSION 3.10)\nproject("@ + name
        + " VERSION 0.1.0 LANGUAGES C)\n\nset(CMAKE_C_FLAGS \"${CMAKE_C_FLAGS} -Wall -Wextra -Wpedantic\")\nset(CMAKE_C_STANDARD 11)\nset(CMAKE_C_STANDARD_REQUIRED ON)\nset(CMAKE_C_FLAGS \"${CMAKE_C_FLAGS} -std=c${CMAKE_C_STANDARD}\")\n\nfile(GLOB_RECURSE SOURCES \"src/*.c\")\n\nadd_executable("@
        + name + " src/main.c ${SOURCES})\ntarget_include_directories("@ + name
        + " PRIVATE src)\nset_target_properties("@ + name
        + " PROPERTIES\nRUNTIME_OUTPUT_DIRECTORY \"${CMAKE_BINARY_DIR}/bin\"\nARCHIVE_OUTPUT_DIRECTORY \"${CMAKE_BINARY_DIR}/lib\"\nLIBRARY_OUTPUT_DIRECTORY \"${CMAKE_BINARY_DIR}/lib\"\n)"@
}

/// The build manifest of a C++ project.
pub open spec fn cpp_manifest_text(name: Seq<char>) -> Seq<char> {
    "cmake_minimum_required(VERSION 3.10)\nproject("@ + name
        + " VERSION 0.1.0 LANGUAGES CXX)\n\nset(CMAKE_CXX_FLAGS \"${CMAKE_CXX_FLAGS} -Wall -Wextra -Wpedantic\")\nset(CMAKE_CXX_STANDARD 17)\nset(CMAKE_CXX_STANDARD_REQUIRED ON)\nset(CMAKE_CXX_FLAGS \"${CMAKE_CXX_FLAGS} -std=c++${CMAKE_CXX_STANDARD}\")\n\nfile(GLOB_RECURSE SOURCES \"src/*.cpp\")\n\nadd_executable("@
        + name + " ${SOURCES})\ntarget_include_directories("@ + name
        + " PRIVATE src)\nset_target_properties("@ + name
        + " PROPERTIES\nRUNTIME_OUTPUT_DIRECTORY \"${CMAKE_BINARY_DIR}/bin\"\nARCHIVE_OUTPUT_DIRECTORY \"${CMAKE_BINARY_DIR}/lib\"\nLIBRARY_OUTPUT_DIRECTORY \"${CMAKE_BINARY_DIR}/lib\"\n)"@
}

/// Build the C starter source.
pub fn c_source() -> (r: String)
    ensures
        r@ == c_source_text(),
{
    String::from_str(
        "#include <stdio.h>\n\nint main() {\n    printf(\"Hello, world!\\n\");\n    return 0;\n}\n",
    )
}

/// Build the C++ starter source.
pub fn cpp_source() -> (r: String)
    ensures
        r@ == cpp_source_text(),
{
    String::from_str(
        "#include <iostream>\n\nint main() {{\n    std::cout << \"Hello, world!\" << std::endl;\n    return 0;\n}}\n",
    )
}

/// Build the C build manifest for a project name.
pub fn c_manifest(name: &str) -> (r: String)
    ensures
        r@ == c_manifest_text(name@),
{
    let mut r = String::from_str("cmake_minimum_required(VERSION 3.10)\nproject(");
    r.append(name);
    r.append(
        " VERSION 0.1.0 LANGUAGES C)\n\nset(CMAKE_C_FLAGS \"${CMAKE_C_FLAGS} -Wall -Wextra -Wpedantic\")\nset(CMAKE_C_STANDARD 11)\nset(CMAKE_C_STANDARD_REQUIRED ON)\nset(CMAKE_C_FLAGS \"${CMAKE_C_FLAGS} -std=c${CMAKE_C_STANDARD}\")\n\nfile(GLOB_RECURSE SOURCES \"src/*.c\")\n\nadd_executable(",
    );
    r.append(name);
    r.append(" src/main.c ${SOURCES})\ntarget_include_directories(");
    r.append(name);
    r.append(" PRIVATE src)\nset_target_properties(");
    r.append(name);
    r.append(
        " PROPERTIES\nRUNTIME_OUTPUT_DIRECTORY \"${CMAKE_BINARY_DIR}/bin\"\nARCHIVE_OUTPUT_DIRECTORY \"${CMAKE_BINARY_DIR}/lib\"\nLIBRARY_OUTPUT_DIRECTORY \"${CMAKE_BINARY_DIR}/lib\"\n)",
    );
    r
}

/// Build the C++ build manifest for a project name.
pub fn cpp_manifest(name: &str) -> (r: String)
    ensures
        r@ == cpp_manifest_text(name@),
{
    let mut r = String::from_str("cmake_minimum_required(VERSION 3.10)\nproject(");
    r.append(name);
    r.append(
        " VERSION 0.1.0 LANGUAGES CXX)\n\nset(CMAKE_CXX_FLAGS \"${CMAKE_CXX_FLAGS} -Wall -Wextra -Wpedantic\")\nset(CMAKE_CXX_STANDARD 17)\nset(CMAKE_CXX_STANDARD_REQUIRED ON)\nset(CMAKE_CXX_FLAGS \"${CMAKE_CXX_FLAGS} -std=c++${CMAKE_CXX_STANDARD}\")\n\nfile(GLOB_RECURSE SOURCES \"src/*.cpp\")\n\nadd_executable(",
    );
    r.append(name);
    r.append(" ${SOURCES})\ntarget_include_directories(");
    r.append(name);
    r.append(" PRIVATE src)\nset_target_properties(");
    r.append(name);
    r.append(
        " PROPERTIES\nRUNTIME_OUTPUT_DIRECTORY \"${CMAKE_BINARY_DIR}/bin\"\nARCHIVE_OUTPUT_DIRECTORY \"${CMAKE_BINARY_DIR}/lib\"\nLIBRARY_OUTPUT_DIRECTORY \"${CMAKE_BINARY_DIR}/lib\"\n)",
    );
    r
}

/// One starter file: where it goes, relative to the project root, and what
/// it holds.
pub struct FileSpec {
    pub path: String,
    pub contents: String,
}

/// Everything a scaffold request decides before the file system is touched:
/// the directory to create (none when the current directory is reused), the
/// subdirectories and files to create inside it, and whether project
/// initialisation is delegated to the external toolchain instead.
pub struct ScaffoldPlan {
    pub root: Option<String>,
    pub subdirs: Vec<String>,
    pub files: Vec<FileSpec>,
    pub run_cargo_init: bool,
}

/// What a correct plan for a given name and language looks like.
pub open spec fn plan_matches(plan: ScaffoldPlan, name: Seq<char>, lang: Language) -> bool {
    &&& (name == "."@ <==> plan.root is None)
    &&& (plan.root matches Some(p) ==> p@ == "Dev/"@ + name)
    &&& match lang {
        Language::Rust => {
            &&& plan.subdirs@.len() == 0
            &&& plan.files@.len() == 0
            &&& plan.run_cargo_init
        },
        Language::C => {
            &&& !plan.run_cargo_init
            &&& plan.subdirs@.len() == 1 && plan.subdirs@[0]@ == "src"@
            &&& plan.files@.len() == 2
            &&& plan.files@[0].path@ == "src/main.c"@
            &&& plan.files@[0].contents@ == c_source_text()
            &&& plan.files@[1].path@ == "CMakeLists.txt"@
            &&& plan.files@[1].contents@ == c_manifest_text(name)
        },
        Language::Cpp => {
            &&& !plan.run_cargo_init
            &&& plan.subdirs@.len() == 1 && plan.subdirs@[0]@ == "src"@
            &&& plan.files@.len() == 2
            &&& plan.files@[0].path@ == "src/main.cpp"@
            &&& plan.files@[0].contents@ == cpp_source_text()
            &&& plan.files@[1].path@ == "CMakeLists.txt"@
            &&& plan.files@[1].contents@ == cpp_manifest_text(name)
        },
    }
}

/// Decide a scaffold request. The language identifier must be known and the
/// target must not already exist — except that the name `.` reuses the
/// current directory, existing or not. On success the returned plan says
/// exactly what to create; nothing has been created yet.
pub fn scaffold_plan(name: &str, language: &str, target_exists: bool) -> (r: Result<
    ScaffoldPlan,
    ScaffoldError,
>)
    ensures
        target_exists && name@ != "."@ ==> r == Err::<ScaffoldPlan, ScaffoldError>(
            ScaffoldError::DirectoryExists,
        ),
        (!target_exists || name@ == "."@) && spec_parse_language(language@) is None ==> r == Err::<
            ScaffoldPlan,
            ScaffoldError,
        >(ScaffoldError::UnsupportedLanguage),
        (!target_exists || name@ == "."@) && spec_parse_language(language@) is Some ==> (r matches
            Ok(plan) && plan_matches(plan, name@, spec_parse_language(language@)->Some_0)),
{
    let use_current = str_eq(name, ".");
    if target_exists && !use_current {
        return Err(ScaffoldError::DirectoryExists);
    }
    let lang = match parse_language(language) {
        Some(l) => l,
        None => {
            return Err(ScaffoldError::UnsupportedLanguage);
        },
    };
    let root = if use_current {
        None
    } else {
        let mut p = String::from_str("Dev/");
        p.append(name);
        Some(p)
    };
    match lang {
        Language::Rust => Ok(
            ScaffoldPlan { root, subdirs: Vec::new(), files: Vec::new(), run_cargo_init: true },
        ),
        Language::C => {
            let mut subdirs: Vec<String> = Vec::new();
            subdirs.push(String::from_str("src"));
            let mut files: Vec<FileSpec> = Vec::new();
            files.push(FileSpec { path: String::from_str("src/main.c"), contents: c_source() });
            files.push(
                FileSpec { path: String::from_str("CMakeLists.txt"), contents: c_manifest(name) },
            );
            Ok(ScaffoldPlan { root, subdirs, files, run_cargo_init: false })
        },
        Language::Cpp => {
            let mut subdirs: Vec<String> = Vec::new();
            subdirs.push(String::from_str("src"));
            let mut files: Vec<FileSpec> = Vec::new();
            files.push(FileSpec { path: String::from_str("src/main.cpp"), contents: cpp_source() });
            files.push(
                FileSpec { path: String::from_str("CMakeLists.txt"), contents: cpp_manifest(name) },
            );
            Ok(ScaffoldPlan { root, subdirs, files, run_cargo_init: false })
        },
    }
}

/// The error line reported when a scaffold request is refused.
pub open spec fn spec_scaffold_error_message(
    e: ScaffoldError,
    path: Seq<char>,
    language: Seq<char>,
) -> Seq<char> {
    match e {
        ScaffoldError::DirectoryExists => "Project directory already exists: "@ + path,
        ScaffoldError::UnsupportedLanguage => "Language not supported: "@ + language,
    }
}

/// Build the error line for a refused scaffold request.
pub fn scaffold_error_message(e: ScaffoldError, path: &str, language: &str) -> (r: String)
    ensures
        r@ == spec_scaffold_error_message(e, path@, language@),
{
    match e {
        ScaffoldError::DirectoryExists => {
            let mut m = String::from_str("Project directory already exists: ");
            m.append(path);
            m
        },
        ScaffoldError::UnsupportedLanguage => {
            let mut m = String::from_str("Language not supported: ");
            m.append(language);
            m
        },
    }
}

/// The line printed after a successful scaffold.
pub open spec fn spec_created_message(path: Seq<char>) -> Seq<char> {
    "Created project at: "@ + path
}

/// Build the line printed after a successful scaffold.
pub fn created_message(path: &str) -> (r: String)
    ensures
        r@ == spec_created_message(path@),
{
    let mut m = String::from_str("Created project at: ");
    m.append(path);
    m
}

} // verus!
