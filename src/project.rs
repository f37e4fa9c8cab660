use vstd::prelude::*;
use vstd::string::*;
use crate::cmakelists::{
    add_to_function, models, phrase_cmakelists_file, render_document, same_chars, scan,
    scan_result, serialize, texts, with_values_added, CMakeListsFunction, CMakeListsVal,
    ParseError, ValModel,
};

verus! {

/// The CMake version that new projects ask for.
pub const CMAKE_VERSION: &'static str = "3.30";

/// True when a file name is the manifest's own, `CMakeLists.txt`.
pub fn is_manifest_file_name(name: &str) -> (r: bool)
    ensures
        r == (name@ == "CMakeLists.txt"@),
{
    same_chars(name, "CMakeLists.txt")
}

/// The statements of a new project's manifest.
pub open spec fn new_project_model(project_name: Seq<char>) -> Seq<ValModel> {
    seq![
        ValModel {
            function: CMakeListsFunction::CmakeMinimumRequired,
            values: seq!["VERSION"@, "3.30"@],
        },
        ValModel { function: CMakeListsFunction::Project, values: seq![project_name] },
        ValModel {
            function: CMakeListsFunction::AddExecutable,
            values: seq![project_name, "main.cpp"@],
        },
    ]
}

/// The manifest of a new project: the minimum CMake version, the project
/// and one executable built from `main.cpp`.
pub fn new_project_manifest(project_name: &str) -> (r: String)
    ensures
        r@ == render_document(new_project_model(project_name@)),
{
    let mut version = Vec::new();
    version.push(String::from_str("VERSION"));
    version.push(String::from_str(CMAKE_VERSION));
    let mut project = Vec::new();
    project.push(String::from_str(project_name));
    let mut executable = Vec::new();
    executable.push(String::from_str(project_name));
    executable.push(String::from_str("main.cpp"));
    let mut vals = Vec::new();
    vals.push(CMakeListsVal { function: CMakeListsFunction::CmakeMinimumRequired, values: version });
    vals.push(CMakeListsVal { function: CMakeListsFunction::Project, values: project });
    vals.push(CMakeListsVal { function: CMakeListsFunction::AddExecutable, values: executable });
    assert(vals@[0]@.values =~= seq!["VERSION"@, "3.30"@]);
    assert(vals@[1]@.values =~= seq![project_name@]);
    assert(vals@[2]@.values =~= seq![project_name@, "main.cpp"@]);
    assert(models(vals@) =~= new_project_model(project_name@));
    serialize(&vals)
}

/// The source and header file names of a new class.
pub fn class_file_names(class_name: &str) -> (r: (String, String))
    ensures
        r.0@ == class_name@ + ".cpp"@,
        r.1@ == class_name@ + ".h"@,
{
    let source = String::from_str(class_name).concat(".cpp");
    let header = String::from_str(class_name).concat(".h");
    (source, header)
}

/// The first contents of a new class's source file: it includes its header.
pub fn class_source_text(class_name: &str) -> (r: String)
    ensures
        r@ == "#include \""@ + class_name@ + ".h\""@,
{
    String::from_str("#include \"").concat(class_name).concat(".h\"")
}

/// The manifest `text` with a new class's source and header added to every
/// executable, as new text, and whether `text` parsed to its end. When it
/// did not, the new text holds only the statements before the fault.
pub fn add_class_to_manifest(text: &str, class_name: &str) -> (r: (String, Result<(), ParseError>))
    ensures
        r.0@ == render_document(
            with_values_added(
                scan(text@).done,
                CMakeListsFunction::AddExecutable,
                seq![class_name@ + ".cpp"@, class_name@ + ".h"@],
            ),
        ),
        r.1 == scan_result(text@),
{
    let mut vals: Vec<CMakeListsVal> = Vec::new();
    let outcome = phrase_cmakelists_file(&mut vals, text);
    let (source, header) = class_file_names(class_name);
    let mut extra = Vec::new();
    extra.push(source);
    extra.push(header);
    assert(models(Seq::<CMakeListsVal>::empty()) + scan(text@).done =~= scan(text@).done);
    assert(texts(extra@) =~= seq![class_name@ + ".cpp"@, class_name@ + ".h"@]);
    add_to_function(&mut vals, CMakeListsFunction::AddExecutable, &extra);
    (serialize(&vals), outcome)
}

} // verus!
