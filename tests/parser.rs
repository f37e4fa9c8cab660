use cmake_pm::cmakelists::{
    add_to_function, phrase_cmakelists_file, serialize, CMakeListsFunction, CMakeListsVal,
    ParseError,
};
use cmake_pm::project::{
    add_class_to_manifest, class_file_names, class_source_text, is_manifest_file_name,
    new_project_manifest,
};

fn parse(text: &str) -> (Vec<CMakeListsVal>, Result<(), ParseError>) {
    let mut vals = Vec::new();
    let outcome = phrase_cmakelists_file(&mut vals, text);
    (vals, outcome)
}

fn statement(function: CMakeListsFunction, values: &[&str]) -> CMakeListsVal {
    CMakeListsVal { function, values: values.iter().map(|s| s.to_string()).collect() }
}

fn shape(vals: &[CMakeListsVal]) -> Vec<(CMakeListsFunction, Vec<String>)> {
    vals.iter().map(|v| (v.function, v.values.clone())).collect()
}

#[test]
fn statement_order_is_kept() {
    let (vals, outcome) = parse("project(p)\ncmake_minimum_required(VERSION 3.30)");
    assert_eq!(outcome, Ok(()));
    assert_eq!(vals.len(), 2);
    assert_eq!(vals[0].function, CMakeListsFunction::Project);
    assert_eq!(vals[0].values, vec!["p".to_string()]);
    assert_eq!(vals[1].function, CMakeListsFunction::CmakeMinimumRequired);
    assert_eq!(vals[1].values, vec!["VERSION".to_string(), "3.30".to_string()]);
}

#[test]
fn empty_argument_list() {
    let (vals, outcome) = parse("project()");
    assert_eq!(outcome, Ok(()));
    assert_eq!(vals.len(), 1);
    assert_eq!(vals[0].function, CMakeListsFunction::Project);
    assert!(vals[0].values.is_empty());
    assert_eq!(serialize(&vals), "project()");
}

#[test]
fn newlines_and_tabs_between_statements() {
    let (a, ra) = parse("project(p)\n\ncmake_minimum_required(VERSION 3.30)");
    let (b, rb) = parse("project(p)\tcmake_minimum_required(VERSION 3.30)");
    assert_eq!(ra, Ok(()));
    assert_eq!(rb, Ok(()));
    assert_eq!(a.len(), 2);
    assert_eq!(shape(&a), shape(&b));
}

#[test]
fn skipped_characters_do_not_split_tokens() {
    let (vals, outcome) = parse("proj\nect(a\r\nb c)");
    assert_eq!(outcome, Ok(()));
    assert_eq!(shape(&vals), vec![(CMakeListsFunction::Project, vec!["ab".to_string(), "c".to_string()])]);
}

#[test]
fn unknown_function_stops_the_parse() {
    let (vals, outcome) = parse("unknownfunc(x)\nproject(p)");
    assert!(vals.is_empty());
    assert_eq!(outcome, Err(ParseError::UnknownFunction(11)));
}

#[test]
fn unknown_function_keeps_earlier_statements() {
    let (vals, outcome) = parse("project(p)\nProject(q)\nadd_executable(a b)");
    assert_eq!(shape(&vals), vec![(CMakeListsFunction::Project, vec!["p".to_string()])]);
    assert_eq!(outcome, Err(ParseError::UnknownFunction(18)));
}

#[test]
fn unmatched_close_stops_the_parse() {
    let (vals, outcome) = parse("project(p))");
    assert_eq!(shape(&vals), vec![(CMakeListsFunction::Project, vec!["p".to_string()])]);
    assert_eq!(outcome, Err(ParseError::UnmatchedClose(10)));
}

#[test]
fn unmatched_close_before_anything() {
    let (vals, outcome) = parse(")project(p)");
    assert!(vals.is_empty());
    assert_eq!(outcome, Err(ParseError::UnmatchedClose(0)));
}

#[test]
fn empty_text_parses_to_nothing() {
    let (vals, outcome) = parse("");
    assert!(vals.is_empty());
    assert_eq!(outcome, Ok(()));
    assert_eq!(serialize(&vals), "");
}

#[test]
fn repeated_spaces_give_no_empty_tokens() {
    let (vals, outcome) = parse("add_executable(  app   main.cpp  )");
    assert_eq!(outcome, Ok(()));
    assert_eq!(
        shape(&vals),
        vec![(CMakeListsFunction::AddExecutable, vec!["app".to_string(), "main.cpp".to_string()])]
    );
}

#[test]
fn parse_appends_to_existing_statements() {
    let mut vals = vec![statement(CMakeListsFunction::Project, &["x"])];
    let outcome = phrase_cmakelists_file(&mut vals, "project(y)");
    assert_eq!(outcome, Ok(()));
    assert_eq!(vals.len(), 2);
    assert_eq!(vals[1].values, vec!["y".to_string()]);
}

#[test]
fn adding_sources_to_the_executable() {
    let (mut vals, outcome) = parse("add_executable(app main.cpp)");
    assert_eq!(outcome, Ok(()));
    let extra = vec!["foo.cpp".to_string(), "foo.h".to_string()];
    add_to_function(&mut vals, CMakeListsFunction::AddExecutable, &extra);
    assert_eq!(serialize(&vals), "add_executable(app main.cpp foo.cpp foo.h)");
}

#[test]
fn adding_without_a_matching_statement_changes_nothing() {
    let (mut vals, _) = parse("project(p)");
    let extra = vec!["foo.cpp".to_string()];
    add_to_function(&mut vals, CMakeListsFunction::AddExecutable, &extra);
    assert_eq!(serialize(&vals), "project(p)");
}

#[test]
fn serialize_then_parse_gives_the_statements_back() {
    let vals = vec![
        statement(CMakeListsFunction::CmakeMinimumRequired, &["VERSION", "3.30"]),
        statement(CMakeListsFunction::Project, &[]),
        statement(CMakeListsFunction::AddExecutable, &["app", "main.cpp", "x.h"]),
    ];
    let text = serialize(&vals);
    assert_eq!(text, "cmake_minimum_required(VERSION 3.30)\nproject()\nadd_executable(app main.cpp x.h)");
    let (back, outcome) = parse(&text);
    assert_eq!(outcome, Ok(()));
    assert_eq!(shape(&back), shape(&vals));
}

#[test]
fn statement_text() {
    let v = statement(CMakeListsFunction::Project, &["a", "b"]);
    assert_eq!(v.to_text(), "project(a b)");
}

#[test]
fn function_names() {
    assert_eq!(CMakeListsFunction::CmakeMinimumRequired.name(), "cmake_minimum_required");
    assert_eq!(CMakeListsFunction::Project.name(), "project");
    assert_eq!(CMakeListsFunction::AddExecutable.name(), "add_executable");
    assert_eq!(CMakeListsFunction::from_name("project"), Some(CMakeListsFunction::Project));
    assert_eq!(
        CMakeListsFunction::from_name("add_executable"),
        Some(CMakeListsFunction::AddExecutable)
    );
    assert_eq!(CMakeListsFunction::from_name("PROJECT"), None);
    assert_eq!(CMakeListsFunction::from_name(""), None);
}

#[test]
fn new_and_clear() {
    let mut v = CMakeListsVal::new();
    assert_eq!(v.function, CMakeListsFunction::Unset);
    assert!(v.values.is_empty());
    v.function = CMakeListsFunction::Project;
    v.values.push("p".to_string());
    v.clear();
    assert_eq!(v.function, CMakeListsFunction::Unset);
    assert!(v.values.is_empty());
}

#[test]
fn new_project_manifest_text() {
    assert_eq!(
        new_project_manifest("demo"),
        "cmake_minimum_required(VERSION 3.30)\nproject(demo)\nadd_executable(demo main.cpp)"
    );
}

#[test]
fn class_files() {
    let (source, header) = class_file_names("Foo");
    assert_eq!(source, "Foo.cpp");
    assert_eq!(header, "Foo.h");
    assert_eq!(class_source_text("Foo"), "#include \"Foo.h\"");
}

#[test]
fn manifest_file_name() {
    assert!(is_manifest_file_name("CMakeLists.txt"));
    assert!(!is_manifest_file_name("cmakelists.txt"));
    assert!(!is_manifest_file_name("CMakeLists.txt.bak"));
}

#[test]
fn add_class_to_a_manifest() {
    let (text, outcome) = add_class_to_manifest(
        "cmake_minimum_required(VERSION 3.30)\nproject(demo)\nadd_executable(demo main.cpp)\n",
        "Foo",
    );
    assert_eq!(outcome, Ok(()));
    assert_eq!(
        text,
        "cmake_minimum_required(VERSION 3.30)\nproject(demo)\nadd_executable(demo main.cpp Foo.cpp Foo.h)"
    );
}

#[test]
fn add_class_to_a_broken_manifest() {
    let (text, outcome) = add_class_to_manifest("add_executable(a b)\nbad(x)", "Foo");
    assert_eq!(outcome, Err(ParseError::UnknownFunction(23)));
    assert_eq!(text, "add_executable(a b Foo.cpp Foo.h)");
}
