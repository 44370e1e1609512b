use ogre::project::{path_kind, BuildConfig, Dependency, OgreProject, PathKind, ProjectMeta, TestFileRef};

fn project(name: &str, version: &str, entry: &str) -> OgreProject {
    OgreProject {
        project: ProjectMeta {
            name: name.to_string(),
            version: version.to_string(),
            description: None,
            author: None,
            entry: entry.to_string(),
        },
        build: None,
        tests: Vec::new(),
        dependencies: Vec::new(),
    }
}

fn err_text(p: &OgreProject) -> String {
    p.validate().unwrap_err().message()
}

#[test]
fn test_entry_path() {
    let proj = project("x", "0.1.0", "src/main.bf");
    let entry = proj.entry_path("/home/user/myproject");
    assert_eq!(entry, "/home/user/myproject/src/main.bf");
}

#[test]
fn test_validate_empty_name_fails() {
    let proj = project("", "0.1.0", "src/main.bf");
    let err = err_text(&proj);
    assert!(err.contains("name must not be empty"), "got: {}", err);
}

#[test]
fn test_validate_whitespace_name_fails() {
    let proj = project("   ", "0.1.0", "src/main.bf");
    assert!(err_text(&proj).contains("name must not be empty"));
}

#[test]
fn test_validate_entry_not_bf_fails() {
    let proj = project("myproject", "0.1.0", "src/main.txt");
    let err = err_text(&proj);
    assert!(err.contains("must end with .bf"), "got: {}", err);
    assert!(err.contains("\"src/main.txt\""), "got: {}", err);
}

#[test]
fn test_validate_empty_version_fails() {
    let proj = project("myproject", "", "src/main.bf");
    let err = err_text(&proj);
    assert!(err.contains("version must not be empty"), "got: {}", err);
}

#[test]
fn test_validate_test_file_not_json_fails() {
    let mut proj = project("myproject", "0.1.0", "src/main.bf");
    proj.tests.push(TestFileRef { name: Some("Basic".to_string()), file: "tests/basic.txt".to_string() });
    let err = err_text(&proj);
    assert!(err.contains("must end with .json"), "got: {}", err);
    assert!(err.contains("tests[0].file"), "got: {}", err);
}

#[test]
fn test_validate_tape_size_zero_fails() {
    let mut proj = project("myproject", "0.1.0", "src/main.bf");
    proj.build = Some(BuildConfig { paths: vec!["src/".to_string()], tape_size: Some(0) });
    let err = err_text(&proj);
    assert!(err.contains("tape_size must be greater than 0"), "got: {}", err);
}

#[test]
fn test_validate_valid_project_passes() {
    let mut proj = project("myproject", "0.1.0", "src/main.bf");
    proj.project.description = Some("A test project".to_string());
    proj.project.author = Some("Alice".to_string());
    proj.build = Some(BuildConfig { paths: vec!["src/".to_string()], tape_size: Some(30000) });
    proj.tests.push(TestFileRef { name: Some("Basic".to_string()), file: "tests/basic.json".to_string() });
    assert!(proj.validate().is_ok());
}

#[test]
fn test_validate_minimal_valid_project_passes() {
    let proj = project("x", "0.1.0", "main.bf");
    assert!(proj.validate().is_ok());
}

#[test]
fn test_validate_dependency_no_path_or_version() {
    let mut proj = project("myapp", "0.1.0", "src/main.bf");
    proj.dependencies.push(("broken".to_string(), Dependency { path: None, version: None }));
    let err = err_text(&proj);
    assert!(err.contains("path"), "expected 'path' in error: {}", err);
    assert!(err.contains("dependency \"broken\""), "got: {}", err);
}

#[test]
fn test_validate_dependency_with_path_ok() {
    let mut proj = project("myapp", "0.1.0", "src/main.bf");
    proj.dependencies.push(("mylib".to_string(), Dependency { path: Some("../mylib".to_string()), version: None }));
    assert!(proj.validate().is_ok());
}

#[test]
fn test_validate_dependency_with_version_ok() {
    let mut proj = project("myapp", "0.1.0", "src/main.bf");
    proj.dependencies.push(("mylib".to_string(), Dependency { path: None, version: Some("0.1.0".to_string()) }));
    assert!(proj.validate().is_ok());
}

#[test]
fn project_dependency_dirs_and_paths() {
    let mut proj = project("myapp", "0.1.0", "src/main.bf");
    proj.dependencies.push(("a".to_string(), Dependency { path: Some("../a".to_string()), version: None }));
    proj.dependencies.push(("b".to_string(), Dependency { path: None, version: Some("1".to_string()) }));
    let dirs = proj.dependency_dirs("/p");
    assert_eq!(dirs, vec![("a".to_string(), "/p/../a".to_string())]);
    assert_eq!(path_kind("src/*.bf"), PathKind::Glob);
    assert_eq!(path_kind("lib/"), PathKind::Dir);
    assert_eq!(path_kind("main.bf"), PathKind::File);
}

#[test]
fn project_built_message() {
    let mut proj = project("app", "1.2.0", "main.bf");
    assert_eq!(proj.built_message(), "Built app v1.2.0");
    proj.project.description = Some("A tool".to_string());
    assert_eq!(proj.built_message(), "Built app v1.2.0 — A tool");
    proj.project.author = Some("Bo".to_string());
    assert_eq!(proj.built_message(), "Built app v1.2.0 — A tool (by Bo)");
    proj.project.description = Some(String::new());
    assert_eq!(proj.built_message(), "Built app v1.2.0");
}
