use ogre::error::OgreError;
use ogre::modes::new::{init_files, list_templates, template_files};

#[test]
fn test_list_templates() {
    let templates = list_templates();
    assert!(templates.contains(&"basic"));
    assert!(templates.contains(&"game"));
    assert!(templates.contains(&"library"));
    assert!(templates.contains(&"converter"));
}

fn find<'a>(files: &'a [(String, String)], path: &str) -> &'a str {
    files.iter().find(|(p, _)| p == path).map(|(_, c)| c.as_str()).unwrap()
}

#[test]
fn new_basic_template_files() {
    let files = template_files("basic", "demo", false).unwrap();
    let paths: Vec<&str> = files.iter().map(|(p, _)| p.as_str()).collect();
    assert_eq!(paths, vec!["ogre.toml", "src/main.bf", "tests/basic.json"]);
    let toml = find(&files, "ogre.toml");
    assert!(toml.starts_with("[project]\nname = \"demo\"\nversion = \"0.1.0\"\n"));
    assert!(toml.contains("include = [\"src/\"]"));
    assert_eq!(find(&files, "src/main.bf"), "@fn main {\n    \n}\n\n@call main\n");
    assert!(find(&files, "tests/basic.json").contains("\"output\": \"\""));
}

#[test]
fn new_basic_with_std_imports_io() {
    let files = template_files("basic", "demo", true).unwrap();
    assert!(find(&files, "src/main.bf").contains("@import"));
    assert!(find(&files, "tests/basic.json").contains("\"output\": \"\\n\""));
}

#[test]
fn new_library_uses_project_name() {
    let files = template_files("library", "mylib", false).unwrap();
    let main = find(&files, "src/main.bf");
    assert!(main.contains("@fn mylib_add2 {"));
    assert!(main.contains("@call mylib_double   cell 0 is now 10"));
    assert!(main.contains("@doc"));
}

#[test]
fn new_converter_has_lib() {
    let files = template_files("converter", "conv", false).unwrap();
    assert_eq!(files.len(), 4);
    assert!(find(&files, "lib/transform.bf").contains("@call to_upper"));
    assert!(find(&files, "ogre.toml").contains("include = [\"src/\", \"lib/\"]"));
    let game = template_files("game", "g", false).unwrap();
    assert!(find(&game, "src/main.bf").contains("game_loop"));
}

#[test]
fn new_unknown_template() {
    match template_files("nonexistent", "x", false) {
        Err(OgreError::Other(m)) => {
            assert_eq!(m, "unknown template 'nonexistent'. Available: basic, game, library, converter")
        }
        _ => panic!("expected an error"),
    }
}

#[test]
fn init_files_are_the_basic_template() {

    let files = init_files("here");
    assert_eq!(files, template_files("basic", "here", false).unwrap());
    assert!(find(&files, "ogre.toml").contains("name = \"here\""));
}
