use vstd::prelude::*;

use crate::error::OgreError;
use crate::text::{chars_to_string, push_str};

verus! {

/// The names of the project templates.
pub fn list_templates() -> (r: Vec<&'static str>)
    ensures
        r@.len() == 4,
        r@[0]@ == "basic"@,
        r@[1]@ == "game"@,
        r@[2]@ == "library"@,
        r@[3]@ == "converter"@,
{
    vec!["basic", "game", "library", "converter"]
}

/// The manifest of a new project.
pub open spec fn manifest_text(name: Seq<char>, description: Seq<char>, includes: Seq<char>) -> Seq<char> {
    "[project]\nname = \""@ + name + "\"\nversion = \"0.1.0\"\ndescription = \""@ + description + "\"\nauthor = \"\"\nentry = \"src/main.bf\"\n\n[build]\ninclude = ["@ + includes + "]\n\n[[tests]]\nname = \"Basic\"\nfile = \"tests/basic.json\"\n"@
}

/// The files of a new project from a template, as paths relative to the
/// project directory and their contents; `None` for an unknown template.
pub open spec fn template_spec(template: Seq<char>, name: Seq<char>, with_std: bool) -> Option<Seq<(Seq<char>, Seq<char>)>> {
    if template == "basic"@ {
        Some(seq![
            ("ogre.toml"@, manifest_text(name, ""@, "\"src/\""@)),
            ("src/main.bf"@, if with_std { "@import \"std/io.bf\"\n\n@fn main {\n    @call print_newline\n}\n\n@call main\n"@ } else { "@fn main {\n    \n}\n\n@call main\n"@ }),
            ("tests/basic.json"@, if with_std { "[\n  {\n    \"name\": \"basic\",\n    \"brainfuck\": \"src/main.bf\",\n    \"input\": \"\",\n    \"output\": \"\\n\"\n  }\n]\n"@ } else { "[\n  {\n    \"name\": \"basic\",\n    \"brainfuck\": \"src/main.bf\",\n    \"input\": \"\",\n    \"output\": \"\"\n  }\n]\n"@ }),
        ])
    } else if template == "game"@ {
        Some(seq![
            ("ogre.toml"@, manifest_text(name, "An interactive brainfuck game"@, "\"src/\""@)),
            ("src/main.bf"@, "@import \"std/io.bf\"\n@import \"std/ascii.bf\"\n@import \"std/math.bf\"\n\n@doc Main game loop: reads input and responds\n@fn game_loop {\n    @call print_newline\n    ,                    read a character\n    [                    loop while input is not zero\n        .                echo the character\n        @call print_newline\n        ,                read next character\n    ]\n}\n\n@call game_loop\n"@),
            ("tests/basic.json"@, "[\n  {\n    \"name\": \"echo single char\",\n    \"brainfuck\": \"src/main.bf\",\n    \"input\": \"A\\0\",\n    \"output\": \"\\nA\\n\"\n  }\n]\n"@),
        ])
    } else if template == "library"@ {
        Some(seq![
            ("ogre.toml"@, manifest_text(name, "A reusable brainfunct library"@, "\"src/\""@)),
            ("src/main.bf"@, "@doc Add two to the current cell.\n@fn "@ + name + "_add2 {\n    ++\n}\n\n@doc Double the current cell value using a temp cell.\n@fn "@ + name + "_double {\n    [->++<]>[-<+>]<\n}\n\nTest the library functions:\n+++++          set cell 0 to 5\n@call "@ + name + "_double   cell 0 is now 10\n@call "@ + name + "_add2     cell 0 is now 12\n"@),
            ("tests/basic.json"@, "[\n  {\n    \"name\": \"double and add\",\n    \"brainfuck\": \"src/main.bf\",\n    \"input\": \"\",\n    \"output\": \"\",\n    \"output_regex\": \".*\"\n  }\n]\n"@),
        ])
    } else if template == "converter"@ {
        Some(seq![
            ("ogre.toml"@, manifest_text(name, "A CLI text converter tool"@, "\"src/\", \"lib/\""@)),
            ("src/main.bf"@, "@import \"std/io.bf\"\n@import \"std/ascii.bf\"\n@import \"std/math.bf\"\n@import \"lib/transform.bf\"\n\n@doc Read characters and transform each one, printing the result.\n@fn process {\n    ,\n    [\n        @call transform\n        .\n        [-]\n        ,\n    ]\n}\n\n@call process\n"@),
            ("lib/transform.bf"@, "@import \"std/ascii.bf\"\n\n@doc Transform a character (default: convert to uppercase).\n@fn transform {\n    @call to_upper\n}\n"@),
            ("tests/basic.json"@, "[\n  {\n    \"name\": \"uppercase conversion\",\n    \"brainfuck\": \"src/main.bf\",\n    \"input\": \"hello\",\n    \"output\": \"HELLO\"\n  }\n]\n"@),
        ])
    } else {
        None
    }
}

/// The message for a template that does not exist.
pub open spec fn unknown_template_message(template: Seq<char>) -> Seq<char> {
    "unknown template '"@ + template + "'. Available: basic, game, library, converter"@
}

/// The values of a list of files.
pub open spec fn files_of(v: Seq<(String, String)>) -> Seq<(Seq<char>, Seq<char>)> {
    v.map_values(|f: (String, String)| (f.0@, f.1@))
}

fn manifest(name: &str, description: &str, includes: &str) -> (s: String)
    ensures
        s@ == manifest_text(name@, description@, includes@),
{
    let mut v: Vec<char> = Vec::new();
    push_str(&mut v, "[project]\nname = \"");
    push_str(&mut v, name);
    push_str(&mut v, "\"\nversion = \"0.1.0\"\ndescription = \"");
    push_str(&mut v, description);
    push_str(&mut v, "\"\nauthor = \"\"\nentry = \"src/main.bf\"\n\n[build]\ninclude = [");
    push_str(&mut v, includes);
    push_str(&mut v, "]\n\n[[tests]]\nname = \"Basic\"\nfile = \"tests/basic.json\"\n");
    chars_to_string(&v)
}

fn file(path: &str, contents: String) -> (f: (String, String))
    ensures
        f.0@ == path@,
        f.1@ == contents@,
{
    (String::from_str(path), contents)
}

/// The files of a new project made from `template`: its manifest, its
/// program and its test suite, with their paths relative to the project.
pub fn template_files(template: &str, name: &str, with_std: bool) -> (r: Result<Vec<(String, String)>, OgreError>)
    ensures
        match template_spec(template@, name@, with_std) {
            Some(fs) => r is Ok && files_of(r->Ok_0@) == fs,
            None => r == Err::<Vec<(String, String)>, OgreError>(OgreError::Other(r->Err_0->Other_0))
                && r->Err_0->Other_0@ == unknown_template_message(template@),
        },
{
    let mut files: Vec<(String, String)> = Vec::new();
    let t = String::from_str(template);
    if t == String::from_str("basic") {
        files.push(file("ogre.toml", manifest(name, "", "\"src/\"")));
        if with_std {
            files.push(file("src/main.bf", String::from_str("@import \"std/io.bf\"\n\n@fn main {\n    @call print_newline\n}\n\n@call main\n")));
            files.push(file("tests/basic.json", String::from_str("[\n  {\n    \"name\": \"basic\",\n    \"brainfuck\": \"src/main.bf\",\n    \"input\": \"\",\n    \"output\": \"\\n\"\n  }\n]\n")));
        } else {
            files.push(file("src/main.bf", String::from_str("@fn main {\n    \n}\n\n@call main\n")));
            files.push(file("tests/basic.json", String::from_str("[\n  {\n    \"name\": \"basic\",\n    \"brainfuck\": \"src/main.bf\",\n    \"input\": \"\",\n    \"output\": \"\"\n  }\n]\n")));
        }
    } else if t == String::from_str("game") {
        files.push(file("ogre.toml", manifest(name, "An interactive brainfuck game", "\"src/\"")));
        files.push(file("src/main.bf", String::from_str("@import \"std/io.bf\"\n@import \"std/ascii.bf\"\n@import \"std/math.bf\"\n\n@doc Main game loop: reads input and responds\n@fn game_loop {\n    @call print_newline\n    ,                    read a character\n    [                    loop while input is not zero\n        .                echo the character\n        @call print_newline\n        ,                read next character\n    ]\n}\n\n@call game_loop\n")));
        files.push(file("tests/basic.json", String::from_str("[\n  {\n    \"name\": \"echo single char\",\n    \"brainfuck\": \"src/main.bf\",\n    \"input\": \"A\\0\",\n    \"output\": \"\\nA\\n\"\n  }\n]\n")));
    } else if t == String::from_str("library") {
        files.push(file("ogre.toml", manifest(name, "A reusable brainfunct library", "\"src/\"")));
        let mut lib: Vec<char> = Vec::new();
        push_str(&mut lib, "@doc Add two to the current cell.\n@fn ");
        push_str(&mut lib, name);
        push_str(&mut lib, "_add2 {\n    ++\n}\n\n@doc Double the current cell value using a temp cell.\n@fn ");
        push_str(&mut lib, name);
        push_str(&mut lib, "_double {\n    [->++<]>[-<+>]<\n}\n\nTest the library functions:\n+++++          set cell 0 to 5\n@call ");
        push_str(&mut lib, name);
        push_str(&mut lib, "_double   cell 0 is now 10\n@call ");
        push_str(&mut lib, name);
        push_str(&mut lib, "_add2     cell 0 is now 12\n");
        files.push(file("src/main.bf", chars_to_string(&lib)));
        files.push(file("tests/basic.json", String::from_str("[\n  {\n    \"name\": \"double and add\",\n    \"brainfuck\": \"src/main.bf\",\n    \"input\": \"\",\n    \"output\": \"\",\n    \"output_regex\": \".*\"\n  }\n]\n")));
    } else if t == String::from_str("converter") {
        files.push(file("ogre.toml", manifest(name, "A CLI text converter tool", "\"src/\", \"lib/\"")));
        files.push(file("src/main.bf", String::from_str("@import \"std/io.bf\"\n@import \"std/ascii.bf\"\n@import \"std/math.bf\"\n@import \"lib/transform.bf\"\n\n@doc Read characters and transform each one, printing the result.\n@fn process {\n    ,\n    [\n        @call transform\n        .\n        [-]\n        ,\n    ]\n}\n\n@call process\n")));
        files.push(file("lib/transform.bf", String::from_str("@import \"std/ascii.bf\"\n\n@doc Transform a character (default: convert to uppercase).\n@fn transform {\n    @call to_upper\n}\n")));
        files.push(file("tests/basic.json", String::from_str("[\n  {\n    \"name\": \"uppercase conversion\",\n    \"brainfuck\": \"src/main.bf\",\n    \"input\": \"hello\",\n    \"output\": \"HELLO\"\n  }\n]\n")));
    } else {
        let mut m: Vec<char> = Vec::new();
        push_str(&mut m, "unknown template '");
        push_str(&mut m, template);
        push_str(&mut m, "'. Available: basic, game, library, converter");
        return Err(OgreError::Other(chars_to_string(&m)));
    }
    assert(files_of(files@) =~= template_spec(template@, name@, with_std)->Some_0);
    Ok(files)
}

/// The files that `init` writes into the current directory for a project
/// named after it: those of the basic template.
pub fn init_files(name: &str) -> (r: Vec<(String, String)>)
    ensures
        files_of(r@) == template_spec("basic"@, name@, false)->Some_0,
{
    match template_files("basic", name, false) {
        Ok(f) => f,
        Err(_) => {
            assert(false);
            Vec::new()
        },
    }
}

} // verus!
