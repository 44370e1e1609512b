use vstd::prelude::*;

use super::preprocess::{
    docs_spec, files_view, get_stdlib_module, lemma_tbl_find_keys, std_names, std_text, stdlib_modules, strs, tbl_get,
    tbl_keys, trim, trimmed, FnTable, Preprocessor, SourceFile,
};
use crate::error::{Fail, OgreError};
use crate::order::{sort_strings, sorted_texts, sorted_texts_of, texts};
use crate::text::{chars_to_string, decimal, push_chars, push_str, push_usize, str_to_chars};

verus! {

/// The documentation of one function: a heading, its `@doc` text if it has
/// one, and its trimmed body as a code block (or a note that it is empty,
/// when `note` is set).
pub open spec fn section_text(
    head: Seq<char>,
    name: Seq<char>,
    fns: Seq<(Seq<char>, Seq<char>)>,
    docs: Seq<(Seq<char>, Seq<char>)>,
    note: bool,
) -> Seq<char> {
    let body = trim(tbl_get(fns, name)->Some_0);
    head + "`@fn "@ + name + "`\n\n"@ + (match tbl_get(docs, name) {
        Some(d) => d + "\n\n"@,
        None => Seq::empty(),
    }) + (if body.len() > 0 {
        "```brainfuck\n"@ + body + "\n```\n\n"@
    } else if note {
        "*(empty body)*\n\n"@
    } else {
        Seq::empty()
    })
}

/// The documentation of the named functions, in order.
pub open spec fn sections_text(
    head: Seq<char>,
    names: Seq<Seq<char>>,
    fns: Seq<(Seq<char>, Seq<char>)>,
    docs: Seq<(Seq<char>, Seq<char>)>,
    note: bool,
) -> Seq<char>
    decreases names.len(),
{
    if names.len() == 0 {
        Seq::empty()
    } else {
        sections_text(head, names.drop_last(), fns, docs, note) + section_text(head, names.last(), fns, docs, note)
    }
}

/// The documentation of a file: its name, then its functions in
/// alphabetical order.
pub open spec fn file_docs_text(
    filename: Seq<char>,
    fns: Seq<(Seq<char>, Seq<char>)>,
    docs: Seq<(Seq<char>, Seq<char>)>,
) -> Seq<char> {
    "# "@ + filename + "\n\n"@ + if fns.len() == 0 {
        "No functions defined.\n"@
    } else {
        decimal(fns.len()) + " function(s) defined:\n\n"@ + sections_text(
            "## "@,
            sorted_texts(tbl_keys(fns)),
            fns,
            docs,
            true,
        )
    }
}

/// The documentation of a standard library module.
pub open spec fn std_module_docs(name: Seq<char>) -> Result<Seq<char>, Fail> {
    match docs_spec(Seq::empty(), std_text(name)->Some_0, "."@) {
        Err(x) => Err(x),
        Ok((_, f, d)) => Ok(
            "## std/"@ + name + "\n\n"@ + sections_text("### "@, sorted_texts(tbl_keys(f)), f, d, false) + if f.len()
                == 0 {
                "No functions defined.\n\n"@
            } else {
                Seq::empty()
            },
        ),
    }
}

/// The reference of the first `n` standard library modules.
pub open spec fn std_docs_upto(n: nat) -> Result<Seq<char>, Fail>
    decreases n,
{
    if n == 0 {
        Ok("# ogre Standard Library Reference\n\n"@)
    } else {
        match std_docs_upto((n - 1) as nat) {
            Err(x) => Err(x),
            Ok(prev) => match std_module_docs(std_names()[n - 1]) {
                Err(x) => Err(x),
                Ok(t) => Ok(prev + t),
            },
        }
    }
}

proof fn lemma_std_docs_err(n: nat, m: nat)
    requires
        n <= m,
        std_docs_upto(n) is Err,
    ensures
        std_docs_upto(m) == std_docs_upto(n),
    decreases m,
{
    if m > n {
        lemma_std_docs_err(n, (m - 1) as nat);
    }
}

fn push_section(
    out: &mut Vec<char>,
    head: &str,
    name: &String,
    fns: &FnTable,
    docs: &FnTable,
    note: bool,
)
    requires
        tbl_keys(fns@).contains(name@),
    ensures
        final(out)@ == old(out)@ + section_text(head@, name@, fns@, docs@, note),
{
    proof {
        lemma_tbl_find_keys(fns@, name@);
    }
    push_str(out, head);
    push_str(out, "`@fn ");
    push_str(out, name.as_str());
    push_str(out, "`\n\n");
    match docs.get(name.as_str()) {
        Some(d) => {
            push_str(out, d.as_str());
            push_str(out, "\n\n");
        },
        None => {},
    }
    let body = match fns.get(name.as_str()) {
        Some(b) => trimmed(&str_to_chars(b.as_str())),
        None => Vec::new(),
    };
    if body.len() > 0 {
        push_str(out, "```brainfuck\n");
        push_chars(out, &body);
        push_str(out, "\n```\n\n");
    } else if note {
        push_str(out, "*(empty body)*\n\n");
    }
    assert(out@ =~= old(out)@ + section_text(head@, name@, fns@, docs@, note));
}

fn push_sections(out: &mut Vec<char>, head: &str, fns: &FnTable, docs: &FnTable, note: bool)
    requires
        fns.wf(),
    ensures
        final(out)@ == old(out)@ + sections_text(head@, sorted_texts(tbl_keys(fns@)), fns@, docs@, note),
{
    let keys = fns.keys();
    assert(texts(keys@) =~= strs(keys@));
    let names = sort_strings(&keys);
    let ghost sorted = texts(names@);
    let ghost base = out@;
    let mut k: usize = 0;
    while k < names.len()
        invariant
            k <= names@.len(),
            sorted == texts(names@),
            sorted_texts_of(sorted, tbl_keys(fns@)),
            sorted == sorted_texts(tbl_keys(fns@)),
            out@ == base + sections_text(head@, sorted.take(k as int), fns@, docs@, note),
        decreases names@.len() - k,
    {
        assert(sorted[k as int] == names@[k as int]@);
        assert(sorted.contains(sorted[k as int]));
        push_section(out, head, &names[k], fns, docs, note);
        assert(sorted.take(k + 1).drop_last() =~= sorted.take(k as int));
        k += 1;
    }
    assert(sorted.take(k as int) =~= sorted);
}

/// The documentation of a file whose functions and `@doc` texts are known.
pub fn render_file_docs(filename: &str, fns: &FnTable, docs: &FnTable) -> (s: String)
    requires
        fns.wf(),
    ensures
        s@ == file_docs_text(filename@, fns@, docs@),
{
    let mut out: Vec<char> = Vec::new();
    push_str(&mut out, "# ");
    push_str(&mut out, filename);
    push_str(&mut out, "\n\n");
    if fns.len() == 0 {
        push_str(&mut out, "No functions defined.\n");
    } else {
        push_usize(&mut out, fns.len());
        push_str(&mut out, " function(s) defined:\n\n");
        push_sections(&mut out, "## ", fns, docs, true);
    }
    assert(out@ =~= file_docs_text(filename@, fns@, docs@));
    chars_to_string(&out)
}

/// Generate the documentation of a program: its `@fn` definitions with their
/// `@doc` texts, under the file's name. `files` are the files its imports
/// name, read by the caller.
pub fn generate_docs_from_source(filename: &str, source: &str, base_dir: &str, files: &[SourceFile]) -> (r: Result<
    String,
    OgreError,
>)
    ensures
        match docs_spec(files_view(files@), source@, base_dir@) {
            Ok((_, f, d)) => r is Ok && r->Ok_0@ == file_docs_text(filename@, f, d),
            Err(x) => r is Err && r->Err_0@ == x,
        },
{
    match Preprocessor::process_source_with_docs(source, base_dir, files) {
        Ok((_, fns, docs)) => Ok(render_file_docs(filename, &fns, &docs)),
        Err(e) => Err(e),
    }
}

/// Generate the reference of the standard library: each module's functions
/// with their `@doc` texts.
pub fn generate_stdlib_docs() -> (r: Result<String, OgreError>)
    ensures
        match std_docs_upto(std_names().len()) {
            Ok(t) => r is Ok && r->Ok_0@ == t,
            Err(x) => r is Err && r->Err_0@ == x,
        },
{
    let mods = stdlib_modules();
    let no_files: Vec<SourceFile> = Vec::new();
    let mut out: Vec<char> = Vec::new();
    push_str(&mut out, "# ogre Standard Library Reference\n\n");
    let mut k: usize = 0;
    while k < mods.len()
        invariant
            mods@.len() == std_names().len(),
            forall|j: int| 0 <= j < mods@.len() ==> (#[trigger] mods@[j])@ == std_names()[j],
            no_files@.len() == 0,
            k <= mods@.len(),
            std_docs_upto(k as nat) == Ok::<Seq<char>, Fail>(out@),
        decreases mods@.len() - k,
    {
        let name = mods[k];
        assert(name@ == std_names()[k as int]);
        let source = match get_stdlib_module(name) {
            Some(t) => t,
            None => {
                assert(false);
                return Err(OgreError::Other(String::new()));
            },
        };
        assert(files_view(no_files@) =~= Seq::empty());
        let ghost prev = out@;
        match Preprocessor::process_source_with_docs(source, ".", no_files.as_slice()) {
            Err(e) => {
                proof {
                    assert(std_docs_upto((k + 1) as nat) == Err::<Seq<char>, Fail>(e@));
                    lemma_std_docs_err((k + 1) as nat, std_names().len());
                }
                return Err(e);
            },
            Ok((_, fns, docs)) => {
                push_str(&mut out, "## std/");
                push_str(&mut out, name);
                push_str(&mut out, "\n\n");
                push_sections(&mut out, "### ", &fns, &docs, false);
                if fns.len() == 0 {
                    push_str(&mut out, "No functions defined.\n\n");
                }
                proof {
                    let t = std_module_docs(std_names()[k as int])->Ok_0;
                    assert(out@ =~= prev + t);
                }
            },
        }
        k += 1;
    }
    Ok(chars_to_string(&out))
}

} // verus!
