//! Planning the run of a code block: which runtime, which files, which commands. The
//! commands themselves run outside the library.

use vstd::prelude::*;
use crate::style::{eq_str, StyleConfig};
use crate::styler::setting;

verus! {

/// A language that code blocks can be run in.
#[derive(Clone, Copy, Debug, PartialEq, Eq, Structural)]
pub enum Language {
    Python,
    JavaScript,
    Ruby,
    C,
    Java,
    Rust,
}

/// The language a code block's tag names.
pub open spec fn language_of(tag: Seq<char>) -> Option<Language> {
    if tag == "python"@ || tag == "py"@ {
        Some(Language::Python)
    } else if tag == "javascript"@ || tag == "js"@ {
        Some(Language::JavaScript)
    } else if tag == "ruby"@ || tag == "rb"@ {
        Some(Language::Ruby)
    } else if tag == "c"@ || tag == "c++"@ || tag == "cpp"@ {
        Some(Language::C)
    } else if tag == "java"@ {
        Some(Language::Java)
    } else if tag == "rust"@ {
        Some(Language::Rust)
    } else {
        None
    }
}

/// The setting that names a language's runtime.
pub open spec fn runtime_key(l: Language) -> Seq<char> {
    match l {
        Language::Python => "python"@,
        Language::JavaScript => "javascript"@,
        Language::Ruby => "ruby"@,
        Language::C => "c"@,
        Language::Java => "java"@,
        Language::Rust => "rust"@,
    }
}

/// The runtime used where none is configured.
pub open spec fn default_runtime(l: Language) -> Seq<char> {
    match l {
        Language::Python => "python3"@,
        Language::JavaScript => "node"@,
        Language::Ruby => "ruby"@,
        Language::C => "gcc"@,
        Language::Java => "java"@,
        Language::Rust => "cargo run"@,
    }
}

/// The file the code is written to.
pub open spec fn source_file(l: Language) -> Seq<char> {
    match l {
        Language::Python => "temp.py"@,
        Language::JavaScript => "temp.js"@,
        Language::Ruby => "temp.rb"@,
        Language::C => "temp.c"@,
        Language::Java => "Main.java"@,
        Language::Rust => "temp.rs"@,
    }
}

/// The arguments the runtime gets.
pub open spec fn runtime_args(l: Language) -> Seq<Seq<char>> {
    match l {
        Language::C => seq!["temp.c"@, "-o"@, "temp"@],
        _ => seq![source_file(l)],
    }
}

/// For compiled languages, the program run after a successful compile, and its arguments.
pub open spec fn compiled_run(l: Language) -> Option<(Seq<char>, Seq<Seq<char>>)> {
    match l {
        Language::C => Some(("./temp"@, Seq::empty())),
        Language::Rust => Some(("./temp"@, Seq::empty())),
        Language::Java => Some(("java"@, seq!["Main"@])),
        _ => None,
    }
}

/// The files removed once the run is over, whether it succeeded or not.
pub open spec fn cleanup_files(l: Language) -> Seq<Seq<char>> {
    match l {
        Language::C => seq!["temp.c"@, "temp"@],
        Language::Rust => seq!["temp.rs"@, "temp"@],
        Language::Java => seq!["Main.java"@, "Main.class"@],
        _ => seq![source_file(l)],
    }
}

/// How to run a code block: write `code` to `source_file`, run `program` with `args`; for a
/// compiled language, where that succeeds run `then_run` and show its output, else show the
/// compiler's errors; remove `cleanup` in either case.
pub struct RunPlan {
    pub language: Language,
    pub code: String,
    pub source_file: String,
    pub program: String,
    pub args: Vec<String>,
    pub then_run: Option<(String, Vec<String>)>,
    pub cleanup: Vec<String>,
}

pub open spec fn strings(v: Seq<String>) -> Seq<Seq<char>> {
    v.map_values(|s: String| s@)
}

/// The plan for code in language `l` with the runtimes that `cfg` configures.
pub open spec fn plan_matches(p: RunPlan, l: Language, code: Seq<char>, cfg: Seq<(Seq<char>, Seq<char>)>) -> bool {
    &&& p.language == l
    &&& p.code@ == code
    &&& p.source_file@ == source_file(l)
    &&& p.program@ == setting(cfg, runtime_key(l), default_runtime(l))
    &&& strings(p.args@) == runtime_args(l)
    &&& match (p.then_run, compiled_run(l)) {
        (Some(t), Some(c)) => t.0@ == c.0 && strings(t.1@) == c.1,
        (None, None) => true,
        _ => false,
    }
    &&& strings(p.cleanup@) == cleanup_files(l)
}

fn language_exec(tag: &String) -> (r: Option<Language>)
    ensures
        r == language_of(tag@),
{
    if eq_str(tag, "python") || eq_str(tag, "py") {
        Some(Language::Python)
    } else if eq_str(tag, "javascript") || eq_str(tag, "js") {
        Some(Language::JavaScript)
    } else if eq_str(tag, "ruby") || eq_str(tag, "rb") {
        Some(Language::Ruby)
    } else if eq_str(tag, "c") || eq_str(tag, "c++") || eq_str(tag, "cpp") {
        Some(Language::C)
    } else if eq_str(tag, "java") {
        Some(Language::Java)
    } else if eq_str(tag, "rust") {
        Some(Language::Rust)
    } else {
        None
    }
}

fn owned(s: &str) -> (r: String)
    ensures
        r@ == s@,
{
    String::from_str(s)
}

fn one(a: &str) -> (r: Vec<String>)
    ensures
        strings(r@) == seq![a@],
{
    let mut v: Vec<String> = Vec::new();
    v.push(owned(a));
    assert(strings(v@) =~= seq![a@]);
    v
}

fn two(a: &str, b: &str) -> (r: Vec<String>)
    ensures
        strings(r@) == seq![a@, b@],
{
    let mut v: Vec<String> = Vec::new();
    v.push(owned(a));
    v.push(owned(b));
    assert(strings(v@) =~= seq![a@, b@]);
    v
}

/// Plans the run of `code` written in the language tagged `lang`: an error where the language
/// is not supported; the runtime comes from `runtime_map`, or the default where it names
/// none.
pub fn run_code(lang: String, code: String, runtime_map: &StyleConfig) -> (r: Result<RunPlan, String>)
    ensures
        match language_of(lang@) {
            Some(l) => r matches Ok(p) && plan_matches(p, l, code@, runtime_map@),
            None => r matches Err(m) && m@ == "Language not supported"@,
        },
{
    let l = match language_exec(&lang) {
        Some(l) => l,
        None => return Err(owned("Language not supported")),
    };
    let (key, default, file): (&str, &str, &str) = match l {
        Language::Python => ("python", "python3", "temp.py"),
        Language::JavaScript => ("javascript", "node", "temp.js"),
        Language::Ruby => ("ruby", "ruby", "temp.rb"),
        Language::C => ("c", "gcc", "temp.c"),
        Language::Java => ("java", "java", "Main.java"),
        Language::Rust => ("rust", "cargo run", "temp.rs"),
    };
    let program = runtime_map.get_or(key, default);
    let args = match l {
        Language::C => {
            let mut v: Vec<String> = Vec::new();
            v.push(owned("temp.c"));
            v.push(owned("-o"));
            v.push(owned("temp"));
            assert(strings(v@) =~= seq!["temp.c"@, "-o"@, "temp"@]);
            v
        },
        _ => one(file),
    };
    let then_run: Option<(String, Vec<String>)> = match l {
        Language::C | Language::Rust => {
            let v: Vec<String> = Vec::new();
            assert(strings(v@) =~= Seq::<Seq<char>>::empty());
            Some((owned("./temp"), v))
        },
        Language::Java => Some((owned("java"), one("Main"))),
        _ => None,
    };
    let cleanup = match l {
        Language::C => two("temp.c", "temp"),
        Language::Rust => two("temp.rs", "temp"),
        Language::Java => two("Main.java", "Main.class"),
        _ => one(file),
    };
    Ok(RunPlan { language: l, code, source_file: owned(file), program, args, then_run, cleanup })
}

} // verus!
