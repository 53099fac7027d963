use vstd::prelude::*;
use vstd::string::*;
use crate::text::same_text;

verus! {

/// The languages in which a solution may be written.
#[derive(Clone, Copy, PartialEq, Eq, Structural, Debug)]
pub enum Language {
    Rust,
    Cpp,
    C,
    JavaScript,
    Python,
    Lua,
    Nim,
}

/// The file extensions that the bot accepts for a submission.
pub open spec fn is_accepted_extension(ext: Seq<char>) -> bool {
    ||| ext == "rs"@
    ||| ext == "cpp"@
    ||| ext == "cc"@
    ||| ext == "c++"@
    ||| ext == "c"@
    ||| ext == "cxx"@
    ||| ext == "lua"@
    ||| ext == "py"@
    ||| ext == "js"@
    ||| ext == "ts"@
    ||| ext == "nim"@
}

/// The language that a file extension stands for.
pub open spec fn language_of(ext: Seq<char>) -> Option<Language> {
    if ext == "rs"@ {
        Some(Language::Rust)
    } else if ext == "cpp"@ || ext == "cc"@ || ext == "cxx"@ || ext == "c++"@ {
        Some(Language::Cpp)
    } else if ext == "c"@ {
        Some(Language::C)
    } else if ext == "js"@ || ext == "ts"@ {
        Some(Language::JavaScript)
    } else if ext == "py"@ {
        Some(Language::Python)
    } else if ext == "lua"@ {
        Some(Language::Lua)
    } else if ext == "nim"@ {
        Some(Language::Nim)
    } else {
        None
    }
}

/// The server emoji shown beside a solution in a language.
pub open spec fn emoji_of(lang: Language) -> Seq<char> {
    match lang {
        Language::Rust => "<:rust:1121679837657038928>"@,
        Language::Cpp => "<:cpp:1121679809005748305>"@,
        Language::C => "<:clang:1121679805960683530>"@,
        Language::JavaScript => "<:js:1121679814278004776>"@,
        Language::Python => "<:python:1121679833181732985>"@,
        Language::Lua => "<:lua:1121679825694892162>"@,
        Language::Nim => "<:nim:1121679830371536968>"@,
    }
}

/// Whether a submission with this extension is accepted.
pub fn accepted_extension(ext: &str) -> (r: bool)
    ensures
        r == is_accepted_extension(ext@),
{
    same_text(ext, "rs") || same_text(ext, "cpp") || same_text(ext, "cc") || same_text(ext, "c++")
        || same_text(ext, "c") || same_text(ext, "cxx") || same_text(ext, "lua") || same_text(
        ext,
        "py",
    ) || same_text(ext, "js") || same_text(ext, "ts") || same_text(ext, "nim")
}

/// The language of a file extension, if it is one the bot knows.
pub fn language_of_extension(ext: &str) -> (r: Option<Language>)
    ensures
        r == language_of(ext@),
{
    if same_text(ext, "rs") {
        Some(Language::Rust)
    } else if same_text(ext, "cpp") || same_text(ext, "cc") || same_text(ext, "cxx") || same_text(
        ext,
        "c++",
    ) {
        Some(Language::Cpp)
    } else if same_text(ext, "c") {
        Some(Language::C)
    } else if same_text(ext, "js") || same_text(ext, "ts") {
        Some(Language::JavaScript)
    } else if same_text(ext, "py") {
        Some(Language::Python)
    } else if same_text(ext, "lua") {
        Some(Language::Lua)
    } else if same_text(ext, "nim") {
        Some(Language::Nim)
    } else {
        None
    }
}

/// The emoji of a language.
pub fn emoji(lang: Language) -> (r: &'static str)
    ensures
        r@ == emoji_of(lang),
{
    match lang {
        Language::Rust => "<:rust:1121679837657038928>",
        Language::Cpp => "<:cpp:1121679809005748305>",
        Language::C => "<:clang:1121679805960683530>",
        Language::JavaScript => "<:js:1121679814278004776>",
        Language::Python => "<:python:1121679833181732985>",
        Language::Lua => "<:lua:1121679825694892162>",
        Language::Nim => "<:nim:1121679830371536968>",
    }
}

/// The emoji of the language that a file extension stands for; the
/// extension must be one the bot knows.
pub fn get_lang_emoji_name(extension: &str) -> (r: &'static str)
    requires
        language_of(extension@) is Some,
    ensures
        r@ == emoji_of(language_of(extension@).unwrap()),
{
    match language_of_extension(extension) {
        Some(lang) => emoji(lang),
        None => "",
    }
}

/// How a solution is built and run: the command that compiles it, if the
/// language is compiled, and the command that runs it.
pub struct ProgramRun {
    pub compile: Option<String>,
    pub program: String,
}

/// The command that compiles a solution file kept under `./sub/`, if its language is compiled.
pub open spec fn compile_command(lang: Language, file_name: Seq<char>) -> Option<Seq<char>> {
    match lang {
        Language::Rust => Some("rustc ./sub/"@ + file_name + " -O -o main"@),
        Language::Cpp => Some("g++ -std=c++20 ./sub/"@ + file_name + " -O2 -o main"@),
        Language::C => Some("gcc -std=c17 ./sub/"@ + file_name + " -O2 -o main"@),
        _ => None,
    }
}

/// The command that runs a solution file kept under `./sub/` (after it was compiled).
pub open spec fn program_command(lang: Language, file_name: Seq<char>) -> Seq<char> {
    match lang {
        Language::Rust | Language::Cpp | Language::C => "./main"@,
        Language::JavaScript => "node ./sub/"@ + file_name,
        Language::Python => "python3 ./sub/"@ + file_name,
        Language::Lua => "lua ./sub/"@ + file_name,
        Language::Nim => "nim c -r ./sub/"@ + file_name,
    }
}

fn command_after(before: &str, file_name: &str) -> (r: String)
    ensures
        r@ == before@ + file_name@,
{
    let mut s = String::from_str(before);
    s.append(file_name);
    s
}

fn command_around(before: &str, file_name: &str, after: &str) -> (r: String)
    ensures
        r@ == before@ + file_name@ + after@,
{
    let mut s = String::from_str(before);
    s.append(file_name);
    s.append(after);
    s
}

/// How to build and run a solution file in a language.
pub fn program_run(lang: Language, file_name: &str) -> (r: ProgramRun)
    ensures
        r.compile is Some == compile_command(lang, file_name@) is Some,
        r.compile is Some ==> r.compile.unwrap()@ == compile_command(lang, file_name@).unwrap(),
        r.program@ == program_command(lang, file_name@),
{
    match lang {
        Language::Rust => ProgramRun {
            compile: Some(command_around("rustc ./sub/", file_name, " -O -o main")),
            program: String::from_str("./main"),
        },
        Language::Cpp => ProgramRun {
            compile: Some(command_around("g++ -std=c++20 ./sub/", file_name, " -O2 -o main")),
            program: String::from_str("./main"),
        },
        Language::C => ProgramRun {
            compile: Some(command_around("gcc -std=c17 ./sub/", file_name, " -O2 -o main")),
            program: String::from_str("./main"),
        },
        Language::JavaScript => ProgramRun {
            compile: None,
            program: command_after("node ./sub/", file_name),
        },
        Language::Python => ProgramRun {
            compile: None,
            program: command_after("python3 ./sub/", file_name),
        },
        Language::Lua => ProgramRun { compile: None, program: command_after("lua ./sub/", file_name) },
        Language::Nim => ProgramRun {
            compile: None,
            program: command_after("nim c -r ./sub/", file_name),
        },
    }
}

} // verus!
