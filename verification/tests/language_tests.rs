use golf_judge::language::{accepted_extension, get_lang_emoji_name, language_of_extension, program_run, Language};

const FILE_EXTENSIONS: [&str; 11] = ["rs", "cpp", "cc", "c++", "c", "cxx", "lua", "py", "js", "ts", "nim"];

#[test]
fn emoji_of_each_language() {
    assert_eq!(get_lang_emoji_name("rs"), "<:rust:1121679837657038928>");
    assert_eq!(get_lang_emoji_name("cxx"), "<:cpp:1121679809005748305>");
    assert_eq!(get_lang_emoji_name("c"), "<:clang:1121679805960683530>");
    assert_eq!(get_lang_emoji_name("ts"), "<:js:1121679814278004776>");
    assert_eq!(get_lang_emoji_name("py"), "<:python:1121679833181732985>");
    assert_eq!(get_lang_emoji_name("lua"), "<:lua:1121679825694892162>");
    assert_eq!(get_lang_emoji_name("nim"), "<:nim:1121679830371536968>");
}

#[test]
fn accepted_extensions_are_exactly_the_known_languages() {
    for ext in FILE_EXTENSIONS.iter() {
        assert!(accepted_extension(ext));
        assert!(language_of_extension(ext).is_some());
    }
    for ext in ["java", "RS", "", "c#", "rs "].iter() {
        assert!(!accepted_extension(ext));
        assert!(language_of_extension(ext).is_none());
    }
}

#[test]
fn commands_to_build_and_run() {
    let r = program_run(Language::Rust, "42.rs");
    assert_eq!(r.compile, Some("rustc ./sub/42.rs -O -o main".to_string()));
    assert_eq!(r.program, "./main");
    let r = program_run(Language::Cpp, "7.cc");
    assert_eq!(r.compile, Some("g++ -std=c++20 ./sub/7.cc -O2 -o main".to_string()));
    let r = program_run(Language::C, "7.c");
    assert_eq!(r.compile, Some("gcc -std=c17 ./sub/7.c -O2 -o main".to_string()));
    let r = program_run(Language::JavaScript, "9.ts");
    assert_eq!(r.compile, None);
    assert_eq!(r.program, "node ./sub/9.ts");
    assert_eq!(program_run(Language::Python, "1.py").program, "python3 ./sub/1.py");
    assert_eq!(program_run(Language::Lua, "1.lua").program, "lua ./sub/1.lua");
    assert_eq!(program_run(Language::Nim, "1.nim").program, "nim c -r ./sub/1.nim");
}
