//! What file names and extensions say about languages.

use vstd::prelude::*;

use crate::text::{
    after_last_dot, contains, contains_text, ends_with, last_dot_part, lower_text, same_text,
    to_lowercase,
};

verus! {

/// Extensions of C, C++ and assembler sources.
pub open spec fn is_c_source_ext_spec(e: Seq<char>) -> bool {
    e == "c"@
        || e == "cpp"@
        || e == "cc"@
        || e == "cxx"@
        || e == "c++"@
        || e == "C"@
        || e == "S"@
        || e == "s"@
}

/// Extensions of C, C++ and assembler sources.
pub fn is_c_source_ext(e: &str) -> (r: bool)
    ensures
        r == is_c_source_ext_spec(e@),
{
    same_text(e, "c")
        || same_text(e, "cpp")
        || same_text(e, "cc")
        || same_text(e, "cxx")
        || same_text(e, "c++")
        || same_text(e, "C")
        || same_text(e, "S")
        || same_text(e, "s")
}

/// Extensions of C and C++ headers.
pub open spec fn is_c_header_ext_spec(e: Seq<char>) -> bool {
    e == "h"@
        || e == "hpp"@
        || e == "hh"@
        || e == "hxx"@
        || e == "h++"@
}

/// Extensions of C and C++ headers.
pub fn is_c_header_ext(e: &str) -> (r: bool)
    ensures
        r == is_c_header_ext_spec(e@),
{
    same_text(e, "h")
        || same_text(e, "hpp")
        || same_text(e, "hh")
        || same_text(e, "hxx")
        || same_text(e, "h++")
}

/// The names of C and C++, as the parser writes them and as they are displayed.
pub open spec fn is_cxx_language_spec(e: Seq<char>) -> bool {
    e == "c"@
        || e == "cpp"@
        || e == "C"@
        || e == "C++"@
}

/// The names of C and C++, as the parser writes them and as they are displayed.
pub fn is_cxx_language(e: &str) -> (r: bool)
    ensures
        r == is_cxx_language_spec(e@),
{
    same_text(e, "c")
        || same_text(e, "cpp")
        || same_text(e, "C")
        || same_text(e, "C++")
}

/// The icon shown before a file name.
pub open spec fn get_file_icon_spec(name: Seq<char>) -> Seq<char> {
    let e = after_last_dot(name);
    if e == "rs"@ {
        "\u{1f980}"@
    } else if e == "py"@ {
        "\u{1f40d}"@
    } else if e == "lua"@ {
        "\u{1f319}"@
    } else if e == "js"@ || e == "jsx"@ {
        "\u{1f4dc}"@
    } else if e == "ts"@ || e == "tsx"@ {
        "\u{1f4d8}"@
    } else if e == "go"@ {
        "\u{1f439}"@
    } else if e == "java"@ {
        "\u{2615}"@
    } else if e == "c"@ || e == "h"@ || e == "cpp"@ || e == "hpp"@ || e == "cc"@ {
        "\u{2699}\u{fe0f}"@
    } else if e == "md"@ {
        "\u{1f4dd}"@
    } else if e == "json"@ {
        "\u{1f4cb}"@
    } else if e == "toml"@ || e == "yaml"@ || e == "yml"@ {
        "\u{2699}\u{fe0f}"@
    } else if e == "html"@ {
        "\u{1f310}"@
    } else if e == "css"@ || e == "scss"@ {
        "\u{1f3a8}"@
    } else {
        "\u{1f4c4}"@
    }
}

/// The icon shown before a file name.
pub fn get_file_icon(name: &str) -> (r: &'static str)
    ensures
        r@ == get_file_icon_spec(name@),
{
    let ext = last_dot_part(name);
    let e = ext.as_str();
    if same_text(e, "rs") {
        "\u{1f980}"
    } else if same_text(e, "py") {
        "\u{1f40d}"
    } else if same_text(e, "lua") {
        "\u{1f319}"
    } else if same_text(e, "js") || same_text(e, "jsx") {
        "\u{1f4dc}"
    } else if same_text(e, "ts") || same_text(e, "tsx") {
        "\u{1f4d8}"
    } else if same_text(e, "go") {
        "\u{1f439}"
    } else if same_text(e, "java") {
        "\u{2615}"
    } else if same_text(e, "c") || same_text(e, "h") || same_text(e, "cpp") || same_text(e, "hpp")
        || same_text(e, "cc") {
        "\u{2699}\u{fe0f}"
    } else if same_text(e, "md") {
        "\u{1f4dd}"
    } else if same_text(e, "json") {
        "\u{1f4cb}"
    } else if same_text(e, "toml") || same_text(e, "yaml") || same_text(e, "yml") {
        "\u{2699}\u{fe0f}"
    } else if same_text(e, "html") {
        "\u{1f310}"
    } else if same_text(e, "css") || same_text(e, "scss") {
        "\u{1f3a8}"
    } else {
        "\u{1f4c4}"
    }
}

/// The language tag of a code fence around a file's text.
pub open spec fn get_language_id_spec(path: Seq<char>) -> Seq<char> {
    let e = after_last_dot(path);
    if e == "rs"@ {
        "rust"@
    } else if e == "py"@ {
        "python"@
    } else if e == "js"@ {
        "javascript"@
    } else if e == "jsx"@ {
        "jsx"@
    } else if e == "ts"@ {
        "typescript"@
    } else if e == "tsx"@ {
        "tsx"@
    } else if e == "go"@ {
        "go"@
    } else if e == "java"@ {
        "java"@
    } else if e == "c"@ || e == "h"@ {
        "c"@
    } else if e == "cpp"@ || e == "hpp"@ || e == "cc"@ {
        "cpp"@
    } else if e == "md"@ {
        "markdown"@
    } else if e == "json"@ {
        "json"@
    } else if e == "toml"@ {
        "toml"@
    } else if e == "yaml"@ || e == "yml"@ {
        "yaml"@
    } else if e == "html"@ {
        "html"@
    } else if e == "css"@ {
        "css"@
    } else if e == "scss"@ {
        "scss"@
    } else if e == "sh"@ || e == "bash"@ {
        "bash"@
    } else {
        ""@
    }
}

/// The language tag of a code fence around a file's text.
pub fn get_language_id(path: &str) -> (r: &'static str)
    ensures
        r@ == get_language_id_spec(path@),
{
    let ext = last_dot_part(path);
    let e = ext.as_str();
    if same_text(e, "rs") {
        "rust"
    } else if same_text(e, "py") {
        "python"
    } else if same_text(e, "js") {
        "javascript"
    } else if same_text(e, "jsx") {
        "jsx"
    } else if same_text(e, "ts") {
        "typescript"
    } else if same_text(e, "tsx") {
        "tsx"
    } else if same_text(e, "go") {
        "go"
    } else if same_text(e, "java") {
        "java"
    } else if same_text(e, "c") || same_text(e, "h") {
        "c"
    } else if same_text(e, "cpp") || same_text(e, "hpp") || same_text(e, "cc") {
        "cpp"
    } else if same_text(e, "md") {
        "markdown"
    } else if same_text(e, "json") {
        "json"
    } else if same_text(e, "toml") {
        "toml"
    } else if same_text(e, "yaml") || same_text(e, "yml") {
        "yaml"
    } else if same_text(e, "html") {
        "html"
    } else if same_text(e, "css") {
        "css"
    } else if same_text(e, "scss") {
        "scss"
    } else if same_text(e, "sh") || same_text(e, "bash") {
        "bash"
    } else {
        ""
    }
}

/// The language a file is written in, by its extension.
pub open spec fn get_language_from_path_spec(path: Seq<char>) -> Seq<char> {
    let e = after_last_dot(path);
    if e == "rs"@ {
        "rust"@
    } else if e == "py"@ {
        "python"@
    } else if e == "js"@ || e == "jsx"@ {
        "javascript"@
    } else if e == "ts"@ || e == "tsx"@ {
        "typescript"@
    } else if e == "go"@ {
        "go"@
    } else if e == "java"@ {
        "java"@
    } else if e == "c"@ || e == "h"@ {
        "c"@
    } else if e == "cpp"@ || e == "hpp"@ || e == "cc"@ || e == "cxx"@ || e == "hxx"@ || e == "hh"@
        || e == "c++"@ || e == "h++"@ || e == "C"@ || e == "H"@ {
        "cpp"@
    } else if e == "cs"@ {
        "csharp"@
    } else {
        "unknown"@
    }
}

/// The language a file is written in, by its extension.
pub fn get_language_from_path(path: &str) -> (r: &'static str)
    ensures
        r@ == get_language_from_path_spec(path@),
{
    let ext = last_dot_part(path);
    let e = ext.as_str();
    if same_text(e, "rs") {
        "rust"
    } else if same_text(e, "py") {
        "python"
    } else if same_text(e, "js") || same_text(e, "jsx") {
        "javascript"
    } else if same_text(e, "ts") || same_text(e, "tsx") {
        "typescript"
    } else if same_text(e, "go") {
        "go"
    } else if same_text(e, "java") {
        "java"
    } else if same_text(e, "c") || same_text(e, "h") {
        "c"
    } else if same_text(e, "cpp") || same_text(e, "hpp") || same_text(e, "cc") || same_text(e, "cxx")
        || same_text(e, "hxx") || same_text(e, "hh") || same_text(e, "c++") || same_text(e, "h++")
        || same_text(e, "C") || same_text(e, "H") {
        "cpp"
    } else if same_text(e, "cs") {
        "csharp"
    } else {
        "unknown"
    }
}

/// The display name of the language an extension stands for; an unknown extension stands for itself.
pub open spec fn ext_to_language_spec(ext: Seq<char>) -> Seq<char> {
    let e = ext;
    if e == "rs"@ {
        "Rust"@
    } else if e == "py"@ {
        "Python"@
    } else if e == "js"@ || e == "jsx"@ {
        "JavaScript"@
    } else if e == "ts"@ || e == "tsx"@ {
        "TypeScript"@
    } else if e == "go"@ {
        "Go"@
    } else if e == "java"@ {
        "Java"@
    } else if e == "c"@ || e == "h"@ {
        "C"@
    } else if e == "cpp"@ || e == "hpp"@ || e == "cc"@ || e == "cxx"@ {
        "C++"@
    } else if e == "cs"@ {
        "C#"@
    } else {
        e
    }
}

/// The display name of the language an extension stands for; an unknown extension stands for itself.
pub fn ext_to_language(ext: &str) -> (r: String)
    ensures
        r@ == ext_to_language_spec(ext@),
{
    let ext = ext.to_owned();
    let e = ext.as_str();
    if same_text(e, "rs") {
        "Rust".to_owned()
    } else if same_text(e, "py") {
        "Python".to_owned()
    } else if same_text(e, "js") || same_text(e, "jsx") {
        "JavaScript".to_owned()
    } else if same_text(e, "ts") || same_text(e, "tsx") {
        "TypeScript".to_owned()
    } else if same_text(e, "go") {
        "Go".to_owned()
    } else if same_text(e, "java") {
        "Java".to_owned()
    } else if same_text(e, "c") || same_text(e, "h") {
        "C".to_owned()
    } else if same_text(e, "cpp") || same_text(e, "hpp") || same_text(e, "cc") || same_text(e, "cxx") {
        "C++".to_owned()
    } else if same_text(e, "cs") {
        "C#".to_owned()
    } else {
        ext.clone()
    }
}

/// The name ends in a known source or header extension, once put into lower case,
/// and holds nothing that only a symbol expression holds.
pub open spec fn filename_like_spec(name: Seq<char>, lower: Seq<char>) -> bool {
    &&& (".h"@.is_suffix_of(lower)
        || ".hpp"@.is_suffix_of(lower)
        || ".hh"@.is_suffix_of(lower)
        || ".hxx"@.is_suffix_of(lower)
        || ".c"@.is_suffix_of(lower)
        || ".cc"@.is_suffix_of(lower)
        || ".cpp"@.is_suffix_of(lower)
        || ".cxx"@.is_suffix_of(lower)
        || ".rs"@.is_suffix_of(lower)
        || ".py"@.is_suffix_of(lower)
        || ".js"@.is_suffix_of(lower)
        || ".ts"@.is_suffix_of(lower)
        || ".go"@.is_suffix_of(lower)
        || ".java"@.is_suffix_of(lower))
    &&& !contains_text(name, "::"@)
    &&& !contains_text(name, " "@)
    &&& !contains_text(name, "("@)
}

/// Whether a name looks like a source or header file, given its lower-case form.
pub fn filename_like(name: &str, lower: &str) -> (r: bool)
    ensures
        r == filename_like_spec(name@, lower@),
{
    (ends_with(lower, ".h")
        || ends_with(lower, ".hpp")
        || ends_with(lower, ".hh")
        || ends_with(lower, ".hxx")
        || ends_with(lower, ".c")
        || ends_with(lower, ".cc")
        || ends_with(lower, ".cpp")
        || ends_with(lower, ".cxx")
        || ends_with(lower, ".rs")
        || ends_with(lower, ".py")
        || ends_with(lower, ".js")
        || ends_with(lower, ".ts")
        || ends_with(lower, ".go")
        || ends_with(lower, ".java"))
        && !contains(name, "::") && !contains(name, " ") && !contains(name, "(")
}

/// Whether a string looks like a source or header file name rather than a symbol.
pub fn is_filename_like(name: &str) -> (r: bool)
    ensures
        r == filename_like_spec(name@, lower_text(name@)),
{
    let lower = to_lowercase(name);
    filename_like(name, lower.as_str())
}

} // verus!
