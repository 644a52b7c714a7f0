//! The content-kind label that the open notification carries, taken from the
//! file extension without regard to case.

use vstd::prelude::*;

use crate::text::str_eq;

verus! {

/// The extension of a path as `std::path::Path` sees it (the text after the
/// last `.` of the final component), empty where it has none.
pub uninterp spec fn path_extension(path: Seq<char>) -> Seq<char>;

/// Relies on `std::path::Path::extension`, with the empty text standing for
/// a path without an extension (the extension of a `str` path is UTF-8, so
/// reading it back loses nothing).
#[verifier::external_body]
fn file_extension(path: &str) -> (r: String)
    ensures
        r@ == path_extension(path@),
{
    match std::path::Path::new(path).extension() {
        Some(ext) => ext.to_string_lossy().into_owned(),
        None => String::new(),
    }
}

/// A character with ASCII capitals mapped to small letters.
pub open spec fn ascii_lower(c: char) -> char {
    if 'A' <= c && c <= 'Z' {
        ((c as u32) + 32) as char
    } else {
        c
    }
}

/// A text with ASCII capitals mapped to small letters.
pub open spec fn ascii_lowercase(s: Seq<char>) -> Seq<char> {
    Seq::new(s.len(), |i: int| ascii_lower(s[i]))
}

/// Relies on `str::to_ascii_lowercase`: `A`..`Z` become `a`..`z`, every other
/// character stays.
#[verifier::external_body]
fn to_ascii_lowercase(s: &str) -> (r: String)
    ensures
        r@ == ascii_lowercase(s@),
{
    s.to_ascii_lowercase()
}

/// The label for a lowercase extension; `plaintext` for one not listed.
pub open spec fn language_for(ext: Seq<char>) -> Seq<char> {
    if ext == "rs"@ {
        "rust"@
    } else if ext == "toml"@ {
        "toml"@
    } else if ext == "json"@ {
        "json"@
    } else if ext == "yaml"@ || ext == "yml"@ {
        "yaml"@
    } else if ext == "md"@ || ext == "markdown"@ {
        "markdown"@
    } else if ext == "py"@ {
        "python"@
    } else if ext == "js"@ {
        "javascript"@
    } else if ext == "ts"@ {
        "typescript"@
    } else if ext == "jsx"@ {
        "javascriptreact"@
    } else if ext == "tsx"@ {
        "typescriptreact"@
    } else if ext == "c"@ {
        "c"@
    } else if ext == "cpp"@ || ext == "cc"@ || ext == "cxx"@ || ext == "h"@ || ext == "hpp"@ {
        "cpp"@
    } else if ext == "go"@ {
        "go"@
    } else if ext == "rb"@ {
        "ruby"@
    } else if ext == "sh"@ || ext == "bash"@ || ext == "zsh"@ {
        "shellscript"@
    } else if ext == "css"@ {
        "css"@
    } else if ext == "html"@ || ext == "htm"@ {
        "html"@
    } else if ext == "xml"@ {
        "xml"@
    } else if ext == "sql"@ {
        "sql"@
    } else if ext == "nix"@ {
        "nix"@
    } else {
        "plaintext"@
    }
}

/// The label for an extension already in lower case.
pub fn language_id_for_extension(ext: &str) -> (r: &'static str)
    ensures
        r@ == language_for(ext@),
{
    if str_eq(ext, "rs") {
        "rust"
    } else if str_eq(ext, "toml") {
        "toml"
    } else if str_eq(ext, "json") {
        "json"
    } else if str_eq(ext, "yaml") || str_eq(ext, "yml") {
        "yaml"
    } else if str_eq(ext, "md") || str_eq(ext, "markdown") {
        "markdown"
    } else if str_eq(ext, "py") {
        "python"
    } else if str_eq(ext, "js") {
        "javascript"
    } else if str_eq(ext, "ts") {
        "typescript"
    } else if str_eq(ext, "jsx") {
        "javascriptreact"
    } else if str_eq(ext, "tsx") {
        "typescriptreact"
    } else if str_eq(ext, "c") {
        "c"
    } else if str_eq(ext, "cpp") || str_eq(ext, "cc") || str_eq(ext, "cxx") || str_eq(ext, "h")
        || str_eq(ext, "hpp") {
        "cpp"
    } else if str_eq(ext, "go") {
        "go"
    } else if str_eq(ext, "rb") {
        "ruby"
    } else if str_eq(ext, "sh") || str_eq(ext, "bash") || str_eq(ext, "zsh") {
        "shellscript"
    } else if str_eq(ext, "css") {
        "css"
    } else if str_eq(ext, "html") || str_eq(ext, "htm") {
        "html"
    } else if str_eq(ext, "xml") {
        "xml"
    } else if str_eq(ext, "sql") {
        "sql"
    } else if str_eq(ext, "nix") {
        "nix"
    } else {
        "plaintext"
    }
}

/// The content-kind label of a file, from its extension in any case;
/// `plaintext` where the extension is missing or not listed.
pub fn detect_language_id(path: &str) -> (r: &'static str)
    ensures
        r@ == language_for(ascii_lowercase(path_extension(path@))),
{
    let ext = file_extension(path);
    let lower = to_ascii_lowercase(ext.as_str());
    language_id_for_extension(lower.as_str())
}

} // verus!
