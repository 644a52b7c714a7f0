use lspmux_cc_mcp::language::{detect_language_id, language_id_for_extension};
use lspmux_cc_mcp::report::text_doc_position;
use lspmux_cc_mcp::uri::{
    file_uri, hex_upper, hex_value, is_absolute_path, is_unreserved_path_byte,
    percent_decode_path, percent_encode_path, uri_to_path, FileUri, UriError,
};

#[test]
fn file_uri_absolute_path() {
    let uri = file_uri("/tmp/test.rs").unwrap();
    assert_eq!(uri.as_str(), "file:///tmp/test.rs");
}

#[test]
fn file_uri_percent_encodes_spaces() {
    let uri = file_uri("/tmp/space file.rs").unwrap();
    assert_eq!(uri.as_str(), "file:///tmp/space%20file.rs");
}

#[test]
fn uri_to_path_round_trip() {
    let uri = file_uri("/tmp/test.rs").unwrap();
    assert_eq!(uri_to_path(&uri), "/tmp/test.rs");
}

#[test]
fn uri_to_path_decodes_percent_encoding() {
    let uri = FileUri::parse("file:///tmp/space%20file.rs").unwrap();
    assert_eq!(uri_to_path(&uri), "/tmp/space file.rs");
}

#[test]
fn detect_language_id_common_extensions() {
    assert_eq!(detect_language_id("/foo/bar.rs"), "rust");
    assert_eq!(detect_language_id("/foo/Cargo.toml"), "toml");
    assert_eq!(detect_language_id("/foo/bar.py"), "python");
    assert_eq!(detect_language_id("/foo/bar.ts"), "typescript");
    assert_eq!(detect_language_id("/foo/bar.tsx"), "typescriptreact");
    assert_eq!(detect_language_id("/foo/bar.go"), "go");
    assert_eq!(detect_language_id("/foo/bar.sh"), "shellscript");
    assert_eq!(detect_language_id("/foo/bar.nix"), "nix");
    assert_eq!(detect_language_id("/foo/bar.yml"), "yaml");
    assert_eq!(detect_language_id("/foo/bar.yaml"), "yaml");
    assert_eq!(detect_language_id("/foo/bar.json"), "json");
    assert_eq!(detect_language_id("/foo/bar.md"), "markdown");
    assert_eq!(detect_language_id("/foo/bar.html"), "html");
    assert_eq!(detect_language_id("/foo/bar.sql"), "sql");
    assert_eq!(detect_language_id("/foo/bar.unknown"), "plaintext");
    assert_eq!(detect_language_id("/foo/noext"), "plaintext");
}

#[test]
fn detect_language_id_ignores_case() {
    assert_eq!(detect_language_id("/foo/MAIN.RS"), "rust");
    assert_eq!(detect_language_id("/foo/Notes.Md"), "markdown");
    assert_eq!(detect_language_id("/foo/.bashrc"), "plaintext");
    assert_eq!(detect_language_id("/foo/archive.tar.gz"), "plaintext");
    assert_eq!(detect_language_id("/foo/x.hpp"), "cpp");
}

#[test]
fn language_for_lowercase_extensions() {
    assert_eq!(language_id_for_extension("rs"), "rust");
    assert_eq!(language_id_for_extension("zsh"), "shellscript");
    assert_eq!(language_id_for_extension("htm"), "html");
    assert_eq!(language_id_for_extension("RS"), "plaintext");
    assert_eq!(language_id_for_extension(""), "plaintext");
}

#[test]
fn text_doc_position_valid_path() {
    let params = text_doc_position("/tmp/test.rs", 10, 5).unwrap();
    assert_eq!(params.position.line, 10);
    assert_eq!(params.position.character, 5);
    assert!(params.text_document.uri.as_str().ends_with("/tmp/test.rs"));
}

#[test]
fn text_doc_position_rejects_relative_path() {
    assert!(matches!(text_doc_position("src/main.rs", 0, 0), Err(UriError::NotAbsolute)));
}

#[test]
fn file_uri_rejects_relative_path() {
    assert!(matches!(file_uri("relative/path.rs"), Err(UriError::NotAbsolute)));
    assert!(matches!(file_uri(""), Err(UriError::NotAbsolute)));
    assert!(is_absolute_path("/a"));
    assert!(!is_absolute_path("a/b"));
}

#[test]
fn file_uri_encodes_reserved_and_non_ascii_bytes() {
    let uri = file_uri("/tmp/a#b?c%d/é~x_y-z.rs").unwrap();
    assert_eq!(uri.as_str(), "file:///tmp/a%23b%3Fc%25d/%C3%A9~x_y-z.rs");
}

#[test]
fn path_round_trip_with_reserved_characters() {
    for path in ["/tmp/space file.rs", "/a%b/c#d?e", "/ünï/cödé ☃.rs", "/", "/100% done"] {
        let uri = file_uri(path).unwrap();
        assert_eq!(uri_to_path(&uri), path);
    }
}

#[test]
fn uri_to_path_without_scheme_or_with_bad_escape() {
    let plain = FileUri::parse("/tmp/x%41").unwrap();
    assert_eq!(uri_to_path(&plain), "/tmp/xA");
    let not_utf8 = FileUri::parse("file:///tmp/%FF").unwrap();
    assert_eq!(uri_to_path(&not_utf8), "/tmp/%FF");
}

#[test]
fn file_uri_parse_rejects_invalid_text() {
    assert!(FileUri::parse("file:///tmp/a b").is_none());
    assert!(FileUri::parse("file:///tmp/a%20b").is_some());
}

#[test]
fn percent_encoding_of_single_bytes() {
    assert_eq!(percent_encode_path("a b"), "a%20b");
    assert_eq!(percent_encode_path("AZaz09-._~/"), "AZaz09-._~/");
    assert_eq!(percent_encode_path("\n"), "%0A");
    assert_eq!(percent_encode_path(""), "");
}

#[test]
fn percent_decoding_cases() {
    assert_eq!(percent_decode_path("a%20b").as_deref(), Some("a b"));
    assert_eq!(percent_decode_path("%41%6a").as_deref(), Some("Aj"));
    assert_eq!(percent_decode_path("plain").as_deref(), Some("plain"));
    assert_eq!(percent_decode_path("%2"), None);
    assert_eq!(percent_decode_path("ab%"), None);
    assert_eq!(percent_decode_path("%zz"), None);
    assert_eq!(percent_decode_path("%FF"), None);
    assert_eq!(percent_decode_path("%C3%A9").as_deref(), Some("é"));
}

#[test]
fn hex_helpers() {
    assert_eq!(hex_upper(0), '0');
    assert_eq!(hex_upper(9), '9');
    assert_eq!(hex_upper(10), 'A');
    assert_eq!(hex_upper(15), 'F');
    assert_eq!(hex_upper(16), '?');
    assert_eq!(hex_value(b'0'), Some(0));
    assert_eq!(hex_value(b'f'), Some(15));
    assert_eq!(hex_value(b'B'), Some(11));
    assert_eq!(hex_value(b'g'), None);
    assert!(is_unreserved_path_byte(b'~'));
    assert!(is_unreserved_path_byte(b'/'));
    assert!(!is_unreserved_path_byte(b' '));
    assert!(!is_unreserved_path_byte(b'%'));
}
