use lspmux_cc_mcp::report::{
    definitions_report, diagnostics_report, format_diagnostic, format_location, join,
    references_report, severity_label, DiagnosticLine, Location, Position,
};
use lspmux_cc_mcp::uri::file_uri;

fn loc(path: &str, line: u32, character: u32) -> Location {
    Location { uri: file_uri(path).unwrap(), start: Position { line, character } }
}

#[test]
fn format_location_one_indexed() {
    let loc = loc("/tmp/test.rs", 0, 0);
    let formatted = format_location(&loc);
    assert_eq!(formatted, "/tmp/test.rs:1:1");
}

#[test]
fn format_location_decodes_and_handles_large_positions() {
    assert_eq!(format_location(&loc("/tmp/a b.rs", 9, 41)), "/tmp/a b.rs:10:42");
    assert_eq!(format_location(&loc("/x", u32::MAX, 0)), "/x:4294967296:1");
}

#[test]
fn reports_of_locations() {
    let locs = vec![loc("/a.rs", 0, 4), loc("/b.rs", 11, 0)];
    assert_eq!(definitions_report(&locs), "/a.rs:1:5\n/b.rs:12:1");
    assert_eq!(references_report(&locs), "Found 2 reference(s):\n/a.rs:1:5\n/b.rs:12:1");
    assert_eq!(definitions_report(&Vec::new()), "No definition found.");
    assert_eq!(references_report(&Vec::new()), "No references found.");
}

#[test]
fn diagnostics_lines() {
    let ds = vec![
        DiagnosticLine { start: Position { line: 2, character: 7 }, severity: Some(1), message: "mismatched types".to_string() },
        DiagnosticLine { start: Position { line: 0, character: 0 }, severity: None, message: "unused".to_string() },
    ];
    assert_eq!(format_diagnostic(&ds[0]), "3:8: [ERROR] mismatched types");
    assert_eq!(diagnostics_report(&ds), "3:8: [ERROR] mismatched types\n1:1: [UNKNOWN] unused");
    assert_eq!(diagnostics_report(&Vec::new()), "No diagnostics found.");
    assert_eq!(severity_label(Some(2)), "WARNING");
    assert_eq!(severity_label(Some(3)), "INFO");
    assert_eq!(severity_label(Some(4)), "HINT");
    assert_eq!(severity_label(Some(9)), "UNKNOWN");
}

#[test]
fn join_puts_separator_between() {
    let parts = vec!["a".to_string(), "b".to_string(), "c".to_string()];
    assert_eq!(join(&parts, "\n\n"), "a\n\nb\n\nc");
    assert_eq!(join(&Vec::new(), ","), "");
}

#[test]
fn code_block_fences_the_value() {
    assert_eq!(
        lspmux_cc_mcp::report::code_block("rust", "fn main()"),
        "```rust\nfn main()\n```"
    );
}
