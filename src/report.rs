//! Line-oriented reports of server answers for the tool layer: positions
//! are zero-based on the wire and one-based in the text.

use vstd::prelude::*;
use vstd::string::{StringExecFns, StringSliceAdditionalSpecFns};

use crate::text::{ascii_chars, decimal, push_char, push_decimal_chars};
use crate::uri::{
    acceptable_uri, file_uri, file_uri_text, is_absolute, path_of_uri, uri_to_path, FileUri,
    UriError,
};

verus! {

/// A zero-based position in a text document.
#[derive(Debug, Clone, Copy, PartialEq, Eq)]
pub struct Position {
    pub line: u32,
    pub character: u32,
}

/// The document a request is about.
pub struct TextDocumentIdentifier {
    pub uri: FileUri,
}

/// A document and a position in it, as position requests carry them.
pub struct TextDocumentPositionParams {
    pub text_document: TextDocumentIdentifier,
    pub position: Position,
}

/// The document and position of a request about `file`.
pub fn text_doc_position(file: &str, line: u32, character: u32) -> (r: Result<
    TextDocumentPositionParams,
    UriError,
>)
    ensures
        r is Ok <==> is_absolute(file.spec_bytes()) && acceptable_uri(file_uri_text(file@)),
        r == Err::<TextDocumentPositionParams, UriError>(UriError::NotAbsolute) <==> !is_absolute(
            file.spec_bytes(),
        ),
        r matches Ok(p) ==> p.text_document.uri@ == file_uri_text(file@) && p.position == (Position {
            line,
            character,
        }),
{
    match file_uri(file) {
        Ok(uri) => Ok(
            TextDocumentPositionParams {
                text_document: TextDocumentIdentifier { uri },
                position: Position { line, character },
            },
        ),
        Err(e) => Err(e),
    }
}

/// A place in a file that the server pointed at.
pub struct Location {
    pub uri: FileUri,
    pub start: Position,
}

/// The one-based decimal form of a zero-based number.
pub open spec fn one_based(n: u32) -> Seq<char> {
    ascii_chars(decimal(n as nat + 1))
}

/// `path:line:column`, one-based.
pub open spec fn location_text(loc: Location) -> Seq<char> {
    path_of_uri(loc.uri@) + seq![':'] + one_based(loc.start.line) + seq![':'] + one_based(
        loc.start.character,
    )
}

/// The parts with the separator between each two.
pub open spec fn joined(parts: Seq<Seq<char>>, sep: Seq<char>) -> Seq<char>
    decreases parts.len(),
{
    if parts.len() == 0 {
        seq![]
    } else if parts.len() == 1 {
        parts[0]
    } else {
        joined(parts.drop_last(), sep) + sep + parts.last()
    }
}

pub open spec fn texts(parts: Seq<String>) -> Seq<Seq<char>> {
    parts.map_values(|s: String| s@)
}

/// Joins `parts` with `sep` between each two.
pub fn join(parts: &Vec<String>, sep: &str) -> (r: String)
    ensures
        r@ == joined(texts(parts@), sep@),
{
    let mut out = String::new();
    let mut i: usize = 0;
    while i < parts.len()
        invariant
            i <= parts@.len(),
            out@ == joined(texts(parts@).subrange(0, i as int), sep@),
        decreases parts@.len() - i,
    {
        let ghost done = texts(parts@).subrange(0, i as int);
        let ghost next = texts(parts@).subrange(0, i + 1);
        assert(next.drop_last() =~= done);
        if i > 0 {
            out.append(sep);
        } else {
            assert(done =~= Seq::<Seq<char>>::empty());
        }
        out.append(parts[i].as_str());
        i += 1;
    }
    assert(texts(parts@).subrange(0, parts@.len() as int) =~= texts(parts@));
    out
}

/// A location as `path:line:column`, one-based.
pub fn format_location(loc: &Location) -> (r: String)
    ensures
        r@ == location_text(*loc),
{
    let mut out = uri_to_path(&loc.uri);
    push_char(&mut out, ':');
    push_decimal_chars(&mut out, loc.start.line as u64 + 1);
    push_char(&mut out, ':');
    push_decimal_chars(&mut out, loc.start.character as u64 + 1);
    out
}

/// The lines of a list of locations.
pub open spec fn location_lines(locs: Seq<Location>) -> Seq<Seq<char>> {
    locs.map_values(|l: Location| location_text(l))
}

/// One location per line.
pub fn locations_report(locs: &Vec<Location>) -> (r: String)
    ensures
        r@ == joined(location_lines(locs@), seq!['\n']),
{
    let mut lines: Vec<String> = Vec::new();
    let mut i: usize = 0;
    while i < locs.len()
        invariant
            i <= locs@.len(),
            lines@.len() == i,
            texts(lines@) == location_lines(locs@).subrange(0, i as int),
        decreases locs@.len() - i,
    {
        let ghost before = lines@;
        let line = format_location(&locs[i]);
        lines.push(line);
        assert forall|j: int| 0 <= j <= i implies #[trigger] texts(lines@)[j] == location_lines(
            locs@,
        )[j] by {
            if j < i {
                assert(lines@[j] == before[j]);
                assert(texts(before)[j] == location_lines(locs@).subrange(0, i as int)[j]);
            }
        }
        i += 1;
        assert(texts(lines@) =~= location_lines(locs@).subrange(0, i as int));
    }
    assert(location_lines(locs@).subrange(0, locs@.len() as int) =~= location_lines(locs@));
    proof {
        reveal_strlit("\n");
        assert("\n"@ =~= seq!['\n']);
    }
    join(&lines, "\n")
}

/// The report of a definition request.
pub open spec fn definitions_text(locs: Seq<Location>) -> Seq<char> {
    if locs.len() == 0 {
        "No definition found."@
    } else {
        joined(location_lines(locs), seq!['\n'])
    }
}

/// The definitions found, one per line, or a note that there are none.
pub fn definitions_report(locs: &Vec<Location>) -> (r: String)
    ensures
        r@ == definitions_text(locs@),
{
    if locs.len() == 0 {
        "No definition found.".to_owned()
    } else {
        locations_report(locs)
    }
}

/// The report of a references request.
pub open spec fn references_text(locs: Seq<Location>) -> Seq<char> {
    if locs.len() == 0 {
        "No references found."@
    } else {
        "Found "@ + ascii_chars(decimal(locs.len())) + " reference(s):\n"@ + joined(
            location_lines(locs),
            seq!['\n'],
        )
    }
}

/// A count line and the references found, one per line, or a note that
/// there are none.
pub fn references_report(locs: &Vec<Location>) -> (r: String)
    ensures
        r@ == references_text(locs@),
{
    if locs.len() == 0 {
        return "No references found.".to_owned();
    }
    let mut out = "Found ".to_owned();
    push_decimal_chars(&mut out, locs.len() as u64);
    out.append(" reference(s):\n");
    let body = locations_report(locs);
    out.append(body.as_str());
    out
}

/// One diagnostic as the server reported it.
pub struct DiagnosticLine {
    pub start: Position,
    /// 1 error, 2 warning, 3 information, 4 hint.
    pub severity: Option<i32>,
    pub message: String,
}

pub open spec fn severity_text(severity: Option<i32>) -> Seq<char> {
    match severity {
        Some(1) => "ERROR"@,
        Some(2) => "WARNING"@,
        Some(3) => "INFO"@,
        Some(4) => "HINT"@,
        _ => "UNKNOWN"@,
    }
}

/// The name of a severity.
pub fn severity_label(severity: Option<i32>) -> (r: &'static str)
    ensures
        r@ == severity_text(severity),
{
    match severity {
        Some(1) => "ERROR",
        Some(2) => "WARNING",
        Some(3) => "INFO",
        Some(4) => "HINT",
        _ => "UNKNOWN",
    }
}

/// `line:column: [SEVERITY] message`, one-based.
pub open spec fn diagnostic_text(d: DiagnosticLine) -> Seq<char> {
    one_based(d.start.line) + seq![':'] + one_based(d.start.character) + ": ["@ + severity_text(
        d.severity,
    ) + "] "@ + d.message@
}

/// One diagnostic as a line.
pub fn format_diagnostic(d: &DiagnosticLine) -> (r: String)
    ensures
        r@ == diagnostic_text(*d),
{
    let mut out = String::new();
    push_decimal_chars(&mut out, d.start.line as u64 + 1);
    push_char(&mut out, ':');
    push_decimal_chars(&mut out, d.start.character as u64 + 1);
    out.append(": [");
    out.append(severity_label(d.severity));
    out.append("] ");
    out.append(d.message.as_str());
    out
}

/// The report of a diagnostics request.
pub open spec fn diagnostics_text(ds: Seq<DiagnosticLine>) -> Seq<char> {
    if ds.len() == 0 {
        "No diagnostics found."@
    } else {
        joined(ds.map_values(|d: DiagnosticLine| diagnostic_text(d)), seq!['\n'])
    }
}

/// The diagnostics, one per line, or a note that there are none.
pub fn diagnostics_report(ds: &Vec<DiagnosticLine>) -> (r: String)
    ensures
        r@ == diagnostics_text(ds@),
{
    if ds.len() == 0 {
        return "No diagnostics found.".to_owned();
    }
    let ghost all = ds@.map_values(|d: DiagnosticLine| diagnostic_text(d));
    let mut lines: Vec<String> = Vec::new();
    let mut i: usize = 0;
    while i < ds.len()
        invariant
            i <= ds@.len(),
            all == ds@.map_values(|d: DiagnosticLine| diagnostic_text(d)),
            lines@.len() == i,
            texts(lines@) == all.subrange(0, i as int),
        decreases ds@.len() - i,
    {
        let ghost before = lines@;
        let line = format_diagnostic(&ds[i]);
        lines.push(line);
        assert forall|j: int| 0 <= j <= i implies #[trigger] texts(lines@)[j] == all[j] by {
            if j < i {
                assert(lines@[j] == before[j]);
                assert(texts(before)[j] == all.subrange(0, i as int)[j]);
            }
        }
        i += 1;
        assert(texts(lines@) =~= all.subrange(0, i as int));
    }
    assert(all.subrange(0, ds@.len() as int) =~= all);
    proof {
        reveal_strlit("\n");
        assert("\n"@ =~= seq!['\n']);
    }
    join(&lines, "\n")
}

/// A fenced code block: three backquotes and the language, the value, and
/// three closing backquotes, each on its own line.
pub open spec fn code_block_text(language: Seq<char>, value: Seq<char>) -> Seq<char> {
    "```"@ + language + "\n"@ + value + "\n```"@
}

/// A value as a fenced code block in the given language.
pub fn code_block(language: &str, value: &str) -> (r: String)
    ensures
        r@ == code_block_text(language@, value@),
{
    let mut out = "```".to_owned();
    out.append(language);
    out.append("\n");
    out.append(value);
    out.append("\n```");
    out
}

} // verus!
