//! Parsing of one record of bacon's export file:
//! `severity|:|path|:|line_start|:|line_end|:|column_start|:|column_end|:|message|:|rendered|:|replacement`.
use vstd::prelude::*;
use crate::bridge::{ansi_stripped, parse_uri, strip_ansi, uri_accepts, MAX_URI_CHARS};
use crate::diagnostic::{
    option_text, with_added, Diagnostic, DiagnosticView, DocumentDiagnostics, Position, Range, Severity,
    SOURCE_TAG,
};
use crate::text::{
    chars_equal, chars_of, find_delim, join_path, next_delim, joined_path, parse_positive, parses_positive,
    positive_value, split_fields, split_fields_exec, string_of, strings_view, trim_final_newline, unescape_newlines,
    unescaped, without_final_newline,
};

verus! {

/// The number of fields of a record.
pub const RECORD_FIELDS: usize = 9;

/// The severity that a record's keyword stands for.
pub open spec fn line_severity(k: Seq<char>) -> Severity {
    if k == "warning"@ {
        Severity::Warning
    } else if k == "info"@ || k == "information"@ || k == "note"@ || k == "failure-note"@ {
        Severity::Information
    } else if k == "hint"@ || k == "help"@ {
        Severity::Hint
    } else {
        Severity::Error
    }
}

/// A character that a URI path holds as it is: a letter, a digit, one of
/// `-._~!$&'()*+,;=:@` or `/`.
pub open spec fn path_char_kept(c: char) -> bool {
    let u = c as u32;
    (48 <= u && u <= 57) || (65 <= u && u <= 90) || (97 <= u && u <= 122) || c == '-' || c == '.'
        || c == '_' || c == '~' || c == '!' || c == '$' || c == '&' || c == '\'' || c == '('
        || c == ')' || c == '*' || c == '+' || c == ',' || c == ';' || c == '=' || c == ':' || c
        == '@' || c == '/'
}

/// The UTF-8 encoding of the code point `u`.
pub open spec fn utf8_bytes(u: int) -> Seq<int> {
    if u < 0x80 {
        seq![u]
    } else if u < 0x800 {
        seq![0xc0 + u / 64, 0x80 + u % 64]
    } else if u < 0x10000 {
        seq![0xe0 + u / 4096, 0x80 + (u / 64) % 64, 0x80 + u % 64]
    } else {
        seq![0xf0 + u / 262144, 0x80 + (u / 4096) % 64, 0x80 + (u / 64) % 64, 0x80 + u % 64]
    }
}

/// The upper-case hexadecimal digit of `d`, below 16.
pub open spec fn hex_digit(d: int) -> char {
    seq!['0', '1', '2', '3', '4', '5', '6', '7', '8', '9', 'A', 'B', 'C', 'D', 'E', 'F'][d]
}

/// The escapes `%XX` of the bytes `b`.
pub open spec fn percent_bytes(b: Seq<int>) -> Seq<char>
    decreases b.len(),
{
    if b.len() == 0 {
        Seq::empty()
    } else {
        percent_bytes(b.drop_last()) + seq!['%', hex_digit((b.last() / 16) % 16), hex_digit(b.last() % 16)]
    }
}

/// `c` as a URI path holds it: itself, or the escapes of its UTF-8 bytes.
pub open spec fn encoded_char(c: char) -> Seq<char> {
    if path_char_kept(c) {
        seq![c]
    } else {
        percent_bytes(utf8_bytes(c as u32 as int))
    }
}

/// The path `p` with each character a URI path cannot hold percent-encoded.
pub open spec fn encoded_path(p: Seq<char>) -> Seq<char>
    decreases p.len(),
{
    if p.len() == 0 {
        Seq::empty()
    } else {
        encoded_path(p.drop_last()) + encoded_char(p.last())
    }
}

/// The URI text of the file at `path`.
pub open spec fn file_uri_text(path: Seq<char>) -> Seq<char> {
    "file://"@ + encoded_path(path)
}

fn push_byte(b: u32, digits: &Vec<char>, out: &mut Vec<char>)
    requires
        digits@ == seq!['0', '1', '2', '3', '4', '5', '6', '7', '8', '9', 'A', 'B', 'C', 'D', 'E', 'F'],
    ensures
        final(out)@ == old(out)@ + seq!['%', hex_digit((b as int / 16) % 16), hex_digit(b as int % 16)],
{
    out.push('%');
    out.push(digits[((b / 16) % 16) as usize]);
    out.push(digits[(b % 16) as usize]);
}

/// Appends `c` as a URI path holds it.
fn push_encoded(c: char, digits: &Vec<char>, out: &mut Vec<char>)
    requires
        digits@ == seq!['0', '1', '2', '3', '4', '5', '6', '7', '8', '9', 'A', 'B', 'C', 'D', 'E', 'F'],
    ensures
        final(out)@ == old(out)@ + encoded_char(c),
{
    let u = c as u32;
    let kept = (48 <= u && u <= 57) || (65 <= u && u <= 90) || (97 <= u && u <= 122) || c == '-'
        || c == '.' || c == '_' || c == '~' || c == '!' || c == '$' || c == '&' || c == '\'' || c
        == '(' || c == ')' || c == '*' || c == '+' || c == ',' || c == ';' || c == '=' || c == ':'
        || c == '@' || c == '/';
    let ghost start = out@;
    let ghost bytes = utf8_bytes(u as int);
    if kept {
        out.push(c);
        assert(out@ =~= start + encoded_char(c));
        return;
    }
    let ghost mut acc: Seq<int> = Seq::empty();
    assert(percent_bytes(acc) =~= Seq::<char>::empty());
    assert(out@ =~= start + percent_bytes(acc));
    if u < 0x80 {
        push_byte_tracked(u, digits, out, Ghost(start), Ghost(acc));
        proof { acc = acc.push(u as int); }
    } else if u < 0x800 {
        push_byte_tracked(0xc0 + u / 64, digits, out, Ghost(start), Ghost(acc));
        proof { acc = acc.push((0xc0 + u / 64) as int); }
        push_byte_tracked(0x80 + u % 64, digits, out, Ghost(start), Ghost(acc));
        proof { acc = acc.push((0x80 + u % 64) as int); }
    } else if u < 0x10000 {
        push_byte_tracked(0xe0 + u / 4096, digits, out, Ghost(start), Ghost(acc));
        proof { acc = acc.push((0xe0 + u / 4096) as int); }
        push_byte_tracked(0x80 + (u / 64) % 64, digits, out, Ghost(start), Ghost(acc));
        proof { acc = acc.push((0x80 + (u / 64) % 64) as int); }
        push_byte_tracked(0x80 + u % 64, digits, out, Ghost(start), Ghost(acc));
        proof { acc = acc.push((0x80 + u % 64) as int); }
    } else {
        push_byte_tracked(0xf0 + u / 262144, digits, out, Ghost(start), Ghost(acc));
        proof { acc = acc.push((0xf0 + u / 262144) as int); }
        push_byte_tracked(0x80 + (u / 4096) % 64, digits, out, Ghost(start), Ghost(acc));
        proof { acc = acc.push((0x80 + (u / 4096) % 64) as int); }
        push_byte_tracked(0x80 + (u / 64) % 64, digits, out, Ghost(start), Ghost(acc));
        proof { acc = acc.push((0x80 + (u / 64) % 64) as int); }
        push_byte_tracked(0x80 + u % 64, digits, out, Ghost(start), Ghost(acc));
        proof { acc = acc.push((0x80 + u % 64) as int); }
    }
    assert(acc =~= bytes);
}

fn push_byte_tracked(
    b: u32,
    digits: &Vec<char>,
    out: &mut Vec<char>,
    start: Ghost<Seq<char>>,
    acc: Ghost<Seq<int>>,
)
    requires
        digits@ == seq!['0', '1', '2', '3', '4', '5', '6', '7', '8', '9', 'A', 'B', 'C', 'D', 'E', 'F'],
        old(out)@ == start@ + percent_bytes(acc@),
    ensures
        final(out)@ == start@ + percent_bytes(acc@.push(b as int)),
{
    push_byte(b, digits, out);
    assert(acc@.push(b as int).drop_last() =~= acc@);
    assert(final(out)@ =~= start@ + percent_bytes(acc@.push(b as int)));
}

/// The path `p` with each character a URI path cannot hold percent-encoded.
pub fn encode_path(p: &Vec<char>) -> (r: Vec<char>)
    ensures
        r@ == encoded_path(p@),
{
    let digits = vec!['0', '1', '2', '3', '4', '5', '6', '7', '8', '9', 'A', 'B', 'C', 'D', 'E', 'F'];
    let mut out: Vec<char> = Vec::new();
    let mut i: usize = 0;
    assert(p@.subrange(0, 0) =~= Seq::<char>::empty());
    while i < p.len()
        invariant
            i <= p.len(),
            digits@ == seq!['0', '1', '2', '3', '4', '5', '6', '7', '8', '9', 'A', 'B', 'C', 'D', 'E', 'F'],
            out@ == encoded_path(p@.subrange(0, i as int)),
        decreases p.len() - i,
    {
        assert(p@.subrange(0, i + 1).drop_last() =~= p@.subrange(0, i as int));
        push_encoded(p[i], &digits, &mut out);
        i = i + 1;
    }
    assert(p@.subrange(0, p@.len() as int) =~= p@);
    out
}

/// The document identifier of the file at `path`, when the URI parser takes it.
pub open spec fn document_uri(path: Seq<char>) -> Option<Seq<char>> {
    let t = file_uri_text(path);
    if t.len() <= MAX_URI_CHARS && uri_accepts(t) {
        Some(t)
    } else {
        None
    }
}

/// The correction a record carries: its replacement field, unless that is `none`.
pub open spec fn record_correction(replacement: Seq<char>) -> Option<Seq<char>> {
    if replacement == "none"@ {
        None
    } else {
        Some(replacement)
    }
}

/// The zero-based range of one-based inclusive positions.
pub open spec fn range_of(ls: u32, le: u32, cs: u32, ce: u32) -> Range {
    Range {
        start: Position { line: (ls - 1) as u32, character: (cs - 1) as u32 },
        end: Position { line: (le - 1) as u32, character: (ce - 1) as u32 },
    }
}

/// The record splits into exactly nine fields (the last holds no further
/// delimiter), its four positions are positive, and its file makes a URI.
pub open spec fn record_well_formed(f: Seq<Seq<char>>, root: Seq<char>) -> bool {
    &&& f.len() == RECORD_FIELDS
    &&& next_delim(f[8], 0) == -1
    &&& parses_positive(f[2])
    &&& parses_positive(f[3])
    &&& parses_positive(f[4])
    &&& parses_positive(f[5])
    &&& document_uri(joined_path(root, f[1])) is Some
}

/// The document and diagnostic that the record `s` describes, with its file
/// resolved against `root`; `None` for a malformed record.
pub open spec fn record_diagnostic(s: Seq<char>, root: Seq<char>) -> Option<
    (Seq<char>, DiagnosticView),
> {
    let f = split_fields(s, RECORD_FIELDS as nat);
    if record_well_formed(f, root) {
        Some(
            (
                document_uri(joined_path(root, f[1]))->0,
                fields_diagnostic(f, ansi_stripped(f[7]))->0,
            ),
        )
    } else {
        None
    }
}

/// A well-formed record gives a diagnostic whose range is its one-based
/// positions made zero-based, whose severity follows the keyword table, and
/// whose correction is its replacement field, absent when that field is `none`.
pub proof fn lemma_record_fields(s: Seq<char>, root: Seq<char>)
    requires
        record_well_formed(split_fields(s, RECORD_FIELDS as nat), root),
    ensures
        record_diagnostic(s, root) is Some,
        ({
            let f = split_fields(s, RECORD_FIELDS as nat);
            let (doc, d) = record_diagnostic(s, root)->0;
            &&& d.range.start.line == positive_value(f[2]) - 1
            &&& d.range.end.line == positive_value(f[3]) - 1
            &&& d.range.start.character == positive_value(f[4]) - 1
            &&& d.range.end.character == positive_value(f[5]) - 1
            &&& d.severity == line_severity(f[0])
            &&& (f[8] == "none"@ ==> d.correction is None)
            &&& (f[8] != "none"@ ==> d.correction == Some(f[8]))
        }),
{
}

/// What a parse result holds.
pub open spec fn parsed_view(r: Option<(String, Diagnostic)>) -> Option<(Seq<char>, DiagnosticView)> {
    match r {
        Some((doc, d)) => Some((doc@, d@)),
        None => None,
    }
}

pub open spec fn option_view(r: Option<Diagnostic>) -> Option<DiagnosticView> {
    match r {
        Some(d) => Some(d@),
        None => None,
    }
}

/// The documents that `filter` lets through: all, or the one it names.
pub open spec fn admits(filter: Option<Seq<char>>, doc: Seq<char>) -> bool {
    match filter {
        Some(f) => f == doc,
        None => true,
    }
}

pub open spec fn filter_view(filter: Option<String>) -> Option<Seq<char>> {
    match filter {
        Some(f) => Some(f@),
        None => None,
    }
}

/// The identifier of the file at `path`: `file://` and the path, percent-encoded
/// where a URI path requires it, when the URI parser takes it.
pub fn file_uri(path: &Vec<char>) -> (r: Option<String>)
    ensures
        r is Some <==> document_uri(path@) is Some,
        r is Some ==> r->0@ == document_uri(path@)->0,
{
    let mut text = chars_of("file://");
    let mut tail = encode_path(path);
    text.append(&mut tail);
    assert(text@ == file_uri_text(path@));
    if text.len() > MAX_URI_CHARS {
        return None;
    }
    let s = string_of(&text);
    parse_uri(s.as_str())
}

/// The severity that `keyword` stands for.
pub fn keyword_severity(keyword: &Vec<char>) -> (r: Severity)
    ensures
        r == line_severity(keyword@),
{
    if chars_equal(keyword, "warning") {
        Severity::Warning
    } else if chars_equal(keyword, "info") || chars_equal(keyword, "information")
        || chars_equal(keyword, "note") || chars_equal(keyword, "failure-note") {
        Severity::Information
    } else if chars_equal(keyword, "hint") || chars_equal(keyword, "help") {
        Severity::Hint
    } else {
        Severity::Error
    }
}

/// The text a record reports, given the rendered field already stripped of its
/// escape sequences (`stripped`).
pub open spec fn message_from(message: Seq<char>, rendered: Seq<char>, stripped: Seq<char>) -> Seq<
    char,
> {
    if rendered == "none"@ {
        without_final_newline(unescaped(message))
    } else {
        without_final_newline(stripped)
    }
}

/// The diagnostic of a record's nine fields, given the document its file makes
/// and its rendered field stripped of escape sequences; `None` when a position is
/// not a positive integer.
pub open spec fn fields_diagnostic(f: Seq<Seq<char>>, stripped: Seq<char>) -> Option<DiagnosticView> {
    if parses_positive(f[2]) && parses_positive(f[3]) && parses_positive(f[4]) && parses_positive(
        f[5],
    ) {
        Some(
            DiagnosticView {
                range: range_of(
                    positive_value(f[2]),
                    positive_value(f[3]),
                    positive_value(f[4]),
                    positive_value(f[5]),
                ),
                severity: line_severity(f[0]),
                message: message_from(f[6], f[7], stripped),
                source: SOURCE_TAG@,
                correction: record_correction(f[8]),
            },
        )
    } else {
        None
    }
}

/// Bacon's export format.
pub struct Bacon;

impl Bacon {
    /// The severity that a record's keyword stands for.
    pub fn parse_severity(severity: &str) -> (r: Severity)
        ensures
            r == line_severity(severity@),
    {
        keyword_severity(&chars_of(severity))
    }

    /// Reads the first four of `fields` as positive integers: line start, line
    /// end, column start, column end.
    pub fn parse_positions(fields: &[&str]) -> (r: Option<(u32, u32, u32, u32)>)
        ensures
            r is Some <==> fields@.len() >= 4 && parses_positive(fields@[0]@) && parses_positive(
                fields@[1]@,
            ) && parses_positive(fields@[2]@) && parses_positive(fields@[3]@),
            r is Some ==> r->0 == (
                positive_value(fields@[0]@),
                positive_value(fields@[1]@),
                positive_value(fields@[2]@),
                positive_value(fields@[3]@),
            ),
    {
        if fields.len() < 4 {
            return None;
        }
        let a = parse_positive(&chars_of(fields[0]));
        let b = parse_positive(&chars_of(fields[1]));
        let c = parse_positive(&chars_of(fields[2]));
        let d = parse_positive(&chars_of(fields[3]));
        match (a, b, c, d) {
            (Some(a), Some(b), Some(c), Some(d)) => Some((a, b, c, d)),
            _ => None,
        }
    }

    /// Parses one record, resolving its file against `folder_path`. A record that
    /// does not split into exactly nine fields, has a position that is not a positive
    /// integer, or names a file that makes no URI gives `None`.
    pub fn parse_bacon_diagnostic_line(line: &str, folder_path: &str) -> (r: Option<(String, Diagnostic)>)
        ensures
            parsed_view(r) == record_diagnostic(line@, folder_path@),
            split_fields(line@, RECORD_FIELDS as nat).len() != RECORD_FIELDS ==> r is None,
            split_fields(line@, RECORD_FIELDS as nat).len() == RECORD_FIELDS && next_delim(
                split_fields(line@, RECORD_FIELDS as nat)[8],
                0,
            ) != -1 ==> r is None,
            ({
                let f = split_fields(line@, RECORD_FIELDS as nat);
                r is Some <==> record_well_formed(f, folder_path@)
            }),
            ({
                let f = split_fields(line@, RECORD_FIELDS as nat);
                r matches Some((doc, d)) ==> {
                    &&& d.range.start.line as int == positive_value(f[2]) - 1
                    &&& d.range.end.line as int == positive_value(f[3]) - 1
                    &&& d.range.start.character as int == positive_value(f[4]) - 1
                    &&& d.range.end.character as int == positive_value(f[5]) - 1
                    &&& d.severity == line_severity(f[0])
                    &&& (f[8] == "none"@ ==> d.correction is None)
                    &&& (f[8] != "none"@ ==> option_text(d.correction) == Some(f[8]))
                }
            }),
    {
        let chars = chars_of(line);
        let fields = split_fields_exec(&chars, RECORD_FIELDS);
        if fields.len() != RECORD_FIELDS {
            return None;
        }
        let ghost f = split_fields(line@, RECORD_FIELDS as nat);
        if find_delim(&fields[8], 0).is_some() {
            return None;
        }
        let file = join_path(&chars_of(folder_path), &fields[1]);
        let document = match file_uri(&file) {
            Some(d) => d,
            None => {
                return None;
            },
        };
        let rendered = string_of(&fields[7]);
        let stripped = if chars_equal(&fields[7], "none") {
            rendered
        } else {
            strip_ansi(rendered.as_str())
        };
        let mut texts: Vec<String> = Vec::new();
        let mut k: usize = 0;
        while k < fields.len()
            invariant
                k <= fields.len(),
                fields@.len() == RECORD_FIELDS,
                texts@.len() == k,
                forall|j: int| 0 <= j < k ==> #[trigger] texts@[j]@ == fields@[j]@,
            decreases fields.len() - k,
        {
            texts.push(string_of(&fields[k]));
            k = k + 1;
        }
        assert(strings_view(texts@) =~= f);
        assert(fields_diagnostic(f, stripped@) == fields_diagnostic(f, ansi_stripped(f[7])));
        match Self::diagnostic_from_fields(&texts, &stripped) {
            Some(d) => Some((document, d)),
            None => None,
        }
    }

    /// The diagnostic of a record's nine `fields`, given its rendered field
    /// stripped of escape sequences (`stripped`, read only when the rendered
    /// field is not `none`). A position that is not a positive integer gives
    /// `None`.
    pub fn diagnostic_from_fields(fields: &Vec<String>, stripped: &String) -> (r: Option<Diagnostic>)
        requires
            fields@.len() == RECORD_FIELDS,
        ensures
            option_view(r) == fields_diagnostic(strings_view(fields@), stripped@),
    {
        let ghost f = strings_view(fields@);
        let c2 = chars_of(fields[2].as_str());
        let c3 = chars_of(fields[3].as_str());
        let c4 = chars_of(fields[4].as_str());
        let c5 = chars_of(fields[5].as_str());
        let positions = (parse_positive(&c2), parse_positive(&c3), parse_positive(&c4), parse_positive(&c5));
        let (ls, le, cs, ce) = match positions {
            (Some(ls), Some(le), Some(cs), Some(ce)) => (ls, le, cs, ce),
            _ => {
                return None;
            },
        };
        let severity = keyword_severity(&chars_of(fields[0].as_str()));
        let rendered = chars_of(fields[7].as_str());
        let message = if chars_equal(&rendered, "none") {
            let mut m = unescape_newlines(&chars_of(fields[6].as_str()));
            trim_final_newline(&mut m);
            string_of(&m)
        } else {
            let mut m = chars_of(stripped.as_str());
            trim_final_newline(&mut m);
            string_of(&m)
        };
        let replacement = chars_of(fields[8].as_str());
        let correction = if chars_equal(&replacement, "none") {
            None
        } else {
            Some(fields[8].clone())
        };
        let range = Range {
            start: Position { line: ls - 1, character: cs - 1 },
            end: Position { line: le - 1, character: ce - 1 },
        };
        Some(Diagnostic { range, severity, message, source: SOURCE_TAG.to_owned(), correction })
    }

    /// Adds `diagnostic` for the document `path` when `filter` lets that document
    /// through.
    pub fn deduplicate_diagnostics(
        path: String,
        filter: &Option<String>,
        diagnostic: Diagnostic,
        into: &mut DocumentDiagnostics,
    )
        requires
            old(into).wf(),
        ensures
            final(into).wf(),
            final(into)@ == if admits(filter_view(*filter), path@) {
                with_added(old(into)@, path@, diagnostic@)
            } else {
                old(into)@
            },
    {
        let keep = match filter {
            Some(f) => *f == path,
            None => true,
        };
        if keep {
            into.add(path, diagnostic);
        }
    }
}

} // verus!
