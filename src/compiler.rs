//! The compiler's structured diagnostics: each reported span, and each span of a
//! nested child message, becomes one diagnostic of the file it points into.
use vstd::prelude::*;
use crate::bridge::{ansi_stripped, canonical_path, strip_ansi};
use crate::diagnostic::{
    copy_text, option_text, with_added, Diagnostic, DiagnosticView, DocumentDiagnostics, Position,
    Range, Severity, SOURCE_TAG,
};
use crate::line_format::{document_uri, file_uri, range_of};
use crate::text::{
    chars_equal, chars_of, join_path, joined_path, string_of, trim_final_newline,
    without_final_newline,
};

verus! {

/// A source location that the compiler reports, one-based and inclusive.
pub struct CompilerSpan {
    pub file_name: String,
    pub line_start: u32,
    pub line_end: u32,
    pub column_start: u32,
    pub column_end: u32,
    pub suggested_replacement: Option<String>,
}

/// A nested sub-message of a compiler diagnostic, such as a help note.
pub struct CompilerChild {
    pub message: String,
    pub level: String,
    pub spans: Vec<CompilerSpan>,
}

/// One message of the compiler's stream.
pub struct CompilerMessage {
    pub message_type: String,
    pub rendered: String,
    pub level: String,
    pub spans: Vec<CompilerSpan>,
    pub children: Vec<CompilerChild>,
}

pub struct SpanView {
    pub file_name: Seq<char>,
    pub line_start: u32,
    pub line_end: u32,
    pub column_start: u32,
    pub column_end: u32,
    pub suggested_replacement: Option<Seq<char>>,
}

impl View for CompilerSpan {
    type V = SpanView;

    open spec fn view(&self) -> SpanView {
        SpanView {
            file_name: self.file_name@,
            line_start: self.line_start,
            line_end: self.line_end,
            column_start: self.column_start,
            column_end: self.column_end,
            suggested_replacement: option_text(self.suggested_replacement),
        }
    }
}

impl CompilerSpan {
    pub fn duplicate(&self) -> (r: CompilerSpan)
        ensures
            r@ == self@,
    {
        CompilerSpan {
            file_name: self.file_name.clone(),
            line_start: self.line_start,
            line_end: self.line_end,
            column_start: self.column_start,
            column_end: self.column_end,
            suggested_replacement: copy_text(&self.suggested_replacement),
        }
    }
}

/// A span together with the level and text it is reported with.
pub struct SpanEntry {
    pub level: String,
    pub message: String,
    pub span: CompilerSpan,
}

pub struct SpanEntryView {
    pub level: Seq<char>,
    pub message: Seq<char>,
    pub span: SpanView,
}

impl View for SpanEntry {
    type V = SpanEntryView;

    open spec fn view(&self) -> SpanEntryView {
        SpanEntryView { level: self.level@, message: self.message@, span: self.span@ }
    }
}

pub open spec fn entries_view(v: Seq<SpanEntry>) -> Seq<SpanEntryView> {
    v.map_values(|e: SpanEntry| e@)
}

/// The entries of `spans`, each reported at `level` with `message`.
pub open spec fn span_entries_of(level: Seq<char>, message: Seq<char>, spans: Seq<CompilerSpan>) -> Seq<
    SpanEntryView,
> {
    spans.map_values(|s: CompilerSpan| SpanEntryView { level, message, span: s@ })
}

/// The entries of the spans of `children`, child by child.
pub open spec fn children_entries(children: Seq<CompilerChild>) -> Seq<SpanEntryView>
    decreases children.len(),
{
    if children.len() == 0 {
        Seq::empty()
    } else {
        let c = children.last();
        children_entries(children.drop_last()) + span_entries_of(c.level@, c.message@, c.spans@)
    }
}

/// The text a diagnostic message reports: its rendered form without escape
/// sequences or one final line break.
pub open spec fn rendered_text(rendered: Seq<char>) -> Seq<char> {
    without_final_newline(ansi_stripped(rendered))
}

/// The entries of one message: none unless it is a diagnostic; else its own
/// spans with its rendered text, then those of its children with their messages.
pub open spec fn message_entries(m: CompilerMessage) -> Seq<SpanEntryView> {
    if m.message_type@ == "diagnostic"@ {
        span_entries_of(m.level@, rendered_text(m.rendered@), m.spans@) + children_entries(
            m.children@,
        )
    } else {
        Seq::empty()
    }
}

/// The entries of a stream of messages, in order; lines that held no message add
/// none.
pub open spec fn all_entries(messages: Seq<Option<CompilerMessage>>) -> Seq<SpanEntryView>
    decreases messages.len(),
{
    if messages.len() == 0 {
        Seq::empty()
    } else {
        all_entries(messages.drop_last()) + match messages.last() {
            Some(m) => message_entries(m),
            None => Seq::empty(),
        }
    }
}

/// The severity of a compiler level.
pub open spec fn compiler_severity(level: Seq<char>) -> Severity {
    if level == "warning"@ || level == "failure-note"@ {
        Severity::Warning
    } else if level == "info"@ || level == "information"@ || level == "note"@ {
        Severity::Information
    } else if level == "hint"@ || level == "help"@ {
        Severity::Hint
    } else {
        Severity::Error
    }
}

/// All four positions of the span are at least one.
pub open spec fn span_positive(s: SpanView) -> bool {
    s.line_start >= 1 && s.line_end >= 1 && s.column_start >= 1 && s.column_end >= 1
}

/// The diagnostic an entry reports.
pub open spec fn entry_diagnostic(e: SpanEntryView) -> DiagnosticView {
    DiagnosticView {
        range: range_of(e.span.line_start, e.span.line_end, e.span.column_start, e.span.column_end),
        severity: compiler_severity(e.level),
        message: e.message,
        source: SOURCE_TAG@,
        correction: e.span.suggested_replacement,
    }
}

/// `m` after the entry `e` is added under `document`; no document (its file
/// could not be resolved) or a zero position adds nothing.
pub open spec fn added_span(
    m: Seq<(Seq<char>, Seq<DiagnosticView>)>,
    document: Option<Seq<char>>,
    e: SpanEntryView,
) -> Seq<(Seq<char>, Seq<DiagnosticView>)> {
    match document {
        Some(doc) => if span_positive(e.span) {
            with_added(m, doc, entry_diagnostic(e))
        } else {
            m
        },
        None => m,
    }
}

/// `m` after each entry is added under its document, in order.
pub open spec fn compiled(
    m: Seq<(Seq<char>, Seq<DiagnosticView>)>,
    entries: Seq<SpanEntryView>,
    documents: Seq<Option<Seq<char>>>,
) -> Seq<(Seq<char>, Seq<DiagnosticView>)>
    decreases entries.len(),
{
    if entries.len() == 0 {
        m
    } else {
        added_span(
            compiled(m, entries.drop_last(), documents.drop_last()),
            documents.last(),
            entries.last(),
        )
    }
}

pub open spec fn documents_view(v: Seq<Option<String>>) -> Seq<Option<Seq<char>>> {
    v.map_values(|o: Option<String>| option_text(o))
}

fn push_span_entries(level: &String, message: &String, spans: &Vec<CompilerSpan>, out: &mut Vec<SpanEntry>)
    ensures
        entries_view(final(out)@) == entries_view(old(out)@) + span_entries_of(
            level@,
            message@,
            spans@,
        ),
{
    let ghost base = entries_view(out@);
    let mut j: usize = 0;
    while j < spans.len()
        invariant
            j <= spans.len(),
            entries_view(out@) == base + span_entries_of(level@, message@, spans@.subrange(0, j as int)),
        decreases spans.len() - j,
    {
        let e = SpanEntry { level: level.clone(), message: message.clone(), span: spans[j].duplicate() };
        assert(span_entries_of(level@, message@, spans@.subrange(0, j + 1)) =~= span_entries_of(
            level@,
            message@,
            spans@.subrange(0, j as int),
        ).push(e@));
        assert(entries_view(out@.push(e)) =~= entries_view(out@).push(e@));
        out.push(e);
        j = j + 1;
    }
    assert(spans@.subrange(0, spans@.len() as int) =~= spans@);
}

/// The compiler's output format.
pub struct Cargo;

impl Cargo {
    /// The severity of a compiler level.
    pub fn parse_severity(level: &str) -> (r: Severity)
        ensures
            r == compiler_severity(level@),
    {
        let k = chars_of(level);
        if chars_equal(&k, "warning") || chars_equal(&k, "failure-note") {
            Severity::Warning
        } else if chars_equal(&k, "info") || chars_equal(&k, "information") || chars_equal(
            &k,
            "note",
        ) {
            Severity::Information
        } else if chars_equal(&k, "hint") || chars_equal(&k, "help") {
            Severity::Hint
        } else {
            Severity::Error
        }
    }

    /// The spans of a stream of messages, each with the level and text it is
    /// reported with.
    pub fn span_entries(messages: &Vec<Option<CompilerMessage>>) -> (r: Vec<SpanEntry>)
        ensures
            entries_view(r@) == all_entries(messages@),
    {
        let mut out: Vec<SpanEntry> = Vec::new();
        let mut i: usize = 0;
        assert(entries_view(out@) =~= all_entries(messages@.subrange(0, 0)));
        while i < messages.len()
            invariant
                i <= messages.len(),
                entries_view(out@) == all_entries(messages@.subrange(0, i as int)),
            decreases messages.len() - i,
        {
            assert(messages@.subrange(0, i + 1).drop_last() =~= messages@.subrange(0, i as int));
            let ghost before = entries_view(out@);
            match &messages[i] {
                Some(m) => {
                    if chars_equal(&chars_of(m.message_type.as_str()), "diagnostic") {
                        let stripped = strip_ansi(m.rendered.as_str());
                        let mut text = chars_of(stripped.as_str());
                        trim_final_newline(&mut text);
                        let rendered = string_of(&text);
                        push_span_entries(&m.level, &rendered, &m.spans, &mut out);
                        let ghost own = entries_view(out@);
                        let mut c: usize = 0;
                        assert(m.children@.subrange(0, 0) =~= Seq::<CompilerChild>::empty());
                        assert(own =~= own + children_entries(m.children@.subrange(0, 0)));
                        while c < m.children.len()
                            invariant
                                c <= m.children.len(),
                                entries_view(out@) == own + children_entries(
                                    m.children@.subrange(0, c as int),
                                ),
                            decreases m.children.len() - c,
                        {
                            let child = &m.children[c];
                            push_span_entries(&child.level, &child.message, &child.spans, &mut out);
                            assert(m.children@.subrange(0, c + 1).drop_last() =~= m.children@.subrange(0, c as int));
                            c = c + 1;
                            assert(entries_view(out@) =~= own + children_entries(
                                m.children@.subrange(0, c as int),
                            ));
                        }
                        assert(m.children@.subrange(0, m.children@.len() as int) =~= m.children@);
                        assert(entries_view(out@) =~= before + message_entries(*m));
                    } else {
                        assert(entries_view(out@) =~= before + message_entries(*m));
                    }
                },
                None => {
                    assert(entries_view(out@) =~= before + Seq::<SpanEntryView>::empty());
                },
            }
            i = i + 1;
        }
        assert(messages@.subrange(0, messages@.len() as int) =~= messages@);
        out
    }

    /// The paths of the entries' files, anchored at the working directory `cwd`.
    pub fn span_paths(cwd: &str, entries: &Vec<SpanEntry>) -> (r: Vec<String>)
        ensures
            r@.len() == entries@.len(),
            forall|k: int|
                0 <= k < r@.len() ==> #[trigger] r@[k]@ == joined_path(
                    cwd@,
                    entries@[k].span.file_name@,
                ),
    {
        let root = chars_of(cwd);
        let mut r: Vec<String> = Vec::new();
        let mut k: usize = 0;
        while k < entries.len()
            invariant
                k <= entries.len(),
                root@ == cwd@,
                r@.len() == k,
                forall|j: int|
                    0 <= j < k ==> #[trigger] r@[j]@ == joined_path(
                        cwd@,
                        entries@[j].span.file_name@,
                    ),
            decreases entries.len() - k,
        {
            let p = join_path(&root, &chars_of(entries[k].span.file_name.as_str()));
            r.push(string_of(&p));
            k = k + 1;
        }
        r
    }

    /// Adds the diagnostic of one span, reported at `severity` with `message`,
    /// under `document`, the identifier of the span's file.
    pub fn maybe_add_diagnostic(
        document: &Option<String>,
        severity: &String,
        message: &String,
        span: &CompilerSpan,
        diagnostics: &mut DocumentDiagnostics,
    )
        requires
            old(diagnostics).wf(),
        ensures
            final(diagnostics).wf(),
            final(diagnostics)@ == added_span(
                old(diagnostics)@,
                option_text(*document),
                SpanEntryView { level: severity@, message: message@, span: span@ },
            ),
    {
        let document = match document {
            Some(d) => d.clone(),
            None => {
                return;
            },
        };
        if span.line_start == 0 || span.line_end == 0 || span.column_start == 0 || span.column_end
            == 0 {
            return;
        }
        let diagnostic = Diagnostic {
            range: Range {
                start: Position { line: span.line_start - 1, character: span.column_start - 1 },
                end: Position { line: span.line_end - 1, character: span.column_end - 1 },
            },
            severity: Self::parse_severity(severity.as_str()),
            message: message.clone(),
            source: SOURCE_TAG.to_owned(),
            correction: copy_text(&span.suggested_replacement),
        };
        diagnostics.add(document, diagnostic);
    }

    /// The diagnostics of `entries`, each filed under `documents[k]`, the
    /// identifier of its file (none when the file could not be resolved).
    pub fn resolved_diagnostics(entries: &Vec<SpanEntry>, documents: &Vec<Option<String>>) -> (r:
        DocumentDiagnostics)
        requires
            documents@.len() == entries@.len(),
        ensures
            r.wf(),
            r@ == compiled(Seq::empty(), entries_view(entries@), documents_view(documents@)),
    {
        let mut r = DocumentDiagnostics::new();
        let ghost ev = entries_view(entries@);
        let ghost rv = documents_view(documents@);
        let mut k: usize = 0;
        assert(ev.subrange(0, 0) =~= Seq::<SpanEntryView>::empty());
        while k < entries.len()
            invariant
                k <= entries.len(),
                documents@.len() == entries@.len(),
                ev == entries_view(entries@),
                rv == documents_view(documents@),
                r.wf(),
                r@ == compiled(Seq::empty(), ev.subrange(0, k as int), rv.subrange(0, k as int)),
            decreases entries.len() - k,
        {
            assert(ev.subrange(0, k + 1).drop_last() =~= ev.subrange(0, k as int));
            assert(rv.subrange(0, k + 1).drop_last() =~= rv.subrange(0, k as int));
            let e = &entries[k];
            Self::maybe_add_diagnostic(&documents[k], &e.level, &e.message, &e.span, &mut r);
            k = k + 1;
        }
        assert(ev.subrange(0, entries@.len() as int) =~= ev);
        assert(rv.subrange(0, entries@.len() as int) =~= rv);
        r
    }

    /// The diagnostics of a stream of compiler messages, with each span's file
    /// anchored at the working directory `cwd`, resolved on disk, and made a
    /// document identifier. Whatever the file system answers, the result is the
    /// one `resolved_diagnostics` gives for some document of each span.
    pub fn cargo_diagnostics(cwd: &str, messages: &Vec<Option<CompilerMessage>>) -> (r:
        DocumentDiagnostics)
        ensures
            r.wf(),
            exists|res: Seq<Option<Seq<char>>>|
                {
                    &&& res.len() == all_entries(messages@).len()
                    &&& forall|k: int|
                        0 <= k < res.len() && #[trigger] res[k] is Some ==> exists|p: Seq<char>|
                            document_uri(p) == res[k]
                    &&& r@ == compiled(Seq::empty(), all_entries(messages@), res)
                },
    {
        let entries = Self::span_entries(messages);
        let paths = Self::span_paths(cwd, &entries);
        let mut documents: Vec<Option<String>> = Vec::new();
        let mut k: usize = 0;
        while k < paths.len()
            invariant
                k <= paths.len(),
                documents@.len() == k,
                forall|j: int|
                    0 <= j < k && #[trigger] documents_view(documents@)[j] is Some ==> exists|
                        p: Seq<char>,
                    | document_uri(p) == documents_view(documents@)[j],
            decreases paths.len() - k,
        {
            let document = match canonical_path(paths[k].as_str()) {
                Some(c) => {
                    let cc = chars_of(c.as_str());
                    let d = file_uri(&cc);
                    assert(d is Some ==> document_uri(cc@) == option_text(d));
                    d
                },
                None => None,
            };
            let ghost before = documents_view(documents@);
            documents.push(document);
            assert(documents_view(documents@) =~= before.push(option_text(document)));
            k = k + 1;
        }
        let r = Self::resolved_diagnostics(&entries, &documents);
        assert(documents_view(documents@).len() == all_entries(messages@).len());
        r
    }
}

} // verus!
