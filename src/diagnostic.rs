//! The diagnostic record and the per-document collection that keeps one copy of
//! each distinct report.
use vstd::prelude::*;

verus! {

/// How serious a reported issue is.
#[derive(Clone, Copy, Debug, PartialEq, Eq, Structural)]
pub enum Severity {
    Error,
    Warning,
    Information,
    Hint,
}

/// A zero-based (line, column) location in a document.
#[derive(Clone, Copy, Debug, PartialEq, Eq, Structural)]
pub struct Position {
    pub line: u32,
    pub character: u32,
}

/// A span of a document, from `start` to `end`.
#[derive(Clone, Copy, Debug, PartialEq, Eq, Structural)]
pub struct Range {
    pub start: Position,
    pub end: Position,
}

/// The tag that names this tool as the origin of a diagnostic.
pub const SOURCE_TAG: &'static str = "bacon-ls";

/// One reported issue.
#[derive(Clone, Debug, PartialEq, Eq)]
pub struct Diagnostic {
    pub range: Range,
    pub severity: Severity,
    pub message: String,
    pub source: String,
    /// A suggested replacement for the text under `range`, if any.
    pub correction: Option<String>,
}

/// What a [`Diagnostic`] holds, with its text as character sequences.
pub struct DiagnosticView {
    pub range: Range,
    pub severity: Severity,
    pub message: Seq<char>,
    pub source: Seq<char>,
    pub correction: Option<Seq<char>>,
}

pub open spec fn option_text(o: Option<String>) -> Option<Seq<char>> {
    match o {
        Some(s) => Some(s@),
        None => None,
    }
}

impl View for Diagnostic {
    type V = DiagnosticView;

    open spec fn view(&self) -> DiagnosticView {
        DiagnosticView {
            range: self.range,
            severity: self.severity,
            message: self.message@,
            source: self.source@,
            correction: option_text(self.correction),
        }
    }
}

/// Two diagnostics report the same thing: equal range, severity and message. The
/// correction takes no part in this.
pub open spec fn same_report(a: DiagnosticView, b: DiagnosticView) -> bool {
    a.range == b.range && a.severity == b.severity && a.message == b.message
}

pub fn copy_text(o: &Option<String>) -> (r: Option<String>)
    ensures
        option_text(r) == option_text(*o),
{
    match o {
        Some(s) => Some(s.clone()),
        None => None,
    }
}

impl Diagnostic {
    /// A copy of this diagnostic.
    pub fn duplicate(&self) -> (r: Diagnostic)
        ensures
            r@ == self@,
    {
        Diagnostic {
            range: self.range,
            severity: self.severity,
            message: self.message.clone(),
            source: self.source.clone(),
            correction: copy_text(&self.correction),
        }
    }

    /// Whether `self` and `other` report the same thing.
    pub fn same_report_as(&self, other: &Diagnostic) -> (r: bool)
        ensures
            r == same_report(self@, other@),
    {
        self.range == other.range && self.severity == other.severity && self.message
            == other.message
    }
}

/// The diagnostics of one document, in the order they were first seen.
pub struct DocumentEntry {
    pub document: String,
    pub diagnostics: Vec<Diagnostic>,
}

pub open spec fn diagnostics_view(v: Seq<Diagnostic>) -> Seq<DiagnosticView> {
    v.map_values(|d: Diagnostic| d@)
}

impl View for DocumentEntry {
    type V = (Seq<char>, Seq<DiagnosticView>);

    open spec fn view(&self) -> (Seq<char>, Seq<DiagnosticView>) {
        (self.document@, diagnostics_view(self.diagnostics@))
    }
}

/// The index of the entry for `doc`, or -1.
pub open spec fn doc_index(m: Seq<(Seq<char>, Seq<DiagnosticView>)>, doc: Seq<char>) -> int {
    if exists|i: int| 0 <= i < m.len() && #[trigger] m[i].0 == doc {
        choose|i: int| 0 <= i < m.len() && #[trigger] m[i].0 == doc
    } else {
        -1
    }
}

/// `list` holds a diagnostic that reports the same thing as `d`.
pub open spec fn has_report(list: Seq<DiagnosticView>, d: DiagnosticView) -> bool {
    exists|j: int| 0 <= j < list.len() && same_report(#[trigger] list[j], d)
}

/// The diagnostics recorded for `doc` (none if it has no entry).
pub open spec fn diagnostics_of(m: Seq<(Seq<char>, Seq<DiagnosticView>)>, doc: Seq<char>) -> Seq<
    DiagnosticView,
> {
    let i = doc_index(m, doc);
    if i < 0 {
        Seq::empty()
    } else {
        m[i].1
    }
}

/// `m` after `d` is added for `doc`: appended to that document's list unless the
/// list already reports the same thing; a document seen for the first time gets a
/// new entry at the end.
pub open spec fn with_added(
    m: Seq<(Seq<char>, Seq<DiagnosticView>)>,
    doc: Seq<char>,
    d: DiagnosticView,
) -> Seq<(Seq<char>, Seq<DiagnosticView>)> {
    let i = doc_index(m, doc);
    if i < 0 {
        m.push((doc, seq![d]))
    } else if has_report(m[i].1, d) {
        m
    } else {
        m.update(i, (doc, m[i].1.push(d)))
    }
}

/// No two diagnostics of `list` report the same thing.
pub open spec fn reports_unique(list: Seq<DiagnosticView>) -> bool {
    forall|j: int, k: int|
        0 <= j < k < list.len() ==> !same_report(#[trigger] list[j], #[trigger] list[k])
}

/// Each document has at most one entry, and each list holds distinct reports.
pub open spec fn well_formed_documents(m: Seq<(Seq<char>, Seq<DiagnosticView>)>) -> bool {
    &&& forall|i: int, j: int| 0 <= i < j < m.len() ==> #[trigger] m[i].0 != #[trigger] m[j].0
    &&& forall|i: int| 0 <= i < m.len() ==> reports_unique(#[trigger] m[i].1)
    &&& forall|i: int| 0 <= i < m.len() ==> #[trigger] m[i].1.len() > 0
}

proof fn lemma_doc_index(m: Seq<(Seq<char>, Seq<DiagnosticView>)>, doc: Seq<char>, i: int)
    requires
        well_formed_documents(m),
        0 <= i < m.len(),
        m[i].0 == doc,
    ensures
        doc_index(m, doc) == i,
{
    assert(exists|k: int| 0 <= k < m.len() && #[trigger] m[k].0 == doc);
    let k = doc_index(m, doc);
    if k != i {
        if k < i {
            assert(m[k].0 != m[i].0);
        } else {
            assert(m[i].0 != m[k].0);
        }
    }
}

proof fn lemma_doc_absent(m: Seq<(Seq<char>, Seq<DiagnosticView>)>, doc: Seq<char>)
    requires
        forall|k: int| 0 <= k < m.len() ==> #[trigger] m[k].0 != doc,
    ensures
        doc_index(m, doc) == -1,
{
}

/// Adding keeps each document once and each report once per document.
pub proof fn lemma_added_well_formed(
    m: Seq<(Seq<char>, Seq<DiagnosticView>)>,
    doc: Seq<char>,
    d: DiagnosticView,
)
    requires
        well_formed_documents(m),
    ensures
        well_formed_documents(with_added(m, doc, d)),
        has_report(diagnostics_of(with_added(m, doc, d), doc), d),
{
    let i = doc_index(m, doc);
    let r = with_added(m, doc, d);
    if i < 0 {
        assert(forall|k: int| 0 <= k < m.len() ==> #[trigger] m[k].0 != doc);
        lemma_doc_index(r, doc, m.len() as int);
        assert(r[m.len() as int].1[0] == d);
    } else {
        assert(m[i].0 == doc);
        if has_report(m[i].1, d) {
            lemma_doc_index(r, doc, i);
        } else {
            let l = m[i].1.push(d);
            assert(reports_unique(m[i].1));
            assert forall|j: int, k: int| 0 <= j < k < l.len() implies !same_report(
                #[trigger] l[j],
                #[trigger] l[k],
            ) by {
                if k == l.len() - 1 {
                    assert(l[k] == d);
                    assert(m[i].1[j] == l[j]);
                }
            }
            assert(reports_unique(r[i].1));
            lemma_doc_index(r, doc, i);
            assert(l[l.len() - 1] == d);
        }
    }
}

/// A report already recorded for a document stays recorded when anything is
/// added.
pub proof fn lemma_add_keeps_report(
    m: Seq<(Seq<char>, Seq<DiagnosticView>)>,
    doc2: Seq<char>,
    d2: DiagnosticView,
    doc: Seq<char>,
    d: DiagnosticView,
)
    requires
        well_formed_documents(m),
        has_report(diagnostics_of(m, doc), d),
    ensures
        well_formed_documents(with_added(m, doc2, d2)),
        has_report(diagnostics_of(with_added(m, doc2, d2), doc), d),
{
    lemma_added_well_formed(m, doc2, d2);
    let i = doc_index(m, doc);
    let r = with_added(m, doc2, d2);
    assert(i >= 0);
    assert(exists|k: int| 0 <= k < m.len() && #[trigger] m[k].0 == doc);
    let w = choose|j: int| 0 <= j < m[i].1.len() && same_report(#[trigger] m[i].1[j], d);
    let j2 = doc_index(m, doc2);
    if j2 < 0 {
        assert(r[i] == m[i]);
        lemma_doc_index(r, doc, i);
        assert(same_report(r[i].1[w], d));
    } else if has_report(m[j2].1, d2) {
    } else {
        lemma_doc_index(r, doc, i);
        if j2 == i {
            assert(r[i].1[w] == m[i].1[w]);
        } else {
            assert(r[i] == m[i]);
        }
        assert(same_report(r[i].1[w], d));
    }
}

/// Adding a diagnostic a second time for the same document, or one that reports
/// the same thing, changes nothing: the document's list holds exactly one entry
/// for that report.
pub proof fn lemma_add_idempotent(
    m: Seq<(Seq<char>, Seq<DiagnosticView>)>,
    doc: Seq<char>,
    d1: DiagnosticView,
    d2: DiagnosticView,
)
    requires
        well_formed_documents(m),
        same_report(d1, d2),
    ensures
        with_added(with_added(m, doc, d1), doc, d2) == with_added(m, doc, d1),
        exists|j: int|
            #![trigger diagnostics_of(with_added(m, doc, d1), doc)[j]]
            {
                let l = diagnostics_of(with_added(with_added(m, doc, d1), doc, d2), doc);
                &&& 0 <= j < l.len()
                &&& same_report(l[j], d1)
                &&& forall|k: int| 0 <= k < l.len() && same_report(#[trigger] l[k], d1) ==> k == j
            },
{
    let r = with_added(m, doc, d1);
    lemma_added_well_formed(m, doc, d1);
    let l = diagnostics_of(r, doc);
    let j = choose|j: int| 0 <= j < l.len() && same_report(#[trigger] l[j], d1);
    assert(same_report(l[j], d2));
    assert(has_report(diagnostics_of(r, doc), d2));
    let i = doc_index(r, doc);
    assert(reports_unique(r[i].1));
    assert forall|k: int| 0 <= k < l.len() && same_report(#[trigger] l[k], d1) implies k == j by {
        if k < j {
            assert(!same_report(l[k], l[j]));
        } else if j < k {
            assert(!same_report(l[j], l[k]));
        }
    }
    assert(diagnostics_of(r, doc)[j] == l[j]);
}

/// Diagnostics keyed by document, each document's list in first-seen order and
/// free of repeated reports.
pub struct DocumentDiagnostics {
    entries: Vec<DocumentEntry>,
}

impl View for DocumentDiagnostics {
    type V = Seq<(Seq<char>, Seq<DiagnosticView>)>;

    closed spec fn view(&self) -> Seq<(Seq<char>, Seq<DiagnosticView>)> {
        self.entries@.map_values(|e: DocumentEntry| e@)
    }
}

impl DocumentDiagnostics {
    pub open spec fn wf(&self) -> bool {
        well_formed_documents(self@)
    }

    /// An empty collection.
    pub fn new() -> (r: DocumentDiagnostics)
        ensures
            r.wf(),
            r@ == Seq::<(Seq<char>, Seq<DiagnosticView>)>::empty(),
    {
        let r = DocumentDiagnostics { entries: Vec::new() };
        assert(r@ =~= Seq::<(Seq<char>, Seq<DiagnosticView>)>::empty());
        r
    }

    /// The entries, one per document, in the order the documents were first seen.
    pub fn entries(&self) -> (r: &Vec<DocumentEntry>)
        ensures
            r@.map_values(|e: DocumentEntry| e@) == self@,
    {
        &self.entries
    }

    /// Adds `diagnostic` for `document` unless that document already has a
    /// diagnostic that reports the same thing.
    pub fn add(&mut self, document: String, diagnostic: Diagnostic)
        requires
            old(self).wf(),
        ensures
            final(self).wf(),
            final(self)@ == with_added(old(self)@, document@, diagnostic@),
    {
        proof {
            lemma_added_well_formed(self@, document@, diagnostic@);
        }
        let ghost m = self@;
        let mut i: usize = 0;
        while i < self.entries.len()
            invariant
                i <= self.entries.len(),
                m == self@,
                m == old(self)@,
                well_formed_documents(m),
                forall|k: int| 0 <= k < i ==> #[trigger] m[k].0 != document@,
            decreases self.entries.len() - i,
        {
            if self.entries[i].document == document {
                proof {
                    lemma_doc_index(m, document@, i as int);
                }
                let mut j: usize = 0;
                let n = self.entries[i].diagnostics.len();
                while j < n
                    invariant
                        i < self.entries.len(),
                        m == self@,
                        m == old(self)@,
                        well_formed_documents(m),
                        doc_index(m, document@) == i,
                        m[i as int].0 == document@,
                        n == self.entries@[i as int].diagnostics.len(),
                        j <= n,
                        forall|k: int|
                            0 <= k < j ==> !same_report(
                                #[trigger] m[i as int].1[k],
                                diagnostic@,
                            ),
                    decreases n - j,
                {
                    if self.entries[i].diagnostics[j].same_report_as(&diagnostic) {
                        assert(m[i as int].1[j as int] == self.entries@[i as int].diagnostics@[j as int]@);
                        assert(has_report(m[i as int].1, diagnostic@));
                        assert(with_added(m, document@, diagnostic@) == m);
                        return;
                    }
                    j = j + 1;
                }
                assert(!has_report(m[i as int].1, diagnostic@));
                let ghost old_entries = self.entries@;
                let ghost dv = diagnostic@;
                self.entries[i].diagnostics.push(diagnostic);
                proof {
                    let target = m.update(i as int, (document@, m[i as int].1.push(dv)));
                    assert(self.entries@.len() == old_entries.len());
                    assert forall|k: int| 0 <= k < self@.len() implies #[trigger] self@[k]
                        == target[k] by {
                        if k == i {
                            assert(self.entries@[k].diagnostics@ =~= old_entries[k].diagnostics@.push(
                                self.entries@[k].diagnostics@.last(),
                            ));
                            assert(diagnostics_view(self.entries@[k].diagnostics@) =~= m[k].1.push(
                                dv,
                            ));
                        } else {
                            assert(self.entries@[k] == old_entries[k]);
                        }
                    }
                    assert(self@ =~= target);
                }
                return;
            }
            i = i + 1;
        }
        proof {
            lemma_doc_absent(m, document@);
        }
        let mut list: Vec<Diagnostic> = Vec::new();
        list.push(diagnostic);
        self.entries.push(DocumentEntry { document, diagnostics: list });
        assert(self@ =~= with_added(m, document@, diagnostic@)) by {
            assert(diagnostics_view(list@) =~= seq![diagnostic@]);
        }
    }

    /// Copies of the diagnostics recorded for `document`, in order.
    pub fn diagnostics_for(&self, document: &String) -> (r: Vec<Diagnostic>)
        requires
            self.wf(),
        ensures
            diagnostics_view(r@) == diagnostics_of(self@, document@),
    {
        let mut i: usize = 0;
        while i < self.entries.len()
            invariant
                i <= self.entries.len(),
                well_formed_documents(self@),
                forall|k: int| 0 <= k < i ==> #[trigger] self@[k].0 != document@,
            decreases self.entries.len() - i,
        {
            if self.entries[i].document == *document {
                proof {
                    lemma_doc_index(self@, document@, i as int);
                }
                let list = &self.entries[i].diagnostics;
                let mut r: Vec<Diagnostic> = Vec::new();
                let mut j: usize = 0;
                while j < list.len()
                    invariant
                        j <= list.len(),
                        i < self.entries.len(),
                        list == &self.entries@[i as int].diagnostics,
                        diagnostics_view(r@) =~= diagnostics_view(list@.subrange(0, j as int)),
                    decreases list.len() - j,
                {
                    let d = list[j].duplicate();
                    assert(list@.subrange(0, j + 1) =~= list@.subrange(0, j as int).push(list@[j as int]));
                    assert(diagnostics_view(r@.push(d)) =~= diagnostics_view(r@).push(d@));
                    assert(diagnostics_view(list@.subrange(0, j as int).push(list@[j as int]))
                        =~= diagnostics_view(list@.subrange(0, j as int)).push(list@[j as int]@));
                    r.push(d);
                    j = j + 1;
                    assert(diagnostics_view(r@) =~= diagnostics_view(list@.subrange(0, j as int)));
                }
                assert(list@.subrange(0, list@.len() as int) =~= list@);
                return r;
            }
            i = i + 1;
        }
        proof {
            lemma_doc_absent(self@, document@);
        }
        let r: Vec<Diagnostic> = Vec::new();
        assert(diagnostics_view(r@) =~= Seq::<DiagnosticView>::empty());
        r
    }
}

} // verus!
