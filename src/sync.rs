//! The decisions of the synchronization engine: which documents are open, what a
//! refresh publishes, and how the background tasks react to their events. The
//! service runs the I/O and hands each outcome back here.
use vstd::prelude::*;
use crate::diagnostic::{
    diagnostics_of, diagnostics_view, doc_index, Diagnostic, DiagnosticView,
    DocumentDiagnostics,
};

verus! {

/// Where diagnostics come from, fixed for a session.
#[derive(Clone, Copy, Debug, PartialEq, Eq, Structural)]
pub enum Backend {
    /// Bacon's export file.
    Bacon,
    /// A compiler run.
    Cargo,
}

/// The kind of one file-system event of a debounced batch.
#[derive(Clone, Copy, Debug, PartialEq, Eq, Structural)]
pub enum WatchEventKind {
    Any,
    Access,
    Create,
    Modify,
    Remove,
    Other,
}

/// Some event of the batch is a modification.
pub open spec fn has_modify(kinds: Seq<WatchEventKind>) -> bool {
    exists|i: int| 0 <= i < kinds.len() && kinds[i] == WatchEventKind::Modify
}

/// Whether a debounced batch of events calls for a refresh: it does when at least
/// one event modified the watched file; creation or metadata alone do not.
pub fn batch_triggers_refresh(kinds: &Vec<WatchEventKind>) -> (r: bool)
    ensures
        r == has_modify(kinds@),
{
    let mut i: usize = 0;
    while i < kinds.len()
        invariant
            i <= kinds.len(),
            forall|j: int| 0 <= j < i ==> kinds@[j] != WatchEventKind::Modify,
        decreases kinds.len() - i,
    {
        if kinds[i] == WatchEventKind::Modify {
            return true;
        }
        i = i + 1;
    }
    false
}

/// Diagnostics to send for one document, tagged with the pass's version.
pub struct Publication {
    pub document: String,
    pub diagnostics: Vec<Diagnostic>,
    pub version: i32,
}

pub open spec fn publication_view(p: Publication) -> (Seq<char>, Seq<DiagnosticView>, i32) {
    (p.document@, diagnostics_view(p.diagnostics@), p.version)
}

pub open spec fn publications_view(v: Seq<Publication>) -> Seq<(Seq<char>, Seq<DiagnosticView>, i32)> {
    v.map_values(|p: Publication| publication_view(p))
}

/// The state the engine keeps: the open documents, the last version handed out,
/// the backend, and whether the session was cancelled.
pub struct SyncEngine {
    open_files: Vec<String>,
    version: i32,
    backend: Backend,
    cancelled: bool,
}

pub open spec fn texts(v: Seq<String>) -> Seq<Seq<char>> {
    v.map_values(|s: String| s@)
}

/// The entries of `m` whose document is open, each tagged with `version`.
pub open spec fn open_entries(
    m: Seq<(Seq<char>, Seq<DiagnosticView>)>,
    open: Set<Seq<char>>,
    version: i32,
) -> Seq<(Seq<char>, Seq<DiagnosticView>, i32)>
    decreases m.len(),
{
    if m.len() == 0 {
        Seq::empty()
    } else {
        let e = m.last();
        open_entries(m.drop_last(), open, version) + if open.contains(e.0) {
            seq![(e.0, e.1, version)]
        } else {
            Seq::empty()
        }
    }
}

/// Empty lists, tagged with `version`, for the documents of `docs` that the result
/// `m` holds nothing for, other than `requested`.
pub open spec fn missing_entries(
    docs: Seq<Seq<char>>,
    m: Seq<(Seq<char>, Seq<DiagnosticView>)>,
    requested: Seq<char>,
    version: i32,
) -> Seq<(Seq<char>, Seq<DiagnosticView>, i32)>
    decreases docs.len(),
{
    if docs.len() == 0 {
        Seq::empty()
    } else {
        let d = docs.last();
        missing_entries(docs.drop_last(), m, requested, version) + if doc_index(m, d) < 0 && d
            != requested {
            seq![(d, Seq::<DiagnosticView>::empty(), version)]
        } else {
            Seq::empty()
        }
    }
}

/// What a compiler pass publishes: an empty list for the requested document when
/// the result holds nothing for it, then the list of every open document that the
/// result holds, then an empty list for every other open document, so that no
/// stale diagnostics stay shown.
pub open spec fn compiler_plan(
    requested: Seq<char>,
    m: Seq<(Seq<char>, Seq<DiagnosticView>)>,
    open: Seq<Seq<char>>,
    version: i32,
) -> Seq<(Seq<char>, Seq<DiagnosticView>, i32)> {
    (if doc_index(m, requested) < 0 {
        seq![(requested, Seq::<DiagnosticView>::empty(), version)]
    } else {
        Seq::empty()
    }) + open_entries(m, open.to_set(), version) + missing_entries(open, m, requested, version)
}

/// What an export-file pass publishes: for each document of `docs`, its list,
/// empty when the result holds nothing for it.
pub open spec fn export_plan(
    docs: Seq<Seq<char>>,
    m: Seq<(Seq<char>, Seq<DiagnosticView>)>,
    version: i32,
) -> Seq<(Seq<char>, Seq<DiagnosticView>, i32)> {
    docs.map_values(|d: Seq<char>| (d, diagnostics_of(m, d), version))
}

fn copy_strings(v: &Vec<String>) -> (r: Vec<String>)
    ensures
        texts(r@) == texts(v@),
{
    let mut r: Vec<String> = Vec::new();
    let mut i: usize = 0;
    while i < v.len()
        invariant
            i <= v.len(),
            texts(r@) == texts(v@.subrange(0, i as int)),
        decreases v.len() - i,
    {
        let s = v[i].clone();
        assert(texts(v@.subrange(0, i + 1)) =~= texts(v@.subrange(0, i as int)).push(s@));
        assert(texts(r@.push(s)) =~= texts(r@).push(s@));
        r.push(s);
        i = i + 1;
    }
    assert(v@.subrange(0, v@.len() as int) =~= v@);
    r
}

impl SyncEngine {
    pub closed spec fn open_set(&self) -> Set<Seq<char>> {
        Set::new(|x: Seq<char>| texts(self.open_files@).contains(x))
    }

    /// The open documents, in the order they were opened.
    pub closed spec fn open_list(&self) -> Seq<Seq<char>> {
        texts(self.open_files@)
    }

    pub closed spec fn version_spec(&self) -> i32 {
        self.version
    }

    pub closed spec fn backend_spec(&self) -> Backend {
        self.backend
    }

    pub closed spec fn cancelled_spec(&self) -> bool {
        self.cancelled
    }

    pub closed spec fn wf(&self) -> bool {
        texts(self.open_files@).no_duplicates()
    }

    /// A session on `backend` with no open document.
    pub fn new(backend: Backend) -> (r: SyncEngine)
        ensures
            r.wf(),
            r.open_set() == Set::<Seq<char>>::empty(),
            r.version_spec() == 0,
            r.backend_spec() == backend,
            !r.cancelled_spec(),
    {
        let r = SyncEngine { open_files: Vec::new(), version: 0, backend, cancelled: false };
        assert(texts(r.open_files@) =~= Seq::<Seq<char>>::empty());
        assert(r.open_set() =~= Set::<Seq<char>>::empty());
        r
    }

    pub fn backend(&self) -> (r: Backend)
        ensures
            r == self.backend_spec(),
    {
        self.backend
    }

    pub fn is_cancelled(&self) -> (r: bool)
        ensures
            r == self.cancelled_spec(),
    {
        self.cancelled
    }

    /// The open documents.
    pub fn open_documents(&self) -> (r: Vec<String>)
        requires
            self.wf(),
        ensures
            texts(r@).to_set() == self.open_set(),
            texts(r@).no_duplicates(),
    {
        let r = copy_strings(&self.open_files);
        assert(texts(r@).to_set() =~= self.open_set());
        r
    }

    fn position_of(&self, uri: &String) -> (r: Option<usize>)
        ensures
            match r {
                Some(i) => i < self.open_files@.len() && self.open_files@[i as int]@ == uri@,
                None => !texts(self.open_files@).contains(uri@),
            },
    {
        let mut i: usize = 0;
        while i < self.open_files.len()
            invariant
                i <= self.open_files.len(),
                forall|j: int| 0 <= j < i ==> #[trigger] self.open_files@[j]@ != uri@,
            decreases self.open_files.len() - i,
        {
            if self.open_files[i] == *uri {
                return Some(i);
            }
            i = i + 1;
        }
        proof {
            if texts(self.open_files@).contains(uri@) {
                let j = choose|j: int| 0 <= j < self.open_files@.len() && texts(self.open_files@)[j] == uri@;
                assert(self.open_files@[j]@ == uri@);
            }
        }
        None
    }

    fn insert(&mut self, uri: String)
        requires
            old(self).wf(),
        ensures
            final(self).wf(),
            final(self).open_set() == old(self).open_set().insert(uri@),
            final(self).version == old(self).version,
            final(self).backend == old(self).backend,
            final(self).cancelled == old(self).cancelled,
    {
        match self.position_of(&uri) {
            Some(i) => {
                assert(texts(self.open_files@)[i as int] == uri@);
                assert(self.open_set().insert(uri@) =~= self.open_set());
            },
            None => {
                let ghost before = texts(self.open_files@);
                self.open_files.push(uri);
                let ghost after = texts(self.open_files@);
                assert(after =~= before.push(uri@));
                assert forall|x: Seq<char>| after.contains(x) <==> before.contains(x) || x == uri@ by {
                    if after.contains(x) {
                        let k = choose|k: int| 0 <= k < after.len() && after[k] == x;
                        if k < before.len() {
                            assert(before[k] == x);
                        }
                    }
                    if before.contains(x) {
                        let k = choose|k: int| 0 <= k < before.len() && before[k] == x;
                        assert(after[k] == x);
                    }
                    if x == uri@ {
                        assert(after[before.len() as int] == x);
                    }
                }
                assert(self.open_set() =~= old(self).open_set().insert(uri@));
            },
        }
    }

    fn remove(&mut self, uri: &String)
        requires
            old(self).wf(),
        ensures
            final(self).wf(),
            final(self).open_set() == old(self).open_set().remove(uri@),
            final(self).version == old(self).version,
            final(self).backend == old(self).backend,
            final(self).cancelled == old(self).cancelled,
    {
        match self.position_of(uri) {
            Some(i) => {
                let ghost before = texts(self.open_files@);
                self.open_files.remove(i);
                let ghost after = texts(self.open_files@);
                assert(after =~= before.remove(i as int));
                assert forall|x: Seq<char>| after.contains(x) <==> before.contains(x) && x != uri@ by {
                    if after.contains(x) {
                        let k = choose|k: int| 0 <= k < after.len() && after[k] == x;
                        if k < i {
                            assert(before[k] == x);
                            assert(before[k] != before[i as int]);
                        } else {
                            assert(before[k + 1] == x);
                            assert(before[k + 1] != before[i as int]);
                        }
                    }
                    if before.contains(x) && x != uri@ {
                        let k = choose|k: int| 0 <= k < before.len() && before[k] == x;
                        if k < i {
                            assert(after[k] == x);
                        } else {
                            assert(k != i);
                            assert(after[k - 1] == x);
                        }
                    }
                }
                assert(self.open_set() =~= old(self).open_set().remove(uri@));
            },
            None => {
                assert(self.open_set().remove(uri@) =~= self.open_set());
            },
        }
    }

    /// The editor opened `uri`: it joins the open set, and its diagnostics are
    /// published at once.
    pub fn document_opened(&mut self, uri: String) -> (r: Vec<String>)
        requires
            old(self).wf(),
        ensures
            final(self).wf(),
            final(self).open_set() == old(self).open_set().insert(uri@),
            final(self).version_spec() == old(self).version_spec(),
            final(self).backend_spec() == old(self).backend_spec(),
            final(self).cancelled_spec() == old(self).cancelled_spec(),
            texts(r@) == seq![uri@],
    {
        let mut r: Vec<String> = Vec::new();
        r.push(uri.clone());
        assert(texts(r@) =~= seq![uri@]);
        self.insert(uri);
        r
    }

    /// The editor closed `uri`: it leaves the open set; nothing is published.
    pub fn document_closed(&mut self, uri: &String)
        requires
            old(self).wf(),
        ensures
            final(self).wf(),
            final(self).open_set() == old(self).open_set().remove(uri@),
            final(self).version_spec() == old(self).version_spec(),
            final(self).backend_spec() == old(self).backend_spec(),
            final(self).cancelled_spec() == old(self).cancelled_spec(),
    {
        self.remove(uri);
    }

    /// The file `uri` was deleted: it leaves the open set.
    pub fn document_deleted(&mut self, uri: &String)
        requires
            old(self).wf(),
        ensures
            final(self).wf(),
            final(self).open_set() == old(self).open_set().remove(uri@),
            final(self).version_spec() == old(self).version_spec(),
            final(self).backend_spec() == old(self).backend_spec(),
            final(self).cancelled_spec() == old(self).cancelled_spec(),
    {
        self.remove(uri);
    }

    /// The file `from` was renamed to `to`: the new name replaces the old one in
    /// the open set, and its diagnostics are published at once.
    pub fn document_renamed(&mut self, from: &String, to: String) -> (r: Vec<String>)
        requires
            old(self).wf(),
        ensures
            final(self).wf(),
            final(self).open_set() == old(self).open_set().remove(from@).insert(to@),
            final(self).version_spec() == old(self).version_spec(),
            final(self).backend_spec() == old(self).backend_spec(),
            final(self).cancelled_spec() == old(self).cancelled_spec(),
            texts(r@) == seq![to@],
    {
        self.remove(from);
        self.document_opened(to)
    }

    /// Hands out the version of a new publishing pass: one more than the last,
    /// taken before any diagnostics are computed. It stays at `i32::MAX` once
    /// there.
    pub fn next_version(&mut self) -> (r: i32)
        ensures
            r == final(self).version_spec(),
            old(self).version_spec() < i32::MAX ==> r == old(self).version_spec() + 1,
            old(self).version_spec() == i32::MAX ==> r == i32::MAX,
            final(self).open_set() == old(self).open_set(),
            final(self).wf() == old(self).wf(),
            final(self).backend_spec() == old(self).backend_spec(),
            final(self).cancelled_spec() == old(self).cancelled_spec(),
    {
        if self.version < i32::MAX {
            self.version = self.version + 1;
        }
        self.version
    }

    /// Cancels the session for good: later batches publish nothing.
    pub fn cancel(&mut self)
        ensures
            final(self).cancelled_spec(),
            final(self).open_set() == old(self).open_set(),
            final(self).wf() == old(self).wf(),
            final(self).version_spec() == old(self).version_spec(),
            final(self).backend_spec() == old(self).backend_spec(),
    {
        self.cancelled = true;
    }

    /// The documents to refresh after a debounced batch of watch events: every
    /// open document when the batch modified the file and the session is live;
    /// none otherwise.
    pub fn documents_to_refresh(&self, kinds: &Vec<WatchEventKind>) -> (r: Vec<String>)
        requires
            self.wf(),
        ensures
            (!self.cancelled_spec() && has_modify(kinds@)) ==> texts(r@).to_set() == self.open_set()
                && texts(r@).no_duplicates(),
            (self.cancelled_spec() || !has_modify(kinds@)) ==> r@.len() == 0,
    {
        if self.cancelled || !batch_triggers_refresh(kinds) {
            return Vec::new();
        }
        self.open_documents()
    }

    /// The publications of a compiler pass run for `requested`, with `version`.
    pub fn compiler_publications(
        &self,
        requested: &String,
        result: &DocumentDiagnostics,
        version: i32,
    ) -> (r: Vec<Publication>)
        requires
            result.wf(),
        ensures
            self.open_list().to_set() == self.open_set(),
            publications_view(r@) == compiler_plan(requested@, result@, self.open_list(), version),
    {
        let mut r: Vec<Publication> = Vec::new();
        let existing = result.diagnostics_for(requested);
        proof {
            if doc_index(result@, requested@) >= 0 {
                let i = doc_index(result@, requested@);
                assert(exists|k: int| 0 <= k < result@.len() && #[trigger] result@[k].0 == requested@);
                assert(result@[i].1.len() > 0);
            }
            assert(diagnostics_view(existing@).len() == existing@.len());
            assert(diagnostics_of(result@, requested@).len() == existing@.len());
        }
        if existing.len() == 0 {
            let p = Publication { document: requested.clone(), diagnostics: Vec::new(), version };
            assert(diagnostics_view(p.diagnostics@) =~= Seq::<DiagnosticView>::empty());
            r.push(p);
            assert(publications_view(r@) =~= seq![(requested@, Seq::<DiagnosticView>::empty(), version)]);
        } else {
            assert(publications_view(r@) =~= Seq::empty());
        }
        let ghost head = publications_view(r@);
        assert(head == (if doc_index(result@, requested@) < 0 {
            seq![(requested@, Seq::<DiagnosticView>::empty(), version)]
        } else {
            Seq::empty()
        }));
        let entries = result.entries();
        let ghost m = result@;
        let mut k: usize = 0;
        assert(m.subrange(0, 0) =~= Seq::<(Seq<char>, Seq<DiagnosticView>)>::empty());
        assert(head + open_entries(m.subrange(0, 0), self.open_set(), version) =~= head);
        while k < entries.len()
            invariant
                k <= entries.len(),
                m == result@,
                entries@.map_values(|e: crate::diagnostic::DocumentEntry| e@) == m,
                publications_view(r@) == head + open_entries(m.subrange(0, k as int), self.open_set(), version),
            decreases entries.len() - k,
        {
            let e = &entries[k];
            assert(m[k as int] == e@);
            assert(m.subrange(0, k + 1).drop_last() =~= m.subrange(0, k as int));
            let open = self.position_of(&e.document);
            let ghost before = publications_view(r@);
            if open.is_some() {
                proof {
                    let i = open->0;
                    assert(texts(self.open_files@)[i as int] == e.document@);
                    assert(self.open_set().contains(e.document@));
                }
                let p = Publication {
                    document: e.document.clone(),
                    diagnostics: copy_diagnostics(&e.diagnostics),
                    version,
                };
                r.push(p);
                assert(publications_view(r@) =~= before.push(publication_view(p)));
            } else {
                assert(!self.open_set().contains(e.document@));
            }
            k = k + 1;
            assert(publications_view(r@) =~= head + open_entries(m.subrange(0, k as int), self.open_set(), version));
        }
        assert(m.subrange(0, m.len() as int) =~= m);
        assert(self.open_list().to_set() =~= self.open_set());
        let ghost middle = publications_view(r@);
        let ol = &self.open_files;
        let ghost docs = texts(ol@);
        let mut j: usize = 0;
        assert(docs.subrange(0, 0) =~= Seq::<Seq<char>>::empty());
        assert(middle + missing_entries(docs.subrange(0, 0), m, requested@, version) =~= middle);
        while j < ol.len()
            invariant
                j <= ol.len(),
                m == result@,
                result.wf(),
                docs == texts(ol@),
                publications_view(r@) == middle + missing_entries(docs.subrange(0, j as int), m, requested@, version),
            decreases ol.len() - j,
        {
            let d = &ol[j];
            assert(docs.subrange(0, j + 1).drop_last() =~= docs.subrange(0, j as int));
            assert(docs.subrange(0, j + 1).last() == d@);
            let found = result.diagnostics_for(d);
            proof {
                if doc_index(result@, d@) >= 0 {
                    let i = doc_index(result@, d@);
                    assert(exists|k: int| 0 <= k < result@.len() && #[trigger] result@[k].0 == d@);
                    assert(result@[i].1.len() > 0);
                }
                assert(diagnostics_view(found@).len() == found@.len());
            }
            let ghost before = publications_view(r@);
            if found.len() == 0 && *d != *requested {
                let p = Publication { document: d.clone(), diagnostics: Vec::new(), version };
                assert(diagnostics_view(p.diagnostics@) =~= Seq::<DiagnosticView>::empty());
                r.push(p);
                assert(publications_view(r@) =~= before.push(publication_view(p)));
            }
            j = j + 1;
            assert(publications_view(r@) =~= middle + missing_entries(docs.subrange(0, j as int), m, requested@, version));
        }
        assert(docs.subrange(0, docs.len() as int) =~= docs);
        r
    }
}

/// Copies of `v`'s diagnostics, in order.
pub fn copy_diagnostics(v: &Vec<Diagnostic>) -> (r: Vec<Diagnostic>)
    ensures
        diagnostics_view(r@) == diagnostics_view(v@),
{
    let mut r: Vec<Diagnostic> = Vec::new();
    let mut i: usize = 0;
    while i < v.len()
        invariant
            i <= v.len(),
            diagnostics_view(r@) == diagnostics_view(v@.subrange(0, i as int)),
        decreases v.len() - i,
    {
        let d = v[i].duplicate();
        assert(diagnostics_view(v@.subrange(0, i + 1)) =~= diagnostics_view(v@.subrange(0, i as int)).push(d@));
        assert(diagnostics_view(r@.push(d)) =~= diagnostics_view(r@).push(d@));
        r.push(d);
        i = i + 1;
    }
    assert(v@.subrange(0, v@.len() as int) =~= v@);
    r
}

/// The publications of an export-file pass over `docs`, with `version`: each
/// document gets its list, empty when the result holds nothing for it.
pub fn export_publications(docs: &Vec<String>, result: &DocumentDiagnostics, version: i32) -> (r:
    Vec<Publication>)
    requires
        result.wf(),
    ensures
        publications_view(r@) == export_plan(texts(docs@), result@, version),
{
    let mut r: Vec<Publication> = Vec::new();
    let mut i: usize = 0;
    while i < docs.len()
        invariant
            i <= docs.len(),
            result.wf(),
            publications_view(r@) == export_plan(texts(docs@.subrange(0, i as int)), result@, version),
        decreases docs.len() - i,
    {
        let p = Publication {
            document: docs[i].clone(),
            diagnostics: result.diagnostics_for(&docs[i]),
            version,
        };
        assert(export_plan(texts(docs@.subrange(0, i + 1)), result@, version) =~= export_plan(
            texts(docs@.subrange(0, i as int)),
            result@,
            version,
        ).push(publication_view(p)));
        assert(publications_view(r@.push(p)) =~= publications_view(r@).push(publication_view(p)));
        r.push(p);
        i = i + 1;
    }
    assert(docs@.subrange(0, docs@.len() as int) =~= docs@);
    r
}

/// An event of a supervised bacon process.
#[derive(Clone, Copy, Debug, PartialEq, Eq, Structural)]
pub enum SupervisorEvent {
    /// The process ended by itself.
    ChildExited,
    /// The session was cancelled.
    Cancelled,
}

/// What the supervisor does in answer to an event.
#[derive(Clone, Copy, Debug, PartialEq, Eq, Structural)]
pub enum SupervisorAction {
    /// Kill the process.
    KillChild,
    /// Nothing more to do to the process.
    Release,
}

/// The state of a supervised bacon process.
#[derive(Clone, Copy, Debug, PartialEq, Eq, Structural)]
pub enum Supervisor {
    Running,
    Exited,
    Killed,
}

impl Supervisor {
    pub fn new() -> (r: Supervisor)
        ensures
            r == Supervisor::Running,
    {
        Supervisor::Running
    }

    /// Whether the supervisor's handle has resolved: the process is no longer
    /// running, by itself or killed.
    pub fn is_finished(&self) -> (r: bool)
        ensures
            r == (*self != Supervisor::Running),
    {
        !matches!(self, Supervisor::Running)
    }

    /// Reacts to the first event that arrives: cancellation of a running process
    /// kills it; its own exit needs nothing done. Once finished, later events
    /// change nothing.
    pub fn on_event(&mut self, event: SupervisorEvent) -> (r: SupervisorAction)
        ensures
            *old(self) == Supervisor::Running && event == SupervisorEvent::Cancelled ==> r
                == SupervisorAction::KillChild && *final(self) == Supervisor::Killed,
            *old(self) == Supervisor::Running && event == SupervisorEvent::ChildExited ==> r
                == SupervisorAction::Release && *final(self) == Supervisor::Exited,
            *old(self) != Supervisor::Running ==> r == SupervisorAction::Release && *final(self)
                == *old(self),
    {
        match (*self, event) {
            (Supervisor::Running, SupervisorEvent::Cancelled) => {
                *self = Supervisor::Killed;
                SupervisorAction::KillChild
            },
            (Supervisor::Running, SupervisorEvent::ChildExited) => {
                *self = Supervisor::Exited;
                SupervisorAction::Release
            },
            _ => SupervisorAction::Release,
        }
    }
}

} // verus!
