//! Reading the lines of an export file: grouping them into records and collecting
//! the diagnostics they describe.
use vstd::prelude::*;
use crate::diagnostic::{
    diagnostics_of, doc_index, has_report, lemma_add_keeps_report, lemma_added_well_formed, well_formed_documents,
    with_added, DiagnosticView, DocumentDiagnostics,
};
use crate::line_format::{admits, filter_view, record_diagnostic, Bacon};
use crate::text::{chars_of, chars_start_with, starts_with, string_of, trim_end_chars, trimmed_end};

verus! {

/// A line (without its trailing whitespace) that opens a new record: it begins
/// with one of the severity keywords.
pub open spec fn is_record_start(t: Seq<char>) -> bool {
    starts_with(t, "warning"@) || starts_with(t, "error"@) || starts_with(t, "info"@)
        || starts_with(t, "note"@) || starts_with(t, "failure-note"@) || starts_with(t, "help"@)
}

/// The records completed so far and the one being gathered, after reading `lines`.
pub open spec fn scan_lines(lines: Seq<Seq<char>>) -> (Seq<Seq<char>>, Seq<char>)
    decreases lines.len(),
{
    if lines.len() == 0 {
        (Seq::empty(), Seq::empty())
    } else {
        let (done, buf) = scan_lines(lines.drop_last());
        let t = trimmed_end(lines.last());
        let (done2, buf2) = if is_record_start(t) && buf.len() > 0 {
            (done.push(buf), Seq::<char>::empty())
        } else {
            (done, buf)
        };
        (done2, if buf2.len() > 0 { buf2 + seq!['\n'] + t } else { t })
    }
}

/// The records of `lines`: each starts at a record line and takes the lines up to
/// the next one, joined with line breaks; trailing whitespace of each line is
/// dropped.
pub open spec fn records_of(lines: Seq<Seq<char>>) -> Seq<Seq<char>> {
    let (done, buf) = scan_lines(lines);
    if buf.len() > 0 {
        done.push(buf)
    } else {
        done
    }
}

/// `lines` joined with line breaks.
pub open spec fn joined_lines(lines: Seq<Seq<char>>) -> Seq<char>
    decreases lines.len(),
{
    if lines.len() <= 1 {
        if lines.len() == 0 {
            Seq::empty()
        } else {
            lines[0]
        }
    } else {
        joined_lines(lines.drop_last()) + seq!['\n'] + lines.last()
    }
}

/// `m` after the diagnostics of `records`, resolved against `root`, are added in
/// order; records that do not parse, and documents that `filter` does not let
/// through, add nothing.
pub open spec fn collected(
    m: Seq<(Seq<char>, Seq<DiagnosticView>)>,
    records: Seq<Seq<char>>,
    root: Seq<char>,
    filter: Option<Seq<char>>,
) -> Seq<(Seq<char>, Seq<DiagnosticView>)>
    decreases records.len(),
{
    if records.len() == 0 {
        m
    } else {
        added_record(collected(m, records.drop_last(), root, filter), records.last(), root, filter)
    }
}

/// `m` after the diagnostic of the record `rec` is added; a record that does not
/// parse, or a document that `filter` does not let through, adds nothing.
pub open spec fn added_record(
    m: Seq<(Seq<char>, Seq<DiagnosticView>)>,
    rec: Seq<char>,
    root: Seq<char>,
    filter: Option<Seq<char>>,
) -> Seq<(Seq<char>, Seq<DiagnosticView>)> {
    match record_diagnostic(rec, root) {
        Some((doc, d)) => if admits(filter, doc) {
            with_added(m, doc, d)
        } else {
            m
        },
        None => m,
    }
}

pub open spec fn lines_view(lines: Seq<String>) -> Seq<Seq<char>> {
    lines.map_values(|l: String| l@)
}

proof fn lemma_joined_starts(lines: Seq<Seq<char>>)
    requires
        lines.len() > 0,
    ensures
        joined_lines(lines).len() >= lines[0].len(),
    decreases lines.len(),
{
    if lines.len() > 1 {
        lemma_joined_starts(lines.drop_last());
    }
}

/// A record line followed by lines that open no record is read back as one
/// record: those lines, without trailing whitespace, joined with line breaks,
/// after the records of whatever came before.
pub proof fn lemma_continuation_lines(before: Seq<Seq<char>>, group: Seq<Seq<char>>)
    requires
        group.len() > 0,
        is_record_start(trimmed_end(group[0])),
        forall|k: int| 1 <= k < group.len() ==> !is_record_start(trimmed_end(#[trigger] group[k])),
    ensures
        records_of(before + group) == records_of(before).push(
            joined_lines(group.map_values(|l: Seq<char>| trimmed_end(l))),
        ),
    decreases group.len(),
{
    let tg = group.map_values(|l: Seq<char>| trimmed_end(l));
    assert(tg[0].len() > 0) by {
        reveal_strlit("warning");
        reveal_strlit("error");
        reveal_strlit("info");
        reveal_strlit("note");
        reveal_strlit("failure-note");
        reveal_strlit("help");
    }
    lemma_group_scan(before, group, group.len() as int);
    assert(group.subrange(0, group.len() as int) =~= group);
    assert(tg.subrange(0, group.len() as int) =~= tg);
    lemma_joined_starts(tg);
}

proof fn lemma_group_scan(before: Seq<Seq<char>>, group: Seq<Seq<char>>, k: int)
    requires
        1 <= k <= group.len(),
        is_record_start(trimmed_end(group[0])),
        trimmed_end(group[0]).len() > 0,
        forall|j: int| 1 <= j < group.len() ==> !is_record_start(trimmed_end(#[trigger] group[j])),
    ensures
        scan_lines(before + group.subrange(0, k)) == (
            records_of(before),
            joined_lines(group.map_values(|l: Seq<char>| trimmed_end(l)).subrange(0, k)),
        ),
    decreases k,
{
    let tg = group.map_values(|l: Seq<char>| trimmed_end(l));
    let lines = before + group.subrange(0, k);
    if k == 1 {
        assert(lines.drop_last() =~= before);
        assert(tg.subrange(0, 1) =~= seq![tg[0]]);
    } else {
        lemma_group_scan(before, group, k - 1);
        assert(lines.drop_last() =~= before + group.subrange(0, k - 1));
        assert(tg.subrange(0, k).drop_last() =~= tg.subrange(0, k - 1));
        lemma_joined_starts(tg.subrange(0, k - 1));
        assert(tg.subrange(0, k - 1)[0] == tg[0]);
    }
}

/// Read from lines, a record line followed by lines that open no record gives
/// one diagnostic: the one of those lines, without trailing whitespace, joined
/// with line breaks.
pub proof fn lemma_continuation_lines_collected(
    m: Seq<(Seq<char>, Seq<DiagnosticView>)>,
    before: Seq<Seq<char>>,
    group: Seq<Seq<char>>,
    root: Seq<char>,
    filter: Option<Seq<char>>,
)
    requires
        group.len() > 0,
        is_record_start(trimmed_end(group[0])),
        forall|k: int| 1 <= k < group.len() ==> !is_record_start(trimmed_end(#[trigger] group[k])),
    ensures
        collected(m, records_of(before + group), root, filter) == added_record(
            collected(m, records_of(before), root, filter),
            joined_lines(group.map_values(|l: Seq<char>| trimmed_end(l))),
            root,
            filter,
        ),
{
    lemma_continuation_lines(before, group);
    let j = joined_lines(group.map_values(|l: Seq<char>| trimmed_end(l)));
    assert(records_of(before).push(j).drop_last() =~= records_of(before));
}

proof fn lemma_record_start_nonempty(t: Seq<char>)
    requires
        is_record_start(t),
    ensures
        t.len() > 0,
{
    reveal_strlit("warning");
    reveal_strlit("error");
    reveal_strlit("info");
    reveal_strlit("note");
    reveal_strlit("failure-note");
    reveal_strlit("help");
}

proof fn lemma_scan_concat(x: Seq<Seq<char>>, b: Seq<Seq<char>>, k: int)
    requires
        1 <= k <= b.len(),
        is_record_start(trimmed_end(b[0])),
    ensures
        scan_lines(x + b.subrange(0, k)) == (
            records_of(x) + scan_lines(b.subrange(0, k)).0,
            scan_lines(b.subrange(0, k)).1,
        ),
    decreases k,
{
    lemma_record_start_nonempty(trimmed_end(b[0]));
    let lines = x + b.subrange(0, k);
    if k == 1 {
        assert(lines.drop_last() =~= x);
        assert(lines.last() == b[0]);
        assert(b.subrange(0, 1).drop_last() =~= Seq::<Seq<char>>::empty());
        assert(b.subrange(0, 1).last() == b[0]);
        assert(scan_lines(Seq::<Seq<char>>::empty()) == (Seq::<Seq<char>>::empty(), Seq::<char>::empty()));
        assert(scan_lines(b.subrange(0, 1)) == (Seq::<Seq<char>>::empty(), trimmed_end(b[0])));
        let (done, buf) = scan_lines(x);
        if buf.len() > 0 {
            assert(records_of(x) + Seq::<Seq<char>>::empty() =~= done.push(buf));
        } else {
            assert(records_of(x) + Seq::<Seq<char>>::empty() =~= done);
        }
    } else {
        lemma_scan_concat(x, b, k - 1);
        assert(lines.drop_last() =~= x + b.subrange(0, k - 1));
        assert(b.subrange(0, k).drop_last() =~= b.subrange(0, k - 1));
        assert(lines.last() == b[k - 1]);
        assert(b.subrange(0, k).last() == b[k - 1]);
        let (d, bb) = scan_lines(b.subrange(0, k - 1));
        assert((records_of(x) + d).push(bb) =~= records_of(x) + d.push(bb));
    }
}

/// Lines that begin with a record line are read as records of their own, after
/// the records of whatever came before.
pub proof fn lemma_records_concat(x: Seq<Seq<char>>, b: Seq<Seq<char>>)
    requires
        b.len() > 0,
        is_record_start(trimmed_end(b[0])),
    ensures
        records_of(x + b) == records_of(x) + records_of(b),
{
    lemma_scan_concat(x, b, b.len() as int);
    assert(b.subrange(0, b.len() as int) =~= b);
    let (d, bb) = scan_lines(b);
    if bb.len() > 0 {
        assert((records_of(x) + d).push(bb) =~= records_of(x) + d.push(bb));
    }
}

/// A record line that does not parse, inserted before a record line or at the
/// end, changes nothing: the lines after it are read as if it were absent.
pub proof fn lemma_malformed_line_skipped(
    m: Seq<(Seq<char>, Seq<DiagnosticView>)>,
    a: Seq<Seq<char>>,
    bad: Seq<char>,
    b: Seq<Seq<char>>,
    root: Seq<char>,
    filter: Option<Seq<char>>,
)
    requires
        is_record_start(trimmed_end(bad)),
        record_diagnostic(trimmed_end(bad), root) is None,
        b.len() == 0 || is_record_start(trimmed_end(b[0])),
    ensures
        collected(m, records_of(a.push(bad) + b), root, filter) == collected(
            m,
            records_of(a + b),
            root,
            filter,
        ),
{
    let t = trimmed_end(bad);
    lemma_record_start_nonempty(t);
    lemma_records_concat(a, seq![bad]);
    assert(a + seq![bad] =~= a.push(bad));
    assert(seq![bad].drop_last() =~= Seq::<Seq<char>>::empty());
    assert(seq![bad].last() == bad);
    assert(scan_lines(Seq::<Seq<char>>::empty()) == (Seq::<Seq<char>>::empty(), Seq::<char>::empty()));
    assert(scan_lines(seq![bad]) == (Seq::<Seq<char>>::empty(), t));
    assert(records_of(seq![bad]) =~= seq![t]);
    assert(records_of(a.push(bad)) =~= records_of(a).push(t));
    if b.len() == 0 {
        assert(a.push(bad) + b =~= a.push(bad));
        assert(a + b =~= a);
        lemma_malformed_record_skipped(m, records_of(a), t, Seq::empty(), root, filter);
        assert(records_of(a).push(t) + Seq::<Seq<char>>::empty() =~= records_of(a).push(t));
        assert(records_of(a) + Seq::<Seq<char>>::empty() =~= records_of(a));
    } else {
        lemma_records_concat(a.push(bad), b);
        lemma_records_concat(a, b);
        lemma_malformed_record_skipped(m, records_of(a), t, records_of(b), root, filter);
    }
}

/// A record that does not parse adds nothing, and the records after it are
/// collected as if it were absent.
pub proof fn lemma_malformed_record_skipped(
    m: Seq<(Seq<char>, Seq<DiagnosticView>)>,
    before: Seq<Seq<char>>,
    bad: Seq<char>,
    after: Seq<Seq<char>>,
    root: Seq<char>,
    filter: Option<Seq<char>>,
)
    requires
        record_diagnostic(bad, root) is None,
    ensures
        collected(m, before.push(bad) + after, root, filter) == collected(
            m,
            before + after,
            root,
            filter,
        ),
    decreases after.len(),
{
    if after.len() == 0 {
        assert(before.push(bad) + after =~= before.push(bad));
        assert(before.push(bad).drop_last() =~= before);
        assert(before + after =~= before);
    } else {
        lemma_malformed_record_skipped(m, before, bad, after.drop_last(), root, filter);
        assert((before.push(bad) + after).drop_last() =~= before.push(bad) + after.drop_last());
        assert((before + after).drop_last() =~= before + after.drop_last());
    }
}

proof fn lemma_collected_keeps_report(
    m: Seq<(Seq<char>, Seq<DiagnosticView>)>,
    records: Seq<Seq<char>>,
    root: Seq<char>,
    filter: Option<Seq<char>>,
    doc: Seq<char>,
    d: DiagnosticView,
)
    requires
        well_formed_documents(m),
        has_report(diagnostics_of(m, doc), d),
    ensures
        well_formed_documents(collected(m, records, root, filter)),
        has_report(diagnostics_of(collected(m, records, root, filter), doc), d),
    decreases records.len(),
{
    if records.len() > 0 {
        lemma_collected_keeps_report(m, records.drop_last(), root, filter, doc, d);
        let prev = collected(m, records.drop_last(), root, filter);
        if let Some((doc2, d2)) = record_diagnostic(records.last(), root) {
            if admits(filter, doc2) {
                lemma_add_keeps_report(prev, doc2, d2, doc, d);
            }
        }
    }
}

proof fn lemma_collected_well_formed(
    m: Seq<(Seq<char>, Seq<DiagnosticView>)>,
    records: Seq<Seq<char>>,
    root: Seq<char>,
    filter: Option<Seq<char>>,
)
    requires
        well_formed_documents(m),
    ensures
        well_formed_documents(collected(m, records, root, filter)),
    decreases records.len(),
{
    if records.len() > 0 {
        lemma_collected_well_formed(m, records.drop_last(), root, filter);
        let prev = collected(m, records.drop_last(), root, filter);
        if let Some((doc2, d2)) = record_diagnostic(records.last(), root) {
            lemma_added_well_formed(prev, doc2, d2);
        }
    }
}

proof fn lemma_collected_split(
    m: Seq<(Seq<char>, Seq<DiagnosticView>)>,
    a: Seq<Seq<char>>,
    b: Seq<Seq<char>>,
    root: Seq<char>,
    filter: Option<Seq<char>>,
)
    ensures
        collected(m, a + b, root, filter) == collected(collected(m, a, root, filter), b, root, filter),
    decreases b.len(),
{
    if b.len() == 0 {
        assert(a + b =~= a);
    } else {
        lemma_collected_split(m, a, b.drop_last(), root, filter);
        assert((a + b).drop_last() =~= a + b.drop_last());
        assert((a + b).last() == b.last());
    }
}

/// A record that appears again later in an export adds nothing the second
/// time: the result is the one without the repetition.
pub proof fn lemma_repeated_record(
    m: Seq<(Seq<char>, Seq<DiagnosticView>)>,
    before: Seq<Seq<char>>,
    rec: Seq<char>,
    after: Seq<Seq<char>>,
    root: Seq<char>,
    filter: Option<Seq<char>>,
)
    requires
        well_formed_documents(m),
    ensures
        collected(m, before.push(rec) + after.push(rec), root, filter) == collected(
            m,
            before.push(rec) + after,
            root,
            filter,
        ),
{
    let first = before.push(rec);
    assert((first + after.push(rec)).drop_last() =~= first + after);
    assert((first + after.push(rec)).last() == rec);
    assert(first.drop_last() =~= before);
    let x = collected(m, first + after, root, filter);
    if let Some((doc, d)) = record_diagnostic(rec, root) {
        if admits(filter, doc) {
            lemma_collected_well_formed(m, before, root, filter);
            let y = collected(m, before, root, filter);
            lemma_added_well_formed(y, doc, d);
            assert(collected(m, first, root, filter) == with_added(y, doc, d));
            lemma_collected_keeps_report(with_added(y, doc, d), after, root, filter, doc, d);
            lemma_collected_split(m, first, after, root, filter);
            assert(has_report(diagnostics_of(x, doc), d));
            assert(doc_index(x, doc) >= 0);
        }
    }
}

/// Whether the line `t` opens a new record.
pub fn starts_record(t: &Vec<char>) -> (r: bool)
    ensures
        r == is_record_start(t@),
{
    chars_start_with(t, "warning") || chars_start_with(t, "error") || chars_start_with(t, "info")
        || chars_start_with(t, "note") || chars_start_with(t, "failure-note") || chars_start_with(
        t,
        "help",
    )
}

impl Bacon {
    /// Groups the lines of an export file into records.
    pub fn assemble_records(lines: &Vec<String>) -> (r: Vec<String>)
        ensures
            lines_view(r@) == records_of(lines_view(lines@)),
    {
        let ghost lv = lines_view(lines@);
        let mut done: Vec<String> = Vec::new();
        let mut buffer: Vec<char> = Vec::new();
        let mut i: usize = 0;
        assert(lv.subrange(0, 0) =~= Seq::<Seq<char>>::empty());
        assert(lines_view(done@) =~= Seq::<Seq<char>>::empty());
        while i < lines.len()
            invariant
                i <= lines.len(),
                lv == lines_view(lines@),
                scan_lines(lv.subrange(0, i as int)) == (lines_view(done@), buffer@),
            decreases lines.len() - i,
        {
            let t = trim_end_chars(&chars_of(lines[i].as_str()));
            assert(lv.subrange(0, i + 1).drop_last() =~= lv.subrange(0, i as int));
            assert(lv.subrange(0, i + 1).last() == lines@[i as int]@);
            if starts_record(&t) && buffer.len() > 0 {
                let s = string_of(&buffer);
                assert(lines_view(done@.push(s)) =~= lines_view(done@).push(buffer@));
                done.push(s);
                buffer = Vec::new();
            }
            if buffer.len() > 0 {
                buffer.push('\n');
            }
            let mut tail = t;
            buffer.append(&mut tail);
            i = i + 1;
            assert(buffer@ =~= scan_lines(lv.subrange(0, i as int)).1);
        }
        assert(lv.subrange(0, lines.len() as int) =~= lv);
        if buffer.len() > 0 {
            let s = string_of(&buffer);
            assert(lines_view(done@.push(s)) =~= lines_view(done@).push(buffer@));
            done.push(s);
        }
        done
    }

    /// Collects the diagnostics of an export file's lines into `into`, resolving
    /// files against `root`. Records that do not parse are skipped, and so are
    /// documents that `filter` does not let through.
    pub fn collect_export_diagnostics(
        lines: &Vec<String>,
        root: &str,
        filter: &Option<String>,
        into: &mut DocumentDiagnostics,
    )
        requires
            old(into).wf(),
        ensures
            final(into).wf(),
            final(into)@ == collected(
                old(into)@,
                records_of(lines_view(lines@)),
                root@,
                filter_view(*filter),
            ),
    {
        let records = Self::assemble_records(lines);
        let ghost rv = lines_view(records@);
        let mut i: usize = 0;
        assert(rv.subrange(0, 0) =~= Seq::<Seq<char>>::empty());
        while i < records.len()
            invariant
                i <= records.len(),
                rv == lines_view(records@),
                into.wf(),
                into@ == collected(old(into)@, rv.subrange(0, i as int), root@, filter_view(*filter)),
            decreases records.len() - i,
        {
            assert(rv.subrange(0, i + 1).drop_last() =~= rv.subrange(0, i as int));
            assert(rv.subrange(0, i + 1).last() == records@[i as int]@);
            let parsed = Self::parse_bacon_diagnostic_line(records[i].as_str(), root);
            match parsed {
                Some((path, diagnostic)) => {
                    Self::deduplicate_diagnostics(path, filter, diagnostic, into);
                },
                None => {},
            }
            i = i + 1;
        }
        assert(rv.subrange(0, records.len() as int) =~= rv);
    }
}

} // verus!
