//! Quick fixes: each correction that this tool attached to a diagnostic becomes
//! an edit that replaces the diagnostic's range.
use vstd::prelude::*;
use crate::diagnostic::{option_text, Range, SOURCE_TAG};
use crate::text::{chars_equal, chars_of, strings_view};

verus! {

/// A diagnostic as the editor sends it back with a code-action request: its
/// range, its source, and the corrections decoded from its data (`None` when it
/// carries none that decode).
pub struct FixSource {
    pub range: Range,
    pub source: Option<String>,
    pub corrections: Option<Vec<String>>,
}

/// An edit that replaces `range` with `new_text`, offered for the diagnostic at
/// `diagnostic_index`; it is the preferred fix when it is that diagnostic's only
/// correction.
pub struct QuickFix {
    pub range: Range,
    pub new_text: String,
    pub preferred: bool,
    pub diagnostic_index: usize,
}

pub struct QuickFixView {
    pub range: Range,
    pub new_text: Seq<char>,
    pub preferred: bool,
    pub diagnostic_index: int,
}

impl View for QuickFix {
    type V = QuickFixView;

    open spec fn view(&self) -> QuickFixView {
        QuickFixView {
            range: self.range,
            new_text: self.new_text@,
            preferred: self.preferred,
            diagnostic_index: self.diagnostic_index as int,
        }
    }
}

pub open spec fn fixes_view(v: Seq<QuickFix>) -> Seq<QuickFixView> {
    v.map_values(|f: QuickFix| f@)
}

/// The fixes one diagnostic, at index `i`, offers: one per correction, when this
/// tool is its source.
pub open spec fn fixes_for(i: int, d: FixSource) -> Seq<QuickFixView> {
    match d.corrections {
        Some(cs) => if option_text(d.source) == Some(SOURCE_TAG@) {
            strings_view(cs@).map_values(
                |c: Seq<char>|
                    QuickFixView {
                        range: d.range,
                        new_text: c,
                        preferred: cs@.len() == 1,
                        diagnostic_index: i,
                    },
            )
        } else {
            Seq::empty()
        },
        None => Seq::empty(),
    }
}

/// The fixes of `diags`, diagnostic by diagnostic.
pub open spec fn fixes_of(diags: Seq<FixSource>) -> Seq<QuickFixView>
    decreases diags.len(),
{
    if diags.len() == 0 {
        Seq::empty()
    } else {
        fixes_of(diags.drop_last()) + fixes_for(diags.len() - 1, diags.last())
    }
}

/// The quick fixes that `diags` offer.
pub fn quick_fixes(diags: &Vec<FixSource>) -> (r: Vec<QuickFix>)
    ensures
        fixes_view(r@) == fixes_of(diags@),
{
    let mut r: Vec<QuickFix> = Vec::new();
    let mut i: usize = 0;
    assert(fixes_view(r@) =~= fixes_of(diags@.subrange(0, 0)));
    while i < diags.len()
        invariant
            i <= diags.len(),
            fixes_view(r@) == fixes_of(diags@.subrange(0, i as int)),
        decreases diags.len() - i,
    {
        let d = &diags[i];
        assert(diags@.subrange(0, i + 1).drop_last() =~= diags@.subrange(0, i as int));
        let ghost before = fixes_view(r@);
        let ours = match &d.source {
            Some(s) => chars_equal(&chars_of(s.as_str()), SOURCE_TAG),
            None => false,
        };
        match &d.corrections {
            Some(cs) => {
                if ours {
                    let mut j: usize = 0;
                    let ghost all = fixes_for(i as int, *d);
                    while j < cs.len()
                        invariant
                            j <= cs.len(),
                            i < diags.len(),
                            d == &diags@[i as int],
                            d.corrections == Some(*cs),
                            option_text(d.source) == Some(SOURCE_TAG@),
                            all == fixes_for(i as int, *d),
                            fixes_view(r@) == before + all.subrange(0, j as int),
                        decreases cs.len() - j,
                    {
                        let f = QuickFix {
                            range: d.range,
                            new_text: cs[j].clone(),
                            preferred: cs.len() == 1,
                            diagnostic_index: i,
                        };
                        assert(all.subrange(0, j + 1) =~= all.subrange(0, j as int).push(f@));
                        assert(fixes_view(r@.push(f)) =~= fixes_view(r@).push(f@));
                        r.push(f);
                        j = j + 1;
                    }
                    assert(all.subrange(0, cs@.len() as int) =~= all);
                } else {
                    assert(fixes_for(i as int, *d) =~= Seq::<QuickFixView>::empty());
                    assert(fixes_view(r@) =~= before + fixes_for(i as int, *d));
                }
            },
            None => {
                assert(fixes_view(r@) =~= before + fixes_for(i as int, *d));
            },
        }
        i = i + 1;
    }
    assert(diags@.subrange(0, diags@.len() as int) =~= diags@);
    r
}

} // verus!
