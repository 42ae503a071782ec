//! The calls this library makes into other crates, each with what it relies on.
use vstd::prelude::*;
use tower_lsp_server::lsp_types::Uri;

verus! {

/// `c` lies in the code-point range `lo..=hi`.
pub open spec fn in_band(c: char, lo: u32, hi: u32) -> bool {
    lo <= (c as u32) && (c as u32) <= hi
}

/// The end of the run of characters from `k` on that lie in `lo..=hi`.
pub open spec fn band_end(s: Seq<char>, k: int, lo: u32, hi: u32) -> int
    decreases s.len() - k,
{
    if 0 <= k < s.len() && in_band(s[k], lo, hi) {
        band_end(s, k + 1, lo, hi)
    } else {
        k
    }
}

/// The length of the escape sequence that starts at the front of `s`, or 0:
/// ESC and `[`, parameter characters (0x30-0x3f), intermediate characters
/// (0x20-0x2f), and one final character (0x40-0x7e).
pub open spec fn escape_len(s: Seq<char>) -> int {
    if s.len() >= 2 && s[0] == '\u{1b}' && s[1] == '[' {
        let q = band_end(s, band_end(s, 2, 0x30, 0x3f), 0x20, 0x2f);
        if q < s.len() && in_band(s[q], 0x40, 0x7e) {
            q + 1
        } else {
            0
        }
    } else {
        0
    }
}

/// `s` with every escape sequence removed, scanning from the left and going on
/// after each one removed.
pub open spec fn ansi_stripped(s: Seq<char>) -> Seq<char>
    decreases s.len(),
{
    if s.len() == 0 {
        s
    } else if 0 < escape_len(s) <= s.len() {
        ansi_stripped(s.subrange(escape_len(s), s.len() as int))
    } else {
        seq![s[0]] + ansi_stripped(s.drop_first())
    }
}

/// Relies on `ansi_regex::ansi_regex` and `Regex::replace_all`: the pattern is
/// `\x1b\[([\x30-\x3f]*[\x20-\x2f]*[\x40-\x7e])`, and every leftmost
/// non-overlapping match is removed. The three classes are disjoint, so a match
/// at a position exists exactly when the greedy reading of `escape_len` finds one.
#[verifier::external_body]
pub(crate) fn strip_ansi(s: &str) -> (r: String)
    ensures
        r@ == ansi_stripped(s@),
{
    ansi_regex::ansi_regex().replace_all(s, "").into_owned()
}

/// Text without the escape character has nothing removed.
pub proof fn lemma_plain_text_unchanged(s: Seq<char>)
    requires
        forall|i: int| 0 <= i < s.len() ==> s[i] != '\u{1b}',
    ensures
        ansi_stripped(s) == s,
    decreases s.len(),
{
    if s.len() > 0 {
        assert(escape_len(s) == 0);
        lemma_plain_text_unchanged(s.drop_first());
        assert(seq![s[0]] + s.drop_first() =~= s);
    }
}

/// The longest text handed to the URI parser: its UTF-8 length stays within
/// `i32::MAX`, beyond which the parser panics.
pub const MAX_URI_CHARS: usize = 536870911;

/// Whether the URI parser accepts `text`.
pub uninterp spec fn uri_accepts(text: Seq<char>) -> bool;

/// Relies on `lsp_types::Uri`'s `FromStr` (`fluent_uri::Uri::parse`, which validates
/// without rewriting): it accepts `text` or not, and an accepted URI's string form is
/// `text` itself.
#[verifier::external_body]
pub(crate) fn parse_uri(text: &str) -> (r: Option<String>)
    requires
        text@.len() <= MAX_URI_CHARS,
    ensures
        r is Some <==> uri_accepts(text@),
        r is Some ==> r->0@ == text@,
{
    text.parse::<Uri>().ok().map(|u| u.as_str().to_owned())
}

/// Relies on `std::path::Path::canonicalize`: the absolute path with every link
/// resolved, or `None` when it fails (the file is gone, or the result is not
/// UTF-8). The result depends on the file system at the time of the call, so
/// nothing is stated of it.
#[verifier::external_body]
pub(crate) fn canonical_path(path: &str) -> (r: Option<String>) {
    std::path::Path::new(path).canonicalize().ok().and_then(|p| p.into_os_string().into_string().ok())
}

} // verus!
