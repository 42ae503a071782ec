//! Character-level helpers on text held as `Vec<char>`, each with an exact
//! statement over `Seq<char>`.
use vstd::prelude::*;
use vstd::std_specs::iter::IteratorSpec;

verus! {

/// The characters of `s`, in order.
pub fn chars_of(s: &str) -> (r: Vec<char>)
    ensures
        r@ == s@,
{
    broadcast use vstd::string::axiom_spec_iter;
    let mut it = s.chars();
    let mut r: Vec<char> = Vec::new();
    assert(r@ + it.remaining() =~= s@);
    loop
        invariant
            r@ + it.remaining() == s@,
        decreases s@.len() - r@.len(),
    {
        match it.next() {
            Some(c) => {
                assert(r@.push(c) + it.remaining() =~= s@);
                r.push(c);
            },
            None => {
                assert(r@ =~= s@);
                return r;
            },
        }
    }
}

/// Relies on `String: FromIterator<&char>`: the string made of `v`'s characters, in order.
#[verifier::external_body]
pub(crate) fn string_of(v: &Vec<char>) -> (r: String)
    ensures
        r@ == v@,
{
    v.iter().collect()
}

/// The characters with the Unicode `White_Space` property, as `char::is_whitespace`
/// documents them.
pub open spec fn is_white(c: char) -> bool {
    let u = c as u32;
    (0x9 <= u && u <= 0xd) || u == 0x20 || u == 0x85 || u == 0xa0 || u == 0x1680 || (0x2000
        <= u && u <= 0x200a) || u == 0x2028 || u == 0x2029 || u == 0x202f || u == 0x205f || u
        == 0x3000
}

pub fn is_whitespace_char(c: char) -> (r: bool)
    ensures
        r == is_white(c),
{
    let u = c as u32;
    (0x9 <= u && u <= 0xd) || u == 0x20 || u == 0x85 || u == 0xa0 || u == 0x1680 || (0x2000
        <= u && u <= 0x200a) || u == 0x2028 || u == 0x2029 || u == 0x202f || u == 0x205f || u
        == 0x3000
}

/// `s` without its trailing whitespace.
pub open spec fn trimmed_end(s: Seq<char>) -> Seq<char>
    decreases s.len(),
{
    if s.len() > 0 && is_white(s.last()) {
        trimmed_end(s.drop_last())
    } else {
        s
    }
}

/// Removes the trailing whitespace of `s`.
pub fn trim_end_chars(s: &Vec<char>) -> (r: Vec<char>)
    ensures
        r@ == trimmed_end(s@),
{
    let mut end: usize = s.len();
    assert(s@.subrange(0, s@.len() as int) =~= s@);
    while end > 0 && is_whitespace_char(s[end - 1])
        invariant
            end <= s.len(),
            trimmed_end(s@) == trimmed_end(s@.subrange(0, end as int)),
        decreases end,
    {
        assert(s@.subrange(0, end as int).drop_last() =~= s@.subrange(0, end - 1));
        end = end - 1;
    }
    slice_chars(s, 0, end)
}

/// A copy of `s[from..to]`.
pub fn slice_chars(s: &Vec<char>, from: usize, to: usize) -> (r: Vec<char>)
    requires
        from <= to <= s.len(),
    ensures
        r@ == s@.subrange(from as int, to as int),
{
    let mut r: Vec<char> = Vec::new();
    let mut i: usize = from;
    while i < to
        invariant
            from <= i <= to <= s.len(),
            r@ == s@.subrange(from as int, i as int),
        decreases to - i,
    {
        r.push(s[i]);
        i = i + 1;
        assert(r@ =~= s@.subrange(from as int, i as int));
    }
    r
}

/// Whether `s` holds exactly the characters of `lit`.
pub fn chars_equal(s: &Vec<char>, lit: &str) -> (r: bool)
    ensures
        r == (s@ == lit@),
{
    let l = chars_of(lit);
    if s.len() != l.len() {
        return false;
    }
    let mut i: usize = 0;
    while i < s.len()
        invariant
            s.len() == l.len(),
            l@ == lit@,
            i <= s.len(),
            forall|j: int| 0 <= j < i ==> s@[j] == l@[j],
        decreases s.len() - i,
    {
        if s[i] != l[i] {
            return false;
        }
        i = i + 1;
    }
    assert(s@ =~= l@);
    true
}

/// Whether `s` begins with the characters of `p`.
pub open spec fn starts_with(s: Seq<char>, p: Seq<char>) -> bool {
    p.len() <= s.len() && s.subrange(0, p.len() as int) == p
}

pub fn chars_start_with(s: &Vec<char>, lit: &str) -> (r: bool)
    ensures
        r == starts_with(s@, lit@),
{
    let p = chars_of(lit);
    if p.len() > s.len() {
        return false;
    }
    let mut i: usize = 0;
    while i < p.len()
        invariant
            p@ == lit@,
            p.len() <= s.len(),
            i <= p.len(),
            forall|j: int| 0 <= j < i ==> s@[j] == p@[j],
        decreases p.len() - i,
    {
        if s[i] != p[i] {
            assert(s@.subrange(0, p.len() as int)[i as int] != p@[i as int]);
            return false;
        }
        i = i + 1;
    }
    assert(s@.subrange(0, p.len() as int) =~= p@);
    true
}

/// A field delimiter `|:|` starts at index `i` of `s`.
pub open spec fn delim_at(s: Seq<char>, i: int) -> bool {
    0 <= i && i + 3 <= s.len() && s[i] == '|' && s[i + 1] == ':' && s[i + 2] == '|'
}

/// The first index at or after `k` where a delimiter starts, or -1.
pub open spec fn next_delim(s: Seq<char>, k: int) -> int
    decreases s.len() - k,
{
    if k < 0 || k + 3 > s.len() {
        -1
    } else if delim_at(s, k) {
        k
    } else {
        next_delim(s, k + 1)
    }
}

/// The pieces of `s[k..]` when it is cut at each delimiter, from the left, into at
/// most `n` pieces; the last piece keeps whatever delimiters remain.
pub open spec fn fields_from(s: Seq<char>, k: int, n: nat) -> Seq<Seq<char>>
    decreases n,
{
    let i = next_delim(s, k);
    if n <= 1 || i < 0 {
        seq![s.subrange(k, s.len() as int)]
    } else {
        seq![s.subrange(k, i)] + fields_from(s, i + 3, (n - 1) as nat)
    }
}

/// `s` cut at its first `n - 1` delimiters.
pub open spec fn split_fields(s: Seq<char>, n: nat) -> Seq<Seq<char>> {
    fields_from(s, 0, n)
}

proof fn lemma_next_delim(s: Seq<char>, k: int)
    requires
        0 <= k,
    ensures
        next_delim(s, k) == -1 || (k <= next_delim(s, k) && delim_at(s, next_delim(s, k))),
    decreases s.len() - k,
{
    if k + 3 <= s.len() && !delim_at(s, k) {
        lemma_next_delim(s, k + 1);
    }
}

/// Finds the first delimiter at or after `from`.
pub fn find_delim(s: &Vec<char>, from: usize) -> (r: Option<usize>)
    requires
        from <= s.len(),
    ensures
        match r {
            Some(i) => i as int == next_delim(s@, from as int),
            None => next_delim(s@, from as int) == -1,
        },
{
    let mut k: usize = from;
    while k < s.len() && s.len() - k >= 3
        invariant
            from <= k <= s.len(),
            next_delim(s@, from as int) == next_delim(s@, k as int),
        decreases s.len() - k,
    {
        if s[k] == '|' && s[k + 1] == ':' && s[k + 2] == '|' {
            return Some(k);
        }
        k = k + 1;
    }
    None
}

/// Cuts `s` at its first `n - 1` delimiters (`splitn(n, "|:|")`).
pub fn split_fields_exec(s: &Vec<char>, n: usize) -> (r: Vec<Vec<char>>)
    ensures
        r@.len() == split_fields(s@, n as nat).len(),
        forall|i: int| 0 <= i < r@.len() ==> #[trigger] r@[i]@ == split_fields(s@, n as nat)[i],
{
    let mut fields: Vec<Vec<char>> = Vec::new();
    let ghost mut model: Seq<Seq<char>> = Seq::empty();
    let mut start: usize = 0;
    loop
        invariant
            start <= s.len(),
            fields.len() < n || (n == 0 && fields.len() == 0),
            model.len() == fields.len(),
            forall|i: int| 0 <= i < fields@.len() ==> #[trigger] fields@[i]@ == model[i],
            model + fields_from(s@, start as int, (n - fields.len()) as nat) == split_fields(
                s@,
                n as nat,
            ),
        decreases s.len() - start,
    {
        let m = n - fields.len();
        let found = if m <= 1 {
            None
        } else {
            find_delim(s, start)
        };
        match found {
            None => {
                let last = slice_chars(s, start, s.len());
                proof {
                    model = model.push(last@);
                    assert(fields_from(s@, start as int, m as nat) =~= seq![last@]);
                }
                fields.push(last);
                assert(model =~= split_fields(s@, n as nat));
                return fields;
            },
            Some(i) => {
                proof {
                    lemma_next_delim(s@, start as int);
                }
                let piece = slice_chars(s, start, i);
                proof {
                    assert(fields_from(s@, start as int, m as nat) =~= seq![piece@] + fields_from(
                        s@,
                        i + 3,
                        (m - 1) as nat,
                    ));
                    assert(model + (seq![piece@] + fields_from(s@, i + 3, (m - 1) as nat))
                        =~= model.push(piece@) + fields_from(s@, i + 3, (m - 1) as nat));
                    model = model.push(piece@);
                }
                fields.push(piece);
                start = i + 3;
            },
        }
    }
}

/// `c` is an ASCII decimal digit.
pub open spec fn is_digit(c: char) -> bool {
    48 <= (c as u32) && (c as u32) <= 57
}

/// The number that the decimal digits `s` denote.
pub open spec fn decimal_value(s: Seq<char>) -> int
    decreases s.len(),
{
    if s.len() == 0 {
        0
    } else {
        decimal_value(s.drop_last()) * 10 + ((s.last() as u32) - 48)
    }
}

/// `s` without one leading `+`, which the standard integer parser accepts.
pub open spec fn unsigned_digits(s: Seq<char>) -> Seq<char> {
    if s.len() > 0 && s[0] == '+' {
        s.drop_first()
    } else {
        s
    }
}

/// `s` is the decimal text of an integer from 1 to `u32::MAX`.
pub open spec fn parses_positive(s: Seq<char>) -> bool {
    let d = unsigned_digits(s);
    &&& d.len() > 0
    &&& forall|i: int| 0 <= i < d.len() ==> is_digit(#[trigger] d[i])
    &&& 1 <= decimal_value(d) <= u32::MAX
}

/// The integer whose decimal text is `s`.
pub open spec fn positive_value(s: Seq<char>) -> u32 {
    decimal_value(unsigned_digits(s)) as u32
}

proof fn lemma_decimal_prefix(s: Seq<char>, k: int)
    requires
        0 <= k <= s.len(),
        forall|i: int| 0 <= i < s.len() ==> is_digit(#[trigger] s[i]),
    ensures
        0 <= decimal_value(s.subrange(0, k)) <= decimal_value(s),
    decreases s.len(),
{
    if s.len() > 0 {
        let t = s.drop_last();
        if k == s.len() {
            assert(s.subrange(0, k) =~= s);
            lemma_decimal_prefix(t, t.len() as int);
            assert(t.subrange(0, t.len() as int) =~= t);
        } else {
            lemma_decimal_prefix(t, k);
            assert(t.subrange(0, k) =~= s.subrange(0, k));
            lemma_decimal_prefix(t, t.len() as int);
            assert(t.subrange(0, t.len() as int) =~= t);
        }
    }
}

/// Reads a positive decimal integer that fits in `u32`.
pub fn parse_positive(s: &Vec<char>) -> (r: Option<u32>)
    ensures
        r is Some <==> parses_positive(s@),
        r is Some ==> r->0 == positive_value(s@),
{
    let start: usize = if s.len() > 0 && s[0] == '+' {
        1
    } else {
        0
    };
    let ghost d = unsigned_digits(s@);
    assert(d =~= s@.subrange(start as int, s@.len() as int));
    if start == s.len() {
        return None;
    }
    let mut acc: u64 = 0;
    let mut i: usize = start;
    while i < s.len()
        invariant
            start <= i <= s.len(),
            d == unsigned_digits(s@),
            d =~= s@.subrange(start as int, s@.len() as int),
            forall|j: int| 0 <= j < i - start ==> is_digit(#[trigger] d[j]),
            acc as int == decimal_value(d.subrange(0, i - start)),
            acc <= u32::MAX,
        decreases s.len() - i,
    {
        let c = s[i];
        if !((c as u32) >= 48 && (c as u32) <= 57) {
            assert(!is_digit(d[i - start]));
            assert(!parses_positive(s@));
            return None;
        }
        let next = acc * 10 + ((c as u32) - 48) as u64;
        assert(d.subrange(0, i - start + 1).drop_last() =~= d.subrange(0, i - start));
        assert(d.subrange(0, i - start + 1).last() == c);
        assert(next as int == decimal_value(d.subrange(0, i - start + 1)));
        if next > 0xffff_ffff {
            proof {
                if forall|j: int| 0 <= j < d.len() ==> is_digit(#[trigger] d[j]) {
                    lemma_decimal_prefix(d, i - start + 1);
                }
            }
            assert(!parses_positive(s@));
            return None;
        }
        acc = next;
        i = i + 1;
    }
    assert(d.subrange(0, d.len() as int) =~= d);
    if acc == 0 {
        return None;
    }
    Some(acc as u32)
}

/// `s` with each two-character escape `\n` turned into a line break.
pub open spec fn unescaped(s: Seq<char>) -> Seq<char>
    decreases s.len(),
{
    if s.len() == 0 {
        s
    } else if s.len() >= 2 && s[0] == '\\' && s[1] == 'n' {
        seq!['\n'] + unescaped(s.subrange(2, s.len() as int))
    } else {
        seq![s[0]] + unescaped(s.drop_first())
    }
}

/// Turns each escaped `\n` of `s` into a line break.
pub fn unescape_newlines(s: &Vec<char>) -> (r: Vec<char>)
    ensures
        r@ == unescaped(s@),
{
    let mut r: Vec<char> = Vec::new();
    let mut i: usize = 0;
    assert(s@.subrange(0, s@.len() as int) =~= s@);
    while i < s.len()
        invariant
            i <= s.len(),
            r@ + unescaped(s@.subrange(i as int, s@.len() as int)) == unescaped(s@),
        decreases s.len() - i,
    {
        let ghost rest = s@.subrange(i as int, s@.len() as int);
        if i + 1 < s.len() && s[i] == '\\' && s[i + 1] == 'n' {
            assert(rest.subrange(2, rest.len() as int) =~= s@.subrange(i + 2, s@.len() as int));
            assert(r@ + unescaped(rest) =~= r@.push('\n') + unescaped(
                s@.subrange(i + 2, s@.len() as int),
            ));
            r.push('\n');
            i = i + 2;
        } else {
            assert(rest.drop_first() =~= s@.subrange(i + 1, s@.len() as int));
            assert(r@ + unescaped(rest) =~= r@.push(s@[i as int]) + unescaped(
                s@.subrange(i + 1, s@.len() as int),
            ));
            r.push(s[i]);
            i = i + 1;
        }
    }
    assert(s@.subrange(s@.len() as int, s@.len() as int) =~= Seq::<char>::empty());
    assert(r@ + Seq::<char>::empty() =~= r@);
    r
}

/// `s` without one final line break.
pub open spec fn without_final_newline(s: Seq<char>) -> Seq<char> {
    if s.len() > 0 && s.last() == '\n' {
        s.drop_last()
    } else {
        s
    }
}

/// Removes one final line break of `s`.
pub fn trim_final_newline(s: &mut Vec<char>)
    ensures
        final(s)@ == without_final_newline(old(s)@),
{
    if s.len() > 0 && s[s.len() - 1] == '\n' {
        s.pop();
    }
}

/// `rel` resolved against the directory `root`, as `Path::join` does on Unix: an
/// absolute `rel` stands for itself; otherwise one separator joins the two.
pub open spec fn joined_path(root: Seq<char>, rel: Seq<char>) -> Seq<char> {
    if rel.len() > 0 && rel[0] == '/' {
        rel
    } else if root.len() == 0 || root.last() == '/' {
        root + rel
    } else {
        root + seq!['/'] + rel
    }
}

/// Resolves `rel` against the directory `root`.
pub fn join_path(root: &Vec<char>, rel: &Vec<char>) -> (r: Vec<char>)
    ensures
        r@ == joined_path(root@, rel@),
{
    if rel.len() > 0 && rel[0] == '/' {
        return slice_chars(rel, 0, rel.len());
    }
    let mut r = slice_chars(root, 0, root.len());
    if root.len() > 0 && root[root.len() - 1] != '/' {
        r.push('/');
    }
    let mut tail = slice_chars(rel, 0, rel.len());
    r.append(&mut tail);
    assert(root@.subrange(0, root@.len() as int) =~= root@);
    assert(rel@.subrange(0, rel@.len() as int) =~= rel@);
    r
}

/// The pieces of `s` between occurrences of `sep`, as `str::split` gives them:
/// always at least one, empty pieces included.
pub open spec fn pieces(s: Seq<char>, sep: char) -> Seq<Seq<char>>
    decreases s.len(),
{
    if s.len() == 0 {
        seq![Seq::empty()]
    } else {
        let prev = pieces(s.drop_last(), sep);
        if s.last() == sep {
            prev.push(Seq::empty())
        } else {
            prev.update(prev.len() - 1, prev.last().push(s.last()))
        }
    }
}

proof fn lemma_pieces_nonempty(s: Seq<char>, sep: char)
    ensures
        pieces(s, sep).len() >= 1,
    decreases s.len(),
{
    if s.len() > 0 {
        lemma_pieces_nonempty(s.drop_last(), sep);
    }
}

pub open spec fn strings_view(v: Seq<String>) -> Seq<Seq<char>> {
    v.map_values(|x: String| x@)
}

/// Cuts `s` at each `sep`.
pub fn split_on(s: &str, sep: char) -> (r: Vec<String>)
    ensures
        strings_view(r@) == pieces(s@, sep),
{
    let chars = chars_of(s);
    let mut out: Vec<String> = Vec::new();
    let mut cur: Vec<char> = Vec::new();
    let mut i: usize = 0;
    assert(chars@.subrange(0, 0) =~= Seq::<char>::empty());
    assert(strings_view(out@).push(cur@) =~= pieces(chars@.subrange(0, 0), sep));
    while i < chars.len()
        invariant
            i <= chars.len(),
            chars@ == s@,
            strings_view(out@).push(cur@) == pieces(chars@.subrange(0, i as int), sep),
        decreases chars.len() - i,
    {
        let ghost pre = chars@.subrange(0, i as int);
        assert(chars@.subrange(0, i + 1).drop_last() =~= pre);
        proof {
            lemma_pieces_nonempty(pre, sep);
        }
        if chars[i] == sep {
            let piece = string_of(&cur);
            assert(strings_view(out@.push(piece)) =~= strings_view(out@).push(cur@));
            out.push(piece);
            cur = Vec::new();
            assert(strings_view(out@).push(cur@) =~= pieces(chars@.subrange(0, i + 1), sep));
        } else {
            cur.push(chars[i]);
            assert(strings_view(out@).push(cur@) =~= pieces(chars@.subrange(0, i + 1), sep));
        }
        i = i + 1;
    }
    assert(chars@.subrange(0, chars@.len() as int) =~= chars@);
    let last = string_of(&cur);
    assert(strings_view(out@.push(last)) =~= strings_view(out@).push(cur@));
    out.push(last);
    out
}

/// `s` without its leading whitespace.
pub open spec fn trimmed_start(s: Seq<char>) -> Seq<char>
    decreases s.len(),
{
    if s.len() > 0 && is_white(s[0]) {
        trimmed_start(s.drop_first())
    } else {
        s
    }
}

/// `s` without leading or trailing whitespace, as `str::trim` gives it.
pub open spec fn trimmed(s: Seq<char>) -> Seq<char> {
    trimmed_start(trimmed_end(s))
}

/// Removes the leading and trailing whitespace of `s`.
pub fn trim_chars(s: &Vec<char>) -> (r: Vec<char>)
    ensures
        r@ == trimmed(s@),
{
    let t = trim_end_chars(s);
    let mut start: usize = 0;
    assert(t@.subrange(0, t@.len() as int) =~= t@);
    while start < t.len() && is_whitespace_char(t[start])
        invariant
            start <= t.len(),
            trimmed_start(t@) == trimmed_start(t@.subrange(start as int, t@.len() as int)),
        decreases t.len() - start,
    {
        assert(t@.subrange(start as int, t@.len() as int).drop_first() =~= t@.subrange(
            start + 1,
            t@.len() as int,
        ));
        start = start + 1;
    }
    slice_chars(&t, start, t.len())
}

/// The words that whitespace separates in `s` so far, and the word being read.
pub open spec fn word_scan(s: Seq<char>) -> (Seq<Seq<char>>, Seq<char>)
    decreases s.len(),
{
    if s.len() == 0 {
        (Seq::empty(), Seq::empty())
    } else {
        let (done, cur) = word_scan(s.drop_last());
        if is_white(s.last()) {
            if cur.len() > 0 {
                (done.push(cur), Seq::empty())
            } else {
                (done, cur)
            }
        } else {
            (done, cur.push(s.last()))
        }
    }
}

/// The non-empty runs of non-whitespace characters of `s`, as
/// `str::split_whitespace` gives them.
pub open spec fn words(s: Seq<char>) -> Seq<Seq<char>> {
    let (done, cur) = word_scan(s);
    if cur.len() > 0 {
        done.push(cur)
    } else {
        done
    }
}

/// Cuts `s` into its whitespace-separated words.
pub fn split_words(s: &str) -> (r: Vec<String>)
    ensures
        strings_view(r@) == words(s@),
{
    let chars = chars_of(s);
    let mut out: Vec<String> = Vec::new();
    let mut cur: Vec<char> = Vec::new();
    let mut i: usize = 0;
    assert(chars@.subrange(0, 0) =~= Seq::<char>::empty());
    assert(strings_view(out@) =~= Seq::<Seq<char>>::empty());
    while i < chars.len()
        invariant
            i <= chars.len(),
            chars@ == s@,
            (strings_view(out@), cur@) == word_scan(chars@.subrange(0, i as int)),
        decreases chars.len() - i,
    {
        assert(chars@.subrange(0, i + 1).drop_last() =~= chars@.subrange(0, i as int));
        if is_whitespace_char(chars[i]) {
            if cur.len() > 0 {
                let w = string_of(&cur);
                assert(strings_view(out@.push(w)) =~= strings_view(out@).push(cur@));
                out.push(w);
                cur = Vec::new();
            }
        } else {
            cur.push(chars[i]);
        }
        i = i + 1;
        assert(cur@ =~= word_scan(chars@.subrange(0, i as int)).1);
    }
    assert(chars@.subrange(0, chars@.len() as int) =~= chars@);
    if cur.len() > 0 {
        let w = string_of(&cur);
        assert(strings_view(out@.push(w)) =~= strings_view(out@).push(cur@));
        out.push(w);
    }
    out
}

/// The first index of `c` in `s`, or -1.
pub open spec fn first_index(s: Seq<char>, c: char) -> int {
    if exists|i: int| 0 <= i < s.len() && s[i] == c {
        choose|i: int|
            0 <= i < s.len() && s[i] == c && forall|j: int| 0 <= j < i ==> s[j] != c
    } else {
        -1
    }
}

/// Finds the first `c` in `s`.
pub fn find_char(s: &Vec<char>, c: char) -> (r: Option<usize>)
    ensures
        match r {
            Some(i) => i as int == first_index(s@, c) && i < s.len(),
            None => first_index(s@, c) == -1,
        },
{
    let mut i: usize = 0;
    while i < s.len()
        invariant
            i <= s.len(),
            forall|j: int| 0 <= j < i ==> s@[j] != c,
        decreases s.len() - i,
    {
        if s[i] == c {
            assert(exists|k: int| 0 <= k < s@.len() && s@[k] == c);
            let ghost k = first_index(s@, c);
            assert(k == i as int) by {
                if k < i {
                } else if k > i {
                }
            }
            return Some(i);
        }
        i = i + 1;
    }
    None
}

} // verus!
