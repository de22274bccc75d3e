//! Character-level text handling shared by every parser of the launcher.
//!
//! Text is processed as `Vec<char>`; the specifications speak of `Seq<char>`,
//! which is also the view of `str` and `String`.
use vstd::prelude::*;

verus! {

// ───────────────────────── specifications ─────────────────────────

/// Unicode `White_Space`, as `char::is_whitespace` defines it.
pub open spec fn is_ws(c: char) -> bool {
    ||| c == ' '
    ||| ('\t' <= c && c <= '\r')
    ||| c == '\u{85}'
    ||| c == '\u{A0}'
    ||| c == '\u{1680}'
    ||| ('\u{2000}' <= c && c <= '\u{200A}')
    ||| c == '\u{2028}'
    ||| c == '\u{2029}'
    ||| c == '\u{202F}'
    ||| c == '\u{205F}'
    ||| c == '\u{3000}'
}

/// `s` without its leading whitespace (`str::trim_start`).
pub open spec fn trim_start(s: Seq<char>) -> Seq<char>
    decreases s.len(),
{
    if s.len() > 0 && is_ws(s[0]) {
        trim_start(s.drop_first())
    } else {
        s
    }
}

/// `s` without its trailing whitespace (`str::trim_end`).
pub open spec fn trim_end(s: Seq<char>) -> Seq<char>
    decreases s.len(),
{
    if s.len() > 0 && is_ws(s.last()) {
        trim_end(s.drop_last())
    } else {
        s
    }
}

/// `str::trim`.
pub open spec fn trim(s: Seq<char>) -> Seq<char> {
    trim_end(trim_start(s))
}

/// `p` is a prefix of `s`.
pub open spec fn has_prefix(s: Seq<char>, p: Seq<char>) -> bool {
    p.len() <= s.len() && s.take(p.len() as int) == p
}

/// `p` is a suffix of `s`.
pub open spec fn has_suffix(s: Seq<char>, p: Seq<char>) -> bool {
    p.len() <= s.len() && s.skip(s.len() - p.len()) == p
}

/// `pat` occurs in `s` starting at index `i`.
pub open spec fn occurs_at(s: Seq<char>, pat: Seq<char>, i: int) -> bool {
    0 <= i && i + pat.len() <= s.len() && s.subrange(i, i + pat.len()) == pat
}

/// `pat` occurs somewhere in `s` (`str::contains`).
pub open spec fn contains(s: Seq<char>, pat: Seq<char>) -> bool {
    exists|i: int| occurs_at(s, pat, i)
}

/// Index of the first occurrence of `pat` in `s` (`str::find`).
pub open spec fn find(s: Seq<char>, pat: Seq<char>) -> Option<int>
    decreases s.len(),
{
    if pat.len() > s.len() {
        None
    } else if s.take(pat.len() as int) == pat {
        Some(0)
    } else if s.len() == 0 {
        None
    } else {
        match find(s.drop_first(), pat) {
            Some(i) => Some(i + 1),
            None => None,
        }
    }
}

/// Index of the first `c` in `s`.
pub open spec fn find_char(s: Seq<char>, c: char) -> Option<int> {
    find(s, seq![c])
}

/// Removes one trailing carriage return.
pub open spec fn strip_cr(s: Seq<char>) -> Seq<char> {
    if s.len() > 0 && s.last() == '\r' {
        s.drop_last()
    } else {
        s
    }
}

/// `str::lines`: split at `\n`, drop one `\r` before each `\n`, and no empty
/// last line after a final line ending.
pub open spec fn lines(s: Seq<char>) -> Seq<Seq<char>>
    decreases s.len(),
{
    if s.len() == 0 {
        seq![]
    } else {
        proof {
            lemma_find(s, seq!['\n']);
        }
        match find_char(s, '\n') {
            None => seq![s],
            Some(i) => seq![strip_cr(s.take(i))] + lines(s.skip(i + 1)),
        }
    }
}

/// The views of a sequence of character vectors.
pub open spec fn views(v: Seq<Vec<char>>) -> Seq<Seq<char>> {
    v.map_values(|l: Vec<char>| l@)
}

/// The views of a sequence of strings.
pub open spec fn strs(v: Seq<String>) -> Seq<Seq<char>> {
    v.map_values(|s: String| s@)
}

/// ASCII lower case of one character (`char::to_ascii_lowercase`).
pub open spec fn ascii_lower_char(c: char) -> char {
    if 'A' <= c && c <= 'Z' {
        ((c as u32) + 32) as char
    } else {
        c
    }
}

/// `str::to_ascii_lowercase`.
pub open spec fn ascii_lower(s: Seq<char>) -> Seq<char> {
    s.map_values(|c: char| ascii_lower_char(c))
}

/// `str::eq_ignore_ascii_case`.
pub open spec fn eq_ignore_ascii_case(a: Seq<char>, b: Seq<char>) -> bool {
    ascii_lower(a) == ascii_lower(b)
}

/// Every `from` replaced by `to`.
pub open spec fn replace_char(s: Seq<char>, from: char, to: char) -> Seq<char> {
    s.map_values(|c: char| if c == from { to } else { c })
}

/// `parts` joined with `sep` between consecutive parts (`[T]::join`).
pub open spec fn join(parts: Seq<Seq<char>>, sep: Seq<char>) -> Seq<char>
    decreases parts.len(),
{
    if parts.len() == 0 {
        seq![]
    } else if parts.len() == 1 {
        parts[0]
    } else {
        join(parts.drop_last(), sep) + sep + parts.last()
    }
}

/// Scanning state of `str::split(c)` after `s`: finished pieces and the piece in progress.
pub open spec fn split_state(s: Seq<char>, c: char) -> (Seq<Seq<char>>, Seq<char>)
    decreases s.len(),
{
    if s.len() == 0 {
        (seq![], seq![])
    } else {
        let (ps, cur) = split_state(s.drop_last(), c);
        if s.last() == c {
            (ps.push(cur), seq![])
        } else {
            (ps, cur.push(s.last()))
        }
    }
}

/// The pieces of `s` between occurrences of `c` (`str::split(c)`).
pub open spec fn split(s: Seq<char>, c: char) -> Seq<Seq<char>> {
    split_state(s, c).0.push(split_state(s, c).1)
}

/// `str::to_lowercase` (full Unicode lower-casing) of a string.
pub uninterp spec fn lowercase(s: Seq<char>) -> Seq<char>;


/// Lines joined by newlines, with one final newline.
pub open spec fn render(ls: Seq<Seq<char>>) -> Seq<char> {
    let o = join(ls, "\n"@);
    if has_suffix(o, "\n"@) {
        o
    } else {
        o + "\n"@
    }
}

/// What `lines` reads back of the rendering of `ls`: each line without one
/// final carriage return, and without a last empty line after others (no
/// lines read back as one empty line).
pub open spec fn read_back(ls: Seq<Seq<char>>) -> Seq<Seq<char>> {
    if ls.len() == 0 {
        seq![seq![]]
    } else if ls.len() >= 2 && ls.last().len() == 0 {
        ls.drop_last().map_values(|l: Seq<char>| strip_cr(l))
    } else {
        ls.map_values(|l: Seq<char>| strip_cr(l))
    }
}

/// Every line is free of line breaks.
pub open spec fn single_lines(ls: Seq<Seq<char>>) -> bool {
    forall|i: int| 0 <= i < ls.len() ==> !(#[trigger] ls[i]).contains('\n')
}

proof fn lemma_join_first(ls: Seq<Seq<char>>, sep: Seq<char>)
    requires
        ls.len() >= 2,
    ensures
        join(ls, sep) == ls[0] + sep + join(ls.drop_first(), sep),
    decreases ls.len(),
{
    if ls.len() == 2 {
        assert(ls.drop_last() =~= seq![ls[0]]);
        assert(ls.drop_first() =~= seq![ls[1]]);
        assert(join(ls.drop_last(), sep) == ls[0]);
        assert(join(ls.drop_first(), sep) == ls[1]);
        assert(join(ls, sep) =~= ls[0] + sep + join(ls.drop_first(), sep));
    } else {
        lemma_join_first(ls.drop_last(), sep);
        let x = ls.drop_last().drop_first();
        assert(x =~= ls.drop_first().drop_last());
        assert(ls.drop_first().last() == ls.last());
        assert(join(ls.drop_first(), sep) == join(x, sep) + sep + ls.last());
        assert(join(ls, sep) =~= ls[0] + sep + join(ls.drop_first(), sep));
    }
}

proof fn lemma_join_single_empty(ls: Seq<Seq<char>>, sep: Seq<char>)
    requires
        ls.len() >= 1,
        join(ls, sep).len() == 0,
        sep.len() > 0,
    ensures
        ls.len() == 1 && ls[0].len() == 0,
{
    if ls.len() >= 2 {
        lemma_join_first(ls, sep);
    }
}

/// A line break after a line without one: `lines` reads that line (less a
/// final carriage return), then the rest.
pub proof fn lemma_lines_cons(a: Seq<char>, r: Seq<char>)
    requires
        !a.contains('\n'),
    ensures
        lines(a + seq!['\n'] + r) == seq![strip_cr(a)] + lines(r),
{
    let s = a + seq!['\n'] + r;
    let i = a.len() as int;
    assert(s.subrange(i, i + 1) =~= seq!['\n']);
    assert forall|j: int| 0 <= j < i implies !occurs_at(s, seq!['\n'], j) by {
        if occurs_at(s, seq!['\n'], j) {
            assert(s.subrange(j, j + 1)[0] == s[j]);
            assert(a[j] == '\n');
        }
    }
    lemma_find_is_first(s, seq!['\n'], i);
    assert(s.take(i) =~= a);
    assert(s.skip(i + 1) =~= r);
}

/// `lines` reads back the rendering of single lines as `read_back` says.
pub proof fn lemma_lines_render(ls: Seq<Seq<char>>)
    requires
        single_lines(ls),
    ensures
        lines(render(ls)) == read_back(ls),
    decreases ls.len(),
{
    reveal_strlit("\n");
    assert("\n"@ =~= seq!['\n']);
    if ls.len() == 0 {
        assert(join(ls, "\n"@) =~= Seq::<char>::empty());
        assert(render(ls) =~= seq!['\n']);
        lemma_lines_cons(seq![], seq![]);
        assert(seq![] + seq!['\n'] + Seq::<char>::empty() =~= seq!['\n']);
        assert(strip_cr(Seq::<char>::empty()) =~= Seq::<char>::empty());
        assert(lines(render(ls)) =~= read_back(ls));
    } else if ls.len() == 1 {
        let a = ls[0];
        assert(!a.contains('\n'));
        lemma_suffix_newline(a);
        assert(render(ls) =~= a + seq!['\n'] + Seq::<char>::empty());
        lemma_lines_cons(a, seq![]);
        assert(lines(render(ls)) =~= read_back(ls));
    } else {
        let a = ls[0];
        let rest = ls.drop_first();
        assert(!a.contains('\n'));
        lemma_join_first(ls, "\n"@);
        assert forall|i: int| 0 <= i < rest.len() implies !(#[trigger] rest[i]).contains('\n') by {
            assert(rest[i] == ls[i + 1]);
        }
        let jr = join(rest, "\n"@);
        if jr.len() == 0 {
            lemma_join_single_empty(rest, "\n"@);
            assert(join(ls, "\n"@) =~= a + seq!['\n'] + Seq::<char>::empty());
            lemma_suffix_newline(join(ls, "\n"@));
            assert(render(ls) =~= a + seq!['\n'] + Seq::<char>::empty());
            lemma_lines_cons(a, seq![]);
            assert(ls.drop_last() =~= seq![a]);
            assert(lines(render(ls)) =~= read_back(ls));
        } else {
            lemma_suffix_newline(jr);
            lemma_suffix_newline(join(ls, "\n"@));
            assert((a + seq!['\n'] + jr).last() == jr.last());
            assert(render(ls) =~= a + seq!['\n'] + render(rest));
            lemma_lines_cons(a, render(rest));
            lemma_lines_render(rest);
            if rest.len() == 1 {
                assert(ls.last() == rest[0]);
                if ls.last().len() == 0 {
                    assert(jr =~= rest[0]);
                }
            }
            assert(rest.last() == ls.last());
            assert(ls.drop_last().drop_first() =~= rest.drop_last());
            assert(lines(render(ls)) =~= read_back(ls));
        }
    }
}

proof fn lemma_suffix_newline(l: Seq<char>)
    ensures
        has_suffix(l, seq!['\n']) <==> (l.len() > 0 && l.last() == '\n'),
{
    if l.len() > 0 {
        if l.last() == '\n' {
            assert(l.skip(l.len() - 1) =~= seq!['\n']);
        }
        if has_suffix(l, seq!['\n']) {
            assert(l.skip(l.len() - 1)[0] == l.last());
        }
    }
}


/// The lines `lines` reads hold no line break.
pub proof fn lemma_lines_single(s: Seq<char>)
    ensures
        single_lines(lines(s)),
    decreases s.len(),
{
    if s.len() > 0 {
        lemma_find(s, seq!['\n']);
        match find_char(s, '\n') {
            None => {
                assert forall|j: int| 0 <= j < s.len() implies s[j] != '\n' by {
                    if s[j] == '\n' {
                        assert(s.subrange(j, j + 1) =~= seq!['\n']);
                        assert(occurs_at(s, seq!['\n'], j));
                    }
                }
                assert(lines(s) == seq![s]);
            },
            Some(i) => {
                let a = s.take(i);
                assert forall|j: int| 0 <= j < a.len() implies a[j] != '\n' by {
                    if a[j] == '\n' {
                        assert(s[j] == a[j]);
                        assert(s.subrange(j, j + 1) =~= seq!['\n']);
                        assert(occurs_at(s, seq!['\n'], j));
                    }
                }
                assert forall|j: int| 0 <= j < strip_cr(a).len() implies strip_cr(a)[j] != '\n' by {
                    assert(strip_cr(a)[j] == a[j]);
                }
                lemma_lines_single(s.skip(i + 1));
                let ls = lines(s);
                assert(ls == seq![strip_cr(a)] + lines(s.skip(i + 1)));
                assert forall|k: int| 0 <= k < ls.len() implies !(#[trigger] ls[k]).contains('\n') by {
                    if k > 0 {
                        assert(ls[k] == lines(s.skip(i + 1))[k - 1]);
                    }
                }
            },
        }
    }
}

/// A final whitespace character does not change the trimmed text.
pub proof fn lemma_trim_drop_ws_last(l: Seq<char>)
    requires
        l.len() > 0,
        is_ws(l.last()),
    ensures
        trim(l) == trim(l.drop_last()),
    decreases l.len(),
{
    if l.len() == 1 {
        assert(l.drop_first() =~= Seq::<char>::empty());
        assert(l.drop_last() =~= Seq::<char>::empty());
    } else if is_ws(l[0]) {
        lemma_trim_drop_ws_last(l.drop_first());
        assert(l.drop_last().drop_first() =~= l.drop_first().drop_last());
        assert(l.drop_last()[0] == l[0]);
    } else {
        assert(l.drop_last()[0] == l[0]);
        assert(trim_start(l) == l);
        assert(trim_start(l.drop_last()) == l.drop_last());
    }
}

/// Trimming twice trims once.
pub proof fn lemma_trim_idempotent(s: Seq<char>)
    ensures
        trim(trim(s)) == trim(s),
{
    let t = trim(s);
    lemma_trim_shape(s);
    if t.len() > 0 {
        assert(trim_start(t) == t);
        assert(trim_end(t) == t);
    }
}

proof fn lemma_trim_start_suffix(s: Seq<char>)
    ensures
        exists|k: int| 0 <= k <= s.len() && trim_start(s) == s.skip(k),
    decreases s.len(),
{
    if s.len() > 0 && is_ws(s[0]) {
        lemma_trim_start_suffix(s.drop_first());
        let k = choose|k: int| 0 <= k <= s.drop_first().len() && trim_start(s.drop_first()) == s.drop_first().skip(k);
        assert(s.drop_first().skip(k) =~= s.skip(k + 1));
    } else {
        assert(s.skip(0) =~= s);
    }
}

/// A character absent from a text is absent from it trimmed.
pub proof fn lemma_trim_keeps_absent(s: Seq<char>, c: char)
    requires
        !s.contains(c),
    ensures
        !trim(s).contains(c),
{
    lemma_trim_start_suffix(s);
    let k = choose|k: int| 0 <= k <= s.len() && trim_start(s) == s.skip(k);
    lemma_trim_end_shape(trim_start(s));
    let t = trim(s);
    assert forall|j: int| 0 <= j < t.len() implies t[j] != c by {
        assert(t[j] == s[k + j]);
    }
}

// ───────────────────────── lemmas ─────────────────────────

proof fn lemma_trim_start_skip(s: Seq<char>, i: int)
    requires
        0 <= i <= s.len(),
        forall|k: int| 0 <= k < i ==> is_ws(#[trigger] s[k]),
    ensures
        trim_start(s) == trim_start(s.skip(i)),
    decreases i,
{
    if i > 0 {
        assert(s.drop_first().skip(i - 1) =~= s.skip(i));
        assert forall|k: int| 0 <= k < i - 1 implies is_ws(#[trigger] s.drop_first()[k]) by {
            assert(s.drop_first()[k] == s[k + 1]);
        }
        lemma_trim_start_skip(s.drop_first(), i - 1);
    } else {
        assert(s.skip(0) =~= s);
    }
}


proof fn lemma_trim_start_shape(s: Seq<char>)
    ensures
        trim_start(s).len() == 0 || !is_ws(trim_start(s)[0]),
    decreases s.len(),
{
    if s.len() > 0 && is_ws(s[0]) {
        lemma_trim_start_shape(s.drop_first());
    }
}

proof fn lemma_trim_end_shape(s: Seq<char>)
    ensures
        trim_end(s).len() <= s.len(),
        trim_end(s) == s.take(trim_end(s).len() as int),
        trim_end(s).len() == 0 || !is_ws(trim_end(s).last()),
    decreases s.len(),
{
    if s.len() > 0 && is_ws(s.last()) {
        lemma_trim_end_shape(s.drop_last());
        assert(s.drop_last().take(trim_end(s).len() as int) =~= s.take(trim_end(s).len() as int));
    } else {
        assert(s.take(s.len() as int) =~= s);
    }
}

/// A trimmed text neither starts nor ends with whitespace.
pub proof fn lemma_trim_shape(s: Seq<char>)
    ensures
        trim(s).len() == 0 || (!is_ws(trim(s)[0]) && !is_ws(trim(s).last())),
{
    lemma_trim_start_shape(s);
    lemma_trim_end_shape(trim_start(s));
    if trim(s).len() > 0 {
        assert(trim(s)[0] == trim_start(s)[0]);
    }
}

/// Trimming a trimmed text after one leading space gives it back.
pub proof fn lemma_trim_space_trimmed(s: Seq<char>)
    ensures
        trim(seq![' '] + trim(s)) == trim(s),
{
    let t = trim(s);
    lemma_trim_shape(s);
    assert((seq![' '] + t).drop_first() =~= t);
    assert(trim_start(seq![' '] + t) == trim_start(t));
    if t.len() > 0 {
        assert(trim_end(t) == t);
    }
}

/// Past its leading whitespace, `trim_start` keeps the rest as it is.
pub proof fn lemma_trim_start_at(s: Seq<char>, i: int)
    requires
        0 <= i <= s.len(),
        forall|k: int| 0 <= k < i ==> is_ws(#[trigger] s[k]),
        i == s.len() || !is_ws(s[i]),
    ensures
        trim_start(s) == s.skip(i),
{
    lemma_trim_start_skip(s, i);
    if i < s.len() {
        assert(s.skip(i)[0] == s[i]);
    } else {
        assert(s.skip(i) =~= Seq::<char>::empty());
    }
}

proof fn lemma_trim_end_take(s: Seq<char>, j: int)
    requires
        0 <= j <= s.len(),
        forall|k: int| j <= k < s.len() ==> is_ws(#[trigger] s[k]),
    ensures
        trim_end(s) == trim_end(s.take(j)),
    decreases s.len() - j,
{
    if j < s.len() {
        assert(s.drop_last().take(j) =~= s.take(j));
        lemma_trim_end_take(s.drop_last(), j);
    } else {
        assert(s.take(j) =~= s);
    }
}

proof fn lemma_occurs_shift(s: Seq<char>, pat: Seq<char>, j: int)
    requires
        s.len() > 0,
        j >= 1,
    ensures
        occurs_at(s, pat, j) == occurs_at(s.drop_first(), pat, j - 1),
{
    if j + pat.len() <= s.len() {
        assert(s.subrange(j, j + pat.len()) =~= s.drop_first().subrange(j - 1, j - 1 + pat.len()));
    }
}

/// `find` gives the first occurrence.
pub proof fn lemma_find(s: Seq<char>, pat: Seq<char>)
    ensures
        match find(s, pat) {
            Some(i) => occurs_at(s, pat, i) && forall|j: int| 0 <= j < i ==> !occurs_at(s, pat, j),
            None => forall|j: int| !occurs_at(s, pat, j),
        },
    decreases s.len(),
{
    assert(s.subrange(0, pat.len() as int) =~= s.take(pat.len() as int));
    if pat.len() > s.len() {
    } else if s.take(pat.len() as int) == pat {
    } else if s.len() == 0 {
    } else {
        lemma_find(s.drop_first(), pat);
        match find(s.drop_first(), pat) {
            Some(i) => {
                lemma_occurs_shift(s, pat, i + 1);
                assert forall|j: int| 0 <= j < i + 1 implies !occurs_at(s, pat, j) by {
                    if j >= 1 {
                        lemma_occurs_shift(s, pat, j);
                    }
                }
            },
            None => {
                assert forall|j: int| !occurs_at(s, pat, j) by {
                    if j >= 1 {
                        lemma_occurs_shift(s, pat, j);
                    }
                }
            },
        }
    }
}

/// `find` characterised by occurrence.
pub proof fn lemma_find_is_first(s: Seq<char>, pat: Seq<char>, i: int)
    requires
        occurs_at(s, pat, i),
        forall|j: int| 0 <= j < i ==> !occurs_at(s, pat, j),
    ensures
        find(s, pat) == Some(i),
{
    lemma_find(s, pat);
    match find(s, pat) {
        Some(k) => {
            if k < i {
            } else if k > i {
            }
        },
        None => {},
    }
}

/// `find` returns `None` exactly when there is no occurrence.
pub proof fn lemma_find_none(s: Seq<char>, pat: Seq<char>)
    requires
        forall|j: int| !occurs_at(s, pat, j),
    ensures
        find(s, pat) == None::<int>,
{
    lemma_find(s, pat);
}

/// `contains` agrees with `find`.
pub proof fn lemma_contains_find(s: Seq<char>, pat: Seq<char>)
    ensures
        contains(s, pat) <==> find(s, pat) is Some,
{
    lemma_find(s, pat);
}

// ───────────────────────── trusted std calls ─────────────────────────

/// Builds a `String` from characters: std's `FromIterator<&char>` for `String`,
/// whose result holds exactly the given characters in order.
#[verifier::external_body]
pub(crate) fn string_of(v: &[char]) -> (s: String)
    ensures
        s@ == v@,
{
    String::from_iter(v.iter())
}

/// `str::to_lowercase`, std's Unicode lower-casing; its result is named
/// `lowercase`, a function of the characters alone.
#[verifier::external_body]
pub(crate) fn to_lower(s: &str) -> (r: String)
    ensures
        r@ == lowercase(s@),
{
    s.to_lowercase()
}

// ───────────────────────── executable helpers ─────────────────────────

/// The characters of `s`, in order.
pub fn chars_of(s: &str) -> (v: Vec<char>)
    ensures
        v@ == s@,
{
    let mut v: Vec<char> = Vec::new();
    for c in it: s.chars()
        invariant
            v@ == it.seq().take(it.index() as int),
    {
        v.push(c);
    }
    v
}

/// `char::is_whitespace`.
pub fn is_whitespace(c: char) -> (b: bool)
    ensures
        b == is_ws(c),
{
    c == ' ' || ('\t' <= c && c <= '\r') || c == '\u{85}' || c == '\u{A0}' || c == '\u{1680}'
        || ('\u{2000}' <= c && c <= '\u{200A}') || c == '\u{2028}' || c == '\u{2029}' || c
        == '\u{202F}' || c == '\u{205F}' || c == '\u{3000}'
}

/// A copy of `s[lo..hi]`.
pub fn slice_of(s: &[char], lo: usize, hi: usize) -> (r: Vec<char>)
    requires
        lo <= hi <= s@.len(),
    ensures
        r@ == s@.subrange(lo as int, hi as int),
{
    let mut r: Vec<char> = Vec::new();
    let mut i = lo;
    while i < hi
        invariant
            lo <= i <= hi <= s@.len(),
            r@ == s@.subrange(lo as int, i as int),
        decreases hi - i,
    {
        r.push(s[i]);
        i += 1;
    }
    r
}

/// Appends all of `s` to `out`.
pub fn push_all(out: &mut Vec<char>, s: &[char])
    ensures
        final(out)@ == old(out)@ + s@,
{
    let mut i: usize = 0;
    while i < s.len()
        invariant
            i <= s@.len(),
            out@ == old(out)@ + s@.take(i as int),
        decreases s@.len() - i,
    {
        out.push(s[i]);
        i += 1;
        assert(s@.take(i as int) =~= s@.take(i - 1) + seq![s@[i - 1]]);
    }
    assert(s@.take(s@.len() as int) =~= s@);
}

/// Appends all characters of `s` to `out`.
pub fn push_str(out: &mut Vec<char>, s: &str)
    ensures
        final(out)@ == old(out)@ + s@,
{
    let v = chars_of(s);
    push_all(out, &v);
}

/// `str::trim`.
pub fn trimmed(s: &[char]) -> (r: Vec<char>)
    ensures
        r@ == trim(s@),
{
    let n = s.len();
    let mut i: usize = 0;
    while i < n && is_whitespace(s[i])
        invariant
            i <= n == s@.len(),
            forall|k: int| 0 <= k < i ==> is_ws(#[trigger] s@[k]),
        decreases n - i,
    {
        i += 1;
    }
    proof {
        lemma_trim_start_skip(s@, i as int);
        if i < n {
            assert(!is_ws(s@.skip(i as int)[0]));
        }
    }
    let ghost t = s@.skip(i as int);
    assert(trim_start(s@) == t);
    let mut j: usize = n;
    while j > i && is_whitespace(s[j - 1])
        invariant
            i <= j <= n == s@.len(),
            forall|k: int| j <= k < n ==> is_ws(#[trigger] s@[k]),
        decreases j,
    {
        j -= 1;
    }
    proof {
        let jj = j - i;
        assert forall|k: int| jj <= k < t.len() implies is_ws(#[trigger] t[k]) by {
            assert(t[k] == s@[k + i]);
        }
        lemma_trim_end_take(t, jj as int);
        assert(t.take(jj as int) =~= s@.subrange(i as int, j as int));
        if j > i {
            assert(t.take(jj as int).last() == s@[j - 1]);
        }
    }
    slice_of(s, i, j)
}

/// `str::trim_end`.
pub fn trimmed_end(s: &[char]) -> (r: Vec<char>)
    ensures
        r@ == trim_end(s@),
{
    let n = s.len();
    let mut j: usize = n;
    while j > 0 && is_whitespace(s[j - 1])
        invariant
            j <= n == s@.len(),
            forall|k: int| j <= k < n ==> is_ws(#[trigger] s@[k]),
        decreases j,
    {
        j -= 1;
    }
    proof {
        lemma_trim_end_take(s@, j as int);
        assert(s@.take(j as int) =~= s@.subrange(0, j as int));
        if j > 0 {
            assert(s@.take(j as int).last() == s@[j - 1]);
        }
    }
    slice_of(s, 0, j)
}

/// `trim` of a string slice.
pub fn trimmed_str(s: &str) -> (r: Vec<char>)
    ensures
        r@ == trim(s@),
{
    let v = chars_of(s);
    trimmed(&v)
}

/// Whether `p` is a prefix of `s`.
pub fn starts_with(s: &[char], p: &[char]) -> (b: bool)
    ensures
        b == has_prefix(s@, p@),
{
    if p.len() > s.len() {
        return false;
    }
    let mut i: usize = 0;
    while i < p.len()
        invariant
            i <= p@.len() <= s@.len(),
            forall|k: int| 0 <= k < i ==> s@[k] == p@[k],
        decreases p@.len() - i,
    {
        if s[i] != p[i] {
            assert(s@.take(p@.len() as int)[i as int] != p@[i as int]);
            return false;
        }
        i += 1;
    }
    assert(s@.take(p@.len() as int) =~= p@);
    true
}

/// Whether `p` is a suffix of `s`.
pub fn ends_with(s: &[char], p: &[char]) -> (b: bool)
    ensures
        b == has_suffix(s@, p@),
{
    if p.len() > s.len() {
        return false;
    }
    let off = s.len() - p.len();
    let mut i: usize = 0;
    while i < p.len()
        invariant
            i <= p@.len() <= s@.len(),
            off + p@.len() == s.len(),
            forall|k: int| 0 <= k < i ==> s@[off + k] == p@[k],
        decreases p@.len() - i,
    {
        if s[off + i] != p[i] {
            assert(s@.skip(off as int)[i as int] != p@[i as int]);
            return false;
        }
        i += 1;
    }
    assert(s@.skip(off as int) =~= p@);
    true
}

/// Whether `pat` occurs in `s` at index `i`.
pub fn matches_at(s: &[char], pat: &[char], i: usize) -> (b: bool)
    ensures
        b == occurs_at(s@, pat@, i as int),
{
    if i > s.len() || pat.len() > s.len() - i {
        return false;
    }
    let mut k: usize = 0;
    while k < pat.len()
        invariant
            k <= pat@.len(),
            i + pat@.len() <= s.len(),
            forall|m: int| 0 <= m < k ==> s@[i + m] == pat@[m],
        decreases pat@.len() - k,
    {
        if s[i + k] != pat[k] {
            assert(s@.subrange(i as int, i + pat@.len())[k as int] != pat@[k as int]);
            return false;
        }
        k += 1;
    }
    assert(s@.subrange(i as int, i + pat@.len()) =~= pat@);
    true
}

/// `str::find`.
pub fn find_seq(s: &[char], pat: &[char]) -> (r: Option<usize>)
    ensures
        r matches Some(i) ==> find(s@, pat@) == Some(i as int),
        r is None ==> find(s@, pat@) is None,
{
    if pat.len() == 0 {
        proof {
            assert(s@.subrange(0, 0) =~= pat@);
            assert(occurs_at(s@, pat@, 0));
            lemma_find_is_first(s@, pat@, 0);
        }
        return Some(0);
    }
    let mut i: usize = 0;
    while i < s.len()
        invariant
            i <= s@.len(),
            pat@.len() > 0,
            forall|j: int| 0 <= j < i ==> !occurs_at(s@, pat@, j),
        decreases s@.len() - i,
    {
        if matches_at(s, pat, i) {
            proof {
                lemma_find_is_first(s@, pat@, i as int);
            }
            return Some(i);
        }
        i += 1;
    }
    proof {
        assert forall|j: int| !occurs_at(s@, pat@, j) by {
            if j >= i {
            }
        }
        lemma_find_none(s@, pat@);
    }
    None
}

/// `str::contains`.
pub fn contains_seq(s: &[char], pat: &[char]) -> (b: bool)
    ensures
        b == contains(s@, pat@),
{
    proof {
        lemma_contains_find(s@, pat@);
    }
    find_seq(s, pat).is_some()
}

/// Whether `s` contains the literal `pat`.
pub fn contains_str(s: &[char], pat: &str) -> (b: bool)
    ensures
        b == contains(s@, pat@),
{
    let p = chars_of(pat);
    contains_seq(s, &p)
}

/// Whether `s` starts with the literal `p`.
pub fn starts_with_str(s: &[char], p: &str) -> (b: bool)
    ensures
        b == has_prefix(s@, p@),
{
    let pv = chars_of(p);
    starts_with(s, &pv)
}

/// Whether `s` ends with the literal `p`.
pub fn ends_with_str(s: &[char], p: &str) -> (b: bool)
    ensures
        b == has_suffix(s@, p@),
{
    let pv = chars_of(p);
    ends_with(s, &pv)
}

/// Index of the first `c` in `s`.
pub fn find_ch(s: &[char], c: char) -> (r: Option<usize>)
    ensures
        r matches Some(i) ==> find_char(s@, c) == Some(i as int),
        r is None ==> find_char(s@, c) is None,
{
    let p = vec![c];
    assert(p@ =~= seq![c]);
    find_seq(s, &p)
}

/// Character-wise equality.
pub fn eq_chars(a: &[char], b: &[char]) -> (r: bool)
    ensures
        r == (a@ == b@),
{
    if a.len() != b.len() {
        return false;
    }
    let mut i: usize = 0;
    while i < a.len()
        invariant
            i <= a@.len() == b@.len(),
            forall|k: int| 0 <= k < i ==> a@[k] == b@[k],
        decreases a@.len() - i,
    {
        if a[i] != b[i] {
            return false;
        }
        i += 1;
    }
    assert(a@ =~= b@);
    true
}

/// Equality with a literal.
pub fn eq_str(a: &[char], b: &str) -> (r: bool)
    ensures
        r == (a@ == b@),
{
    let bv = chars_of(b);
    eq_chars(a, &bv)
}

/// `char::to_ascii_lowercase`.
pub fn ascii_lower_ch(c: char) -> (r: char)
    ensures
        r == ascii_lower_char(c),
{
    if 'A' <= c && c <= 'Z' {
        ((c as u8) + 32) as char
    } else {
        c
    }
}

/// `str::to_ascii_lowercase`.
pub fn to_ascii_lower(s: &[char]) -> (r: Vec<char>)
    ensures
        r@ == ascii_lower(s@),
{
    let mut r: Vec<char> = Vec::new();
    let mut i: usize = 0;
    while i < s.len()
        invariant
            i <= s@.len(),
            r@ == ascii_lower(s@.take(i as int)),
        decreases s@.len() - i,
    {
        r.push(ascii_lower_ch(s[i]));
        i += 1;
        assert(ascii_lower(s@.take(i as int)) =~= ascii_lower(s@.take(i - 1)).push(
            ascii_lower_char(s@[i - 1]),
        ));
    }
    assert(s@.take(s@.len() as int) =~= s@);
    r
}

/// `str::eq_ignore_ascii_case` against a literal.
pub fn eq_ignore_case_str(a: &[char], b: &str) -> (r: bool)
    ensures
        r == eq_ignore_ascii_case(a@, b@),
{
    let la = to_ascii_lower(a);
    let bv = chars_of(b);
    let lb = to_ascii_lower(&bv);
    eq_chars(&la, &lb)
}

/// `str::to_lowercase` of characters.
pub fn lower_chars(s: &[char]) -> (r: Vec<char>)
    ensures
        r@ == lowercase(s@),
{
    let st = string_of(s);
    let l = to_lower(st.as_str());
    chars_of(l.as_str())
}

/// Every `from` replaced by `to`.
pub fn replace_ch(s: &[char], from: char, to: char) -> (r: Vec<char>)
    ensures
        r@ == replace_char(s@, from, to),
{
    let mut r: Vec<char> = Vec::new();
    let mut i: usize = 0;
    while i < s.len()
        invariant
            i <= s@.len(),
            r@ == replace_char(s@.take(i as int), from, to),
        decreases s@.len() - i,
    {
        let c = s[i];
        r.push(if c == from { to } else { c });
        i += 1;
        assert(replace_char(s@.take(i as int), from, to) =~= replace_char(
            s@.take(i - 1),
            from,
            to,
        ).push(if c == from { to } else { c }));
    }
    assert(s@.take(s@.len() as int) =~= s@);
    r
}

/// Splits `s` at every `c` (`str::split(c)`).
pub fn split_at_char(s: &[char], c: char) -> (r: Vec<Vec<char>>)
    ensures
        views(r@) == split(s@, c),
{
    let mut r: Vec<Vec<char>> = Vec::new();
    let mut cur: Vec<char> = Vec::new();
    let mut i: usize = 0;
    assert(s@.take(0) =~= Seq::<char>::empty());
    while i < s.len()
        invariant
            i <= s@.len(),
            (views(r@), cur@) == split_state(s@.take(i as int), c),
        decreases s@.len() - i,
    {
        let x = s[i];
        proof {
            assert(s@.take(i + 1).drop_last() =~= s@.take(i as int));
            assert(s@.take(i + 1).last() == x);
        }
        if x == c {
            let ghost before = views(r@);
            let ghost cv = cur@;
            r.push(cur);
            cur = Vec::new();
            assert(views(r@) =~= before.push(cv));
            assert(cur@ =~= Seq::<char>::empty());
        } else {
            cur.push(x);
        }
        i += 1;
    }
    assert(s@.take(s@.len() as int) =~= s@);
    let ghost before = views(r@);
    let ghost cv = cur@;
    r.push(cur);
    assert(views(r@) =~= before.push(cv));
    r
}

/// Splits `s` into lines (`str::lines`).
pub fn split_lines(s: &[char]) -> (r: Vec<Vec<char>>)
    ensures
        views(r@) == lines(s@),
{
    let mut r: Vec<Vec<char>> = Vec::new();
    let mut start: usize = 0;
    let n = s.len();
    assert(s@.skip(0) =~= s@);
    assert(views(r@) + lines(s@) =~= lines(s@));
    while start < n
        invariant
            start <= n == s@.len(),
            lines(s@) == views(r@) + lines(s@.skip(start as int)),
        decreases n - start,
    {
        let ghost rest = s@.skip(start as int);
        let mut j = start;
        while j < n && s[j] != '\n'
            invariant
                start <= j <= n == s@.len(),
                forall|k: int| start <= k < j ==> s@[k] != '\n',
            decreases n - j,
        {
            j += 1;
        }
        let mut end = j;
        if j > start && s[j - 1] == '\r' && j < n {
            end = j - 1;
        }
        let line = slice_of(s, start, end);
        proof {
            assert forall|k: int| 0 <= k < j - start implies !occurs_at(rest, seq!['\n'], k) by {
                assert(rest.subrange(k, k + 1)[0] == s@[start + k]);
            }
            if j < n {
                assert(rest.subrange(j - start, j - start + 1) =~= seq!['\n']);
                lemma_find_is_first(rest, seq!['\n'], j - start);
                assert(rest.take(j - start) =~= s@.subrange(start as int, j as int));
                assert(rest.skip(j - start + 1) =~= s@.skip(j + 1));
            } else {
                assert forall|k: int| !occurs_at(rest, seq!['\n'], k) by {}
                lemma_find_none(rest, seq!['\n']);
                assert(s@.skip(n as int) =~= Seq::<char>::empty());
            }
        }
        let ghost before = views(r@);
        proof {
            if j < n {
                assert(strip_cr(rest.take(j - start)) =~= s@.subrange(start as int, end as int));
            } else {
                assert(rest =~= s@.subrange(start as int, end as int));
            }
        }
        r.push(line);
        proof {
            assert(views(r@) =~= before.push(s@.subrange(start as int, end as int)));
            let nx: int = if j < n { j + 1 } else { n as int };
            assert(lines(rest) == seq![s@.subrange(start as int, end as int)] + lines(s@.skip(nx)));
            assert(before + (seq![s@.subrange(start as int, end as int)] + lines(s@.skip(nx))) =~= views(r@) + lines(s@.skip(nx)));
        }
        start = if j < n { j + 1 } else { n };
    }
    assert(s@.skip(n as int) =~= Seq::<char>::empty());
    assert(views(r@) + Seq::<Seq<char>>::empty() =~= views(r@));
    r
}

} // verus!
