//! The CPU name shown in the dashboard's status widget. Sampling the
//! machine is left to the caller.
use vstd::prelude::*;
use crate::text::{chars_of, find, find_seq, is_whitespace, is_ws, join, lowercase, matches_at, occurs_at, string_of, to_lower};

verus! {

/// Live statistics of the machine.
pub struct SystemMonitor;

/// `s` with every occurrence of `pat` removed, scanning left to right
/// (`str::replace(pat, "")`).
pub open spec fn remove_all(s: Seq<char>, pat: Seq<char>) -> Seq<char>
    recommends
        pat.len() > 0,
    decreases s.len(),
{
    if s.len() == 0 || pat.len() == 0 {
        s
    } else if occurs_at(s, pat, 0) {
        remove_all(s.skip(pat.len() as int), pat)
    } else {
        seq![s[0]] + remove_all(s.drop_first(), pat)
    }
}

/// The finished words of `s` and the word in progress.
pub open spec fn words_state(s: Seq<char>) -> (Seq<Seq<char>>, Seq<char>)
    decreases s.len(),
{
    if s.len() == 0 {
        (seq![], seq![])
    } else {
        let (ws, cur) = words_state(s.drop_last());
        if is_ws(s.last()) {
            if cur.len() > 0 {
                (ws.push(cur), seq![])
            } else {
                (ws, seq![])
            }
        } else {
            (ws, cur.push(s.last()))
        }
    }
}

/// The maximal runs of non-whitespace characters (`str::split_whitespace`).
pub open spec fn words(s: Seq<char>) -> Seq<Seq<char>> {
    let (ws, cur) = words_state(s);
    if cur.len() > 0 {
        ws.push(cur)
    } else {
        ws
    }
}

/// Position of the last `c` in `s`.
pub open spec fn rfind_char(s: Seq<char>, c: char) -> Option<int>
    decreases s.len(),
{
    if s.len() == 0 {
        None
    } else if s.last() == c {
        Some(s.len() - 1)
    } else {
        rfind_char(s.drop_last(), c)
    }
}

/// Where the first of the trailing markers (` with `, ` w/ `, ` cpu`,
/// ` processor`, tried in that order) starts in `l`.
pub open spec fn first_marker(l: Seq<char>) -> Option<int> {
    match find(l, " with "@) {
        Some(p) => Some(p),
        None => match find(l, " w/ "@) {
            Some(p) => Some(p),
            None => match find(l, " cpu"@) {
                Some(p) => Some(p),
                None => find(l, " processor"@),
            },
        },
    }
}

/// `s` cut to its first `n` characters (`String::truncate`).
pub open spec fn cut(s: Seq<char>, n: int) -> Seq<char> {
    if n < s.len() {
        s.take(n)
    } else {
        s
    }
}

/// The CPU name without trademarks, without what follows the first marker
/// found in its lower-cased form, without a core count before `-core`
/// (from the last space before it), and with its words separated by single
/// spaces. Positions found in the lower-cased name are counted in
/// characters.
pub open spec fn clean_cpu(raw: Seq<char>) -> Seq<char> {
    let s0 = remove_all(remove_all(remove_all(remove_all(raw, "(R)"@), "(TM)"@), "(r)"@), "(tm)"@);
    let s1 = match first_marker(lowercase(s0)) {
        Some(p) => cut(s0, p),
        None => s0,
    };
    let s2 = match find(lowercase(s1), "-core"@) {
        Some(p) => match rfind_char(cut(s1, p), ' ') {
            Some(sp) => cut(s1, sp),
            None => s1,
        },
        None => s1,
    };
    join(words(s2), " "@)
}

/// `s` with every `pat` removed.
fn remove_pattern(s: &Vec<char>, pat: &str) -> (r: Vec<char>)
    requires
        pat@.len() > 0,
    ensures
        r@ == remove_all(s@, pat@),
{
    let p = chars_of(pat);
    let mut out: Vec<char> = Vec::new();
    let mut i: usize = 0;
    assert(s@.skip(0) =~= s@);
    while i < s.len()
        invariant
            i <= s@.len(),
            p@ == pat@,
            p@.len() > 0,
            out@ + remove_all(s@.skip(i as int), p@) == remove_all(s@, p@),
        decreases s@.len() - i,
    {
        let ghost rest = s@.skip(i as int);
        if matches_at(s, &p, i) {
            assert(occurs_at(rest, p@, 0)) by {
                assert(rest.subrange(0, p@.len() as int) =~= s@.subrange(i as int, i + p@.len()));
            }
            assert(rest.skip(p@.len() as int) =~= s@.skip(i + p@.len()));
            i = i + p.len();
        } else {
            assert(!occurs_at(rest, p@, 0)) by {
                if occurs_at(rest, p@, 0) {
                    assert(rest.subrange(0, p@.len() as int) =~= s@.subrange(i as int, i + p@.len()));
                }
            }
            assert(rest.drop_first() =~= s@.skip(i + 1));
            let ghost o0 = out@;
            out.push(s[i]);
            assert(out@ =~= o0 + seq![rest[0]]);
            assert(out@ + remove_all(s@.skip(i + 1), p@) =~= o0 + (seq![rest[0]] + remove_all(rest.drop_first(), p@)));
            i = i + 1;
        }
    }
    assert(s@.skip(i as int) =~= Seq::<char>::empty());
    assert(out@ + Seq::<char>::empty() =~= out@);
    out
}

/// Position of the last space in the first `n` characters of `s`.
fn last_space(s: &Vec<char>, n: usize) -> (r: Option<usize>)
    requires
        n <= s@.len(),
    ensures
        r matches Some(i) ==> rfind_char(s@.take(n as int), ' ') == Some(i as int),
        r is None ==> rfind_char(s@.take(n as int), ' ') is None,
{
    let mut j: usize = n;
    while j > 0
        invariant
            j <= n <= s@.len(),
            rfind_char(s@.take(n as int), ' ') == rfind_char(s@.take(j as int), ' '),
        decreases j,
    {
        assert(s@.take(j as int).last() == s@[j - 1]);
        assert(s@.take(j as int).drop_last() =~= s@.take(j - 1));
        if s[j - 1] == ' ' {
            return Some(j - 1);
        }
        j -= 1;
    }
    None
}

/// The first `n` characters of `s`, all of it when it is shorter.
fn cut_to(s: &Vec<char>, n: usize) -> (r: Vec<char>)
    ensures
        r@ == cut(s@, n as int),
{
    let mut r: Vec<char> = Vec::new();
    let mut i: usize = 0;
    while i < n && i < s.len()
        invariant
            i <= s@.len(),
            i <= n,
            r@ == s@.take(i as int),
        decreases s@.len() - i,
    {
        r.push(s[i]);
        assert(r@ =~= s@.take(i + 1));
        i += 1;
    }
    if i == s.len() {
        assert(s@.take(i as int) =~= s@);
    }
    assert(r@ =~= cut(s@, n as int));
    r
}

proof fn lemma_join_push(ws: Seq<Seq<char>>, w: Seq<char>)
    ensures
        join(ws.push(w), " "@) == if ws.len() == 0 {
            w
        } else {
            join(ws, " "@) + " "@ + w
        },
{
    assert(ws.push(w).drop_last() =~= ws);
    if ws.len() == 0 {
        assert(ws.push(w)[0] == w);
    }
}

/// The words of `s` separated by single spaces.
fn squeeze(s: &Vec<char>) -> (r: Vec<char>)
    ensures
        r@ == join(words(s@), " "@),
{
    let sp = chars_of(" ");
    proof {
        reveal_strlit(" ");
    }
    let mut done: Vec<char> = Vec::new();
    let mut any = false;
    let mut cur: Vec<char> = Vec::new();
    let mut i: usize = 0;
    assert(s@.take(0) =~= Seq::<char>::empty());
    while i < s.len()
        invariant
            i <= s@.len(),
            sp@ == " "@,
            done@ == join(words_state(s@.take(i as int)).0, " "@),
            any == (words_state(s@.take(i as int)).0.len() > 0),
            cur@ == words_state(s@.take(i as int)).1,
        decreases s@.len() - i,
    {
        let ghost t = s@.take(i + 1);
        assert(t.drop_last() =~= s@.take(i as int));
        assert(t.last() == s@[i as int]);
        let ghost ws = words_state(s@.take(i as int)).0;
        if is_whitespace(s[i]) {
            if cur.len() > 0 {
                proof {
                    lemma_join_push(ws, cur@);
                }
                if any {
                    let mut d = done;
                    crate::text::push_all(&mut d, &sp);
                    crate::text::push_all(&mut d, &cur);
                    done = d;
                } else {
                    done = cur;
                }
                any = true;
                cur = Vec::new();
            } else {
                cur = Vec::new();
            }
        } else {
            cur.push(s[i]);
        }
        i += 1;
    }
    assert(s@.take(s@.len() as int) =~= s@);
    let ghost ws = words_state(s@).0;
    if cur.len() > 0 {
        proof {
            lemma_join_push(ws, cur@);
        }
        if any {
            let mut d = done;
            crate::text::push_all(&mut d, &sp);
            crate::text::push_all(&mut d, &cur);
            d
        } else {
            cur
        }
    } else {
        done
    }
}

impl SystemMonitor {
    /// Trim marketing cruft so the name fits the sidebar:
    /// "AMD Ryzen 5 9600X 6-Core Processor" becomes "AMD Ryzen 5 9600X".
    pub fn clean_cpu_name(raw: &str) -> (r: String)
        ensures
            r@ == clean_cpu(raw@),
    {
        proof {
            reveal_strlit("(R)");
            reveal_strlit("(TM)");
            reveal_strlit("(r)");
            reveal_strlit("(tm)");
        }
        let s = chars_of(raw);
        let s = remove_pattern(&s, "(R)");
        let s = remove_pattern(&s, "(TM)");
        let s = remove_pattern(&s, "(r)");
        let s0 = remove_pattern(&s, "(tm)");
        let l0 = chars_of(to_lower(string_of(&s0).as_str()).as_str());
        let mut at: Option<usize> = find_seq(&l0, &chars_of(" with "));
        if at.is_none() {
            at = find_seq(&l0, &chars_of(" w/ "));
        }
        if at.is_none() {
            at = find_seq(&l0, &chars_of(" cpu"));
        }
        if at.is_none() {
            at = find_seq(&l0, &chars_of(" processor"));
        }
        let s1 = match at {
            Some(p) => cut_to(&s0, p),
            None => s0,
        };
        let l1 = chars_of(to_lower(string_of(&s1).as_str()).as_str());
        let s2 = match find_seq(&l1, &chars_of("-core")) {
            Some(p) => {
                let n = if p < s1.len() { p } else { s1.len() };
                assert(s1@.take(n as int) =~= cut(s1@, p as int));
                match last_space(&s1, n) {
                    Some(sp) => cut_to(&s1, sp),
                    None => s1,
                }
            },
            None => s1,
        };
        string_of(&squeeze(&s2))
    }
}

} // verus!
