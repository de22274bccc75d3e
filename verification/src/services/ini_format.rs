//! The INI text `serialize_ini` writes, read back by the parser.
use vstd::prelude::*;
use crate::models::IniConfig;
use crate::services::ini_manager::{
    ini_map, ini_text, is_header, key_lines, lone_quote_value, parsable, parse_ini, parse_line, parse_lines,
    serialized_as, IniMap,
};
use crate::sort::{count, lemma_count_pos, lemma_count_pos_at, permutes};
use crate::string_map::{as_map, keys_of, lemma_lookup_index, lookup, unique_keys};
use crate::text::{
    find, find_char, is_ws, lemma_find, lemma_lines_cons, lines, occurs_at, strip_cr, trim, trim_end, trim_start,
};

verus! {

/// An ASCII letter, digit, `_` or `.`.
pub open spec fn plain_char(c: char) -> bool {
    ||| ('a' <= c && c <= 'z')
    ||| ('A' <= c && c <= 'Z')
    ||| ('0' <= c && c <= '9')
    ||| c == '_'
    ||| c == '.'
}

/// A non-empty run of plain characters.
pub open spec fn plain_token(s: Seq<char>) -> bool {
    s.len() > 0 && forall|i: int| 0 <= i < s.len() ==> plain_char(#[trigger] s[i])
}

/// Every section name, key and value of the config is a plain token.
pub open spec fn plain_config(c: &IniConfig) -> bool {
    forall|i: int|
        0 <= i < c.sections@.len() ==> plain_token(#[trigger] c.sections@[i].0) && forall|j: int|
            0 <= j < c.sections@[i].1.len() ==> plain_token(#[trigger] c.sections@[i].1[j].0) && plain_token(
                c.sections@[i].1[j].1,
            )
}

/// No section name, and no key within a section, occurs twice.
pub open spec fn distinct_config(c: &IniConfig) -> bool {
    &&& unique_keys(c.sections@)
    &&& forall|i: int| 0 <= i < c.sections@.len() ==> unique_keys(#[trigger] c.sections@[i].1)
}

/// Each line followed by a line break.
spec fn flat(ls: Seq<Seq<char>>) -> Seq<char>
    decreases ls.len(),
{
    if ls.len() == 0 {
        seq![]
    } else {
        ls[0] + seq!['\n'] + flat(ls.drop_first())
    }
}

/// The `key=value` lines of one section.
spec fn kv_lines(inner: Map<Seq<char>, Seq<char>>, keys: Seq<Seq<char>>) -> Seq<Seq<char>>
    decreases keys.len(),
{
    if keys.len() == 0 {
        seq![]
    } else {
        kv_lines(inner, keys.drop_last()).push(keys.last() + seq!['='] + inner[keys.last()])
    }
}

/// The lines of `ini_text`.
spec fn ini_line_list(m: IniMap, names: Seq<Seq<char>>, keyss: Seq<Seq<Seq<char>>>) -> Seq<Seq<char>>
    decreases names.len(),
{
    if names.len() == 0 || keyss.len() != names.len() {
        seq![]
    } else {
        ini_line_list(m, names.drop_last(), keyss.drop_last()) + seq![seq!['['] + names.last() + seq![']']]
            + kv_lines(m[names.last()], keyss.last()) + seq![seq![]]
    }
}

proof fn lemma_flat_append(a: Seq<Seq<char>>, b: Seq<Seq<char>>)
    ensures
        flat(a + b) == flat(a) + flat(b),
    decreases a.len(),
{
    if a.len() == 0 {
        assert(a + b =~= b);
    } else {
        assert((a + b).drop_first() =~= a.drop_first() + b);
        lemma_flat_append(a.drop_first(), b);
        assert(flat(a + b) =~= flat(a) + flat(b));
    }
}

proof fn lemma_flat_one(l: Seq<char>)
    ensures
        flat(seq![l]) == l + seq!['\n'],
{
    assert(seq![l].drop_first() =~= Seq::<Seq<char>>::empty());
    assert(seq![l][0] == l);
    assert(flat(Seq::<Seq<char>>::empty()) == Seq::<char>::empty());
    assert(flat(seq![l]) == l + seq!['\n'] + Seq::<char>::empty());
    assert(flat(seq![l]) =~= l + seq!['\n']);
}

proof fn lemma_key_lines_flat(inner: Map<Seq<char>, Seq<char>>, keys: Seq<Seq<char>>)
    ensures
        key_lines(inner, keys) == flat(kv_lines(inner, keys)),
    decreases keys.len(),
{
    reveal_strlit("=");
    reveal_strlit("\n");
    if keys.len() > 0 {
        let k = keys.last();
        let l = k + seq!['='] + inner[k];
        lemma_key_lines_flat(inner, keys.drop_last());
        lemma_flat_append(kv_lines(inner, keys.drop_last()), seq![l]);
        lemma_flat_one(l);
        assert(kv_lines(inner, keys) =~= kv_lines(inner, keys.drop_last()) + seq![l]);
        assert(key_lines(inner, keys) =~= flat(kv_lines(inner, keys)));
    }
}

proof fn lemma_ini_text_flat(m: IniMap, names: Seq<Seq<char>>, keyss: Seq<Seq<Seq<char>>>)
    ensures
        ini_text(m, names, keyss) == flat(ini_line_list(m, names, keyss)),
    decreases names.len(),
{
    reveal_strlit("[");
    reveal_strlit("]\n");
    reveal_strlit("\n");
    if names.len() > 0 && keyss.len() == names.len() {
        let n = names.last();
        let h = seq!['['] + n + seq![']'];
        let kv = kv_lines(m[n], keyss.last());
        let pre = ini_line_list(m, names.drop_last(), keyss.drop_last());
        lemma_ini_text_flat(m, names.drop_last(), keyss.drop_last());
        lemma_key_lines_flat(m[n], keyss.last());
        lemma_flat_append(pre + seq![h] + kv, seq![seq![]]);
        lemma_flat_append(pre + seq![h], kv);
        lemma_flat_append(pre, seq![h]);
        lemma_flat_one(h);
        lemma_flat_one(seq![]);
        assert(ini_text(m, names, keyss) =~= flat(ini_line_list(m, names, keyss)));
    }
}

/// A line the parser reads back as written and that it accepts.
spec fn line_ok(l: Seq<char>) -> bool {
    &&& !l.contains('\n')
    &&& strip_cr(l) == l
    &&& !lone_quote_value(l)
}

proof fn lemma_lines_flat(ls: Seq<Seq<char>>)
    requires
        forall|i: int| 0 <= i < ls.len() ==> line_ok(#[trigger] ls[i]),
    ensures
        lines(flat(ls)) == ls,
    decreases ls.len(),
{
    if ls.len() > 0 {
        let rest = ls.drop_first();
        assert forall|i: int| 0 <= i < rest.len() implies line_ok(#[trigger] rest[i]) by {
            assert(rest[i] == ls[i + 1]);
        }
        lemma_lines_flat(rest);
        assert(line_ok(ls[0]));
        lemma_lines_cons(ls[0], flat(rest));
        assert(lines(flat(ls)) =~= ls);
    }
}

proof fn lemma_trim_plain(s: Seq<char>)
    requires
        s.len() > 0,
        !is_ws(s[0]),
        !is_ws(s.last()),
    ensures
        trim(s) == s,
{
    assert(trim_start(s) == s);
    assert(trim_end(s) == s);
}

proof fn lemma_plain_not_ws(c: char)
    requires
        plain_char(c),
    ensures
        !is_ws(c),
        c != '=',
        c != '"',
        c != ';',
        c != '[',
        c != ']',
        c != '\n',
        c != '\r',
{
}

/// `k=v` with plain `k` and `v`: the first `=` follows `k`.
proof fn lemma_kv_find(k: Seq<char>, v: Seq<char>)
    requires
        plain_token(k),
        plain_token(v),
    ensures
        find_char(k + seq!['='] + v, '=') == Some(k.len() as int),
{
    let t = k + seq!['='] + v;
    let i = k.len() as int;
    lemma_find(t, seq!['=']);
    assert(t.subrange(i, i + 1) =~= seq!['=']);
    assert(occurs_at(t, seq!['='], i));
    match find(t, seq!['=']) {
        Some(j) => {
            if j < i {
                assert(t.subrange(j, j + 1)[0] == t[j]);
                assert(t[j] == k[j]);
                lemma_plain_not_ws(k[j]);
            }
        },
        None => {},
    }
}

proof fn lemma_kv_line(k: Seq<char>, v: Seq<char>)
    requires
        plain_token(k),
        plain_token(v),
    ensures
        line_ok(k + seq!['='] + v),
        trim(k + seq!['='] + v) == k + seq!['='] + v,
        !is_header(k + seq!['='] + v),
        (k + seq!['='] + v)[0] != ';',
        find_char(k + seq!['='] + v, '=') == Some(k.len() as int),
        (k + seq!['='] + v).take(k.len() as int) == k,
        (k + seq!['='] + v).skip(k.len() as int + 1) == v,
        trim(k) == k,
        trim(v) == v,
        v[0] != '"',
{
    let t = k + seq!['='] + v;
    lemma_plain_not_ws(k[0]);
    lemma_plain_not_ws(v[0]);
    lemma_plain_not_ws(v.last());
    lemma_plain_not_ws(k.last());
    assert(t[0] == k[0]);
    assert(t.last() == v.last());
    lemma_trim_plain(t);
    lemma_trim_plain(k);
    lemma_trim_plain(v);
    lemma_kv_find(k, v);
    assert(t.take(k.len() as int) =~= k);
    assert(t.skip(k.len() as int + 1) =~= v);
    assert forall|j: int| 0 <= j < t.len() implies t[j] != '\n' && t[j] != '\r' by {
        if j < k.len() {
            assert(t[j] == k[j]);
            lemma_plain_not_ws(k[j]);
        } else if j > k.len() {
            assert(t[j] == v[j - k.len() - 1]);
            lemma_plain_not_ws(v[j - k.len() - 1]);
        }
    }
    assert(!t.contains('\n'));
    assert(strip_cr(t) == t);
    assert(v != seq!['"']) by {
        if v == seq!['"'] {
            assert(v[0] == '"');
        }
    }
}

proof fn lemma_header_line(n: Seq<char>)
    requires
        plain_token(n),
    ensures
        line_ok(seq!['['] + n + seq![']']),
        trim(seq!['['] + n + seq![']']) == seq!['['] + n + seq![']'],
        is_header(seq!['['] + n + seq![']']),
        (seq!['['] + n + seq![']']).subrange(1, n.len() as int + 1) == n,
{
    let h = seq!['['] + n + seq![']'];
    lemma_trim_plain(h);
    assert(h.subrange(1, n.len() as int + 1) =~= n);
    assert forall|j: int| 0 <= j < h.len() implies h[j] != '\n' && h[j] != '\r' by {
        if 0 < j < h.len() - 1 {
            assert(h[j] == n[j - 1]);
            lemma_plain_not_ws(n[j - 1]);
        }
    }
    assert(!h.contains('\n'));
    assert(h.last() == ']');
    assert(strip_cr(h) == h);
}

/// The section text the parser builds from `key=value` lines of `keys`.
spec fn restrict(inner: Map<Seq<char>, Seq<char>>, keys: Seq<Seq<char>>) -> Map<Seq<char>, Seq<char>> {
    Map::new(|k: Seq<char>| keys.contains(k), |k: Seq<char>| inner[k])
}

proof fn lemma_parse_keys(
    pre: Seq<Seq<char>>,
    r0: IniMap,
    n: Seq<char>,
    inner: Map<Seq<char>, Seq<char>>,
    keys: Seq<Seq<char>>,
)
    requires
        parse_lines(pre) == (r0, n),
        r0.contains_key(n),
        r0[n] == Map::<Seq<char>, Seq<char>>::empty(),
        forall|i: int| 0 <= i < keys.len() ==> plain_token(#[trigger] keys[i]) && plain_token(inner[keys[i]]),
    ensures
        parse_lines(pre + kv_lines(inner, keys)) == (r0.insert(n, restrict(inner, keys)), n),
        forall|i: int| 0 <= i < kv_lines(inner, keys).len() ==> line_ok(#[trigger] kv_lines(inner, keys)[i]),
    decreases keys.len(),
{
    if keys.len() == 0 {
        assert(pre + kv_lines(inner, keys) =~= pre);
        assert(restrict(inner, keys) =~= Map::<Seq<char>, Seq<char>>::empty());
        assert(r0.insert(n, restrict(inner, keys)) =~= r0);
    } else {
        let ks = keys.drop_last();
        assert forall|i: int| 0 <= i < ks.len() implies plain_token(#[trigger] ks[i]) && plain_token(inner[ks[i]]) by {
            assert(ks[i] == keys[i]);
        }
        lemma_parse_keys(pre, r0, n, inner, ks);
        let k = keys.last();
        let v = inner[k];
        assert(plain_token(keys[keys.len() - 1]));
        let l = k + seq!['='] + v;
        lemma_kv_line(k, v);
        let all = pre + kv_lines(inner, keys);
        assert(all.drop_last() =~= pre + kv_lines(inner, ks));
        assert(all.last() == l);
        let r1 = r0.insert(n, restrict(inner, ks));
        assert(parse_line(r1, n, l).0 == r1.insert(n, r1[n].insert(k, v)));
        assert(restrict(inner, ks).insert(k, v) =~= restrict(inner, keys)) by {
            assert forall|x: Seq<char>| keys.contains(x) <==> (ks.contains(x) || x == k) by {
                if keys.contains(x) && x != k {
                    let j = choose|j: int| 0 <= j < keys.len() && keys[j] == x;
                    assert(ks[j] == x);
                }
                if ks.contains(x) {
                    let j = choose|j: int| 0 <= j < ks.len() && ks[j] == x;
                    assert(keys[j] == x);
                }
                if x == k {
                    assert(keys[keys.len() - 1] == x);
                }
            }
        }
        assert(r1.insert(n, restrict(inner, keys)) =~= r0.insert(n, restrict(inner, keys)));
        assert forall|i: int| 0 <= i < kv_lines(inner, keys).len() implies line_ok(#[trigger] kv_lines(inner, keys)[i]) by {
            if i < kv_lines(inner, ks).len() {
                assert(kv_lines(inner, keys)[i] == kv_lines(inner, ks)[i]);
            } else {
                assert(kv_lines(inner, keys)[i] == l);
            }
        }
    }
}

/// What the parser builds from the lines of `names`' sections.
spec fn sections_read(m: IniMap, names: Seq<Seq<char>>) -> IniMap {
    Map::new(|s: Seq<char>| names.contains(s), |s: Seq<char>| m[s])
}

proof fn lemma_parse_sections(m: IniMap, names: Seq<Seq<char>>, keyss: Seq<Seq<Seq<char>>>)
    requires
        names.no_duplicates(),
        keyss.len() == names.len(),
        forall|j: int|
            0 <= j < names.len() ==> plain_token(#[trigger] names[j]) && m.contains_key(names[j]) && (forall|k: Seq<char>|
                keyss[j].contains(k) <==> m[names[j]].contains_key(k)) && forall|i: int|
                0 <= i < keyss[j].len() ==> plain_token(#[trigger] keyss[j][i]) && plain_token(m[names[j]][keyss[j][i]]),
    ensures
        parse_lines(ini_line_list(m, names, keyss)).0 == sections_read(m, names),
        names.len() > 0 ==> parse_lines(ini_line_list(m, names, keyss)).1 == names.last(),
        forall|i: int|
            0 <= i < ini_line_list(m, names, keyss).len() ==> line_ok(#[trigger] ini_line_list(m, names, keyss)[i]),
    decreases names.len(),
{
    if names.len() == 0 {
        assert(sections_read(m, names) =~= Map::<Seq<char>, Map<Seq<char>, Seq<char>>>::empty());
    } else {
        let ns = names.drop_last();
        let kss = keyss.drop_last();
        let j = names.len() - 1;
        let n = names.last();
        assert(ns.no_duplicates()) by {
            assert forall|a: int, b: int| 0 <= a < ns.len() && 0 <= b < ns.len() && a != b implies ns[a] != ns[b] by {
                assert(ns[a] == names[a] && ns[b] == names[b]);
            }
        }
        assert forall|i: int|
            0 <= i < ns.len() implies plain_token(#[trigger] ns[i]) && m.contains_key(ns[i]) && (forall|k: Seq<char>|
                kss[i].contains(k) <==> m[ns[i]].contains_key(k)) && forall|q: int|
                0 <= q < kss[i].len() ==> plain_token(#[trigger] kss[i][q]) && plain_token(m[ns[i]][kss[i][q]]) by {
            assert(ns[i] == names[i] && kss[i] == keyss[i]);
        }
        lemma_parse_sections(m, ns, kss);
        let prev = ini_line_list(m, ns, kss);
        let r = parse_lines(prev).0;
        assert(plain_token(names[j]));
        let h = seq!['['] + n + seq![']'];
        lemma_header_line(n);
        assert(!ns.contains(n)) by {
            if ns.contains(n) {
                let a = choose|a: int| 0 <= a < ns.len() && ns[a] == n;
                assert(names[a] == names[j]);
            }
        }
        assert(!r.contains_key(n));
        let p1 = prev + seq![h];
        assert(p1.drop_last() =~= prev);
        assert(p1.last() == h);
        let r0 = r.insert(n, Map::empty());
        assert(parse_lines(p1) == (r0, n));
        let inner = m[n];
        let keys = keyss[j];
        assert(keyss.last() == keys);
        assert forall|i: int| 0 <= i < keys.len() implies plain_token(#[trigger] keys[i]) && plain_token(inner[keys[i]]) by {}
        lemma_parse_keys(p1, r0, n, inner, keys);
        let kv = kv_lines(inner, keys);
        let all = ini_line_list(m, names, keyss);
        assert(all =~= p1 + kv + seq![seq![]]);
        assert(all.drop_last() =~= p1 + kv);
        assert(all.last() == Seq::<char>::empty());
        assert(trim(Seq::<char>::empty()) =~= Seq::<char>::empty());
        assert(restrict(inner, keys) =~= inner);
        assert(r0.insert(n, restrict(inner, keys)) =~= sections_read(m, names)) by {
            assert forall|s: Seq<char>| names.contains(s) <==> (ns.contains(s) || s == n) by {
                if names.contains(s) && s != n {
                    let a = choose|a: int| 0 <= a < names.len() && names[a] == s;
                    assert(ns[a] == s);
                }
                if ns.contains(s) {
                    let a = choose|a: int| 0 <= a < ns.len() && ns[a] == s;
                    assert(names[a] == s);
                }
                if s == n {
                    assert(names[j] == s);
                }
            }
        }
        assert(!lone_quote_value(Seq::<char>::empty()));
        assert(strip_cr(Seq::<char>::empty()) =~= Seq::<char>::empty());
        assert forall|i: int| 0 <= i < all.len() implies line_ok(#[trigger] all[i]) by {
            if i < prev.len() {
                assert(all[i] == prev[i]);
            } else if i == prev.len() {
                assert(all[i] == h);
            } else if i < prev.len() + 1 + kv.len() {
                assert(all[i] == kv[i - prev.len() - 1]);
            } else {
                assert(all[i] == Seq::<char>::empty());
            }
        }
    }
}

proof fn lemma_unique_count(s: Seq<Seq<char>>, x: Seq<char>)
    requires
        s.no_duplicates(),
    ensures
        count(s, x) <= 1,
    decreases s.len(),
{
    if s.len() > 0 {
        let pre = s.drop_last();
        assert(pre.no_duplicates()) by {
            assert forall|a: int, b: int| 0 <= a < pre.len() && 0 <= b < pre.len() && a != b implies pre[a] != pre[b] by {
                assert(pre[a] == s[a] && pre[b] == s[b]);
            }
        }
        lemma_unique_count(pre, x);
        if s.last() == x && count(pre, x) > 0 {
            lemma_count_pos(pre, x);
            let a = choose|a: int| 0 <= a < pre.len() && pre[a] == x;
            assert(s[a] == s[s.len() - 1]);
        }
    }
}

proof fn lemma_count_unique(s: Seq<Seq<char>>)
    requires
        forall|x: Seq<char>| count(s, x) <= 1,
    ensures
        s.no_duplicates(),
    decreases s.len(),
{
    if s.len() > 0 {
        let pre = s.drop_last();
        assert forall|x: Seq<char>| count(pre, x) <= 1 by {
            assert(count(pre, x) <= count(s, x));
        }
        lemma_count_unique(pre);
        assert forall|a: int, b: int| 0 <= a < s.len() && 0 <= b < s.len() && a != b implies s[a] != s[b] by {
            if a < pre.len() && b < pre.len() {
                assert(pre[a] == s[a] && pre[b] == s[b]);
            } else {
                let i = if a < pre.len() { a } else { b };
                assert(pre[i] == s[i]);
                lemma_count_pos_at(pre, i);
                if s[a] == s[b] {
                    assert(s.last() == pre[i]);
                    assert(count(s, pre[i]) >= 2);
                }
            }
        }
    }
}

proof fn lemma_permutes_contains(a: Seq<Seq<char>>, b: Seq<Seq<char>>, x: Seq<char>)
    requires
        permutes(a, b),
    ensures
        a.contains(x) <==> b.contains(x),
{
    if a.contains(x) {
        let i = choose|i: int| 0 <= i < a.len() && a[i] == x;
        lemma_count_pos_at(a, i);
        lemma_count_pos(b, x);
    }
    if b.contains(x) {
        let i = choose|i: int| 0 <= i < b.len() && b[i] == x;
        lemma_count_pos_at(b, i);
        lemma_count_pos(a, x);
    }
}

proof fn lemma_keys_unique<W>(s: Seq<(Seq<char>, W)>)
    requires
        unique_keys(s),
    ensures
        keys_of(s).no_duplicates(),
{
}

proof fn lemma_key_listed<W>(s: Seq<(Seq<char>, W)>, k: Seq<char>)
    ensures
        lookup(s, k) is Some <==> keys_of(s).contains(k),
        lookup(s, k) is Some ==> exists|i: int| 0 <= i < s.len() && s[i].0 == k && lookup(s, k) == Some(s[i].1),
{
    lemma_lookup_index(s, k);
    if keys_of(s).contains(k) {
        let i = choose|i: int| 0 <= i < keys_of(s).len() && keys_of(s)[i] == k;
        assert(s[i].0 == k);
    }
    if lookup(s, k) is Some {
        let i = crate::string_map::index_of(s, k);
        assert(keys_of(s)[i] == k);
    }
}

/// Reading back what `serialize_ini` writes gives the config's settings
/// again, when every section name, key and value is a plain token (ASCII
/// letters, digits, `_` and `.`); sections without keys come back too.
pub proof fn law_parse_after_serialize(c: &IniConfig, names: Seq<Seq<char>>, keyss: Seq<Seq<Seq<char>>>)
    requires
        distinct_config(c),
        plain_config(c),
        serialized_as(c, names, keyss),
    ensures
        parsable(ini_text(ini_map(c), names, keyss)),
        parse_ini(ini_text(ini_map(c), names, keyss)) == ini_map(c),
{
    let m = ini_map(c);
    let secs = c.sections@;
    lemma_keys_unique(secs);
    assert forall|x: Seq<char>| count(names, x) <= 1 by {
        lemma_unique_count(keys_of(secs), x);
    }
    lemma_count_unique(names);
    assert forall|j: int|
        0 <= j < names.len() implies plain_token(#[trigger] names[j]) && m.contains_key(names[j]) && (forall|k: Seq<char>|
            keyss[j].contains(k) <==> m[names[j]].contains_key(k)) && forall|i: int|
            0 <= i < keyss[j].len() ==> plain_token(#[trigger] keyss[j][i]) && plain_token(m[names[j]][keyss[j][i]]) by {
        let n = names[j];
        assert(names.contains(n));
        lemma_permutes_contains(names, keys_of(secs), n);
        lemma_key_listed(secs, n);
        let e = choose|e: int| 0 <= e < secs.len() && secs[e].0 == n && lookup(secs, n) == Some(secs[e].1);
        let inner = secs[e].1;
        assert(plain_token(secs[e].0));
        assert(m[n] == as_map(inner));
        assert(permutes(keyss[j], keys_of(inner))) by {
            assert(lookup(secs, names[j])->0 == inner);
        }
        assert forall|k: Seq<char>| keyss[j].contains(k) <==> m[n].contains_key(k) by {
            lemma_permutes_contains(keyss[j], keys_of(inner), k);
            lemma_key_listed(inner, k);
        }
        assert forall|i: int| 0 <= i < keyss[j].len() implies plain_token(#[trigger] keyss[j][i]) && plain_token(
            m[n][keyss[j][i]],
        ) by {
            let k = keyss[j][i];
            assert(keyss[j].contains(k));
            lemma_permutes_contains(keyss[j], keys_of(inner), k);
            lemma_key_listed(inner, k);
            let q = choose|q: int| 0 <= q < inner.len() && inner[q].0 == k && lookup(inner, k) == Some(inner[q].1);
            assert(plain_token(inner[q].0) && plain_token(inner[q].1));
        }
    }
    lemma_parse_sections(m, names, keyss);
    let ls = ini_line_list(m, names, keyss);
    lemma_lines_flat(ls);
    lemma_ini_text_flat(m, names, keyss);
    let text = ini_text(m, names, keyss);
    assert(lines(text) == ls);
    assert(sections_read(m, names) =~= m) by {
        assert forall|s: Seq<char>| names.contains(s) <==> m.contains_key(s) by {
            lemma_permutes_contains(names, keys_of(secs), s);
            lemma_key_listed(secs, s);
        }
    }
    assert forall|i: int| 0 <= i < lines(text).len() implies !lone_quote_value(#[trigger] lines(text)[i]) by {
        assert(line_ok(ls[i]));
    }
}

} // verus!
