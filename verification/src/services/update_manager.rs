//! Mod updates: comparing installed versions with the published ones, and
//! what an update or a changelog request finds. The caller reads the
//! version file.
use vstd::prelude::*;
use crate::models::ModUpdate;
use crate::services::game_launcher::opt_view;
use crate::services::mod_detector::SimpleMod;
use crate::text::{chars_of, push_str, split_at_char, split, string_of, views};

verus! {

/// Whether `c` is an ASCII digit.
pub open spec fn is_digit(c: char) -> bool {
    '0' <= c && c <= '9'
}

/// Decimal value of a string of digits.
pub open spec fn dec_value(s: Seq<char>) -> int
    decreases s.len(),
{
    if s.len() == 0 {
        0
    } else {
        dec_value(s.drop_last()) * 10 + (s.last() as int - '0' as int)
    }
}

/// The digits `u32::from_str` reads: an optional leading `+` is skipped.
pub open spec fn digits_of(s: Seq<char>) -> Seq<char> {
    if s.len() > 0 && s[0] == '+' {
        s.drop_first()
    } else {
        s
    }
}

/// `u32::from_str`: `None` for an empty string, a non-digit, or a value
/// beyond `u32::MAX`.
pub open spec fn parse_u32(s: Seq<char>) -> Option<u32> {
    let d = digits_of(s);
    if d.len() > 0 && (forall|i: int| 0 <= i < d.len() ==> is_digit(#[trigger] d[i])) && dec_value(d)
        <= u32::MAX {
        Some(dec_value(d) as u32)
    } else {
        None
    }
}

/// A version component's number: unparsable components count as 0.
pub open spec fn part_num(p: Seq<char>) -> int {
    match parse_u32(p) {
        Some(n) => n as int,
        None => 0,
    }
}

/// Whether the parts of `latest` from index `i` on make it newer than `current`.
pub open spec fn newer_from(current: Seq<Seq<char>>, latest: Seq<Seq<char>>, i: int) -> bool
    decreases current.len() - i,
{
    if i < 0 || i >= current.len() || i >= latest.len() {
        latest.len() > current.len()
    } else if part_num(latest[i]) > part_num(current[i]) {
        true
    } else if part_num(current[i]) > part_num(latest[i]) {
        false
    } else {
        newer_from(current, latest, i + 1)
    }
}

/// `latest` is a newer dotted version than `current`: the first differing
/// numeric component decides; equal prefixes favour the longer version.
pub open spec fn is_newer(current: Seq<char>, latest: Seq<char>) -> bool {
    newer_from(split(current, '.'), split(latest, '.'), 0)
}

proof fn lemma_dec_prefix(s: Seq<char>, i: int)
    requires
        0 <= i <= s.len(),
        forall|k: int| 0 <= k < s.len() ==> is_digit(#[trigger] s[k]),
    ensures
        dec_value(s.take(i)) <= dec_value(s),
        0 <= dec_value(s.take(i)),
    decreases s.len() - i,
{
    if i < s.len() {
        assert(s.drop_last().take(i) =~= s.take(i));
        assert forall|k: int| 0 <= k < s.drop_last().len() implies is_digit(#[trigger] s.drop_last()[k]) by {
            assert(s.drop_last()[k] == s[k]);
        }
        lemma_dec_prefix(s.drop_last(), i);
        assert(is_digit(s.last()));
    } else {
        assert(s.take(i) =~= s);
        lemma_dec_nonneg(s);
    }
}

proof fn lemma_dec_nonneg(s: Seq<char>)
    requires
        forall|k: int| 0 <= k < s.len() ==> is_digit(#[trigger] s[k]),
    ensures
        0 <= dec_value(s),
    decreases s.len(),
{
    if s.len() > 0 {
        assert forall|k: int| 0 <= k < s.drop_last().len() implies is_digit(#[trigger] s.drop_last()[k]) by {
            assert(s.drop_last()[k] == s[k]);
        }
        lemma_dec_nonneg(s.drop_last());
        assert(is_digit(s.last()));
    }
}

proof fn lemma_newer_antisym(c: Seq<Seq<char>>, l: Seq<Seq<char>>, i: int)
    requires
        0 <= i,
    ensures
        newer_from(c, l, i) ==> !newer_from(l, c, i),
    decreases c.len() - i,
{
    if i >= c.len() || i >= l.len() {
    } else if part_num(l[i]) > part_num(c[i]) {
    } else if part_num(c[i]) > part_num(l[i]) {
    } else {
        lemma_newer_antisym(c, l, i + 1);
    }
}

/// A version is never newer than itself, and of two versions at most one is
/// newer than the other.
pub proof fn law_newer_is_strict(a: Seq<char>, b: Seq<char>)
    ensures
        !is_newer(a, a),
        is_newer(a, b) ==> !is_newer(b, a),
{
    lemma_newer_antisym(split(a, '.'), split(b, '.'), 0);
    lemma_newer_antisym(split(a, '.'), split(a, '.'), 0);
}

spec fn pow10(n: nat) -> int
    decreases n,
{
    if n == 0 {
        1
    } else {
        10 * pow10((n - 1) as nat)
    }
}

proof fn lemma_dec_below(s: Seq<char>)
    requires
        forall|k: int| 0 <= k < s.len() ==> is_digit(#[trigger] s[k]),
    ensures
        0 <= dec_value(s) < pow10(s.len()),
    decreases s.len(),
{
    if s.len() > 0 {
        assert forall|k: int| 0 <= k < s.drop_last().len() implies is_digit(#[trigger] s.drop_last()[k]) by {
            assert(s.drop_last()[k] == s[k]);
        }
        lemma_dec_below(s.drop_last());
        assert(is_digit(s.last()));
    }
}

/// A version component made of digits counts by its whole decimal value: a
/// single digit is worth its digit, and one more digit at the end (up to
/// nine digits) multiplies the value by ten and adds that digit.
pub proof fn law_part_is_decimal(d: Seq<char>, c: char)
    requires
        d.len() <= 8,
        forall|k: int| 0 <= k < d.len() ==> is_digit(#[trigger] d[k]),
        is_digit(c),
    ensures
        part_num(seq![c]) == c as int - '0' as int,
        d.len() > 0 ==> part_num(d.push(c)) == part_num(d) * 10 + (c as int - '0' as int),
{
    reveal_with_fuel(pow10, 10);
    let e = seq![c];
    assert(e.drop_last() =~= Seq::<char>::empty());
    assert(digits_of(e) == e);
    assert(e.last() == c);
    assert(dec_value(Seq::<char>::empty()) == 0);
    assert(dec_value(e) == dec_value(e.drop_last()) * 10 + (c as int - '0' as int));
    assert(dec_value(e) == c as int - '0' as int);
    if d.len() > 0 {
        let x = d.push(c);
        assert(digits_of(d) == d);
        assert(x[0] == d[0]);
        assert(digits_of(x) == x);
        assert forall|k: int| 0 <= k < x.len() implies is_digit(#[trigger] x[k]) by {
            if k < d.len() {
                assert(x[k] == d[k]);
            }
        }
        assert(x.drop_last() =~= d);
        lemma_dec_below(d);
        lemma_dec_below(x);
        assert(pow10(x.len()) <= 1000000000) by {
            assert(pow10(9) == 1000000000);
            lemma_pow10_mono(x.len(), 9);
        }
        assert(dec_value(x) == dec_value(d) * 10 + (c as int - '0' as int));
    }
}

proof fn lemma_pow10_mono(a: nat, b: nat)
    requires
        a <= b,
    ensures
        pow10(a) <= pow10(b),
    decreases b,
{
    if a < b {
        lemma_pow10_mono(a, (b - 1) as nat);
        lemma_pow10_pos((b - 1) as nat);
    }
}

proof fn lemma_pow10_pos(n: nat)
    ensures
        pow10(n) >= 1,
    decreases n,
{
    if n > 0 {
        lemma_pow10_pos((n - 1) as nat);
    }
}

proof fn lemma_newer_at(c: Seq<Seq<char>>, l: Seq<Seq<char>>, j: int, i: int)
    requires
        0 <= j <= i < c.len(),
        i < l.len(),
        forall|k: int| j <= k < i ==> part_num(#[trigger] c[k]) == part_num(l[k]),
        part_num(l[i]) > part_num(c[i]),
    ensures
        newer_from(c, l, j),
        !newer_from(l, c, j),
    decreases i - j,
{
    if j < i {
        lemma_newer_at(c, l, j + 1, i);
    }
}

/// The first component where two versions differ decides: when every
/// earlier component has the same number and `latest`'s component at `i`
/// is the larger, `latest` is newer than `current` and not the other way.
pub proof fn law_first_difference_decides(current: Seq<char>, latest: Seq<char>, i: int)
    requires
        0 <= i < split(current, '.').len(),
        i < split(latest, '.').len(),
        forall|k: int| 0 <= k < i ==> part_num(#[trigger] split(current, '.')[k]) == part_num(split(latest, '.')[k]),
        part_num(split(latest, '.')[i]) > part_num(split(current, '.')[i]),
    ensures
        is_newer(current, latest),
        !is_newer(latest, current),
{
    lemma_newer_at(split(current, '.'), split(latest, '.'), 0, i);
}

/// The published version information of one mod.
#[derive(Debug, Clone)]
pub struct ModVersionInfo {
    pub name: String,
    pub current_version: String,
    pub latest_version: String,
    pub download_url: Option<String>,
    pub changelog: Option<String>,
}

/// The information published for `name`: the last entry of that name.
pub open spec fn version_of(av: Seq<ModVersionInfo>, name: Seq<char>) -> Option<ModVersionInfo>
    decreases av.len(),
{
    if av.len() == 0 {
        None
    } else if av.last().name@ == name {
        Some(av.last())
    } else {
        version_of(av.drop_last(), name)
    }
}

/// (mod, current, available, changelog) for each installed mod, in order,
/// whose published latest version is newer.
pub open spec fn updates_of(installed: Seq<SimpleMod>, av: Seq<ModVersionInfo>) -> Seq<
    (Seq<char>, Seq<char>, Seq<char>, Seq<char>),
>
    decreases installed.len(),
{
    if installed.len() == 0 {
        seq![]
    } else {
        let m = installed.last();
        updates_of(installed.drop_last(), av) + match version_of(av, m.name@) {
            Some(v) => if is_newer(m.version@, v.latest_version@) {
                seq![
                    (
                        m.id@,
                        m.version@,
                        v.latest_version@,
                        match v.changelog {
                            Some(c) => c@,
                            None => Seq::<char>::empty(),
                        },
                    ),
                ]
            } else {
                seq![]
            },
            None => seq![],
        }
    }
}

pub open spec fn update_views(v: Seq<ModUpdate>) -> Seq<(Seq<char>, Seq<char>, Seq<char>, Seq<char>)> {
    v.map_values(|u: ModUpdate| (u.mod_id@, u.current_version@, u.available_version@, u.changelog@))
}

/// Position of the information published for `name`.
fn find_version(av: &Vec<ModVersionInfo>, name: &str) -> (r: Option<usize>)
    ensures
        match r {
            Some(k) => k < av@.len() && version_of(av@, name@) == Some(av@[k as int]),
            None => version_of(av@, name@) is None,
        },
{
    let mut j: usize = av.len();
    let nv = chars_of(name);
    assert(av@.take(av@.len() as int) =~= av@);
    while j > 0
        invariant
            j <= av@.len(),
            nv@ == name@,
            version_of(av@, name@) == version_of(av@.take(j as int), name@),
        decreases j,
    {
        assert(av@.take(j as int).drop_last() =~= av@.take(j - 1));
        assert(av@.take(j as int).last() == av@[j - 1]);
        if crate::text::eq_str(&nv, av[j - 1].name.as_str()) {
            return Some(j - 1);
        }
        j -= 1;
    }
    None
}

fn copy_string(s: &String) -> (r: String)
    ensures
        r@ == s@,
{
    string_of(&chars_of(s.as_str()))
}

/// The published information of a mod by its strings' characters.
pub open spec fn version_view(v: ModVersionInfo) -> (Seq<char>, Seq<char>, Seq<char>, Option<Seq<char>>, Option<Seq<char>>) {
    (v.name@, v.current_version@, v.latest_version@, opt_view(v.download_url), opt_view(v.changelog))
}

/// Entry `i` is the first with its name.
pub open spec fn first_of_name(av: Seq<ModVersionInfo>, i: int) -> bool {
    forall|j: int| 0 <= j < i ==> av[j].name@ != av[i].name@
}

/// For each name among the first `n` entries, in order of first appearance,
/// the information published for it (its last entry).
pub open spec fn latest_versions(av: Seq<ModVersionInfo>, n: int) -> Seq<(Seq<char>, Seq<char>, Seq<char>, Option<Seq<char>>, Option<Seq<char>>)>
    decreases n,
{
    if n <= 0 {
        seq![]
    } else {
        latest_versions(av, n - 1) + if first_of_name(av, n - 1) {
            seq![version_view(version_of(av, av[n - 1].name@)->0)]
        } else {
            seq![]
        }
    }
}

fn copy_opt(s: &Option<String>) -> (r: Option<String>)
    ensures
        opt_view(r) == opt_view(*s),
{
    match s {
        Some(x) => Some(copy_string(x)),
        None => None,
    }
}

/// An entry's name has published information.
proof fn lemma_version_found(av: Seq<ModVersionInfo>, i: int)
    requires
        0 <= i < av.len(),
    ensures
        version_of(av, av[i].name@) is Some,
    decreases av.len(),
{
    if av.last().name@ != av[i].name@ {
        assert(av.drop_last()[i] == av[i]);
        lemma_version_found(av.drop_last(), i);
    }
}

pub struct UpdateManager;

impl UpdateManager {
    /// `str::parse::<u32>()`, with 0 for anything that does not parse.
    fn parse_part(p: &[char]) -> (n: u32)
        ensures
            n == part_num(p@),
    {
        let mut start: usize = 0;
        if p.len() > 0 && p[0] == '+' {
            start = 1;
        }
        let ghost d = digits_of(p@);
        assert(d =~= p@.skip(start as int));
        if start >= p.len() {
            return 0;
        }
        let mut acc: u64 = 0;
        let mut i = start;
        while i < p.len()
            invariant
                start <= i <= p@.len(),
                d == p@.skip(start as int),
                d == digits_of(p@),
                d.len() > 0,
                forall|k: int| 0 <= k < i - start ==> is_digit(#[trigger] d[k]),
                acc == dec_value(d.take(i - start)),
                acc <= u32::MAX,
            decreases p@.len() - i,
        {
            let c = p[i];
            assert(d[i - start] == c);
            if !('0' <= c && c <= '9') {
                assert(!is_digit(d[i - start]));
                assert(!(forall|k: int| 0 <= k < d.len() ==> is_digit(#[trigger] d[k])));
                assert(d == digits_of(p@));
                assert(parse_u32(p@) is None);
                return 0;
            }
            let digit = (c as u32 - '0' as u32) as u64;
            proof {
                assert(d.take(i - start + 1).drop_last() =~= d.take(i - start));
                assert(d.take(i - start + 1).last() == c);
            }
            acc = acc * 10 + digit;
            i += 1;
            if acc > 0xFFFF_FFFF {
                proof {
                    if forall|k: int| 0 <= k < d.len() ==> is_digit(#[trigger] d[k]) {
                        lemma_dec_prefix(d, i - start);
                    }
                }
                return 0;
            }
        }
        assert(d.take(d.len() as int) =~= d);
        acc as u32
    }

    /// The updates available for the installed mods, in order: those whose
    /// published latest version is newer than the installed one.
    pub fn check_updates(installed: &[SimpleMod], available: &Vec<ModVersionInfo>) -> (r: Vec<ModUpdate>)
        ensures
            update_views(r@) == updates_of(installed@, available@),
    {
        let mut r: Vec<ModUpdate> = Vec::new();
        let mut i: usize = 0;
        assert(installed@.take(0) =~= Seq::<SimpleMod>::empty());
        assert(update_views(r@) =~= Seq::<(Seq<char>, Seq<char>, Seq<char>, Seq<char>)>::empty());
        while i < installed.len()
            invariant
                i <= installed@.len(),
                update_views(r@) == updates_of(installed@.take(i as int), available@),
            decreases installed@.len() - i,
        {
            let m = &installed[i];
            assert(installed@.take(i + 1).drop_last() =~= installed@.take(i as int));
            assert(installed@.take(i + 1).last() == installed@[i as int]);
            let ghost before = update_views(r@);
            match find_version(available, m.name.as_str()) {
                Some(k) => {
                    let v = &available[k];
                    if Self::should_update(m.version.as_str(), v.latest_version.as_str()) {
                        let changelog = match &v.changelog {
                            Some(c) => copy_string(c),
                            None => String::new(),
                        };
                        r.push(
                            ModUpdate {
                                mod_id: copy_string(&m.id),
                                current_version: copy_string(&m.version),
                                available_version: copy_string(&v.latest_version),
                                changelog,
                            },
                        );
                        assert(update_views(r@) =~= before + updates_of(installed@.take(i + 1), available@).skip(
                            before.len() as int,
                        ));
                    }
                },
                None => {},
            }
            assert(update_views(r@) =~= updates_of(installed@.take(i + 1), available@));
            i += 1;
        }
        assert(installed@.take(installed@.len() as int) =~= installed@);
        r
    }

    /// Where the update of `mod_id` downloads from, or why it cannot.
    pub fn update_source(available: &Vec<ModVersionInfo>, mod_id: &str) -> (r: Result<String, String>)
        ensures
            match version_of(available@, mod_id@) {
                None => r matches Err(e) && e@ == "No update information found for mod: "@ + mod_id@,
                Some(v) => match v.download_url {
                    Some(u) => r matches Ok(x) && x@ == u@,
                    None => r matches Err(e) && e@ == "No download URL available for this mod. Please update manually."@,
                },
            },
    {
        match find_version(available, mod_id) {
            None => {
                let mut m: Vec<char> = Vec::new();
                push_str(&mut m, "No update information found for mod: ");
                push_str(&mut m, mod_id);
                Err(string_of(&m))
            },
            Some(k) => match &available[k].download_url {
                Some(u) => Ok(copy_string(u)),
                None => Err("No download URL available for this mod. Please update manually.".to_string()),
            },
        }
    }

    /// The information published for every mod: each name once, in the
    /// order the names first appear, with its last entry.
    pub fn get_all_versions(available: &Vec<ModVersionInfo>) -> (r: Vec<ModVersionInfo>)
        ensures
            r@.map_values(|v: ModVersionInfo| version_view(v)) == latest_versions(available@, available@.len() as int),
    {
        let mut r: Vec<ModVersionInfo> = Vec::new();
        let mut i: usize = 0;
        while i < available.len()
            invariant
                i <= available@.len(),
                r@.map_values(|v: ModVersionInfo| version_view(v)) == latest_versions(available@, i as int),
            decreases available@.len() - i,
        {
            let name = available[i].name.as_str();
            let nv = chars_of(name);
            let mut j: usize = 0;
            let mut seen = false;
            while j < i
                invariant
                    j <= i < available@.len(),
                    nv@ == available@[i as int].name@,
                    seen == exists|q: int| 0 <= q < j && available@[q].name@ == available@[i as int].name@,
                decreases i - j,
            {
                if crate::text::eq_str(&nv, available[j].name.as_str()) {
                    seen = true;
                }
                j += 1;
            }
            if !seen {
                match find_version(available, name) {
                    Some(k) => {
                        let v = &available[k];
                        let c = ModVersionInfo {
                            name: copy_string(&v.name),
                            current_version: copy_string(&v.current_version),
                            latest_version: copy_string(&v.latest_version),
                            download_url: copy_opt(&v.download_url),
                            changelog: copy_opt(&v.changelog),
                        };
                        let ghost before = r@.map_values(|v: ModVersionInfo| version_view(v));
                        r.push(c);
                        assert(r@.map_values(|v: ModVersionInfo| version_view(v)) =~= before.push(version_view(c)));
                    },
                    None => {
                        proof {
                            assert(version_of(available@, available@[i as int].name@) is Some) by {
                                lemma_version_found(available@, i as int);
                            }
                        }
                    },
                }
            }
            i += 1;
        }
        r
    }

    /// The changelog published for `mod_id`, if any.
    pub fn get_changelog(available: &Vec<ModVersionInfo>, mod_id: &str) -> (r: Option<String>)
        ensures
            opt_view(r) == match version_of(available@, mod_id@) {
                Some(v) => opt_view(v.changelog),
                None => None,
            },
    {
        match find_version(available, mod_id) {
            None => None,
            Some(k) => match &available[k].changelog {
                Some(c) => Some(copy_string(c)),
                None => None,
            },
        }
    }

    /// No launcher update is looked for.
    pub fn check_launcher_update() -> (r: Option<String>)
        ensures
            r is None,
    {
        None
    }

    /// Whether `latest` is a newer version than `current` (dotted numbers,
    /// compared component by component).
    pub fn should_update(current: &str, latest: &str) -> (b: bool)
        ensures
            b == is_newer(current@, latest@),
    {
        let cp = split_at_char(&chars_of(current), '.');
        let lp = split_at_char(&chars_of(latest), '.');
        let ghost cs = split(current@, '.');
        let ghost ls = split(latest@, '.');
        let n = if cp.len() < lp.len() { cp.len() } else { lp.len() };
        assert(cs.len() == cp@.len() && ls.len() == lp@.len());
        let mut i: usize = 0;
        while i < n
            invariant
                i <= n,
                n <= cs.len(),
                n <= ls.len(),
                n == cs.len() || n == ls.len(),
                views(cp@) == cs,
                views(lp@) == ls,
                is_newer(current@, latest@) == newer_from(cs, ls, i as int),
            decreases n - i,
        {
            let c = Self::parse_part(&cp[i]);
            let l = Self::parse_part(&lp[i]);
            assert(cp@[i as int]@ == cs[i as int]);
            assert(lp@[i as int]@ == ls[i as int]);
            assert(c == part_num(cs[i as int]) && l == part_num(ls[i as int]));
            assert(newer_from(cs, ls, i as int) == if part_num(ls[i as int]) > part_num(cs[i as int]) {
                true
            } else if part_num(cs[i as int]) > part_num(ls[i as int]) {
                false
            } else {
                newer_from(cs, ls, i + 1)
            });
            if l > c {
                return true;
            } else if c > l {
                return false;
            }
            i += 1;
        }
        lp.len() > cp.len()
    }
}

} // verus!
