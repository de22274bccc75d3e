//! The dashboard's "Latest Changes" feed, parsed from Markdown.
use vstd::prelude::*;
use crate::text::{
    chars_of, find, find_char, find_ch, find_seq, has_prefix, has_suffix, lemma_find, lines, push_all,
    slice_of, split_lines, starts_with_str, ends_with_str, string_of, trim, trimmed, views,
};

verus! {

/// A clickable mod/source reference shown under a changelog entry.
#[derive(Debug, Clone)]
pub struct ChangelogLink {
    pub label: String,
    pub url: String,
}

/// One titled bullet block within a changelog category.
#[derive(Debug, Clone)]
pub struct ChangelogEntry {
    pub title: String,
    pub notes: Vec<String>,
    pub links: Vec<ChangelogLink>,
}

/// A category heading (e.g. "Added") grouping a set of entries.
#[derive(Debug, Clone)]
pub struct ChangelogSection {
    pub category: String,
    pub entries: Vec<ChangelogEntry>,
}

/// Parsed changelog for the dashboard "Latest Changes" feed.
#[derive(Debug, Clone)]
pub struct ChangelogData {
    pub version: String,
    pub released: String,
    pub sections: Vec<ChangelogSection>,
}

/// A link as (label, url).
pub type LinkView = (Seq<char>, Seq<char>);

pub ghost struct EntryView {
    pub title: Seq<char>,
    pub notes: Seq<Seq<char>>,
    pub links: Seq<LinkView>,
}

pub ghost struct SectionView {
    pub category: Seq<char>,
    pub entries: Seq<EntryView>,
}

pub ghost struct DataView {
    pub version: Seq<char>,
    pub released: Seq<char>,
    pub sections: Seq<SectionView>,
}

pub open spec fn link_views(v: Seq<ChangelogLink>) -> Seq<LinkView> {
    v.map_values(|l: ChangelogLink| (l.label@, l.url@))
}

impl View for ChangelogEntry {
    type V = EntryView;

    open spec fn view(&self) -> EntryView {
        EntryView {
            title: self.title@,
            notes: self.notes@.map_values(|n: String| n@),
            links: link_views(self.links@),
        }
    }
}

impl View for ChangelogSection {
    type V = SectionView;

    open spec fn view(&self) -> SectionView {
        SectionView { category: self.category@, entries: self.entries@.map_values(|e: ChangelogEntry| e@) }
    }
}

impl View for ChangelogData {
    type V = DataView;

    open spec fn view(&self) -> DataView {
        DataView {
            version: self.version@,
            released: self.released@,
            sections: self.sections@.map_values(|s: ChangelogSection| s@),
        }
    }
}

/// The text left and the links found when `[label](url)` links are taken out
/// of `rest`, scanning from the left; an incomplete link ends the scan.
pub open spec fn links_of(rest: Seq<char>) -> (Seq<char>, Seq<LinkView>)
    decreases rest.len(),
{
    match find_char(rest, '[') {
        Some(open) => {
            proof {
                lemma_find(rest, seq!['[']);
                lemma_find(rest.skip(open), seq![']', '(']);
            }
            match find(rest.skip(open), seq![']', '(']) {
                Some(cr) => {
                    let close = open + cr;
                    proof {
                        lemma_find(rest.skip(close + 2), seq![')']);
                    }
                    match find_char(rest.skip(close + 2), ')') {
                        Some(er) => {
                            let end = close + 2 + er;
                            let label = trim(rest.subrange(open + 1, close));
                            let url = trim(rest.subrange(close + 2, end));
                            let later = links_of(rest.skip(end + 1));
                            (
                                rest.take(open) + later.0,
                                if label.len() > 0 { seq![(label, url)] + later.1 } else { later.1 },
                            )
                        },
                        None => (rest, seq![]),
                    }
                },
                None => (rest, seq![]),
            }
        },
        None => (rest, seq![]),
    }
}

/// `ChangelogService::extract_links`: the trimmed remaining text and the links.
pub open spec fn extract(line: Seq<char>) -> (Seq<char>, Seq<LinkView>) {
    (trim(links_of(line).0), links_of(line).1)
}

/// `s` without any number of trailing `pat` (`str::trim_end_matches`).
pub open spec fn strip_all_end(s: Seq<char>, pat: Seq<char>) -> Seq<char>
    decreases s.len(),
{
    if pat.len() > 0 && has_suffix(s, pat) {
        strip_all_end(s.take(s.len() - pat.len()), pat)
    } else {
        s
    }
}

/// Parser state: version, release date, sections, and whether the current
/// entry came from an explicit `###` heading.
pub ghost struct MdState {
    pub version: Seq<char>,
    pub released: Seq<char>,
    pub sections: Seq<SectionView>,
    pub explicit: bool,
}

/// `sections` with a default "Changelog" section added when there is none.
pub open spec fn ensure_section(sections: Seq<SectionView>) -> Seq<SectionView> {
    if sections.len() == 0 {
        seq![SectionView { category: "Changelog"@, entries: seq![] }]
    } else {
        sections
    }
}

/// `sections` with `e` appended to the last section.
pub open spec fn push_entry(sections: Seq<SectionView>, e: EntryView) -> Seq<SectionView> {
    let last = sections.last();
    sections.drop_last().push(SectionView { entries: last.entries.push(e), ..last })
}

/// `sections` with the last entry of the last section replaced by `e`.
pub open spec fn set_last_entry(sections: Seq<SectionView>, e: EntryView) -> Seq<SectionView> {
    let last = sections.last();
    sections.drop_last().push(SectionView { entries: last.entries.drop_last().push(e), ..last })
}

/// The note a structured content line adds: without a leading `- ` or `* `.
pub open spec fn note_of(text: Seq<char>) -> Seq<char> {
    if has_prefix(text, "- "@) {
        trim(text.skip(2))
    } else if has_prefix(text, "* "@) {
        trim(text.skip(2))
    } else {
        trim(text)
    }
}

/// The parser state after one raw line.
pub open spec fn md_line(st: MdState, raw: Seq<char>) -> MdState {
    let line = trim(raw);
    if line.len() == 0 {
        st
    } else if st.sections.len() == 0 && has_prefix(line, "version:"@) {
        MdState { version: trim(line.skip(8)), ..st }
    } else if st.sections.len() == 0 && has_prefix(line, "released:"@) {
        MdState { released: trim(line.skip(9)), ..st }
    } else if has_prefix(line, "## "@) {
        MdState {
            sections: st.sections.push(SectionView { category: trim(line.skip(3)), entries: seq![] }),
            explicit: false,
            ..st
        }
    } else if has_prefix(line, "### "@) {
        MdState {
            sections: push_entry(
                ensure_section(st.sections),
                EntryView { title: trim(line.skip(4)), notes: seq![], links: seq![] },
            ),
            explicit: true,
            ..st
        }
    } else if line[0] == '#' {
        st
    } else {
        let (text, links) = extract(line);
        if st.explicit {
            let e = st.sections.last().entries.last();
            let e2 = EntryView {
                links: e.links + links,
                notes: if text.len() > 0 { e.notes.push(note_of(text)) } else { e.notes },
                ..e
            };
            MdState { sections: set_last_entry(st.sections, e2), ..st }
        } else {
            let title = trim(strip_all_end(trim(text), "CLICK"@));
            MdState {
                sections: push_entry(
                    ensure_section(st.sections),
                    EntryView { title: if title.len() == 0 { "Changelog"@ } else { title }, notes: seq![], links },
                ),
                ..st
            }
        }
    }
}

/// The parser state after a sequence of lines.
pub open spec fn md_lines(ls: Seq<Seq<char>>) -> MdState
    decreases ls.len(),
{
    if ls.len() == 0 {
        MdState { version: seq![], released: seq![], sections: seq![], explicit: false }
    } else {
        md_line(md_lines(ls.drop_last()), ls.last())
    }
}

/// The changelog a Markdown document describes ("1.0" when it names no version).
pub open spec fn parse_md(md: Seq<char>) -> DataView {
    let st = md_lines(lines(md));
    DataView {
        version: if st.version.len() == 0 { "1.0"@ } else { st.version },
        released: st.released,
        sections: st.sections,
    }
}

/// An explicit entry always has a section and an entry to attach notes to.
pub open spec fn md_state_ok(st: MdState) -> bool {
    st.explicit ==> (st.sections.len() > 0 && st.sections.last().entries.len() > 0)
}

proof fn lemma_md_state_ok(ls: Seq<Seq<char>>)
    ensures
        md_state_ok(md_lines(ls)),
    decreases ls.len(),
{
    if ls.len() > 0 {
        lemma_md_state_ok(ls.drop_last());
    }
}

/// Remote changelog published by the modlist authors.
pub const CHANGELOG_MD_URL: &'static str = "https://raw.githubusercontent.com/Fallout-Anomaly/changelog/main/changelog.md";

pub struct ChangelogService;

impl ChangelogService {
    /// Extract all `[label](url)` links from a line, returning the line with
    /// the link markdown removed plus the parsed links.
    pub fn extract_links(line: &str) -> (r: (String, Vec<ChangelogLink>))
        ensures
            (r.0@, link_views(r.1@)) == extract(line@),
    {
        let l = chars_of(line);
        let (t, links) = Self::extract_links_chars(&l);
        (string_of(&t), links)
    }

    fn extract_links_chars(line: &[char]) -> (r: (Vec<char>, Vec<ChangelogLink>))
        ensures
            (r.0@, link_views(r.1@)) == extract(line@),
    {
        let mut links: Vec<ChangelogLink> = Vec::new();
        let mut text: Vec<char> = Vec::new();
        let mut pos: usize = 0;
        let n = line.len();
        let bracket = vec![']', '('];
        assert(line@.skip(0) =~= line@);
        assert(link_views(links@) =~= Seq::<LinkView>::empty());
        assert(text@ + links_of(line@).0 =~= links_of(line@).0);
        assert(link_views(links@) + links_of(line@).1 =~= links_of(line@).1);
        loop
            invariant
                pos <= n == line@.len(),
                bracket@ == seq![']', '('],
                links_of(line@).0 == text@ + links_of(line@.skip(pos as int)).0,
                links_of(line@).1 == link_views(links@) + links_of(line@.skip(pos as int)).1,
            ensures
                links_of(line@.skip(pos as int)).0 == line@.skip(pos as int),
                links_of(line@.skip(pos as int)).1 == Seq::<LinkView>::empty(),
            decreases n - pos,
        {
            let rest = slice_of(line, pos, n);
            assert(rest@ =~= line@.skip(pos as int));
            let open = match find_ch(&rest, '[') {
                Some(o) => o,
                None => break,
            };
            proof {
                lemma_find(rest@, seq!['[']);
            }
            let after_open = slice_of(&rest, open, rest.len());
            assert(after_open@ =~= rest@.skip(open as int));
            let cr = match find_seq(&after_open, &bracket) {
                Some(c) => c,
                None => break,
            };
            proof {
                lemma_find(after_open@, seq![']', '(']);
            }
            let close = open + cr;
            let after_close = slice_of(&rest, close + 2, rest.len());
            assert(after_close@ =~= rest@.skip(close + 2));
            let er = match find_ch(&after_close, ')') {
                Some(e) => e,
                None => break,
            };
            proof {
                lemma_find(after_close@, seq![')']);
            }
            let end = close + 2 + er;
            let ghost later = links_of(rest@.skip(end + 1));
            push_all(&mut text, &slice_of(&rest, 0, open));
            let label = trimmed(&slice_of(&rest, open + 1, close));
            let url = trimmed(&slice_of(&rest, close + 2, end));
            let ghost lv0 = link_views(links@);
            if label.len() > 0 {
                links.push(ChangelogLink { label: string_of(&label), url: string_of(&url) });
                assert(link_views(links@) =~= lv0.push((label@, url@)));
            }
            proof {
                assert(rest@.take(open as int) =~= rest@.subrange(0, open as int));
                assert(line@.skip(pos + end + 1) =~= rest@.skip(end + 1));
                assert(links_of(rest@) == (
                    rest@.take(open as int) + later.0,
                    if label@.len() > 0 { seq![(label@, url@)] + later.1 } else { later.1 },
                ));
                assert(text@ + later.0 =~= (text@.take(text@.len() - open as int)) + (rest@.take(open as int) + later.0)) by {
                    assert(text@.take(text@.len() - open as int) + rest@.take(open as int) =~= text@);
                }
                if label@.len() > 0 {
                    assert(link_views(links@) + later.1 =~= lv0 + (seq![(label@, url@)] + later.1));
                }
            }
            pos = pos + end + 1;
        }
        let rest = slice_of(line, pos, n);
        assert(rest@ =~= line@.skip(pos as int));
        push_all(&mut text, &rest);
        assert(link_views(links@) + Seq::<LinkView>::empty() =~= link_views(links@));
        let t = trimmed(&text);
        (t, links)
    }

    /// Dependency-free Markdown parser supporting two changelog shapes:
    /// structured (`## Category`, `### Entry`, `- note`, `[label](url)`) and
    /// flat (one entry per line, links extracted, the rest becomes the title).
    pub fn parse_markdown(md: &str) -> (r: ChangelogData)
        ensures
            r@ == parse_md(md@),
    {
        let c = chars_of(md);
        let ls = split_lines(&c);
        let mut version: Vec<char> = Vec::new();
        let mut released: Vec<char> = Vec::new();
        let mut sections: Vec<ChangelogSection> = Vec::new();
        let mut explicit_entry = false;
        let mut i: usize = 0;
        assert(views(ls@).take(0) =~= Seq::<Seq<char>>::empty());
        assert(sections@.map_values(|s: ChangelogSection| s@) =~= Seq::<SectionView>::empty());
        while i < ls.len()
            invariant
                i <= ls@.len(),
                views(ls@) == lines(md@),
                md_lines(views(ls@).take(i as int)) == (MdState {
                    version: version@,
                    released: released@,
                    sections: sections@.map_values(|s: ChangelogSection| s@),
                    explicit: explicit_entry,
                }),
            decreases ls@.len() - i,
        {
            proof {
                assert(views(ls@).take(i + 1).drop_last() =~= views(ls@).take(i as int));
                assert(views(ls@).take(i + 1).last() == ls@[i as int]@);
                lemma_md_state_ok(views(ls@).take(i as int));
            }
            let ghost st0 = md_lines(views(ls@).take(i as int));
            let ghost raw = ls@[i as int]@;
            let line = trimmed(&ls[i]);
            if line.len() == 0 {
            } else if sections.len() == 0 && starts_with_str(&line, "version:") {
                proof {
                    reveal_strlit("version:");
                }
                version = trimmed(&slice_of(&line, 8, line.len()));
                assert(line@.skip(8) =~= line@.subrange(8, line@.len() as int));
            } else if sections.len() == 0 && starts_with_str(&line, "released:") {
                proof {
                    reveal_strlit("released:");
                }
                released = trimmed(&slice_of(&line, 9, line.len()));
                assert(line@.skip(9) =~= line@.subrange(9, line@.len() as int));
            } else if starts_with_str(&line, "## ") {
                proof {
                    reveal_strlit("## ");
                }
                let cat = trimmed(&slice_of(&line, 3, line.len()));
                assert(line@.skip(3) =~= line@.subrange(3, line@.len() as int));
                let ghost sv0 = sections@.map_values(|s: ChangelogSection| s@);
                sections.push(ChangelogSection { category: string_of(&cat), entries: Vec::new() });
                proof {
                    assert(sections@.last().entries@.map_values(|e: ChangelogEntry| e@) =~= Seq::<EntryView>::empty());
                    assert(sections@.map_values(|s: ChangelogSection| s@) =~= sv0.push(SectionView { category: cat@, entries: seq![] }));
                }
                explicit_entry = false;
            } else if starts_with_str(&line, "### ") {
                proof {
                    reveal_strlit("### ");
                }
                let title = trimmed(&slice_of(&line, 4, line.len()));
                assert(line@.skip(4) =~= line@.subrange(4, line@.len() as int));
                Self::ensure_section(&mut sections);
                let e = ChangelogEntry { title: string_of(&title), notes: Vec::new(), links: Vec::new() };
                proof {
                    assert(e@.notes =~= Seq::<Seq<char>>::empty());
                    assert(e@.links =~= Seq::<LinkView>::empty());
                }
                Self::push_entry_to(&mut sections, e);
                explicit_entry = true;
            } else if line[0] == '#' {
            } else {
                let (text, links) = Self::extract_links_chars(&line);
                if explicit_entry {
                    let mut sec = sections.pop().unwrap();
                    let mut e = sec.entries.pop().unwrap();
                    let ghost e0 = e@;
                    let ghost lv = link_views(links@);
                    let mut k: usize = 0;
                    let ghost el0 = link_views(e.links@);
                    while k < links.len()
                        invariant
                            k <= links@.len(),
                            lv == link_views(links@),
                            link_views(e.links@) == el0 + lv.take(k as int),
                            e.title@ == e0.title,
                            e.notes@.map_values(|n: String| n@) == e0.notes,
                        decreases links@.len() - k,
                    {
                        let l = ChangelogLink { label: links[k].label.clone(), url: links[k].url.clone() };
                        let ghost before = link_views(e.links@);
                        e.links.push(l);
                        assert(link_views(e.links@) =~= before.push(lv[k as int]));
                        assert(lv.take(k + 1) =~= lv.take(k as int).push(lv[k as int]));
                        k += 1;
                    }
                    assert(lv.take(links@.len() as int) =~= lv);
                    if text.len() > 0 {
                        proof {
                            reveal_strlit("- ");
                            reveal_strlit("* ");
                        }
                        let note = if starts_with_str(&text, "- ") || starts_with_str(&text, "* ") {
                            assert(text@.skip(2) =~= text@.subrange(2, text@.len() as int));
                            trimmed(&slice_of(&text, 2, text.len()))
                        } else {
                            trimmed(&text)
                        };
                        let ghost nv0 = e.notes@.map_values(|n: String| n@);
                        e.notes.push(string_of(&note));
                        assert(e.notes@.map_values(|n: String| n@) =~= nv0.push(note@));
                    }
                    let ghost se0 = sec.entries@.map_values(|x: ChangelogEntry| x@);
                    sec.entries.push(e);
                    assert(sec.entries@.map_values(|x: ChangelogEntry| x@) =~= se0.push(sec.entries@.last()@));
                    let ghost ss0 = sections@.map_values(|s: ChangelogSection| s@);
                    sections.push(sec);
                    assert(sections@.map_values(|s: ChangelogSection| s@) =~= ss0.push(sections@.last()@));
                    proof {
                        let sv = st0.sections;
                        assert(sv.drop_last() =~= ss0);
                        assert(sv.last().entries.drop_last() =~= se0);
                    }
                } else {
                    Self::ensure_section(&mut sections);
                    let t1 = trimmed(&text);
                    let t2 = Self::strip_click(&t1);
                    let title = trimmed(&t2);
                    let title_s = if title.len() == 0 { "Changelog".to_owned() } else { string_of(&title) };
                    let e = ChangelogEntry { title: title_s, notes: Vec::new(), links };
                    assert(e@.notes =~= Seq::<Seq<char>>::empty());
                    Self::push_entry_to(&mut sections, e);
                }
            }
            assert(md_lines(views(ls@).take(i + 1)) == md_line(st0, raw));
            i += 1;
        }
        assert(views(ls@).take(ls@.len() as int) =~= views(ls@));
        let version = if version.len() == 0 { "1.0".to_owned() } else { string_of(&version) };
        ChangelogData { version, released: string_of(&released), sections }
    }

    /// `str::trim_end_matches("CLICK")`.
    fn strip_click(s: &[char]) -> (r: Vec<char>)
        ensures
            r@ == strip_all_end(s@, "CLICK"@),
    {
        let mut cur: Vec<char> = slice_of(s, 0, s.len());
        assert(cur@ =~= s@);
        let pat = chars_of("CLICK");
        while pat.len() > 0 && crate::text::ends_with(&cur, &pat)
            invariant
                strip_all_end(s@, "CLICK"@) == strip_all_end(cur@, "CLICK"@),
                pat@ == "CLICK"@,
            decreases cur@.len(),
        {
            cur = slice_of(&cur, 0, cur.len() - pat.len());
        }
        cur
    }

    /// Adds the default "Changelog" section when there is none.
    fn ensure_section(sections: &mut Vec<ChangelogSection>)
        ensures
            final(sections)@.map_values(|s: ChangelogSection| s@) == ensure_section(old(sections)@.map_values(|s: ChangelogSection| s@)),
            final(sections)@.len() > 0,
    {
        if sections.len() == 0 {
            sections.push(ChangelogSection { category: "Changelog".to_owned(), entries: Vec::new() });
            assert(sections@[0].entries@.map_values(|e: ChangelogEntry| e@) =~= Seq::<EntryView>::empty());
            assert(sections@.map_values(|s: ChangelogSection| s@) =~= seq![SectionView { category: "Changelog"@, entries: seq![] }]);
        }
    }

    /// Appends `e` to the last section.
    fn push_entry_to(sections: &mut Vec<ChangelogSection>, e: ChangelogEntry)
        requires
            old(sections)@.len() > 0,
        ensures
            final(sections)@.map_values(|s: ChangelogSection| s@) == push_entry(old(sections)@.map_values(|s: ChangelogSection| s@), e@),
    {
        let ghost sv0 = sections@.map_values(|s: ChangelogSection| s@);
        let mut sec = sections.pop().unwrap();
        let ghost se0 = sec.entries@.map_values(|x: ChangelogEntry| x@);
        sec.entries.push(e);
        assert(sec.entries@.map_values(|x: ChangelogEntry| x@) =~= se0.push(e@));
        let ghost ss0 = sections@.map_values(|s: ChangelogSection| s@);
        sections.push(sec);
        assert(sections@.map_values(|s: ChangelogSection| s@) =~= ss0.push(sections@.last()@));
        assert(sv0.drop_last() =~= ss0);
    }
}

} // verus!
