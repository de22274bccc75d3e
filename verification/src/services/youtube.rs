//! Recent videos of the Fallout Anomaly YouTube channel, read from the
//! channel's Atom feed; the feed and the channel page are fetched by the caller.
use vstd::prelude::*;
use crate::text::{chars_of, find, occurs_at, find_seq, has_prefix, lemma_find, push_all, push_str, slice_of, string_of, starts_with_str};

verus! {

/// Known channel id for @FalloutAnomaly, used when none can be scraped.
pub const DEFAULT_CHANNEL_ID: &'static str = "UCowoMPzQU_WfQcNp6bMj1zg";

/// One video of the channel feed.
#[derive(Debug, Clone)]
pub struct YoutubeVideo {
    pub id: String,
    pub title: String,
    pub published: String,
    pub url: String,
    pub embed_url: String,
    pub thumbnail: String,
}

pub ghost struct VideoView {
    pub id: Seq<char>,
    pub title: Seq<char>,
    pub published: Seq<char>,
    pub url: Seq<char>,
    pub embed_url: Seq<char>,
    pub thumbnail: Seq<char>,
}

impl View for YoutubeVideo {
    type V = VideoView;

    open spec fn view(&self) -> VideoView {
        VideoView {
            id: self.id@,
            title: self.title@,
            published: self.published@,
            url: self.url@,
            embed_url: self.embed_url@,
            thumbnail: self.thumbnail@,
        }
    }
}

pub open spec fn video_views(v: Seq<YoutubeVideo>) -> Seq<VideoView> {
    v.map_values(|x: YoutubeVideo| x@)
}

/// The text strictly between the first `open` and the first `close` after it.
pub open spec fn between(h: Seq<char>, open: Seq<char>, close: Seq<char>) -> Option<Seq<char>> {
    match find(h, open) {
        Some(i) => {
            let start = i + open.len();
            match find(h.skip(start), close) {
                Some(j) => Some(h.subrange(start, start + j)),
                None => None,
            }
        },
        None => None,
    }
}

/// Every occurrence of the non-empty `pat` replaced by `rep`, scanning left
/// to right (`str::replace`).
pub open spec fn replace_all(s: Seq<char>, pat: Seq<char>, rep: Seq<char>) -> Seq<char>
    decreases s.len(),
{
    if pat.len() == 0 {
        s
    } else {
        proof {
            lemma_find(s, pat);
        }
        match find(s, pat) {
            Some(i) => s.take(i) + rep + replace_all(s.skip(i + pat.len()), pat, rep),
            None => s,
        }
    }
}

/// The pieces of `s` between occurrences of the non-empty `pat` (`str::split`).
pub open spec fn split_on(s: Seq<char>, pat: Seq<char>) -> Seq<Seq<char>>
    decreases s.len(),
{
    if pat.len() == 0 {
        seq![s]
    } else {
        proof {
            lemma_find(s, pat);
        }
        match find(s, pat) {
            Some(i) => seq![s.take(i)] + split_on(s.skip(i + pat.len()), pat),
            None => seq![s],
        }
    }
}

/// The XML entities of a feed title decoded, one kind after another.
pub open spec fn decode_xml(s: Seq<char>) -> Seq<char> {
    replace_all(
        replace_all(
            replace_all(
                replace_all(replace_all(replace_all(s, "&amp;"@, "&"@), "&lt;"@, "<"@), "&gt;"@, ">"@),
                "&quot;"@,
                "\""@,
            ),
            "&#39;"@,
            "'"@,
        ),
        "&apos;"@,
        "'"@,
    )
}

/// The video an `<entry>` block describes, if it has a video id.
pub open spec fn entry_video(entry: Seq<char>) -> Option<VideoView> {
    match between(entry, "<yt:videoId>"@, "</yt:videoId>"@) {
        Some(id) => Some(
            VideoView {
                id,
                title: match between(entry, "<title>"@, "</title>"@) {
                    Some(t) => decode_xml(t),
                    None => seq![],
                },
                published: match between(entry, "<published>"@, "</published>"@) {
                    Some(p) => p,
                    None => seq![],
                },
                url: "https://www.youtube.com/watch?v="@ + id,
                embed_url: "https://www.youtube.com/embed/"@ + id,
                thumbnail: "https://i.ytimg.com/vi/"@ + id + "/mqdefault.jpg"@,
            },
        ),
        None => None,
    }
}

/// The videos of a list of entries, skipping those without an id.
pub open spec fn entries_videos(es: Seq<Seq<char>>) -> Seq<VideoView>
    decreases es.len(),
{
    if es.len() == 0 {
        seq![]
    } else {
        entries_videos(es.drop_last()) + match entry_video(es.last()) {
            Some(v) => seq![v],
            None => seq![],
        }
    }
}

/// The videos of an Atom feed, in feed order.
pub open spec fn feed_videos(xml: Seq<char>) -> Seq<VideoView> {
    entries_videos(split_on(xml, "<entry>"@).drop_first())
}

/// A character that may appear in a channel id.
pub open spec fn id_char(c: char) -> bool {
    ('0' <= c <= '9') || ('a' <= c <= 'z') || ('A' <= c <= 'Z') || c == '_' || c == '-'
}

/// The longest prefix of `s` made of id characters.
pub open spec fn id_prefix(s: Seq<char>) -> Seq<char>
    decreases s.len(),
{
    if s.len() > 0 && id_char(s[0]) {
        seq![s[0]] + id_prefix(s.drop_first())
    } else {
        seq![]
    }
}

/// The channel id that follows the first `marker` in a page, when it looks
/// like one (`UC` and 24 characters).
pub open spec fn id_after(html: Seq<char>, marker: Seq<char>) -> Option<Seq<char>> {
    match find(html, marker) {
        Some(i) => {
            let id = id_prefix(html.skip(i + marker.len()));
            if has_prefix(id, "UC"@) && id.len() == 24 {
                Some(id)
            } else {
                None
            }
        },
        None => None,
    }
}

/// The channel id a channel page names, trying `"channelId":"` first.
pub open spec fn scraped_id(html: Seq<char>) -> Option<Seq<char>> {
    match id_after(html, "\"channelId\":\""@) {
        Some(id) => Some(id),
        None => id_after(html, "channel_id="@),
    }
}

/// The feed URL of a channel.
pub open spec fn feed_url(channel_id: Seq<char>) -> Seq<char> {
    "https://www.youtube.com/feeds/videos.xml?channel_id="@ + channel_id
}

// ───────────────────────── executable helpers ─────────────────────────

fn between_chars(h: &[char], open: &str, close: &str) -> (r: Option<Vec<char>>)
    ensures
        match r {
            Some(v) => between(h@, open@, close@) == Some(v@),
            None => between(h@, open@, close@) is None,
        },
{
    let o = chars_of(open);
    let c = chars_of(close);
    let hn = h.len();
    match find_seq(h, &o) {
        Some(i) => {
            proof {
                lemma_find(h@, open@);
                assert(occurs_at(h@, open@, i as int));
            }
            let start = i + o.len();
            let rest = slice_of(h, start, h.len());
            assert(rest@ =~= h@.skip(start as int));
            match find_seq(&rest, &c) {
                Some(j) => {
                    proof {
                        lemma_find(rest@, close@);
                    }
                    let v = slice_of(h, start, start + j);
                    Some(v)
                },
                None => None,
            }
        },
        None => None,
    }
}

fn replace_all_chars(s: &[char], pat: &str, rep: &str) -> (r: Vec<char>)
    ensures
        r@ == replace_all(s@, pat@, rep@),
{
    let p = chars_of(pat);
    if p.len() == 0 {
        return slice_of(s, 0, s.len());
    }
    let mut out: Vec<char> = Vec::new();
    let mut pos: usize = 0;
    let n = s.len();
    assert(s@.skip(0) =~= s@);
    loop
        invariant
            pos <= n == s@.len(),
            p@ == pat@,
            p@.len() > 0,
            replace_all(s@, pat@, rep@) == out@ + replace_all(s@.skip(pos as int), pat@, rep@),
        decreases n - pos,
    {
        let rest = slice_of(s, pos, n);
        assert(rest@ =~= s@.skip(pos as int));
        proof {
            lemma_find(rest@, pat@);
        }
        match find_seq(&rest, &p) {
            Some(i) => {
                let ghost before = out@;
                push_all(&mut out, &slice_of(&rest, 0, i));
                push_str(&mut out, rep);
                assert(rest@.take(i as int) =~= rest@.subrange(0, i as int));
                assert(s@.skip(pos + i + p.len()) =~= rest@.skip(i + p@.len()));
                assert(before + (rest@.take(i as int) + rep@ + replace_all(rest@.skip(i + p@.len()), pat@, rep@))
                    =~= out@ + replace_all(rest@.skip(i + p@.len()), pat@, rep@));
                pos = pos + i + p.len();
            },
            None => {
                push_all(&mut out, &rest);
                return out;
            },
        }
    }
}

fn split_on_chars(s: &[char], pat: &str) -> (r: Vec<Vec<char>>)
    requires
        pat@.len() > 0,
    ensures
        crate::text::views(r@) == split_on(s@, pat@),
{
    let p = chars_of(pat);
    let mut out: Vec<Vec<char>> = Vec::new();
    let mut pos: usize = 0;
    let n = s.len();
    assert(s@.skip(0) =~= s@);
    assert(crate::text::views(out@) + split_on(s@, pat@) =~= split_on(s@, pat@));
    loop
        invariant
            pos <= n == s@.len(),
            p@ == pat@,
            p@.len() > 0,
            split_on(s@, pat@) == crate::text::views(out@) + split_on(s@.skip(pos as int), pat@),
        decreases n - pos,
    {
        let rest = slice_of(s, pos, n);
        assert(rest@ =~= s@.skip(pos as int));
        proof {
            lemma_find(rest@, pat@);
        }
        let ghost before = crate::text::views(out@);
        match find_seq(&rest, &p) {
            Some(i) => {
                let piece = slice_of(&rest, 0, i);
                assert(piece@ =~= rest@.take(i as int));
                out.push(piece);
                assert(crate::text::views(out@) =~= before.push(rest@.take(i as int)));
                assert(s@.skip(pos + i + p.len()) =~= rest@.skip(i + p@.len()));
                assert(before + (seq![rest@.take(i as int)] + split_on(rest@.skip(i + p@.len()), pat@))
                    =~= crate::text::views(out@) + split_on(rest@.skip(i + p@.len()), pat@));
                pos = pos + i + p.len();
            },
            None => {
                out.push(rest);
                assert(crate::text::views(out@) =~= before + seq![s@.skip(pos as int)]);
                return out;
            },
        }
    }
}

fn id_prefix_chars(s: &[char]) -> (r: Vec<char>)
    ensures
        r@ == id_prefix(s@),
{
    let mut i: usize = 0;
    while i < s.len() && (('0' <= s[i] && s[i] <= '9') || ('a' <= s[i] && s[i] <= 'z') || ('A' <= s[i]
        && s[i] <= 'Z') || s[i] == '_' || s[i] == '-')
        invariant
            i <= s@.len(),
            forall|k: int| 0 <= k < i ==> id_char(#[trigger] s@[k]),
        decreases s@.len() - i,
    {
        i += 1;
    }
    proof {
        lemma_id_prefix(s@, i as int);
    }
    slice_of(s, 0, i)
}

proof fn lemma_id_prefix(s: Seq<char>, i: int)
    requires
        0 <= i <= s.len(),
        forall|k: int| 0 <= k < i ==> id_char(#[trigger] s[k]),
        i == s.len() || !id_char(s[i]),
    ensures
        id_prefix(s) == s.take(i),
    decreases i,
{
    if i > 0 {
        assert forall|k: int| 0 <= k < i - 1 implies id_char(#[trigger] s.drop_first()[k]) by {
            assert(s.drop_first()[k] == s[k + 1]);
        }
        if i < s.len() {
            assert(s.drop_first()[i - 1] == s[i]);
        }
        lemma_id_prefix(s.drop_first(), i - 1);
        assert(s.take(i) =~= seq![s[0]] + s.drop_first().take(i - 1));
    } else {
        assert(s.take(0) =~= Seq::<char>::empty());
    }
}

fn id_after_chars(html: &[char], marker: &str) -> (r: Option<Vec<char>>)
    ensures
        match r {
            Some(v) => id_after(html@, marker@) == Some(v@),
            None => id_after(html@, marker@) is None,
        },
{
    let m = chars_of(marker);
    let hn = html.len();
    match find_seq(html, &m) {
        Some(i) => {
            proof {
                lemma_find(html@, marker@);
                assert(occurs_at(html@, marker@, i as int));
            }
            let rest = slice_of(html, i + m.len(), html.len());
            assert(rest@ =~= html@.skip(i + m@.len()));
            let id = id_prefix_chars(&rest);
            if starts_with_str(&id, "UC") && id.len() == 24 {
                Some(id)
            } else {
                None
            }
        },
        None => None,
    }
}

/// Appends `a + id + b` as a string.
fn wrap(a: &str, id: &String, b: &str) -> (r: String)
    ensures
        r@ == a@ + id@ + b@,
{
    let mut v: Vec<char> = Vec::new();
    push_str(&mut v, a);
    push_str(&mut v, id.as_str());
    push_str(&mut v, b);
    string_of(&v)
}

pub struct YouTube;

impl YouTube {
    /// Up to `limit` most recent videos of a channel feed (newest first, as
    /// the feed lists them); an error when the feed has none.
    pub fn recent_videos(feed_xml: &str, limit: usize) -> (r: Result<Vec<YoutubeVideo>, String>)
        ensures
            match r {
                Ok(v) => {
                    let all = feed_videos(feed_xml@);
                    &&& limit > 0 && all.len() > 0
                    &&& video_views(v@) == all.take(if limit < all.len() { limit as int } else { all.len() as int })
                },
                Err(e) => (limit == 0 || feed_videos(feed_xml@).len() == 0) && e@
                    == "No videos found in channel feed"@,
            },
    {
        let all = Self::parse_feed(feed_xml);
        let mut videos: Vec<YoutubeVideo> = Vec::new();
        let mut i: usize = 0;
        while i < all.len() && i < limit
            invariant
                i <= all@.len(),
                i <= limit,
                video_views(videos@) == video_views(all@).take(i as int),
            decreases all@.len() - i,
        {
            let ghost before = video_views(videos@);
            videos.push(all[i].clone_video());
            assert(video_views(videos@) =~= before.push(all@[i as int]@));
            assert(video_views(all@).take(i + 1) =~= video_views(all@).take(i as int).push(all@[i as int]@));
            i += 1;
        }
        if videos.len() == 0 {
            return Err("No videos found in channel feed".to_owned());
        }
        Ok(videos)
    }

    /// The channel id to use: a cached one, else one scraped from the
    /// channel page, else the known default.
    pub fn resolve_channel_id(cached: Option<String>, channel_page: Option<&str>) -> (r: String)
        ensures
            r@ == match cached {
                Some(c) => c@,
                None => match channel_page {
                    Some(html) => match scraped_id(html@) {
                        Some(id) => id,
                        None => DEFAULT_CHANNEL_ID@,
                    },
                    None => DEFAULT_CHANNEL_ID@,
                },
            },
    {
        if let Some(id) = cached {
            return id;
        }
        match channel_page {
            Some(html) => match Self::scrape_channel_id(html) {
                Some(id) => id,
                None => DEFAULT_CHANNEL_ID.to_owned(),
            },
            None => DEFAULT_CHANNEL_ID.to_owned(),
        }
    }

    /// Look for `"channelId":"UC..."` or `channel_id=UC...` in a channel page.
    pub fn scrape_channel_id(html: &str) -> (r: Option<String>)
        ensures
            match r {
                Some(id) => scraped_id(html@) == Some(id@),
                None => scraped_id(html@) is None,
            },
    {
        let h = chars_of(html);
        match id_after_chars(&h, "\"channelId\":\"") {
            Some(id) => Some(string_of(&id)),
            None => match id_after_chars(&h, "channel_id=") {
                Some(id) => Some(string_of(&id)),
                None => None,
            },
        }
    }

    /// The feed URL of a channel.
    pub fn feed_url(channel_id: &str) -> (r: String)
        ensures
            r@ == feed_url(channel_id@),
    {
        let mut v: Vec<char> = Vec::new();
        push_str(&mut v, "https://www.youtube.com/feeds/videos.xml?channel_id=");
        push_str(&mut v, channel_id);
        string_of(&v)
    }

    /// Parse `<entry>` blocks out of the Atom feed.
    pub fn parse_feed(xml: &str) -> (r: Vec<YoutubeVideo>)
        ensures
            video_views(r@) == feed_videos(xml@),
    {
        let x = chars_of(xml);
        proof {
            reveal_strlit("<entry>");
        }
        let parts = split_on_chars(&x, "<entry>");
        let ghost es = crate::text::views(parts@).drop_first();
        let mut videos: Vec<YoutubeVideo> = Vec::new();
        if parts.len() == 0 {
            assert(es =~= Seq::<Seq<char>>::empty());
            return videos;
        }
        let mut i: usize = 1;
        assert(es.take(0) =~= Seq::<Seq<char>>::empty());
        while i < parts.len()
            invariant
                1 <= i <= parts@.len(),
                es == crate::text::views(parts@).drop_first(),
                video_views(videos@) == entries_videos(es.take(i - 1)),
            decreases parts@.len() - i,
        {
            let entry = &parts[i];
            assert(es[i - 1] == entry@);
            assert(es.take(i as int).drop_last() =~= es.take(i - 1));
            assert(es.take(i as int).last() == entry@);
            let ghost before = video_views(videos@);
            match between_chars(entry, "<yt:videoId>", "</yt:videoId>") {
                Some(idc) => {
                    let id = string_of(&idc);
                    let title = match between_chars(entry, "<title>", "</title>") {
                        Some(t) => string_of(&Self::decode_xml(&t)),
                        None => String::new(),
                    };
                    let published = match between_chars(entry, "<published>", "</published>") {
                        Some(p) => string_of(&p),
                        None => String::new(),
                    };
                    let v = YoutubeVideo {
                        url: wrap("https://www.youtube.com/watch?v=", &id, ""),
                        embed_url: wrap("https://www.youtube.com/embed/", &id, ""),
                        thumbnail: wrap("https://i.ytimg.com/vi/", &id, "/mqdefault.jpg"),
                        title,
                        published,
                        id,
                    };
                    proof {
                        reveal_strlit("");
                    }
                    assert(v@.url =~= "https://www.youtube.com/watch?v="@ + idc@);
                    assert(v@.embed_url =~= "https://www.youtube.com/embed/"@ + idc@);
                    assert(v@ == entry_video(entry@)->0);
                    videos.push(v);
                    assert(video_views(videos@) =~= before + seq![entry_video(entry@)->0]);
                },
                None => {
                    assert(video_views(videos@) =~= before + Seq::<VideoView>::empty());
                },
            }
            i += 1;
        }
        assert(es.take(parts@.len() - 1) =~= es);
        videos
    }

    /// Decode the XML entities of a feed title.
    pub fn decode_xml(s: &[char]) -> (r: Vec<char>)
        ensures
            r@ == decode_xml(s@),
    {
        let a = replace_all_chars(s, "&amp;", "&");
        let b = replace_all_chars(&a, "&lt;", "<");
        let c = replace_all_chars(&b, "&gt;", ">");
        let d = replace_all_chars(&c, "&quot;", "\"");
        let e = replace_all_chars(&d, "&#39;", "'");
        replace_all_chars(&e, "&apos;", "'")
    }
}

impl YoutubeVideo {
    /// A field-by-field copy.
    pub fn clone_video(&self) -> (r: YoutubeVideo)
        ensures
            r@ == self@,
    {
        YoutubeVideo {
            id: self.id.clone(),
            title: self.title.clone(),
            published: self.published.clone(),
            url: self.url.clone(),
            embed_url: self.embed_url.clone(),
            thumbnail: self.thumbnail.clone(),
        }
    }
}

} // verus!
