//! The Fallout Anomaly update notice: the published `version.md` line
//! (`Fallen World 0.1.3 - <description>`) read into a version and a
//! description, and whether the user has seen that version. The caller
//! downloads the file and keeps the last seen version.
use vstd::prelude::*;
use crate::services::game_launcher::opt_view;
use crate::text::{chars_of, find, find_seq, is_ws, lemma_trim_idempotent, push_all, slice_of, string_of, trim, trim_end, trim_start, trimmed, trimmed_str};

verus! {

/// The published version line.
pub const VERSION_MD_URL: &'static str = "https://raw.githubusercontent.com/Fallout-Anomaly/changelog/main/version.md";

/// The news shown when no update is new.
pub const NEWSBANNER_MD_URL: &'static str =
    "https://raw.githubusercontent.com/Fallout-Anomaly/changelog/main/newsbanner.md";

/// An update notice.
#[derive(Debug, Clone)]
pub struct AnomalyUpdate {
    /// The version, such as `0.1.3`.
    pub version: String,
    /// What follows ` - ` on the line, possibly empty.
    pub description: String,
    /// The whole line.
    pub raw: String,
    /// The version differs from the last one the user acknowledged.
    pub is_new: bool,
}

/// The first match of the regular expression `pattern` in `text`; `None`
/// when there is none or the pattern is not valid.
pub uninterp spec fn regex_first_match(pattern: Seq<char>, text: Seq<char>) -> Option<Seq<char>>;

/// `regex::Regex::new`, then `Regex::find`; the matched text is handed out.
/// A match of the version pattern starts and ends with a decimal digit
/// (`\d`, Unicode class Nd), so it is not empty and has no whitespace at
/// either end.
#[verifier::external_body]
fn first_match(pattern: &str, text: &str) -> (r: Option<String>)
    ensures
        opt_view(r) == regex_first_match(pattern@, text@),
        pattern@ == version_pattern() ==> (r matches Some(m) ==> m@.len() > 0 && !is_ws(m@[0]) && !is_ws(
            m@.last(),
        )),
{
    regex::Regex::new(pattern).ok().and_then(|re| re.find(text).map(|m| m.as_str().to_string()))
}

/// A version number: two or three dot-separated numbers.
pub open spec fn version_pattern() -> Seq<char> {
    "\\d+\\.\\d+(?:\\.\\d+)?"@
}

/// The text after the first ` - `, trimmed; empty without one.
pub open spec fn description_of(raw: Seq<char>) -> Seq<char> {
    match find(raw, " - "@) {
        Some(i) => trim(raw.skip(i + 3)),
        None => seq![],
    }
}

/// The notice `version.md` (`body`) gives, with `last_seen` the stored last
/// seen version, or why none.
pub open spec fn update_of(body: Seq<char>, last_seen: Option<Seq<char>>) -> Result<
    (Seq<char>, Seq<char>, Seq<char>, bool),
    Seq<char>,
> {
    let raw = trim(body);
    if raw.len() == 0 {
        Err("version.md was empty"@)
    } else {
        let version = match regex_first_match(version_pattern(), raw) {
            Some(v) => v,
            None => raw,
        };
        let seen = match last_seen {
            Some(s) => Some(trim(s)),
            None => None,
        };
        Ok((version, description_of(raw), raw, seen != Some(version)))
    }
}

pub open spec fn opt_str(o: Option<&str>) -> Option<Seq<char>> {
    match o {
        Some(s) => Some(s@),
        None => None,
    }
}

/// Once a version is acknowledged it no longer reads as new: with the
/// notice's version `v` stored as the last seen one, the notice is not new;
/// with any other stored version (compared after trimming), or none, it is.
pub proof fn law_seen_version_not_new(body: Seq<char>, v: Seq<char>, seen: Seq<char>)
    requires
        update_of(body, None) matches Ok(u) && u.0 == v,
        trim(v) == v,
    ensures
        update_of(body, None) matches Ok(u) && u.3,
        update_of(body, Some(seen)) matches Ok(w) && w.0 == v && (w.3 <==> trim(seen) != v),
        update_of(body, Some(v)) matches Ok(w) && !w.3,
{
}

pub struct AnomalyUpdateService;

impl AnomalyUpdateService {
    /// The notice of `version.md` (`body`): its version (the first version
    /// number on the line, else the whole line), its description, and
    /// whether it differs from the stored `last_seen` version.
    pub fn check(body: &str, last_seen: Option<&str>) -> (r: Result<AnomalyUpdate, String>)
        ensures
            match r {
                Ok(u) => update_of(body@, opt_str(last_seen)) == Ok::<_, Seq<char>>(
                    (u.version@, u.description@, u.raw@, u.is_new),
                ) && trim(u.version@) == u.version@,
                Err(e) => update_of(body@, opt_str(last_seen)) == Err::<(Seq<char>, Seq<char>, Seq<char>, bool), Seq<char>>(
                    e@,
                ),
            },
    {
        let raw = trimmed_str(body);
        if raw.len() == 0 {
            return Err("version.md was empty".to_string());
        }
        let raw_s = string_of(&raw);
        proof {
            reveal_strlit("\\d+\\.\\d+(?:\\.\\d+)?");
        }
        let version = match first_match("\\d+\\.\\d+(?:\\.\\d+)?", raw_s.as_str()) {
            Some(v) => {
                proof {
                    assert(trim_start(v@) == v@);
                    assert(trim_end(v@) == v@);
                }
                v
            },
            None => {
                proof {
                    lemma_trim_idempotent(body@);
                }
                string_of(&raw)
            },
        };
        let sep = chars_of(" - ");
        proof {
            reveal_strlit(" - ");
        }
        let description = match find_seq(&raw, &sep) {
            Some(i) => {
                proof {
                    crate::text::lemma_find(raw@, " - "@);
                }
                let n = raw.len();
                let rest = slice_of(&raw, i + 3, n);
                assert(rest@ =~= raw@.skip(i + 3));
                string_of(&trimmed(&rest))
            },
            None => String::new(),
        };
        let seen_differs = match last_seen {
            Some(s) => {
                let t = trimmed_str(s);
                !crate::text::eq_str(&t, version.as_str())
            },
            None => true,
        };
        Ok(AnomalyUpdate { version, description, raw: raw_s, is_new: seen_differs })
    }
}

} // verus!
