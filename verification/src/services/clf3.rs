//! Decisions around the CLF3 Wabbajack installer: its saved settings, the
//! Nexus key, the binary lookup and the GPU vendor it reports. The `clf3`
//! process itself is run by the caller.
use vstd::prelude::*;
use crate::format::{push_signed, signed_decimal};
use crate::services::game_launcher::opt_view;
use crate::services::load_order_validator::{join_path, join_path_exec, listed};
use crate::text::{chars_of, contains, contains_str, lower_chars, lowercase, push_str, string_of, strs, trim, trimmed_str};

verus! {

/// One-shot status report for the diagnostics UI.
#[derive(Debug, Clone)]
pub struct Clf3Status {
    pub binary: Option<String>,
    pub version: Option<String>,
    pub has_api_key: bool,
    pub fluorine_binary: Option<String>,
}

/// The string stored under `key` in the JSON object `text`: `None` when the
/// text is not JSON, not an object, or holds no string there.
pub uninterp spec fn json_string_at(text: Seq<char>, key: Seq<char>) -> Option<Seq<char>>;

/// The `name` string of each element of the JSON array `text` (`None` for an
/// element without one): `None` when the text is not a JSON array.
pub uninterp spec fn json_array_names(text: Seq<char>) -> Option<Seq<Option<Seq<char>>>>;

/// `serde_json::from_str` to a `Value`, then `Value::get(key)` and
/// `Value::as_str`; the string found is handed out.
#[verifier::external_body]
fn string_at(text: &str, key: &str) -> (r: Option<String>)
    ensures
        match r {
            Some(s) => json_string_at(text@, key@) == Some(s@),
            None => json_string_at(text@, key@) is None,
        },
{
    serde_json::from_str::<serde_json::Value>(text).ok().and_then(
        |v| v.get(key).and_then(|s| s.as_str()).map(|s| s.to_string()),
    )
}

/// `serde_json::from_str` to a `Value`, then `Value::as_array`; each element
/// is handed out as the string under `name` (`Value::get`, `Value::as_str`),
/// if it has one.
#[verifier::external_body]
fn array_names(text: &str) -> (r: Option<Vec<Option<String>>>)
    ensures
        match r {
            Some(v) => json_array_names(text@) == Some(opt_strs(v@)),
            None => json_array_names(text@) is None,
        },
{
    serde_json::from_str::<serde_json::Value>(text).ok().and_then(
        |v| v.as_array().map(|a| a.iter().map(|g| g.get("name").and_then(|n| n.as_str()).map(|n| n.to_string())).collect()),
    )
}

/// Optional strings by their characters.
pub open spec fn opt_strs(v: Seq<Option<String>>) -> Seq<Option<Seq<char>>> {
    v.map_values(|o: Option<String>| opt_view(o))
}

/// Each name, or the empty name where there is none.
pub open spec fn names_or_empty(ns: Seq<Option<Seq<char>>>) -> Seq<Seq<char>> {
    ns.map_values(
        |o: Option<Seq<char>>|
            match o {
                Some(n) => n,
                None => Seq::<char>::empty(),
            },
    )
}

/// The vendor the first GPU whose name mentions one points to.
pub open spec fn vendor_of_names(names: Seq<Seq<char>>) -> Seq<char>
    decreases names.len(),
{
    if names.len() == 0 {
        "Unknown"@
    } else {
        let n = lowercase(names[0]);
        if contains(n, "nvidia"@) {
            "NVIDIA"@
        } else if contains(n, "amd"@) || contains(n, "radeon"@) {
            "AMD"@
        } else if contains(n, "intel"@) {
            "Intel"@
        } else {
            vendor_of_names(names.drop_first())
        }
    }
}

/// The vendor `clf3 list-gpu --json` reports; `Unknown` when it failed,
/// printed nothing, or printed no JSON array.
pub open spec fn gpu_vendor_of(output: Result<Seq<char>, Seq<char>>) -> Seq<char> {
    match output {
        Ok(out) => {
            let t = trim(out);
            if t.len() == 0 {
                "Unknown"@
            } else {
                match json_array_names(t) {
                    Some(names) => vendor_of_names(names_or_empty(names)),
                    None => "Unknown"@,
                }
            }
        },
        Err(_) => "Unknown"@,
    }
}

/// A result of strings by the strings' characters.
pub open spec fn result_view(r: Result<String, String>) -> Result<Seq<char>, Seq<char>> {
    match r {
        Ok(o) => Ok(o@),
        Err(e) => Err(e@),
    }
}

/// The `clf3` binary: the `$CLF3_BIN` override (trimmed) when it is a file,
/// else the one on `PATH`, else the first of the user's install places that
/// is a file (`files` lists those found).
pub open spec fn clf3_binary(env_override: Option<Seq<char>>, path_hit: Option<Seq<char>>, home: Seq<char>, files: Seq<Seq<char>>) -> Option<
    Seq<char>,
> {
    let a = join_path(join_path(join_path(home, ".local"@), "bin"@), "clf3"@);
    let b = join_path(join_path(join_path(join_path(home, ".local"@), "share"@), "clf3"@), "clf3"@);
    if env_override is Some && files.contains(trim(env_override->0)) {
        Some(trim(env_override->0))
    } else if path_hit is Some {
        path_hit
    } else if files.contains(a) {
        Some(a)
    } else if files.contains(b) {
        Some(b)
    } else {
        None
    }
}

/// The output of a `clf3` run: what it printed, or why it failed to start or
/// exited with an error (`outcome` holds success, exit code, stdout, stderr).
pub open spec fn run_output(command: Seq<char>, outcome: Result<(bool, Option<i32>, Seq<char>, Seq<char>), Seq<char>>) -> Result<
    Seq<char>,
    Seq<char>,
> {
    match outcome {
        Err(e) => Err("clf3 "@ + command + " failed to start: "@ + e),
        Ok((ok, code, out, err)) => if ok {
            Ok(out)
        } else {
            Err(
                "clf3 "@ + command + " exited "@ + signed_decimal(
                    match code {
                        Some(c) => c as int,
                        None => -1,
                    },
                ) + ": "@ + trim(err),
            )
        },
    }
}

pub struct Clf3;

impl Clf3 {
    /// The `clf3` binary, looked for in the documented order.
    pub fn find(env_override: Option<&str>, path_hit: Option<String>, home: &str, files: &[String]) -> (r: Option<String>)
        ensures
            opt_view(r) == clf3_binary(
                match env_override {
                    Some(e) => Some(e@),
                    None => None,
                },
                opt_view(path_hit),
                home@,
                strs(files@),
            ),
    {
        match env_override {
            Some(e) => {
                let t = trimmed_str(e);
                if listed(files, &t) {
                    return Some(string_of(&t));
                }
            },
            None => {},
        }
        if path_hit.is_some() {
            return path_hit;
        }
        let local = string_of(&join_path_exec(home, ".local"));
        let bin = string_of(&join_path_exec(local.as_str(), "bin"));
        let a = join_path_exec(bin.as_str(), "clf3");
        if listed(files, &a) {
            return Some(string_of(&a));
        }
        let share = string_of(&join_path_exec(local.as_str(), "share"));
        let dir = string_of(&join_path_exec(share.as_str(), "clf3"));
        let b = join_path_exec(dir.as_str(), "clf3");
        if listed(files, &b) {
            return Some(string_of(&b));
        }
        None
    }

    /// What a `clf3 <command>` run gives: its output, or the error report.
    pub fn run_result(command: &str, outcome: Result<(bool, Option<i32>, String, String), String>) -> (r: Result<String, String>)
        ensures
            match r {
                Ok(o) => run_output(
                    command@,
                    match outcome {
                        Ok(x) => Ok((x.0, x.1, x.2@, x.3@)),
                        Err(e) => Err(e@),
                    },
                ) == Ok::<Seq<char>, Seq<char>>(o@),
                Err(e) => run_output(
                    command@,
                    match outcome {
                        Ok(x) => Ok((x.0, x.1, x.2@, x.3@)),
                        Err(e) => Err(e@),
                    },
                ) == Err::<Seq<char>, Seq<char>>(e@),
            },
    {
        match outcome {
            Err(e) => {
                let mut m: Vec<char> = Vec::new();
                push_str(&mut m, "clf3 ");
                push_str(&mut m, command);
                push_str(&mut m, " failed to start: ");
                push_str(&mut m, e.as_str());
                Err(string_of(&m))
            },
            Ok((ok, code, out, err)) => {
                if ok {
                    Ok(out)
                } else {
                    let mut m: Vec<char> = Vec::new();
                    push_str(&mut m, "clf3 ");
                    push_str(&mut m, command);
                    push_str(&mut m, " exited ");
                    let c: i64 = match code {
                        Some(c) => c as i64,
                        None => -1,
                    };
                    push_signed(&mut m, c);
                    push_str(&mut m, ": ");
                    let t = trimmed_str(err.as_str());
                    crate::text::push_all(&mut m, &t);
                    Err(string_of(&m))
                }
            },
        }
    }

    /// The JSON a `clf3 <command> --json` run printed, trimmed, or the report
    /// that it printed nothing.
    pub fn json_output(command: &str, stdout: &str) -> (r: Result<String, String>)
        ensures
            trim(stdout@).len() == 0 ==> (r matches Err(e) && e@ == "clf3 "@ + command@ + " produced no JSON output"@),
            trim(stdout@).len() > 0 ==> (r matches Ok(t) && t@ == trim(stdout@)),
    {
        let t = trimmed_str(stdout);
        if t.len() == 0 {
            let mut m: Vec<char> = Vec::new();
            push_str(&mut m, "clf3 ");
            push_str(&mut m, command);
            push_str(&mut m, " produced no JSON output");
            return Err(string_of(&m));
        }
        Ok(string_of(&t))
    }

    /// Whether the `add_to_fluorine` setting must be changed: unless the
    /// saved value already is the wanted one.
    pub fn fluorine_toggle_needed(current: Option<bool>, enable: bool) -> (b: bool)
        ensures
            b == (current != Some(enable)),
    {
        match current {
            Some(c) => c != enable,
            None => true,
        }
    }

    /// The outcome of changing `add_to_fluorine`: the argument error of
    /// CLF3 0.1.0 is ignored (the install still registers the instance).
    pub fn fluorine_toggle_result(r: Result<String, String>) -> (o: Result<(), String>)
        ensures
            match r {
                Ok(_) => o is Ok,
                Err(e) => if contains(e@, "0 values required"@) {
                    o is Ok
                } else {
                    o matches Err(x) && x@ == e@
                },
            },
    {
        match r {
            Ok(_) => Ok(()),
            Err(e) => {
                if contains_str(&chars_of(e.as_str()), "0 values required") {
                    Ok(())
                } else {
                    Err(e)
                }
            },
        }
    }

    /// Whether an install sets the given Nexus key first (`true`), relies on
    /// the saved one (`false`), or is refused without any.
    pub fn install_key_step(nexus_key: &str, has_saved_key: bool) -> (r: Result<bool, String>)
        ensures
            nexus_key@.len() > 0 ==> r == Ok::<bool, String>(true),
            nexus_key@.len() == 0 && has_saved_key ==> r == Ok::<bool, String>(false),
            nexus_key@.len() == 0 && !has_saved_key ==> (r matches Err(e) && e@
                == "No Nexus API key supplied and CLF3 has none saved. Pass a key or run `clf3 set-api-key YOUR_KEY` first."@),
    {
        if !nexus_key.is_empty() {
            Ok(true)
        } else if has_saved_key {
            Ok(false)
        } else {
            Err("No Nexus API key supplied and CLF3 has none saved. Pass a key or run `clf3 set-api-key YOUR_KEY` first.".to_string())
        }
    }

    /// The `clf3` binary found, or why there is none.
    pub fn require(found: Option<String>) -> (r: Result<String, String>)
        ensures
            match found {
                Some(p) => r matches Ok(x) && x@ == p@,
                None => r matches Err(e) && e@ == "clf3 binary not found on $PATH, ~/.local/bin/, or via $CLF3_BIN. Install from https://github.com/SulfurNitride/CLF3/releases, or set $CLF3_BIN to a local build."@,
            },
    {
        match found {
            Some(p) => Ok(p),
            None => Err(
                "clf3 binary not found on $PATH, ~/.local/bin/, or via $CLF3_BIN. Install from https://github.com/SulfurNitride/CLF3/releases, or set $CLF3_BIN to a local build.".to_owned(),
            ),
        }
    }

    /// True when CLF3's settings (the text of `settings.json`, `None` when
    /// it cannot be read) hold a non-empty Nexus key.
    pub fn has_saved_api_key(settings: Option<&str>) -> (b: bool)
        ensures
            b == match settings {
                Some(t) => match json_string_at(t@, "nexus_api_key"@) {
                    Some(k) => k.len() > 0,
                    None => false,
                },
                None => false,
            },
    {
        match settings {
            Some(t) => match string_at(t, "nexus_api_key") {
                Some(k) => !k.as_str().is_empty(),
                None => false,
            },
            None => false,
        }
    }

    /// The `clf3` arguments that persist and validate a Nexus key; an empty
    /// key is refused.
    pub fn set_nexus_api_key(key: &str) -> (r: Result<Vec<String>, String>)
        ensures
            match r {
                Ok(args) => key@.len() > 0 && crate::text::strs(args@) == seq!["set-api-key"@, key@],
                Err(e) => key@.len() == 0 && e@ == "Nexus API key cannot be empty"@,
            },
    {
        if key.is_empty() {
            return Err("Nexus API key cannot be empty".to_owned());
        }
        let mut args: Vec<String> = Vec::new();
        args.push("set-api-key".to_owned());
        args.push(key.to_owned());
        assert(crate::text::strs(args@) =~= seq!["set-api-key"@, key@]);
        Ok(args)
    }

    /// Derive the vendor ("NVIDIA"/"AMD"/"Intel"/"Unknown") from the output
    /// of `clf3 list-gpu --json` (or the error running it).
    pub fn gpu_vendor(list_gpu_output: Result<String, String>) -> (r: String)
        ensures
            r@ == gpu_vendor_of(result_view(list_gpu_output)),
    {
        let ghost target = gpu_vendor_of(result_view(list_gpu_output));
        let out = match &list_gpu_output {
            Ok(o) => o,
            Err(_) => return "Unknown".to_owned(),
        };
        let t = trimmed_str(out.as_str());
        if t.len() == 0 {
            return "Unknown".to_owned();
        }
        let ts = string_of(&t);
        let names = match array_names(ts.as_str()) {
            Some(n) => n,
            None => return "Unknown".to_owned(),
        };
        let ghost ns = names_or_empty(opt_strs(names@));
        let mut i: usize = 0;
        assert(ns.skip(0) =~= ns);
        while i < names.len()
            invariant
                i <= names@.len(),
                ns == names_or_empty(opt_strs(names@)),
                vendor_of_names(ns) == vendor_of_names(ns.skip(i as int)),
                target == vendor_of_names(ns),
                target == gpu_vendor_of(result_view(list_gpu_output)),
            decreases names@.len() - i,
        {
            assert(ns.skip(i as int).drop_first() =~= ns.skip(i + 1));
            let c = match &names[i] {
                Some(name) => chars_of(name.as_str()),
                None => Vec::new(),
            };
            assert(c@ == ns.skip(i as int)[0]);
            let n = lower_chars(&c);
            assert(n@ == lowercase(ns.skip(i as int)[0]));
            if contains_str(&n, "nvidia") {
                assert(vendor_of_names(ns.skip(i as int)) == "NVIDIA"@);
                return "NVIDIA".to_owned();
            }
            if contains_str(&n, "amd") || contains_str(&n, "radeon") {
                assert(vendor_of_names(ns.skip(i as int)) == "AMD"@);
                return "AMD".to_owned();
            }
            if contains_str(&n, "intel") {
                assert(vendor_of_names(ns.skip(i as int)) == "Intel"@);
                return "Intel".to_owned();
            }
            i += 1;
        }
        assert(ns.skip(i as int) =~= Seq::<Seq<char>>::empty());
        "Unknown".to_owned()
    }
}

} // verus!
