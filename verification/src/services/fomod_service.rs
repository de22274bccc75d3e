//! FOMOD installer configuration: turning `ModuleConfig.xml` into wizard steps.
use vstd::prelude::*;
use crate::string_map::lookup;
use crate::text::{chars_of, contains, contains_str, eq_str, lower_chars, lowercase, push_all, string_of, trim, trimmed};
use crate::format::{decimal, push_decimal};

verus! {

/// How many plugins of a group may be chosen.
#[derive(Debug, Clone, Copy, PartialEq, Eq, Structural)]
pub enum GroupType {
    SelectExactlyOne,
    SelectAny,
}

/// A file or folder a plugin installs.
#[derive(Debug, Clone)]
pub struct FileSpec {
    pub source: String,
    pub destination: String,
    pub file_type: String,
}

/// One selectable option.
#[derive(Debug, Clone)]
pub struct Plugin {
    pub name: String,
    pub description: String,
    pub files: Vec<FileSpec>,
    /// Relative path (from the FOMOD root) to this plugin's preview image, if any.
    pub image: Option<String>,
}

/// A group of options within a step.
#[derive(Debug, Clone)]
pub struct Group {
    pub name: String,
    pub group_type: GroupType,
    pub plugins: Vec<Plugin>,
}

/// One wizard page.
#[derive(Debug, Clone)]
pub struct InstallStep {
    pub name: String,
    pub groups: Vec<Group>,
    pub special_type: Option<String>,
}

/// The plugins chosen in one group.
#[derive(Debug, Clone)]
pub struct Selection {
    pub step_index: usize,
    pub group_index: usize,
    pub plugin_indices: Vec<usize>,
}

/// The XML events the configuration parser reads.
#[derive(Debug, Clone)]
pub enum XmlEvent {
    /// An opening tag: local name and (local name, value) attributes.
    Start { name: String, attributes: Vec<(String, String)> },
    /// Character data.
    Text(String),
    /// A closing tag's local name.
    End { name: String },
    /// Any other event (declarations, comments, whitespace, ...).
    Other,
}

pub ghost enum XmlEventView {
    Start { name: Seq<char>, attributes: Seq<(Seq<char>, Seq<char>)> },
    Text(Seq<char>),
    End { name: Seq<char> },
    Other,
}

impl View for XmlEvent {
    type V = XmlEventView;

    open spec fn view(&self) -> XmlEventView {
        match self {
            XmlEvent::Start { name, attributes } => XmlEventView::Start {
                name: name@,
                attributes: attributes@.map_values(|a: (String, String)| (a.0@, a.1@)),
            },
            XmlEvent::Text(t) => XmlEventView::Text(t@),
            XmlEvent::End { name } => XmlEventView::End { name: name@ },
            XmlEvent::Other => XmlEventView::Other,
        }
    }
}

pub ghost struct FileSpecView {
    pub source: Seq<char>,
    pub destination: Seq<char>,
    pub file_type: Seq<char>,
}

pub ghost struct PluginView {
    pub name: Seq<char>,
    pub description: Seq<char>,
    pub files: Seq<FileSpecView>,
    pub image: Option<Seq<char>>,
}

pub ghost struct GroupView {
    pub name: Seq<char>,
    pub group_type: GroupType,
    pub plugins: Seq<PluginView>,
}

pub ghost struct StepView {
    pub name: Seq<char>,
    pub groups: Seq<GroupView>,
    pub special_type: Option<Seq<char>>,
}

impl View for FileSpec {
    type V = FileSpecView;

    open spec fn view(&self) -> FileSpecView {
        FileSpecView { source: self.source@, destination: self.destination@, file_type: self.file_type@ }
    }
}

impl View for Plugin {
    type V = PluginView;

    open spec fn view(&self) -> PluginView {
        PluginView {
            name: self.name@,
            description: self.description@,
            files: self.files@.map_values(|f: FileSpec| f@),
            image: match self.image {
                Some(i) => Some(i@),
                None => None,
            },
        }
    }
}

impl View for Group {
    type V = GroupView;

    open spec fn view(&self) -> GroupView {
        GroupView {
            name: self.name@,
            group_type: self.group_type,
            plugins: self.plugins@.map_values(|p: Plugin| p@),
        }
    }
}

impl View for InstallStep {
    type V = StepView;

    open spec fn view(&self) -> StepView {
        StepView {
            name: self.name@,
            groups: self.groups@.map_values(|g: Group| g@),
            special_type: match self.special_type {
                Some(s) => Some(s@),
                None => None,
            },
        }
    }
}

/// What `xml-rs` reports for a document: its events, or the error's text.
pub uninterp spec fn xml_parse(content: Seq<char>) -> Result<Seq<XmlEventView>, Seq<char>>;

/// The events of an XML document, read with `xml::reader::EventReader` and
/// converted one for one; `Err` carries the text of the reader's first error.
#[verifier::external_body]
fn xml_events(content: &str) -> (r: Result<Vec<XmlEvent>, String>)
    ensures
        match r {
            Ok(evs) => xml_parse(content@) == Ok::<Seq<XmlEventView>, Seq<char>>(evs@.map_values(|e: XmlEvent| e@)),
            Err(e) => xml_parse(content@) == Err::<Seq<XmlEventView>, Seq<char>>(e@),
        },
{
    let mut out = Vec::new();
    for ev in xml::reader::EventReader::new(content.as_bytes()) {
        match ev.map_err(|e| e.to_string())? {
            xml::reader::XmlEvent::StartElement { name, attributes, .. } => out.push(XmlEvent::Start {
                name: name.local_name,
                attributes: attributes.into_iter().map(|a| (a.name.local_name, a.value)).collect(),
            }),
            xml::reader::XmlEvent::EndElement { name } => out.push(XmlEvent::End { name: name.local_name }),
            xml::reader::XmlEvent::Characters(t) => out.push(XmlEvent::Text(t)),
            _ => out.push(XmlEvent::Other),
        }
    }
    Ok(out)
}

/// Steps whose (lower-case) name mentions one of these are detected
/// automatically and never shown.
pub open spec fn skip_step(name_lower: Seq<char>) -> bool {
    ||| contains(name_lower, "gpu"@)
    ||| contains(name_lower, "graphics"@)
    ||| contains(name_lower, "resolution"@)
    ||| contains(name_lower, "screen"@)
    ||| contains(name_lower, "video card"@)
    ||| contains(name_lower, "welcome"@)
}

/// Parser state: finished steps and the step, group, plugin and text in progress.
pub ghost struct ParseState {
    pub steps: Seq<StepView>,
    pub step: Option<StepView>,
    pub group: Option<GroupView>,
    pub plugin: Option<PluginView>,
    pub text: Seq<char>,
}

/// The value of attribute `n`, or the empty string.
pub open spec fn attr_or_empty(attrs: Seq<(Seq<char>, Seq<char>)>, n: Seq<char>) -> Seq<char> {
    match lookup(attrs, n) {
        Some(v) => v,
        None => seq![],
    }
}

/// The state after an opening tag.
pub open spec fn on_start(st: ParseState, name: Seq<char>, attrs: Seq<(Seq<char>, Seq<char>)>) -> ParseState {
    let st = ParseState { text: seq![], ..st };
    if name == "installStep"@ {
        let sname = attr_or_empty(attrs, "name"@);
        if !skip_step(lowercase(sname)) {
            ParseState { step: Some(StepView { name: sname, groups: seq![], special_type: None }), ..st }
        } else {
            st
        }
    } else if name == "group"@ {
        if st.step is Some {
            let gtype = match lookup(attrs, "type"@) {
                Some(t) => if t == "SelectAny"@ { GroupType::SelectAny } else { GroupType::SelectExactlyOne },
                None => GroupType::SelectExactlyOne,
            };
            ParseState {
                group: Some(GroupView { name: attr_or_empty(attrs, "name"@), group_type: gtype, plugins: seq![] }),
                ..st
            }
        } else {
            st
        }
    } else if name == "plugin"@ {
        if st.group is Some {
            ParseState {
                plugin: Some(PluginView { name: attr_or_empty(attrs, "name"@), description: seq![], files: seq![], image: None }),
                ..st
            }
        } else {
            st
        }
    } else if name == "image"@ {
        match st.plugin {
            Some(p) => match lookup(attrs, "path"@) {
                Some(path) => if path.len() > 0 {
                    ParseState { plugin: Some(PluginView { image: Some(path), ..p }), ..st }
                } else {
                    st
                },
                None => st,
            },
            None => st,
        }
    } else if name == "folder"@ || name == "file"@ {
        match st.plugin {
            Some(p) => {
                let source = attr_or_empty(attrs, "source"@);
                if source.len() > 0 {
                    let f = FileSpecView {
                        source,
                        destination: attr_or_empty(attrs, "destination"@),
                        file_type: if name == "folder"@ { "folder"@ } else { "file"@ },
                    };
                    ParseState { plugin: Some(PluginView { files: p.files.push(f), ..p }), ..st }
                } else {
                    st
                }
            },
            None => st,
        }
    } else {
        st
    }
}

/// The state after a closing tag.
pub open spec fn on_end(st: ParseState, name: Seq<char>) -> ParseState {
    let st2 = if name == "description"@ {
        match st.plugin {
            Some(p) => ParseState { plugin: Some(PluginView { description: trim(st.text), ..p }), ..st },
            None => st,
        }
    } else if name == "plugin"@ {
        match st.plugin {
            Some(p) => ParseState {
                plugin: None,
                group: match st.group {
                    Some(g) => Some(GroupView { plugins: g.plugins.push(p), ..g }),
                    None => None,
                },
                ..st
            },
            None => st,
        }
    } else if name == "group"@ {
        match st.group {
            Some(g) => ParseState {
                group: None,
                step: match st.step {
                    Some(s) => if g.plugins.len() > 0 {
                        Some(StepView { groups: s.groups.push(g), ..s })
                    } else {
                        Some(s)
                    },
                    None => None,
                },
                ..st
            },
            None => st,
        }
    } else if name == "installStep"@ {
        match st.step {
            Some(s) => ParseState {
                step: None,
                steps: if s.groups.len() > 0 { st.steps.push(s) } else { st.steps },
                ..st
            },
            None => st,
        }
    } else {
        st
    };
    ParseState { text: seq![], ..st2 }
}

/// The state after one event.
pub open spec fn on_event(st: ParseState, ev: XmlEventView) -> ParseState {
    match ev {
        XmlEventView::Start { name, attributes } => on_start(st, name, attributes),
        XmlEventView::Text(t) => ParseState { text: st.text + t, ..st },
        XmlEventView::End { name } => on_end(st, name),
        XmlEventView::Other => st,
    }
}

/// The state after a sequence of events.
pub open spec fn run_events(evs: Seq<XmlEventView>) -> ParseState
    decreases evs.len(),
{
    if evs.len() == 0 {
        ParseState { steps: seq![], step: None, group: None, plugin: None, text: seq![] }
    } else {
        on_event(run_events(evs.drop_last()), evs.last())
    }
}

/// The parser state held by the executable variables.
pub open spec fn state_of(
    steps: Seq<InstallStep>,
    step: Option<InstallStep>,
    group: Option<Group>,
    plugin: Option<Plugin>,
    text: Seq<char>,
) -> ParseState {
    ParseState {
        steps: step_views(steps),
        step: match step {
            Some(s) => Some(s@),
            None => None,
        },
        group: match group {
            Some(g) => Some(g@),
            None => None,
        },
        plugin: match plugin {
            Some(p) => Some(p@),
            None => None,
        },
        text,
    }
}

/// The wizard steps a configuration document yields.
pub open spec fn steps_of_events(evs: Seq<XmlEventView>) -> Seq<StepView> {
    run_events(evs).steps
}

proof fn lemma_run_push(evs: Seq<XmlEventView>, e: XmlEventView)
    ensures
        run_events(evs.push(e)) == on_event(run_events(evs), e),
{
    assert(evs.push(e).drop_last() =~= evs);
}

/// A `<file>` element inside a plugin is installed with it: after
/// `<file source=.. destination=..></file></files></plugin>`, the plugin
/// that was open (in an open group) is closed into that group with the file
/// appended to its files as a `file` entry, when the source is not empty.
pub proof fn law_file_element_kept(
    prefix: Seq<XmlEventView>,
    attrs: Seq<(Seq<char>, Seq<char>)>,
    source: Seq<char>,
    destination: Seq<char>,
)
    requires
        run_events(prefix).plugin is Some,
        run_events(prefix).group is Some,
        lookup(attrs, "source"@) == Some(source),
        source.len() > 0,
        destination == match lookup(attrs, "destination"@) {
            Some(d) => d,
            None => Seq::<char>::empty(),
        },
    ensures
        ({
            let p = run_events(prefix).plugin->0;
            let g = run_events(prefix).group->0;
            let evs = prefix.push(XmlEventView::Start { name: "file"@, attributes: attrs }).push(
                XmlEventView::End { name: "file"@ },
            ).push(XmlEventView::End { name: "files"@ }).push(XmlEventView::End { name: "plugin"@ });
            let after = run_events(evs);
            &&& after.plugin is None
            &&& after.group matches Some(g2)
            &&& g2.plugins.len() == g.plugins.len() + 1
            &&& g2.plugins.take(g.plugins.len() as int) == g.plugins
            &&& g2.plugins.last().name == p.name
            &&& g2.plugins.last().files == p.files.push(
                FileSpecView { source: source, destination: destination, file_type: "file"@ },
            )
        }),
{
    reveal_strlit("file");
    reveal_strlit("files");
    reveal_strlit("plugin");
    reveal_strlit("folder");
    reveal_strlit("installStep");
    reveal_strlit("group");
    reveal_strlit("image");
    reveal_strlit("description");
    let e1 = XmlEventView::Start { name: "file"@, attributes: attrs };
    let e2 = XmlEventView::End { name: "file"@ };
    let e3 = XmlEventView::End { name: "files"@ };
    let e4 = XmlEventView::End { name: "plugin"@ };
    let a = prefix.push(e1);
    let b = a.push(e2);
    let c = b.push(e3);
    lemma_run_push(prefix, e1);
    lemma_run_push(a, e2);
    lemma_run_push(b, e3);
    lemma_run_push(c, e4);
    let st0 = run_events(prefix);
    let p = st0.plugin->0;
    let g = st0.group->0;
    let f = FileSpecView { source: source, destination: destination, file_type: "file"@ };
    assert("file"@.len() != "installStep"@.len() && "file"@.len() != "group"@.len() && "file"@.len() != "plugin"@.len()
        && "file"@.len() != "image"@.len());
    assert("file"@ != "folder"@);
    assert(attr_or_empty(attrs, "source"@) == source);
    let p1 = PluginView { files: p.files.push(f), ..p };
    let st1 = run_events(a);
    assert(st1.plugin == Some(p1));
    assert(st1.group == Some(g));
    assert("file"@ != "description"@);
    let st2 = run_events(b);
    assert(st2.plugin == Some(p1) && st2.group == Some(g));
    assert("files"@.len() != "description"@.len() && "files"@.len() != "plugin"@.len() && "files"@.len()
        != "installStep"@.len());
    assert("files"@[0] != "group"@[0]);
    let st3 = run_events(c);
    assert(st3.plugin == Some(p1) && st3.group == Some(g));
    assert("plugin"@ != "description"@);
    let st4 = run_events(c.push(e4));
    assert(st4.group == Some(GroupView { plugins: g.plugins.push(p1), ..g }));
    let g2 = st4.group->0;
    assert(g2.plugins.take(g.plugins.len() as int) =~= g.plugins);
}

/// The views of a list of steps.
pub open spec fn step_views(v: Seq<InstallStep>) -> Seq<StepView> {
    v.map_values(|s: InstallStep| s@)
}

/// A step shown in the wizard: its lower-case name mentions neither a
/// welcome page, a final page nor installation completion.
pub open spec fn wizard_step(name: Seq<char>) -> bool {
    let l = lowercase(name);
    !contains(l, "welcome"@) && !contains(l, "final"@) && !contains(l, "installation complete"@)
}

/// Whether every selection's indices are within bounds.
pub open spec fn selection_ok(steps: Seq<StepView>, sel: Selection) -> bool {
    &&& sel.step_index < steps.len()
    &&& sel.group_index < steps[sel.step_index as int].groups.len()
    &&& forall|k: int|
        0 <= k < sel.plugin_indices@.len() ==> #[trigger] sel.plugin_indices@[k] < steps[sel.step_index as int].groups[sel.group_index as int].plugins.len()
}

/// The first plugin index of `ps` that is not below `n`.
pub open spec fn first_bad_plugin(ps: Seq<usize>, n: nat) -> Option<usize>
    decreases ps.len(),
{
    if ps.len() == 0 {
        None
    } else if ps[0] >= n {
        Some(ps[0])
    } else {
        first_bad_plugin(ps.drop_first(), n)
    }
}

/// Why one selection is out of range, in the words the installer uses.
pub open spec fn selection_error(steps: Seq<StepView>, sel: Selection) -> Option<Seq<char>> {
    let si = decimal(sel.step_index as nat);
    let gi = decimal(sel.group_index as nat);
    if sel.step_index >= steps.len() {
        Some("Invalid step index: "@ + si)
    } else if sel.group_index >= steps[sel.step_index as int].groups.len() {
        Some("Invalid group index in step "@ + si + ": "@ + gi)
    } else {
        match first_bad_plugin(
            sel.plugin_indices@,
            steps[sel.step_index as int].groups[sel.group_index as int].plugins.len(),
        ) {
            Some(p) => Some("Invalid plugin index in step "@ + si + ", group "@ + gi + ": "@ + decimal(p as nat)),
            None => None,
        }
    }
}

/// The error of the first selection that is out of range.
pub open spec fn selections_error(steps: Seq<StepView>, sels: Seq<Selection>) -> Option<Seq<char>>
    decreases sels.len(),
{
    if sels.len() == 0 {
        None
    } else {
        match selection_error(steps, sels[0]) {
            Some(e) => Some(e),
            None => selections_error(steps, sels.drop_first()),
        }
    }
}

proof fn lemma_first_bad_plugin(ps: Seq<usize>, n: nat)
    ensures
        first_bad_plugin(ps, n) is None <==> forall|k: int| 0 <= k < ps.len() ==> #[trigger] ps[k] < n,
    decreases ps.len(),
{
    if ps.len() > 0 {
        lemma_first_bad_plugin(ps.drop_first(), n);
        if first_bad_plugin(ps, n) is None {
            assert forall|k: int| 0 <= k < ps.len() implies #[trigger] ps[k] < n by {
                if k > 0 {
                    assert(ps.drop_first()[k - 1] == ps[k]);
                }
            }
        }
        if forall|k: int| 0 <= k < ps.len() ==> #[trigger] ps[k] < n {
            assert forall|k: int| 0 <= k < ps.drop_first().len() implies #[trigger] ps.drop_first()[k] < n by {
                assert(ps[k + 1] == ps.drop_first()[k]);
            }
        }
    }
}

/// A selection has no error exactly when it is in range.
pub proof fn lemma_selection_error(steps: Seq<StepView>, sel: Selection)
    ensures
        selection_error(steps, sel) is None <==> selection_ok(steps, sel),
{
    if sel.step_index < steps.len() && sel.group_index < steps[sel.step_index as int].groups.len() {
        lemma_first_bad_plugin(
            sel.plugin_indices@,
            steps[sel.step_index as int].groups[sel.group_index as int].plugins.len(),
        );
    }
}

proof fn lemma_selections_error(steps: Seq<StepView>, sels: Seq<Selection>)
    ensures
        selections_error(steps, sels) is None <==> forall|i: int| 0 <= i < sels.len() ==> selection_ok(steps, #[trigger] sels[i]),
    decreases sels.len(),
{
    if sels.len() > 0 {
        lemma_selections_error(steps, sels.drop_first());
        lemma_selection_error(steps, sels[0]);
        assert forall|i: int| 0 < i < sels.len() implies #[trigger] sels[i] == sels.drop_first()[i - 1] by {}
        if forall|i: int| 0 <= i < sels.len() ==> selection_ok(steps, #[trigger] sels[i]) {
            assert forall|i: int| 0 <= i < sels.drop_first().len() implies selection_ok(steps, #[trigger] sels.drop_first()[i]) by {
                assert(sels[i + 1] == sels.drop_first()[i]);
            }
        }
        if selections_error(steps, sels) is None {
            assert forall|i: int| 0 <= i < sels.len() implies selection_ok(steps, #[trigger] sels[i]) by {
                if i > 0 {
                    assert(sels[i] == sels.drop_first()[i - 1]);
                }
            }
        }
    }
}

/// Two lists of selections with the same indices have the same error.
pub(crate) proof fn lemma_selections_error_same(steps: Seq<StepView>, a: Seq<Selection>, b: Seq<Selection>)
    requires
        a.len() == b.len(),
        forall|i: int|
            0 <= i < a.len() ==> (#[trigger] a[i]).step_index == b[i].step_index && a[i].group_index == b[i].group_index
                && a[i].plugin_indices@ == b[i].plugin_indices@,
    ensures
        selections_error(steps, a) == selections_error(steps, b),
    decreases a.len(),
{
    if a.len() > 0 {
        assert(a[0].step_index == b[0].step_index);
        lemma_selections_error_same(steps, a.drop_first(), b.drop_first());
    }
}

/// Attribute `n` of an attribute list, as its first occurrence.
fn find_attr(attrs: &Vec<(String, String)>, n: &str) -> (r: Option<String>)
    ensures
        match r {
            Some(v) => lookup(attrs@.map_values(|a: (String, String)| (a.0@, a.1@)), n@) == Some(v@),
            None => lookup(attrs@.map_values(|a: (String, String)| (a.0@, a.1@)), n@) is None,
        },
{
    let ghost av = attrs@.map_values(|a: (String, String)| (a.0@, a.1@));
    let nc = chars_of(n);
    let mut i: usize = 0;
    assert(av.skip(0) =~= av);
    while i < attrs.len()
        invariant
            i <= attrs@.len(),
            av == attrs@.map_values(|a: (String, String)| (a.0@, a.1@)),
            nc@ == n@,
            lookup(av, n@) == lookup(av.skip(i as int), n@),
        decreases attrs@.len() - i,
    {
        let k = chars_of(attrs[i].0.as_str());
        proof {
            assert(av.skip(i as int).drop_first() =~= av.skip(i + 1));
            assert(av.skip(i as int)[0] == av[i as int]);
        }
        if crate::text::eq_chars(&k, &nc) {
            return Some(attrs[i].1.clone());
        }
        i += 1;
    }
    assert(av.skip(i as int).len() == 0);
    None
}

/// Attribute `n`, or the empty string.
fn attr_str(attrs: &Vec<(String, String)>, n: &str) -> (r: String)
    ensures
        r@ == attr_or_empty(attrs@.map_values(|a: (String, String)| (a.0@, a.1@)), n@),
{
    match find_attr(attrs, n) {
        Some(v) => v,
        None => String::new(),
    }
}

pub struct FomodService;

impl FomodService {
    /// Whether a step (lower-case name) is detected automatically and skipped.
    pub fn should_skip_step(name_lower: &str) -> (b: bool)
        ensures
            b == skip_step(name_lower@),
    {
        let n = chars_of(name_lower);
        contains_str(&n, "gpu") || contains_str(&n, "graphics") || contains_str(&n, "resolution")
            || contains_str(&n, "screen") || contains_str(&n, "video card") || contains_str(&n, "welcome")
    }

    /// The wizard steps of a configuration document's events.
    pub fn steps_from_events(events: &Vec<XmlEvent>) -> (r: Vec<InstallStep>)
        ensures
            step_views(r@) == steps_of_events(events@.map_values(|e: XmlEvent| e@)),
    {
        let ghost evs = events@.map_values(|e: XmlEvent| e@);
        let mut steps: Vec<InstallStep> = Vec::new();
        let mut step: Option<InstallStep> = None;
        let mut group: Option<Group> = None;
        let mut plugin: Option<Plugin> = None;
        let mut text: Vec<char> = Vec::new();
        let mut i: usize = 0;
        assert(evs.take(0) =~= Seq::<XmlEventView>::empty());
        assert(step_views(steps@) =~= Seq::<StepView>::empty());
        assert(text@ =~= Seq::<char>::empty());
        while i < events.len()
            invariant
                i <= events@.len(),
                evs == events@.map_values(|e: XmlEvent| e@),
                run_events(evs.take(i as int)) == state_of(steps@, step, group, plugin, text@),
            decreases events@.len() - i,
        {
            proof {
                assert(evs.take(i + 1).drop_last() =~= evs.take(i as int));
                assert(evs.take(i + 1).last() == events@[i as int]@);
            }
            let ghost st0 = state_of(steps@, step, group, plugin, text@);
            let ghost ev = events@[i as int]@;
            match &events[i] {
                XmlEvent::Start { name, attributes } => {
                    text = Vec::new();
                    let nm = chars_of(name.as_str());
                    if eq_str(&nm, "installStep") {
                        let sname = attr_str(attributes, "name");
                        let lower = lower_chars(&chars_of(sname.as_str()));
                        if !Self::should_skip_step(string_of(&lower).as_str()) {
                            step = Some(InstallStep { name: sname, groups: Vec::new(), special_type: None });
                            assert(step->0@.groups =~= Seq::<GroupView>::empty());
                        }
                        assert(state_of(steps@, step, group, plugin, seq![]) == on_event(st0, ev));
                    } else if eq_str(&nm, "group") {
                        if step.is_some() {
                            let gname = attr_str(attributes, "name");
                            let gtype = match find_attr(attributes, "type") {
                                Some(t) => if eq_str(&chars_of(t.as_str()), "SelectAny") {
                                    GroupType::SelectAny
                                } else {
                                    GroupType::SelectExactlyOne
                                },
                                None => GroupType::SelectExactlyOne,
                            };
                            group = Some(Group { name: gname, group_type: gtype, plugins: Vec::new() });
                            assert(group->0@.plugins =~= Seq::<PluginView>::empty());
                        }
                        assert(state_of(steps@, step, group, plugin, seq![]) == on_event(st0, ev));
                    } else if eq_str(&nm, "plugin") {
                        if group.is_some() {
                            let pname = attr_str(attributes, "name");
                            plugin = Some(Plugin { name: pname, description: String::new(), files: Vec::new(), image: None });
                            assert(plugin->0@.files =~= Seq::<FileSpecView>::empty());
                        }
                        assert(state_of(steps@, step, group, plugin, seq![]) == on_event(st0, ev));
                    } else if eq_str(&nm, "image") {
                        plugin = match plugin {
                            Some(mut p) => {
                                match find_attr(attributes, "path") {
                                    Some(path) => {
                                        if path.as_str().is_empty() {
                                        } else {
                                            p.image = Some(path);
                                        }
                                    },
                                    None => {},
                                }
                                Some(p)
                            },
                            None => None,
                        };
                        assert(state_of(steps@, step, group, plugin, seq![]) == on_event(st0, ev));
                    } else if eq_str(&nm, "folder") || eq_str(&nm, "file") {
                        let is_folder = eq_str(&nm, "folder");
                        plugin = match plugin {
                            Some(mut p) => {
                                let source = attr_str(attributes, "source");
                                if !source.as_str().is_empty() {
                                    let destination = attr_str(attributes, "destination");
                                    let ghost files0 = p.files@;
                                    p.files.push(FileSpec {
                                        source,
                                        destination,
                                        file_type: if is_folder { "folder".to_owned() } else { "file".to_owned() },
                                    });
                                    assert(p.files@.map_values(|f: FileSpec| f@) =~= files0.map_values(|f: FileSpec| f@).push(p.files@.last()@));
                                }
                                Some(p)
                            },
                            None => None,
                        };
                        assert(state_of(steps@, step, group, plugin, seq![]) == on_event(st0, ev));
                    }
                    assert(text@ =~= Seq::<char>::empty());
                    assert(state_of(steps@, step, group, plugin, text@) == on_event(st0, ev));
                },
                XmlEvent::Text(t) => {
                    push_str_to(&mut text, t.as_str());
                    assert(state_of(steps@, step, group, plugin, text@) == on_event(st0, ev));
                },
                XmlEvent::End { name } => {
                    let nm = chars_of(name.as_str());
                    if eq_str(&nm, "description") {
                        plugin = match plugin {
                            Some(mut p) => {
                                p.description = string_of(&trimmed(&text));
                                Some(p)
                            },
                            None => None,
                        };
                    } else if eq_str(&nm, "plugin") {
                        match plugin.take() {
                            Some(p) => {
                                group = match group {
                                    Some(mut g) => {
                                        let ghost ps0 = g.plugins@;
                                        g.plugins.push(p);
                                        assert(g.plugins@.map_values(|q: Plugin| q@) =~= ps0.map_values(|q: Plugin| q@).push(g.plugins@.last()@));
                                        Some(g)
                                    },
                                    None => None,
                                };
                            },
                            None => {},
                        }
                    } else if eq_str(&nm, "group") {
                        match group.take() {
                            Some(g) => {
                                step = match step {
                                    Some(mut s) => {
                                        if g.plugins.len() > 0 {
                                            let ghost gs0 = s.groups@;
                                            s.groups.push(g);
                                            assert(s.groups@.map_values(|q: Group| q@) =~= gs0.map_values(|q: Group| q@).push(s.groups@.last()@));
                                        }
                                        Some(s)
                                    },
                                    None => None,
                                };
                            },
                            None => {},
                        }
                    } else if eq_str(&nm, "installStep") {
                        match step.take() {
                            Some(s) => {
                                if s.groups.len() > 0 {
                                    let ghost ss0 = steps@;
                                    steps.push(s);
                                    assert(step_views(steps@) =~= step_views(ss0).push(steps@.last()@));
                                }
                            },
                            None => {},
                        }
                    }
                    text = Vec::new();
                    assert(text@ =~= Seq::<char>::empty());
                    assert(state_of(steps@, step, group, plugin, text@) == on_event(st0, ev));
                },
                XmlEvent::Other => {},
            }
            assert(state_of(steps@, step, group, plugin, text@) == on_event(st0, ev));
            i += 1;
        }
        assert(evs.take(events@.len() as int) =~= evs);
        steps
    }

    /// Parse a `ModuleConfig.xml` document into wizard steps.
    pub fn parse_xml(xml_content: &str) -> (r: Result<Vec<InstallStep>, String>)
        ensures
            match xml_parse(xml_content@) {
                Ok(evs) => r matches Ok(steps) && step_views(steps@) == steps_of_events(evs),
                Err(e) => r matches Err(m) && m@ == "XML parse error: "@ + e,
            },
    {
        match xml_events(xml_content) {
            Ok(evs) => Ok(Self::steps_from_events(&evs)),
            Err(e) => {
                let mut m = chars_of("XML parse error: ");
                push_all(&mut m, &chars_of(e.as_str()));
                Err(string_of(&m))
            },
        }
    }

    /// The steps the wizard shows (no welcome or final pages), with their
    /// positions among all steps.
    pub fn get_wizard_steps(all_steps: &[InstallStep]) -> (r: Vec<(usize, &InstallStep)>)
        ensures
            forall|k: int| 0 <= k < r@.len() ==> #[trigger] r@[k].0 < all_steps@.len() && r@[k].1 == all_steps@[r@[k].0 as int]
                && wizard_step(all_steps@[r@[k].0 as int].name@),
            forall|k: int, m: int| 0 <= k < m < r@.len() ==> r@[k].0 < r@[m].0,
            forall|j: int| 0 <= j < all_steps@.len() && wizard_step(#[trigger] all_steps@[j].name@) ==> exists|k: int| 0 <= k < r@.len() && r@[k].0 == j,
    {
        let mut r: Vec<(usize, &InstallStep)> = Vec::new();
        let mut i: usize = 0;
        while i < all_steps.len()
            invariant
                i <= all_steps@.len(),
                forall|k: int| 0 <= k < r@.len() ==> #[trigger] r@[k].0 < i && r@[k].1 == all_steps@[r@[k].0 as int]
                    && wizard_step(all_steps@[r@[k].0 as int].name@),
                forall|k: int, m: int| 0 <= k < m < r@.len() ==> r@[k].0 < r@[m].0,
                forall|j: int| 0 <= j < i && wizard_step(#[trigger] all_steps@[j].name@) ==> exists|k: int| 0 <= k < r@.len() && r@[k].0 == j,
            decreases all_steps@.len() - i,
        {
            let step = &all_steps[i];
            let l = lower_chars(&chars_of(step.name.as_str()));
            if !contains_str(&l, "welcome") && !contains_str(&l, "final") && !contains_str(&l, "installation complete") {
                let ghost r0 = r@;
                r.push((i, step));
                assert(r@[r0.len() as int].0 == i);
                assert forall|j: int| 0 <= j < i + 1 && wizard_step(#[trigger] all_steps@[j].name@) implies exists|k: int| 0 <= k < r@.len() && r@[k].0 == j by {
                    if j < i {
                        let k = choose|k: int| 0 <= k < r0.len() && r0[k].0 == j;
                        assert(r@[k] == r0[k]);
                    } else {
                        assert(r@[r0.len() as int].0 == j);
                    }
                }
            } else {
                assert(!wizard_step(all_steps@[i as int].name@));
            }
            i += 1;
        }
        r
    }

    /// Checks that every selection's step, group and plugin indices are in
    /// bounds; the error names the first index out of range.
    pub fn validate_selections(steps: &[InstallStep], selections: &[Selection]) -> (r: Result<(), String>)
        ensures
            r is Ok <==> forall|i: int| 0 <= i < selections@.len() ==> selection_ok(step_views(steps@), #[trigger] selections@[i]),
            match r {
                Ok(_) => selections_error(step_views(steps@), selections@) is None,
                Err(e) => selections_error(step_views(steps@), selections@) == Some(e@),
            },
    {
        let ghost sv = step_views(steps@);
        proof {
            lemma_selections_error(sv, selections@);
        }
        let mut i: usize = 0;
        assert(selections@.skip(0) =~= selections@);
        while i < selections.len()
            invariant
                i <= selections@.len(),
                sv == step_views(steps@),
                selections_error(sv, selections@) == selections_error(sv, selections@.skip(i as int)),
                selections_error(sv, selections@) is None <==> forall|k: int| 0 <= k < selections@.len() ==> selection_ok(sv, #[trigger] selections@[k]),
            decreases selections@.len() - i,
        {
            let sel = &selections[i];
            assert(selections@.skip(i as int)[0] == *sel);
            assert(selections@.skip(i as int).drop_first() =~= selections@.skip(i + 1));
            if sel.step_index >= steps.len() {
                let mut m = chars_of("Invalid step index: ");
                push_decimal(&mut m, sel.step_index as u64);
                proof {
                    reveal_strlit("Invalid step index: ");
                }
                return Err(string_of(&m));
            }
            let step = &steps[sel.step_index];
            assert(sv[sel.step_index as int] == step@);
            if sel.group_index >= step.groups.len() {
                let mut m = chars_of("Invalid group index in step ");
                push_decimal(&mut m, sel.step_index as u64);
                push_all(&mut m, &chars_of(": "));
                push_decimal(&mut m, sel.group_index as u64);
                proof {
                    reveal_strlit("Invalid group index in step ");
                    reveal_strlit(": ");
                }
                return Err(string_of(&m));
            }
            let group = &step.groups[sel.group_index];
            assert(sv[sel.step_index as int].groups[sel.group_index as int] == group@);
            match first_out_of_range(&sel.plugin_indices, group.plugins.len()) {
                Some(p) => {
                    let mut m = chars_of("Invalid plugin index in step ");
                    push_decimal(&mut m, sel.step_index as u64);
                    push_all(&mut m, &chars_of(", group "));
                    push_decimal(&mut m, sel.group_index as u64);
                    push_all(&mut m, &chars_of(": "));
                    push_decimal(&mut m, p as u64);
                    proof {
                        reveal_strlit("Invalid plugin index in step ");
                        reveal_strlit(", group ");
                        reveal_strlit(": ");
                    }
                    return Err(string_of(&m));
                },
                None => {},
            }
            i += 1;
        }
        assert(selections@.skip(selections@.len() as int) =~= Seq::<Selection>::empty());
        Ok(())
    }
}

/// The first entry of `ps` that is not below `n`.
fn first_out_of_range(ps: &Vec<usize>, n: usize) -> (r: Option<usize>)
    ensures
        r == first_bad_plugin(ps@, n as nat),
{
    let mut j: usize = 0;
    assert(ps@.skip(0) =~= ps@);
    while j < ps.len()
        invariant
            j <= ps@.len(),
            first_bad_plugin(ps@, n as nat) == first_bad_plugin(ps@.skip(j as int), n as nat),
        decreases ps@.len() - j,
    {
        assert(ps@.skip(j as int)[0] == ps@[j as int]);
        assert(ps@.skip(j as int).drop_first() =~= ps@.skip(j + 1));
        if ps[j] >= n {
            return Some(ps[j]);
        }
        j += 1;
    }
    assert(ps@.skip(ps@.len() as int) =~= Seq::<usize>::empty());
    None
}

/// Appends the characters of `s`.
fn push_str_to(out: &mut Vec<char>, s: &str)
    ensures
        final(out)@ == old(out)@ + s@,
{
    let v = chars_of(s);
    push_all(out, &v);
}

} // verus!
