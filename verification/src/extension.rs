//! Declarative, permission-bound extension recipes.
//!
//! A recipe is data, never code: an id, a description, the capabilities it
//! asks for, the UI it contributes and the project files it projects. This
//! module holds the recipe types and their canonical compact JSON text, the
//! text a recipe's SHA-256 digest is taken over.

use vstd::prelude::*;
use crate::fields::texts;
use crate::json::{
    json_array, json_join, json_member, json_nat, json_string, json_string_array, lemma_json_join_push,
    push_json_string, push_json_string_array, push_json_u32, push_member_name,
};
use crate::text::push_char;

verus! {

/// The recipe format version this library reads and writes.
pub const RECIPE_VERSION: u32 = 1;

/// The record format version this library reads and writes.
pub const RECORD_VERSION: u32 = 1;

/// Largest accepted projection, in bytes.
pub const MAX_PROJECTION_BYTES: usize = 1048576;

/// Largest accepted sum of all projections of a recipe, in bytes.
pub const MAX_TOTAL_PROJECTION_BYTES: usize = 4194304;

/// A declarative extension as proposed by a user or a model.
#[derive(Debug, Clone, PartialEq, Eq)]
pub struct ExtensionRecipe {
    pub version: u32,
    pub id: String,
    pub name: String,
    pub description: String,
    pub intent: String,
    pub capabilities: Vec<Capability>,
    pub contributions: Vec<Contribution>,
    pub projections: Vec<ProjectProjection>,
}

/// A permission a recipe asks for, with its scope.
#[derive(Debug, Clone, PartialEq, Eq)]
pub enum Capability {
    ReadGraph,
    WriteGraph { namespaces: Vec<String> },
    ReadProject { paths: Vec<String> },
    WriteProject { paths: Vec<String> },
    RunValidation { programs: Vec<String> },
    Network { hosts: Vec<String> },
    ContributeUi,
}

/// The kind of a capability, without its scope.
#[derive(Debug, Clone, Copy, PartialEq, Eq, Structural, PartialOrd, Ord, Hash)]
pub enum CapabilityKind {
    ReadGraph,
    WriteGraph,
    ReadProject,
    WriteProject,
    RunValidation,
    Network,
    ContributeUi,
}

/// A piece of UI an extension adds.
#[derive(Debug, Clone, PartialEq, Eq)]
pub enum Contribution {
    Panel { id: String, title: String, location: PanelLocation, view: PanelView },
    Command { id: String, title: String, action: CommandAction },
}

/// Where a panel is docked.
#[derive(Debug, Clone, Copy, PartialEq, Eq, Structural)]
pub enum PanelLocation {
    Left,
    Right,
    Bottom,
}

/// What a panel shows.
#[derive(Debug, Clone, PartialEq, Eq)]
pub enum PanelView {
    Markdown { content: String },
    GraphQuery { question: String },
    File { path: String },
}

/// What a command does.
#[derive(Debug, Clone, PartialEq, Eq)]
pub enum CommandAction {
    AskGraph { question: String },
    OpenFile { path: String, line: Option<u32> },
    RunValidation { argv: Vec<String> },
}

/// A file the extension writes into the project.
#[derive(Debug, Clone, PartialEq, Eq)]
pub struct ProjectProjection {
    pub path: String,
    pub contents: String,
    pub mode: ProjectionMode,
}

/// Whether a projection creates a new file or replaces an existing one.
#[derive(Debug, Clone, Copy, PartialEq, Eq, Structural)]
pub enum ProjectionMode {
    Create,
    Replace,
}

/// The kind of a capability.
pub open spec fn cap_kind(c: Capability) -> CapabilityKind {
    match c {
        Capability::ReadGraph => CapabilityKind::ReadGraph,
        Capability::WriteGraph { .. } => CapabilityKind::WriteGraph,
        Capability::ReadProject { .. } => CapabilityKind::ReadProject,
        Capability::WriteProject { .. } => CapabilityKind::WriteProject,
        Capability::RunValidation { .. } => CapabilityKind::RunValidation,
        Capability::Network { .. } => CapabilityKind::Network,
        Capability::ContributeUi => CapabilityKind::ContributeUi,
    }
}

/// Position of a kind in declaration order, the order kinds sort in.
pub open spec fn kind_rank(k: CapabilityKind) -> nat {
    match k {
        CapabilityKind::ReadGraph => 0,
        CapabilityKind::WriteGraph => 1,
        CapabilityKind::ReadProject => 2,
        CapabilityKind::WriteProject => 3,
        CapabilityKind::RunValidation => 4,
        CapabilityKind::Network => 5,
        CapabilityKind::ContributeUi => 6,
    }
}

/// The kind's name as `{:?}` prints it.
pub open spec fn kind_name(k: CapabilityKind) -> Seq<char> {
    match k {
        CapabilityKind::ReadGraph => "ReadGraph"@,
        CapabilityKind::WriteGraph => "WriteGraph"@,
        CapabilityKind::ReadProject => "ReadProject"@,
        CapabilityKind::WriteProject => "WriteProject"@,
        CapabilityKind::RunValidation => "RunValidation"@,
        CapabilityKind::Network => "Network"@,
        CapabilityKind::ContributeUi => "ContributeUi"@,
    }
}

/// The kind's name in recipe JSON.
pub open spec fn kind_tag(k: CapabilityKind) -> Seq<char> {
    match k {
        CapabilityKind::ReadGraph => "read_graph"@,
        CapabilityKind::WriteGraph => "write_graph"@,
        CapabilityKind::ReadProject => "read_project"@,
        CapabilityKind::WriteProject => "write_project"@,
        CapabilityKind::RunValidation => "run_validation"@,
        CapabilityKind::Network => "network"@,
        CapabilityKind::ContributeUi => "contribute_ui"@,
    }
}

impl CapabilityKind {
    /// The kind's name as `{:?}` prints it.
    pub fn name(&self) -> (r: &'static str)
        ensures
            r@ == kind_name(*self),
    {
        match self {
            CapabilityKind::ReadGraph => "ReadGraph",
            CapabilityKind::WriteGraph => "WriteGraph",
            CapabilityKind::ReadProject => "ReadProject",
            CapabilityKind::WriteProject => "WriteProject",
            CapabilityKind::RunValidation => "RunValidation",
            CapabilityKind::Network => "Network",
            CapabilityKind::ContributeUi => "ContributeUi",
        }
    }

    /// The kind's position in declaration order.
    pub fn rank(&self) -> (r: u8)
        ensures
            r == kind_rank(*self),
    {
        match self {
            CapabilityKind::ReadGraph => 0,
            CapabilityKind::WriteGraph => 1,
            CapabilityKind::ReadProject => 2,
            CapabilityKind::WriteProject => 3,
            CapabilityKind::RunValidation => 4,
            CapabilityKind::Network => 5,
            CapabilityKind::ContributeUi => 6,
        }
    }
}

/// Ranks tell kinds apart.
pub proof fn lemma_kind_rank_injective(a: CapabilityKind, b: CapabilityKind)
    ensures
        kind_rank(a) == kind_rank(b) <==> a == b,
{
}

/// The scope entries of a capability, empty for the unscoped kinds.
pub open spec fn cap_scope(c: Capability) -> Seq<Seq<char>> {
    match c {
        Capability::ReadGraph => seq![],
        Capability::WriteGraph { namespaces } => texts(namespaces@),
        Capability::ReadProject { paths } => texts(paths@),
        Capability::WriteProject { paths } => texts(paths@),
        Capability::RunValidation { programs } => texts(programs@),
        Capability::Network { hosts } => texts(hosts@),
        Capability::ContributeUi => seq![],
    }
}

impl View for Capability {
    type V = (CapabilityKind, Seq<Seq<char>>);

    /// A capability is its kind and its scope entries.
    open spec fn view(&self) -> (CapabilityKind, Seq<Seq<char>>) {
        (cap_kind(*self), cap_scope(*self))
    }
}

/// A copy of the strings.
pub fn clone_strings(v: &Vec<String>) -> (r: Vec<String>)
    ensures
        texts(r@) == texts(v@),
{
    let mut out: Vec<String> = Vec::new();
    let mut i: usize = 0;
    while i < v.len()
        invariant
            i <= v@.len(),
            out@.len() == i,
            forall|j: int| 0 <= j < i ==> (#[trigger] out@[j])@ == v@[j]@,
        decreases v@.len() - i,
    {
        let s = v[i].clone();
        out.push(s);
        i = i + 1;
    }
    assert(texts(out@) =~= texts(v@));
    out
}

/// A copy of a capability.
pub fn clone_capability(c: &Capability) -> (r: Capability)
    ensures
        r@ == c@,
{
    match c {
        Capability::ReadGraph => Capability::ReadGraph,
        Capability::WriteGraph { namespaces } => Capability::WriteGraph { namespaces: clone_strings(namespaces) },
        Capability::ReadProject { paths } => Capability::ReadProject { paths: clone_strings(paths) },
        Capability::WriteProject { paths } => Capability::WriteProject { paths: clone_strings(paths) },
        Capability::RunValidation { programs } => Capability::RunValidation { programs: clone_strings(programs) },
        Capability::Network { hosts } => Capability::Network { hosts: clone_strings(hosts) },
        Capability::ContributeUi => Capability::ContributeUi,
    }
}

/// A capability's JSON depends on its kind and scope alone.
pub proof fn lemma_capability_json_view(a: Capability, b: Capability)
    requires
        a@ == b@,
    ensures
        capability_json(a) == capability_json(b),
{
}

impl Capability {
    /// The capability's kind.
    pub fn kind(&self) -> (r: CapabilityKind)
        ensures
            r == cap_kind(*self),
    {
        match self {
            Capability::ReadGraph => CapabilityKind::ReadGraph,
            Capability::WriteGraph { .. } => CapabilityKind::WriteGraph,
            Capability::ReadProject { .. } => CapabilityKind::ReadProject,
            Capability::WriteProject { .. } => CapabilityKind::WriteProject,
            Capability::RunValidation { .. } => CapabilityKind::RunValidation,
            Capability::Network { .. } => CapabilityKind::Network,
            Capability::ContributeUi => CapabilityKind::ContributeUi,
        }
    }
}

/// A contribution's id.
pub open spec fn contribution_id(c: Contribution) -> Seq<char> {
    match c {
        Contribution::Panel { id, .. } => id@,
        Contribution::Command { id, .. } => id@,
    }
}

/// A contribution's title.
pub open spec fn contribution_title(c: Contribution) -> Seq<char> {
    match c {
        Contribution::Panel { title, .. } => title@,
        Contribution::Command { title, .. } => title@,
    }
}

impl Contribution {
    /// The contribution's id.
    pub fn id(&self) -> (r: &str)
        ensures
            r@ == contribution_id(*self),
    {
        match self {
            Contribution::Panel { id, .. } => id.as_str(),
            Contribution::Command { id, .. } => id.as_str(),
        }
    }

    /// `panel` or `command`.
    pub fn kind_label(&self) -> (r: &'static str)
        ensures
            r@ == (match *self {
                Contribution::Panel { .. } => "panel"@,
                Contribution::Command { .. } => "command"@,
            }),
    {
        match self {
            Contribution::Panel { .. } => "panel",
            Contribution::Command { .. } => "command",
        }
    }

    /// The contribution's title.
    pub fn title(&self) -> (r: &str)
        ensures
            r@ == contribution_title(*self),
    {
        match self {
            Contribution::Panel { title, .. } => title.as_str(),
            Contribution::Command { title, .. } => title.as_str(),
        }
    }
}

// ---------------------------------------------------------------- canonical JSON

/// `{"kind":"<tag>"` followed by the variant's fields and `}`.
pub open spec fn tagged(tag: Seq<char>, rest: Seq<char>) -> Seq<char> {
    seq!['{'] + json_member("kind"@, json_string(tag)) + rest + seq!['}']
}

/// `,"name":value`.
pub open spec fn more(name: Seq<char>, value: Seq<char>) -> Seq<char> {
    seq![','] + json_member(name, value)
}

/// The canonical JSON of a capability.
pub open spec fn capability_json(c: Capability) -> Seq<char> {
    match c {
        Capability::ReadGraph => tagged("read_graph"@, seq![]),
        Capability::WriteGraph { namespaces } => tagged(
            "write_graph"@,
            more("namespaces"@, json_string_array(texts(namespaces@))),
        ),
        Capability::ReadProject { paths } => tagged(
            "read_project"@,
            more("paths"@, json_string_array(texts(paths@))),
        ),
        Capability::WriteProject { paths } => tagged(
            "write_project"@,
            more("paths"@, json_string_array(texts(paths@))),
        ),
        Capability::RunValidation { programs } => tagged(
            "run_validation"@,
            more("programs"@, json_string_array(texts(programs@))),
        ),
        Capability::Network { hosts } => tagged("network"@, more("hosts"@, json_string_array(texts(hosts@)))),
        Capability::ContributeUi => tagged("contribute_ui"@, seq![]),
    }
}

/// The JSON name of a panel location.
pub open spec fn location_tag(l: PanelLocation) -> Seq<char> {
    match l {
        PanelLocation::Left => "left"@,
        PanelLocation::Right => "right"@,
        PanelLocation::Bottom => "bottom"@,
    }
}

/// The canonical JSON of a panel view.
pub open spec fn view_json(v: PanelView) -> Seq<char> {
    match v {
        PanelView::Markdown { content } => tagged("markdown"@, more("content"@, json_string(content@))),
        PanelView::GraphQuery { question } => tagged("graph_query"@, more("question"@, json_string(question@))),
        PanelView::File { path } => tagged("file"@, more("path"@, json_string(path@))),
    }
}

/// The JSON of an optional line number.
pub open spec fn line_json(line: Option<u32>) -> Seq<char> {
    match line {
        Some(n) => json_nat(n as nat),
        None => "null"@,
    }
}

/// The canonical JSON of a command action.
pub open spec fn action_json(a: CommandAction) -> Seq<char> {
    match a {
        CommandAction::AskGraph { question } => tagged("ask_graph"@, more("question"@, json_string(question@))),
        CommandAction::OpenFile { path, line } => tagged(
            "open_file"@,
            more("path"@, json_string(path@)) + more("line"@, line_json(line)),
        ),
        CommandAction::RunValidation { argv } => tagged(
            "run_validation"@,
            more("argv"@, json_string_array(texts(argv@))),
        ),
    }
}

/// The canonical JSON of a contribution.
pub open spec fn contribution_json(c: Contribution) -> Seq<char> {
    match c {
        Contribution::Panel { id, title, location, view } => tagged(
            "panel"@,
            more("id"@, json_string(id@)) + more("title"@, json_string(title@)) + more(
                "location"@,
                json_string(location_tag(location)),
            ) + more("view"@, view_json(view)),
        ),
        Contribution::Command { id, title, action } => tagged(
            "command"@,
            more("id"@, json_string(id@)) + more("title"@, json_string(title@)) + more(
                "action"@,
                action_json(action),
            ),
        ),
    }
}

/// The JSON name of a projection mode.
pub open spec fn mode_tag(m: ProjectionMode) -> Seq<char> {
    match m {
        ProjectionMode::Create => "create"@,
        ProjectionMode::Replace => "replace"@,
    }
}

/// The canonical JSON of a projection.
pub open spec fn projection_json(p: ProjectProjection) -> Seq<char> {
    seq!['{'] + json_member("path"@, json_string(p.path@)) + more("contents"@, json_string(p.contents@))
        + more("mode"@, json_string(mode_tag(p.mode))) + seq!['}']
}

/// A JSON array of capabilities.
pub open spec fn capabilities_json(cs: Seq<Capability>) -> Seq<char> {
    json_array(cs.map_values(|c: Capability| capability_json(c)))
}

/// A JSON array of contributions.
pub open spec fn contributions_json(cs: Seq<Contribution>) -> Seq<char> {
    json_array(cs.map_values(|c: Contribution| contribution_json(c)))
}

/// A JSON array of projections.
pub open spec fn projections_json(ps: Seq<ProjectProjection>) -> Seq<char> {
    json_array(ps.map_values(|p: ProjectProjection| projection_json(p)))
}

/// The opening brace and the recipe's members up to `intent`.
pub open spec fn recipe_head(r: ExtensionRecipe) -> Seq<char> {
    seq!['{'] + json_member("version"@, json_nat(r.version as nat)) + more("id"@, json_string(r.id@))
        + more("name"@, json_string(r.name@)) + more("description"@, json_string(r.description@))
        + more("intent"@, json_string(r.intent@))
}

/// The canonical JSON of a recipe: its fields in declaration order.
#[verifier::opaque]
pub open spec fn recipe_json(r: ExtensionRecipe) -> Seq<char> {
    recipe_head(r) + more("capabilities"@, capabilities_json(r.capabilities@)) + more(
        "contributions"@,
        contributions_json(r.contributions@),
    ) + more("projections"@, projections_json(r.projections@)) + seq!['}']
}

/// Appends `,"name":`.
fn push_more(out: &mut String, name: &str)
    ensures
        final(out)@ == old(out)@ + seq![','] + json_string(name@) + seq![':'],
{
    push_char(out, ',');
    push_member_name(out, name);
}

/// Appends `{"kind":"<tag>"`.
fn push_tag(out: &mut String, tag: &str)
    ensures
        final(out)@ == old(out)@ + seq!['{'] + json_member("kind"@, json_string(tag@)),
{
    let ghost start = out@;
    push_char(out, '{');
    push_member_name(out, "kind");
    push_json_string(out, tag);
    assert(out@ =~= start + seq!['{'] + json_member("kind"@, json_string(tag@)));
}

/// Appends `{"kind":"<tag>","<name>":[...strings...]}`.
fn push_tagged_list(out: &mut String, tag: &str, name: &str, items: &Vec<String>)
    ensures
        final(out)@ == old(out)@ + tagged(tag@, more(name@, json_string_array(texts(items@)))),
{
    let ghost start = out@;
    push_tag(out, tag);
    push_more(out, name);
    push_json_string_array(out, items);
    push_char(out, '}');
    assert(out@ =~= start + tagged(tag@, more(name@, json_string_array(texts(items@)))));
}

/// Appends `{"kind":"<tag>","<name>":"<text>"}`.
fn push_tagged_text(out: &mut String, tag: &str, name: &str, text: &str)
    ensures
        final(out)@ == old(out)@ + tagged(tag@, more(name@, json_string(text@))),
{
    let ghost start = out@;
    push_tag(out, tag);
    push_more(out, name);
    push_json_string(out, text);
    push_char(out, '}');
    assert(out@ =~= start + tagged(tag@, more(name@, json_string(text@))));
}

/// Appends the canonical JSON of a capability.
pub fn push_capability_json(out: &mut String, c: &Capability)
    ensures
        final(out)@ == old(out)@ + capability_json(*c),
{
    let ghost start = out@;
    match c {
        Capability::ReadGraph => {
            push_tag(out, "read_graph");
            push_char(out, '}');
        },
        Capability::WriteGraph { namespaces } => push_tagged_list(out, "write_graph", "namespaces", namespaces),
        Capability::ReadProject { paths } => push_tagged_list(out, "read_project", "paths", paths),
        Capability::WriteProject { paths } => push_tagged_list(out, "write_project", "paths", paths),
        Capability::RunValidation { programs } => push_tagged_list(out, "run_validation", "programs", programs),
        Capability::Network { hosts } => push_tagged_list(out, "network", "hosts", hosts),
        Capability::ContributeUi => {
            push_tag(out, "contribute_ui");
            push_char(out, '}');
        },
    }
    assert(out@ =~= start + capability_json(*c));
}

/// Appends the canonical JSON of a panel view.
fn push_view_json(out: &mut String, v: &PanelView)
    ensures
        final(out)@ == old(out)@ + view_json(*v),
{
    match v {
        PanelView::Markdown { content } => push_tagged_text(out, "markdown", "content", content.as_str()),
        PanelView::GraphQuery { question } => push_tagged_text(out, "graph_query", "question", question.as_str()),
        PanelView::File { path } => push_tagged_text(out, "file", "path", path.as_str()),
    }
}

/// Appends the canonical JSON of a command action.
fn push_action_json(out: &mut String, a: &CommandAction)
    ensures
        final(out)@ == old(out)@ + action_json(*a),
{
    let ghost start = out@;
    match a {
        CommandAction::AskGraph { question } => push_tagged_text(out, "ask_graph", "question", question.as_str()),
        CommandAction::OpenFile { path, line } => {
            push_tag(out, "open_file");
            push_more(out, "path");
            push_json_string(out, path.as_str());
            push_more(out, "line");
            match line {
                Some(n) => push_json_u32(out, *n),
                None => crate::text::push_str(out, "null"),
            }
            push_char(out, '}');
            assert(out@ =~= start + action_json(*a));
        },
        CommandAction::RunValidation { argv } => push_tagged_list(out, "run_validation", "argv", argv),
    }
}

/// Appends the canonical JSON of a contribution.
#[verifier::rlimit(60)]
pub fn push_contribution_json(out: &mut String, c: &Contribution)
    ensures
        final(out)@ == old(out)@ + contribution_json(*c),
{
    let ghost start = out@;
    match c {
        Contribution::Panel { id, title, location, view } => {
            push_tag(out, "panel");
            let ghost a = seq!['{'] + json_member("kind"@, json_string("panel"@));
            push_text_member(out, "id", id.as_str());
            let ghost b = more("id"@, json_string(id@));
            proof { vstd::seq_lib::lemma_concat_associative(start, a, b); }
            push_text_member(out, "title", title.as_str());
            let ghost t = more("title"@, json_string(title@));
            proof { vstd::seq_lib::lemma_concat_associative(start, a + b, t); }
            let tag = match location {
                PanelLocation::Left => "left",
                PanelLocation::Right => "right",
                PanelLocation::Bottom => "bottom",
            };
            push_text_member(out, "location", tag);
            let ghost l = more("location"@, json_string(location_tag(*location)));
            proof { vstd::seq_lib::lemma_concat_associative(start, a + b + t, l); }
            let ghost s1 = out@;
            push_more(out, "view");
            push_view_json(out, view);
            let ghost v = more("view"@, view_json(*view));
            assert(out@ =~= s1 + v);
            proof { vstd::seq_lib::lemma_concat_associative(start, a + b + t + l, v); }
            push_char(out, '}');
            proof { vstd::seq_lib::lemma_concat_associative(start, a + b + t + l + v, seq!['}']); }
            assert(a + b + t + l + v + seq!['}'] =~= contribution_json(*c));
        },
        Contribution::Command { id, title, action } => {
            push_tag(out, "command");
            let ghost a = seq!['{'] + json_member("kind"@, json_string("command"@));
            push_text_member(out, "id", id.as_str());
            let ghost b = more("id"@, json_string(id@));
            proof { vstd::seq_lib::lemma_concat_associative(start, a, b); }
            push_text_member(out, "title", title.as_str());
            let ghost t = more("title"@, json_string(title@));
            proof { vstd::seq_lib::lemma_concat_associative(start, a + b, t); }
            let ghost s1 = out@;
            push_more(out, "action");
            push_action_json(out, action);
            let ghost v = more("action"@, action_json(*action));
            assert(out@ =~= s1 + v);
            proof { vstd::seq_lib::lemma_concat_associative(start, a + b + t, v); }
            push_char(out, '}');
            proof { vstd::seq_lib::lemma_concat_associative(start, a + b + t + v, seq!['}']); }
            assert(a + b + t + v + seq!['}'] =~= contribution_json(*c));
        },
    }
}

/// Appends the canonical JSON of a projection.
pub fn push_projection_json(out: &mut String, p: &ProjectProjection)
    ensures
        final(out)@ == old(out)@ + projection_json(*p),
{
    let ghost start = out@;
    push_char(out, '{');
    push_member_name(out, "path");
    push_json_string(out, p.path.as_str());
    push_more(out, "contents");
    push_json_string(out, p.contents.as_str());
    push_more(out, "mode");
    let tag = match p.mode {
        ProjectionMode::Create => "create",
        ProjectionMode::Replace => "replace",
    };
    push_json_string(out, tag);
    push_char(out, '}');
    assert(out@ =~= start + projection_json(*p));
}

/// Appends the canonical JSON array of capabilities.
pub fn push_capabilities_json(out: &mut String, cs: &Vec<Capability>)
    ensures
        final(out)@ == old(out)@ + capabilities_json(cs@),
{
    let ghost start = out@;
    let ghost parts = cs@.map_values(|c: Capability| capability_json(c));
    push_char(out, '[');
    let mut i: usize = 0;
    while i < cs.len()
        invariant
            i <= cs@.len(),
            parts == cs@.map_values(|c: Capability| capability_json(c)),
            out@ == start + seq!['['] + json_join(parts.take(i as int)),
        decreases cs@.len() - i,
    {
        proof {
            lemma_json_join_push(parts, i as int);
        }
        if i > 0 {
            push_char(out, ',');
        }
        push_capability_json(out, &cs[i]);
        i = i + 1;
        assert(out@ =~= start + seq!['['] + json_join(parts.take(i as int)));
    }
    assert(parts.take(cs@.len() as int) =~= parts);
    push_char(out, ']');
    assert(out@ =~= start + capabilities_json(cs@));
}

/// Appends the canonical JSON array of contributions.
fn push_contributions_json(out: &mut String, cs: &Vec<Contribution>)
    ensures
        final(out)@ == old(out)@ + contributions_json(cs@),
{
    let ghost start = out@;
    let ghost parts = cs@.map_values(|c: Contribution| contribution_json(c));
    push_char(out, '[');
    let mut i: usize = 0;
    while i < cs.len()
        invariant
            i <= cs@.len(),
            parts == cs@.map_values(|c: Contribution| contribution_json(c)),
            out@ == start + seq!['['] + json_join(parts.take(i as int)),
        decreases cs@.len() - i,
    {
        proof {
            lemma_json_join_push(parts, i as int);
        }
        if i > 0 {
            push_char(out, ',');
        }
        push_contribution_json(out, &cs[i]);
        i = i + 1;
        assert(out@ =~= start + seq!['['] + json_join(parts.take(i as int)));
    }
    assert(parts.take(cs@.len() as int) =~= parts);
    push_char(out, ']');
    assert(out@ =~= start + contributions_json(cs@));
}

/// Appends the canonical JSON array of projections.
fn push_projections_json(out: &mut String, ps: &Vec<ProjectProjection>)
    ensures
        final(out)@ == old(out)@ + projections_json(ps@),
{
    let ghost start = out@;
    let ghost parts = ps@.map_values(|p: ProjectProjection| projection_json(p));
    push_char(out, '[');
    let mut i: usize = 0;
    while i < ps.len()
        invariant
            i <= ps@.len(),
            parts == ps@.map_values(|p: ProjectProjection| projection_json(p)),
            out@ == start + seq!['['] + json_join(parts.take(i as int)),
        decreases ps@.len() - i,
    {
        proof {
            lemma_json_join_push(parts, i as int);
        }
        if i > 0 {
            push_char(out, ',');
        }
        push_projection_json(out, &ps[i]);
        i = i + 1;
        assert(out@ =~= start + seq!['['] + json_join(parts.take(i as int)));
    }
    assert(parts.take(ps@.len() as int) =~= parts);
    push_char(out, ']');
    assert(out@ =~= start + projections_json(ps@));
}

/// Appends `,"name":"<text>"`.
fn push_text_member(out: &mut String, name: &str, text: &str)
    ensures
        final(out)@ == old(out)@ + more(name@, json_string(text@)),
{
    let ghost start = out@;
    push_more(out, name);
    push_json_string(out, text);
    assert(out@ =~= start + more(name@, json_string(text@)));
}

/// Appends the recipe's members up to and including `intent`.
fn push_recipe_head(out: &mut String, r: &ExtensionRecipe)
    ensures
        final(out)@ == old(out)@ + recipe_head(*r),
{
    let ghost start = out@;
    push_char(out, '{');
    push_member_name(out, "version");
    push_json_u32(out, r.version);
    let ghost a = seq!['{'] + json_member("version"@, json_nat(r.version as nat));
    assert(out@ =~= start + a);
    push_text_member(out, "id", r.id.as_str());
    let ghost b = more("id"@, json_string(r.id@));
    proof { vstd::seq_lib::lemma_concat_associative(start, a, b); }
    push_text_member(out, "name", r.name.as_str());
    let ghost c = more("name"@, json_string(r.name@));
    proof { vstd::seq_lib::lemma_concat_associative(start, a + b, c); }
    push_text_member(out, "description", r.description.as_str());
    let ghost d = more("description"@, json_string(r.description@));
    proof { vstd::seq_lib::lemma_concat_associative(start, a + b + c, d); }
    push_text_member(out, "intent", r.intent.as_str());
    let ghost e = more("intent"@, json_string(r.intent@));
    proof { vstd::seq_lib::lemma_concat_associative(start, a + b + c + d, e); }
}

/// Appends the canonical JSON of a recipe.
pub fn push_recipe_json(out: &mut String, r: &ExtensionRecipe)
    ensures
        final(out)@ == old(out)@ + recipe_json(*r),
{
    let ghost start = out@;
    push_recipe_head(out, r);
    let ghost a = recipe_head(*r);
    let ghost s1 = out@;
    push_more(out, "capabilities");
    push_capabilities_json(out, &r.capabilities);
    let ghost b = more("capabilities"@, capabilities_json(r.capabilities@));
    assert(out@ =~= s1 + b);
    proof { vstd::seq_lib::lemma_concat_associative(start, a, b); }
    let ghost s2 = out@;
    push_more(out, "contributions");
    push_contributions_json(out, &r.contributions);
    let ghost c = more("contributions"@, contributions_json(r.contributions@));
    assert(out@ =~= s2 + c);
    proof { vstd::seq_lib::lemma_concat_associative(start, a + b, c); }
    let ghost s3 = out@;
    push_more(out, "projections");
    push_projections_json(out, &r.projections);
    let ghost d = more("projections"@, projections_json(r.projections@));
    assert(out@ =~= s3 + d);
    proof { vstd::seq_lib::lemma_concat_associative(start, a + b + c, d); }
    push_char(out, '}');
    proof {
        vstd::seq_lib::lemma_concat_associative(start, a + b + c + d, seq!['}']);
        reveal(recipe_json);
    }
}

/// The canonical JSON text of a recipe, the text its digest is taken over.
pub fn recipe_canonical_json(r: &ExtensionRecipe) -> (s: String)
    ensures
        s@ == recipe_json(*r),
{
    let mut s = String::new();
    push_recipe_json(&mut s, r);
    assert(s@ =~= recipe_json(*r));
    s
}

/// The instructions given to a model asked to write a recipe.
pub fn generation_system_prompt() -> (r: &'static str)
    ensures
        r@ == GENERATION_PROMPT@,
{
    GENERATION_PROMPT
}

/// The text of [`generation_system_prompt`].
pub const GENERATION_PROMPT: &'static str = "Return exactly one JSON object and no prose or markdown. Build a declarative Girder extension recipe with version 1. Extensions are data, never executable plugin code. Use a lowercase reverse-domain id. Request only capabilities that are necessary. Supported capability kinds: read_graph; write_graph with namespaces; read_project with paths; write_project with paths; run_validation with programs; network with hosts; contribute_ui. Supported contributions are panel and command. Panel views are markdown, graph_query, or file. Command actions are ask_graph, open_file, or run_validation. Project projections require an explicitly matching write_project path. Keep the recipe minimal and bounded.";

} // verus!
