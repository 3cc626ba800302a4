//! The rules a recipe must meet before it may be granted: bounded metadata,
//! each capability declared once with a valid, duplicate-free scope, every
//! contribution backed by the capabilities it uses, and every projection a
//! bounded file inside a declared `write_project` scope.

use vstd::prelude::*;
use vstd::utf8::encode_utf8;
use crate::extension::{
    cap_kind, contribution_id, contribution_title, kind_name, Capability, CapabilityKind, CommandAction,
    Contribution, ExtensionRecipe, PanelView, ProjectProjection,
};
use crate::fields::{
    as_invalid, first_fault, glob_build_error, glob_is_match, glob_matches, host_rule, lemma_first_fault_none, lemma_first_fault_stop, namespace_rule, or_else,
    outcome, program_rule, relative_path_rule, relative_pattern_rule, text2, text3, text_rule, texts,
    validate_relative_path, validate_text, extension_id_rule, slug_rule, validate_extension_id, validate_slug, validate_host, validate_namespace,
    validate_program, validate_relative_pattern, ExtensionError, Fault,
};
use crate::strmap::str_eq;
use crate::text::{nat_decimal, push_str, push_u64_decimal};

verus! {

/// Which rule the entries of a capability's scope follow.
#[derive(Clone, Copy, PartialEq, Eq, Structural, Debug)]
pub enum ItemRule {
    Namespace,
    ReadPath,
    WritePath,
    Program,
    Host,
}

/// The rule for one scope entry.
pub open spec fn item_rule(rule: ItemRule, v: Seq<char>) -> Option<Seq<char>> {
    match rule {
        ItemRule::Namespace => namespace_rule(v),
        ItemRule::ReadPath => relative_pattern_rule("read_project path"@, v),
        ItemRule::WritePath => relative_pattern_rule("write_project path"@, v),
        ItemRule::Program => program_rule(v),
        ItemRule::Host => host_rule(v),
    }
}

/// Entry `k` of a scope list: not a repeat of an earlier entry, and valid.
pub open spec fn list_step(label: Seq<char>, rule: ItemRule, vals: Seq<Seq<char>>) -> spec_fn(int) -> Option<
    Seq<char>,
> {
    |k: int|
        if exists|i: int| 0 <= i < k && vals[i] == vals[k] {
            Some(label + " contains a duplicate entry"@)
        } else {
            item_rule(rule, vals[k])
        }
}

/// A scope list: 1 to 64 distinct valid entries.
pub open spec fn list_rule(label: Seq<char>, rule: ItemRule, vals: Seq<Seq<char>>) -> Option<Seq<char>> {
    if vals.len() == 0 || vals.len() > 64 {
        Some(label + " must contain 1 to 64 entries"@)
    } else {
        first_fault(vals.len(), list_step(label, rule, vals))
    }
}

/// The rule for a capability's scope.
pub open spec fn capability_rule(c: Capability) -> Option<Seq<char>> {
    match c {
        Capability::ReadGraph => None,
        Capability::ContributeUi => None,
        Capability::WriteGraph { namespaces } => list_rule(
            "write_graph.namespaces"@,
            ItemRule::Namespace,
            texts(namespaces@),
        ),
        Capability::ReadProject { paths } => list_rule("read_project.paths"@, ItemRule::ReadPath, texts(paths@)),
        Capability::WriteProject { paths } => list_rule("write_project.paths"@, ItemRule::WritePath, texts(paths@)),
        Capability::RunValidation { programs } => list_rule(
            "run_validation.programs"@,
            ItemRule::Program,
            texts(programs@),
        ),
        Capability::Network { hosts } => list_rule("network.hosts"@, ItemRule::Host, texts(hosts@)),
    }
}

/// Checks one scope entry.
fn validate_item(rule: ItemRule, v: &str) -> (r: Result<(), ExtensionError>)
    ensures
        outcome(r, as_invalid(item_rule(rule, v@))),
{
    match rule {
        ItemRule::Namespace => validate_namespace(v),
        ItemRule::ReadPath => validate_relative_pattern("read_project path", v),
        ItemRule::WritePath => validate_relative_pattern("write_project path", v),
        ItemRule::Program => validate_program(v),
        ItemRule::Host => validate_host(v),
    }
}

/// Checks a scope list against [`list_rule`].
#[verifier::loop_isolation(false)]
fn validate_nonempty_list(label: &str, values: &Vec<String>, rule: ItemRule) -> (r: Result<
    (),
    ExtensionError,
>)
    ensures
        outcome(r, as_invalid(list_rule(label@, rule, texts(values@)))),
{
    let n = values.len();
    if n == 0 || n > 64 {
        return Err(ExtensionError::Invalid(text2(label, " must contain 1 to 64 entries")));
    }
    let ghost vals = texts(values@);
    let ghost f = list_step(label@, rule, vals);
    let mut i: usize = 0;
    while i < n
        invariant
            n == values@.len(),
            vals == texts(values@),
            f == list_step(label@, rule, vals),
            i <= n,
            first_fault(i as nat, f) is None,
        decreases n - i,
    {
        let mut j: usize = 0;
        while j < i
            invariant
                n == values@.len(),
                vals == texts(values@),
                i < n,
                j <= i,
                forall|k: int| 0 <= k < j ==> vals[k] != vals[i as int],
            decreases i - j,
        {
            if str_eq(values[j].as_str(), values[i].as_str()) {
                assert(vals[j as int] == vals[i as int]);
                assert(f(i as int) == Some(label@ + " contains a duplicate entry"@));
                proof {
                    lemma_first_fault_stop(i as nat, n as nat, f);
                }
                return Err(ExtensionError::Invalid(text2(label, " contains a duplicate entry")));
            }
            j = j + 1;
        }
        assert(!(exists|k: int| 0 <= k < i && vals[k] == vals[i as int]));
        assert(vals[i as int] == values@[i as int]@);
        let r = validate_item(rule, values[i].as_str());
        assert(f(i as int) == item_rule(rule, vals[i as int]));
        if r.is_err() {
            proof {
                lemma_first_fault_stop(i as nat, n as nat, f);
            }
            return r;
        }
        i = i + 1;
    }
    Ok(())
}

/// Checks a capability's scope against [`capability_rule`].
pub fn validate_capability(c: &Capability) -> (r: Result<(), ExtensionError>)
    ensures
        outcome(r, as_invalid(capability_rule(*c))),
{
    match c {
        Capability::ReadGraph => Ok(()),
        Capability::ContributeUi => Ok(()),
        Capability::WriteGraph { namespaces } => validate_nonempty_list(
            "write_graph.namespaces",
            namespaces,
            ItemRule::Namespace,
        ),
        Capability::ReadProject { paths } => validate_nonempty_list("read_project.paths", paths, ItemRule::ReadPath),
        Capability::WriteProject { paths } => validate_nonempty_list(
            "write_project.paths",
            paths,
            ItemRule::WritePath,
        ),
        Capability::RunValidation { programs } => validate_nonempty_list(
            "run_validation.programs",
            programs,
            ItemRule::Program,
        ),
        Capability::Network { hosts } => validate_nonempty_list("network.hosts", hosts, ItemRule::Host),
    }
}

/// Capability `k`: its kind not declared before, and its scope valid.
pub open spec fn capability_step(caps: Seq<Capability>) -> spec_fn(int) -> Option<Seq<char>> {
    |k: int|
        if exists|i: int| 0 <= i < k && cap_kind(caps[i]) == cap_kind(caps[k]) {
            Some("capability "@ + kind_name(cap_kind(caps[k])) + " is declared more than once"@)
        } else {
            capability_rule(caps[k])
        }
}

/// Some capability has the kind.
pub open spec fn has_kind(caps: Seq<Capability>, kind: CapabilityKind) -> bool {
    exists|i: int| 0 <= i < caps.len() && cap_kind(caps[i]) == kind
}

/// A contribution needs a capability of the kind.
pub open spec fn require_rule(caps: Seq<Capability>, kind: CapabilityKind) -> Option<Seq<char>> {
    if has_kind(caps, kind) {
        None
    } else {
        Some("contribution requires capability "@ + kind_name(kind))
    }
}

/// Checks [`require_rule`].
pub fn require_capability(recipe: &ExtensionRecipe, required: CapabilityKind) -> (r: Result<(), ExtensionError>)
    ensures
        outcome(r, as_invalid(require_rule(recipe.capabilities@, required))),
{
    let mut i: usize = 0;
    while i < recipe.capabilities.len()
        invariant
            i <= recipe.capabilities@.len(),
            forall|j: int| 0 <= j < i ==> cap_kind(#[trigger] recipe.capabilities@[j]) != required,
        decreases recipe.capabilities@.len() - i,
    {
        if recipe.capabilities[i].kind() == required {
            return Ok(());
        }
        i = i + 1;
    }
    Err(ExtensionError::Invalid(text2("contribution requires capability ", required.name())))
}

/// The path patterns a capability grants for a project access kind.
pub open spec fn scope_of(c: Capability, kind: CapabilityKind) -> Seq<Seq<char>> {
    match c {
        Capability::ReadProject { paths } => if kind == CapabilityKind::ReadProject {
            texts(paths@)
        } else {
            seq![]
        },
        Capability::WriteProject { paths } => if kind == CapabilityKind::WriteProject {
            texts(paths@)
        } else {
            seq![]
        },
        _ => seq![],
    }
}

/// Some pattern granted for the access kind matches the path.
pub open spec fn path_allowed(caps: Seq<Capability>, kind: CapabilityKind, path: Seq<char>) -> bool {
    exists|i: int, j: int|
        0 <= i < caps.len() && 0 <= j < scope_of(caps[i], kind).len() && #[trigger] glob_matches(
            scope_of(caps[i], kind)[j],
            path,
        )
}

/// Every pattern granted for the access kind is one `globset` builds.
pub open spec fn scopes_build(caps: Seq<Capability>, kind: CapabilityKind) -> bool {
    forall|i: int, j: int|
        0 <= i < caps.len() && 0 <= j < scope_of(caps[i], kind).len() ==> (#[trigger] glob_build_error(
            scope_of(caps[i], kind)[j],
        )) is None
}

/// True when a granted pattern matches the path.
fn project_path_allowed(recipe: &ExtensionRecipe, kind: CapabilityKind, path: &str) -> (r: bool)
    requires
        scopes_build(recipe.capabilities@, kind),
    ensures
        r == path_allowed(recipe.capabilities@, kind, path@),
{
    let caps = &recipe.capabilities;
    let mut i: usize = 0;
    while i < caps.len()
        invariant
            caps@ == recipe.capabilities@,
            scopes_build(caps@, kind),
            i <= caps@.len(),
            forall|a: int, b: int|
                0 <= a < i && 0 <= b < scope_of(caps@[a], kind).len() ==> !#[trigger] glob_matches(
                    scope_of(caps@[a], kind)[b],
                    path@,
                ),
        decreases caps@.len() - i,
    {
        let patterns: Option<&Vec<String>> = match &caps[i] {
            Capability::ReadProject { paths } => if kind == CapabilityKind::ReadProject {
                Some(paths)
            } else {
                None
            },
            Capability::WriteProject { paths } => if kind == CapabilityKind::WriteProject {
                Some(paths)
            } else {
                None
            },
            _ => None,
        };
        match patterns {
            Some(ps) => {
                assert(texts(ps@) == scope_of(caps@[i as int], kind));
                let mut j: usize = 0;
                while j < ps.len()
                    invariant
                        caps@ == recipe.capabilities@,
                        scopes_build(caps@, kind),
                        i < caps@.len(),
                        texts(ps@) == scope_of(caps@[i as int], kind),
                        j <= ps@.len(),
                        forall|a: int, b: int|
                            0 <= a < i && 0 <= b < scope_of(caps@[a], kind).len() ==> !#[trigger] glob_matches(
                                scope_of(caps@[a], kind)[b],
                                path@,
                            ),
                        forall|b: int| 0 <= b < j ==> !#[trigger] glob_matches(scope_of(caps@[i as int], kind)[b], path@),
                    decreases ps@.len() - j,
                {
                    assert(scope_of(caps@[i as int], kind)[j as int] == ps@[j as int]@);
                    assert(glob_build_error(scope_of(caps@[i as int], kind)[j as int]) is None);
                    if glob_is_match(ps[j].as_str(), path) {
                        assert(glob_matches(scope_of(caps@[i as int], kind)[j as int], path@));
                        return true;
                    }
                    j = j + 1;
                }
            },
            None => {
                assert(scope_of(caps@[i as int], kind).len() == 0);
            },
        }
        i = i + 1;
    }
    false
}

/// The programs a capability allows to run.
pub open spec fn programs_of(c: Capability) -> Seq<Seq<char>> {
    match c {
        Capability::RunValidation { programs } => texts(programs@),
        _ => seq![],
    }
}

/// Some `run_validation` capability lists the program.
pub open spec fn program_allowed(caps: Seq<Capability>, program: Seq<char>) -> bool {
    exists|i: int, j: int| 0 <= i < caps.len() && 0 <= j < programs_of(caps[i]).len() && #[trigger] programs_of(caps[i])[j] == program
}

/// Argument `k` (after the program) of a validation command.
pub open spec fn argument_step(argv: Seq<Seq<char>>) -> spec_fn(int) -> Option<Seq<char>> {
    |k: int| text_rule("run_validation argument"@, argv[k + 1], 0, 4096)
}

/// A file a panel or command opens must lie in a `read_project` scope.
pub open spec fn readable_rule(caps: Seq<Capability>, what: Seq<char>, label: Seq<char>, path: Seq<char>) -> Option<Seq<char>> {
    or_else(
        relative_path_rule(label, path),
        if path_allowed(caps, CapabilityKind::ReadProject, path) {
            None
        } else {
            Some(what + path + " is outside the requested read_project paths"@)
        },
    )
}

/// What a contribution's view or action needs.
pub open spec fn contribution_rule(caps: Seq<Capability>, c: Contribution) -> Option<Seq<char>> {
    match c {
        Contribution::Panel { view, .. } => match view {
            PanelView::Markdown { content } => text_rule("panel markdown"@, content@, 1, 32768),
            PanelView::GraphQuery { question } => or_else(
                require_rule(caps, CapabilityKind::ReadGraph),
                text_rule("panel graph question"@, question@, 1, 1000),
            ),
            PanelView::File { path } => readable_rule(caps, "panel file "@, "panel file path"@, path@),
        },
        Contribution::Command { action, .. } => match action {
            CommandAction::AskGraph { question } => or_else(
                require_rule(caps, CapabilityKind::ReadGraph),
                text_rule("command graph question"@, question@, 1, 1000),
            ),
            CommandAction::OpenFile { path, line } => or_else(
                relative_path_rule("command file path"@, path@),
                if line matches Some(l) && (l == 0 || l > 10000000) {
                    Some("command file line must be between 1 and 10000000"@)
                } else {
                    readable_rule(caps, "command file "@, "command file path"@, path@)
                },
            ),
            CommandAction::RunValidation { argv } => {
                let a = texts(argv@);
                if a.len() == 0 {
                    Some("run_validation argv is empty"@)
                } else {
                    or_else(
                        program_rule(a[0]),
                        if a.len() > 64 {
                            Some("run_validation argv has more than 64 entries"@)
                        } else {
                            or_else(
                                first_fault((a.len() - 1) as nat, argument_step(a)),
                                if program_allowed(caps, a[0]) {
                                    None
                                } else {
                                    Some("program "@ + a[0] + " is outside the requested run_validation programs"@)
                                },
                            )
                        },
                    )
                }
            },
        },
    }
}

/// Checks a file opened by a panel or command.
fn validate_readable(recipe: &ExtensionRecipe, what: &str, label: &str, path: &str) -> (r: Result<(), ExtensionError>)
    requires
        scopes_build(recipe.capabilities@, CapabilityKind::ReadProject),
    ensures
        outcome(r, as_invalid(readable_rule(recipe.capabilities@, what@, label@, path@))),
{
    let p = validate_relative_path(label, path);
    if p.is_err() {
        return p;
    }
    if project_path_allowed(recipe, CapabilityKind::ReadProject, path) {
        Ok(())
    } else {
        Err(ExtensionError::Invalid(text3(what, path, " is outside the requested read_project paths")))
    }
}

/// True when a `run_validation` capability lists the program.
fn run_allowed(recipe: &ExtensionRecipe, program: &str) -> (r: bool)
    ensures
        r == program_allowed(recipe.capabilities@, program@),
{
    let caps = &recipe.capabilities;
    let mut i: usize = 0;
    while i < caps.len()
        invariant
            caps@ == recipe.capabilities@,
            i <= caps@.len(),
            forall|a: int, b: int|
                0 <= a < i && 0 <= b < programs_of(caps@[a]).len() ==> #[trigger] programs_of(caps@[a])[b] != program@,
        decreases caps@.len() - i,
    {
        match &caps[i] {
            Capability::RunValidation { programs } => {
                let mut j: usize = 0;
                while j < programs.len()
                    invariant
                        caps@ == recipe.capabilities@,
                        i < caps@.len(),
                        texts(programs@) == programs_of(caps@[i as int]),
                        j <= programs@.len(),
                        forall|a: int, b: int|
                            0 <= a < i && 0 <= b < programs_of(caps@[a]).len() ==> #[trigger] programs_of(caps@[a])[b]
                                != program@,
                        forall|b: int| 0 <= b < j ==> #[trigger] programs_of(caps@[i as int])[b] != program@,
                    decreases programs@.len() - j,
                {
                    assert(programs_of(caps@[i as int])[j as int] == programs@[j as int]@);
                    if str_eq(programs[j].as_str(), program) {
                        return true;
                    }
                    j = j + 1;
                }
            },
            _ => {
                assert(programs_of(caps@[i as int]).len() == 0);
            },
        }
        i = i + 1;
    }
    false
}

/// Checks a contribution against [`contribution_rule`]. Recipe validation
/// calls it only once every capability has passed, so every granted path
/// pattern builds ([`lemma_valid_capabilities_build`]).
#[verifier::loop_isolation(false)]
fn validate_contribution(recipe: &ExtensionRecipe, contribution: &Contribution) -> (r: Result<(), ExtensionError>)
    requires
        scopes_build(recipe.capabilities@, CapabilityKind::ReadProject),
    ensures
        outcome(r, as_invalid(contribution_rule(recipe.capabilities@, *contribution))),
{
    match contribution {
        Contribution::Panel { view, .. } => match view {
            PanelView::Markdown { content } => validate_text("panel markdown", content.as_str(), 1, 32768),
            PanelView::GraphQuery { question } => {
                let q = require_capability(recipe, CapabilityKind::ReadGraph);
                if q.is_err() {
                    return q;
                }
                validate_text("panel graph question", question.as_str(), 1, 1000)
            },
            PanelView::File { path } => validate_readable(recipe, "panel file ", "panel file path", path.as_str()),
        },
        Contribution::Command { action, .. } => match action {
            CommandAction::AskGraph { question } => {
                let q = require_capability(recipe, CapabilityKind::ReadGraph);
                if q.is_err() {
                    return q;
                }
                validate_text("command graph question", question.as_str(), 1, 1000)
            },
            CommandAction::OpenFile { path, line } => {
                let p = validate_relative_path("command file path", path.as_str());
                if p.is_err() {
                    return p;
                }
                match line {
                    Some(l) => {
                        if *l == 0 || *l > 10000000 {
                            return Err(
                                ExtensionError::Invalid(
                                    "command file line must be between 1 and 10000000".to_string(),
                                ),
                            );
                        }
                    },
                    None => {},
                }
                validate_readable(recipe, "command file ", "command file path", path.as_str())
            },
            CommandAction::RunValidation { argv } => {
                let ghost a = texts(argv@);
                if argv.len() == 0 {
                    return Err(ExtensionError::Invalid("run_validation argv is empty".to_string()));
                }
                assert(a[0] == argv@[0]@);
                let p = validate_program(argv[0].as_str());
                if p.is_err() {
                    return p;
                }
                if argv.len() > 64 {
                    return Err(
                        ExtensionError::Invalid("run_validation argv has more than 64 entries".to_string()),
                    );
                }
                let ghost f = argument_step(a);
                let mut k: usize = 1;
                while k < argv.len()
                    invariant
                        1 <= k <= argv@.len(),
                        a == texts(argv@),
                        f == argument_step(a),
                        first_fault((k - 1) as nat, f) is None,
                    decreases argv@.len() - k,
                {
                    assert(a[k as int] == argv@[k as int]@);
                    assert(f((k - 1) as int) == text_rule("run_validation argument"@, a[k as int], 0, 4096));
                    let t = validate_text("run_validation argument", argv[k].as_str(), 0, 4096);
                    if t.is_err() {
                        proof {
                            lemma_first_fault_stop((k - 1) as nat, (a.len() - 1) as nat, f);
                        }
                        return t;
                    }
                    k = k + 1;
                }
                if run_allowed(recipe, argv[0].as_str()) {
                    Ok(())
                } else {
                    Err(
                        ExtensionError::Invalid(
                            text3("program ", argv[0].as_str(), " is outside the requested run_validation programs"),
                        ),
                    )
                }
            },
        },
    }
}

/// Contribution `k` of the recipe: a slug id of at most 64 bytes, a title,
/// an id not used before, the `contribute_ui` capability, and what its view
/// or action needs.
pub open spec fn contribution_step(r: ExtensionRecipe) -> spec_fn(int) -> Option<Seq<char>> {
    |k: int|
        {
            let cs = r.contributions@;
            let c = cs[k];
            or_else(
                slug_rule("contribution id"@, contribution_id(c), 64),
                or_else(
                    text_rule("contribution title"@, contribution_title(c), 1, 80),
                    if exists|i: int| 0 <= i < k && contribution_id(cs[i]) == contribution_id(c) {
                        Some("duplicate contribution id "@ + contribution_id(c))
                    } else {
                        or_else(
                            require_rule(r.capabilities@, CapabilityKind::ContributeUi),
                            contribution_rule(r.capabilities@, c),
                        )
                    },
                ),
            )
        }
}

/// The size of a projection's contents in bytes.
pub open spec fn projection_bytes(p: ProjectProjection) -> nat {
    encode_utf8(p.contents@).len()
}

/// The total size of the first `n` projections.
pub open spec fn bytes_through(ps: Seq<ProjectProjection>, n: nat) -> nat
    decreases n,
{
    if n == 0 {
        0
    } else {
        bytes_through(ps, (n - 1) as nat) + projection_bytes(ps[n - 1])
    }
}

/// Projection `k`: a normalized path not used before, at most 1 MiB, the
/// running total at most 4 MiB, inside a `write_project` scope.
pub open spec fn projection_step(r: ExtensionRecipe) -> spec_fn(int) -> Option<Seq<char>> {
    |k: int|
        {
            let ps = r.projections@;
            let p = ps[k];
            or_else(
                relative_path_rule("projection path"@, p.path@),
                if exists|i: int| 0 <= i < k && ps[i].path@ == p.path@ {
                    Some("duplicate projection path "@ + p.path@)
                } else if projection_bytes(p) > 1048576 {
                    Some("projection "@ + p.path@ + " exceeds 1048576 bytes"@)
                } else if bytes_through(ps, (k + 1) as nat) > 4194304 {
                    Some("all projections exceed 4194304 bytes"@)
                } else if !path_allowed(r.capabilities@, CapabilityKind::WriteProject, p.path@) {
                    Some("projection "@ + p.path@ + " is outside the requested write_project paths"@)
                } else {
                    None
                },
            )
        }
}

/// Everything a recipe must satisfy, checked in order; `None` when it is
/// valid, else the first violation.
#[verifier::opaque]
pub open spec fn recipe_rule(r: ExtensionRecipe) -> Option<Seq<char>> {
    if r.version != 1 {
        Some("unsupported recipe version "@ + nat_decimal(r.version as nat) + "; expected 1"@)
    } else {
        or_else(
            extension_id_rule(r.id@),
            or_else(
                text_rule("name"@, r.name@, 1, 80),
                or_else(
                    text_rule("description"@, r.description@, 1, 500),
                    or_else(
                        text_rule("intent"@, r.intent@, 1, 2000),
                        if r.capabilities@.len() > 32 {
                            Some("at most 32 capabilities are allowed"@)
                        } else if r.contributions@.len() > 64 {
                            Some("at most 64 contributions are allowed"@)
                        } else if r.projections@.len() > 64 {
                            Some("at most 64 projections are allowed"@)
                        } else {
                            or_else(
                                first_fault(r.capabilities@.len(), capability_step(r.capabilities@)),
                                or_else(
                                    first_fault(r.contributions@.len(), contribution_step(r)),
                                    first_fault(r.projections@.len(), projection_step(r)),
                                ),
                            )
                        },
                    ),
                ),
            ),
        )
    }
}

/// A valid recipe.
pub open spec fn recipe_valid(r: ExtensionRecipe) -> bool {
    recipe_rule(r) is None
}

/// Once every capability passes, every project scope is a buildable glob.
pub proof fn lemma_valid_capabilities_build(caps: Seq<Capability>, kind: CapabilityKind)
    requires
        first_fault(caps.len(), capability_step(caps)) is None,
    ensures
        scopes_build(caps, kind),
{
    assert forall|i: int, j: int|
        0 <= i < caps.len() && 0 <= j < scope_of(caps[i], kind).len() implies (#[trigger] glob_build_error(
        scope_of(caps[i], kind)[j],
    )) is None by {
        lemma_first_fault_none(caps.len(), capability_step(caps), i);
        assert(capability_step(caps)(i) is None);
        let c = caps[i];
        let sc = scope_of(c, kind);
        match c {
            Capability::ReadProject { paths } => {
                let f = list_step("read_project.paths"@, ItemRule::ReadPath, texts(paths@));
                lemma_first_fault_none(texts(paths@).len(), f, j);
                assert(f(j) is None);
                assert(relative_pattern_rule("read_project path"@, sc[j]) is None);
            },
            Capability::WriteProject { paths } => {
                let f = list_step("write_project.paths"@, ItemRule::WritePath, texts(paths@));
                lemma_first_fault_none(texts(paths@).len(), f, j);
                assert(f(j) is None);
                assert(relative_pattern_rule("write_project path"@, sc[j]) is None);
            },
            _ => {},
        }
    }
}

/// The bytes of a projection's contents.
fn contents_len(p: &ProjectProjection) -> (r: usize)
    ensures
        r == projection_bytes(*p),
{
    p.contents.as_str().as_bytes().len()
}

impl ExtensionRecipe {
    /// Checks the recipe against every rule of [`recipe_rule`], in order;
    /// the error names the first violation.
    #[verifier::loop_isolation(false)]
    pub fn validate(&self) -> (r: Result<(), ExtensionError>)
        ensures
            outcome(r, as_invalid(recipe_rule(*self))),
    {
        reveal(recipe_rule);
        if self.version != 1 {
            let mut m = String::new();
            push_str(&mut m, "unsupported recipe version ");
            push_u64_decimal(&mut m, self.version as u64);
            push_str(&mut m, "; expected 1");
            assert(m@ =~= "unsupported recipe version "@ + nat_decimal(self.version as nat) + "; expected 1"@);
            return Err(ExtensionError::Invalid(m));
        }
        let c = validate_extension_id(self.id.as_str());
        if c.is_err() {
            return c;
        }
        let c = validate_text("name", self.name.as_str(), 1, 80);
        if c.is_err() {
            return c;
        }
        let c = validate_text("description", self.description.as_str(), 1, 500);
        if c.is_err() {
            return c;
        }
        let c = validate_text("intent", self.intent.as_str(), 1, 2000);
        if c.is_err() {
            return c;
        }
        if self.capabilities.len() > 32 {
            return Err(ExtensionError::Invalid("at most 32 capabilities are allowed".to_string()));
        }
        if self.contributions.len() > 64 {
            return Err(ExtensionError::Invalid("at most 64 contributions are allowed".to_string()));
        }
        if self.projections.len() > 64 {
            return Err(ExtensionError::Invalid("at most 64 projections are allowed".to_string()));
        }
        // capabilities
        let caps = &self.capabilities;
        let ghost fc = capability_step(caps@);
        let mut i: usize = 0;
        while i < caps.len()
            invariant
                i <= caps@.len(),
                first_fault(i as nat, fc) is None,
            decreases caps@.len() - i,
        {
            let kind = caps[i].kind();
            let mut j: usize = 0;
            while j < i
                invariant
                    i < caps@.len(),
                    j <= i,
                    kind == cap_kind(caps@[i as int]),
                    forall|k: int| 0 <= k < j ==> cap_kind(#[trigger] caps@[k]) != kind,
                decreases i - j,
            {
                if caps[j].kind() == kind {
                    assert(fc(i as int) == Some(
                        "capability "@ + kind_name(kind) + " is declared more than once"@,
                    ));
                    proof {
                        lemma_first_fault_stop(i as nat, caps@.len(), fc);
                    }
                    return Err(
                        ExtensionError::Invalid(
                            text3("capability ", kind.name(), " is declared more than once"),
                        ),
                    );
                }
                j = j + 1;
            }
            let v = validate_capability(&caps[i]);
            assert(fc(i as int) == capability_rule(caps@[i as int]));
            if v.is_err() {
                proof {
                    lemma_first_fault_stop(i as nat, caps@.len(), fc);
                }
                return v;
            }
            i = i + 1;
        }
        proof {
            lemma_valid_capabilities_build(caps@, CapabilityKind::ReadProject);
            lemma_valid_capabilities_build(caps@, CapabilityKind::WriteProject);
        }
        // contributions
        let cs = &self.contributions;
        let ghost fk = contribution_step(*self);
        let mut i: usize = 0;
        while i < cs.len()
            invariant
                i <= cs@.len(),
                first_fault(i as nat, fk) is None,
            decreases cs@.len() - i,
        {
            let c = &cs[i];
            let v = validate_slug("contribution id", c.id(), 64);
            if v.is_err() {
                proof {
                    lemma_first_fault_stop(i as nat, cs@.len(), fk);
                }
                return v;
            }
            let v = validate_text("contribution title", c.title(), 1, 80);
            if v.is_err() {
                proof {
                    lemma_first_fault_stop(i as nat, cs@.len(), fk);
                }
                return v;
            }
            let mut j: usize = 0;
            while j < i
                invariant
                    i < cs@.len(),
                    j <= i,
                    forall|k: int| 0 <= k < j ==> contribution_id(#[trigger] cs@[k]) != contribution_id(cs@[i as int]),
                decreases i - j,
            {
                if str_eq(cs[j].id(), c.id()) {
                    assert(fk(i as int) == Some("duplicate contribution id "@ + contribution_id(cs@[i as int])));
                    proof {
                        lemma_first_fault_stop(i as nat, cs@.len(), fk);
                    }
                    return Err(ExtensionError::Invalid(text2("duplicate contribution id ", c.id())));
                }
                j = j + 1;
            }
            let v = require_capability(self, CapabilityKind::ContributeUi);
            if v.is_err() {
                proof {
                    lemma_first_fault_stop(i as nat, cs@.len(), fk);
                }
                return v;
            }
            let v = validate_contribution(self, c);
            if v.is_err() {
                proof {
                    lemma_first_fault_stop(i as nat, cs@.len(), fk);
                }
                return v;
            }
            i = i + 1;
        }
        // projections
        let ps = &self.projections;
        let ghost fp = projection_step(*self);
        let mut total: usize = 0;
        let mut i: usize = 0;
        while i < ps.len()
            invariant
                i <= ps@.len(),
                first_fault(i as nat, fp) is None,
                total == bytes_through(ps@, i as nat),
                total <= 4194304,
            decreases ps@.len() - i,
        {
            let p = &ps[i];
            let v = validate_relative_path("projection path", p.path.as_str());
            if v.is_err() {
                proof {
                    lemma_first_fault_stop(i as nat, ps@.len(), fp);
                }
                return v;
            }
            let mut j: usize = 0;
            while j < i
                invariant
                    i < ps@.len(),
                    j <= i,
                    forall|k: int| 0 <= k < j ==> (#[trigger] ps@[k]).path@ != ps@[i as int].path@,
                decreases i - j,
            {
                if str_eq(ps[j].path.as_str(), p.path.as_str()) {
                    assert(fp(i as int) == Some("duplicate projection path "@ + p.path@));
                    proof {
                        lemma_first_fault_stop(i as nat, ps@.len(), fp);
                    }
                    return Err(ExtensionError::Invalid(text2("duplicate projection path ", p.path.as_str())));
                }
                j = j + 1;
            }
            let size = contents_len(p);
            if size > 1048576 {
                assert(fp(i as int) == Some("projection "@ + p.path@ + " exceeds 1048576 bytes"@));
                proof {
                    lemma_first_fault_stop(i as nat, ps@.len(), fp);
                }
                return Err(ExtensionError::Invalid(text3("projection ", p.path.as_str(), " exceeds 1048576 bytes")));
            }
            total = total + size;
            if total > 4194304 {
                assert(fp(i as int) == Some("all projections exceed 4194304 bytes"@));
                proof {
                    lemma_first_fault_stop(i as nat, ps@.len(), fp);
                }
                return Err(ExtensionError::Invalid("all projections exceed 4194304 bytes".to_string()));
            }
            if !project_path_allowed(self, CapabilityKind::WriteProject, p.path.as_str()) {
                assert(fp(i as int) == Some(
                    "projection "@ + p.path@ + " is outside the requested write_project paths"@,
                ));
                proof {
                    lemma_first_fault_stop(i as nat, ps@.len(), fp);
                }
                return Err(
                    ExtensionError::Invalid(
                        text3("projection ", p.path.as_str(), " is outside the requested write_project paths"),
                    ),
                );
            }
            assert(fp(i as int) is None);
            i = i + 1;
        }
        Ok(())
    }
}

/// The parts of a valid recipe each pass their own rule.
proof fn lemma_valid_parts(r: ExtensionRecipe)
    requires
        recipe_valid(r),
    ensures
        r.version == 1,
        first_fault(r.capabilities@.len(), capability_step(r.capabilities@)) is None,
        first_fault(r.contributions@.len(), contribution_step(r)) is None,
        first_fault(r.projections@.len(), projection_step(r)) is None,
{
    reveal(recipe_rule);
}

/// In a valid recipe no capability kind is declared twice.
pub proof fn law_valid_recipe_kinds_are_distinct(r: ExtensionRecipe, i: int, j: int)
    requires
        recipe_valid(r),
        0 <= i < j < r.capabilities@.len(),
    ensures
        cap_kind(r.capabilities@[i]) != cap_kind(r.capabilities@[j]),
{
    lemma_valid_parts(r);
    lemma_first_fault_none(r.capabilities@.len(), capability_step(r.capabilities@), j);
}

/// In a valid recipe every projection lies inside a `write_project` scope.
pub proof fn law_valid_recipe_projections_are_granted(r: ExtensionRecipe, k: int)
    requires
        recipe_valid(r),
        0 <= k < r.projections@.len(),
    ensures
        path_allowed(r.capabilities@, CapabilityKind::WriteProject, r.projections@[k].path@),
        projection_bytes(r.projections@[k]) <= 1048576,
        bytes_through(r.projections@, r.projections@.len()) <= 4194304,
{
    lemma_valid_parts(r);
    lemma_first_fault_none(r.projections@.len(), projection_step(r), k);
    let n = r.projections@.len();
    lemma_first_fault_none(n, projection_step(r), n - 1);
}

/// In a valid recipe every contribution is backed by the capabilities it
/// uses: `contribute_ui` always, `read_graph` for graph questions, a
/// `read_project` scope for opened files, and a `run_validation` program
/// list naming the command's program.
pub proof fn law_valid_recipe_contributions_are_backed(r: ExtensionRecipe, k: int)
    requires
        recipe_valid(r),
        0 <= k < r.contributions@.len(),
    ensures
        has_kind(r.capabilities@, CapabilityKind::ContributeUi),
        match r.contributions@[k] {
            Contribution::Panel { view, .. } => match view {
                PanelView::GraphQuery { .. } => has_kind(r.capabilities@, CapabilityKind::ReadGraph),
                PanelView::File { path } => path_allowed(r.capabilities@, CapabilityKind::ReadProject, path@),
                PanelView::Markdown { .. } => true,
            },
            Contribution::Command { action, .. } => match action {
                CommandAction::AskGraph { .. } => has_kind(r.capabilities@, CapabilityKind::ReadGraph),
                CommandAction::OpenFile { path, .. } => path_allowed(
                    r.capabilities@,
                    CapabilityKind::ReadProject,
                    path@,
                ),
                CommandAction::RunValidation { argv } => argv@.len() > 0 && program_allowed(
                    r.capabilities@,
                    argv@[0]@,
                ),
            },
        },
{
    lemma_valid_parts(r);
    lemma_first_fault_none(r.contributions@.len(), contribution_step(r), k);
    let c = r.contributions@[k];
    match c {
        Contribution::Command { action, .. } => match action {
            CommandAction::RunValidation { argv } => {
                assert(texts(argv@)[0] == argv@[0]@);
            },
            _ => {},
        },
        _ => {},
    }
}

} // verus!
