//! Source files of a project: which language a file is written in, and the
//! normalized project-relative paths under which incremental updates name
//! files.

use vstd::prelude::*;
use crate::dap::{debug_quoted, quoted};
use crate::fields::{has_char, split_on, split_text, texts};
use crate::strmap::str_eq;
use crate::text::{chars_of, push_char, push_str, string_of};

verus! {

/// A language whose files can be projected into the graph.
#[derive(Debug, Clone, Copy, PartialEq, Eq, Structural)]
pub enum Lang {
    Rust,
    Python,
    TypeScript,
    Tsx,
    Go,
}

/// The text after the last `.` of a path (the whole path when it has none).
pub open spec fn last_dot_piece(path: Seq<char>) -> Seq<char> {
    split_on(path, '.').last()
}

/// The language of a file, by its extension: the text after its last `.`.
/// A path without a `.` has no extension and no language.
pub open spec fn lang_of(path: Seq<char>) -> Option<Lang> {
    let e = last_dot_piece(path);
    if split_on(path, '.').len() < 2 {
        None
    } else if e == "rs"@ {
        Some(Lang::Rust)
    } else if e == "py"@ {
        Some(Lang::Python)
    } else if e == "ts"@ || e == "mts"@ || e == "cts"@ {
        Some(Lang::TypeScript)
    } else if e == "tsx"@ {
        Some(Lang::Tsx)
    } else if e == "go"@ {
        Some(Lang::Go)
    } else {
        None
    }
}

/// The name a language is reported under.
pub open spec fn lang_name(l: Lang) -> Seq<char> {
    match l {
        Lang::Rust => "rust"@,
        Lang::Python => "python"@,
        Lang::TypeScript | Lang::Tsx => "typescript"@,
        Lang::Go => "go"@,
    }
}

impl Lang {
    /// The language of a file, inferred from its extension.
    pub fn from_path(path: &str) -> (r: Option<Lang>)
        ensures
            r == lang_of(path@),
    {
        let pieces = split_text(path, '.');
        proof {
            crate::fields::lemma_split_nonempty(path@, '.');
        }
        if pieces.len() < 2 {
            return None;
        }
        let e = pieces[pieces.len() - 1].as_str();
        assert(e@ == last_dot_piece(path@));
        if str_eq(e, "rs") {
            Some(Lang::Rust)
        } else if str_eq(e, "py") {
            Some(Lang::Python)
        } else if str_eq(e, "ts") || str_eq(e, "mts") || str_eq(e, "cts") {
            Some(Lang::TypeScript)
        } else if str_eq(e, "tsx") {
            Some(Lang::Tsx)
        } else if str_eq(e, "go") {
            Some(Lang::Go)
        } else {
            None
        }
    }

    /// The name the language is reported under; both TypeScript dialects
    /// report `typescript`.
    pub fn name(self) -> (r: &'static str)
        ensures
            r@ == lang_name(self),
    {
        match self {
            Lang::Rust => "rust",
            Lang::Python => "python",
            Lang::TypeScript | Lang::Tsx => "typescript",
            Lang::Go => "go",
        }
    }

    /// True for both TypeScript dialects.
    pub fn is_typescript(self) -> (r: bool)
        ensures
            r == (self == Lang::TypeScript || self == Lang::Tsx),
    {
        match self {
            Lang::TypeScript | Lang::Tsx => true,
            _ => false,
        }
    }
}

// ---------------------------------------------------------------- updates

/// A created or replaced file carries its source; a deleted one carries
/// none. A move is a deletion and a creation in the same batch.
pub struct FileChange {
    pub path: String,
    pub source: Option<String>,
}

impl FileChange {
    /// The file at `path` now holds `source`.
    pub fn replace(path: String, source: String) -> (r: Self)
        ensures
            r.path@ == path@,
            r.source == Some(source),
    {
        FileChange { path, source: Some(source) }
    }

    /// The file at `path` is gone.
    pub fn delete(path: String) -> (r: Self)
        ensures
            r.path@ == path@,
            r.source is None,
    {
        FileChange { path, source: None }
    }
}

/// Why an update falls back to rebuilding the whole project.
#[derive(Debug, Clone, Copy, PartialEq, Eq, Structural)]
pub enum FullRebuildReason {
    OwnershipChanged,
    ConfigurationChanged,
    UncertainEventMapping,
    CacheInconsistent,
    DirtySetExceedsHalf,
}

/// The name a rebuild reason is reported under.
pub open spec fn reason_name(r: FullRebuildReason) -> Seq<char> {
    match r {
        FullRebuildReason::OwnershipChanged => "ownership_changed"@,
        FullRebuildReason::ConfigurationChanged => "configuration_changed"@,
        FullRebuildReason::UncertainEventMapping => "uncertain_event_mapping"@,
        FullRebuildReason::CacheInconsistent => "cache_inconsistent"@,
        FullRebuildReason::DirtySetExceedsHalf => "dirty_set_exceeds_half"@,
    }
}

impl FullRebuildReason {
    /// The name the reason is reported under.
    pub fn as_str(self) -> (r: &'static str)
        ensures
            r@ == reason_name(self),
    {
        match self {
            FullRebuildReason::OwnershipChanged => "ownership_changed",
            FullRebuildReason::ConfigurationChanged => "configuration_changed",
            FullRebuildReason::UncertainEventMapping => "uncertain_event_mapping",
            FullRebuildReason::CacheInconsistent => "cache_inconsistent",
            FullRebuildReason::DirtySetExceedsHalf => "dirty_set_exceeds_half",
        }
    }
}

/// A path that is not a supported project-relative source path.
#[derive(Debug)]
pub struct UpdateError(pub String);

impl UpdateError {
    /// The error as displayed: the refused path, quoted.
    pub fn message(&self) -> (r: String)
        ensures
            r@ == "expected a supported project-relative source path, got "@ + debug_quoted(self.0@),
    {
        let mut s = String::new();
        push_str(&mut s, "expected a supported project-relative source path, got ");
        let q = quoted(self.0.as_str());
        push_str(&mut s, q.as_str());
        s
    }
}

/// Both platform separators read as `/`.
pub open spec fn forward_slashes(s: Seq<char>) -> Seq<char> {
    s.map_values(|c: char| if c == '\\' { '/' } else { c })
}

/// The pieces that name something: neither empty nor `.`.
pub open spec fn named_parts(ps: Seq<Seq<char>>) -> Seq<Seq<char>>
    decreases ps.len(),
{
    if ps.len() == 0 {
        seq![]
    } else {
        let earlier = named_parts(ps.drop_last());
        if ps.last().len() > 0 && ps.last() != "."@ {
            earlier.push(ps.last())
        } else {
            earlier
        }
    }
}

/// The pieces joined with `/`.
pub open spec fn join_slash(ps: Seq<Seq<char>>) -> Seq<char>
    decreases ps.len(),
{
    if ps.len() == 0 {
        seq![]
    } else if ps.len() == 1 {
        ps[0]
    } else {
        join_slash(ps.drop_last()) + "/"@ + ps.last()
    }
}

/// The normalized form of a project-relative source path: separators made
/// `/`, empty and `.` pieces dropped. Absolute paths, drive prefixes (any
/// `:`), NUL, any `..` piece, an empty result and an unsupported extension
/// are refused.
pub open spec fn normalized_source(path: Seq<char>) -> Option<Seq<char>> {
    let n = forward_slashes(path);
    if (n.len() > 0 && n[0] == '/') || has_char(n, ':') || has_char(n, '\0') {
        None
    } else {
        let parts = named_parts(split_on(n, '/'));
        if parts.len() == 0 || parts.contains(".."@) {
            None
        } else {
            let joined = join_slash(parts);
            if lang_of(joined) is None {
                None
            } else {
                Some(joined)
            }
        }
    }
}

/// Normalizes a project-relative source path, or refuses it.
#[verifier::loop_isolation(false)]
pub fn normalize_source_path(path: &str) -> (r: Result<String, UpdateError>)
    ensures
        match r {
            Ok(s) => normalized_source(path@) == Some(s@),
            Err(e) => normalized_source(path@) is None && e.0@ == path@,
        },
{
    let cs = chars_of(path);
    let mut n: Vec<char> = Vec::new();
    let mut i: usize = 0;
    while i < cs.len()
        invariant
            cs@ == path@,
            i <= cs@.len(),
            n@ == forward_slashes(cs@.take(i as int)),
        decreases cs@.len() - i,
    {
        let c = cs[i];
        n.push(if c == '\\' { '/' } else { c });
        i = i + 1;
        assert(n@ =~= forward_slashes(cs@.take(i as int)));
    }
    assert(cs@.take(cs@.len() as int) =~= cs@);
    let mut k: usize = 0;
    while k < n.len()
        invariant
            k <= n@.len(),
            forall|j: int| 0 <= j < k ==> n@[j] != ':' && n@[j] != '\0',
        decreases n@.len() - k,
    {
        if n[k] == ':' || n[k] == '\0' {
            return Err(UpdateError(path.to_string()));
        }
        k = k + 1;
    }
    if n.len() > 0 && n[0] == '/' {
        return Err(UpdateError(path.to_string()));
    }
    let text = string_of(n.as_slice());
    let pieces = split_text(text.as_str(), '/');
    let mut parts: Vec<String> = Vec::new();
    let mut q: usize = 0;
    proof {
        reveal_strlit("");
    }
    while q < pieces.len()
        invariant
            q <= pieces@.len(),
            texts(pieces@) == split_on(n@, '/'),
            texts(parts@) == named_parts(texts(pieces@).take(q as int)),
        decreases pieces@.len() - q,
    {
        assert(texts(pieces@).take(q + 1).drop_last() =~= texts(pieces@).take(q as int));
        assert(texts(pieces@).take(q + 1).last() == pieces@[q as int]@);
        let p = pieces[q].as_str();
        proof {
            reveal_strlit("");
            if p@.len() == 0 {
                assert(p@ =~= ""@);
            }
        }
        if !(str_eq(p, "") || str_eq(p, ".")) {
            parts.push(pieces[q].clone());
            assert(texts(parts@) =~= named_parts(texts(pieces@).take(q + 1)));
        }
        q = q + 1;
    }
    assert(texts(pieces@).take(pieces@.len() as int) =~= texts(pieces@));
    if parts.len() == 0 {
        return Err(UpdateError(path.to_string()));
    }
    let mut d: usize = 0;
    while d < parts.len()
        invariant
            d <= parts@.len(),
            forall|j: int| 0 <= j < d ==> texts(parts@)[j] != ".."@,
        decreases parts@.len() - d,
    {
        if str_eq(parts[d].as_str(), "..") {
            assert(texts(parts@)[d as int] == ".."@);
            return Err(UpdateError(path.to_string()));
        }
        d = d + 1;
    }
    assert(!texts(parts@).contains(".."@));
    let mut joined = String::new();
    let mut w: usize = 0;
    while w < parts.len()
        invariant
            w <= parts@.len(),
            joined@ == join_slash(texts(parts@).take(w as int)),
        decreases parts@.len() - w,
    {
        assert(texts(parts@).take(w + 1).drop_last() =~= texts(parts@).take(w as int));
        if w > 0 {
            push_char(&mut joined, '/');
        }
        push_str(&mut joined, parts[w].as_str());
        proof {
            reveal_strlit("/");
            if w == 0 {
                assert(texts(parts@).take(1) =~= seq![parts@[0]@]);
            }
        }
        assert(joined@ =~= join_slash(texts(parts@).take(w + 1)));
        w = w + 1;
    }
    assert(texts(parts@).take(parts@.len() as int) =~= texts(parts@));
    if Lang::from_path(joined.as_str()).is_none() {
        return Err(UpdateError(path.to_string()));
    }
    Ok(joined)
}

// ---------------------------------------------------------------- normal forms

/// Every character of every piece of a split is a character of the text
/// other than the separator.
proof fn lemma_split_chars(s: Seq<char>, sep: char, ok: spec_fn(char) -> bool)
    requires
        forall|i: int| 0 <= i < s.len() ==> ok(#[trigger] s[i]),
    ensures
        forall|k: int, j: int|
            0 <= k < split_on(s, sep).len() && 0 <= j < split_on(s, sep)[k].len() ==> ok(
                #[trigger] split_on(s, sep)[k][j],
            ) && split_on(s, sep)[k][j] != sep,
    decreases s.len(),
{
    if s.len() > 0 {
        lemma_split_chars(s.drop_last(), sep, ok);
        crate::fields::lemma_split_nonempty(s.drop_last(), sep);
        let prev = split_on(s.drop_last(), sep);
        assert forall|k: int, j: int|
            0 <= k < split_on(s, sep).len() && 0 <= j < split_on(s, sep)[k].len() implies ok(
                #[trigger] split_on(s, sep)[k][j],
            ) && split_on(s, sep)[k][j] != sep by {
            if s.last() != sep && k == prev.len() - 1 && j == prev.last().len() {
                assert(split_on(s, sep)[k][j] == s.last());
                assert(ok(s[s.len() - 1]));
            } else if s.last() != sep && k == prev.len() - 1 {
                assert(split_on(s, sep)[k][j] == prev[k][j]);
            } else if s.last() == sep && k == prev.len() {
            } else {
                assert(split_on(s, sep)[k] == prev[k]);
            }
        }
    }
}

/// The kept pieces are pieces of the list, each naming something.
proof fn lemma_named_parts(ps: Seq<Seq<char>>)
    ensures
        forall|k: int|
            0 <= k < named_parts(ps).len() ==> (#[trigger] named_parts(ps)[k]).len() > 0 && named_parts(ps)[k]
                != "."@ && exists|m: int| 0 <= m < ps.len() && ps[m] == named_parts(ps)[k],
    decreases ps.len(),
{
    if ps.len() > 0 {
        lemma_named_parts(ps.drop_last());
        let e = named_parts(ps.drop_last());
        assert forall|k: int| 0 <= k < named_parts(ps).len() implies (#[trigger] named_parts(ps)[k]).len() > 0
            && named_parts(ps)[k] != "."@ && exists|m: int| 0 <= m < ps.len() && ps[m] == named_parts(ps)[k] by {
            if k < e.len() {
                assert(named_parts(ps)[k] == e[k]);
                let m = choose|m: int| 0 <= m < ps.drop_last().len() && ps.drop_last()[m] == e[k];
                assert(ps[m] == e[k]);
            } else {
                assert(ps[ps.len() - 1] == named_parts(ps)[k]);
            }
        }
    }
}

/// Pieces that all name something are kept as they are.
proof fn lemma_named_parts_keep(ps: Seq<Seq<char>>)
    requires
        forall|k: int| 0 <= k < ps.len() ==> (#[trigger] ps[k]).len() > 0 && ps[k] != "."@,
    ensures
        named_parts(ps) == ps,
    decreases ps.len(),
{
    if ps.len() > 0 {
        lemma_named_parts_keep(ps.drop_last());
        assert(ps.drop_last().push(ps.last()) =~= ps);
    }
}

/// Every character of a `/`-join is `/` or a character of a piece.
proof fn lemma_join_chars(ps: Seq<Seq<char>>, ok: spec_fn(char) -> bool)
    requires
        ok('/'),
        forall|k: int, j: int| 0 <= k < ps.len() && 0 <= j < ps[k].len() ==> ok(#[trigger] ps[k][j]),
    ensures
        forall|i: int| 0 <= i < join_slash(ps).len() ==> ok(#[trigger] join_slash(ps)[i]),
    decreases ps.len(),
{
    if ps.len() >= 2 {
        lemma_join_chars(ps.drop_last(), ok);
        let a = join_slash(ps.drop_last());
        reveal_strlit("/");
        assert forall|i: int| 0 <= i < join_slash(ps).len() implies ok(#[trigger] join_slash(ps)[i]) by {
            if i < a.len() {
                assert(join_slash(ps)[i] == a[i]);
            } else if i == a.len() {
                assert(join_slash(ps)[i] == '/');
            } else {
                assert(join_slash(ps)[i] == ps.last()[i - a.len() - 1]);
                assert(ps[ps.len() - 1][i - a.len() - 1] == ps.last()[i - a.len() - 1]);
            }
        }
    } else if ps.len() == 1 {
        assert forall|i: int| 0 <= i < join_slash(ps).len() implies ok(#[trigger] join_slash(ps)[i]) by {
            assert(ps[0][i] == join_slash(ps)[i]);
        }
    }
}

/// A `/`-join starts with the first piece's first character.
proof fn lemma_join_first(ps: Seq<Seq<char>>)
    requires
        ps.len() >= 1,
        ps[0].len() > 0,
    ensures
        join_slash(ps).len() > 0,
        join_slash(ps)[0] == ps[0][0],
    decreases ps.len(),
{
    if ps.len() >= 2 {
        lemma_join_first(ps.drop_last());
    }
}

/// Appending text without separators extends the last piece.
proof fn lemma_split_extend(s: Seq<char>, t: Seq<char>, sep: char)
    requires
        forall|i: int| 0 <= i < t.len() ==> t[i] != sep,
    ensures
        split_on(s + t, sep) == split_on(s, sep).update(
            split_on(s, sep).len() - 1,
            split_on(s, sep).last() + t,
        ),
    decreases t.len(),
{
    crate::fields::lemma_split_nonempty(s, sep);
    if t.len() == 0 {
        assert(s + t =~= s);
        assert(split_on(s, sep).last() + t =~= split_on(s, sep).last());
        assert(split_on(s, sep).update(split_on(s, sep).len() - 1, split_on(s, sep).last()) =~= split_on(s, sep));
    } else {
        lemma_split_extend(s, t.drop_last(), sep);
        assert((s + t).drop_last() =~= s + t.drop_last());
        assert((s + t).last() == t.last());
        let p = split_on(s, sep);
        assert((p.last() + t.drop_last()).push(t.last()) =~= p.last() + t);
        assert(p.update(p.len() - 1, p.last() + t.drop_last()).update(p.len() - 1, p.last() + t) =~= p.update(
            p.len() - 1,
            p.last() + t,
        ));
    }
}

/// Splitting a `/`-join of pieces without `/` gives the pieces back.
proof fn lemma_split_join(ps: Seq<Seq<char>>)
    requires
        ps.len() >= 1,
        forall|k: int, j: int| 0 <= k < ps.len() && 0 <= j < ps[k].len() ==> #[trigger] ps[k][j] != '/',
    ensures
        split_on(join_slash(ps), '/') == ps,
    decreases ps.len(),
{
    if ps.len() == 1 {
        lemma_split_extend(Seq::<char>::empty(), ps[0], '/');
        assert(Seq::<char>::empty() + ps[0] =~= ps[0]);
        assert(split_on(Seq::<char>::empty(), '/') =~= seq![Seq::<char>::empty()]);
        assert(Seq::<char>::empty() + ps[0] =~= ps[0]);
        assert(split_on(ps[0], '/') =~= ps);
    } else {
        lemma_split_join(ps.drop_last());
        let a = join_slash(ps.drop_last());
        reveal_strlit("/");
        let b = ps.last();
        assert forall|i: int| 0 <= i < b.len() implies b[i] != '/' by {
            assert(ps[ps.len() - 1][i] == b[i]);
        }
        assert((a + "/"@).drop_last() =~= a);
        assert((a + "/"@).last() == '/');
        assert(split_on(a + "/"@, '/') == ps.drop_last().push(seq![]));
        lemma_split_extend(a + "/"@, b, '/');
        assert(a + "/"@ + b == join_slash(ps));
        assert(ps.drop_last().push(seq![]).update(ps.len() - 1, Seq::<char>::empty() + b) =~= ps);
    }
}

/// A character that a normalized path may hold.
pub open spec fn normal_char(c: char) -> bool {
    c != '\\' && c != ':' && c != '\0'
}

/// What a normal form looks like: no backslash, `:` or NUL, not absolute,
/// every `/`-piece naming something other than `.` or `..`, and a
/// supported extension; and it normalizes to itself.
proof fn lemma_normal_form(path: Seq<char>)
    requires
        normalized_source(path) is Some,
    ensures
        ({
            let q = normalized_source(path)->0;
            &&& !has_char(q, '\\') && !has_char(q, ':') && !has_char(q, '\0')
            &&& q.len() > 0 && q[0] != '/'
            &&& forall|k: int|
                0 <= k < split_on(q, '/').len() ==> (#[trigger] split_on(q, '/')[k]).len() > 0 && split_on(q, '/')[k]
                    != "."@ && split_on(q, '/')[k] != ".."@
            &&& lang_of(q) is Some
            &&& normalized_source(q) == Some(q)
        }),
{
    let n = forward_slashes(path);
    let pieces = split_on(n, '/');
    let parts = named_parts(pieces);
    let q = join_slash(parts);
    let ok = |c: char| normal_char(c);
    assert forall|i: int| 0 <= i < n.len() implies ok(#[trigger] n[i]) by {
        assert(n[i] == (if path[i] == '\\' { '/' } else { path[i] }));
        if n[i] == ':' {
            assert(has_char(n, ':'));
        }
        if n[i] == '\0' {
            assert(has_char(n, '\0'));
        }
    }
    lemma_split_chars(n, '/', ok);
    lemma_named_parts(pieces);
    assert forall|k: int, j: int| 0 <= k < parts.len() && 0 <= j < parts[k].len() implies ok(
        #[trigger] parts[k][j],
    ) && parts[k][j] != '/' by {
        let m = choose|m: int| 0 <= m < pieces.len() && pieces[m] == parts[k];
        assert(pieces[m][j] == parts[k][j]);
    }
    lemma_join_chars(parts, ok);
    lemma_join_first(parts);
    assert(forward_slashes(q) =~= q) by {
        assert forall|i: int| 0 <= i < q.len() implies forward_slashes(q)[i] == q[i] by {
            assert(ok(q[i]));
        }
    }
    assert(!has_char(q, ':')) by {
        if has_char(q, ':') {
            let i = choose|i: int| 0 <= i < q.len() && q[i] == ':';
            assert(ok(q[i]));
        }
    }
    assert(!has_char(q, '\0')) by {
        if has_char(q, '\0') {
            let i = choose|i: int| 0 <= i < q.len() && q[i] == '\0';
            assert(ok(q[i]));
        }
    }
    assert(q[0] != '/') by {
        assert(parts[0][0] != '/');
    }
    lemma_split_join(parts);
    lemma_named_parts_keep(parts);
    assert(!has_char(q, '\\')) by {
        if has_char(q, '\\') {
            let i = choose|i: int| 0 <= i < q.len() && q[i] == '\\';
            assert(ok(q[i]));
        }
    }
    assert forall|k: int| 0 <= k < split_on(q, '/').len() implies (#[trigger] split_on(q, '/')[k]).len() > 0
        && split_on(q, '/')[k] != "."@ && split_on(q, '/')[k] != ".."@ by {
        assert(split_on(q, '/')[k] == parts[k]);
        assert(parts.contains(parts[k]));
    }
}

/// Normalizing a normalized path gives it back: a path stored under its
/// normal form is found again by normalizing it.
pub proof fn law_normalizing_is_idempotent(path: Seq<char>)
    requires
        normalized_source(path) is Some,
    ensures
        normalized_source(normalized_source(path)->0) == normalized_source(path),
{
    lemma_normal_form(path);
}

/// A normalized path uses only `/` as separator, is relative and carries
/// no drive prefix or NUL, names something other than `.` or `..` in each
/// piece, and has a supported extension; a refused path is reported as
/// given (see [`normalize_source_path`]).
pub proof fn law_normal_form(path: Seq<char>)
    requires
        normalized_source(path) is Some,
    ensures
        ({
            let q = normalized_source(path)->0;
            &&& !has_char(q, '\\') && !has_char(q, ':') && !has_char(q, '\0')
            &&& q.len() > 0 && q[0] != '/'
            &&& forall|k: int|
                0 <= k < split_on(q, '/').len() ==> (#[trigger] split_on(q, '/')[k]).len() > 0 && split_on(q, '/')[k]
                    != "."@ && split_on(q, '/')[k] != ".."@
            &&& lang_of(q) is Some
        }),
{
    lemma_normal_form(path);
}

} // verus!
