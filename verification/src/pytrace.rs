//! Branching timelines over real Python execution traces.
//!
//! A Python run is recorded outside the library as a list of events
//! (call / line / return) with the local variables at each one; this module
//! holds those traces, numbers the what-if branches, finds where two of them
//! first diverge, and renders the one-line description of each event.

use vstd::prelude::*;
use vstd::string::StringSliceAdditionalSpecFns;
use vstd::utf8::{decode_utf8, encode_utf8, is_char_boundary};
use crate::strmap::{str_eq, StrMap};
use crate::text::{nat_decimal, push_char, push_str, push_u64_decimal};

verus! {

/// One recorded Python execution event (line / call / return).
#[derive(Debug)]
pub struct PyStep {
    pub seq: usize,
    /// Absolute path of the file where this event occurred.
    pub file: String,
    pub line: u32,
    /// `"line"`, `"call"`, or `"return"`.
    pub event: String,
    /// Snapshot of non-private local variables at this event, as `repr()` strings.
    pub locals: StrMap<String>,
    /// Pre-formatted one-liner for the panel / CLI output.
    pub description: String,
    /// True when this step was the injection site of a what-if override.
    pub intervened: bool,
}

/// A linear Python execution trace: one complete run of the target file.
#[derive(Debug)]
pub struct PyTrace {
    pub steps: Vec<PyStep>,
}

/// The text bound to `var` at its most recent occurrence.
pub open spec fn py_last_value(steps: Seq<PyStep>, var: Seq<char>) -> Option<Seq<char>>
    decreases steps.len(),
{
    if steps.len() == 0 {
        None
    } else if steps.last().locals@.contains_key(var) {
        Some(steps.last().locals@[var]@)
    } else {
        py_last_value(steps.drop_last(), var)
    }
}

impl PyTrace {
    /// Number of events.
    pub fn len(&self) -> (r: usize)
        ensures
            r == self.steps@.len(),
    {
        self.steps.len()
    }

    /// True when no event was recorded.
    pub fn is_empty(&self) -> (r: bool)
        ensures
            r == (self.steps@.len() == 0),
    {
        self.steps.len() == 0
    }

    /// The `repr()` text of `var` at its most recent occurrence.
    pub fn last_value(&self, var: &str) -> (r: Option<&str>)
        ensures
            match r {
                Some(s) => py_last_value(self.steps@, var@) == Some(s@),
                None => py_last_value(self.steps@, var@) is None,
            },
    {
        let mut i = self.steps.len();
        assert(self.steps@.take(i as int) =~= self.steps@);
        while i > 0
            invariant
                i <= self.steps@.len(),
                py_last_value(self.steps@, var@) == py_last_value(self.steps@.take(i as int), var@),
            decreases i,
        {
            assert(self.steps@.take(i as int).drop_last() =~= self.steps@.take(i - 1));
            match self.steps[i - 1].locals.get(var) {
                Some(v) => {
                    return Some(v.as_str());
                },
                None => {},
            }
            i = i - 1;
        }
        None
    }
}

/// One branch in the Python what-if timeline.
#[derive(Debug)]
pub struct PyBranch {
    pub id: usize,
    pub label: String,
    /// Absolute path of the traced file, needed when forking this branch.
    pub file: String,
    pub trace: PyTrace,
}

/// Time-travel timeline for real Python execution. Branch 0 is the
/// unmodified run; later branches are what-if forks.
pub struct PyTimeline {
    branches: Vec<PyBranch>,
}

/// Position of the first branch with the given id.
pub open spec fn find_branch(bs: Seq<PyBranch>, id: usize) -> Option<int>
    decreases bs.len(),
{
    if bs.len() == 0 {
        None
    } else {
        match find_branch(bs.drop_last(), id) {
            Some(i) => Some(i),
            None => if bs.last().id == id {
                Some(bs.len() - 1)
            } else {
                None
            },
        }
    }
}

proof fn lemma_find_branch(bs: Seq<PyBranch>, id: usize)
    ensures
        find_branch(bs, id) matches Some(i) ==> 0 <= i < bs.len() && bs[i].id == id && forall|j: int|
            0 <= j < i ==> bs[j].id != id,
        find_branch(bs, id) is None ==> forall|j: int| 0 <= j < bs.len() ==> bs[j].id != id,
    decreases bs.len(),
{
    if bs.len() > 0 {
        let prefix = bs.drop_last();
        lemma_find_branch(prefix, id);
        assert forall|j: int| 0 <= j < prefix.len() implies prefix[j] == bs[j] by {}
    }
}

proof fn lemma_find_branch_exact(bs: Seq<PyBranch>, id: usize, i: int)
    requires
        0 <= i < bs.len(),
        bs[i].id == id,
        forall|j: int| 0 <= j < i ==> bs[j].id != id,
    ensures
        find_branch(bs, id) == Some(i),
{
    lemma_find_branch(bs, id);
}

/// The `seq` of the first paired event (up to the shorter trace, among the
/// first `n`) whose locals differ.
pub open spec fn py_first_diff(ta: Seq<PyStep>, tb: Seq<PyStep>, n: nat) -> Option<usize>
    decreases n,
{
    if n == 0 {
        None
    } else {
        match py_first_diff(ta, tb, (n - 1) as nat) {
            Some(s) => Some(s),
            None => if ta[n - 1].locals.text_pairs() != tb[n - 1].locals.text_pairs() {
                Some(ta[n - 1].seq)
            } else {
                None
            },
        }
    }
}

proof fn lemma_py_first_diff_extend(ta: Seq<PyStep>, tb: Seq<PyStep>, i: nat, n: nat)
    requires
        i < n,
        py_first_diff(ta, tb, i) is None,
        ta[i as int].locals.text_pairs() != tb[i as int].locals.text_pairs(),
    ensures
        py_first_diff(ta, tb, n) == Some(ta[i as int].seq),
    decreases n,
{
    if n > i + 1 {
        lemma_py_first_diff_extend(ta, tb, i, (n - 1) as nat);
    }
}

impl PyTimeline {
    /// The branches, in creation order.
    pub closed spec fn branches_view(&self) -> Seq<PyBranch> {
        self.branches@
    }

    /// A timeline whose branch 0, labelled `main`, is the unmodified run of
    /// `file` recorded as `trace`.
    pub fn from_baseline(file: String, trace: PyTrace) -> (r: Self)
        ensures
            r.branches_view().len() == 1,
            r.branches_view()[0].id == 0,
            r.branches_view()[0].label@ == "main"@,
            r.branches_view()[0].file == file,
            r.branches_view()[0].trace == trace,
    {
        let mut branches = Vec::new();
        branches.push(PyBranch { id: 0, label: "main".to_string(), file, trace });
        PyTimeline { branches }
    }

    /// The first branch with the given id.
    pub fn branch(&self, id: usize) -> (r: Option<&PyBranch>)
        ensures
            match find_branch(self.branches_view(), id) {
                Some(i) => r == Some(&self.branches_view()[i]),
                None => r is None,
            },
    {
        let mut i: usize = 0;
        while i < self.branches.len()
            invariant
                i <= self.branches@.len(),
                forall|j: int| 0 <= j < i ==> self.branches@[j].id != id,
            decreases self.branches@.len() - i,
        {
            if self.branches[i].id == id {
                proof {
                    lemma_find_branch_exact(self.branches@, id, i as int);
                }
                return Some(&self.branches[i]);
            }
            i = i + 1;
        }
        proof {
            lemma_find_branch(self.branches@, id);
            if find_branch(self.branches@, id) is Some {
                let k = find_branch(self.branches@, id)->0;
                assert(self.branches@[k].id == id);
            }
        }
        None
    }

    /// All branches.
    pub fn branches(&self) -> (r: &[PyBranch])
        ensures
            r@ == self.branches_view(),
    {
        self.branches.as_slice()
    }

    /// The traced file of the branch a fork starts from.
    pub fn fork_source(&self, from_branch: usize) -> (r: Option<&str>)
        ensures
            match find_branch(self.branches_view(), from_branch) {
                Some(i) => r matches Some(f) && f@ == self.branches_view()[i].file@,
                None => r is None,
            },
    {
        match self.branch(from_branch) {
            Some(b) => Some(b.file.as_str()),
            None => None,
        }
    }

    /// Adds a what-if branch recorded from `file`; returns its id, the
    /// number of branches before it.
    pub fn push_branch(&mut self, label: &str, file: String, trace: PyTrace) -> (r: usize)
        ensures
            r == old(self).branches_view().len(),
            final(self).branches_view().len() == old(self).branches_view().len() + 1,
            final(self).branches_view().drop_last() == old(self).branches_view(),
            final(self).branches_view().last().id == r,
            final(self).branches_view().last().label@ == label@,
            final(self).branches_view().last().file == file,
            final(self).branches_view().last().trace == trace,
    {
        let id = self.branches.len();
        self.branches.push(PyBranch { id, label: label.to_string(), file, trace });
        assert(self.branches@.drop_last() =~= old(self).branches@);
        id
    }

    /// The `seq` of the first event, pairing the two traces in order, at
    /// which the branches' locals differ.
    #[verifier::loop_isolation(false)]
    pub fn first_divergence(&self, a: usize, b: usize) -> (r: Option<usize>)
        ensures
            r == match (find_branch(self.branches_view(), a), find_branch(self.branches_view(), b)) {
                (Some(i), Some(j)) => {
                    let ta = self.branches_view()[i].trace.steps@;
                    let tb = self.branches_view()[j].trace.steps@;
                    py_first_diff(ta, tb, if ta.len() < tb.len() { ta.len() } else { tb.len() })
                },
                _ => None,
            },
    {
        let ba = match self.branch(a) {
            Some(x) => x,
            None => return None,
        };
        let bb = match self.branch(b) {
            Some(x) => x,
            None => return None,
        };
        let ta = &ba.trace.steps;
        let tb = &bb.trace.steps;
        let n = if ta.len() < tb.len() { ta.len() } else { tb.len() };
        let mut i: usize = 0;
        while i < n
            invariant
                i <= n,
                n == (if ta@.len() < tb@.len() { ta@.len() } else { tb@.len() }),
                py_first_diff(ta@, tb@, i as nat) is None,
            decreases n - i,
        {
            if !ta[i].locals.same_text_as(&tb[i].locals) {
                proof {
                    lemma_py_first_diff_extend(ta@, tb@, i as nat, n as nat);
                }
                return Some(ta[i].seq);
            }
            i = i + 1;
        }
        None
    }
}

/// The glyph marking an event kind.
pub open spec fn event_glyph(event: Seq<char>) -> Seq<char> {
    if event == "call"@ {
        "→"@
    } else if event == "return"@ {
        "←"@
    } else {
        "·"@
    }
}

/// `d` right-aligned in a field of four characters.
pub open spec fn pad4(d: Seq<char>) -> Seq<char> {
    if d.len() < 4 {
        Seq::new((4 - d.len()) as nat, |i: int| ' ') + d
    } else {
        d
    }
}

/// A value shortened to its first 24 bytes when longer.
pub open spec fn short_value(v: Seq<char>) -> Seq<char> {
    if encode_utf8(v).len() > 24 {
        decode_utf8(encode_utf8(v).subrange(0, 24))
    } else {
        v
    }
}

/// `k=v` for the first `n` locals, separated by two spaces.
pub open spec fn locals_preview(pairs: Seq<(Seq<char>, Seq<char>)>, n: nat) -> Seq<char>
    decreases n,
{
    if n == 0 {
        seq![]
    } else {
        let prev = locals_preview(pairs, (n - 1) as nat);
        let item = pairs[n - 1].0 + seq!['='] + short_value(pairs[n - 1].1);
        if n == 1 {
            item
        } else {
            prev + "  "@ + item
        }
    }
}

/// The one-line description of an event.
pub open spec fn describe_event(event: Seq<char>, line: u32, pairs: Seq<(Seq<char>, Seq<char>)>, intervened: bool) -> Seq<char> {
    let shown: nat = if pairs.len() < 5 { pairs.len() } else { 5 };
    event_glyph(event) + " line "@ + pad4(nat_decimal(line as nat)) + "  {"@ + locals_preview(pairs, shown) + (if pairs.len() > 5 {
        " +"@ + nat_decimal((pairs.len() - 5) as nat)
    } else {
        seq![]
    }) + "}"@ + if intervened {
        "  ★ what-if"@
    } else {
        seq![]
    }
}

/// Every value that is cut when shown is cut at a character boundary.
pub open spec fn values_cut_cleanly(pairs: Seq<(Seq<char>, Seq<char>)>) -> bool {
    forall|i: int|
        0 <= i < pairs.len() && i < 5 && encode_utf8(#[trigger] pairs[i].1).len() > 24 ==> is_char_boundary(
            encode_utf8(pairs[i].1),
            24,
        )
}

/// Appends `key=value`, the value shortened to its first 24 bytes when longer.
fn push_local(s: &mut String, key: &str, v: &str)
    requires
        encode_utf8(v@).len() > 24 ==> is_char_boundary(encode_utf8(v@), 24),
    ensures
        final(s)@ == old(s)@ + key@ + seq!['='] + short_value(v@),
{
    push_str(s, key);
    push_char(s, '=');
    assert(v.spec_bytes() == encode_utf8(v@));
    if v.as_bytes().len() > 24 {
        let (head, _) = v.split_at(24);
        proof {
            let cut = encode_utf8(v@).subrange(0, 24);
            assert(encode_utf8(head@) == cut);
            vstd::utf8::encode_utf8_decode_utf8(head@);
            assert(head@ == decode_utf8(cut));
            assert(short_value(v@) == head@);
        }
        push_str(s, head);
    } else {
        assert(short_value(v@) == v@);
        push_str(s, v);
    }
    assert(s@ =~= old(s)@ + key@ + seq!['='] + short_value(v@));
}

/// Appends the glyph and the right-aligned line number.
fn push_header(s: &mut String, event: &str, line: u32)
    ensures
        final(s)@ == old(s)@ + event_glyph(event@) + " line "@ + pad4(nat_decimal(line as nat)),
{
    let ghost start = s@;
    if str_eq(event, "call") {
        push_str(s, "→");
    } else if str_eq(event, "return") {
        push_str(s, "←");
    } else {
        push_str(s, "·");
    }
    push_str(s, " line ");
    let mut digits = String::new();
    push_u64_decimal(&mut digits, line as u64);
    let width = crate::text::chars_of(digits.as_str()).len();
    let ghost before = s@;
    if width < 4 {
        let mut pad = 4 - width;
        while pad > 0
            invariant
                pad <= 4 - width,
                s@ == before + Seq::new((4 - width - pad) as nat, |i: int| ' '),
            decreases pad,
        {
            push_char(s, ' ');
            pad = pad - 1;
            assert(s@ =~= before + Seq::new((4 - width - pad) as nat, |i: int| ' '));
        }
    }
    push_str(s, digits.as_str());
    assert(s@ =~= start + event_glyph(event@) + " line "@ + pad4(nat_decimal(line as nat)));
}

/// Renders the one-line description of an event: its glyph, line, up to
/// five locals (long values shortened to 24 bytes), the number of locals
/// not shown, and the what-if mark.
pub fn format_description(event: &str, line: u32, locals: &StrMap<String>, intervened: bool) -> (r: String)
    requires
        values_cut_cleanly(locals.text_pairs()),
    ensures
        r@ == describe_event(event@, line, locals.text_pairs(), intervened),
{
    let mut s = String::new();
    push_header(&mut s, event, line);
    push_str(&mut s, "  {");
    let n = locals.len();
    proof {
        locals.lemma_text_pairs();
    }
    let shown = if n < 5 { n } else { 5 };
    let ghost base = s@;
    let mut i: usize = 0;
    while i < shown
        invariant
            i <= shown,
            shown == (if n < 5 { n } else { 5 }),
            n == locals.pairs().len(),
            locals.text_pairs().len() == locals.pairs().len(),
            forall|j: int| 0 <= j < locals.pairs().len() ==> (#[trigger] locals.text_pairs()[j]).0 == locals.pairs()[j].0
                && locals.text_pairs()[j].1 == locals.pairs()[j].1@,
            values_cut_cleanly(locals.text_pairs()),
            s@ == base + locals_preview(locals.text_pairs(), i as nat),
        decreases shown - i,
    {
        let ghost before = s@;
        if i > 0 {
            push_str(&mut s, "  ");
        }
        let k = locals.key(i).as_str();
        let vr = locals.value(i);
        assert(*vr == locals.pairs()[i as int].1);
        assert(vr@ == locals.pairs()[i as int].1@);
        let v = vr.as_str();
        assert(locals.text_pairs()[i as int].1 == v@);
        assert(locals.text_pairs()[i as int].0 == k@);
        push_local(&mut s, k, v);
        i = i + 1;
        assert(s@ =~= base + locals_preview(locals.text_pairs(), i as nat));
    }
    let ghost mid = s@;
    if n > 5 {
        push_str(&mut s, " +");
        push_u64_decimal(&mut s, (n - 5) as u64);
    }
    push_str(&mut s, "}");
    if intervened {
        push_str(&mut s, "  ★ what-if");
    }
    assert(s@ =~= describe_event(event@, line, locals.text_pairs(), intervened));
    s
}

// ---------------------------------------------------------------- the tracer script

/// A what-if override: at event `at_step`, set local `var` to the Python
/// literal expression `val`.
pub struct PyOverride {
    pub at_step: usize,
    pub var: String,
    /// A Python expression, inserted as written.
    pub val: String,
}

/// `serde_json::to_string` on a string slice: its JSON string literal,
/// quoted, with `"` and `\` escaped, the short escapes for backspace, tab,
/// line feed, form feed and carriage return, and `\u00XX` with lowercase
/// hex digits for the other characters below U+0020. Serializing a string
/// slice does not fail.
#[verifier::external_body]
fn json_quoted(s: &str) -> (r: Result<String, String>)
    ensures
        r is Ok,
        r->Ok_0@ == crate::json::json_string(s@),
{
    match serde_json::to_string(s) {
        Ok(t) => Ok(t),
        Err(e) => Err(e.to_string()),
    }
}

/// The script text before the injection point.
pub const TRACER_HEAD: &'static str = "import sys as _sys, json as _json\n_steps = []\n_seq = [0]\n\ndef _tracer(frame, event, arg):\n    if event not in ('line', 'call', 'return'):\n        return _tracer\n    _intervened = False";

/// The script text between the injection point and the traced path.
pub const TRACER_BODY: &'static str = "\n    _locs = {}\n    for _k, _v in frame.f_locals.items():\n        if _k.startswith('_'):\n            continue\n        try:\n            _locs[_k] = repr(_v)\n        except Exception:\n            _locs[_k] = '<err>'\n    _steps.append({\n        'seq': _seq[0],\n        'file': frame.f_code.co_filename,\n        'line': frame.f_lineno,\n        'event': event,\n        'locals': _locs,\n        'intervened': _intervened,\n    })\n    _seq[0] += 1\n    return _tracer\n\n_path = ";

/// The script text after the traced path.
pub const TRACER_TAIL: &'static str = "\nwith open(_path) as _f:\n    _code = compile(_f.read(), _path, 'exec')\n_sys.settrace(_tracer)\nexec(_code, {})\n_sys.settrace(None)\n\nfor _s in _steps:\n    print(_json.dumps(_s))\n";

/// The tracer lines that apply an override at its step.
pub open spec fn injection_of(o: Option<PyOverride>) -> Seq<char> {
    match o {
        None => seq![],
        Some(o) => {
            let var = crate::json::json_string(o.var@);
            "\n    if _seq[0] == "@ + nat_decimal(o.at_step as nat) + " and "@ + var + " in frame.f_locals:"@
                + "\n        try:"@ + "\n            import ctypes as _ct"@ + "\n            frame.f_locals["@ + var
                + "] = "@ + o.val@
                + "\n            _ct.pythonapi.PyFrame_LocalsToFast(_ct.py_object(frame), _ct.c_int(0))"@
                + "\n            _intervened = True"@ + "\n        except Exception:"@ + "\n            pass"@
        },
    }
}

/// The Python script that traces the file at `path`: it records every
/// call, line and return event with the frame's public locals, applies the
/// override if any, and prints one JSON object per event.
pub open spec fn tracer_script(path: Seq<char>, o: Option<PyOverride>) -> Seq<char> {
    TRACER_HEAD@ + injection_of(o) + TRACER_BODY@ + crate::json::json_string(path) + TRACER_TAIL@
}

/// Builds the tracer script for the file at `path`.
pub fn build_script(path: &str, override_: Option<&PyOverride>) -> (r: String)
    ensures
        r@ == tracer_script(
            path@,
            match override_ {
                Some(o) => Some(*o),
                None => None,
            },
        ),
{
    let path_repr = match json_quoted(path) {
        Ok(t) => t,
        Err(_) => {
            let mut t = String::new();
            push_char(&mut t, '"');
            push_str(&mut t, path);
            push_char(&mut t, '"');
            t
        },
    };
    let mut s = String::new();
    push_str(&mut s, TRACER_HEAD);
    let ghost head = s@;
    match override_ {
        None => {},
        Some(o) => {
            let var_repr = match json_quoted(o.var.as_str()) {
                Ok(t) => t,
                Err(_) => {
                    let mut t = String::new();
                    push_char(&mut t, '"');
                    push_str(&mut t, o.var.as_str());
                    push_char(&mut t, '"');
                    t
                },
            };
            push_str(&mut s, "\n    if _seq[0] == ");
            push_u64_decimal(&mut s, o.at_step as u64);
            push_str(&mut s, " and ");
            push_str(&mut s, var_repr.as_str());
            push_str(&mut s, " in frame.f_locals:");
            push_str(&mut s, "\n        try:");
            push_str(&mut s, "\n            import ctypes as _ct");
            push_str(&mut s, "\n            frame.f_locals[");
            push_str(&mut s, var_repr.as_str());
            push_str(&mut s, "] = ");
            push_str(&mut s, o.val.as_str());
            push_str(&mut s, "\n            _ct.pythonapi.PyFrame_LocalsToFast(_ct.py_object(frame), _ct.c_int(0))");
            push_str(&mut s, "\n            _intervened = True");
            push_str(&mut s, "\n        except Exception:");
            push_str(&mut s, "\n            pass");
            assert(s@ =~= head + injection_of(Some(*o)));
        },
    }
    push_str(&mut s, TRACER_BODY);
    push_str(&mut s, path_repr.as_str());
    push_str(&mut s, TRACER_TAIL);
    assert(s@ =~= tracer_script(
        path@,
        match override_ {
            Some(o) => Some(*o),
            None => None,
        },
    ));
    s
}

/// A branch never diverges from itself (nor from a branch with the same
/// trace).
pub proof fn law_trace_never_diverges_from_itself(t: Seq<PyStep>, n: nat)
    ensures
        py_first_diff(t, t, n) is None,
    decreases n,
{
    if n > 0 {
        law_trace_never_diverges_from_itself(t, (n - 1) as nat);
    }
}

} // verus!
