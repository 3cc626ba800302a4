//! Call sites that Rust source launches as separate processes: an exact
//! Cargo integration-test launch of a binary target.

use vstd::prelude::*;
use crate::fields::trim;
use crate::paths::{is_ascii_alnum, last_segment_of};
use crate::py_scopes::first_named_kind_from;
use crate::rust_hints::{callee_of, callee_target, only_named};
use crate::strmap::str_eq;
use crate::text::{chars_of, string_of};
use crate::tree::{lemma_first_named_from, SyntaxNode};
use crate::words::{binding_of, last_ident, qualifier_binding};

verus! {

/// A character a Cargo binary target name may hold.
pub open spec fn target_char(c: char) -> bool {
    c == '_' || c == '-' || is_ascii_alnum(c)
}

/// The environment variable prefix Cargo gives binary paths.
pub open spec fn bin_exe_prefix() -> Seq<char> {
    "CARGO_BIN_EXE_"@
}

/// The target a string literal `"CARGO_BIN_EXE_<target>"` names: the text
/// between the quotes after the prefix, when it is a non-empty run of
/// letters, digits, `_` and `-`.
pub open spec fn bin_target_of_literal(t: Seq<char>) -> Option<Seq<char>> {
    let p = bin_exe_prefix();
    if t.len() >= 2 + p.len() && t[0] == '"' && t[t.len() - 1] == '"' && t.subrange(1, 1 + p.len() as int) == p {
        let v = t.subrange(1 + p.len() as int, t.len() - 1);
        if v.len() > 0 && forall|i: int| 0 <= i < v.len() ==> target_char(#[trigger] v[i]) {
            Some(v)
        } else {
            None
        }
    } else {
        None
    }
}

/// The binary target of an exact Cargo launch
/// `Command::new(env!("CARGO_BIN_EXE_<target>"))`: a call of `new` on a
/// qualifier ending in `Command`, whose only argument is an `env!` macro
/// whose token tree holds only that string literal.
pub open spec fn cargo_binary_target(call: SyntaxNode) -> Option<Seq<char>> {
    match callee_of(call) {
        None => None,
        Some((callee, q)) => if callee != "new"@ || !(q matches Some(qq) && binding_of(qq) == "Command"@) {
            None
        } else {
            match crate::tree::field_index(call.children@, "arguments"@) {
                None => None,
                Some(ai) => {
                    let args = call.children@[ai];
                    match only_named(args.children@) {
                        None => None,
                        Some(k) => {
                            let arg = args.children@[k];
                            if arg.kind@ != "macro_invocation"@ {
                                None
                            } else {
                                match crate::tree::field_index(arg.children@, "macro"@) {
                                    None => None,
                                    Some(m) => if trim(last_segment_of(arg.children@[m].text@)) != "env"@ {
                                        None
                                    } else {
                                        match first_named_kind_from(arg.children@, "token_tree"@, 0) {
                                            None => None,
                                            Some(tt) => {
                                                let tokens = arg.children@[tt];
                                                match only_named(tokens.children@) {
                                                    None => None,
                                                    Some(v) => {
                                                        let var = tokens.children@[v];
                                                        if var.kind@ != "string_literal"@ {
                                                            None
                                                        } else {
                                                            bin_target_of_literal(var.text@)
                                                        }
                                                    },
                                                }
                                            },
                                        }
                                    },
                                }
                            }
                        },
                    }
                },
            }
        },
    }
}

/// The position of the only named child of `n`, if it has exactly one.
pub fn only_named_position(n: &SyntaxNode) -> (r: Option<usize>)
    ensures
        match r {
            Some(k) => only_named(n.children@) == Some(k as int) && k < n.children@.len(),
            None => only_named(n.children@) is None,
        },
{
    proof {
        lemma_first_named_from(n.children@, 0);
    }
    let k = match n.first_named_position(0) {
        Some(k) => k,
        None => return None,
    };
    if k < n.children.len() && n.first_named_position(k + 1).is_none() {
        Some(k)
    } else {
        None
    }
}

/// The position of the first named child of kind `kind`.
pub fn first_named_of_kind(n: &SyntaxNode, kind: &str) -> (r: Option<usize>)
    ensures
        match r {
            Some(k) => first_named_kind_from(n.children@, kind@, 0) == Some(k as int) && k < n.children@.len(),
            None => first_named_kind_from(n.children@, kind@, 0) is None,
        },
{
    let mut i: usize = 0;
    while i < n.children.len()
        invariant
            i <= n.children@.len(),
            first_named_kind_from(n.children@, kind@, 0) == first_named_kind_from(n.children@, kind@, i as int),
        decreases n.children@.len() - i,
    {
        if n.children[i].named && str_eq(n.children[i].kind.as_str(), kind) {
            return Some(i);
        }
        i = i + 1;
    }
    None
}

/// Computes [`bin_target_of_literal`].
fn bin_target_of(text: &str) -> (r: Option<String>)
    ensures
        match r {
            Some(s) => bin_target_of_literal(text@) == Some(s@),
            None => bin_target_of_literal(text@) is None,
        },
{
    let t = chars_of(text);
    let p = chars_of("CARGO_BIN_EXE_");
    proof {
        reveal_strlit("CARGO_BIN_EXE_");
    }
    let n = t.len();
    let pl = p.len();
    if n < 2 || n - 2 < pl || t[0] != '"' || t[n - 1] != '"' {
        return None;
    }
    let mut i: usize = 0;
    while i < pl
        invariant
            i <= pl,
            pl == p@.len(),
            p@ == bin_exe_prefix(),
            t@ == text@,
            n == t@.len(),
            n >= 2 + pl,
            forall|j: int| 0 <= j < i ==> t@[1 + j] == p@[j],
        decreases pl - i,
    {
        if t[1 + i] != p[i] {
            assert(t@.subrange(1, 1 + pl as int)[i as int] != p@[i as int]);
            return None;
        }
        i = i + 1;
    }
    assert(t@.subrange(1, 1 + pl as int) =~= p@);
    let mut v: Vec<char> = Vec::new();
    let mut k: usize = 1 + pl;
    while k < n - 1
        invariant
            1 + pl <= k <= n - 1,
            n == t@.len(),
            n >= 2 + pl,
            pl == bin_exe_prefix().len(),
            t@.subrange(1, 1 + pl as int) == bin_exe_prefix(),
            t@[0] == '"',
            t@[n - 1] == '"',
            t@ == text@,
            v@ == t@.subrange(1 + pl as int, k as int),
            forall|j: int| 0 <= j < v@.len() ==> target_char(#[trigger] v@[j]),
        decreases n - 1 - k,
    {
        let c = t[k];
        if !(c == '_' || c == '-' || ('a' <= c && c <= 'z') || ('A' <= c && c <= 'Z') || ('0' <= c && c <= '9')) {
            assert(t@.subrange(1 + pl as int, n - 1)[k - 1 - pl] == c);
            return None;
        }
        v.push(c);
        k = k + 1;
        assert(v@ =~= t@.subrange(1 + pl as int, k as int));
    }
    if v.len() == 0 {
        return None;
    }
    Some(string_of(v.as_slice()))
}

/// Computes [`cargo_binary_target`].
pub fn rust_cargo_binary_target(call: &SyntaxNode) -> (r: Option<String>)
    ensures
        match r {
            Some(s) => cargo_binary_target(*call) == Some(s@),
            None => cargo_binary_target(*call) is None,
        },
{
    let (callee, qualifier) = match callee_target(call) {
        Some(t) => t,
        None => return None,
    };
    if !str_eq(callee.as_str(), "new") {
        return None;
    }
    match &qualifier {
        Some(q) => {
            let tail = qualifier_binding(q.as_str());
            if !str_eq(tail.as_str(), "Command") {
                return None;
            }
        },
        None => return None,
    }
    let ai = match call.field_position("arguments") {
        Some(a) => a,
        None => return None,
    };
    let args = &call.children[ai];
    let k = match only_named_position(args) {
        Some(k) => k,
        None => return None,
    };
    let arg = &args.children[k];
    if !str_eq(arg.kind.as_str(), "macro_invocation") {
        return None;
    }
    let m = match arg.field_position("macro") {
        Some(m) => m,
        None => return None,
    };
    let name = last_ident(arg.children[m].text.as_str());
    if !str_eq(name.as_str(), "env") {
        return None;
    }
    let tt = match first_named_of_kind(arg, "token_tree") {
        Some(tt) => tt,
        None => return None,
    };
    let tokens = &arg.children[tt];
    let v = match only_named_position(tokens) {
        Some(v) => v,
        None => return None,
    };
    let var = &tokens.children[v];
    if !str_eq(var.kind.as_str(), "string_literal") {
        return None;
    }
    bin_target_of(var.text.as_str())
}

} // verus!
