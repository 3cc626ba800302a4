//! Python type annotations read as text: which single class an annotation
//! names once quoting, parentheses, `Optional[..]`, `Union[..]` and `X | None`
//! are seen through. An annotation that could name two different classes
//! names none.

use vstd::prelude::*;
use crate::fields::{is_whitespace, trim, trim_chars, trim_end, trim_start};
use crate::text::{chars_of, string_of};

verus! {

/// Trimming never lengthens a text, and keeps a contiguous piece of it.
pub proof fn lemma_trim_len(s: Seq<char>)
    ensures
        trim(s).len() <= s.len(),
        trim_end(s).len() <= s.len(),
        trim_start(s).len() <= s.len(),
    decreases s.len(),
{
    lemma_trim_end_len(s);
    lemma_trim_start_len(s);
    lemma_trim_start_len(trim_end(s));
}

proof fn lemma_trim_end_len(s: Seq<char>)
    ensures
        trim_end(s).len() <= s.len(),
    decreases s.len(),
{
    if s.len() > 0 && is_whitespace(s.last()) {
        lemma_trim_end_len(s.drop_last());
    }
}

proof fn lemma_trim_start_len(s: Seq<char>)
    ensures
        trim_start(s).len() <= s.len(),
    decreases s.len(),
{
    if s.len() > 0 && is_whitespace(s[0]) {
        lemma_trim_start_len(s.drop_first());
    }
}

// ---------------------------------------------------------------- scanning

/// The state of a left-to-right scan of annotation text: bracket depth,
/// the open quote if inside a string, whether the last character was an
/// escaping backslash, where the current piece started, and the pieces cut
/// so far (trimmed).
pub struct PartsScan {
    pub depth: nat,
    pub quote: Option<char>,
    pub escaped: bool,
    pub start: int,
    pub parts: Seq<Seq<char>>,
}

/// Scans `v` for top-level occurrences of `delim`: outside strings and
/// outside `()`, `[]` and `{}` (a closing bracket without an opening one
/// leaves the depth at zero).
pub open spec fn parts_scan(v: Seq<char>, delim: char) -> PartsScan
    decreases v.len(),
{
    if v.len() == 0 {
        PartsScan { depth: 0, quote: None, escaped: false, start: 0, parts: seq![] }
    } else {
        let s = parts_scan(v.drop_last(), delim);
        let ch = v.last();
        let i = v.len() - 1;
        match s.quote {
            Some(q) => if s.escaped {
                PartsScan { escaped: false, ..s }
            } else if ch == '\\' {
                PartsScan { escaped: true, ..s }
            } else if ch == q {
                PartsScan { quote: None, ..s }
            } else {
                s
            },
            None => if ch == '\'' || ch == '"' {
                PartsScan { quote: Some(ch), ..s }
            } else if ch == '(' || ch == '[' || ch == '{' {
                PartsScan { depth: s.depth + 1, ..s }
            } else if ch == ')' || ch == ']' || ch == '}' {
                PartsScan { depth: if s.depth > 0 { (s.depth - 1) as nat } else { 0 }, ..s }
            } else if ch == delim && s.depth == 0 {
                PartsScan { start: i + 1, parts: s.parts.push(trim(v.subrange(s.start, i))), ..s }
            } else {
                s
            },
        }
    }
}

/// The trimmed pieces of `v` between its top-level occurrences of `delim`.
pub open spec fn top_level_parts_of(v: Seq<char>, delim: char) -> Seq<Seq<char>> {
    let s = parts_scan(v, delim);
    s.parts.push(trim(v.subrange(s.start, v.len() as int)))
}

/// The scan keeps its piece start inside the text, and every piece cut so
/// far is shorter than the text scanned.
proof fn lemma_parts_scan_bounds(v: Seq<char>, delim: char)
    ensures
        0 <= parts_scan(v, delim).start <= v.len(),
        parts_scan(v, delim).parts.len() > 0 ==> parts_scan(v, delim).start >= 1,
        forall|k: int|
            0 <= k < parts_scan(v, delim).parts.len() ==> (#[trigger] parts_scan(v, delim).parts[k]).len() < v.len(),
        parts_scan(v, delim).depth <= v.len(),
    decreases v.len(),
{
    if v.len() > 0 {
        let s = parts_scan(v.drop_last(), delim);
        lemma_parts_scan_bounds(v.drop_last(), delim);
        let i = v.len() - 1;
        lemma_trim_len(v.subrange(s.start, i));
    }
}

/// When a text has several top-level pieces, each is shorter than the text.
pub proof fn lemma_parts_shorter(v: Seq<char>, delim: char)
    ensures
        forall|k: int|
            0 <= k < top_level_parts_of(v, delim).len() ==> (#[trigger] top_level_parts_of(v, delim)[k]).len()
                <= v.len(),
        top_level_parts_of(v, delim).len() > 1 ==> forall|k: int|
            0 <= k < top_level_parts_of(v, delim).len() ==> (#[trigger] top_level_parts_of(v, delim)[k]).len()
                < v.len(),
{
    lemma_parts_scan_bounds(v, delim);
    let s = parts_scan(v, delim);
    lemma_trim_len(v.subrange(s.start, v.len() as int));
}

/// Splits `value` at its top-level occurrences of `delim` and trims each
/// piece.
pub fn python_top_level_parts(value: &str, delim: char) -> (r: Vec<String>)
    ensures
        crate::fields::texts(r@) == top_level_parts_of(value@, delim),
{
    let cs = chars_of(value);
    let n = cs.len();
    let mut parts: Vec<String> = Vec::new();
    let mut start: usize = 0;
    let mut depth: usize = 0;
    let mut quote: Option<char> = None;
    let mut escaped = false;
    let mut i: usize = 0;
    while i < n
        invariant
            n == cs@.len(),
            cs@ == value@,
            i <= n,
            ({
                let s = parts_scan(cs@.take(i as int), delim);
                &&& s.depth == depth as nat
                &&& s.quote == quote
                &&& s.escaped == escaped
                &&& s.start == start as int
                &&& s.parts == crate::fields::texts(parts@)
            }),
            depth <= i,
        decreases n - i,
    {
        proof {
            lemma_parts_scan_bounds(cs@.take(i as int), delim);
        }
        assert(cs@.take(i + 1).drop_last() =~= cs@.take(i as int));
        assert(cs@.take(i + 1).last() == cs@[i as int]);
        let ch = cs[i];
        match quote {
            Some(q) => {
                if escaped {
                    escaped = false;
                } else if ch == '\\' {
                    escaped = true;
                } else if ch == q {
                    quote = None;
                }
            },
            None => {
                if ch == '\'' || ch == '"' {
                    quote = Some(ch);
                } else if ch == '(' || ch == '[' || ch == '{' {
                    depth = depth + 1;
                } else if ch == ')' || ch == ']' || ch == '}' {
                    if depth > 0 {
                        depth = depth - 1;
                    }
                } else if ch == delim && depth == 0 {
                    let mut piece: Vec<char> = Vec::new();
                    let mut k = start;
                    while k < i
                        invariant
                            start <= k <= i,
                            i < n,
                            n == cs@.len(),
                            piece@ == cs@.subrange(start as int, k as int),
                        decreases i - k,
                    {
                        piece.push(cs[k]);
                        k = k + 1;
                        assert(piece@ =~= cs@.subrange(start as int, k as int));
                    }
                    assert(cs@.take(i + 1).subrange(start as int, i as int) =~= piece@);
                    parts.push(trim_chars(&piece));
                    start = i + 1;
                    assert(crate::fields::texts(parts@) =~= parts_scan(cs@.take(i + 1), delim).parts);
                }
            },
        }
        i = i + 1;
    }
    assert(cs@.take(n as int) =~= cs@);
    proof {
        lemma_parts_scan_bounds(cs@, delim);
    }
    let mut piece: Vec<char> = Vec::new();
    let mut k = start;
    while k < n
        invariant
            start <= k <= n,
            n == cs@.len(),
            piece@ == cs@.subrange(start as int, k as int),
        decreases n - k,
    {
        piece.push(cs[k]);
        k = k + 1;
        assert(piece@ =~= cs@.subrange(start as int, k as int));
    }
    parts.push(trim_chars(&piece));
    assert(crate::fields::texts(parts@) =~= top_level_parts_of(value@, delim));
    parts
}

/// The open quote and escape flag after scanning `v`, brackets ignored.
pub open spec fn quote_scan(v: Seq<char>) -> (Option<char>, bool)
    decreases v.len(),
{
    if v.len() == 0 {
        (None, false)
    } else {
        let (q, e) = quote_scan(v.drop_last());
        let ch = v.last();
        match q {
            Some(qc) => if e {
                (q, false)
            } else if ch == '\\' {
                (q, true)
            } else if ch == qc {
                (None, false)
            } else {
                (q, e)
            },
            None => if ch == '\'' || ch == '"' {
                (Some(ch), e)
            } else {
                (None, e)
            },
        }
    }
}

/// The first `[` of `v` outside any string.
pub open spec fn first_open_bracket(v: Seq<char>) -> Option<int>
    decreases v.len(),
{
    if v.len() == 0 {
        None
    } else {
        match first_open_bracket(v.drop_last()) {
            Some(k) => Some(k),
            None => if v.last() == '[' && quote_scan(v.drop_last()).0 is None {
                Some(v.len() - 1)
            } else {
                None
            },
        }
    }
}

/// Where a subscripted annotation `X[..]` opens its arguments: the first
/// `[` outside strings, when the text ends with `]`.
pub open spec fn subscript_of(v: Seq<char>) -> Option<int> {
    if v.len() > 0 && v.last() == ']' {
        first_open_bracket(v)
    } else {
        None
    }
}

pub proof fn lemma_first_open_bracket(v: Seq<char>)
    ensures
        first_open_bracket(v) matches Some(k) ==> 0 <= k < v.len() && v[k] == '[',
    decreases v.len(),
{
    if v.len() > 0 {
        lemma_first_open_bracket(v.drop_last());
    }
}

/// The position of the subscript's opening `[`, if the text is subscripted.
pub fn python_top_level_subscript(value: &str) -> (r: Option<usize>)
    ensures
        match r {
            Some(k) => subscript_of(value@) == Some(k as int),
            None => subscript_of(value@) is None,
        },
{
    let cs = chars_of(value);
    let n = cs.len();
    if n == 0 || cs[n - 1] != ']' {
        return None;
    }
    let mut quote: Option<char> = None;
    let mut escaped = false;
    let mut i: usize = 0;
    while i < n
        invariant
            n == cs@.len(),
            cs@ == value@,
            n > 0 && cs@[n - 1] == ']',
            i <= n,
            quote_scan(cs@.take(i as int)) == (quote, escaped),
            first_open_bracket(cs@.take(i as int)) is None,
        decreases n - i,
    {
        assert(cs@.take(i + 1).drop_last() =~= cs@.take(i as int));
        assert(cs@.take(i + 1).last() == cs@[i as int]);
        let ch = cs[i];
        match quote {
            Some(q) => {
                if escaped {
                    escaped = false;
                } else if ch == '\\' {
                    escaped = true;
                } else if ch == q {
                    quote = None;
                }
            },
            None => {
                if ch == '\'' || ch == '"' {
                    quote = Some(ch);
                } else if ch == '[' {
                    proof {
                        lemma_first_open_bracket_extends(cs@, i as int);
                    }
                    return Some(i);
                }
            },
        }
        i = i + 1;
    }
    assert(cs@.take(n as int) =~= cs@);
    None
}

/// A bracket found in a prefix is the first bracket of the whole text.
proof fn lemma_first_open_bracket_extends(v: Seq<char>, i: int)
    requires
        0 <= i < v.len(),
        first_open_bracket(v.take(i)) is None,
        v[i] == '[',
        quote_scan(v.take(i)).0 is None,
    ensures
        first_open_bracket(v) == Some(i),
    decreases v.len(),
{
    assert(v.take(i + 1).drop_last() =~= v.take(i));
    if v.len() == i + 1 {
        assert(v.take(i + 1) =~= v);
    } else {
        assert(v.drop_last().take(i) =~= v.take(i));
        lemma_first_open_bracket_extends(v.drop_last(), i);
    }
}

/// The state of scanning a parenthesized text: paren depth, open quote,
/// escape flag, and whether the outer `(` closed before the end.
pub open spec fn paren_scan(v: Seq<char>, len: int) -> (nat, Option<char>, bool, bool)
    decreases v.len(),
{
    if v.len() == 0 {
        (0, None, false, false)
    } else {
        let (d, q, e, early) = paren_scan(v.drop_last(), len);
        let ch = v.last();
        let i = v.len() - 1;
        if early {
            (d, q, e, early)
        } else {
            match q {
                Some(qc) => if e {
                    (d, q, false, false)
                } else if ch == '\\' {
                    (d, q, true, false)
                } else if ch == qc {
                    (d, None, false, false)
                } else {
                    (d, q, e, false)
                },
                None => if ch == '\'' || ch == '"' {
                    (d, Some(ch), e, false)
                } else if ch == '(' {
                    (d + 1, None, e, false)
                } else if ch == ')' {
                    let nd: nat = if d > 0 { (d - 1) as nat } else { 0 };
                    (nd, None, e, nd == 0 && i + 1 < len)
                } else {
                    (d, None, e, false)
                },
            }
        }
    }
}

/// The text is wrapped in one pair of parentheses enclosing all of it.
pub open spec fn wrapped_in_parens(v: Seq<char>) -> bool {
    let (d, _q, _e, early) = paren_scan(v, v.len() as int);
    v.len() > 0 && v[0] == '(' && v.last() == ')' && !early && d == 0
}

/// `v` with enclosing parentheses removed, repeatedly, trimming inside.
pub open spec fn strip_parens(v: Seq<char>) -> Seq<char>
    decreases v.len(),
{
    if wrapped_in_parens(v) && v.len() >= 2 {
        proof {
            lemma_trim_len(v.subrange(1, v.len() - 1));
        }
        strip_parens(trim(v.subrange(1, v.len() - 1)))
    } else {
        v
    }
}

/// Stripping parentheses never lengthens a text.
pub proof fn lemma_strip_parens_len(v: Seq<char>)
    ensures
        strip_parens(v).len() <= v.len(),
    decreases v.len(),
{
    if wrapped_in_parens(v) && v.len() >= 2 {
        lemma_trim_len(v.subrange(1, v.len() - 1));
        lemma_strip_parens_len(trim(v.subrange(1, v.len() - 1)));
    }
}

/// Decides [`wrapped_in_parens`].
fn wrapped(cs: &Vec<char>) -> (r: bool)
    ensures
        r == wrapped_in_parens(cs@),
{
    let n = cs.len();
    if n == 0 || cs[0] != '(' || cs[n - 1] != ')' {
        return false;
    }
    let mut depth: usize = 0;
    let mut quote: Option<char> = None;
    let mut escaped = false;
    let mut early = false;
    let mut i: usize = 0;
    while i < n
        invariant
            n == cs@.len(),
            i <= n,
            depth <= i,
            paren_scan(cs@.take(i as int), n as int) == (depth as nat, quote, escaped, early),
        decreases n - i,
    {
        assert(cs@.take(i + 1).drop_last() =~= cs@.take(i as int));
        assert(cs@.take(i + 1).last() == cs@[i as int]);
        if !early {
            let ch = cs[i];
            match quote {
                Some(q) => {
                    if escaped {
                        escaped = false;
                    } else if ch == '\\' {
                        escaped = true;
                    } else if ch == q {
                        quote = None;
                    }
                },
                None => {
                    if ch == '\'' || ch == '"' {
                        quote = Some(ch);
                    } else if ch == '(' {
                        depth = depth + 1;
                    } else if ch == ')' {
                        if depth > 0 {
                            depth = depth - 1;
                        }
                        early = depth == 0 && i + 1 < n;
                    }
                },
            }
        }
        i = i + 1;
    }
    assert(cs@.take(n as int) =~= cs@);
    !early && depth == 0
}

/// Removes enclosing parentheses, repeatedly, trimming inside.
pub fn strip_python_outer_parentheses(value: &str) -> (r: String)
    ensures
        r@ == strip_parens(value@),
{
    let mut cur = chars_of(value);
    while wrapped(&cur) && cur.len() >= 2
        invariant
            strip_parens(value@) == strip_parens(cur@),
        decreases cur@.len(),
    {
        let n = cur.len();
        let mut inner: Vec<char> = Vec::new();
        let mut k: usize = 1;
        while k < n - 1
            invariant
                n == cur@.len(),
                n >= 2,
                1 <= k <= n - 1,
                inner@ == cur@.subrange(1, k as int),
            decreases n - 1 - k,
        {
            inner.push(cur[k]);
            k = k + 1;
            assert(inner@ =~= cur@.subrange(1, k as int));
        }
        let t = trim_chars(&inner);
        proof {
            lemma_trim_len(inner@);
        }
        cur = chars_of(t.as_str());
    }
    string_of(cur.as_slice())
}

/// `v` without one pair of matching `"` or `'` around it.
pub open spec fn unquoted(v: Seq<char>) -> Seq<char> {
    if v.len() >= 2 && v[0] == '"' && v.last() == '"' {
        v.subrange(1, v.len() - 1)
    } else if v.len() >= 2 && v[0] == '\'' && v.last() == '\'' {
        v.subrange(1, v.len() - 1)
    } else {
        v
    }
}

/// Removes one pair of matching quotes.
pub fn unquote_chars(v: &Vec<char>) -> (r: Vec<char>)
    ensures
        r@ == unquoted(v@),
{
    let n = v.len();
    if n >= 2 && ((v[0] == '"' && v[n - 1] == '"') || (v[0] == '\'' && v[n - 1] == '\'')) {
        let mut out: Vec<char> = Vec::new();
        let mut k: usize = 1;
        while k < n - 1
            invariant
                n == v@.len(),
                n >= 2,
                1 <= k <= n - 1,
                out@ == v@.subrange(1, k as int),
            decreases n - 1 - k,
        {
            out.push(v[k]);
            k = k + 1;
            assert(out@ =~= v@.subrange(1, k as int));
        }
        out
    } else {
        let mut out: Vec<char> = Vec::new();
        let mut k: usize = 0;
        while k < n
            invariant
                n == v@.len(),
                k <= n,
                out@ == v@.subrange(0, k as int),
            decreases n - k,
        {
            out.push(v[k]);
            k = k + 1;
            assert(out@ =~= v@.subrange(0, k as int));
        }
        assert(out@ =~= v@);
        out
    }
}

/// The annotation is `None`, possibly parenthesized or quoted.
pub open spec fn annotation_is_none(annotation: Seq<char>) -> bool {
    strip_parens(trim(unquoted(strip_parens(trim(annotation))))) == "None"@
}

/// True when the annotation is `None`, possibly parenthesized or quoted.
pub fn python_annotation_is_none(annotation: &str) -> (r: bool)
    ensures
        r == annotation_is_none(annotation@),
{
    let a = chars_of(annotation);
    let t = trim_chars(&a);
    let s = strip_python_outer_parentheses(t.as_str());
    let sc = chars_of(s.as_str());
    let u = unquote_chars(&sc);
    let ut = trim_chars(&u);
    let stripped = strip_python_outer_parentheses(ut.as_str());
    crate::strmap::str_eq(stripped.as_str(), "None")
}

// ---------------------------------------------------------------- type names

/// A name under which a nullable wrapper was imported.
#[derive(Debug, Clone, Copy, PartialEq, Eq, Structural)]
pub enum PythonNullableWrapper {
    Optional,
    Union,
    TypeChecking,
}

/// The single class an annotation names, seen through quotes, enclosing
/// parentheses, unions (`A | None`, `Union[..]`) and `Optional[..]`;
/// aliases map a class name to the name it stands for.
pub open spec fn type_name_of(
    a: Seq<char>,
    aliases: Map<Seq<char>, Seq<char>>,
    wrappers: Map<Seq<char>, PythonNullableWrapper>,
) -> Option<Seq<char>>
    decreases a.len(), 1nat, 0nat,
{
    let t = trim(a);
    let u = unquoted(t);
    proof {
        lemma_trim_len(a);
    }
    if u.len() < t.len() {
        type_name_of(u, aliases, wrappers)
    } else {
        let b = strip_parens(u);
        let union = top_level_parts_of(b, '|');
        proof {
            lemma_strip_parens_len(u);
        }
        if union.len() > 1 {
            union_name_of(union, union.len(), b.len(), aliases, wrappers)
        } else {
            match subscript_of(b) {
                Some(open) => {
                    let wrapper = trim(b.subrange(0, open));
                    if crate::words::qualified_type_name_of(wrapper) is None {
                        None
                    } else if wrappers.contains_key(wrapper) {
                        proof {
                            lemma_first_open_bracket(b);
                        }
                        let args = trim(b.subrange(open + 1, b.len() - 1));
                        proof {
                            lemma_trim_len(b.subrange(open + 1, b.len() - 1));
                        }
                        match wrappers[wrapper] {
                            PythonNullableWrapper::Optional => type_name_of(args, aliases, wrappers),
                            PythonNullableWrapper::Union => {
                                let parts = top_level_parts_of(args, ',');
                                union_name_of(parts, parts.len(), b.len(), aliases, wrappers)
                            },
                            PythonNullableWrapper::TypeChecking => None,
                        }
                    } else {
                        None
                    }
                },
                None => if annotation_is_none(b) {
                    None
                } else {
                    match crate::words::qualified_type_name_of(b) {
                        None => None,
                        Some(n) => Some(
                            if aliases.contains_key(n) {
                                aliases[n]
                            } else {
                                n
                            },
                        ),
                    }
                },
            }
        }
    }
}

/// The outcome of reading the first `k` members of a union: the class
/// they agree on so far (none if all were `None`), or `Err` when a member
/// names no class or two members name different classes. Members must be
/// shorter than `bound`.
pub open spec fn union_prefix(
    parts: Seq<Seq<char>>,
    k: nat,
    bound: nat,
    aliases: Map<Seq<char>, Seq<char>>,
    wrappers: Map<Seq<char>, PythonNullableWrapper>,
) -> Result<Option<Seq<char>>, ()>
    decreases bound, 0nat, k,
{
    if k == 0 || k > parts.len() {
        Ok(None)
    } else {
        match union_prefix(parts, (k - 1) as nat, bound, aliases, wrappers) {
            Err(()) => Err(()),
            Ok(selected) => {
                let p = strip_parens(trim(parts[k - 1]));
                if annotation_is_none(p) {
                    Ok(selected)
                } else if p.len() < bound {
                    match type_name_of(p, aliases, wrappers) {
                        None => Err(()),
                        Some(c) => match selected {
                            None => Ok(Some(c)),
                            Some(e) => if e == c {
                                Ok(selected)
                            } else {
                                Err(())
                            },
                        },
                    }
                } else {
                    Err(())
                }
            },
        }
    }
}

/// The single class the members of a union agree on.
pub open spec fn union_name_of(
    parts: Seq<Seq<char>>,
    k: nat,
    bound: nat,
    aliases: Map<Seq<char>, Seq<char>>,
    wrappers: Map<Seq<char>, PythonNullableWrapper>,
) -> Option<Seq<char>>
    decreases bound, 0nat, k + 1,
{
    match union_prefix(parts, k, bound, aliases, wrappers) {
        Ok(s) => s,
        Err(()) => None,
    }
}

/// Once a union is refused, reading more members keeps it refused.
proof fn lemma_union_refusal_sticks(
    parts: Seq<Seq<char>>,
    i: nat,
    k: nat,
    bound: nat,
    aliases: Map<Seq<char>, Seq<char>>,
    wrappers: Map<Seq<char>, PythonNullableWrapper>,
)
    requires
        i <= k <= parts.len(),
        union_prefix(parts, i, bound, aliases, wrappers) is Err,
    ensures
        union_prefix(parts, k, bound, aliases, wrappers) is Err,
    decreases k - i,
{
    if k > i {
        lemma_union_refusal_sticks(parts, i, (k - 1) as nat, bound, aliases, wrappers);
    }
}

/// The characters of `cs` from position `a` to `b`, trimmed.
fn trimmed_range(cs: &Vec<char>, a: usize, b: usize) -> (r: String)
    requires
        a <= b <= cs@.len(),
    ensures
        r@ == trim(cs@.subrange(a as int, b as int)),
{
    let mut out: Vec<char> = Vec::new();
    let mut k = a;
    while k < b
        invariant
            a <= k <= b,
            b <= cs@.len(),
            out@ == cs@.subrange(a as int, k as int),
        decreases b - k,
    {
        out.push(cs[k]);
        k = k + 1;
        assert(out@ =~= cs@.subrange(a as int, k as int));
    }
    trim_chars(&out)
}

/// The single class an annotation names, or none when it names no class
/// or could name several.
pub fn python_unambiguous_type_name(
    annotation: &str,
    aliases: &crate::strmap::StrMap<String>,
    wrappers: &crate::strmap::StrMap<PythonNullableWrapper>,
) -> (r: Option<String>)
    ensures
        match r {
            Some(s) => type_name_of(annotation@, crate::py_scopes::texts_of(aliases.view()), wrappers.view()) == Some(s@),
            None => type_name_of(annotation@, crate::py_scopes::texts_of(aliases.view()), wrappers.view()) is None,
        },
    decreases annotation@.len(), 1nat, 0nat,
{
    let a = chars_of(annotation);
    let t = trim_chars(&a);
    let tc = chars_of(t.as_str());
    let u = unquote_chars(&tc);
    proof {
        lemma_trim_len(annotation@);
    }
    if u.len() < tc.len() {
        let us = string_of(u.as_slice());
        return python_unambiguous_type_name(us.as_str(), aliases, wrappers);
    }
    assert(u@ == t@);
    let b = strip_python_outer_parentheses(t.as_str());
    proof {
        lemma_strip_parens_len(t@);
    }
    let union = python_top_level_parts(b.as_str(), '|');
    if union.len() > 1 {
        proof {
            lemma_parts_shorter(b@, '|');
            assert forall|k: int| 0 <= k < union@.len() implies (#[trigger] union@[k])@.len() < b@.len() by {
                assert(crate::fields::texts(union@)[k] == union@[k]@);
            }
        }
        return python_union_type_name(&union, Ghost(b@.len()), aliases, wrappers);
    }
    match python_top_level_subscript(b.as_str()) {
        Some(open) => {
            let bc = chars_of(b.as_str());
            proof {
                lemma_first_open_bracket(b@);
            }
            let wrapper = trimmed_range(&bc, 0, open);
            if crate::words::python_qualified_type_name(wrapper.as_str()).is_none() {
                return None;
            }
            let args = trimmed_range(&bc, open + 1, bc.len() - 1);
            proof {
                lemma_trim_len(b@.subrange(open + 1, b@.len() - 1));
            }
            match wrappers.get(wrapper.as_str()) {
                Some(PythonNullableWrapper::Optional) => python_unambiguous_type_name(args.as_str(), aliases, wrappers),
                Some(PythonNullableWrapper::Union) => {
                    let parts = python_top_level_parts(args.as_str(), ',');
                    proof {
                        lemma_parts_shorter(args@, ',');
                        assert forall|k: int| 0 <= k < parts@.len() implies (#[trigger] parts@[k])@.len() < b@.len() by {
                            assert(crate::fields::texts(parts@)[k] == parts@[k]@);
                        }
                    }
                    python_union_type_name(&parts, Ghost(b@.len()), aliases, wrappers)
                },
                _ => None,
            }
        },
        None => {
            if python_annotation_is_none(b.as_str()) {
                return None;
            }
            match crate::words::python_qualified_type_name(b.as_str()) {
                None => None,
                Some(n) => match aliases.get(n.as_str()) {
                    Some(x) => Some(x.clone()),
                    None => Some(n),
                },
            }
        },
    }
}

/// The single class the members of a union agree on, `None` members
/// ignored.
fn python_union_type_name(
    parts: &Vec<String>,
    Ghost(bound): Ghost<nat>,
    aliases: &crate::strmap::StrMap<String>,
    wrappers: &crate::strmap::StrMap<PythonNullableWrapper>,
) -> (r: Option<String>)
    requires
        forall|k: int| 0 <= k < parts@.len() ==> (#[trigger] parts@[k])@.len() < bound,
    ensures
        match r {
            Some(s) => union_name_of(
                crate::fields::texts(parts@),
                parts@.len(),
                bound,
                crate::py_scopes::texts_of(aliases.view()),
                wrappers.view(),
            ) == Some(s@),
            None => union_name_of(
                crate::fields::texts(parts@),
                parts@.len(),
                bound,
                crate::py_scopes::texts_of(aliases.view()),
                wrappers.view(),
            ) is None,
        },
    decreases bound, 0nat, 0nat,
{
    let ghost ps = crate::fields::texts(parts@);
    let mut selected: Option<String> = None;
    let mut i: usize = 0;
    while i < parts.len()
        invariant
            i <= parts@.len(),
            ps == crate::fields::texts(parts@),
            forall|k: int| 0 <= k < parts@.len() ==> (#[trigger] parts@[k])@.len() < bound,
            union_prefix(ps, i as nat, bound, crate::py_scopes::texts_of(aliases.view()), wrappers.view()) == Ok::<Option<Seq<char>>, ()>(
                match selected {
                    Some(s) => Some(s@),
                    None => None,
                },
            ),
        decreases parts@.len() - i,
    {
        let pc = chars_of(parts[i].as_str());
        let pt = trim_chars(&pc);
        let p = strip_python_outer_parentheses(pt.as_str());
        assert(ps[i as int] == parts@[i as int]@);
        proof {
            lemma_trim_len(parts@[i as int]@);
            lemma_strip_parens_len(pt@);
        }
        if !python_annotation_is_none(p.as_str()) {
            let candidate = match python_unambiguous_type_name(p.as_str(), aliases, wrappers) {
                None => {
                    proof {
                        lemma_union_refusal_sticks(ps, (i + 1) as nat, parts@.len(), bound, crate::py_scopes::texts_of(aliases.view()), wrappers.view());
                    }
                    return None;
                },
                Some(c) => c,
            };
            match &selected {
                None => {
                    selected = Some(candidate);
                },
                Some(existing) => {
                    if !crate::strmap::str_eq(existing.as_str(), candidate.as_str()) {
                        proof {
                            lemma_union_refusal_sticks(ps, (i + 1) as nat, parts@.len(), bound, crate::py_scopes::texts_of(aliases.view()), wrappers.view());
                        }
                        return None;
                    }
                },
            }
        }
        i = i + 1;
    }
    selected
}

// ---------------------------------------------------------------- wrapper bindings

/// Which nullable wrapper an imported name is, by its last `.` segment.
pub open spec fn wrapper_named(imported: Seq<char>) -> Option<PythonNullableWrapper> {
    let last = crate::fields::split_on(imported, '.').last();
    if last == "Optional"@ {
        Some(PythonNullableWrapper::Optional)
    } else if last == "Union"@ {
        Some(PythonNullableWrapper::Union)
    } else if last == "TYPE_CHECKING"@ {
        Some(PythonNullableWrapper::TypeChecking)
    } else {
        None
    }
}

/// Records that `binding` names the wrapper `imported` refers to; other
/// imports leave the wrappers unchanged.
pub fn insert_python_nullable_wrapper(
    wrappers: &mut crate::strmap::StrMap<PythonNullableWrapper>,
    binding: &str,
    imported: &str,
)
    ensures
        match wrapper_named(imported@) {
            Some(w) => final(wrappers).view() == old(wrappers).view().insert(binding@, w),
            None => final(wrappers).view() == old(wrappers).view(),
        },
{
    let pieces = crate::fields::split_text(imported, '.');
    proof {
        crate::fields::lemma_split_nonempty(imported@, '.');
    }
    let last = pieces[pieces.len() - 1].as_str();
    assert(last@ == crate::fields::split_on(imported@, '.').last());
    let wrapper = if crate::strmap::str_eq(last, "Optional") {
        PythonNullableWrapper::Optional
    } else if crate::strmap::str_eq(last, "Union") {
        PythonNullableWrapper::Union
    } else if crate::strmap::str_eq(last, "TYPE_CHECKING") {
        PythonNullableWrapper::TypeChecking
    } else {
        return;
    };
    wrappers.insert(binding.to_string(), wrapper);
}

/// A binding shadows `name` when it is `name` itself or a dotted path
/// below it.
pub open spec fn shadowed_by(name: Seq<char>, binding: Seq<char>) -> bool {
    name == binding || (binding + seq!['.']).is_prefix_of(name)
}

/// Forgets every wrapper name that a new binding of `binding` shadows.
pub fn remove_python_wrapper_binding(wrappers: &mut crate::strmap::StrMap<PythonNullableWrapper>, binding: &str)
    ensures
        forall|k: Seq<char>|
            #[trigger] final(wrappers).view().contains_key(k) <==> (old(wrappers).view().contains_key(k)
                && !shadowed_by(k, binding@)),
        forall|k: Seq<char>|
            #[trigger] final(wrappers).view().contains_key(k) ==> final(wrappers).view()[k] == old(
                wrappers,
            ).view()[k],
{
    let mut dotted = String::new();
    crate::text::push_str(&mut dotted, binding);
    crate::text::push_char(&mut dotted, '.');
    let mut kept: crate::strmap::StrMap<PythonNullableWrapper> = crate::strmap::StrMap::new();
    let n = wrappers.len();
    let mut i: usize = 0;
    while i < n
        invariant
            n == old(wrappers).pairs().len(),
            *wrappers == *old(wrappers),
            i <= n,
            dotted@ == binding@ + seq!['.'],
            forall|j: int|
                0 <= j < old(wrappers).pairs().len() ==> #[trigger] old(wrappers).view().contains_key(
                    old(wrappers).pairs()[j].0,
                ) && old(wrappers).view()[old(wrappers).pairs()[j].0] == old(wrappers).pairs()[j].1,
            forall|k: Seq<char>|
                #[trigger] old(wrappers).view().contains_key(k) ==> exists|j: int|
                    0 <= j < old(wrappers).pairs().len() && old(wrappers).pairs()[j].0 == k,
            forall|k: Seq<char>|
                #[trigger] kept.view().contains_key(k) <==> (!shadowed_by(k, binding@) && exists|j: int|
                    0 <= j < i && old(wrappers).pairs()[j].0 == k),
            forall|k: Seq<char>|
                #[trigger] kept.view().contains_key(k) ==> kept.view()[k] == old(wrappers).view()[k],
        decreases n - i,
    {
        let key = wrappers.key(i);
        let keep = !crate::strmap::str_eq(key.as_str(), binding) && !crate::text::starts_with(key.as_str(), dotted.as_str());
        if keep {
            let v = *wrappers.value(i);
            assert(old(wrappers).view().contains_key(old(wrappers).pairs()[i as int].0));
            kept.insert(key.clone(), v);
        }
        i = i + 1;
    }
    *wrappers = kept;
}

/// The `Uppercase` property of a character.
pub uninterp spec fn is_uppercase_char(c: char) -> bool;

/// `char::is_uppercase`: whether the character has the Unicode
/// `Uppercase` property, a fixed property of the character.
#[verifier::external_body]
pub(crate) fn char_is_uppercase(c: char) -> (r: bool)
    ensures
        r == is_uppercase_char(c),
{
    c.is_uppercase()
}

/// Whether a call through `qualifier` may still fall back to matching by
/// owner: always outside Python and for plain names; for a dotted Python
/// qualifier only when its root is an imported binding and it either is
/// that root or ends in a capitalized (class-like) segment.
pub open spec fn owner_fallback_allowed(
    lang: crate::sources::Lang,
    qualifier: Seq<char>,
    bindings: Map<Seq<char>, Seq<char>>,
) -> bool {
    if lang != crate::sources::Lang::Python || !crate::fields::has_char(qualifier, '.') {
        true
    } else {
        let q = trim(qualifier);
        let root = crate::fields::split_on(q, '.')[0];
        let tail = crate::fields::split_on(q, '.').last();
        bindings.contains_key(root) && (q == root || (tail.len() > 0 && is_uppercase_char(tail[0])))
    }
}

/// Decides [`owner_fallback_allowed`].
pub fn python_qualifier_owner_fallback(
    lang: crate::sources::Lang,
    qualifier: &str,
    import_bindings: &crate::strmap::StrMap<String>,
) -> (r: bool)
    ensures
        r == owner_fallback_allowed(lang, qualifier@, crate::py_scopes::texts_of(import_bindings.view())),
{
    let qc = chars_of(qualifier);
    let mut has_dot = false;
    let mut i: usize = 0;
    while i < qc.len()
        invariant
            qc@ == qualifier@,
            i <= qc@.len(),
            has_dot == exists|j: int| 0 <= j < i && qc@[j] == '.',
        decreases qc@.len() - i,
    {
        if qc[i] == '.' {
            has_dot = true;
        }
        i = i + 1;
    }
    if lang != crate::sources::Lang::Python || !has_dot {
        return true;
    }
    let q = trim_chars(&qc);
    let pieces = crate::fields::split_text(q.as_str(), '.');
    proof {
        crate::fields::lemma_split_nonempty(q@, '.');
    }
    let root = pieces[0].as_str();
    let tail = pieces[pieces.len() - 1].as_str();
    assert(root@ == crate::fields::split_on(q@, '.')[0]);
    assert(tail@ == crate::fields::split_on(q@, '.').last());
    if import_bindings.get(root).is_none() {
        return false;
    }
    if crate::strmap::str_eq(q.as_str(), root) {
        return true;
    }
    let tc = chars_of(tail);
    tc.len() > 0 && char_is_uppercase(tc[0])
}

/// Quoting an annotation does not change the class it names.
pub proof fn law_quoting_is_transparent(
    a: Seq<char>,
    aliases: Map<Seq<char>, Seq<char>>,
    wrappers: Map<Seq<char>, PythonNullableWrapper>,
)
    ensures
        type_name_of(seq!['"'] + a + seq!['"'], aliases, wrappers) == type_name_of(a, aliases, wrappers),
        type_name_of(seq!['\''] + a + seq!['\''], aliases, wrappers) == type_name_of(a, aliases, wrappers),
{
    lemma_trim_quoted(a, '"');
    lemma_trim_quoted(a, '\'');
}

/// A text between quotes has nothing to trim, and unquoting gives it back.
proof fn lemma_trim_quoted(a: Seq<char>, q: char)
    requires
        q == '"' || q == '\'',
    ensures
        trim(seq![q] + a + seq![q]) == seq![q] + a + seq![q],
        unquoted(seq![q] + a + seq![q]) == a,
{
    let s = seq![q] + a + seq![q];
    assert(s[0] == q && s.last() == q);
    assert(!is_whitespace(s.last()));
    assert(trim_end(s) == s);
    assert(!is_whitespace(s[0]));
    assert(trim_start(s) == s);
    assert(s.subrange(1, s.len() - 1) =~= a);
}

} // verus!
