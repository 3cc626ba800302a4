//! Word-level reading of source text: identifier tokens, `use` lists,
//! nested macro invocations, attribute text and qualifiers. These are the
//! textual checks the graph builder makes where a syntax tree gives no
//! answer (macro arguments, annotations kept as text).

use vstd::prelude::*;
use crate::fields::{is_whitespace, char_is_whitespace, texts, trim, trim_chars, trim_start};
use crate::paths::{is_ascii_alnum, normalized_symbol, normalized_symbol_of, owner_tail, owner_tail_of};
use crate::strmap::str_eq;
use crate::text::{chars_of, ends_with, push_char, push_str, starts_with, string_of};

verus! {

/// The characters at which a text is split.
#[derive(Debug, Clone, Copy, PartialEq, Eq, Structural)]
pub enum Separator {
    /// Anything that cannot continue an identifier.
    NonIdent,
    /// `:`, `,`, braces, `;` and whitespace: what delimits names in a `use`.
    UseList,
    /// Whitespace.
    Space,
    /// `.` or `:`, the separators of a qualifier.
    Qualifier,
}

/// An ASCII letter, digit or `_`.
pub open spec fn is_ident_char(c: char) -> bool {
    c == '_' || is_ascii_alnum(c)
}

/// Whether `c` separates pieces under `sep`.
pub open spec fn separates(sep: Separator, c: char) -> bool {
    match sep {
        Separator::NonIdent => !is_ident_char(c),
        Separator::UseList => c == ':' || c == ',' || c == '{' || c == '}' || c == ';' || is_whitespace(c),
        Separator::Space => is_whitespace(c),
        Separator::Qualifier => c == '.' || c == ':',
    }
}

/// Decides [`separates`].
pub fn separates_char(sep: Separator, c: char) -> (r: bool)
    ensures
        r == separates(sep, c),
{
    match sep {
        Separator::NonIdent => !(c == '_' || ('a' <= c && c <= 'z') || ('A' <= c && c <= 'Z') || ('0' <= c && c
            <= '9')),
        Separator::UseList => c == ':' || c == ',' || c == '{' || c == '}' || c == ';' || char_is_whitespace(c),
        Separator::Space => char_is_whitespace(c),
        Separator::Qualifier => c == '.' || c == ':',
    }
}

/// The pieces of `s` between separator characters, as `str::split` with a
/// predicate yields them: empty pieces included.
pub open spec fn split_by(s: Seq<char>, sep: Separator) -> Seq<Seq<char>>
    decreases s.len(),
{
    if s.len() == 0 {
        seq![seq![]]
    } else {
        let prev = split_by(s.drop_last(), sep);
        if separates(sep, s.last()) {
            prev.push(seq![])
        } else {
            prev.update(prev.len() - 1, prev.last().push(s.last()))
        }
    }
}

/// There is always at least one piece.
pub proof fn lemma_split_by_nonempty(s: Seq<char>, sep: Separator)
    ensures
        split_by(s, sep).len() >= 1,
    decreases s.len(),
{
    if s.len() > 0 {
        lemma_split_by_nonempty(s.drop_last(), sep);
    }
}

/// Splits `s` at every separator character.
pub fn split_text_by(s: &str, sep: Separator) -> (r: Vec<String>)
    ensures
        texts(r@) == split_by(s@, sep),
{
    let cs = chars_of(s);
    let mut done: Vec<String> = Vec::new();
    let mut cur: Vec<char> = Vec::new();
    let mut i: usize = 0;
    while i < cs.len()
        invariant
            cs@ == s@,
            i <= cs@.len(),
            texts(done@).push(cur@) == split_by(cs@.take(i as int), sep),
        decreases cs@.len() - i,
    {
        proof {
            lemma_split_by_nonempty(cs@.take(i as int), sep);
        }
        assert(cs@.take(i + 1).drop_last() =~= cs@.take(i as int));
        assert(cs@.take(i + 1).last() == cs@[i as int]);
        let c = cs[i];
        if separates_char(sep, c) {
            done.push(string_of(cur.as_slice()));
            cur = Vec::new();
            assert(texts(done@).push(cur@) =~= split_by(cs@.take(i + 1), sep));
        } else {
            cur.push(c);
            assert(texts(done@).push(cur@) =~= split_by(cs@.take(i + 1), sep));
        }
        i = i + 1;
    }
    assert(cs@.take(cs@.len() as int) =~= cs@);
    done.push(string_of(cur.as_slice()));
    assert(texts(done@) =~= split_by(s@, sep));
    done
}

/// Some identifier-delimited token of `text` is exactly `word`.
pub open spec fn has_word(text: Seq<char>, word: Seq<char>) -> bool {
    split_by(text, Separator::NonIdent).contains(word)
}

/// True when `word` occurs in `text` as a whole identifier token.
pub fn contains_word(text: &str, word: &str) -> (r: bool)
    ensures
        r == has_word(text@, word@),
{
    let tokens = split_text_by(text, Separator::NonIdent);
    let mut i: usize = 0;
    while i < tokens.len()
        invariant
            i <= tokens@.len(),
            texts(tokens@) == split_by(text@, Separator::NonIdent),
            forall|j: int| 0 <= j < i ==> texts(tokens@)[j] != word@,
        decreases tokens@.len() - i,
    {
        if str_eq(tokens[i].as_str(), word) {
            assert(texts(tokens@)[i as int] == word@);
            return true;
        }
        i = i + 1;
    }
    false
}

/// True when `expected` occurs in a type's text as a whole identifier token.
pub fn has_type_token(value: &str, expected: &str) -> (r: bool)
    ensures
        r == has_word(value@, expected@),
{
    contains_word(value, expected)
}

/// Some identifier token of a return type, normalized and at least three
/// characters long, is the owner's bare type name.
pub open spec fn returns_owner(return_type: Seq<char>, owner: Seq<char>) -> bool {
    exists|j: int|
        0 <= j < split_by(return_type, Separator::NonIdent).len() && normalized_symbol_of(
            #[trigger] split_by(return_type, Separator::NonIdent)[j],
        ).len() >= 3 && normalized_symbol_of(split_by(return_type, Separator::NonIdent)[j]) == owner_tail_of(owner)
}

/// True when a function's return type names its owner type.
pub fn return_type_matches_owner(return_type: &str, owner: &str) -> (r: bool)
    ensures
        r == returns_owner(return_type@, owner@),
{
    let tail = owner_tail(owner);
    let tokens = split_text_by(return_type, Separator::NonIdent);
    let mut i: usize = 0;
    while i < tokens.len()
        invariant
            i <= tokens@.len(),
            texts(tokens@) == split_by(return_type@, Separator::NonIdent),
            tail@ == owner_tail_of(owner@),
            forall|j: int|
                0 <= j < i ==> !(normalized_symbol_of(#[trigger] texts(tokens@)[j]).len() >= 3 && normalized_symbol_of(
                    texts(tokens@)[j],
                ) == owner_tail_of(owner@)),
        decreases tokens@.len() - i,
    {
        let t = normalized_symbol(tokens[i].as_str());
        assert(texts(tokens@)[i as int] == tokens@[i as int]@);
        if chars_of(t.as_str()).len() >= 3 && str_eq(t.as_str(), tail.as_str()) {
            return true;
        }
        i = i + 1;
    }
    false
}

/// The pieces of a `use` declaration that could name a bound item: every
/// nonempty word other than `use`, `as` and `pub`.
pub open spec fn use_names(ps: Seq<Seq<char>>) -> Seq<Seq<char>>
    decreases ps.len(),
{
    if ps.len() == 0 {
        seq![]
    } else {
        let earlier = use_names(ps.drop_last());
        let w = ps.last();
        if w.len() > 0 && w != "use"@ && w != "as"@ && w != "pub"@ {
            earlier.push(w)
        } else {
            earlier
        }
    }
}

/// Every identifier a `use` declaration's text could bind into scope: an
/// over-approximation that also keeps path segments.
pub fn use_declaration_names(text: &str) -> (r: Vec<String>)
    ensures
        texts(r@) == use_names(split_by(text@, Separator::UseList)),
{
    let words = split_text_by(text, Separator::UseList);
    let mut out: Vec<String> = Vec::new();
    let mut i: usize = 0;
    while i < words.len()
        invariant
            i <= words@.len(),
            texts(words@) == split_by(text@, Separator::UseList),
            texts(out@) == use_names(texts(words@).take(i as int)),
        decreases words@.len() - i,
    {
        assert(texts(words@).take(i + 1).drop_last() =~= texts(words@).take(i as int));
        assert(texts(words@).take(i + 1).last() == words@[i as int]@);
        let w = words[i].as_str();
        proof {
            reveal_strlit("");
            if w@.len() == 0 {
                assert(w@ =~= ""@);
            }
        }
        if !str_eq(w, "") && !str_eq(w, "use") && !str_eq(w, "as") && !str_eq(w, "pub") {
            out.push(words[i].clone());
            assert(texts(out@) =~= use_names(texts(words@).take(i + 1)));
        }
        i = i + 1;
    }
    assert(texts(words@).take(words@.len() as int) =~= texts(words@));
    out
}

/// An ASCII letter or `_`: what an identifier starts with.
pub open spec fn is_ident_start(c: char) -> bool {
    c == '_' || ('a' <= c && c <= 'z') || ('A' <= c && c <= 'Z')
}

/// An identifier of `text` ends at `j`, followed by `!` that is not part
/// of `!=`: a nested macro invocation.
pub open spec fn bang_after_ident(text: Seq<char>, j: int) -> bool {
    &&& 0 <= j < text.len()
    &&& text[j] == '!'
    &&& !(j + 1 < text.len() && text[j + 1] == '=')
    &&& exists|k: int|
        0 <= k < j && is_ident_start(#[trigger] text[k]) && forall|m: int| k <= m < j ==> is_ident_char(text[m])
}

/// The text holds a nested macro invocation `name!`.
pub open spec fn has_bang_macro(text: Seq<char>) -> bool {
    exists|j: int| bang_after_ident(text, j)
}

/// True when the text holds an identifier directly followed by `!` (and
/// not by `!=`): a nested macro invocation.
pub fn contains_bang_macro_invocation(text: &str) -> (r: bool)
    ensures
        r == has_bang_macro(text@),
{
    let cs = chars_of(text);
    let n = cs.len();
    let mut in_ident = false;
    let mut i: usize = 0;
    while i < n
        invariant
            n == cs@.len(),
            cs@ == text@,
            i <= n,
            in_ident == exists|k: int|
                0 <= k < i && is_ident_start(#[trigger] cs@[k]) && forall|m: int| k <= m < i ==> is_ident_char(cs@[m]),
            forall|j: int| 0 <= j < i ==> !bang_after_ident(text@, j),
        decreases n - i,
    {
        let c = cs[i];
        if c == '!' && in_ident && !(i + 1 < n && cs[i + 1] == '=') {
            assert(bang_after_ident(text@, i as int));
            return true;
        }
        let ghost was = in_ident;
        if c == '_' || ('a' <= c && c <= 'z') || ('A' <= c && c <= 'Z') || ('0' <= c && c <= '9') {
            let starts = c == '_' || ('a' <= c && c <= 'z') || ('A' <= c && c <= 'Z');
            in_ident = in_ident || starts;
            proof {
                if was {
                    let k = choose|k: int|
                        0 <= k < i && is_ident_start(#[trigger] cs@[k]) && forall|m: int| k <= m < i ==> is_ident_char(cs@[m]);
                    assert(forall|m: int| k <= m < i + 1 ==> is_ident_char(cs@[m]));
                } else if starts {
                    assert(forall|m: int| i <= m < i + 1 ==> is_ident_char(cs@[m]));
                    assert(is_ident_start(cs@[i as int]));
                } else {
                    assert forall|k: int|
                        0 <= k < i + 1 && is_ident_start(#[trigger] cs@[k]) implies !(forall|m: int|
                        k <= m < i + 1 ==> is_ident_char(cs@[m])) by {
                        if k == i {
                        } else if forall|m: int| k <= m < i + 1 ==> is_ident_char(cs@[m]) {
                            assert(forall|m: int| k <= m < i ==> is_ident_char(cs@[m]));
                        }
                    }
                }
            }
        } else {
            in_ident = false;
            assert forall|k: int|
                0 <= k < i + 1 && is_ident_start(#[trigger] cs@[k]) implies !(forall|m: int|
                k <= m < i + 1 ==> is_ident_char(cs@[m])) by {
                assert(!is_ident_char(cs@[i as int]));
            }
        }
        i = i + 1;
    }
    false
}

/// A macro's masked argument text is simple enough to trust: no block or
/// closure, no local binding or nested item, no nested macro.
pub open spec fn safe_macro_arguments(masked: Seq<char>) -> bool {
    !crate::fields::has_char(masked, '{') && !crate::fields::has_char(masked, '|') && !has_word(masked, "let"@)
        && !has_word(masked, "fn"@) && !has_bang_macro(masked)
}

/// True when a macro's masked argument text is simple enough to trust.
pub fn is_safe_to_trust_macro_arguments(masked: &str) -> (r: bool)
    ensures
        r == safe_macro_arguments(masked@),
{
    let cs = chars_of(masked);
    let mut i: usize = 0;
    while i < cs.len()
        invariant
            cs@ == masked@,
            i <= cs@.len(),
            forall|j: int| 0 <= j < i ==> cs@[j] != '{' && cs@[j] != '|',
        decreases cs@.len() - i,
    {
        if cs[i] == '{' || cs[i] == '|' {
            assert(cs@[i as int] == '{' ==> crate::fields::has_char(masked@, '{'));
            assert(cs@[i as int] == '|' ==> crate::fields::has_char(masked@, '|'));
            return false;
        }
        i = i + 1;
    }
    if contains_word(masked, "let") || contains_word(masked, "fn") {
        return false;
    }
    !contains_bang_macro_invocation(masked)
}

/// The non-whitespace runs of `text` joined by single spaces.
pub fn collapse_whitespace(text: &str) -> (r: String)
    ensures
        r@ == crate::search::join_spaced(crate::search::words(text@)),
{
    let ws = crate::search::split_words(text);
    crate::search::joined_tags(&ws)
}

/// `s` with every leading repetition of `p` removed.
pub open spec fn strip_all(s: Seq<char>, p: Seq<char>) -> Seq<char>
    decreases s.len(),
{
    if p.len() > 0 && p.is_prefix_of(s) {
        strip_all(s.skip(p.len() as int), p)
    } else {
        s
    }
}

/// What an attribute's text holds once `#!`, `#`, whitespace and `[` are
/// taken off its front.
pub open spec fn attribute_inner(text: Seq<char>) -> Seq<char> {
    strip_all(trim_start(strip_all(strip_all(trim(text), "#!"@), "#"@)), "["@)
}

/// The attribute text is a `cfg` or `cfg_attr` attribute.
pub open spec fn cfg_attribute(text: Seq<char>) -> bool {
    let inner = attribute_inner(text);
    "cfg("@.is_prefix_of(inner) || "cfg_attr("@.is_prefix_of(inner) || trim(inner) == "cfg"@
}

/// True when an attribute's text is `#[cfg(..)]`, `#![cfg(..)]`,
/// `#[cfg_attr(..)]` or a bare `cfg`.
#[verifier::loop_isolation(false)]
#[verifier::rlimit(60)]
pub fn is_cfg_attr_text(text: &str) -> (r: bool)
    ensures
        r == cfg_attribute(text@),
{
    let all = chars_of(text);
    let t = trim_chars(&all);
    let cs = chars_of(t.as_str());
    let n = cs.len();
    proof {
        reveal_strlit("#!");
        reveal_strlit("#");
        reveal_strlit("[");
        assert(cs@.skip(0) =~= cs@);
    }
    let mut k: usize = 0;
    while n - k >= 2 && cs[k] == '#' && cs[k + 1] == '!'
        invariant
            k <= n,
            n == cs@.len(),
            strip_all(cs@, "#!"@) == strip_all(cs@.skip(k as int), "#!"@),
        decreases n - k,
    {
        assert("#!"@.is_prefix_of(cs@.skip(k as int)));
        assert(cs@.skip(k as int).skip(2) =~= cs@.skip(k + 2));
        k = k + 2;
    }
    assert(!"#!"@.is_prefix_of(cs@.skip(k as int))) by {
        if "#!"@.is_prefix_of(cs@.skip(k as int)) {
            let s1 = cs@.skip(k as int);
            assert(s1.subrange(0, 2) == "#!"@);
            assert(s1.subrange(0, 2)[0] == s1[0] && s1.subrange(0, 2)[1] == s1[1]);
            assert(s1[0] == cs@[k as int] && s1[1] == cs@[k + 1]);
        }
    }
    let k1 = k;
    while k < n && cs[k] == '#'
        invariant
            k1 <= k <= n,
            n == cs@.len(),
            strip_all(cs@.skip(k1 as int), "#"@) == strip_all(cs@.skip(k as int), "#"@),
        decreases n - k,
    {
        assert("#"@.is_prefix_of(cs@.skip(k as int)));
        assert(cs@.skip(k as int).skip(1) =~= cs@.skip(k + 1));
        k = k + 1;
    }
    assert(!"#"@.is_prefix_of(cs@.skip(k as int))) by {
        if "#"@.is_prefix_of(cs@.skip(k as int)) {
            let s1 = cs@.skip(k as int);
            assert(s1.subrange(0, 1) == "#"@);
            assert(s1.subrange(0, 1)[0] == s1[0]);
        }
    }
    let k2 = k;
    while k < n && char_is_whitespace(cs[k])
        invariant
            k2 <= k <= n,
            n == cs@.len(),
            trim_start(cs@.skip(k2 as int)) == trim_start(cs@.skip(k as int)),
        decreases n - k,
    {
        assert(cs@.skip(k as int).drop_first() =~= cs@.skip(k + 1));
        k = k + 1;
    }
    let k3 = k;
    assert(trim_start(cs@.skip(k3 as int)) == cs@.skip(k3 as int)) by {
        if k3 < n {
            assert(cs@.skip(k3 as int)[0] == cs@[k3 as int]);
            assert(!is_whitespace(cs@.skip(k3 as int)[0]));
        }
    }
    while k < n && cs[k] == '['
        invariant
            k3 <= k <= n,
            n == cs@.len(),
            strip_all(cs@.skip(k3 as int), "["@) == strip_all(cs@.skip(k as int), "["@),
        decreases n - k,
    {
        assert("["@.is_prefix_of(cs@.skip(k as int)));
        assert(cs@.skip(k as int).skip(1) =~= cs@.skip(k + 1));
        k = k + 1;
    }
    assert(!"["@.is_prefix_of(cs@.skip(k as int))) by {
        if "["@.is_prefix_of(cs@.skip(k as int)) {
            let s1 = cs@.skip(k as int);
            assert(s1.subrange(0, 1) == "["@);
            assert(s1.subrange(0, 1)[0] == s1[0]);
        }
    }
    let mut inner_chars: Vec<char> = Vec::new();
    let mut q = k;
    while q < n
        invariant
            k <= q <= n,
            n == cs@.len(),
            inner_chars@ == cs@.subrange(k as int, q as int),
        decreases n - q,
    {
        inner_chars.push(cs[q]);
        q = q + 1;
        assert(inner_chars@ =~= cs@.subrange(k as int, q as int));
    }
    assert(inner_chars@ =~= cs@.skip(k as int));
    assert(inner_chars@ == attribute_inner(text@));
    let inner = string_of(inner_chars.as_slice());
    let trimmed = trim_chars(&inner_chars);
    starts_with(inner.as_str(), "cfg(") || starts_with(inner.as_str(), "cfg_attr(") || str_eq(trimmed.as_str(), "cfg")
}

/// The last identifier of a path: its last `::` segment, trimmed.
pub fn last_ident(text: &str) -> (r: String)
    ensures
        r@ == trim(crate::paths::last_segment_of(text@)),
{
    let seg = crate::paths::last_segment(text);
    let cs = chars_of(seg.as_str());
    trim_chars(&cs)
}

/// The last nonempty piece, if any.
pub open spec fn last_nonempty(ps: Seq<Seq<char>>) -> Option<Seq<char>>
    decreases ps.len(),
{
    if ps.len() == 0 {
        None
    } else if ps.last().len() > 0 {
        Some(ps.last())
    } else {
        last_nonempty(ps.drop_last())
    }
}

/// The name a qualifier binds: its last nonempty `.`- or `:`-separated
/// piece (the whole qualifier when there is none), trimmed.
pub open spec fn binding_of(q: Seq<char>) -> Seq<char> {
    match last_nonempty(split_by(q, Separator::Qualifier)) {
        Some(p) => trim(p),
        None => trim(q),
    }
}

/// The name a qualifier binds.
pub fn qualifier_binding(qualifier: &str) -> (r: String)
    ensures
        r@ == binding_of(qualifier@),
{
    let pieces = split_text_by(qualifier, Separator::Qualifier);
    let mut k = pieces.len();
    assert(texts(pieces@).take(k as int) =~= texts(pieces@));
    proof {
        reveal_strlit("");
    }
    while k > 0 && str_eq(pieces[k - 1].as_str(), "")
        invariant
            k <= pieces@.len(),
            texts(pieces@) == split_by(qualifier@, Separator::Qualifier),
            last_nonempty(texts(pieces@)) == last_nonempty(texts(pieces@).take(k as int)),
        decreases k,
    {
        assert(texts(pieces@).take(k as int).drop_last() =~= texts(pieces@).take(k - 1));
        assert(texts(pieces@).take(k as int).last() == pieces@[k - 1]@);
        proof {
            reveal_strlit("");
        }
        k = k - 1;
    }
    if k == 0 {
        assert(texts(pieces@).take(0) =~= Seq::<Seq<char>>::empty());
        let cs = chars_of(qualifier);
        trim_chars(&cs)
    } else {
        assert(texts(pieces@).take(k as int).last() == pieces@[k - 1]@);
        proof {
            reveal_strlit("");
            assert(pieces@[k - 1]@ != ""@);
            if pieces@[k - 1]@.len() == 0 {
                assert(pieces@[k - 1]@ =~= ""@);
            }
        }
        let cs = chars_of(pieces[k - 1].as_str());
        trim_chars(&cs)
    }
}

/// A qualifier that is itself a plain identifier binds directly.
pub open spec fn direct_binding_of(q: Seq<char>) -> Option<Seq<char>> {
    let t = trim(q);
    if t.len() > 0 && forall|i: int| 0 <= i < t.len() ==> is_ident_char(#[trigger] t[i]) {
        Some(t)
    } else {
        None
    }
}

/// The qualifier, trimmed, when it is a plain identifier.
#[verifier::loop_isolation(false)]
pub fn direct_qualifier_binding(qualifier: &str) -> (r: Option<String>)
    ensures
        match r {
            Some(s) => direct_binding_of(qualifier@) == Some(s@),
            None => direct_binding_of(qualifier@) is None,
        },
{
    let cs = chars_of(qualifier);
    let t = trim_chars(&cs);
    let ts = chars_of(t.as_str());
    if ts.len() == 0 {
        return None;
    }
    let mut i: usize = 0;
    while i < ts.len()
        invariant
            ts@ == t@,
            i <= ts@.len(),
            forall|j: int| 0 <= j < i ==> is_ident_char(#[trigger] ts@[j]),
        decreases ts@.len() - i,
    {
        let c = ts[i];
        if !(c == '_' || ('a' <= c && c <= 'z') || ('A' <= c && c <= 'Z') || ('0' <= c && c <= '9')) {
            assert(!is_ident_char(ts@[i as int]));
            return None;
        }
        i = i + 1;
    }
    Some(t)
}

/// Some string literal is `name`, or ends with `.` and `name`.
pub open spec fn names_rebound(name: Seq<char>, literals: Seq<String>) -> bool {
    exists|i: int|
        0 <= i < literals.len() && ((#[trigger] literals[i])@ == name || (seq!['.'] + name).is_suffix_of(
            literals[i]@,
        ))
}

/// True when some string literal names `name`, bare or as the last
/// `.`-separated segment.
pub fn string_rebound(name: &str, literals: &Vec<String>) -> (r: bool)
    ensures
        r == names_rebound(name@, literals@),
{
    let mut dotted = String::new();
    push_char(&mut dotted, '.');
    push_str(&mut dotted, name);
    assert(dotted@ =~= seq!['.'] + name@);
    let mut i: usize = 0;
    while i < literals.len()
        invariant
            i <= literals@.len(),
            dotted@ == seq!['.'] + name@,
            forall|j: int|
                0 <= j < i ==> !((#[trigger] literals@[j])@ == name@ || (seq!['.'] + name@).is_suffix_of(
                    literals@[j]@,
                )),
        decreases literals@.len() - i,
    {
        if str_eq(literals[i].as_str(), name) || ends_with(literals[i].as_str(), dotted.as_str()) {
            return true;
        }
        i = i + 1;
    }
    false
}

/// The type a dotted Python annotation names: its last segment, when every
/// segment is a nonempty run of letters, digits and `_`.
pub open spec fn qualified_type_name_of(annotation: Seq<char>) -> Option<Seq<char>> {
    let segs = crate::fields::split_on(annotation, '.');
    if forall|i: int|
        0 <= i < segs.len() ==> (#[trigger] segs[i]).len() > 0 && forall|j: int|
            0 <= j < segs[i].len() ==> is_ident_char(segs[i][j]) {
        Some(segs.last())
    } else {
        None
    }
}

/// The type a dotted Python annotation names.
#[verifier::loop_isolation(false)]
pub fn python_qualified_type_name(annotation: &str) -> (r: Option<String>)
    ensures
        match r {
            Some(s) => qualified_type_name_of(annotation@) == Some(s@),
            None => qualified_type_name_of(annotation@) is None,
        },
{
    let segs = crate::fields::split_text(annotation, '.');
    proof {
        crate::fields::lemma_split_nonempty(annotation@, '.');
    }
    let mut i: usize = 0;
    while i < segs.len()
        invariant
            i <= segs@.len(),
            texts(segs@) == crate::fields::split_on(annotation@, '.'),
            forall|a: int|
                0 <= a < i ==> (#[trigger] texts(segs@)[a]).len() > 0 && forall|j: int|
                    0 <= j < texts(segs@)[a].len() ==> is_ident_char(texts(segs@)[a][j]),
        decreases segs@.len() - i,
    {
        let cs = chars_of(segs[i].as_str());
        assert(texts(segs@)[i as int] == segs@[i as int]@);
        if cs.len() == 0 {
            return None;
        }
        let mut j: usize = 0;
        while j < cs.len()
            invariant
                cs@ == segs@[i as int]@,
                j <= cs@.len(),
                forall|q: int| 0 <= q < j ==> is_ident_char(#[trigger] cs@[q]),
            decreases cs@.len() - j,
        {
            let c = cs[j];
            if !(c == '_' || ('a' <= c && c <= 'z') || ('A' <= c && c <= 'Z') || ('0' <= c && c <= '9')) {
                assert(!is_ident_char(texts(segs@)[i as int][j as int]));
                return None;
            }
            j = j + 1;
        }
        i = i + 1;
    }
    Some(segs[segs.len() - 1].clone())
}

/// The syntax-tree kind of a function definition.
pub open spec fn function_kind(lang: crate::sources::Lang, kind: Seq<char>) -> bool {
    match lang {
        crate::sources::Lang::Rust => kind == "function_item"@,
        crate::sources::Lang::Python => kind == "function_definition"@,
        _ => false,
    }
}

/// True when `kind` is the function-definition node kind of `lang`.
pub fn is_function_kind(lang: crate::sources::Lang, kind: &str) -> (r: bool)
    ensures
        r == function_kind(lang, kind@),
{
    match lang {
        crate::sources::Lang::Rust => str_eq(kind, "function_item"),
        crate::sources::Lang::Python => str_eq(kind, "function_definition"),
        _ => false,
    }
}

/// The syntax-tree kinds of type definitions.
pub open spec fn type_kind(lang: crate::sources::Lang, kind: Seq<char>) -> bool {
    match lang {
        crate::sources::Lang::Rust => kind == "struct_item"@ || kind == "enum_item"@ || kind == "trait_item"@,
        crate::sources::Lang::Python => kind == "class_definition"@,
        _ => false,
    }
}

/// True when `kind` is a type-definition node kind of `lang`.
pub fn is_type_kind(lang: crate::sources::Lang, kind: &str) -> (r: bool)
    ensures
        r == type_kind(lang, kind@),
{
    match lang {
        crate::sources::Lang::Rust => str_eq(kind, "struct_item") || str_eq(kind, "enum_item") || str_eq(
            kind,
            "trait_item",
        ),
        crate::sources::Lang::Python => str_eq(kind, "class_definition"),
        _ => false,
    }
}

/// The Unicode `Alphabetic` or `Numeric` property of a character.
pub uninterp spec fn is_alphanumeric_char(c: char) -> bool;

/// `char::is_alphanumeric`: whether the character is alphabetic or
/// numeric in Unicode, a fixed property of the character.
#[verifier::external_body]
pub(crate) fn char_is_alphanumeric(c: char) -> (r: bool)
    ensures
        r == is_alphanumeric_char(c),
{
    c.is_alphanumeric()
}

/// The Unicode `Lowercase` property of a character.
pub uninterp spec fn is_lowercase_char(c: char) -> bool;

/// `char::is_lowercase`: whether the character has the Unicode
/// `Lowercase` property, a fixed property of the character.
#[verifier::external_body]
pub(crate) fn char_is_lowercase(c: char) -> (r: bool)
    ensures
        r == is_lowercase_char(c),
{
    c.is_lowercase()
}

} // verus!
