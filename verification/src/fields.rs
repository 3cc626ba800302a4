//! Validation of the individual fields of extension recipes, marketplace
//! listings and catalogs: bounded text, slugs, reverse-domain ids,
//! project-relative paths and glob patterns, graph namespaces, program
//! names, host names and digests.
//!
//! Each rule is a spec function that gives `None` for an accepted value and
//! the rejection message otherwise; the executable check returns exactly
//! that message as `ExtensionError::Invalid`.

use vstd::prelude::*;
use vstd::utf8::encode_utf8;
use globset::{GlobBuilder, GlobSetBuilder};
use crate::strmap::str_eq;
use crate::text::{chars_of, ends_with, nat_decimal, push_char, push_str, push_u64_decimal, starts_with, string_of};

verus! {

/// Why a recipe, grant, record, listing or catalog was refused.
#[derive(Debug, PartialEq, Eq)]
pub enum ExtensionError {
    Invalid(String),
    Authorization(String),
    Corrupt(String),
}

/// The meaning of an [`ExtensionError`]: its kind and message text.
pub enum Fault {
    Invalid(Seq<char>),
    Authorization(Seq<char>),
    Corrupt(Seq<char>),
}

impl View for ExtensionError {
    type V = Fault;

    open spec fn view(&self) -> Fault {
        match self {
            ExtensionError::Invalid(m) => Fault::Invalid(m@),
            ExtensionError::Authorization(m) => Fault::Authorization(m@),
            ExtensionError::Corrupt(m) => Fault::Corrupt(m@),
        }
    }
}

/// The displayed text of an error.
pub open spec fn fault_text(f: Fault) -> Seq<char> {
    match f {
        Fault::Invalid(m) => "invalid extension recipe: "@ + m,
        Fault::Authorization(m) => "extension authorization failed: "@ + m,
        Fault::Corrupt(m) => "extension record is corrupt: "@ + m,
    }
}

impl ExtensionError {
    /// The error as displayed to a user.
    pub fn message(&self) -> (r: String)
        ensures
            r@ == fault_text(self@),
    {
        let mut s = String::new();
        match self {
            ExtensionError::Invalid(m) => {
                push_str(&mut s, "invalid extension recipe: ");
                push_str(&mut s, m.as_str());
            },
            ExtensionError::Authorization(m) => {
                push_str(&mut s, "extension authorization failed: ");
                push_str(&mut s, m.as_str());
            },
            ExtensionError::Corrupt(m) => {
                push_str(&mut s, "extension record is corrupt: ");
                push_str(&mut s, m.as_str());
            },
        }
        assert(s@ =~= fault_text(self@));
        s
    }
}

/// An optional rejection message read as an invalid-input fault.
pub open spec fn as_invalid(v: Option<Seq<char>>) -> Option<Fault> {
    match v {
        None => None,
        Some(m) => Some(Fault::Invalid(m)),
    }
}

/// `r` is success exactly when there is no fault, and otherwise carries it.
pub open spec fn outcome<T>(r: Result<T, ExtensionError>, f: Option<Fault>) -> bool {
    match r {
        Ok(_) => f is None,
        Err(e) => f == Some(e@),
    }
}

/// The first fault among `f(0)`, ..., `f(n - 1)`, checked in that order.
pub open spec fn first_fault<T>(n: nat, f: spec_fn(int) -> Option<T>) -> Option<T>
    decreases n,
{
    if n == 0 {
        None
    } else {
        match first_fault((n - 1) as nat, f) {
            Some(m) => Some(m),
            None => f(n - 1),
        }
    }
}

/// Once a check fails, later checks do not change the first fault.
pub proof fn lemma_first_fault_stop<T>(i: nat, n: nat, f: spec_fn(int) -> Option<T>)
    requires
        i < n,
        first_fault(i, f) is None,
        f(i as int) is Some,
    ensures
        first_fault(n, f) == f(i as int),
    decreases n,
{
    if n > i + 1 {
        lemma_first_fault_stop(i, (n - 1) as nat, f);
    }
}

/// When no check fails, each one passes.
pub proof fn lemma_first_fault_none<T>(n: nat, f: spec_fn(int) -> Option<T>, k: int)
    requires
        first_fault(n, f) is None,
        0 <= k < n,
    ensures
        f(k) is None,
    decreases n,
{
    if k < n - 1 {
        lemma_first_fault_none((n - 1) as nat, f, k);
    }
}

/// The first of two possible faults.
pub open spec fn or_else<T>(a: Option<T>, b: Option<T>) -> Option<T> {
    match a {
        Some(m) => Some(m),
        None => b,
    }
}

/// The message `a + b`.
pub fn text2(a: &str, b: &str) -> (r: String)
    ensures
        r@ == a@ + b@,
{
    let mut s = String::new();
    push_str(&mut s, a);
    push_str(&mut s, b);
    assert(s@ =~= a@ + b@);
    s
}

/// The message `a + b + c`.
pub fn text3(a: &str, b: &str, c: &str) -> (r: String)
    ensures
        r@ == a@ + b@ + c@,
{
    let mut s = String::new();
    push_str(&mut s, a);
    push_str(&mut s, b);
    push_str(&mut s, c);
    assert(s@ =~= a@ + b@ + c@);
    s
}

/// The message `a + b + c + d`.
pub fn text4(a: &str, b: &str, c: &str, d: &str) -> (r: String)
    ensures
        r@ == a@ + b@ + c@ + d@,
{
    let mut s = String::new();
    push_str(&mut s, a);
    push_str(&mut s, b);
    push_str(&mut s, c);
    push_str(&mut s, d);
    assert(s@ =~= a@ + b@ + c@ + d@);
    s
}

/// The decimal text of a number.
pub fn decimal(n: u64) -> (r: String)
    ensures
        r@ == nat_decimal(n as nat),
{
    let mut s = String::new();
    push_u64_decimal(&mut s, n);
    assert(s@ =~= nat_decimal(n as nat));
    s
}

// ---------------------------------------------------------------- text

/// A control character (Unicode general category Cc).
pub open spec fn is_control(c: char) -> bool {
    (c as u32) <= 0x1f || (0x7f <= (c as u32) && (c as u32) <= 0x9f)
}

/// A character refused in free text: NUL and every control character but
/// the line feed.
pub open spec fn refused_in_text(c: char) -> bool {
    c == '\0' || (is_control(c) && c != '\n')
}

/// Some character of the text is refused.
pub open spec fn has_refused_char(v: Seq<char>) -> bool {
    exists|i: int| 0 <= i < v.len() && refused_in_text(#[trigger] v[i])
}

/// Free text of `min..=max` UTF-8 bytes without refused characters.
pub open spec fn text_rule(label: Seq<char>, v: Seq<char>, min: nat, max: nat) -> Option<Seq<char>> {
    let n = encode_utf8(v).len();
    if n < min || n > max {
        Some(label + " must contain "@ + nat_decimal(min) + " to "@ + nat_decimal(max) + " bytes"@)
    } else if has_refused_char(v) {
        Some(label + " contains unsupported control characters"@)
    } else {
        None
    }
}

/// Checks free text against [`text_rule`].
#[verifier::loop_isolation(false)]
pub fn validate_text(label: &str, value: &str, min: usize, max: usize) -> (r: Result<(), ExtensionError>)
    ensures
        outcome(r, as_invalid(text_rule(label@, value@, min as nat, max as nat))),
{
    let n = value.as_bytes().len();
    if n < min || n > max {
        let mut m = String::new();
        push_str(&mut m, label);
        push_str(&mut m, " must contain ");
        push_u64_decimal(&mut m, min as u64);
        push_str(&mut m, " to ");
        push_u64_decimal(&mut m, max as u64);
        push_str(&mut m, " bytes");
        assert(m@ =~= label@ + " must contain "@ + nat_decimal(min as nat) + " to "@ + nat_decimal(
            max as nat,
        ) + " bytes"@);
        return Err(ExtensionError::Invalid(m));
    }
    let cs = chars_of(value);
    let mut i: usize = 0;
    while i < cs.len()
        invariant
            cs@ == value@,
            i <= cs@.len(),
            forall|j: int| 0 <= j < i ==> !refused_in_text(#[trigger] cs@[j]),
        decreases cs@.len() - i,
    {
        let c = cs[i];
        if c == '\0' || (((c as u32) <= 0x1f || (0x7f <= (c as u32) && (c as u32) <= 0x9f)) && c != '\n') {
            assert(refused_in_text(value@[i as int]));
            assert(has_refused_char(value@));
            return Err(ExtensionError::Invalid(text2(label, " contains unsupported control characters")));
        }
        i = i + 1;
    }
    Ok(())
}

// ---------------------------------------------------------------- slugs

/// An ASCII lowercase letter.
pub open spec fn is_lower(b: u8) -> bool {
    0x61 <= b <= 0x7a
}

/// An ASCII digit.
pub open spec fn is_digit(b: u8) -> bool {
    0x30 <= b <= 0x39
}

/// A byte allowed in a slug.
pub open spec fn slug_byte(b: u8) -> bool {
    is_lower(b) || is_digit(b) || b == 0x2d
}

/// Lowercase letters, digits and internal hyphens, `1..=max` bytes.
pub open spec fn slug_rule(label: Seq<char>, v: Seq<char>, max: nat) -> Option<Seq<char>> {
    let b = encode_utf8(v);
    if b.len() == 0 || b.len() > max {
        Some(label + " must contain 1 to "@ + nat_decimal(max) + " characters"@)
    } else if (!is_lower(b[0]) && !is_digit(b[0])) || (!is_lower(b.last()) && !is_digit(b.last()))
        || exists|i: int| 0 <= i < b.len() && !slug_byte(#[trigger] b[i]) {
        Some(label + " must use lowercase letters, digits, and internal hyphens"@)
    } else {
        None
    }
}

/// Checks a slug against [`slug_rule`].
pub fn validate_slug(label: &str, value: &str, max: usize) -> (r: Result<(), ExtensionError>)
    ensures
        outcome(r, as_invalid(slug_rule(label@, value@, max as nat))),
{
    let bytes = value.as_bytes();
    if bytes.len() == 0 || bytes.len() > max {
        let m = text4(label, " must contain 1 to ", decimal(max as u64).as_str(), " characters");
        return Err(ExtensionError::Invalid(m));
    }
    let first = bytes[0];
    let last = bytes[bytes.len() - 1];
    let mut all = true;
    let mut i: usize = 0;
    while i < bytes.len()
        invariant
            i <= bytes@.len(),
            all == (forall|j: int| 0 <= j < i ==> slug_byte(#[trigger] bytes@[j])),
        decreases bytes@.len() - i,
    {
        let b = bytes[i];
        if !((0x61 <= b && b <= 0x7a) || (0x30 <= b && b <= 0x39) || b == 0x2d) {
            all = false;
        }
        i = i + 1;
    }
    if (!(0x61 <= first && first <= 0x7a) && !(0x30 <= first && first <= 0x39)) || (!(0x61 <= last
        && last <= 0x7a) && !(0x30 <= last && last <= 0x39)) || !all {
        return Err(
            ExtensionError::Invalid(text2(label, " must use lowercase letters, digits, and internal hyphens")),
        );
    }
    Ok(())
}

// ---------------------------------------------------------------- splitting

/// The pieces of `s` between occurrences of `sep`, as `str::split` yields
/// them: one more piece than there are separators.
pub open spec fn split_on(s: Seq<char>, sep: char) -> Seq<Seq<char>>
    decreases s.len(),
{
    if s.len() == 0 {
        seq![seq![]]
    } else {
        let prev = split_on(s.drop_last(), sep);
        if s.last() == sep {
            prev.push(seq![])
        } else {
            prev.update(prev.len() - 1, prev.last().push(s.last()))
        }
    }
}

/// There is always at least one piece.
pub proof fn lemma_split_nonempty(s: Seq<char>, sep: char)
    ensures
        split_on(s, sep).len() >= 1,
    decreases s.len(),
{
    if s.len() > 0 {
        lemma_split_nonempty(s.drop_last(), sep);
    }
}

/// The texts of a list of strings.
pub open spec fn texts(v: Seq<String>) -> Seq<Seq<char>> {
    v.map_values(|s: String| s@)
}

/// Splits `s` at every `sep`.
pub fn split_text(s: &str, sep: char) -> (r: Vec<String>)
    ensures
        texts(r@) == split_on(s@, sep),
{
    let cs = chars_of(s);
    let mut done: Vec<String> = Vec::new();
    let mut cur: Vec<char> = Vec::new();
    let mut i: usize = 0;
    while i < cs.len()
        invariant
            cs@ == s@,
            i <= cs@.len(),
            texts(done@).push(cur@) == split_on(cs@.take(i as int), sep),
        decreases cs@.len() - i,
    {
        proof {
            lemma_split_nonempty(cs@.take(i as int), sep);
        }
        assert(cs@.take(i + 1).drop_last() =~= cs@.take(i as int));
        assert(cs@.take(i + 1).last() == cs@[i as int]);
        let c = cs[i];
        if c == sep {
            let piece = string_of(cur.as_slice());
            done.push(piece);
            cur = Vec::new();
            assert(texts(done@).push(cur@) =~= split_on(cs@.take(i + 1), sep));
        } else {
            let ghost old_cur = cur@;
            cur.push(c);
            assert(texts(done@).push(cur@) =~= split_on(cs@.take(i + 1), sep));
        }
        i = i + 1;
    }
    assert(cs@.take(cs@.len() as int) =~= cs@);
    let last = string_of(cur.as_slice());
    done.push(last);
    assert(texts(done@) =~= split_on(s@, sep));
    done
}

// ---------------------------------------------------------------- extension ids

/// The first piece, among the first `n`, that is not a valid id segment.
pub open spec fn segments_rule(segs: Seq<Seq<char>>, n: nat) -> Option<Seq<char>>
    decreases n,
{
    if n == 0 {
        None
    } else {
        match segments_rule(segs, (n - 1) as nat) {
            Some(m) => Some(m),
            None => slug_rule("extension id segment"@, segs[n - 1], 63),
        }
    }
}

proof fn lemma_segments_rule_stops(segs: Seq<Seq<char>>, i: nat, n: nat)
    requires
        i < n,
        segments_rule(segs, i) is None,
        slug_rule("extension id segment"@, segs[i as int], 63) is Some,
    ensures
        segments_rule(segs, n) == slug_rule("extension id segment"@, segs[i as int], 63),
    decreases n,
{
    if n > i + 1 {
        lemma_segments_rule_stops(segs, i, (n - 1) as nat);
    }
}

/// A reverse-domain id: at most 128 bytes, two or more `.`-separated slugs
/// of at most 63 bytes each.
pub open spec fn extension_id_rule(id: Seq<char>) -> Option<Seq<char>> {
    if encode_utf8(id).len() > 128 {
        Some("extension id exceeds 128 characters"@)
    } else {
        let segs = split_on(id, '.');
        if segs.len() < 2 {
            Some("extension id must use reverse-domain segments"@)
        } else {
            segments_rule(segs, segs.len())
        }
    }
}

/// Checks an extension id against [`extension_id_rule`].
#[verifier::loop_isolation(false)]
pub fn validate_extension_id(id: &str) -> (r: Result<(), ExtensionError>)
    ensures
        outcome(r, as_invalid(extension_id_rule(id@))),
{
    if id.as_bytes().len() > 128 {
        return Err(ExtensionError::Invalid("extension id exceeds 128 characters".to_string()));
    }
    let segs = split_text(id, '.');
    if segs.len() < 2 {
        return Err(ExtensionError::Invalid("extension id must use reverse-domain segments".to_string()));
    }
    let mut i: usize = 0;
    while i < segs.len()
        invariant
            i <= segs@.len(),
            texts(segs@) == split_on(id@, '.'),
            segments_rule(texts(segs@), i as nat) is None,
        decreases segs@.len() - i,
    {
        let r = validate_slug("extension id segment", segs[i].as_str(), 63);
        if r.is_err() {
            assert(texts(segs@)[i as int] == segs@[i as int]@);
            proof {
                lemma_segments_rule_stops(texts(segs@), i as nat, segs@.len() as nat);
            }

            return r;
        }
        i = i + 1;
    }
    Ok(())
}

// ---------------------------------------------------------------- paths

/// Some character of `v` is `c`.
pub open spec fn has_char(v: Seq<char>, c: char) -> bool {
    exists|i: int| 0 <= i < v.len() && v[i] == c
}

/// Two consecutive `/` occur in `v`.
pub open spec fn has_double_slash(v: Seq<char>) -> bool {
    exists|i: int| 0 <= i < v.len() - 1 && #[trigger] v[i] == '/' && v[i + 1] == '/'
}

/// Some piece equals `t`.
pub open spec fn has_piece(pieces: Seq<Seq<char>>, t: Seq<char>) -> bool {
    exists|i: int| 0 <= i < pieces.len() && pieces[i] == t
}

/// The last path segment other than a `.` that `Path::components` drops
/// after the first position: the path's file name.
pub open spec fn file_name_of(segs: Seq<Seq<char>>) -> Seq<char>
    decreases segs.len(),
{
    if segs.len() <= 1 {
        if segs.len() == 1 {
            segs[0]
        } else {
            seq![]
        }
    } else if segs.last() == "."@ {
        file_name_of(segs.drop_last())
    } else {
        segs.last()
    }
}

/// Position of the first occurrence of `c` in `v`.
pub open spec fn first_index_of(v: Seq<char>, c: char) -> Option<int>
    decreases v.len(),
{
    if v.len() == 0 {
        None
    } else if v[0] == c {
        Some(0)
    } else {
        match first_index_of(v.drop_first(), c) {
            Some(k) => Some(k + 1),
            None => None,
        }
    }
}

/// The first occurrence of `c` is at `k` when none comes before `k` and
/// `v[k]` is `c`; there is none when `k` is the end.
pub proof fn lemma_first_index(v: Seq<char>, c: char, k: int)
    requires
        0 <= k <= v.len(),
        forall|j: int| 0 <= j < k ==> v[j] != c,
        k < v.len() ==> v[k] == c,
    ensures
        first_index_of(v, c) == (if k < v.len() {
            Some(k)
        } else {
            None
        }),
    decreases v.len(),
{
    if v.len() > 0 && k > 0 {
        let t = v.drop_first();
        assert forall|j: int| 0 <= j < k - 1 implies t[j] != c by {
            assert(t[j] == v[j + 1]);
        }
        lemma_first_index(t, c, k - 1);
    }
}

/// Position of the last `.` in a file name.
pub open spec fn last_dot(f: Seq<char>) -> Option<int>
    decreases f.len(),
{
    if f.len() == 0 {
        None
    } else if f.last() == '.' {
        Some(f.len() - 1)
    } else {
        last_dot(f.drop_last())
    }
}

/// The extension of a file name, as `Path::extension` gives it: the text
/// after the last `.`, unless there is none or it is the first character.
pub open spec fn extension_of(f: Seq<char>) -> Option<Seq<char>> {
    match last_dot(f) {
        Some(k) => if k == 0 {
            None
        } else {
            Some(f.subrange(k + 1, f.len() as int))
        },
        None => None,
    }
}

/// The path names a source-control or Girder metadata location.
pub open spec fn is_metadata_path(segs: Seq<Seq<char>>) -> bool {
    let name = file_name_of(segs);
    ||| has_piece(segs, ".git"@)
    ||| has_piece(segs, ".girder"@)
    ||| has_piece(segs, ".bitcode"@)
    ||| name == "girder.toml"@
    ||| name == "bitcode.toml"@
    ||| extension_of(name) == Some("aether"@)
    ||| extension_of(name) == Some("aetherb"@)
}

/// A normalized project-relative path of 1..=512 bytes that stays inside
/// the project and away from its metadata.
pub open spec fn relative_path_rule(label: Seq<char>, v: Seq<char>) -> Option<Seq<char>> {
    match text_rule(label, v, 1, 512) {
        Some(m) => Some(m),
        None => {
            let segs = split_on(v, '/');
            if v[0] == '/' || has_char(v, '\\') || has_double_slash(v) || v.last() == '/' || has_piece(
                segs,
                ".."@,
            ) {
                Some(label + " must be a normalized project-relative path"@)
            } else if segs[0] == "."@ {
                Some(label + " must not contain current-directory segments"@)
            } else if is_metadata_path(segs) {
                Some(label + " must not target source-control or Girder metadata"@)
            } else {
                None
            }
        },
    }
}

/// True when some piece equals `t`.
fn any_piece(pieces: &Vec<String>, t: &str) -> (r: bool)
    ensures
        r == has_piece(texts(pieces@), t@),
{
    let mut i: usize = 0;
    while i < pieces.len()
        invariant
            i <= pieces@.len(),
            forall|j: int| 0 <= j < i ==> pieces@[j]@ != t@,
        decreases pieces@.len() - i,
    {
        if str_eq(pieces[i].as_str(), t) {
            assert(texts(pieces@)[i as int] == t@);
            return true;
        }
        i = i + 1;
    }
    assert forall|j: int| 0 <= j < texts(pieces@).len() implies texts(pieces@)[j] != t@ by {
        assert(texts(pieces@)[j] == pieces@[j]@);
    }
    false
}

/// The file name of a path given by its `/`-separated pieces.
fn file_name(segs: &Vec<String>) -> (r: &str)
    ensures
        r@ == file_name_of(texts(segs@)),
{
    let mut k = segs.len();
    if k == 0 {
        proof {
            reveal_strlit("");
        }
        return "";
    }
    assert(texts(segs@).take(k as int) =~= texts(segs@));
    while k > 1 && str_eq(segs[k - 1].as_str(), ".")
        invariant
            1 <= k <= segs@.len(),
            file_name_of(texts(segs@)) == file_name_of(texts(segs@).take(k as int)),
        decreases k,
    {
        assert(texts(segs@).take(k as int).drop_last() =~= texts(segs@).take(k - 1));
        k = k - 1;
    }
    assert(texts(segs@).take(k as int).last() == segs@[k - 1]@);
    if k == 1 {
        assert(texts(segs@).take(1)[0] == segs@[0]@);
    }
    segs[k - 1].as_str()
}

/// The extension of a file name, as text.
fn extension(f: &str) -> (r: Option<String>)
    ensures
        match r {
            Some(e) => extension_of(f@) == Some(e@),
            None => extension_of(f@) is None,
        },
{
    let cs = chars_of(f);
    let mut k = cs.len();
    assert(cs@.take(k as int) =~= cs@);
    while k > 0 && cs[k - 1] != '.'
        invariant
            cs@ == f@,
            k <= cs@.len(),
            last_dot(f@) == last_dot(cs@.take(k as int)),
        decreases k,
    {
        assert(cs@.take(k as int).drop_last() =~= cs@.take(k - 1));
        k = k - 1;
    }
    if k == 0 {
        assert(cs@.take(0) =~= Seq::<char>::empty());
        return None;
    }
    assert(last_dot(cs@.take(k as int)) == Some(k - 1));
    if k == 1 {
        return None;
    }
    let mut tail = String::new();
    let mut j = k;
    while j < cs.len()
        invariant
            cs@ == f@,
            k <= j <= cs@.len(),
            tail@ == cs@.subrange(k as int, j as int),
        decreases cs@.len() - j,
    {
        push_char(&mut tail, cs[j]);
        j = j + 1;
        assert(tail@ =~= cs@.subrange(k as int, j as int));
    }
    Some(tail)
}

/// Checks a project-relative path against [`relative_path_rule`].
#[verifier::loop_isolation(false)]
pub fn validate_relative_path(label: &str, value: &str) -> (r: Result<(), ExtensionError>)
    ensures
        outcome(r, as_invalid(relative_path_rule(label@, value@))),
{
    let t = validate_text(label, value, 1, 512);
    if t.is_err() {
        return t;
    }
    let cs = chars_of(value);
    if cs.len() == 0 {
        assert(value@ =~= Seq::<char>::empty());
        assert(encode_utf8(value@) =~= Seq::<u8>::empty());
        return Ok(());
    }
    let segs = split_text(value, '/');
    proof {
        lemma_split_nonempty(value@, '/');
    }
    let n = cs.len();
    let normalized_msg = " must be a normalized project-relative path";
    if cs[0] == '/' || cs[n - 1] == '/' {
        return Err(ExtensionError::Invalid(text2(label, normalized_msg)));
    }
    let mut i: usize = 0;
    while i < n
        invariant
            cs@ == value@,
            n == cs@.len(),
            n > 0,
            i <= n,
            forall|j: int| 0 <= j < i ==> #[trigger] value@[j] != '\\',
            forall|j: int| 0 <= j < i && j < n - 1 ==> !(#[trigger] value@[j] == '/' && value@[j + 1] == '/'),
        decreases n - i,
    {
        if cs[i] == '\\' {
            assert(has_char(value@, '\\'));
            return Err(ExtensionError::Invalid(text2(label, normalized_msg)));
        }
        if i + 1 < n && cs[i] == '/' && cs[i + 1] == '/' {
            assert(has_double_slash(value@));
            return Err(ExtensionError::Invalid(text2(label, normalized_msg)));
        }
        i = i + 1;
    }
    if any_piece(&segs, "..") {
        return Err(ExtensionError::Invalid(text2(label, normalized_msg)));
    }
    assert(!has_char(value@, '\\'));
    assert(!has_double_slash(value@));
    assert(texts(segs@)[0] == segs@[0]@);
    if str_eq(segs[0].as_str(), ".") {
        return Err(ExtensionError::Invalid(text2(label, " must not contain current-directory segments")));
    }
    let name = file_name(&segs);
    let ext = extension(name);
    let ext_hit = match &ext {
        Some(e) => str_eq(e.as_str(), "aether") || str_eq(e.as_str(), "aetherb"),
        None => false,
    };
    if any_piece(&segs, ".git") || any_piece(&segs, ".girder") || any_piece(&segs, ".bitcode")
        || str_eq(name, "girder.toml") || str_eq(name, "bitcode.toml") || ext_hit {
        return Err(
            ExtensionError::Invalid(text2(label, " must not target source-control or Girder metadata")),
        );
    }
    Ok(())
}

// ---------------------------------------------------------------- glob patterns

/// What `globset` reports when building the glob `pattern` (with literal
/// separators and without backslash escapes): `None` when it builds, else
/// the error's text.
pub uninterp spec fn glob_build_error(pattern: Seq<char>) -> Option<Seq<char>>;

/// Whether the built glob `pattern` matches `path`, per a `globset`
/// `GlobSet` holding that one glob (no match when the set cannot be built).
pub uninterp spec fn glob_matches(pattern: Seq<char>, path: Seq<char>) -> bool;

/// `globset::GlobBuilder::new(pattern).literal_separator(true)
/// .backslash_escape(false).build()`, reduced to its error text.
///
/// Claimed of the outside code: the outcome depends on the pattern alone
/// (named `glob_build_error`).
#[verifier::external_body]
fn glob_build(pattern: &str) -> (r: Option<String>)
    ensures
        match r {
            None => glob_build_error(pattern@) is None,
            Some(e) => glob_build_error(pattern@) == Some(e@),
        },
{
    match GlobBuilder::new(pattern).literal_separator(true).backslash_escape(false).build() {
        Ok(_) => None,
        Err(error) => Some(error.to_string()),
    }
}

/// `GlobSet::is_match` of a set built (`GlobSetBuilder::build`, which
/// reports a matcher that cannot be compiled as an error rather than
/// panicking) from the one glob built as in [`glob_build`]; false where
/// either build fails.
///
/// Claimed of the outside code: the answer depends on the pattern and the
/// path alone (named `glob_matches`).
#[verifier::external_body]
pub(crate) fn glob_is_match(pattern: &str, path: &str) -> (r: bool)
    ensures
        r == glob_matches(pattern@, path@),
{
    match GlobBuilder::new(pattern).literal_separator(true).backslash_escape(false).build() {
        Ok(glob) => match GlobSetBuilder::new().add(glob).build() {
            Ok(set) => set.is_match(path),
            Err(_) => false,
        },
        Err(_) => false,
    }
}

/// A project-relative path that is also a glob pattern `globset` accepts.
pub open spec fn relative_pattern_rule(label: Seq<char>, v: Seq<char>) -> Option<Seq<char>> {
    match relative_path_rule(label, v) {
        Some(m) => Some(m),
        None => match glob_build_error(v) {
            Some(e) => Some(label + " is invalid: "@ + e),
            None => None,
        },
    }
}

/// Checks a path pattern against [`relative_pattern_rule`].
pub fn validate_relative_pattern(label: &str, value: &str) -> (r: Result<(), ExtensionError>)
    ensures
        outcome(r, as_invalid(relative_pattern_rule(label@, value@))),
{
    let p = validate_relative_path(label, value);
    if p.is_err() {
        return p;
    }
    match glob_build(value) {
        Some(e) => Err(ExtensionError::Invalid(text3(label, " is invalid: ", e.as_str()))),
        None => Ok(()),
    }
}

// ---------------------------------------------------------------- namespaces, programs, hosts

/// A graph namespace under `crate::` or `extension::`.
pub open spec fn namespace_rule(ns: Seq<char>) -> Option<Seq<char>> {
    match text_rule("graph namespace"@, ns, 1, 256) {
        Some(m) => Some(m),
        None => if "crate::"@.is_prefix_of(ns) || "extension::"@.is_prefix_of(ns) {
            None
        } else {
            Some("graph namespaces must start with crate:: or extension::"@)
        },
    }
}

/// Checks a namespace against [`namespace_rule`].
pub fn validate_namespace(namespace: &str) -> (r: Result<(), ExtensionError>)
    ensures
        outcome(r, as_invalid(namespace_rule(namespace@))),
{
    let t = validate_text("graph namespace", namespace, 1, 256);
    if t.is_err() {
        return t;
    }
    if starts_with(namespace, "crate::") || starts_with(namespace, "extension::") {
        Ok(())
    } else {
        Err(ExtensionError::Invalid("graph namespaces must start with crate:: or extension::".to_string()))
    }
}

/// A byte allowed in a program name: ASCII letters and digits, `-`, `_`,
/// `+` and `.`.
pub open spec fn program_byte(b: u8) -> bool {
    is_lower(b) || is_digit(b) || (0x41 <= b <= 0x5a) || b == 0x2d || b == 0x5f || b == 0x2b || b == 0x2e
}

/// A bare executable name without a path.
pub open spec fn program_rule(p: Seq<char>) -> Option<Seq<char>> {
    match text_rule("program"@, p, 1, 128) {
        Some(m) => Some(m),
        None => if forall|i: int| 0 <= i < encode_utf8(p).len() ==> program_byte(#[trigger] encode_utf8(p)[i]) {
            None
        } else {
            Some("program must be a bare executable name without a path"@)
        },
    }
}

/// Checks a program name against [`program_rule`].
#[verifier::loop_isolation(false)]
pub fn validate_program(program: &str) -> (r: Result<(), ExtensionError>)
    ensures
        outcome(r, as_invalid(program_rule(program@))),
{
    let t = validate_text("program", program, 1, 128);
    if t.is_err() {
        return t;
    }
    let bytes = program.as_bytes();
    let mut i: usize = 0;
    while i < bytes.len()
        invariant
            bytes@ == encode_utf8(program@),
            i <= bytes@.len(),
            forall|j: int| 0 <= j < i ==> program_byte(#[trigger] bytes@[j]),
        decreases bytes@.len() - i,
    {
        let b = bytes[i];
        if !((0x61 <= b && b <= 0x7a) || (0x30 <= b && b <= 0x39) || (0x41 <= b && b <= 0x5a) || b == 0x2d
            || b == 0x5f || b == 0x2b || b == 0x2e) {
            assert(!program_byte(encode_utf8(program@)[i as int]));
            return Err(ExtensionError::Invalid("program must be a bare executable name without a path".to_string()));
        }
        i = i + 1;
    }
    Ok(())
}

/// A byte allowed in a host name.
pub open spec fn host_byte(b: u8) -> bool {
    is_lower(b) || is_digit(b) || b == 0x2e || b == 0x2d
}

/// Two consecutive `.` occur in `v`.
pub open spec fn has_double_dot(v: Seq<char>) -> bool {
    exists|i: int| 0 <= i < v.len() - 1 && #[trigger] v[i] == '.' && v[i + 1] == '.'
}

/// A lowercase DNS name without a scheme or path.
pub open spec fn host_rule(h: Seq<char>) -> Option<Seq<char>> {
    match text_rule("network host"@, h, 1, 253) {
        Some(m) => Some(m),
        None => if h[0] == '.' || h.last() == '.' || has_double_dot(h) || exists|i: int|
            0 <= i < encode_utf8(h).len() && !host_byte(#[trigger] encode_utf8(h)[i]) {
            Some("network host must be a lowercase DNS name without a scheme or path"@)
        } else {
            None
        },
    }
}

/// Checks a host name against [`host_rule`].
#[verifier::loop_isolation(false)]
pub fn validate_host(host: &str) -> (r: Result<(), ExtensionError>)
    ensures
        outcome(r, as_invalid(host_rule(host@))),
{
    let t = validate_text("network host", host, 1, 253);
    if t.is_err() {
        return t;
    }
    let cs = chars_of(host);
    if cs.len() == 0 {
        assert(encode_utf8(host@) =~= Seq::<u8>::empty());
        return Ok(());
    }
    let bad = "network host must be a lowercase DNS name without a scheme or path";
    let n = cs.len();
    if cs[0] == '.' || cs[n - 1] == '.' {
        return Err(ExtensionError::Invalid(bad.to_string()));
    }
    let mut i: usize = 0;
    while i + 1 < n
        invariant
            cs@ == host@,
            n == cs@.len(),
            i < n,
            forall|j: int| 0 <= j < i ==> !(#[trigger] host@[j] == '.' && host@[j + 1] == '.'),
        decreases n - i,
    {
        if cs[i] == '.' && cs[i + 1] == '.' {
            assert(has_double_dot(host@));
            return Err(ExtensionError::Invalid(bad.to_string()));
        }
        i = i + 1;
    }
    assert(!has_double_dot(host@));
    let bytes = host.as_bytes();
    let mut k: usize = 0;
    while k < bytes.len()
        invariant
            bytes@ == encode_utf8(host@),
            k <= bytes@.len(),
            forall|j: int| 0 <= j < k ==> host_byte(#[trigger] bytes@[j]),
        decreases bytes@.len() - k,
    {
        let b = bytes[k];
        if !((0x61 <= b && b <= 0x7a) || (0x30 <= b && b <= 0x39) || b == 0x2e || b == 0x2d) {
            assert(!host_byte(encode_utf8(host@)[k as int]));
            return Err(ExtensionError::Invalid(bad.to_string()));
        }
        k = k + 1;
    }
    Ok(())
}

/// A byte of a lowercase hexadecimal digest.
pub open spec fn hex_byte(b: u8) -> bool {
    is_digit(b) || (0x61 <= b <= 0x66)
}

/// A 64-character lowercase SHA-256 hex digest.
pub open spec fn digest_rule(label: Seq<char>, d: Seq<char>) -> Option<Seq<char>> {
    let b = encode_utf8(d);
    if b.len() == 64 && forall|i: int| 0 <= i < b.len() ==> hex_byte(#[trigger] b[i]) {
        None
    } else {
        Some(label + " must be a 64-character SHA-256 hex digest"@)
    }
}

/// Checks a digest against [`digest_rule`].
pub fn validate_digest(label: &str, digest: &str) -> (r: Result<(), ExtensionError>)
    ensures
        outcome(r, as_invalid(digest_rule(label@, digest@))),
{
    let bytes = digest.as_bytes();
    let mut ok = bytes.len() == 64;
    let mut i: usize = 0;
    while i < bytes.len() && ok
        invariant
            bytes@ == encode_utf8(digest@),
            i <= bytes@.len(),
            ok == (bytes@.len() == 64),
            forall|j: int| 0 <= j < i ==> hex_byte(#[trigger] bytes@[j]),
        decreases bytes@.len() - i,
    {
        let b = bytes[i];
        if !((0x30 <= b && b <= 0x39) || (0x61 <= b && b <= 0x66)) {
            assert(!hex_byte(encode_utf8(digest@)[i as int]));
            return Err(ExtensionError::Invalid(text2(label, " must be a 64-character SHA-256 hex digest")));
        }
        i = i + 1;
    }
    if !ok {
        return Err(ExtensionError::Invalid(text2(label, " must be a 64-character SHA-256 hex digest")));
    }
    Ok(())
}

// ---------------------------------------------------------------- fenced JSON

/// A character with the Unicode `White_Space` property.
pub open spec fn is_whitespace(c: char) -> bool {
    let u = c as u32;
    ||| 0x9 <= u <= 0xd
    ||| u == 0x20
    ||| u == 0x85
    ||| u == 0xa0
    ||| u == 0x1680
    ||| 0x2000 <= u <= 0x200a
    ||| u == 0x2028
    ||| u == 0x2029
    ||| u == 0x202f
    ||| u == 0x205f
    ||| u == 0x3000
}

/// Decides [`is_whitespace`].
pub fn char_is_whitespace(c: char) -> (r: bool)
    ensures
        r == is_whitespace(c),
{
    let u = c as u32;
    (0x9 <= u && u <= 0xd) || u == 0x20 || u == 0x85 || u == 0xa0 || u == 0x1680 || (0x2000 <= u && u
        <= 0x200a) || u == 0x2028 || u == 0x2029 || u == 0x202f || u == 0x205f || u == 0x3000
}

/// `s` without leading whitespace.
pub open spec fn trim_start(s: Seq<char>) -> Seq<char>
    decreases s.len(),
{
    if s.len() > 0 && is_whitespace(s[0]) {
        trim_start(s.drop_first())
    } else {
        s
    }
}

/// `s` without trailing whitespace.
pub open spec fn trim_end(s: Seq<char>) -> Seq<char>
    decreases s.len(),
{
    if s.len() > 0 && is_whitespace(s.last()) {
        trim_end(s.drop_last())
    } else {
        s
    }
}

/// `s` without leading and trailing whitespace.
pub open spec fn trim(s: Seq<char>) -> Seq<char> {
    trim_start(trim_end(s))
}

/// Trims whitespace from both ends of a character sequence.
pub fn trim_chars(s: &Vec<char>) -> (r: String)
    ensures
        r@ == trim(s@),
{
    let mut hi = s.len();
    assert(s@.take(hi as int) =~= s@);
    while hi > 0 && char_is_whitespace(s[hi - 1])
        invariant
            hi <= s@.len(),
            trim_end(s@) == trim_end(s@.take(hi as int)),
        decreases hi,
    {
        assert(s@.take(hi as int).drop_last() =~= s@.take(hi - 1));
        hi = hi - 1;
    }
    let ghost e = s@.take(hi as int);
    assert(trim_end(s@) == e);
    let mut lo: usize = 0;
    assert(e.subrange(0, e.len() as int) =~= e);
    while lo < hi && char_is_whitespace(s[lo])
        invariant
            lo <= hi,
            hi <= s@.len(),
            e == s@.take(hi as int),
            trim_start(e) == trim_start(e.subrange(lo as int, e.len() as int)),
        decreases hi - lo,
    {
        assert(e.subrange(lo as int, e.len() as int).drop_first() =~= e.subrange(lo + 1, e.len() as int));
        lo = lo + 1;
    }
    let mut out = String::new();
    let mut k = lo;
    while k < hi
        invariant
            lo <= k <= hi,
            hi <= s@.len(),
            out@ == s@.subrange(lo as int, k as int),
        decreases hi - k,
    {
        push_char(&mut out, s[k]);
        k = k + 1;
        assert(out@ =~= s@.subrange(lo as int, k as int));
    }
    assert(e.subrange(lo as int, e.len() as int) =~= s@.subrange(lo as int, hi as int));
    out
}

/// What remains of a model's answer once an optional ```` ```json ```` fence
/// is removed, or why it is refused.
pub open spec fn fence_rule(v: Seq<char>) -> Result<Seq<char>, Seq<char>> {
    let t = trim(v);
    if !"```"@.is_prefix_of(t) {
        Ok(t)
    } else if !"```json"@.is_prefix_of(t) && !"```JSON"@.is_prefix_of(t) {
        Err("only a fenced JSON object may wrap a recipe"@)
    } else {
        let body = t.subrange("```json"@.len() as int, t.len() as int);
        if "```"@.is_suffix_of(body) {
            Ok(trim(body.subrange(0, body.len() - "```"@.len())))
        } else {
            Err("unterminated JSON fence"@)
        }
    }
}

/// Removes surrounding whitespace and an optional ```` ```json ```` /
/// ```` ```JSON ```` fence around a model's JSON answer.
pub fn strip_json_fence(value: &str) -> (r: Result<String, ExtensionError>)
    ensures
        match fence_rule(value@) {
            Ok(t) => r matches Ok(s) && s@ == t,
            Err(m) => r matches Err(e) && e@ == Fault::Invalid(m),
        },
{
    let cs = chars_of(value);
    let trimmed = trim_chars(&cs);
    if !starts_with(trimmed.as_str(), "```") {
        return Ok(trimmed);
    }
    if !starts_with(trimmed.as_str(), "```json") && !starts_with(trimmed.as_str(), "```JSON") {
        return Err(ExtensionError::Invalid("only a fenced JSON object may wrap a recipe".to_string()));
    }
    proof {
        reveal_strlit("```json");
        reveal_strlit("```JSON");
        reveal_strlit("```");
    }
    let tc = chars_of(trimmed.as_str());
    let mut body = String::new();
    let mut k: usize = 7;
    while k < tc.len()
        invariant
            7 <= k <= tc@.len(),
            tc@ == trimmed@,
            body@ == tc@.subrange(7, k as int),
        decreases tc@.len() - k,
    {
        push_char(&mut body, tc[k]);
        k = k + 1;
        assert(body@ =~= tc@.subrange(7, k as int));
    }
    if !ends_with(body.as_str(), "```") {
        return Err(ExtensionError::Invalid("unterminated JSON fence".to_string()));
    }
    let bc = chars_of(body.as_str());
    let mut inner: Vec<char> = Vec::new();
    let mut j: usize = 0;
    while j < bc.len() - 3
        invariant
            bc@ == body@,
            bc@.len() >= 3,
            j <= bc@.len() - 3,
            inner@ == bc@.subrange(0, j as int),
        decreases bc@.len() - j,
    {
        inner.push(bc[j]);
        j = j + 1;
        assert(inner@ =~= bc@.subrange(0, j as int));
    }
    let out = trim_chars(&inner);
    Ok(out)
}

/// Refuses with an invalid-input error carrying `message`.
pub fn invalid<T>(message: String) -> (r: Result<T, ExtensionError>)
    ensures
        r matches Err(e) && e@ == Fault::Invalid(message@),
{
    Err(ExtensionError::Invalid(message))
}

/// The largest recipe text accepted, in bytes.
pub const MAX_RECIPE_BYTES: usize = 262144;

/// The JSON body of a recipe as a model or a user supplied it: refused
/// when longer than [`MAX_RECIPE_BYTES`] bytes, else with whitespace and an
/// optional JSON fence removed.
pub fn recipe_json_body(json: &str) -> (r: Result<String, ExtensionError>)
    ensures
        encode_utf8(json@).len() > MAX_RECIPE_BYTES ==> (r matches Err(e) && e@ == Fault::Invalid(
            "recipe exceeds 262144 bytes"@,
        )),
        encode_utf8(json@).len() <= MAX_RECIPE_BYTES ==> match fence_rule(json@) {
            Ok(t) => r matches Ok(s) && s@ == t,
            Err(m) => r matches Err(e) && e@ == Fault::Invalid(m),
        },
{
    if json.as_bytes().len() > MAX_RECIPE_BYTES {
        return invalid("recipe exceeds 262144 bytes".to_string());
    }
    strip_json_fence(json)
}

} // verus!
