//! Shared text utilities: component-name casing, event-attribute renaming and
//! interpolation-text normalization.
//!
//! Every executable function is specified against a small recursive spec
//! function over `Seq<char>`, so the callers' contracts can speak about the
//! exact character sequences produced.

use vstd::prelude::*;
use vstd::string::StrSliceExecFns;

verus! {

// ---------------------------------------------------------------------------
// Small helpers on character vectors.
// ---------------------------------------------------------------------------

/// Appends every character of `v` to `out`.
#[verifier::loop_isolation(false)]
pub(crate) fn append_chars(out: &mut Vec<char>, v: &Vec<char>)
    ensures
        final(out)@ == old(out)@ + v@,
{
    let ghost out0: Seq<char> = old(out)@;
    let mut i: usize = 0;
    while i < v.len()
        invariant
            0 <= i <= v@.len(),
            out@ == out0 + v@.subrange(0, i as int),
        decreases v@.len() - i,
    {
        let c = v[i];
        out.push(c);
        proof {
            assert(out0 + v@.subrange(0, i as int) + seq![c] =~= out0 + v@.subrange(0, i + 1));
        }
        i = i + 1;
    }
    proof {
        assert(v@.subrange(0, v@.len() as int) =~= v@);
    }
}

/// Appends every character of the string slice `s` to `out`.
#[verifier::loop_isolation(false)]
pub(crate) fn push_str(out: &mut Vec<char>, s: &str)
    ensures
        final(out)@ == old(out)@ + s@,
{
    let ghost out0: Seq<char> = old(out)@;
    let n = s.unicode_len();
    let mut i: usize = 0;
    while i < n
        invariant
            0 <= i <= n,
            n == s@.len(),
            out@ == out0 + s@.subrange(0, i as int),
        decreases n - i,
    {
        let c = s.get_char(i);
        out.push(c);
        proof {
            assert(out0 + s@.subrange(0, i as int) + seq![c] =~= out0 + s@.subrange(0, i + 1));
        }
        i = i + 1;
    }
    proof {
        assert(s@.subrange(0, s@.len() as int) =~= s@);
    }
}

/// Compares a character vector with a string slice.
#[verifier::loop_isolation(false)]
pub(crate) fn vec_eq_str(v: &Vec<char>, s: &str) -> (b: bool)
    ensures
        b == (v@ == s@),
{
    let n = s.unicode_len();
    if v.len() != n {
        return false;
    }
    let mut i: usize = 0;
    while i < n
        invariant
            0 <= i <= n,
            n == s@.len(),
            v@.len() == n,
            forall|k: int| 0 <= k < i ==> v@[k] == s@[k],
        decreases n - i,
    {
        if v[i] != s.get_char(i) {
            return false;
        }
        i = i + 1;
    }
    proof {
        assert(v@ =~= s@);
    }
    true
}

/// Collects the characters of a string slice into a vector.
#[verifier::loop_isolation(false)]
pub(crate) fn str_chars(s: &str) -> (r: Vec<char>)
    ensures
        r@ == s@,
{
    let n = s.unicode_len();
    let mut out: Vec<char> = Vec::new();
    let mut i: usize = 0;
    while i < n
        invariant
            0 <= i <= n,
            n == s@.len(),
            out@ == s@.subrange(0, i as int),
        decreases n - i,
    {
        let c = s.get_char(i);
        out.push(c);
        proof {
            assert(s@.subrange(0, i as int) + seq![c] =~= s@.subrange(0, i + 1));
        }
        i = i + 1;
    }
    proof {
        assert(s@.subrange(0, s@.len() as int) =~= s@);
    }
    out
}

/// Copies a character vector.
pub(crate) fn clone_chars(v: &Vec<char>) -> (r: Vec<char>)
    ensures
        r@ == v@,
{
    let mut out: Vec<char> = Vec::new();
    append_chars(&mut out, v);
    proof {
        assert(Seq::<char>::empty() + v@ =~= v@);
    }
    out
}

/// Relies on `String`'s std `FromIterator<char>` implementation: collecting an
/// iterator of characters yields a string holding exactly those characters,
/// in order.
#[verifier::external_body]
pub(crate) fn chars_to_string(v: &Vec<char>) -> (r: String)
    ensures
        r@ == v@,
{
    v.iter().collect()
}

// ---------------------------------------------------------------------------
// Casing.
// ---------------------------------------------------------------------------

/// ASCII upper-casing of a single character; everything outside `a..=z` is
/// left unchanged.
pub open spec fn spec_upper_char(c: char) -> char {
    if 'a' <= c && c <= 'z' {
        ((c as u8) - 32) as char
    } else {
        c
    }
}

fn upper_char(c: char) -> (r: char)
    ensures
        r == spec_upper_char(c),
{
    if 'a' <= c && c <= 'z' {
        ((c as u8) - 32) as char
    } else {
        c
    }
}

/// The first character upper-cased, the rest kept as they are.
pub open spec fn spec_first_upper(s: Seq<char>) -> Seq<char> {
    if s.len() == 0 {
        Seq::empty()
    } else {
        seq![spec_upper_char(s[0])] + s.skip(1)
    }
}

/// Upper-cases only the first character of a name; hyphens are kept intact.
#[verifier::loop_isolation(false)]
pub fn first_upper(s: &Vec<char>) -> (r: Vec<char>)
    ensures
        r@ == spec_first_upper(s@),
{
    let mut out: Vec<char> = Vec::new();
    if s.len() == 0 {
        return out;
    }
    out.push(upper_char(s[0]));
    let mut i: usize = 1;
    while i < s.len()
        invariant
            1 <= i <= s@.len(),
            out@ == seq![spec_upper_char(s@[0])] + s@.subrange(1, i as int),
        decreases s@.len() - i,
    {
        let c = s[i];
        out.push(c);
        proof {
            assert(seq![spec_upper_char(s@[0])] + s@.subrange(1, i as int) + seq![c] =~= seq![
                spec_upper_char(s@[0]),
            ] + s@.subrange(1, i + 1));
        }
        i = i + 1;
    }
    proof {
        assert(s@.subrange(1, s@.len() as int) =~= s@.skip(1));
    }
    out
}

/// Camel-casing, one character at a time: a hyphen is dropped and makes the
/// next character a segment start; a segment-start character is upper-cased.
pub open spec fn spec_camel_rec(s: Seq<char>, boundary: bool) -> Seq<char>
    decreases s.len(),
{
    if s.len() == 0 {
        Seq::empty()
    } else if s[0] == '-' {
        spec_camel_rec(s.skip(1), true)
    } else if boundary {
        seq![spec_upper_char(s[0])] + spec_camel_rec(s.skip(1), false)
    } else {
        seq![s[0]] + spec_camel_rec(s.skip(1), false)
    }
}

/// Splits a name on hyphens, upper-cases each segment's first character and
/// concatenates the segments.
pub open spec fn spec_camel_case(s: Seq<char>) -> Seq<char> {
    spec_camel_rec(s, true)
}

/// Component name for an opening tag: `my-icon` becomes `MyIcon`.
#[verifier::loop_isolation(false)]
pub fn camel_case(s: &Vec<char>) -> (r: Vec<char>)
    ensures
        r@ == spec_camel_case(s@),
{
    let mut out: Vec<char> = Vec::new();
    let mut boundary: bool = true;
    let mut i: usize = 0;
    proof {
        assert(s@.skip(0) =~= s@);
    }
    while i < s.len()
        invariant
            0 <= i <= s@.len(),
            spec_camel_case(s@) == out@ + spec_camel_rec(s@.skip(i as int), boundary),
        decreases s@.len() - i,
    {
        let ghost pre = s@.skip(i as int);
        proof {
            assert(pre.skip(1) =~= s@.skip(i + 1));
        }
        let c = s[i];
        if c == '-' {
            boundary = true;
        } else if boundary {
            let u = upper_char(c);
            proof {
                assert(out@ + (seq![spec_upper_char(pre[0])] + spec_camel_rec(
                    s@.skip(i + 1),
                    false,
                )) =~= out@.push(u) + spec_camel_rec(s@.skip(i + 1), false));
            }
            out.push(u);
            boundary = false;
        } else {
            proof {
                assert(out@ + (seq![pre[0]] + spec_camel_rec(s@.skip(i + 1), false)) =~= out@.push(
                    c,
                ) + spec_camel_rec(s@.skip(i + 1), false));
            }
            out.push(c);
        }
        i = i + 1;
    }
    proof {
        assert(s@.skip(s@.len() as int) =~= Seq::<char>::empty());
        assert(out@ + Seq::<char>::empty() =~= out@);
    }
    out
}

// ---------------------------------------------------------------------------
// Interpolation-text normalization.
// ---------------------------------------------------------------------------

/// Removes every (leftmost, non-overlapping) occurrence of the two-character
/// pattern `ab` from `s`.
pub open spec fn spec_strip_pair(s: Seq<char>, a: char, b: char) -> Seq<char>
    decreases s.len(),
{
    if s.len() >= 2 && s[0] == a && s[1] == b {
        spec_strip_pair(s.skip(2), a, b)
    } else if s.len() == 0 {
        Seq::empty()
    } else {
        seq![s[0]] + spec_strip_pair(s.skip(1), a, b)
    }
}

#[verifier::loop_isolation(false)]
pub(crate) fn strip_pair(s: &Vec<char>, a: char, b: char) -> (r: Vec<char>)
    ensures
        r@ == spec_strip_pair(s@, a, b),
{
    let mut out: Vec<char> = Vec::new();
    let mut i: usize = 0;
    proof {
        assert(s@.skip(0) =~= s@);
    }
    while i < s.len()
        invariant
            0 <= i <= s@.len(),
            spec_strip_pair(s@, a, b) == out@ + spec_strip_pair(s@.skip(i as int), a, b),
        decreases s@.len() - i,
    {
        let ghost pre = s@.skip(i as int);
        if i + 1 < s.len() && s[i] == a && s[i + 1] == b {
            proof {
                assert(pre.skip(2) =~= s@.skip(i + 2));
            }
            i = i + 2;
        } else {
            let c = s[i];
            proof {
                assert(pre.skip(1) =~= s@.skip(i + 1));
                assert(out@ + (seq![c] + spec_strip_pair(s@.skip(i + 1), a, b)) =~= out@.push(c)
                    + spec_strip_pair(s@.skip(i + 1), a, b));
            }
            out.push(c);
            i = i + 1;
        }
    }
    proof {
        assert(s@.skip(s@.len() as int) =~= Seq::<char>::empty());
        assert(out@ + Seq::<char>::empty() =~= out@);
    }
    out
}

/// Replaces every (leftmost, non-overlapping) occurrence of the two-character
/// pattern `ab` in `s` with the single character `r`.
pub open spec fn spec_replace_pair(s: Seq<char>, a: char, b: char, r: char) -> Seq<char>
    decreases s.len(),
{
    if s.len() >= 2 && s[0] == a && s[1] == b {
        seq![r] + spec_replace_pair(s.skip(2), a, b, r)
    } else if s.len() == 0 {
        Seq::empty()
    } else {
        seq![s[0]] + spec_replace_pair(s.skip(1), a, b, r)
    }
}

#[verifier::loop_isolation(false)]
pub(crate) fn replace_pair(s: &Vec<char>, a: char, b: char, rc: char) -> (r: Vec<char>)
    ensures
        r@ == spec_replace_pair(s@, a, b, rc),
{
    let mut out: Vec<char> = Vec::new();
    let mut i: usize = 0;
    proof {
        assert(s@.skip(0) =~= s@);
    }
    while i < s.len()
        invariant
            0 <= i <= s@.len(),
            spec_replace_pair(s@, a, b, rc) == out@ + spec_replace_pair(
                s@.skip(i as int),
                a,
                b,
                rc,
            ),
        decreases s@.len() - i,
    {
        let ghost pre = s@.skip(i as int);
        if i + 1 < s.len() && s[i] == a && s[i + 1] == b {
            proof {
                assert(pre.skip(2) =~= s@.skip(i + 2));
                assert(out@ + (seq![rc] + spec_replace_pair(s@.skip(i + 2), a, b, rc))
                    =~= out@.push(rc) + spec_replace_pair(s@.skip(i + 2), a, b, rc));
            }
            out.push(rc);
            i = i + 2;
        } else {
            let c = s[i];
            proof {
                assert(pre.skip(1) =~= s@.skip(i + 1));
                assert(out@ + (seq![c] + spec_replace_pair(s@.skip(i + 1), a, b, rc))
                    =~= out@.push(c) + spec_replace_pair(s@.skip(i + 1), a, b, rc));
            }
            out.push(c);
            i = i + 1;
        }
    }
    proof {
        assert(s@.skip(s@.len() as int) =~= Seq::<char>::empty());
        assert(out@ + Seq::<char>::empty() =~= out@);
    }
    out
}

/// Removes every occurrence of the character `c` from `s`.
pub open spec fn spec_remove_char(s: Seq<char>, c: char) -> Seq<char>
    decreases s.len(),
{
    if s.len() == 0 {
        Seq::empty()
    } else if s[0] == c {
        spec_remove_char(s.skip(1), c)
    } else {
        seq![s[0]] + spec_remove_char(s.skip(1), c)
    }
}

#[verifier::loop_isolation(false)]
pub(crate) fn remove_char(s: &Vec<char>, c: char) -> (r: Vec<char>)
    ensures
        r@ == spec_remove_char(s@, c),
{
    let mut out: Vec<char> = Vec::new();
    let mut i: usize = 0;
    proof {
        assert(s@.skip(0) =~= s@);
    }
    while i < s.len()
        invariant
            0 <= i <= s@.len(),
            spec_remove_char(s@, c) == out@ + spec_remove_char(s@.skip(i as int), c),
        decreases s@.len() - i,
    {
        let ghost pre = s@.skip(i as int);
        proof {
            assert(pre.skip(1) =~= s@.skip(i + 1));
        }
        let x = s[i];
        if x != c {
            proof {
                assert(out@ + (seq![x] + spec_remove_char(s@.skip(i + 1), c)) =~= out@.push(x)
                    + spec_remove_char(s@.skip(i + 1), c));
            }
            out.push(x);
        }
        i = i + 1;
    }
    proof {
        assert(s@.skip(s@.len() as int) =~= Seq::<char>::empty());
        assert(out@ + Seq::<char>::empty() =~= out@);
    }
    out
}

/// Collapses runs of spaces: a space is kept only when `allow` holds, and any
/// non-space character re-arms `allow` for the next run.
pub open spec fn spec_squeeze(s: Seq<char>, allow: bool) -> Seq<char>
    decreases s.len(),
{
    if s.len() == 0 {
        Seq::empty()
    } else if s[0] == ' ' {
        if allow {
            seq![' '] + spec_squeeze(s.skip(1), false)
        } else {
            spec_squeeze(s.skip(1), false)
        }
    } else {
        seq![s[0]] + spec_squeeze(s.skip(1), true)
    }
}

#[verifier::loop_isolation(false)]
pub(crate) fn squeeze_spaces(s: &Vec<char>) -> (r: Vec<char>)
    ensures
        r@ == spec_squeeze(s@, true),
{
    let mut out: Vec<char> = Vec::new();
    let mut allow: bool = true;
    let mut i: usize = 0;
    proof {
        assert(s@.skip(0) =~= s@);
    }
    while i < s.len()
        invariant
            0 <= i <= s@.len(),
            spec_squeeze(s@, true) == out@ + spec_squeeze(s@.skip(i as int), allow),
        decreases s@.len() - i,
    {
        let ghost pre = s@.skip(i as int);
        proof {
            assert(pre.skip(1) =~= s@.skip(i + 1));
        }
        let c = s[i];
        if c == ' ' {
            if allow {
                proof {
                    assert(out@ + (seq![' '] + spec_squeeze(s@.skip(i + 1), false)) =~= out@.push(
                        ' ',
                    ) + spec_squeeze(s@.skip(i + 1), false));
                }
                out.push(' ');
            }
            allow = false;
        } else {
            proof {
                assert(out@ + (seq![c] + spec_squeeze(s@.skip(i + 1), true)) =~= out@.push(c)
                    + spec_squeeze(s@.skip(i + 1), true));
            }
            out.push(c);
            allow = true;
        }
        i = i + 1;
    }
    proof {
        assert(s@.skip(s@.len() as int) =~= Seq::<char>::empty());
        assert(out@ + Seq::<char>::empty() =~= out@);
    }
    out
}

// ---------------------------------------------------------------------------
// Attribute-name rewriting.
// ---------------------------------------------------------------------------

/// Whether the name starts with the event-binding prefix `bind`.
pub open spec fn spec_starts_with_bind(p: Seq<char>) -> bool {
    p.len() >= 4 && p[0] == 'b' && p[1] == 'i' && p[2] == 'n' && p[3] == 'd'
}

/// Removes every (leftmost, non-overlapping) occurrence of `bind` from `s`.
pub open spec fn spec_remove_bind(s: Seq<char>) -> Seq<char>
    decreases s.len(),
{
    if spec_starts_with_bind(s) {
        spec_remove_bind(s.skip(4))
    } else if s.len() == 0 {
        Seq::empty()
    } else {
        seq![s[0]] + spec_remove_bind(s.skip(1))
    }
}

#[verifier::loop_isolation(false)]
pub(crate) fn remove_bind(s: &Vec<char>) -> (r: Vec<char>)
    ensures
        r@ == spec_remove_bind(s@),
{
    let mut out: Vec<char> = Vec::new();
    let mut i: usize = 0;
    proof {
        assert(s@.skip(0) =~= s@);
    }
    while i < s.len()
        invariant
            0 <= i <= s@.len(),
            spec_remove_bind(s@) == out@ + spec_remove_bind(s@.skip(i as int)),
        decreases s@.len() - i,
    {
        let ghost pre = s@.skip(i as int);
        if s.len() - i >= 4 && s[i] == 'b' && s[i + 1] == 'i' && s[i + 2] == 'n' && s[i + 3] == 'd' {
            proof {
                assert(pre.skip(4) =~= s@.skip(i + 4));
            }
            i = i + 4;
        } else {
            let c = s[i];
            proof {
                assert(pre.skip(1) =~= s@.skip(i + 1));
                assert(out@ + (seq![c] + spec_remove_bind(s@.skip(i + 1))) =~= out@.push(c)
                    + spec_remove_bind(s@.skip(i + 1)));
            }
            out.push(c);
            i = i + 1;
        }
    }
    proof {
        assert(s@.skip(s@.len() as int) =~= Seq::<char>::empty());
        assert(out@ + Seq::<char>::empty() =~= out@);
    }
    out
}

/// The event-name remap table: `tap` and `confirm` are renamed, everything
/// else passes through unchanged.
pub open spec fn spec_event_name(n: Seq<char>) -> Seq<char> {
    if n == "tap"@ {
        "click"@
    } else if n == "confirm"@ {
        "keydown"@
    } else {
        n
    }
}

/// What an attribute name becomes in the output: an event binding
/// (`bind...`) turns into `on` followed by the remapped event name; any
/// other name passes through unchanged.
pub open spec fn spec_wried_prop(p: Seq<char>) -> Seq<char> {
    if spec_starts_with_bind(p) {
        "on"@ + spec_event_name(spec_remove_bind(p))
    } else {
        p
    }
}

/// Rewrites an event-binding attribute name: `bindtap` becomes `onclick`,
/// `bindconfirm` becomes `onkeydown`, any other `bind...` name keeps its
/// event name behind an `on` prefix. Non-binding names are returned as they
/// are.
pub fn wried_prop(p: &Vec<char>) -> (r: Vec<char>)
    ensures
        r@ == spec_wried_prop(p@),
{
    if p.len() >= 4 && p[0] == 'b' && p[1] == 'i' && p[2] == 'n' && p[3] == 'd' {
        let n = remove_bind(p);
        let mut out: Vec<char> = Vec::new();
        push_str(&mut out, "on");
        if vec_eq_str(&n, "tap") {
            push_str(&mut out, "click");
        } else if vec_eq_str(&n, "confirm") {
            push_str(&mut out, "keydown");
        } else {
            append_chars(&mut out, &n);
        }
        out
    } else {
        let mut out: Vec<char> = Vec::new();
        append_chars(&mut out, p);
        out
    }
}

// ---------------------------------------------------------------------------
// Expression extraction.
// ---------------------------------------------------------------------------

/// An attribute value with its interpolation delimiters stripped: the outer
/// `{{` and `}}` markers are removed, the inner text passes through.
pub open spec fn spec_parse_expression(e: Seq<char>) -> Seq<char> {
    spec_strip_pair(spec_strip_pair(e, '{', '{'), '}', '}')
}

/// Strips interpolation delimiters from an attribute value.
pub fn parse_expression(e: &Vec<char>) -> (r: Vec<char>)
    ensures
        r@ == spec_parse_expression(e@),
{
    let t = strip_pair(e, '{', '{');
    strip_pair(&t, '}', '}')
}

/// Text-content normalization: `{{`/`}}` become single braces, newlines are
/// removed, and each run of spaces collapses to one space.
pub open spec fn spec_parse_expression_text(e: Seq<char>) -> Seq<char> {
    spec_squeeze(
        spec_remove_char(
            spec_replace_pair(spec_replace_pair(e, '{', '{', '{'), '}', '}', '}'),
            '\n',
        ),
        true,
    )
}

/// Normalizes the text content of a text node for the generated output.
pub fn parse_expression_text(e: &Vec<char>) -> (r: Vec<char>)
    ensures
        r@ == spec_parse_expression_text(e@),
{
    let t1 = replace_pair(e, '{', '{', '{');
    let t2 = replace_pair(&t1, '}', '}', '}');
    let t3 = remove_char(&t2, '\n');
    squeeze_spaces(&t3)
}

} // verus!
