//! The tokenizer: turns markup source text into a flat list of tokens,
//! tracking source positions.
//!
//! Every reader is specified against a spec-level tokenizer over `Seq<char>`
//! (`spec_tokenize`, `spec_tokenize_all`), so tokenization is a pure function
//! of the source text.

use vstd::prelude::*;
use crate::utils::{push_str, str_chars};

verus! {

broadcast use vstd::std_specs::vec::group_vec_axioms;

// ---------------------------------------------------------------------------
// Source positions.
// ---------------------------------------------------------------------------

/// Spec-level source position.
pub struct LocSpec {
    pub line: int,
    pub column: int,
    pub index: int,
}

/// A source position: line, column and absolute character offset.
#[derive(Clone, Copy, PartialEq, Eq, Structural, Debug)]
pub struct Loc {
    pub line: usize,
    pub column: usize,
    pub index: usize,
}

impl View for Loc {
    type V = LocSpec;

    open spec fn view(&self) -> LocSpec {
        LocSpec { line: self.line as int, column: self.column as int, index: self.index as int }
    }
}

impl Loc {
    pub fn new(line: usize, column: usize, index: usize) -> (r: Loc)
        ensures
            r.line == line,
            r.column == column,
            r.index == index,
    {
        Loc { line, column, index }
    }
}

/// The position at the very start of a source text.
pub open spec fn spec_loc_start() -> LocSpec {
    LocSpec { line: 1, column: 1, index: 0 }
}

impl Default for Loc {
    fn default() -> (r: Loc)
        ensures
            r@ == spec_loc_start(),
    {
        Loc { line: 1, column: 1, index: 0 }
    }
}

/// One character consumed: the column and offset advance, the line is kept.
pub open spec fn spec_adv1(l: LocSpec) -> LocSpec {
    LocSpec { line: l.line, column: l.column + 1, index: l.index + 1 }
}

// ---------------------------------------------------------------------------
// Tokens and errors.
// ---------------------------------------------------------------------------

/// Spec-level token payload.
pub enum TokenKindSpec {
    OpenTag(Seq<char>),
    CloseTag(Seq<char>),
    SelfCloseTag(Seq<char>),
    Attribute(Seq<char>, Seq<char>),
    Text(Seq<char>),
    Comment(Seq<char>),
}

/// The payload of a token: which syntactic shape it has, and its text.
#[derive(Clone, Debug, PartialEq)]
pub enum TokenKind {
    OpenTag(Vec<char>),
    CloseTag(Vec<char>),
    SelfCloseTag(Vec<char>),
    Attribute(Vec<char>, Vec<char>),
    Text(Vec<char>),
    Comment(Vec<char>),
}

impl View for TokenKind {
    type V = TokenKindSpec;

    open spec fn view(&self) -> TokenKindSpec {
        match self {
            TokenKind::OpenTag(n) => TokenKindSpec::OpenTag(n@),
            TokenKind::CloseTag(n) => TokenKindSpec::CloseTag(n@),
            TokenKind::SelfCloseTag(n) => TokenKindSpec::SelfCloseTag(n@),
            TokenKind::Attribute(n, v) => TokenKindSpec::Attribute(n@, v@),
            TokenKind::Text(t) => TokenKindSpec::Text(t@),
            TokenKind::Comment(t) => TokenKindSpec::Comment(t@),
        }
    }
}

/// Spec-level token.
pub struct TokenSpec {
    pub kind: TokenKindSpec,
    pub attributes: Option<Seq<TokenSpec>>,
    pub loc: LocSpec,
}

/// A token with its optional attribute list (present only on opening and
/// self-closing tags) and the position it was read at.
#[derive(Debug, PartialEq)]
pub struct Token {
    pub kind: TokenKind,
    pub attributes: Option<Vec<Token>>,
    pub loc: Loc,
}

/// The view of a token that carries no attribute list of its own; attribute
/// tokens produced by the tokenizer are always of this shape.
pub open spec fn token_leaf_view(t: Token) -> TokenSpec {
    TokenSpec { kind: t.kind@, attributes: Option::None, loc: t.loc@ }
}

impl View for Token {
    type V = TokenSpec;

    open spec fn view(&self) -> TokenSpec {
        TokenSpec {
            kind: self.kind@,
            attributes: match self.attributes {
                Option::None => Option::None,
                Option::Some(ats) => Option::Some(
                    Seq::new(ats@.len(), |i: int| token_leaf_view(ats@[i])),
                ),
            },
            loc: self.loc@,
        }
    }
}

/// The views of a sequence of tokens.
pub open spec fn vec_tokens_view(s: Seq<Token>) -> Seq<TokenSpec> {
    Seq::new(s.len(), |i: int| s[i]@)
}

/// Spec-level tokenizer error.
pub enum LexErrSpec {
    End,
    Expect(LocSpec, Seq<char>),
    Unexpected(LocSpec, Seq<char>),
}

/// A tokenizer error: the input ended while a character was required, or a
/// structurally required character was absent, or a character was present
/// but invalid at its position.
#[derive(Clone, Debug, PartialEq)]
pub enum LexerError {
    END,
    Expect(Loc, String),
    UnexpectedToken(Loc, String),
}

impl View for LexerError {
    type V = LexErrSpec;

    open spec fn view(&self) -> LexErrSpec {
        match self {
            LexerError::END => LexErrSpec::End,
            LexerError::Expect(l, s) => LexErrSpec::Expect(l@, s@),
            LexerError::UnexpectedToken(l, s) => LexErrSpec::Unexpected(l@, s@),
        }
    }
}

// ---------------------------------------------------------------------------
// Character classes and scanning.
// ---------------------------------------------------------------------------

/// The character classes the tokenizer scans over.
#[derive(Clone, Copy, PartialEq, Eq, Structural, Debug)]
pub enum CharPred {
    /// Any character but the given one.
    NotChar(char),
    /// A character of the comment opener run: `<`, `!` or `-`.
    CommentOpenRun,
    /// A character of the comment closer run: `>` or `-`.
    CommentCloseRun,
    /// A character that can stand in an attribute name.
    AttrName,
    /// A character that can stand in a tag name.
    TagName,
}

/// Whether `c` belongs to the class `p`.
pub open spec fn char_pred(p: CharPred, c: char) -> bool {
    match p {
        CharPred::NotChar(q) => c != q,
        CharPred::CommentOpenRun => c == '<' || c == '!' || c == '-',
        CharPred::CommentCloseRun => c == '>' || c == '-',
        CharPred::AttrName => c != '=' && c != ' ' && c != '>' && c != '/',
        CharPred::TagName => c != '/' && c != '>' && c != ' ',
    }
}

fn char_pred_holds(p: CharPred, c: char) -> (b: bool)
    ensures
        b == char_pred(p, c),
{
    match p {
        CharPred::NotChar(q) => c != q,
        CharPred::CommentOpenRun => c == '<' || c == '!' || c == '-',
        CharPred::CommentCloseRun => c == '>' || c == '-',
        CharPred::AttrName => c != '=' && c != ' ' && c != '>' && c != '/',
        CharPred::TagName => c != '/' && c != '>' && c != ' ',
    }
}

/// Whether `c` is whitespace (the Unicode `White_Space` set).
pub open spec fn spec_is_space(c: char) -> bool {
    c == ' ' || c == '\t' || c == '\n' || c == '\r' || c == '\u{0B}' || c == '\u{0C}' || c
        == '\u{85}' || c == '\u{A0}' || c == '\u{1680}' || ('\u{2000}' <= c && c <= '\u{200A}') || c
        == '\u{2028}' || c == '\u{2029}' || c == '\u{202F}' || c == '\u{205F}' || c == '\u{3000}'
}

fn is_space_char(c: char) -> (b: bool)
    ensures
        b == spec_is_space(c),
{
    c == ' ' || c == '\t' || c == '\n' || c == '\r' || c == '\u{0B}' || c == '\u{0C}' || c
        == '\u{85}' || c == '\u{A0}' || c == '\u{1680}' || ('\u{2000}' <= c && c <= '\u{200A}') || c
        == '\u{2028}' || c == '\u{2029}' || c == '\u{202F}' || c == '\u{205F}' || c == '\u{3000}'
}

/// How many consecutive characters of class `p` stand at `i`.
pub open spec fn spec_scan_n(code: Seq<char>, i: int, p: CharPred) -> nat
    decreases code.len() - i,
{
    if 0 <= i && i < code.len() && char_pred(p, code[i]) {
        (1 + spec_scan_n(code, i + 1, p)) as nat
    } else {
        0
    }
}

proof fn lemma_scan_n(code: Seq<char>, i: int, p: CharPred)
    requires
        0 <= i <= code.len(),
    ensures
        i + spec_scan_n(code, i, p) <= code.len(),
        forall|j: int| i <= j < i + spec_scan_n(code, i, p) ==> char_pred(p, code[j]),
        i + spec_scan_n(code, i, p) == code.len() || !char_pred(
            p,
            code[i + spec_scan_n(code, i, p)],
        ),
    decreases code.len() - i,
{
    if i < code.len() && char_pred(p, code[i]) {
        lemma_scan_n(code, i + 1, p);
    }
}

proof fn lemma_scan_n_eq(code: Seq<char>, i: int, j: int, p: CharPred)
    requires
        0 <= i <= j <= code.len(),
        forall|k: int| i <= k < j ==> char_pred(p, code[k]),
        j == code.len() || !char_pred(p, code[j]),
    ensures
        spec_scan_n(code, i, p) == j - i,
    decreases j - i,
{
    if i < j {
        lemma_scan_n_eq(code, i + 1, j, p);
    }
}

/// The character at `i`, with a space standing in for any position outside
/// the text.
pub open spec fn spec_peek_at(code: Seq<char>, i: int) -> char {
    if 0 <= i && i < code.len() {
        code[i]
    } else {
        ' '
    }
}

// ---------------------------------------------------------------------------
// The spec-level tokenizer.
// ---------------------------------------------------------------------------

/// The boolean-attribute sentinel value.
pub open spec fn spec_sentinel_true() -> Seq<char> {
    "{{true}}"@
}

/// Reading a text token: everything up to the next `<`.
pub open spec fn spec_read_text(code: Seq<char>, l: LocSpec) -> (TokenSpec, LocSpec) {
    let k = spec_scan_n(code, l.index, CharPred::NotChar('<')) as int;
    let l2 = LocSpec { line: l.line, column: l.column + k, index: l.index + k };
    (
        TokenSpec {
            kind: TokenKindSpec::Text(code.subrange(l.index, l.index + k)),
            attributes: Option::None,
            loc: l2,
        },
        l2,
    )
}

/// The position of the first `-->` at or after `j`, if any.
pub open spec fn spec_comment_close(code: Seq<char>, j: int) -> Option<int>
    decreases code.len() - j,
{
    if j < 0 || j >= code.len() {
        Option::None
    } else if code[j] == '-' && spec_peek_at(code, j + 1) == '-' && spec_peek_at(code, j + 2)
        == '>' {
        Option::Some(j)
    } else {
        spec_comment_close(code, j + 1)
    }
}

/// Reading a comment token: the opener run, then content up to `-->`, then
/// the closer run; the content is kept without the delimiters.
pub open spec fn spec_read_comment(code: Seq<char>, l: LocSpec) -> Result<
    (TokenSpec, LocSpec),
    LexErrSpec,
> {
    let k1 = spec_scan_n(code, l.index, CharPred::CommentOpenRun) as int;
    let e1 = l.index + k1;
    match spec_comment_close(code, e1) {
        Option::None => Err(LexErrSpec::End),
        Option::Some(j) => {
            let k2 = spec_scan_n(code, j, CharPred::CommentCloseRun) as int;
            let e2 = j + k2;
            let l3 = LocSpec { line: l.line, column: l.column + (e2 - l.index), index: e2 };
            Ok(
                (
                    TokenSpec {
                        kind: TokenKindSpec::Comment(code.subrange(e1, j)),
                        attributes: Option::None,
                        loc: l3,
                    },
                    l3,
                ),
            )
        },
    }
}

/// Reading the attribute list of a tag, up to (but not consuming) the
/// closing `>` or `/>`.
pub open spec fn spec_read_attributes(code: Seq<char>, l: LocSpec) -> Result<
    (Seq<TokenSpec>, LocSpec),
    LexErrSpec,
>
    decreases code.len() - l.index,
{
    if l.index < 0 || l.index >= code.len() {
        Err(LexErrSpec::End)
    } else {
        let c = code[l.index];
        let nx = spec_peek_at(code, l.index + 1);
        if c == '>' || (c == '/' && nx == '>') {
            Ok((Seq::empty(), l))
        } else if spec_is_space(c) {
            spec_read_attributes(code, spec_adv1(l))
        } else {
            let k = spec_scan_n(code, l.index, CharPred::AttrName) as int;
            let e = l.index + k;
            let name = code.subrange(l.index, e);
            let l1 = LocSpec { line: l.line, column: l.column + k, index: e };
            if e >= code.len() {
                Err(LexErrSpec::End)
            } else if code[e] != '=' {
                if k == 0 {
                    Err(LexErrSpec::Unexpected(l, "attribute name"@))
                } else {
                    let attr = TokenSpec {
                        kind: TokenKindSpec::Attribute(name, spec_sentinel_true()),
                        attributes: Option::None,
                        loc: l1,
                    };
                    match spec_read_attributes(code, l1) {
                        Ok((rest, lf)) => Ok((seq![attr] + rest, lf)),
                        Err(er) => Err(er),
                    }
                }
            } else {
                if e + 1 >= code.len() {
                    Err(LexErrSpec::End)
                } else {
                    let q = code[e + 1];
                    if q != '"' && q != '\'' {
                        Err(
                            LexErrSpec::Expect(
                                LocSpec { line: l.line, column: l1.column + 2, index: e + 2 },
                                "quote"@,
                            ),
                        )
                    } else {
                        let vk = spec_scan_n(code, e + 2, CharPred::NotChar(q)) as int;
                        let ve = e + 2 + vk;
                        if ve >= code.len() {
                            Err(LexErrSpec::End)
                        } else {
                            let lv = LocSpec {
                                line: l.line,
                                column: l1.column + 2 + vk,
                                index: ve,
                            };
                            let attr = TokenSpec {
                                kind: TokenKindSpec::Attribute(name, code.subrange(e + 2, ve)),
                                attributes: Option::None,
                                loc: lv,
                            };
                            match spec_read_attributes(code, spec_adv1(lv)) {
                                Ok((rest, lf)) => Ok((seq![attr] + rest, lf)),
                                Err(er) => Err(er),
                            }
                        }
                    }
                }
            }
        }
    }
}

/// Reading a tag token (opening, closing or self-closing), starting at its
/// `<`.
pub open spec fn spec_read_tag(code: Seq<char>, l: LocSpec) -> Result<
    (TokenSpec, LocSpec),
    LexErrSpec,
> {
    let l1 = spec_adv1(l);
    if l1.index >= code.len() {
        Err(LexErrSpec::End)
    } else {
        let close_start = code[l1.index] == '/';
        let l2 = if close_start {
            spec_adv1(l1)
        } else {
            l1
        };
        let k = spec_scan_n(code, l2.index, CharPred::TagName) as int;
        let name = code.subrange(l2.index, l2.index + k);
        let l3 = LocSpec { line: l2.line, column: l2.column + k, index: l2.index + k };
        match spec_read_attributes(code, l3) {
            Err(e) => Err(e),
            Ok((ats, l4)) => {
                if l4.index >= code.len() {
                    Err(LexErrSpec::End)
                } else {
                    let close_end = code[l4.index] == '/';
                    let l5 = if close_end {
                        spec_adv1(l4)
                    } else {
                        l4
                    };
                    if l5.index >= code.len() {
                        Err(LexErrSpec::End)
                    } else if code[l5.index] != '>' {
                        Err(LexErrSpec::Expect(spec_adv1(l5), ">"@))
                    } else {
                        let l6 = spec_adv1(l5);
                        if close_start {
                            Ok(
                                (
                                    TokenSpec {
                                        kind: TokenKindSpec::CloseTag(name),
                                        attributes: Option::None,
                                        loc: l,
                                    },
                                    l6,
                                ),
                            )
                        } else if close_end {
                            Ok(
                                (
                                    TokenSpec {
                                        kind: TokenKindSpec::SelfCloseTag(name),
                                        attributes: Option::Some(ats),
                                        loc: l,
                                    },
                                    l6,
                                ),
                            )
                        } else {
                            Ok(
                                (
                                    TokenSpec {
                                        kind: TokenKindSpec::OpenTag(name),
                                        attributes: Option::Some(ats),
                                        loc: l,
                                    },
                                    l6,
                                ),
                            )
                        }
                    }
                }
            },
        }
    }
}

/// Producing one token: newlines advance the line, spaces and tabs are
/// skipped, then a text run, a comment or a tag is read.
pub open spec fn spec_tokenize(code: Seq<char>, l: LocSpec) -> Result<
    (TokenSpec, LocSpec),
    LexErrSpec,
>
    decreases code.len() - l.index,
{
    if l.index < 0 || l.index >= code.len() {
        Err(LexErrSpec::End)
    } else {
        let c = code[l.index];
        if c == '\n' {
            spec_tokenize(code, LocSpec { line: l.line + 1, column: 0, index: l.index + 1 })
        } else if c == ' ' || c == '\t' {
            spec_tokenize(code, spec_adv1(l))
        } else if c != '<' {
            Ok(spec_read_text(code, l))
        } else if spec_peek_at(code, l.index + 1) == '!' {
            spec_read_comment(code, l)
        } else {
            spec_read_tag(code, l)
        }
    }
}

/// The whole token list of the source text from position `l` on: tokens are
/// produced until the end of the input; the first failure aborts the run.
pub open spec fn spec_tokenize_all(code: Seq<char>, l: LocSpec) -> Result<
    Seq<TokenSpec>,
    LexErrSpec,
>
    decreases code.len() - l.index,
{
    if l.index < 0 || l.index >= code.len() {
        Ok(Seq::empty())
    } else {
        match spec_tokenize(code, l) {
            Err(LexErrSpec::End) => Ok(Seq::empty()),
            Err(e) => Err(e),
            Ok((t, l2)) => {
                let ln = if l.index < l2.index && l2.index <= code.len() {
                    l2
                } else {
                    spec_adv1(l)
                };
                match spec_tokenize_all(code, ln) {
                    Ok(rest) => Ok(seq![t] + rest),
                    Err(e) => Err(e),
                }
            },
        }
    }
}

/// Prepends already-produced tokens to the outcome of the rest of a run.
pub open spec fn spec_prepend_tokens(
    done: Seq<TokenSpec>,
    r: Result<Seq<TokenSpec>, LexErrSpec>,
) -> Result<Seq<TokenSpec>, LexErrSpec> {
    match r {
        Ok(ts) => Ok(done + ts),
        Err(e) => Err(e),
    }
}

/// Prepends already-read attributes to the outcome of the rest of an
/// attribute list.
pub open spec fn spec_prepend_attrs(
    done: Seq<TokenSpec>,
    r: Result<(Seq<TokenSpec>, LocSpec), LexErrSpec>,
) -> Result<(Seq<TokenSpec>, LocSpec), LexErrSpec> {
    match r {
        Ok((ats, lf)) => Ok((done + ats, lf)),
        Err(e) => Err(e),
    }
}

// ---------------------------------------------------------------------------
// The executable tokenizer.
// ---------------------------------------------------------------------------

/// The tokenizer: holds the source text, the read position, and the tokens
/// produced so far; `index` is the read cursor the tree builder uses over
/// `tokens`.
#[derive(Debug, PartialEq)]
pub struct Lexer {
    pub code: Vec<char>,
    pub loc: Loc,
    pub tokens: Vec<Token>,
    pub index: usize,
}

impl Lexer {
    /// Well-formedness: the cursor is inside the text and the line/column
    /// counters are bounded by it, so position arithmetic cannot overflow.
    pub open spec fn wf(&self) -> bool {
        &&& self.loc.index <= self.code@.len()
        &&& self.loc.column <= self.loc.index + 1
        &&& self.loc.line <= self.loc.index + 1
        &&& self.code@.len() + 2 <= usize::MAX
    }

    /// A fresh tokenizer over `code`. The bound on the text length keeps
    /// the position arithmetic inside `usize`.
    pub fn new(code: String) -> (r: Lexer)
        requires
            code@.len() + 2 <= usize::MAX,
        ensures
            r.wf(),
            r.code@ == code@,
            r.loc@ == spec_loc_start(),
            r.tokens@ == Seq::<Token>::empty(),
            r.index == 0,
    {
        Lexer { code: str_chars(code.as_str()), loc: Loc::default(), tokens: Vec::new(), index: 0 }
    }

    fn peek_char(&self) -> (r: Result<char, LexerError>)
        requires
            self.wf(),
        ensures
            match r {
                Ok(c) => self.loc.index < self.code@.len() && c == self.code@[self.loc.index as int],
                Err(e) => self.loc.index == self.code@.len() && e == LexerError::END,
            },
    {
        if self.loc.index < self.code.len() {
            Ok(self.code[self.loc.index])
        } else {
            Err(LexerError::END)
        }
    }

    fn peek_chars(&self, index: usize) -> (r: char)
        requires
            self.wf(),
        ensures
            r == spec_peek_at(self.code@, self.loc.index + index),
    {
        if index < self.code.len() - self.loc.index {
            self.code[self.loc.index + index]
        } else {
            ' '
        }
    }

    fn take_char(&mut self) -> (r: Result<char, LexerError>)
        requires
            old(self).wf(),
        ensures
            final(self).wf(),
            final(self).code == old(self).code,
            final(self).tokens == old(self).tokens,
            final(self).index == old(self).index,
            match r {
                Ok(c) => old(self).loc.index < old(self).code@.len() && c == old(
                    self,
                ).code@[old(self).loc.index as int] && final(self).loc@ == spec_adv1(
                    old(self).loc@,
                ),
                Err(e) => old(self).loc.index == old(self).code@.len() && e == LexerError::END
                    && final(self).loc == old(self).loc,
            },
    {
        if self.loc.index < self.code.len() {
            let c = self.code[self.loc.index];
            self.loc.index = self.loc.index + 1;
            self.loc.column = self.loc.column + 1;
            Ok(c)
        } else {
            Err(LexerError::END)
        }
    }

    fn reach_the_end(&self) -> (r: bool)
        ensures
            r == (self.loc.index >= self.code@.len()),
    {
        self.loc.index >= self.code.len()
    }

    #[verifier::loop_isolation(false)]
    fn take_char_while(&mut self, p: CharPred) -> (r: Vec<char>)
        requires
            old(self).wf(),
        ensures
            final(self).wf(),
            final(self).code == old(self).code,
            final(self).tokens == old(self).tokens,
            final(self).index == old(self).index,
            ({
                let k = spec_scan_n(old(self).code@, old(self).loc.index as int, p) as int;
                &&& r@ == old(self).code@.subrange(
                    old(self).loc.index as int,
                    old(self).loc.index + k,
                )
                &&& final(self).loc@ == LocSpec {
                    line: old(self).loc.line as int,
                    column: old(self).loc.column + k,
                    index: old(self).loc.index + k,
                }
            }),
    {
        let ghost code0 = self.code@;
        let ghost i0 = self.loc.index as int;
        let ghost l0 = self.loc@;
        let mut out: Vec<char> = Vec::new();
        let mut done: bool = false;
        while !done
            invariant
                self.wf(),
                self.code == old(self).code,
                self.code@ == code0,
                self.tokens == old(self).tokens,
                self.index == old(self).index,
                i0 <= self.loc.index <= code0.len(),
                self.loc.line == l0.line,
                self.loc.column == l0.column + (self.loc.index - i0),
                out@ == code0.subrange(i0, self.loc.index as int),
                forall|j: int| i0 <= j < self.loc.index ==> char_pred(p, code0[j]),
                done ==> (self.loc.index == code0.len() || !char_pred(
                    p,
                    code0[self.loc.index as int],
                )),
            decreases code0.len() - self.loc.index + (if done {
                0int
            } else {
                1int
            }),
        {
            if self.reach_the_end() {
                done = true;
            } else {
                let c = self.code[self.loc.index];
                if !char_pred_holds(p, c) {
                    done = true;
                } else {
                    let taken = self.take_char();
                    proof {
                        assert(taken is Ok);
                        assert(code0.subrange(i0, self.loc.index - 1) + seq![c] =~= code0.subrange(
                            i0,
                            self.loc.index as int,
                        ));
                    }
                    out.push(c);
                }
            }
        }
        proof {
            lemma_scan_n_eq(code0, i0, self.loc.index as int, p);
        }
        out
    }

    fn read_text(&mut self) -> (r: Result<Token, LexerError>)
        requires
            old(self).wf(),
        ensures
            final(self).wf(),
            final(self).code == old(self).code,
            final(self).tokens == old(self).tokens,
            final(self).index == old(self).index,
            ({
                let (t, l2) = spec_read_text(old(self).code@, old(self).loc@);
                match r {
                    Ok(tok) => tok@ == t && final(self).loc@ == l2,
                    Err(_) => false,
                }
            }),
    {
        let text = self.take_char_while(CharPred::NotChar('<'));
        Ok(Token { kind: TokenKind::Text(text), attributes: Option::None, loc: self.loc })
    }

    #[verifier::loop_isolation(false)]
    fn read_comment(&mut self) -> (r: Result<Token, LexerError>)
        requires
            old(self).wf(),
        ensures
            final(self).wf(),
            final(self).code == old(self).code,
            final(self).tokens == old(self).tokens,
            final(self).index == old(self).index,
            final(self).loc.index >= old(self).loc.index,
            match spec_read_comment(old(self).code@, old(self).loc@) {
                Ok((t, l2)) => match r {
                    Ok(tok) => tok@ == t && final(self).loc@ == l2,
                    Err(_) => false,
                },
                Err(e) => match r {
                    Err(err) => err@ == e,
                    Ok(_) => false,
                },
            },
    {
        let ghost code0 = self.code@;
        let ghost l0 = self.loc@;
        let _prefix = self.take_char_while(CharPred::CommentOpenRun);
        let ghost e1 = self.loc.index as int;
        let mut s: Vec<char> = Vec::new();
        let mut done: bool = false;
        proof {
            assert(s@ =~= code0.subrange(e1, e1));
        }
        while !done
            invariant
                self.wf(),
                self.code == old(self).code,
                self.code@ == code0,
                self.tokens == old(self).tokens,
                self.index == old(self).index,
                e1 <= self.loc.index <= code0.len(),
                self.loc.line == l0.line,
                self.loc.column == l0.column + (self.loc.index - l0.index),
                self.loc.index >= l0.index,
                s@ == code0.subrange(e1, self.loc.index as int),
                spec_comment_close(code0, e1) == spec_comment_close(
                    code0,
                    self.loc.index as int,
                ),
                done ==> (self.loc.index < code0.len() && spec_comment_close(code0, e1)
                    == Option::Some(self.loc.index as int)),
            decreases code0.len() - self.loc.index + (if done {
                0int
            } else {
                1int
            }),
        {
            if self.loc.index >= self.code.len() {
                proof {
                    assert(spec_comment_close(code0, self.loc.index as int) is None);
                }
                return Err(LexerError::END);
            }
            let c = self.code[self.loc.index];
            let next_char = self.peek_chars(1);
            let next_next_char = self.peek_chars(2);
            if c == '-' && next_char == '-' && next_next_char == '>' {
                done = true;
            } else {
                let taken = self.take_char();
                proof {
                    assert(taken is Ok);
                    let oldi = self.loc.index - 1;
                    assert(code0.subrange(e1, oldi) + seq![c] =~= code0.subrange(e1, oldi + 1));
                }
                s.push(c);
            }
        }
        let ghost j = self.loc.index as int;
        proof {
            lemma_scan_n(code0, j, CharPred::CommentCloseRun);
        }
        let _suffix = self.take_char_while(CharPred::CommentCloseRun);
        Ok(Token { kind: TokenKind::Comment(s), attributes: Option::None, loc: self.loc })
    }

    #[verifier::loop_isolation(false)]
    fn read_attributes(&mut self) -> (r: Result<Vec<Token>, LexerError>)
        requires
            old(self).wf(),
        ensures
            final(self).wf(),
            final(self).code == old(self).code,
            final(self).tokens == old(self).tokens,
            final(self).index == old(self).index,
            final(self).loc.index >= old(self).loc.index,
            match spec_read_attributes(old(self).code@, old(self).loc@) {
                Ok((ats, lf)) => match r {
                    Ok(v) => vec_tokens_view(v@) == ats && final(self).loc@ == lf && (forall|
                        i: int,
                    |
                        0 <= i < v@.len() ==> v@[i].attributes is None),
                    Err(_) => false,
                },
                Err(e) => match r {
                    Err(err) => err@ == e,
                    Ok(_) => false,
                },
            },
    {
        let ghost code0 = self.code@;
        let ghost l0 = self.loc@;
        let mut attributes: Vec<Token> = Vec::new();
        let mut done: bool = false;
        proof {
            assert(vec_tokens_view(attributes@) =~= Seq::<TokenSpec>::empty());
            match spec_read_attributes(code0, l0) {
                Ok((ats, lf)) => {
                    assert(Seq::<TokenSpec>::empty() + ats =~= ats);
                },
                Err(_) => {},
            }
        }
        while !done
            invariant
                self.wf(),
                self.code == old(self).code,
                self.code@ == code0,
                self.tokens == old(self).tokens,
                self.index == old(self).index,
                self.loc.index >= l0.index,
                forall|i: int| 0 <= i < attributes@.len() ==> attributes@[i].attributes is None,
                spec_read_attributes(code0, l0) == spec_prepend_attrs(
                    vec_tokens_view(attributes@),
                    spec_read_attributes(code0, self.loc@),
                ),
                done ==> spec_read_attributes(code0, self.loc@) == Ok::<
                    (Seq<TokenSpec>, LocSpec),
                    LexErrSpec,
                >((Seq::empty(), self.loc@)),
            decreases code0.len() - self.loc.index + (if done {
                0int
            } else {
                1int
            }),
        {
            let ghost lc = self.loc@;
            let ghost donev = vec_tokens_view(attributes@);
            let c = match self.peek_char() {
                Ok(c) => c,
                Err(e) => {
                    return Err(e);
                },
            };
            let next_char = self.peek_chars(1);
            if c == '>' || (c == '/' && next_char == '>') {
                done = true;
            } else if is_space_char(c) {
                let taken = self.take_char();
                proof {
                    assert(taken is Ok);
                }
            } else {
                let name = self.take_char_while(CharPred::AttrName);
                let c2 = match self.peek_char() {
                    Ok(c2) => c2,
                    Err(e) => {
                        return Err(e);
                    },
                };
                if c2 != '=' {
                    if name.len() == 0 {
                        let mut m: Vec<char> = Vec::new();
                        push_str(&mut m, "attribute name");
                        proof {
                            assert(m@ =~= "attribute name"@);
                        }
                        return Err(
                            LexerError::UnexpectedToken(
                                self.loc,
                                crate::utils::chars_to_string(&m),
                            ),
                        );
                    }
                    let mut sentinel: Vec<char> = Vec::new();
                    push_str(&mut sentinel, "{{true}}");
                    proof {
                        assert(sentinel@ =~= spec_sentinel_true());
                    }
                    let tok = Token {
                        kind: TokenKind::Attribute(name, sentinel),
                        attributes: Option::None,
                        loc: self.loc,
                    };
                    proof {
                        let rest = spec_read_attributes(code0, self.loc@);
                        assert(spec_read_attributes(code0, lc) == spec_prepend_attrs(
                            seq![tok@],
                            rest,
                        ));
                        assert(vec_tokens_view(attributes@.push(tok)) =~= donev.push(tok@));
                        match rest {
                            Ok((ats, lf)) => {
                                assert(donev + (seq![tok@] + ats) =~= donev.push(tok@) + ats);
                            },
                            Err(_) => {},
                        }
                    }
                    attributes.push(tok);
                } else {
                    let eq = self.take_char();
                    proof {
                        assert(eq is Ok);
                    }
                    let quote = match self.take_char() {
                        Ok(q) => q,
                        Err(e) => {
                            return Err(e);
                        },
                    };
                    if quote != '"' && quote != '\'' {
                        let mut m: Vec<char> = Vec::new();
                        push_str(&mut m, "quote");
                        proof {
                            assert(m@ =~= "quote"@);
                        }
                        return Err(
                            LexerError::Expect(self.loc, crate::utils::chars_to_string(&m)),
                        );
                    }
                    let value = self.take_char_while(CharPred::NotChar(quote));
                    let lv = self.loc;
                    let closing = match self.take_char() {
                        Ok(q) => q,
                        Err(e) => {
                            return Err(e);
                        },
                    };
                    let tok = Token {
                        kind: TokenKind::Attribute(name, value),
                        attributes: Option::None,
                        loc: lv,
                    };
                    proof {
                        let rest = spec_read_attributes(code0, self.loc@);
                        assert(spec_read_attributes(code0, lc) == spec_prepend_attrs(
                            seq![tok@],
                            rest,
                        ));
                        assert(vec_tokens_view(attributes@.push(tok)) =~= donev.push(tok@));
                        match rest {
                            Ok((ats, lf)) => {
                                assert(donev + (seq![tok@] + ats) =~= donev.push(tok@) + ats);
                            },
                            Err(_) => {},
                        }
                    }
                    attributes.push(tok);
                }
            }
        }
        proof {
            match spec_read_attributes(code0, l0) {
                Ok((ats, lf)) => {
                    assert(vec_tokens_view(attributes@) + Seq::<TokenSpec>::empty()
                        =~= vec_tokens_view(attributes@));
                },
                Err(_) => {
                    assert(false);
                },
            }
        }
        Ok(attributes)
    }

    fn read_tag(&mut self) -> (r: Result<Token, LexerError>)
        requires
            old(self).wf(),
            old(self).loc.index < old(self).code@.len(),
        ensures
            final(self).wf(),
            final(self).code == old(self).code,
            final(self).tokens == old(self).tokens,
            final(self).index == old(self).index,
            final(self).loc.index > old(self).loc.index,
            match spec_read_tag(old(self).code@, old(self).loc@) {
                Ok((t, l2)) => match r {
                    Ok(tok) => tok@ == t && final(self).loc@ == l2,
                    Err(_) => false,
                },
                Err(e) => match r {
                    Err(err) => err@ == e,
                    Ok(_) => false,
                },
            },
    {
        let loc = self.loc;
        let lt = self.take_char();
        proof {
            assert(lt is Ok);
        }
        let close_start = match self.peek_char() {
            Ok(c) => c == '/',
            Err(e) => {
                return Err(e);
            },
        };
        if close_start {
            let slash = self.take_char();
            proof {
                assert(slash is Ok);
            }
        }
        let name = self.take_char_while(CharPred::TagName);
        let attributes = match self.read_attributes() {
            Ok(a) => a,
            Err(e) => {
                return Err(e);
            },
        };
        let close_end = match self.peek_char() {
            Ok(c) => c == '/',
            Err(e) => {
                return Err(e);
            },
        };
        if close_end {
            let slash = self.take_char();
            proof {
                assert(slash is Ok);
            }
        }
        let gt = match self.take_char() {
            Ok(c) => c,
            Err(e) => {
                return Err(e);
            },
        };
        if gt != '>' {
            let mut m: Vec<char> = Vec::new();
            push_str(&mut m, ">");
            proof {
                assert(m@ =~= ">"@);
            }
            return Err(LexerError::Expect(self.loc, crate::utils::chars_to_string(&m)));
        }
        let tok = if close_start {
            Token { kind: TokenKind::CloseTag(name), attributes: Option::None, loc }
        } else if close_end {
            Token {
                kind: TokenKind::SelfCloseTag(name),
                attributes: Option::Some(attributes),
                loc,
            }
        } else {
            Token { kind: TokenKind::OpenTag(name), attributes: Option::Some(attributes), loc }
        };
        proof {
            match tok@.attributes {
                Option::Some(a2) => {
                    assert forall|i: int| 0 <= i < a2.len() implies a2[i] == vec_tokens_view(
                        attributes@,
                    )[i] by {
                        assert(a2[i] == token_leaf_view(attributes@[i]));
                        assert(vec_tokens_view(attributes@)[i] == attributes@[i]@);
                        assert(attributes@[i].attributes is None);
                    }
                    assert(a2 =~= vec_tokens_view(attributes@));
                },
                Option::None => {},
            }
        }
        Ok(tok)
    }

    /// Produces the next token of the source text, or `END` when the text is
    /// exhausted.
    #[verifier::loop_isolation(false)]
    pub fn tokenize(&mut self) -> (r: Result<Token, LexerError>)
        requires
            old(self).wf(),
        ensures
            final(self).wf(),
            final(self).code == old(self).code,
            final(self).tokens == old(self).tokens,
            final(self).index == old(self).index,
            match spec_tokenize(old(self).code@, old(self).loc@) {
                Ok((t, l2)) => match r {
                    Ok(tok) => tok@ == t && final(self).loc@ == l2 && l2.index > old(
                        self,
                    ).loc.index && l2.index <= old(self).code@.len(),
                    Err(_) => false,
                },
                Err(e) => match r {
                    Err(err) => err@ == e,
                    Ok(_) => false,
                },
            },
    {
        let ghost code0 = self.code@;
        let ghost l0 = self.loc@;
        loop
            invariant
                self.wf(),
                self.code == old(self).code,
                self.code@ == code0,
                self.tokens == old(self).tokens,
                self.index == old(self).index,
                self.loc.index >= l0.index,
                spec_tokenize(code0, l0) == spec_tokenize(code0, self.loc@),
            decreases code0.len() - self.loc.index,
        {
            let ghost lc = self.loc@;
            if self.loc.index >= self.code.len() {
                return Err(LexerError::END);
            }
            let current = self.code[self.loc.index];
            if current == '\n' {
                let taken = self.take_char();
                proof {
                    assert(taken is Ok);
                }
                self.loc.line = self.loc.line + 1;
                self.loc.column = 0;
            } else if current == ' ' || current == '\t' {
                let taken = self.take_char();
                proof {
                    assert(taken is Ok);
                }
            } else if current != '<' {
                proof {
                    assert(spec_scan_n(code0, lc.index, CharPred::NotChar('<')) >= 1);
                    lemma_scan_n(code0, lc.index, CharPred::NotChar('<'));
                }
                return self.read_text();
            } else {
                let next_char = self.peek_chars(1);
                if next_char == '!' {
                    proof {
                        let k1 = spec_scan_n(code0, lc.index, CharPred::CommentOpenRun);
                        assert(k1 >= 1);
                        lemma_scan_n(code0, lc.index, CharPred::CommentOpenRun);
                        lemma_comment_close_bounds(code0, lc.index + k1);
                        match spec_comment_close(code0, lc.index + k1) {
                            Option::Some(p) => {
                                lemma_scan_n(code0, p, CharPred::CommentCloseRun);
                            },
                            Option::None => {},
                        }
                    }
                    return self.read_comment();
                } else {
                    return self.read_tag();
                }
            }
        }
    }

    /// Tokenizes the whole source text, appending the tokens to `tokens`;
    /// stops at the end of the input, or aborts on the first structural
    /// error.
    #[verifier::loop_isolation(false)]
    pub fn tokenize_all(&mut self) -> (r: Result<(), LexerError>)
        requires
            old(self).wf(),
        ensures
            final(self).wf(),
            final(self).code == old(self).code,
            final(self).index == old(self).index,
            final(self).tokens@.len() >= old(self).tokens@.len(),
            match spec_tokenize_all(old(self).code@, old(self).loc@) {
                Ok(ts) => r == Ok::<(), LexerError>(()) && vec_tokens_view(final(self).tokens@)
                    == vec_tokens_view(old(self).tokens@) + ts,
                Err(e) => match r {
                    Err(err) => err@ == e,
                    Ok(_) => false,
                },
            },
    {
        let ghost code0 = self.code@;
        let ghost l0 = self.loc@;
        let ghost n0 = self.tokens@.len();
        let ghost toks0 = self.tokens@;
        let ghost mut lcur: LocSpec = l0;
        proof {
            match spec_tokenize_all(code0, l0) {
                Ok(ts) => {
                    assert(Seq::<TokenSpec>::empty() + ts =~= ts);
                },
                Err(_) => {},
            }
            assert(toks0.subrange(0, n0 as int) =~= toks0);
            assert(vec_tokens_view(toks0.skip(n0 as int)) =~= Seq::<TokenSpec>::empty());
        }
        let mut done: bool = false;
        while !done
            invariant
                self.wf(),
                self.code == old(self).code,
                self.code@ == code0,
                self.index == old(self).index,
                self.tokens@.len() >= n0,
                self.tokens@.subrange(0, n0 as int) == toks0,
                lcur.index >= l0.index,
                !done ==> self.loc@ == lcur,
                spec_tokenize_all(code0, l0) == spec_prepend_tokens(
                    vec_tokens_view(self.tokens@.skip(n0 as int)),
                    spec_tokenize_all(code0, lcur),
                ),
                done ==> spec_tokenize_all(code0, lcur) == Ok::<Seq<TokenSpec>, LexErrSpec>(
                    Seq::empty(),
                ),
            decreases code0.len() - lcur.index + (if done {
                0int
            } else {
                1int
            }),
        {
            let ghost donev = vec_tokens_view(self.tokens@.skip(n0 as int));
            match self.tokenize() {
                Ok(token) => {
                    proof {
                        let rest = spec_tokenize_all(code0, self.loc@);
                        assert(lcur.index < code0.len());
                        assert(spec_tokenize_all(code0, lcur) == spec_prepend_tokens(
                            seq![token@],
                            rest,
                        ));
                        assert(vec_tokens_view(self.tokens@.push(token).skip(n0 as int))
                            =~= donev.push(token@));
                        assert(self.tokens@.push(token).subrange(0, n0 as int) =~= toks0);
                        match rest {
                            Ok(ts) => {
                                assert(donev + (seq![token@] + ts) =~= donev.push(token@) + ts);
                            },
                            Err(_) => {},
                        }
                        lcur = self.loc@;
                    }
                    self.tokens.push(token);
                },
                Err(LexerError::END) => {
                    proof {
                        if lcur.index < code0.len() {
                            assert(spec_tokenize(code0, lcur) == Err::<
                                (TokenSpec, LocSpec),
                                LexErrSpec,
                            >(LexErrSpec::End));
                        }
                        assert(spec_tokenize_all(code0, lcur) == Ok::<
                            Seq<TokenSpec>,
                            LexErrSpec,
                        >(Seq::empty()));
                    }
                    done = true;
                },
                Err(err) => {
                    proof {
                        assert(err@ != LexErrSpec::End);
                        assert(lcur.index < code0.len());
                    }
                    return Err(err);
                },
            }
        }
        proof {
            match spec_tokenize_all(code0, l0) {
                Ok(ts) => {
                    assert(vec_tokens_view(self.tokens@.skip(n0 as int)) + Seq::<
                        TokenSpec,
                    >::empty() =~= vec_tokens_view(self.tokens@.skip(n0 as int)));
                    assert(vec_tokens_view(self.tokens@) =~= vec_tokens_view(toks0)
                        + vec_tokens_view(self.tokens@.skip(n0 as int)));
                },
                Err(_) => {
                    assert(false);
                },
            }
        }
        Ok(())
    }
}

proof fn lemma_comment_close_bounds(code: Seq<char>, j: int)
    ensures
        match spec_comment_close(code, j) {
            Option::Some(p) => j <= p < code.len(),
            Option::None => true,
        },
    decreases code.len() - j,
{
    if 0 <= j && j < code.len() {
        if !(code[j] == '-' && spec_peek_at(code, j + 1) == '-' && spec_peek_at(code, j + 2)
            == '>') {
            lemma_comment_close_bounds(code, j + 1);
        }
    }
}

/// Copies a token's payload.
fn clone_kind(k: &TokenKind) -> (r: TokenKind)
    ensures
        r@ == k@,
{
    match k {
        TokenKind::OpenTag(n) => TokenKind::OpenTag(crate::utils::clone_chars(n)),
        TokenKind::CloseTag(n) => TokenKind::CloseTag(crate::utils::clone_chars(n)),
        TokenKind::SelfCloseTag(n) => TokenKind::SelfCloseTag(crate::utils::clone_chars(n)),
        TokenKind::Attribute(n, v) => TokenKind::Attribute(
            crate::utils::clone_chars(n),
            crate::utils::clone_chars(v),
        ),
        TokenKind::Text(t) => TokenKind::Text(crate::utils::clone_chars(t)),
        TokenKind::Comment(t) => TokenKind::Comment(crate::utils::clone_chars(t)),
    }
}

/// Copies a token; the copy has the same view.
#[verifier::loop_isolation(false)]
pub(crate) fn clone_token(t: &Token) -> (r: Token)
    ensures
        r@ == t@,
{
    let attributes: Option<Vec<Token>> = match &t.attributes {
        Option::None => Option::None,
        Option::Some(ats) => {
            let mut out: Vec<Token> = Vec::new();
            let mut i: usize = 0;
            while i < ats.len()
                invariant
                    0 <= i <= ats@.len(),
                    out@.len() == i,
                    forall|j: int|
                        0 <= j < i ==> token_leaf_view(out@[j]) == token_leaf_view(ats@[j]),
                decreases ats@.len() - i,
            {
                let a = Token {
                    kind: clone_kind(&ats[i].kind),
                    attributes: Option::None,
                    loc: ats[i].loc,
                };
                out.push(a);
                i = i + 1;
            }
            Option::Some(out)
        },
    };
    let r = Token { kind: clone_kind(&t.kind), attributes, loc: t.loc };
    proof {
        match (r@.attributes, t@.attributes) {
            (Option::Some(a1), Option::Some(a2)) => {
                assert(a1 =~= a2);
            },
            _ => {},
        }
    }
    r
}

} // verus!
