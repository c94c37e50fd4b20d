//! The tree builder: consumes the token list and constructs a single rooted
//! tree of nodes, matching open/close tag pairs and discarding comments.
//!
//! Tree building is specified against the recursive spec functions
//! `spec_read_child` / `spec_read_children` over the token views, so the
//! tree is a pure function of the token list.

use vstd::prelude::*;
use vstd::string::StringExecFns;
use crate::lexer::{
    clone_token, spec_loc_start, spec_tokenize_all, vec_tokens_view, LexErrSpec, Lexer, LexerError,
    LocSpec, Token, TokenKindSpec, TokenSpec,
};

verus! {

broadcast use vstd::std_specs::vec::group_vec_axioms;

/// Spec-level tree node.
pub struct NodeSpec {
    pub token: TokenSpec,
    pub children: Option<Seq<NodeSpec>>,
}

/// A tree node: one token, and the ordered children of an opening tag.
#[derive(Debug, PartialEq)]
pub struct Node {
    pub token: Token,
    pub children: Option<Vec<Node>>,
}

/// The view of a node: its token's view and its children's views.
pub open spec fn node_view(n: Node) -> NodeSpec
    decreases n, 1int,
{
    NodeSpec {
        token: n.token@,
        children: match n.children {
            Option::None => Option::None,
            Option::Some(kids) => Option::Some(nodes_view(kids@)),
        },
    }
}

/// The views of a sequence of nodes.
pub open spec fn nodes_view(s: Seq<Node>) -> Seq<NodeSpec>
    decreases s, 0int,
{
    if s.len() == 0 {
        Seq::empty()
    } else {
        seq![node_view(s[0])] + nodes_view(s.drop_first())
    }
}

impl View for Node {
    type V = NodeSpec;

    open spec fn view(&self) -> NodeSpec {
        node_view(*self)
    }
}

proof fn lemma_nodes_view_push(s: Seq<Node>, x: Node)
    ensures
        nodes_view(s.push(x)) == nodes_view(s).push(node_view(x)),
    decreases s.len(),
{
    if s.len() == 0 {
        assert(s.push(x).len() == 1);
        assert(s.push(x)[0] == x);
        assert(s.push(x).drop_first() =~= Seq::<Node>::empty());
        assert(nodes_view(Seq::<Node>::empty()) == Seq::<NodeSpec>::empty());
        assert(nodes_view(s.push(x)) == seq![node_view(x)] + Seq::<NodeSpec>::empty());
        assert(seq![node_view(x)] + Seq::<NodeSpec>::empty() =~= Seq::<
            NodeSpec,
        >::empty().push(node_view(x)));
    } else {
        assert(s.push(x).drop_first() =~= s.drop_first().push(x));
        lemma_nodes_view_push(s.drop_first(), x);
        assert(s.push(x)[0] == s[0]);
        assert(seq![node_view(s[0])] + nodes_view(s.drop_first()).push(node_view(x)) =~= (seq![
            node_view(s[0]),
        ] + nodes_view(s.drop_first())).push(node_view(x)));
    }
}

// ---------------------------------------------------------------------------
// The spec-level tree builder.
// ---------------------------------------------------------------------------

/// Reading one node at token position `i`: an opening tag collects children
/// up to its closing tag; closing, self-closing and text tokens are leaves;
/// comments are skipped; running out of tokens is the end-of-input error.
pub open spec fn spec_read_child(toks: Seq<TokenSpec>, i: int) -> Result<
    (NodeSpec, int),
    LexErrSpec,
>
    decreases toks.len() - i, 0int,
{
    if i < 0 || i >= toks.len() {
        Err(LexErrSpec::End)
    } else {
        let t = toks[i];
        match t.kind {
            TokenKindSpec::OpenTag(_) => match spec_read_children(toks, i + 1) {
                Ok((kids, j)) => Ok(
                    (NodeSpec { token: t, children: Option::Some(kids) }, j),
                ),
                Err(e) => Err(e),
            },
            TokenKindSpec::Comment(_) => spec_read_child(toks, i + 1),
            TokenKindSpec::Attribute(_, _) => Err(LexErrSpec::End),
            _ => Ok((NodeSpec { token: t, children: Option::None }, i + 1)),
        }
    }
}

/// Collecting the children of an opening tag, starting at `i`: a closing tag
/// (or the end of the token list) terminates the element, comments are
/// consumed without adding a child, and every other token starts a child.
pub open spec fn spec_read_children(toks: Seq<TokenSpec>, i: int) -> Result<
    (Seq<NodeSpec>, int),
    LexErrSpec,
>
    decreases toks.len() - i, 1int,
{
    if i < 0 || i >= toks.len() {
        Ok((Seq::empty(), i))
    } else {
        match toks[i].kind {
            TokenKindSpec::CloseTag(_) => Ok((Seq::empty(), i + 1)),
            TokenKindSpec::Comment(_) => spec_read_children(toks, i + 1),
            _ => match spec_read_child(toks, i) {
                Ok((n, j)) => {
                    let jn = if i < j && j <= toks.len() {
                        j
                    } else {
                        i + 1
                    };
                    match spec_read_children(toks, jn) {
                        Ok((rest, k)) => Ok((seq![n] + rest, k)),
                        Err(e) => Err(e),
                    }
                },
                Err(e) => Err(e),
            },
        }
    }
}

/// Prepends already-built children to the outcome of the rest of a child
/// collection.
pub open spec fn spec_prepend_children(
    done: Seq<NodeSpec>,
    r: Result<(Seq<NodeSpec>, int), LexErrSpec>,
) -> Result<(Seq<NodeSpec>, int), LexErrSpec> {
    match r {
        Ok((ns, j)) => Ok((done + ns, j)),
        Err(e) => Err(e),
    }
}

/// The whole run of `parse_all` over a parser state: tokenize the source
/// text, then build exactly one root node from the token cursor on.
pub open spec fn spec_parse_tokens(
    code: Seq<char>,
    l: LocSpec,
    toks0: Seq<TokenSpec>,
    i0: int,
) -> Result<NodeSpec, LexErrSpec> {
    match spec_tokenize_all(code, l) {
        Err(e) => Err(e),
        Ok(ts) => match spec_read_child(toks0 + ts, i0) {
            Ok((n, j)) => Ok(n),
            Err(e) => Err(e),
        },
    }
}

/// The tree built from a whole source text by a fresh parser.
pub open spec fn spec_parse_source(code: Seq<char>) -> Result<NodeSpec, LexErrSpec> {
    spec_parse_tokens(code, spec_loc_start(), Seq::empty(), 0)
}

// ---------------------------------------------------------------------------
// The executable tree builder.
// ---------------------------------------------------------------------------

/// The tree builder: owns the lexer and reads its token list through the
/// lexer's cursor.
#[derive(Debug, PartialEq)]
pub struct Parser {
    pub lexer: Lexer,
}

impl Parser {
    /// Well-formedness: the lexer is well-formed and the token cursor is
    /// inside the token list.
    pub open spec fn wf(&self) -> bool {
        &&& self.lexer.wf()
        &&& self.lexer.index <= self.lexer.tokens@.len()
    }

    /// A fresh tree builder over `code`. The bound on the text length
    /// keeps the tokenizer's position arithmetic inside `usize`.
    pub fn new(code: &str) -> (r: Parser)
        requires
            code@.len() + 2 <= usize::MAX,
        ensures
            r.wf(),
            r.lexer.code@ == code@,
            r.lexer.loc@ == spec_loc_start(),
            r.lexer.tokens@ == Seq::<Token>::empty(),
            r.lexer.index == 0,
    {
        Parser { lexer: Lexer::new(String::from_str(code)) }
    }

    /// Hands out the next token of the token list and advances the cursor.
    pub fn read_token(&mut self) -> (r: Result<Token, LexerError>)
        requires
            old(self).wf(),
        ensures
            final(self).wf(),
            final(self).lexer.code == old(self).lexer.code,
            final(self).lexer.loc == old(self).lexer.loc,
            final(self).lexer.tokens == old(self).lexer.tokens,
            match r {
                Ok(t) => old(self).lexer.index < old(self).lexer.tokens@.len() && t@
                    == vec_tokens_view(old(self).lexer.tokens@)[old(self).lexer.index as int]
                    && final(self).lexer.index == old(self).lexer.index + 1,
                Err(e) => old(self).lexer.index >= old(self).lexer.tokens@.len() && e
                    == LexerError::END && *final(self) == *old(self),
            },
    {
        if self.lexer.index < self.lexer.tokens.len() {
            let index = self.lexer.index;
            self.lexer.index = index + 1;
            Ok(clone_token(&self.lexer.tokens[index]))
        } else {
            Err(LexerError::END)
        }
    }

    /// Hands out the token `index` places after the cursor, without moving
    /// the cursor.
    pub fn peek_token(&mut self, index: usize) -> (r: Result<Token, LexerError>)
        requires
            old(self).wf(),
        ensures
            *final(self) == *old(self),
            match r {
                Ok(t) => old(self).lexer.index + index < old(self).lexer.tokens@.len() && t@
                    == vec_tokens_view(old(self).lexer.tokens@)[old(self).lexer.index + index],
                Err(e) => old(self).lexer.index + index >= old(self).lexer.tokens@.len() && e
                    == LexerError::END,
            },
    {
        if index < self.lexer.tokens.len() - self.lexer.index {
            Ok(clone_token(&self.lexer.tokens[self.lexer.index + index]))
        } else {
            Err(LexerError::END)
        }
    }

    /// Reads one node: an opening tag collects children up to its matching
    /// closing tag (comments between children are discarded); closing,
    /// self-closing and text tokens come back as leaves; a top-level comment
    /// is skipped.
    #[verifier::loop_isolation(false)]
    pub fn read_child(&mut self) -> (r: Result<Node, LexerError>)
        requires
            old(self).wf(),
        ensures
            final(self).wf(),
            final(self).lexer.code == old(self).lexer.code,
            final(self).lexer.loc == old(self).lexer.loc,
            final(self).lexer.tokens == old(self).lexer.tokens,
            final(self).lexer.index >= old(self).lexer.index,
            match spec_read_child(
                vec_tokens_view(old(self).lexer.tokens@),
                old(self).lexer.index as int,
            ) {
                Ok((n, j)) => match r {
                    Ok(node) => node@ == n && final(self).lexer.index == j
                        && final(self).lexer.index > old(self).lexer.index,
                    Err(_) => false,
                },
                Err(e) => match r {
                    Err(err) => err@ == e,
                    Ok(_) => false,
                },
            },
        decreases old(self).lexer.tokens@.len() - old(self).lexer.index,
    {
        let ghost toksv = vec_tokens_view(self.lexer.tokens@);
        let ghost i0 = self.lexer.index as int;
        let current = match self.read_token() {
            Ok(t) => t,
            Err(e) => {
                return Err(e);
            },
        };
        match &current.kind {
            crate::lexer::TokenKind::OpenTag(_) => {
                let mut children: Vec<Node> = Vec::new();
                let ghost mut jcur: int = i0 + 1;
                let mut done: bool = false;
                proof {
                    match spec_read_children(toksv, jcur) {
                        Ok((ns, j)) => {
                            assert(Seq::<NodeSpec>::empty() + ns =~= ns);
                        },
                        Err(_) => {},
                    }
                }
                while !done
                    invariant
                        self.wf(),
                        self.lexer.code == old(self).lexer.code,
                        self.lexer.loc == old(self).lexer.loc,
                        self.lexer.tokens == old(self).lexer.tokens,
                        i0 + 1 <= self.lexer.index,
                        !done ==> jcur == self.lexer.index as int,
                        jcur >= i0 + 1,
                        spec_read_children(toksv, i0 + 1) == spec_prepend_children(
                            nodes_view(children@),
                            spec_read_children(toksv, jcur),
                        ),
                        done ==> spec_read_children(toksv, jcur) == Ok::<
                            (Seq<NodeSpec>, int),
                            LexErrSpec,
                        >((Seq::empty(), self.lexer.index as int)),
                    decreases toksv.len() - jcur + (if done {
                        0int
                    } else {
                        1int
                    }),
                {
                    let ghost donev = nodes_view(children@);
                    match self.peek_token(0) {
                        Err(_) => {
                            proof {
                                assert(jcur >= toksv.len());
                            }
                            done = true;
                        },
                        Ok(n) => {
                            match &n.kind {
                                crate::lexer::TokenKind::CloseTag(_) => {
                                    let consumed = self.read_token();
                                    proof {
                                        assert(consumed is Ok);
                                    }
                                    done = true;
                                },
                                crate::lexer::TokenKind::Comment(_) => {
                                    let consumed = self.read_token();
                                    proof {
                                        assert(consumed is Ok);
                                        assert(spec_read_children(toksv, jcur)
                                            == spec_read_children(toksv, jcur + 1));
                                        jcur = jcur + 1;
                                    }
                                },
                                _ => {
                                    let node = match self.read_child() {
                                        Ok(nd) => nd,
                                        Err(e) => {
                                            return Err(e);
                                        },
                                    };
                                    proof {
                                        let rest = spec_read_children(
                                            toksv,
                                            self.lexer.index as int,
                                        );
                                        lemma_nodes_view_push(children@, node);
                                        match rest {
                                            Ok((ns, j2)) => {
                                                assert(donev + (seq![node_view(node)] + ns)
                                                    =~= donev.push(node_view(node)) + ns);
                                            },
                                            Err(_) => {},
                                        }
                                        jcur = self.lexer.index as int;
                                    }
                                    children.push(node);
                                },
                            }
                        },
                    }
                }
                proof {
                    match spec_read_children(toksv, i0 + 1) {
                        Ok((ns, j)) => {
                            assert(nodes_view(children@) + Seq::<NodeSpec>::empty()
                                =~= nodes_view(children@));
                        },
                        Err(_) => {
                            assert(false);
                        },
                    }
                }
                Ok(Node { token: current, children: Option::Some(children) })
            },
            crate::lexer::TokenKind::Comment(_) => self.read_child(),
            crate::lexer::TokenKind::Attribute(_, _) => Err(LexerError::END),
            _ => Ok(Node { token: current, children: Option::None }),
        }
    }

    /// Reads one node; the tree builder's entry point for a single node.
    pub fn read_node(&mut self) -> (r: Result<Node, LexerError>)
        requires
            old(self).wf(),
        ensures
            final(self).wf(),
            final(self).lexer.code == old(self).lexer.code,
            final(self).lexer.loc == old(self).lexer.loc,
            final(self).lexer.tokens == old(self).lexer.tokens,
            match spec_read_child(
                vec_tokens_view(old(self).lexer.tokens@),
                old(self).lexer.index as int,
            ) {
                Ok((n, j)) => match r {
                    Ok(node) => node@ == n && final(self).lexer.index == j,
                    Err(_) => false,
                },
                Err(e) => match r {
                    Err(err) => err@ == e,
                    Ok(_) => false,
                },
            },
    {
        self.read_child()
    }

    /// Tokenizes the whole source text, then builds exactly one root node:
    /// tokens after the root's matching closing tag are not revisited.
    pub fn parse_all(&mut self) -> (r: Result<Node, LexerError>)
        requires
            old(self).wf(),
        ensures
            final(self).wf(),
            match spec_parse_tokens(
                old(self).lexer.code@,
                old(self).lexer.loc@,
                vec_tokens_view(old(self).lexer.tokens@),
                old(self).lexer.index as int,
            ) {
                Ok(n) => match r {
                    Ok(node) => node@ == n,
                    Err(_) => false,
                },
                Err(e) => match r {
                    Err(err) => err@ == e,
                    Ok(_) => false,
                },
            },
    {
        match self.lexer.tokenize_all() {
            Err(e) => {
                return Err(e);
            },
            Ok(()) => {},
        }
        self.read_node()
    }
}

} // verus!
