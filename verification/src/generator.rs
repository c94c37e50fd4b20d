//! The code generator: walks the tree depth-first, rewrites attributes
//! (extracting control-flow directives into a per-element ordered queue),
//! and runs the persistent directive-resolution state machine to emit the
//! final expression string.
//!
//! The chain-state stack lives for the whole generation pass: it is never
//! re-scoped per sibling group, so malformed directive sequences in one
//! subtree can influence resolution in a later one — a documented carry-over
//! behavior of this transform.

use vstd::prelude::*;
use crate::lexer::{token_leaf_view, Token, TokenKind, TokenKindSpec, TokenSpec};
use crate::parser::{node_view, nodes_view, Node, NodeSpec};
use crate::utils::{
    append_chars, camel_case, chars_to_string, first_upper, parse_expression,
    parse_expression_text, push_str, spec_camel_case, spec_first_upper, spec_parse_expression,
    spec_parse_expression_text, spec_wried_prop, vec_eq_str, wried_prop,
};

verus! {

broadcast use vstd::std_specs::vec::group_vec_axioms;

/// A tag of the conditional chain stack.
#[derive(Clone, Copy, PartialEq, Eq, Structural, Debug)]
pub enum ChainTag {
    If,
    ElseIf,
    Else,
}

/// The classification of a rewritten attribute name.
#[derive(Clone, Copy, PartialEq, Eq, Structural, Debug)]
pub enum DirectiveKind {
    /// The `wx:key` directive: emitted inline as a plain `key` attribute.
    KeyDirective,
    /// The `wx:if` directive.
    ConditionalIf,
    /// The `wx:elseif` directive.
    ConditionalElseIf,
    /// The `wx:else` directive.
    ConditionalElse,
    /// The `wx:for` directive; queued at the front, resolved last.
    LoopFor,
    /// Any other attribute: emitted inline.
    PlainAttribute,
}

/// Classifies a rewritten attribute name.
pub open spec fn spec_classify(p: Seq<char>) -> DirectiveKind {
    if p == "wx:key"@ {
        DirectiveKind::KeyDirective
    } else if p == "wx:if"@ {
        DirectiveKind::ConditionalIf
    } else if p == "wx:elseif"@ {
        DirectiveKind::ConditionalElseIf
    } else if p == "wx:else"@ {
        DirectiveKind::ConditionalElse
    } else if p == "wx:for"@ {
        DirectiveKind::LoopFor
    } else {
        DirectiveKind::PlainAttribute
    }
}

fn classify(p: &Vec<char>) -> (k: DirectiveKind)
    ensures
        k == spec_classify(p@),
{
    if vec_eq_str(p, "wx:key") {
        DirectiveKind::KeyDirective
    } else if vec_eq_str(p, "wx:if") {
        DirectiveKind::ConditionalIf
    } else if vec_eq_str(p, "wx:elseif") {
        DirectiveKind::ConditionalElseIf
    } else if vec_eq_str(p, "wx:else") {
        DirectiveKind::ConditionalElse
    } else if vec_eq_str(p, "wx:for") {
        DirectiveKind::LoopFor
    } else {
        DirectiveKind::PlainAttribute
    }
}

/// The views of a directive queue.
pub open spec fn directs_view(s: Seq<(DirectiveKind, Vec<char>)>) -> Seq<
    (DirectiveKind, Seq<char>),
> {
    Seq::new(s.len(), |i: int| (s[i].0, s[i].1@))
}

// ---------------------------------------------------------------------------
// Attribute handling.
// ---------------------------------------------------------------------------

/// What one attribute does: `wx:key` and plain attributes extend the opening
/// code inline; conditionals are appended to the back of the directive
/// queue; `wx:for` is inserted at its front (so it resolves last).
pub open spec fn spec_handle_attribute(
    name: Seq<char>,
    value: Seq<char>,
    code: Seq<char>,
    ds: Seq<(DirectiveKind, Seq<char>)>,
) -> (Seq<char>, Seq<(DirectiveKind, Seq<char>)>) {
    let prop = spec_wried_prop(name);
    let expr = spec_parse_expression(value);
    let k = spec_classify(prop);
    match k {
        DirectiveKind::KeyDirective => (code + " key=\""@ + expr + "\""@, ds),
        DirectiveKind::ConditionalIf => (code, ds.push((k, expr))),
        DirectiveKind::ConditionalElseIf => (code, ds.push((k, expr))),
        DirectiveKind::ConditionalElse => (code, ds.push((k, expr))),
        DirectiveKind::LoopFor => (code, seq![(k, expr)] + ds),
        DirectiveKind::PlainAttribute => (code + " "@ + prop + "=\""@ + expr + "\""@, ds),
    }
}

/// Handles one attribute of an element: rewrites its name, strips the
/// interpolation delimiters of its value, and either extends the opening
/// code or queues a control-flow directive.
pub fn handle_attribute(
    name: &Vec<char>,
    value: &Vec<char>,
    code: Vec<char>,
    directs: &mut Vec<(DirectiveKind, Vec<char>)>,
) -> (r: Vec<char>)
    ensures
        ({
            let step = spec_handle_attribute(name@, value@, code@, directs_view(old(directs)@));
            r@ == step.0 && directs_view(final(directs)@) == step.1
        }),
{
    let ghost ds0 = directs_view(directs@);
    let prop = wried_prop(name);
    let expression = parse_expression(value);
    let k = classify(&prop);
    match k {
        DirectiveKind::KeyDirective => {
            let mut out = code;
            push_str(&mut out, " key=\"");
            append_chars(&mut out, &expression);
            push_str(&mut out, "\"");
            out
        },
        DirectiveKind::ConditionalIf | DirectiveKind::ConditionalElseIf
            | DirectiveKind::ConditionalElse => {
            directs.push((k, expression));
            proof {
                assert(directs_view(directs@) =~= ds0.push((k, expression@)));
            }
            code
        },
        DirectiveKind::LoopFor => {
            directs.insert(0, (k, expression));
            proof {
                assert(directs_view(directs@) =~= seq![(k, expression@)] + ds0);
            }
            code
        },
        DirectiveKind::PlainAttribute => {
            let mut out = code;
            push_str(&mut out, " ");
            append_chars(&mut out, &prop);
            push_str(&mut out, "=\"");
            append_chars(&mut out, &expression);
            push_str(&mut out, "\"");
            out
        },
    }
}

/// Folds `spec_handle_attribute` over an element's attribute tokens, in
/// order; non-attribute tokens in the list are skipped.
pub open spec fn spec_handle_attrs(
    ats: Seq<TokenSpec>,
    code: Seq<char>,
    ds: Seq<(DirectiveKind, Seq<char>)>,
) -> (Seq<char>, Seq<(DirectiveKind, Seq<char>)>)
    decreases ats.len(),
{
    if ats.len() == 0 {
        (code, ds)
    } else {
        let step = match ats[0].kind {
            TokenKindSpec::Attribute(n, v) => spec_handle_attribute(n, v, code, ds),
            _ => (code, ds),
        };
        spec_handle_attrs(ats.drop_first(), step.0, step.1)
    }
}

/// Runs the attribute handler over an element's attribute list.
#[verifier::loop_isolation(false)]
fn apply_attrs(code: Vec<char>, ats: &Vec<Token>, directs: &mut Vec<(DirectiveKind, Vec<char>)>) -> (r:
    Vec<char>)
    ensures
        ({
            let atsv = Seq::new(ats@.len(), |i: int| token_leaf_view(ats@[i]));
            let step = spec_handle_attrs(atsv, code@, directs_view(old(directs)@));
            r@ == step.0 && directs_view(final(directs)@) == step.1
        }),
{
    let ghost atsv = Seq::new(ats@.len(), |i: int| token_leaf_view(ats@[i]));
    let ghost target = spec_handle_attrs(atsv, code@, directs_view(directs@));
    let mut out = code;
    let mut j: usize = 0;
    proof {
        assert(atsv.skip(0) =~= atsv);
    }
    while j < ats.len()
        invariant
            0 <= j <= ats@.len(),
            spec_handle_attrs(atsv.skip(j as int), out@, directs_view(directs@)) == target,
        decreases ats@.len() - j,
    {
        let ghost pre = atsv.skip(j as int);
        proof {
            assert(pre[0] == atsv[j as int]);
            assert(pre.skip(1) =~= atsv.skip(j + 1));
            assert(pre.drop_first() =~= atsv.skip(j + 1));
        }
        match &ats[j].kind {
            TokenKind::Attribute(n, v) => {
                out = handle_attribute(n, v, out, directs);
            },
            _ => {},
        }
        j = j + 1;
    }
    proof {
        assert(atsv.skip(atsv.len() as int) =~= Seq::<TokenSpec>::empty());
    }
    out
}

// ---------------------------------------------------------------------------
// The directive-resolution state machine.
// ---------------------------------------------------------------------------

/// The top of the chain stack, if any.
pub open spec fn spec_chain_top(conds: Seq<ChainTag>) -> Option<ChainTag> {
    if conds.len() == 0 {
        Option::None
    } else {
        Option::Some(conds.last())
    }
}

/// One step of the state machine. `d` is the chain top as it was when the
/// element's queue started resolving (it is not refreshed between steps).
/// An `if` opens a ternary; an `elseif` or `else` extends it only when the
/// chain top allows it, and otherwise passes the code through unchanged; a
/// `for` wraps the code in a mapping expression inside a fragment.
pub open spec fn spec_resolve_direct(
    k: DirectiveKind,
    expr: Seq<char>,
    code: Seq<char>,
    d: Option<ChainTag>,
    conds: Seq<ChainTag>,
) -> (Seq<char>, Seq<ChainTag>) {
    match k {
        DirectiveKind::ConditionalIf => {
            let wrapped = "{"@ + expr + "?"@ + code + ":"@;
            if d is None || d == Option::Some(ChainTag::Else) {
                (wrapped, conds.push(ChainTag::If))
            } else {
                (wrapped, conds)
            }
        },
        DirectiveKind::ConditionalElseIf => {
            if d == Option::Some(ChainTag::If) {
                (expr + "?"@ + code + ":"@, conds.push(ChainTag::ElseIf))
            } else {
                (code, conds)
            }
        },
        DirectiveKind::ConditionalElse => {
            if d == Option::Some(ChainTag::If) || d == Option::Some(ChainTag::ElseIf) {
                (expr + "?"@ + code + ":null}"@, conds.push(ChainTag::Else))
            } else {
                (code, conds)
            }
        },
        DirectiveKind::LoopFor => ("<>{"@ + expr + ".map((item)=>"@ + code + ")}</>"@, conds),
        _ => (code, conds),
    }
}

/// Resolves a queue of directives in order, against a fixed chain top `d`.
pub open spec fn spec_apply_directs(
    ds: Seq<(DirectiveKind, Seq<char>)>,
    code: Seq<char>,
    d: Option<ChainTag>,
    conds: Seq<ChainTag>,
) -> (Seq<char>, Seq<ChainTag>)
    decreases ds.len(),
{
    if ds.len() == 0 {
        (code, conds)
    } else {
        let step = spec_resolve_direct(ds[0].0, ds[0].1, code, d, conds);
        spec_apply_directs(ds.drop_first(), step.0, d, step.1)
    }
}

/// Resolves an element's directive queue: the chain top is sampled once; a
/// `for` directive standing at the front of the queue is dequeued last, so
/// the conditional directives resolve first and the loop wraps their
/// result.
pub open spec fn spec_generate_directs(
    ds: Seq<(DirectiveKind, Seq<char>)>,
    code: Seq<char>,
    conds: Seq<ChainTag>,
) -> (Seq<char>, Seq<ChainTag>) {
    let d = spec_chain_top(conds);
    let order = if ds.len() > 0 && ds[0].0 == DirectiveKind::LoopFor {
        ds.drop_first().push(ds[0])
    } else {
        ds
    };
    spec_apply_directs(order, code, d, conds)
}

/// Resolves an element's directive queue against the chain stack.
#[verifier::loop_isolation(false)]
fn apply_directs(
    conditions: &mut Vec<ChainTag>,
    directs: Vec<(DirectiveKind, Vec<char>)>,
    code: Vec<char>,
) -> (r: Vec<char>)
    ensures
        ({
            let res = spec_generate_directs(directs_view(directs@), code@, old(conditions)@);
            r@ == res.0 && final(conditions)@ == res.1
        }),
{
    let ghost ds0 = directs_view(directs@);
    let ghost conds0 = conditions@;
    let d: Option<ChainTag> = if conditions.len() == 0 {
        Option::None
    } else {
        Option::Some(conditions[conditions.len() - 1])
    };
    proof {
        assert(d == spec_chain_top(conds0));
    }
    let mut ds = directs;
    let mut for_front: bool = false;
    if ds.len() > 0 {
        match ds[0].0 {
            DirectiveKind::LoopFor => {
                for_front = true;
            },
            _ => {},
        }
    }
    if for_front {
        let f = ds.remove(0);
        ds.push(f);
        proof {
            assert(directs_view(ds@) =~= ds0.drop_first().push(ds0[0]));
        }
    }
    let ghost orderv = directs_view(ds@);
    proof {
        assert(spec_generate_directs(ds0, code@, conds0) == spec_apply_directs(
            orderv,
            code@,
            d,
            conds0,
        ));
        assert(orderv.skip(0) =~= orderv);
    }
    let ghost target = spec_apply_directs(orderv, code@, d, conds0);
    let mut codev = code;
    let mut i: usize = 0;
    while i < ds.len()
        invariant
            0 <= i <= ds@.len(),
            orderv == directs_view(ds@),
            spec_apply_directs(orderv.skip(i as int), codev@, d, conditions@) == target,
        decreases ds@.len() - i,
    {
        let ghost pre = orderv.skip(i as int);
        proof {
            assert(pre[0] == orderv[i as int]);
            assert(pre.drop_first() =~= orderv.skip(i + 1));
        }
        let kind = ds[i].0;
        match kind {
            DirectiveKind::ConditionalIf => {
                let push_tag: bool = match d {
                    Option::None => true,
                    Option::Some(ChainTag::Else) => true,
                    _ => false,
                };
                if push_tag {
                    conditions.push(ChainTag::If);
                }
                let mut nc: Vec<char> = Vec::new();
                push_str(&mut nc, "{");
                append_chars(&mut nc, &ds[i].1);
                push_str(&mut nc, "?");
                append_chars(&mut nc, &codev);
                push_str(&mut nc, ":");
                proof {
                    assert(Seq::<char>::empty() + "{"@ =~= "{"@);
                }
                codev = nc;
            },
            DirectiveKind::ConditionalElseIf => {
                let chain_ok: bool = match d {
                    Option::Some(ChainTag::If) => true,
                    _ => false,
                };
                if chain_ok {
                    conditions.push(ChainTag::ElseIf);
                    let mut nc: Vec<char> = Vec::new();
                    append_chars(&mut nc, &ds[i].1);
                    push_str(&mut nc, "?");
                    append_chars(&mut nc, &codev);
                    push_str(&mut nc, ":");
                    proof {
                        assert(Seq::<char>::empty() + ds[i as int].1@ =~= ds[i as int].1@);
                    }
                    codev = nc;
                }
            },
            DirectiveKind::ConditionalElse => {
                let chain_ok: bool = match d {
                    Option::Some(ChainTag::If) => true,
                    Option::Some(ChainTag::ElseIf) => true,
                    _ => false,
                };
                if chain_ok {
                    conditions.push(ChainTag::Else);
                    let mut nc: Vec<char> = Vec::new();
                    append_chars(&mut nc, &ds[i].1);
                    push_str(&mut nc, "?");
                    append_chars(&mut nc, &codev);
                    push_str(&mut nc, ":null}");
                    proof {
                        assert(Seq::<char>::empty() + ds[i as int].1@ =~= ds[i as int].1@);
                    }
                    codev = nc;
                }
            },
            DirectiveKind::LoopFor => {
                let mut nc: Vec<char> = Vec::new();
                push_str(&mut nc, "<>{");
                append_chars(&mut nc, &ds[i].1);
                push_str(&mut nc, ".map((item)=>");
                append_chars(&mut nc, &codev);
                push_str(&mut nc, ")}</>");
                proof {
                    assert(Seq::<char>::empty() + "<>{"@ =~= "<>{"@);
                }
                codev = nc;
            },
            _ => {},
        }
        i = i + 1;
    }
    proof {
        assert(orderv.skip(orderv.len() as int) =~= Seq::<(DirectiveKind, Seq<char>)>::empty());
    }
    codev
}

proof fn lemma_apply_directs_push(
    xs: Seq<(DirectiveKind, Seq<char>)>,
    y: (DirectiveKind, Seq<char>),
    code: Seq<char>,
    d: Option<ChainTag>,
    conds: Seq<ChainTag>,
)
    ensures
        ({
            let mid = spec_apply_directs(xs, code, d, conds);
            spec_apply_directs(xs.push(y), code, d, conds) == spec_resolve_direct(
                y.0,
                y.1,
                mid.0,
                d,
                mid.1,
            )
        }),
    decreases xs.len(),
{
    if xs.len() == 0 {
        assert(xs.push(y)[0] == y);
        assert(xs.push(y).drop_first() =~= Seq::<(DirectiveKind, Seq<char>)>::empty());
        assert(spec_apply_directs(xs, code, d, conds) == (code, conds));
        let step = spec_resolve_direct(y.0, y.1, code, d, conds);
        assert(spec_apply_directs(Seq::<(DirectiveKind, Seq<char>)>::empty(), step.0, d, step.1)
            == (step.0, step.1));
    } else {
        assert(xs.push(y)[0] == xs[0]);
        assert(xs.push(y).drop_first() =~= xs.drop_first().push(y));
        let step = spec_resolve_direct(xs[0].0, xs[0].1, code, d, conds);
        lemma_apply_directs_push(xs.drop_first(), y, step.0, d, step.1);
    }
}

/// Conditional/loop ordering: when an element's queue holds a loop
/// directive at its front together with further directives, the other
/// directives resolve first (against the chain top sampled at entry), and
/// the loop then wraps their result in a mapping expression inside a
/// fragment.
pub proof fn lemma_loop_wraps_conditionals(
    ds: Seq<(DirectiveKind, Seq<char>)>,
    code: Seq<char>,
    conds: Seq<ChainTag>,
)
    requires
        ds.len() >= 2,
        ds[0].0 == DirectiveKind::LoopFor,
    ensures
        ({
            let d = spec_chain_top(conds);
            let inner = spec_apply_directs(ds.drop_first(), code, d, conds);
            spec_generate_directs(ds, code, conds) == (
                "<>{"@ + ds[0].1 + ".map((item)=>"@ + inner.0 + ")}</>"@,
                inner.1,
            )
        }),
{
    let d = spec_chain_top(conds);
    lemma_apply_directs_push(ds.drop_first(), ds[0], code, d, conds);
}

/// Malformed chain degradation: an `elseif` directive met while the chain
/// top is not `If` leaves the element's code unchanged — no ternary is
/// opened — and the chain stack untouched.
pub proof fn lemma_elseif_without_if(expr: Seq<char>, code: Seq<char>, conds: Seq<ChainTag>)
    requires
        spec_chain_top(conds) != Option::Some(ChainTag::If),
    ensures
        spec_generate_directs(seq![(DirectiveKind::ConditionalElseIf, expr)], code, conds) == (
            code,
            conds,
        ),
{
    let ds = seq![(DirectiveKind::ConditionalElseIf, expr)];
    assert(ds.drop_first() =~= Seq::<(DirectiveKind, Seq<char>)>::empty());
    assert(spec_resolve_direct(DirectiveKind::ConditionalElseIf, expr, code, spec_chain_top(conds), conds)
        == (code, conds));
    assert(spec_apply_directs(Seq::<(DirectiveKind, Seq<char>)>::empty(), code, spec_chain_top(conds), conds)
        == (code, conds));
}

// ---------------------------------------------------------------------------
// The tree walk.
// ---------------------------------------------------------------------------

/// The code an element generates, and the chain stack it leaves behind. An
/// opening tag camel-cases its name, runs its attributes, concatenates its
/// children's code and wraps everything in the component tags; a
/// self-closing tag only upper-cases the first letter of its name (the
/// casing asymmetry of this transform); a text node contributes its
/// normalized interpolation text; everything else contributes nothing. The
/// element's directive queue is then resolved against the chain stack.
pub open spec fn spec_generate_node(n: NodeSpec, conds: Seq<ChainTag>) -> (Seq<char>, Seq<
    ChainTag,
>)
    decreases n, 0int,
{
    match n.token.kind {
        TokenKindSpec::OpenTag(name) => {
            let tag = spec_camel_case(name);
            let ats = match n.token.attributes {
                Option::Some(a) => a,
                Option::None => Seq::empty(),
            };
            let step = spec_handle_attrs(ats, "<"@ + tag, Seq::empty());
            let kidsres = match n.children {
                Option::Some(kids) => spec_generate_children(kids, 0, conds),
                Option::None => (Seq::<char>::empty(), conds),
            };
            let inner = step.0 + ">"@ + kidsres.0 + "</"@ + tag + ">"@;
            spec_generate_directs(step.1, inner, kidsres.1)
        },
        TokenKindSpec::SelfCloseTag(name) => {
            let tag = spec_first_upper(name);
            let ats = match n.token.attributes {
                Option::Some(a) => a,
                Option::None => Seq::empty(),
            };
            let step = spec_handle_attrs(ats, "<"@ + tag, Seq::empty());
            spec_generate_directs(step.1, step.0 + "/>"@, conds)
        },
        TokenKindSpec::Text(t) => spec_generate_directs(
            Seq::empty(),
            spec_parse_expression_text(t),
            conds,
        ),
        _ => spec_generate_directs(Seq::empty(), Seq::empty(), conds),
    }
}

/// The concatenated code of a sequence of siblings from `i` on, threading
/// the chain stack left to right.
pub open spec fn spec_generate_children(
    kids: Seq<NodeSpec>,
    i: int,
    conds: Seq<ChainTag>,
) -> (Seq<char>, Seq<ChainTag>)
    decreases kids, kids.len() - i,
{
    if i < 0 || i >= kids.len() {
        (Seq::empty(), conds)
    } else {
        let first = spec_generate_node(kids[i], conds);
        let rest = spec_generate_children(kids, i + 1, first.1);
        (first.0 + rest.0, rest.1)
    }
}

proof fn lemma_nodes_view_len(s: Seq<Node>)
    ensures
        nodes_view(s).len() == s.len(),
    decreases s.len(),
{
    if s.len() != 0 {
        lemma_nodes_view_len(s.drop_first());
    }
}

proof fn lemma_nodes_view_index(s: Seq<Node>, j: int)
    requires
        0 <= j < s.len(),
    ensures
        nodes_view(s).len() == s.len(),
        nodes_view(s)[j] == node_view(s[j]),
    decreases s.len(),
{
    lemma_nodes_view_len(s);
    if j > 0 {
        lemma_nodes_view_index(s.drop_first(), j - 1);
    }
}

/// The recursive tree walk of the generator.
#[verifier::loop_isolation(false)]
fn gen_node_rec(conditions: &mut Vec<ChainTag>, node: &Node) -> (r: Vec<char>)
    ensures
        ({
            let res = spec_generate_node(node@, old(conditions)@);
            r@ == res.0 && final(conditions)@ == res.1
        }),
    decreases node,
{
    let ghost conds0 = conditions@;
    match &node.token.kind {
        TokenKind::OpenTag(name) => {
            let tag = camel_case(name);
            let mut code: Vec<char> = Vec::new();
            push_str(&mut code, "<");
            append_chars(&mut code, &tag);
            proof {
                assert(Seq::<char>::empty() + "<"@ =~= "<"@);
            }
            let mut directs: Vec<(DirectiveKind, Vec<char>)> = Vec::new();
            let code = match &node.token.attributes {
                Option::Some(ats) => {
                    let ghost atsv = match node@.token.attributes {
                        Option::Some(a) => a,
                        Option::None => Seq::empty(),
                    };
                    proof {
                        assert(atsv =~= Seq::new(
                            ats@.len(),
                            |i: int| token_leaf_view(ats@[i]),
                        ));
                        assert(directs_view(directs@) =~= Seq::<
                            (DirectiveKind, Seq<char>),
                        >::empty());
                    }
                    apply_attrs(code, ats, &mut directs)
                },
                Option::None => {
                    proof {
                        assert(directs_view(directs@) =~= Seq::<
                            (DirectiveKind, Seq<char>),
                        >::empty());
                    }
                    code
                },
            };
            let mut code = code;
            push_str(&mut code, ">");
            let mut childcode: Vec<char> = Vec::new();
            match &node.children {
                Option::Some(kids) => {
                    let ghost kidsv = nodes_view(kids@);
                    let ghost kfull = spec_generate_children(kidsv, 0, conditions@);
                    proof {
                        lemma_nodes_view_len(kids@);
                        assert(Seq::<char>::empty() + kfull.0 =~= kfull.0);
                    }
                    let mut j: usize = 0;
                    while j < kids.len()
                        invariant
                            0 <= j <= kids@.len(),
                            kidsv.len() == kids@.len(),
                            childcode@ + spec_generate_children(
                                kidsv,
                                j as int,
                                conditions@,
                            ).0 == kfull.0,
                            spec_generate_children(kidsv, j as int, conditions@).1 == kfull.1,
                        decreases kids@.len() - j,
                    {
                        proof {
                            lemma_nodes_view_index(kids@, j as int);
                        }
                        let ghost cpre = conditions@;
                        let c = gen_node_rec(conditions, &kids[j]);
                        proof {
                            let first = spec_generate_node(kidsv[j as int], cpre);
                            let rest = spec_generate_children(kidsv, j + 1, first.1);
                            assert(childcode@ + (first.0 + rest.0) =~= (childcode@ + first.0)
                                + rest.0);
                        }
                        append_chars(&mut childcode, &c);
                        j = j + 1;
                    }
                },
                Option::None => {},
            }
            proof {
                assert(childcode@ + Seq::<char>::empty() =~= childcode@);
            }
            append_chars(&mut code, &childcode);
            push_str(&mut code, "</");
            append_chars(&mut code, &tag);
            push_str(&mut code, ">");
            apply_directs(conditions, directs, code)
        },
        TokenKind::SelfCloseTag(name) => {
            let tag = first_upper(name);
            let mut code: Vec<char> = Vec::new();
            push_str(&mut code, "<");
            append_chars(&mut code, &tag);
            proof {
                assert(Seq::<char>::empty() + "<"@ =~= "<"@);
            }
            let mut directs: Vec<(DirectiveKind, Vec<char>)> = Vec::new();
            let code = match &node.token.attributes {
                Option::Some(ats) => {
                    let ghost atsv = match node@.token.attributes {
                        Option::Some(a) => a,
                        Option::None => Seq::empty(),
                    };
                    proof {
                        assert(atsv =~= Seq::new(
                            ats@.len(),
                            |i: int| token_leaf_view(ats@[i]),
                        ));
                        assert(directs_view(directs@) =~= Seq::<
                            (DirectiveKind, Seq<char>),
                        >::empty());
                    }
                    apply_attrs(code, ats, &mut directs)
                },
                Option::None => {
                    proof {
                        assert(directs_view(directs@) =~= Seq::<
                            (DirectiveKind, Seq<char>),
                        >::empty());
                    }
                    code
                },
            };
            let mut code = code;
            push_str(&mut code, "/>");
            apply_directs(conditions, directs, code)
        },
        TokenKind::Text(t) => {
            let e = parse_expression_text(t);
            let empty_q: Vec<(DirectiveKind, Vec<char>)> = Vec::new();
            proof {
                assert(directs_view(empty_q@) =~= Seq::<(DirectiveKind, Seq<char>)>::empty());
            }
            apply_directs(conditions, empty_q, e)
        },
        _ => {
            let empty_q: Vec<(DirectiveKind, Vec<char>)> = Vec::new();
            let empty_c: Vec<char> = Vec::new();
            proof {
                assert(directs_view(empty_q@) =~= Seq::<(DirectiveKind, Seq<char>)>::empty());
            }
            apply_directs(conditions, empty_q, empty_c)
        },
    }
}

// ---------------------------------------------------------------------------
// The generator.
// ---------------------------------------------------------------------------

/// The code generator: owns the tree and the chain-state stack of the whole
/// generation pass.
#[derive(Debug, PartialEq)]
pub struct Generator {
    pub ast: Node,
    pub conditions: Vec<ChainTag>,
}

impl Generator {
    pub fn new(ast: Node) -> (r: Generator)
        ensures
            r.ast == ast,
            r.conditions@ == Seq::<ChainTag>::empty(),
    {
        Generator { ast, conditions: Vec::new() }
    }

    /// Resolves one element's directive queue against the chain stack and
    /// returns the rewritten code.
    pub fn generate_directs(
        &mut self,
        directs: Vec<(DirectiveKind, Vec<char>)>,
        code: Vec<char>,
    ) -> (r: String)
        ensures
            ({
                let res = spec_generate_directs(
                    directs_view(directs@),
                    code@,
                    old(self).conditions@,
                );
                r@ == res.0 && final(self).conditions@ == res.1 && final(self).ast == old(
                    self,
                ).ast
            }),
    {
        let out = apply_directs(&mut self.conditions, directs, code);
        chars_to_string(&out)
    }

    /// Generates the code of one node (and its subtree), threading the
    /// persistent chain stack.
    pub fn generate_node(&mut self, node: Node) -> (r: String)
        ensures
            ({
                let res = spec_generate_node(node@, old(self).conditions@);
                r@ == res.0 && final(self).conditions@ == res.1 && final(self).ast == old(
                    self,
                ).ast
            }),
    {
        let out = gen_node_rec(&mut self.conditions, &node);
        chars_to_string(&out)
    }

    /// Generates the output code of the whole tree.
    pub fn generate_fre(&mut self) -> (r: String)
        ensures
            ({
                let res = spec_generate_node(old(self).ast@, old(self).conditions@);
                r@ == res.0 && final(self).conditions@ == res.1 && final(self).ast == old(
                    self,
                ).ast
            }),
    {
        let out = gen_node_rec(&mut self.conditions, &self.ast);
        chars_to_string(&out)
    }
}

} // verus!
