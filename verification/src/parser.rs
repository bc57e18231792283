//! The structural parser: consumes the token sequence and builds a tree
//! whose only structural node is the loop.
//!
//! An expression is a maximal run of leaf instructions and nested loops,
//! ending at a close bracket or at the end of the input. An open bracket
//! whose body runs to the end of the input is an unclosed-bracket fault,
//! attributed to the opening bracket itself; a close bracket met at the
//! top level is an extraneous-close fault, attributed to that bracket.
//! The parser stops on the first structural fault, so an error result
//! carries exactly one diagnostic.

use crate::lexer::{Token, TokenKind, TokenView};
use crate::{Location, LocationView};
use vstd::prelude::*;

verus! {

broadcast use vstd::std_specs::vec::group_vec_axioms, vstd::seq::group_seq_axioms;

/// One node of the program tree: the root, a loop, or a leaf instruction.
#[derive(Debug)]
pub enum Node {
    Root { children: Vec<Node> },
    Loop { loc: Location, children: Vec<Node> },
    Increment { loc: Location },
    Decrement { loc: Location },
    MoveRight { loc: Location },
    MoveLeft { loc: Location },
    Print { loc: Location },
    Read { loc: Location },
}

/// The mathematical value of a [`Node`].
#[verifier::ext_equal]
pub ghost enum NodeView {
    Root { children: Seq<NodeView> },
    Loop { loc: LocationView, children: Seq<NodeView> },
    Increment { loc: LocationView },
    Decrement { loc: LocationView },
    MoveRight { loc: LocationView },
    MoveLeft { loc: LocationView },
    Print { loc: LocationView },
    Read { loc: LocationView },
}

impl DeepView for Node {
    type V = NodeView;

    open spec fn deep_view(&self) -> NodeView
        decreases self,
    {
        match self {
            Node::Root { children } => NodeView::Root { children: deep_view_nodes(children@) },
            Node::Loop { loc, children } => NodeView::Loop {
                loc: loc@,
                children: deep_view_nodes(children@),
            },
            Node::Increment { loc } => NodeView::Increment { loc: loc@ },
            Node::Decrement { loc } => NodeView::Decrement { loc: loc@ },
            Node::MoveRight { loc } => NodeView::MoveRight { loc: loc@ },
            Node::MoveLeft { loc } => NodeView::MoveLeft { loc: loc@ },
            Node::Print { loc } => NodeView::Print { loc: loc@ },
            Node::Read { loc } => NodeView::Read { loc: loc@ },
        }
    }
}

/// The mathematical values of a sequence of nodes, element by element.
pub open spec fn deep_view_nodes(ns: Seq<Node>) -> Seq<NodeView>
    decreases ns,
{
    if ns.len() == 0 {
        Seq::empty()
    } else {
        deep_view_nodes(ns.drop_last()).push(ns.last().deep_view())
    }
}

/// [`deep_view_nodes`] views each element in place, so it agrees with the
/// deep view of a vector of nodes.
pub proof fn lemma_deep_view_nodes(ns: Seq<Node>)
    ensures
        deep_view_nodes(ns).len() == ns.len(),
        forall|i: int| 0 <= i < ns.len() ==> #[trigger] deep_view_nodes(ns)[i] == ns[i].deep_view(),
    decreases ns.len(),
{
    if ns.len() > 0 {
        lemma_deep_view_nodes(ns.drop_last());
        assert(deep_view_nodes(ns) == deep_view_nodes(ns.drop_last()).push(ns.last().deep_view()));
        assert forall|i: int| 0 <= i < ns.len() implies #[trigger] deep_view_nodes(ns)[i] == ns[i].deep_view() by {
            if i < ns.len() - 1 {
                assert(deep_view_nodes(ns)[i] == deep_view_nodes(ns.drop_last())[i]);
                assert(ns.drop_last()[i] == ns[i]);
            } else {
                assert(deep_view_nodes(ns)[i] == ns.last().deep_view());
            }
        }
    }
}

/// The deep view of a vector of nodes is [`deep_view_nodes`] of its
/// contents.
pub proof fn lemma_vec_deep_view_nodes(v: Vec<Node>)
    ensures
        v.deep_view() == deep_view_nodes(v@),
{
    lemma_deep_view_nodes(v@);
    assert(v.deep_view() =~= deep_view_nodes(v@));
}

/// A structural fault, attributed to the bracket that caused it.
#[derive(Debug)]
pub enum Error {
    UnclosedBracket(Location),
    ExtraneousClose(Location),
}

/// The mathematical value of a structural fault.
pub ghost enum ErrorView {
    UnclosedBracket(LocationView),
    ExtraneousClose(LocationView),
}

impl View for Error {
    type V = ErrorView;

    open spec fn view(&self) -> ErrorView {
        match self {
            Error::UnclosedBracket(l) => ErrorView::UnclosedBracket(l@),
            Error::ExtraneousClose(l) => ErrorView::ExtraneousClose(l@),
        }
    }
}

impl DeepView for Error {
    type V = ErrorView;

    open spec fn deep_view(&self) -> ErrorView {
        self.view()
    }
}

/// The tree leaf that a non-bracket token stands for.
pub open spec fn leaf_view(t: TokenView) -> NodeView {
    match t.kind {
        TokenKind::Increment => NodeView::Increment { loc: t.loc },
        TokenKind::Decrement => NodeView::Decrement { loc: t.loc },
        TokenKind::MoveRight => NodeView::MoveRight { loc: t.loc },
        TokenKind::MoveLeft => NodeView::MoveLeft { loc: t.loc },
        TokenKind::Print => NodeView::Print { loc: t.loc },
        TokenKind::Read => NodeView::Read { loc: t.loc },
        TokenKind::OpenBracket => arbitrary(),
        TokenKind::CloseBracket => arbitrary(),
    }
}

/// What parsing an expression at `pos` yields: the children parsed and the
/// position of the close bracket or end of input that stopped the run, or
/// the single structural fault that aborted it.
///
/// The position returned by the inner calls is clamped forward; the clamp
/// never moves an actual result (see [`lemma_parse_exp_bounds`]) and only
/// makes the recursion visibly well-founded.
pub open spec fn spec_parse_exp(toks: Seq<TokenView>, pos: int) -> Result<
    (Seq<NodeView>, int),
    ErrorView,
>
    decreases toks.len() - pos,
{
    if pos < 0 || pos >= toks.len() {
        Ok((Seq::empty(), toks.len() as int))
    } else {
        let t = toks[pos];
        match t.kind {
            TokenKind::CloseBracket => Ok((Seq::empty(), pos)),
            TokenKind::OpenBracket => match spec_parse_exp(toks, pos + 1) {
                Err(e) => Err(e),
                Ok((body, p)) => {
                    let q = if p < pos + 1 {
                        pos + 1
                    } else {
                        p
                    };
                    if q < toks.len() && toks[q].kind is CloseBracket {
                        match spec_parse_exp(toks, q + 1) {
                            Err(e) => Err(e),
                            Ok(
                                (rest, r),
                            ) => Ok(
                                (seq![NodeView::Loop { loc: t.loc, children: body }] + rest, r),
                            ),
                        }
                    } else {
                        Err(ErrorView::UnclosedBracket(t.loc))
                    }
                },
            },
            _ => match spec_parse_exp(toks, pos + 1) {
                Err(e) => Err(e),
                Ok((rest, r)) => Ok((seq![leaf_view(t)] + rest, r)),
            },
        }
    }
}

/// What parsing a whole token sequence yields: the root node, or the
/// single structural fault.
pub open spec fn spec_parse(toks: Seq<TokenView>) -> Result<NodeView, ErrorView> {
    match spec_parse_exp(toks, 0) {
        Err(e) => Err(e),
        Ok((children, p)) => if p < toks.len() {
            Err(ErrorView::ExtraneousClose(toks[p].loc))
        } else {
            Ok(NodeView::Root { children })
        },
    }
}

/// An expression run ends within the input, at a close bracket or at the
/// end; so the clamp inside [`spec_parse_exp`] never changes a result.
pub proof fn lemma_parse_exp_bounds(toks: Seq<TokenView>, pos: int)
    requires
        0 <= pos <= toks.len(),
    ensures
        match spec_parse_exp(toks, pos) {
            Ok((children, p)) => pos <= p <= toks.len() && (p == toks.len()
                || toks[p].kind is CloseBracket),
            Err(e) => true,
        },
    decreases toks.len() - pos,
{
    if pos < toks.len() {
        let t = toks[pos];
        match t.kind {
            TokenKind::CloseBracket => {},
            TokenKind::OpenBracket => {
                lemma_parse_exp_bounds(toks, pos + 1);
                if let Ok((body, p)) = spec_parse_exp(toks, pos + 1) {
                    let q = if p < pos + 1 {
                        pos + 1
                    } else {
                        p
                    };
                    if q < toks.len() && toks[q].kind is CloseBracket {
                        lemma_parse_exp_bounds(toks, q + 1);
                    }
                }
            },
            _ => {
                lemma_parse_exp_bounds(toks, pos + 1);
            },
        }
    }
}

/// Prepends already-parsed children onto the outcome of parsing the rest
/// of an expression.
pub open spec fn with_prefix(cs: Seq<NodeView>, r: Result<(Seq<NodeView>, int), ErrorView>) -> Result<
    (Seq<NodeView>, int),
    ErrorView,
> {
    match r {
        Ok((ns, p)) => Ok((cs + ns, p)),
        Err(e) => Err(e),
    }
}

proof fn lemma_with_prefix_assoc(
    a: Seq<NodeView>,
    b: Seq<NodeView>,
    r: Result<(Seq<NodeView>, int), ErrorView>,
)
    ensures
        with_prefix(a, with_prefix(b, r)) == with_prefix(a + b, r),
{
    match r {
        Ok((ns, p)) => {
            assert(a + (b + ns) =~= (a + b) + ns);
        },
        Err(_) => {},
    }
}

/// Parses one expression starting at `*pos`: a maximal run of leaves and
/// loops. On success `*pos` stands on the close bracket or the end of the
/// input that stopped the run; on a fault the error list holds exactly the
/// one diagnostic of [`spec_parse_exp`].
pub fn parse_exp(toks: &Vec<Token>, pos: &mut usize) -> (r: Result<Vec<Node>, Vec<Error>>)
    requires
        *old(pos) <= toks@.len(),
    ensures
        *final(pos) <= toks@.len(),
        match r {
            Ok(children) => spec_parse_exp(toks.deep_view(), *old(pos) as int) == Ok::<
                _,
                ErrorView,
            >((children.deep_view(), *final(pos) as int)),
            Err(errs) => errs.deep_view().len() == 1 && spec_parse_exp(
                toks.deep_view(),
                *old(pos) as int,
            ) == Err::<(Seq<NodeView>, int), _>(errs.deep_view()[0]),
        },
    decreases toks@.len() - *old(pos),
{
    let ghost tv = toks.deep_view();
    let ghost pos0 = *pos;
    let mut children: Vec<Node> = Vec::new();
    loop
        invariant
            tv == toks.deep_view(),
            tv.len() == toks@.len(),
            pos0 == *old(pos),
            pos0 <= *pos <= toks@.len(),
            spec_parse_exp(tv, pos0 as int) == with_prefix(
                children.deep_view(),
                spec_parse_exp(tv, *pos as int),
            ),
        decreases toks@.len() - *pos,
    {
        let ghost children_before = children.deep_view();
        if *pos == toks.len() {
            proof {
                assert(children_before + Seq::<NodeView>::empty() =~= children_before);
            }
            return Ok(children);
        }
        let i: usize = *pos;
        match &toks[i] {
            Token::CloseBracket(_) => {
                proof {
                    assert(children_before + Seq::<NodeView>::empty() =~= children_before);
                }
                return Ok(children);
            },
            Token::OpenBracket(l) => {
                let ghost open_loc = l@;
                *pos = i + 1;
                match parse_exp(toks, pos) {
                    Err(errs) => {
                        return Err(errs);
                    },
                    Ok(body) => {
                        proof {
                            lemma_parse_exp_bounds(tv, i + 1);
                        }
                        let q: usize = *pos;
                        let mut closed = false;
                        if q < toks.len() {
                            if let Token::CloseBracket(_) = &toks[q] {
                                closed = true;
                            }
                        }
                        if closed {
                            let ghost body_view = body.deep_view();
                            let node = Node::Loop { loc: l.duplicate(), children: body };
                            proof {
                                lemma_vec_deep_view_nodes(node->Loop_children);
                                assert(node.deep_view() == (NodeView::Loop {
                                    loc: open_loc,
                                    children: body_view,
                                }));
                            }
                            children.push(node);
                            *pos = q + 1;
                            proof {
                                let rest = spec_parse_exp(tv, q + 1);
                                assert(spec_parse_exp(tv, i as int) == with_prefix(
                                    seq![NodeView::Loop { loc: open_loc, children: body_view }],
                                    rest,
                                ));
                                lemma_with_prefix_assoc(
                                    children_before,
                                    seq![NodeView::Loop { loc: open_loc, children: body_view }],
                                    rest,
                                );
                                assert(children.deep_view() =~= children_before + seq![
                                    NodeView::Loop { loc: open_loc, children: body_view },
                                ]);
                            }
                        } else {
                            return Err(vec![Error::UnclosedBracket(l.duplicate())]);
                        }
                    },
                }
            },
            Token::Increment(l) => {
                push_leaf(&mut children, Node::Increment { loc: l.duplicate() });
                proof {
                    step_leaf(tv, pos0 as int, i as int, children_before, children.deep_view());
                }
                *pos = i + 1;
            },
            Token::Decrement(l) => {
                push_leaf(&mut children, Node::Decrement { loc: l.duplicate() });
                proof {
                    step_leaf(tv, pos0 as int, i as int, children_before, children.deep_view());
                }
                *pos = i + 1;
            },
            Token::MoveRight(l) => {
                push_leaf(&mut children, Node::MoveRight { loc: l.duplicate() });
                proof {
                    step_leaf(tv, pos0 as int, i as int, children_before, children.deep_view());
                }
                *pos = i + 1;
            },
            Token::MoveLeft(l) => {
                push_leaf(&mut children, Node::MoveLeft { loc: l.duplicate() });
                proof {
                    step_leaf(tv, pos0 as int, i as int, children_before, children.deep_view());
                }
                *pos = i + 1;
            },
            Token::Print(l) => {
                push_leaf(&mut children, Node::Print { loc: l.duplicate() });
                proof {
                    step_leaf(tv, pos0 as int, i as int, children_before, children.deep_view());
                }
                *pos = i + 1;
            },
            Token::Read(l) => {
                push_leaf(&mut children, Node::Read { loc: l.duplicate() });
                proof {
                    step_leaf(tv, pos0 as int, i as int, children_before, children.deep_view());
                }
                *pos = i + 1;
            },
        }
    }
}

/// Appends one parsed leaf to the children gathered so far.
fn push_leaf(children: &mut Vec<Node>, node: Node)
    ensures
        final(children)@ == old(children)@.push(node),
        final(children).deep_view() == old(children).deep_view().push(node.deep_view()),
{
    children.push(node);
    proof {
        assert(children.deep_view() =~= old(children).deep_view().push(node.deep_view()));
    }
}

/// One scan step over a leaf token keeps the loop relation of
/// [`parse_exp`] intact.
proof fn step_leaf(
    tv: Seq<TokenView>,
    pos0: int,
    i: int,
    before: Seq<NodeView>,
    after: Seq<NodeView>,
)
    requires
        0 <= i < tv.len(),
        !(tv[i].kind is OpenBracket),
        !(tv[i].kind is CloseBracket),
        after == before.push(leaf_view(tv[i])),
        spec_parse_exp(tv, pos0) == with_prefix(before, spec_parse_exp(tv, i)),
    ensures
        spec_parse_exp(tv, pos0) == with_prefix(after, spec_parse_exp(tv, i + 1)),
{
    assert(spec_parse_exp(tv, i) == with_prefix(
        seq![leaf_view(tv[i])],
        spec_parse_exp(tv, i + 1),
    ));
    lemma_with_prefix_assoc(before, seq![leaf_view(tv[i])], spec_parse_exp(tv, i + 1));
    assert(before + seq![leaf_view(tv[i])] =~= after);
}

/// Parses a token sequence into a tree.
///
/// Succeeds exactly when the brackets are properly nested and matched
/// (see [`lemma_parse_succeeds_iff_balanced`]); otherwise returns exactly
/// one structural fault, attributed to the offending bracket.
pub fn parse(toks: &Vec<Token>) -> (r: Result<Node, Vec<Error>>)
    ensures
        match r {
            Ok(root) => spec_parse(toks.deep_view()) == Ok::<NodeView, ErrorView>(
                root.deep_view(),
            ),
            Err(errs) => errs.deep_view().len() == 1 && spec_parse(toks.deep_view()) == Err::<
                NodeView,
                ErrorView,
            >(errs.deep_view()[0]),
        },
{
    let ghost tv = toks.deep_view();
    let mut pos: usize = 0;
    match parse_exp(toks, &mut pos) {
        Err(errs) => Err(errs),
        Ok(children) => {
            if pos < toks.len() {
                proof {
                    lemma_parse_exp_bounds(tv, 0);
                }
                match &toks[pos] {
                    Token::CloseBracket(l) => Err(vec![Error::ExtraneousClose(l.duplicate())]),
                    _ => {
                        // An expression run can only stop within the input
                        // on a close bracket, so this arm cannot be taken.
                        proof {
                            assert(false);
                        }
                        Err(Vec::new())
                    },
                }
            } else {
                let ghost cv = children.deep_view();
                let root = Node::Root { children };
                proof {
                    lemma_vec_deep_view_nodes(root->Root_children);
                    assert(root.deep_view() == (NodeView::Root { children: cv }));
                }
                Ok(root)
            }
        },
    }
}

/// Whether the brackets from `pos` on are properly nested and matched,
/// with `depth` brackets already open around them.
pub open spec fn balanced_from(toks: Seq<TokenView>, pos: int, depth: int) -> bool
    decreases toks.len() - pos,
{
    if pos < 0 || pos >= toks.len() {
        depth == 0
    } else if toks[pos].kind is OpenBracket {
        balanced_from(toks, pos + 1, depth + 1)
    } else if toks[pos].kind is CloseBracket {
        depth > 0 && balanced_from(toks, pos + 1, depth - 1)
    } else {
        balanced_from(toks, pos + 1, depth)
    }
}

/// Whether the brackets of a token sequence are properly nested and
/// matched.
pub open spec fn brackets_balanced(toks: Seq<TokenView>) -> bool {
    balanced_from(toks, 0, 0)
}

/// An expression run crosses a bracket-wise balanced stretch: parsing it
/// succeeds exactly when the scan that entered it balanced can leave it
/// balanced at the stopping point; a fault means no depth makes the rest
/// balance.
proof fn lemma_parse_exp_scan(toks: Seq<TokenView>, pos: int, depth: int)
    requires
        0 <= pos <= toks.len(),
        depth >= 0,
    ensures
        match spec_parse_exp(toks, pos) {
            Ok((ns, p)) => balanced_from(toks, pos, depth) == balanced_from(toks, p, depth),
            Err(e) => !balanced_from(toks, pos, depth),
        },
    decreases toks.len() - pos,
{
    lemma_parse_exp_bounds(toks, pos);
    if pos < toks.len() {
        let t = toks[pos];
        match t.kind {
            TokenKind::CloseBracket => {},
            TokenKind::OpenBracket => {
                lemma_parse_exp_bounds(toks, pos + 1);
                lemma_parse_exp_scan(toks, pos + 1, depth + 1);
                if let Ok((body, p)) = spec_parse_exp(toks, pos + 1) {
                    if p < toks.len() && toks[p].kind is CloseBracket {
                        lemma_parse_exp_scan(toks, p + 1, depth);
                    }
                }
            },
            _ => {
                lemma_parse_exp_scan(toks, pos + 1, depth);
            },
        }
    }
}

/// Law: parsing succeeds exactly when the brackets of the input are
/// properly nested and matched.
pub proof fn lemma_parse_succeeds_iff_balanced(toks: Seq<TokenView>)
    ensures
        spec_parse(toks) is Ok <==> brackets_balanced(toks),
{
    lemma_parse_exp_bounds(toks, 0);
    lemma_parse_exp_scan(toks, 0, 0);
}

/// Law: a failed parse points at the offending bracket itself: an
/// unclosed-bracket fault carries the location of an open bracket of the
/// input, an extraneous-close fault the location of a close bracket.
pub proof fn lemma_error_at_offending_bracket(toks: Seq<TokenView>)
    ensures
        match spec_parse(toks) {
            Ok(_) => true,
            Err(ErrorView::UnclosedBracket(l)) => exists|j: int|
                0 <= j < toks.len() && (#[trigger] toks[j].kind) is OpenBracket && toks[j].loc
                    == l,
            Err(ErrorView::ExtraneousClose(l)) => exists|j: int|
                0 <= j < toks.len() && (#[trigger] toks[j].kind) is CloseBracket && toks[j].loc
                    == l,
        },
{
    lemma_parse_exp_bounds(toks, 0);
    lemma_parse_exp_err_unclosed(toks, 0);
}

/// Every fault of an expression parse is an unclosed-bracket fault that
/// carries the location of an open bracket of the input.
proof fn lemma_parse_exp_err_unclosed(toks: Seq<TokenView>, pos: int)
    requires
        0 <= pos <= toks.len(),
    ensures
        match spec_parse_exp(toks, pos) {
            Ok(_) => true,
            Err(e) => e matches ErrorView::UnclosedBracket(l) && exists|j: int|
                pos <= j < toks.len() && (#[trigger] toks[j].kind) is OpenBracket && toks[j].loc
                    == l,
        },
    decreases toks.len() - pos,
{
    if pos < toks.len() {
        match toks[pos].kind {
            TokenKind::CloseBracket => {},
            TokenKind::OpenBracket => {
                lemma_parse_exp_bounds(toks, pos + 1);
                lemma_parse_exp_err_unclosed(toks, pos + 1);
                if let Ok((body, p)) = spec_parse_exp(toks, pos + 1) {
                    if p < toks.len() && toks[p].kind is CloseBracket {
                        lemma_parse_exp_err_unclosed(toks, p + 1);
                    } else {
                        assert(toks[pos].kind is OpenBracket);
                    }
                }
            },
            _ => {
                lemma_parse_exp_err_unclosed(toks, pos + 1);
            },
        }
    }
}

/// The kinds of a token sequence, in order, locations stripped.
pub open spec fn kinds_of(toks: Seq<TokenView>) -> Seq<TokenKind> {
    toks.map_values(|t: TokenView| t.kind)
}

/// The instruction kinds that a tree stands for, in order: each loop
/// contributes its bracket pair around its body, each leaf its own kind.
pub open spec fn flatten_node(n: NodeView) -> Seq<TokenKind>
    decreases n,
{
    match n {
        NodeView::Root { children } => flatten_nodes(children),
        NodeView::Loop { loc, children } => seq![TokenKind::OpenBracket] + flatten_nodes(children)
            + seq![TokenKind::CloseBracket],
        NodeView::Increment { loc } => seq![TokenKind::Increment],
        NodeView::Decrement { loc } => seq![TokenKind::Decrement],
        NodeView::MoveRight { loc } => seq![TokenKind::MoveRight],
        NodeView::MoveLeft { loc } => seq![TokenKind::MoveLeft],
        NodeView::Print { loc } => seq![TokenKind::Print],
        NodeView::Read { loc } => seq![TokenKind::Read],
    }
}

/// The instruction kinds of a run of sibling nodes, in order.
pub open spec fn flatten_nodes(ns: Seq<NodeView>) -> Seq<TokenKind>
    decreases ns,
{
    if ns.len() == 0 {
        Seq::empty()
    } else {
        flatten_node(ns[0]) + flatten_nodes(ns.drop_first())
    }
}

/// An expression run unparses to exactly the kinds of the tokens it
/// consumed.
proof fn lemma_parse_exp_flatten(toks: Seq<TokenView>, pos: int)
    requires
        0 <= pos <= toks.len(),
    ensures
        match spec_parse_exp(toks, pos) {
            Ok((ns, p)) => pos <= p <= toks.len() && flatten_nodes(ns) == kinds_of(
                toks,
            ).subrange(pos, p),
            Err(_) => true,
        },
    decreases toks.len() - pos,
{
    lemma_parse_exp_bounds(toks, pos);
    let ks = kinds_of(toks);
    if pos >= toks.len() {
        assert(flatten_nodes(Seq::empty()) =~= ks.subrange(pos, pos));
    } else {
        let t = toks[pos];
        match t.kind {
            TokenKind::CloseBracket => {
                assert(flatten_nodes(Seq::empty()) =~= ks.subrange(pos, pos));
            },
            TokenKind::OpenBracket => {
                lemma_parse_exp_bounds(toks, pos + 1);
                lemma_parse_exp_flatten(toks, pos + 1);
                if let Ok((body, p)) = spec_parse_exp(toks, pos + 1) {
                    if p < toks.len() && toks[p].kind is CloseBracket {
                        lemma_parse_exp_flatten(toks, p + 1);
                        if let Ok((rest, r)) = spec_parse_exp(toks, p + 1) {
                            let lp = NodeView::Loop { loc: t.loc, children: body };
                            assert(flatten_nodes(seq![lp] + rest) =~= flatten_node(lp)
                                + flatten_nodes((seq![lp] + rest).drop_first()));
                            assert((seq![lp] + rest).drop_first() =~= rest);
                            assert(ks[pos] == TokenKind::OpenBracket);
                            assert(ks[p] == TokenKind::CloseBracket);
                            assert(seq![TokenKind::OpenBracket] + ks.subrange(pos + 1, p) + seq![
                                TokenKind::CloseBracket,
                            ] + ks.subrange(p + 1, r) =~= ks.subrange(pos, r));
                        }
                    }
                }
            },
            _ => {
                lemma_parse_exp_flatten(toks, pos + 1);
                if let Ok((rest, r)) = spec_parse_exp(toks, pos + 1) {
                    let lf = leaf_view(t);
                    assert(flatten_nodes(seq![lf] + rest) =~= flatten_node(lf) + flatten_nodes(
                        (seq![lf] + rest).drop_first(),
                    ));
                    assert((seq![lf] + rest).drop_first() =~= rest);
                    assert(flatten_node(lf) =~= seq![t.kind]);
                    assert(seq![t.kind] + ks.subrange(pos + 1, r) =~= ks.subrange(pos, r));
                }
            },
        }
    }
}

/// Law: a parsed tree unparses to exactly the instruction kinds of its
/// input, in order — the bracket pairs of the input stand in 1:1
/// correspondence with the loop nodes of the tree, and no leaf is
/// dropped, duplicated or reordered.
pub proof fn lemma_parse_round_trip(toks: Seq<TokenView>)
    ensures
        match spec_parse(toks) {
            Ok(root) => flatten_node(root) == kinds_of(toks),
            Err(_) => true,
        },
{
    lemma_parse_exp_bounds(toks, 0);
    lemma_parse_exp_flatten(toks, 0);
    if let Ok((ns, p)) = spec_parse_exp(toks, 0) {
        if p == toks.len() {
            assert(kinds_of(toks).subrange(0, toks.len() as int) =~= kinds_of(toks));
        }
    }
}

/// A run without brackets parses to one leaf per token and stops only at
/// the end of the input.
proof fn lemma_parse_exp_no_brackets(toks: Seq<TokenView>, pos: int)
    requires
        0 <= pos <= toks.len(),
        forall|j: int|
            pos <= j < toks.len() ==> !((#[trigger] toks[j].kind) is OpenBracket) && !(
            toks[j].kind is CloseBracket),
    ensures
        match spec_parse_exp(toks, pos) {
            Ok((ns, p)) => p == toks.len() && ns.len() == toks.len() - pos && forall|k: int|
                0 <= k < ns.len() ==> #[trigger] ns[k] == leaf_view(toks[pos + k]),
            Err(_) => false,
        },
    decreases toks.len() - pos,
{
    if pos < toks.len() {
        lemma_parse_exp_no_brackets(toks, pos + 1);
    }
}

/// Law: a program with no bracket tokens parses into a tree of exactly
/// one level: a root whose children are the leaves of the tokens in
/// order, with never a loop node among them.
pub proof fn lemma_no_brackets_one_level(toks: Seq<TokenView>)
    requires
        forall|j: int|
            0 <= j < toks.len() ==> !((#[trigger] toks[j].kind) is OpenBracket) && !(
            toks[j].kind is CloseBracket),
    ensures
        match spec_parse(toks) {
            Ok(root) => root matches NodeView::Root { children } && children.len() == toks.len()
                && forall|k: int|
                0 <= k < toks.len() ==> (#[trigger] children[k]) == leaf_view(toks[k]) && !(
                children[k] is Loop) && !(children[k] is Root),
            Err(_) => false,
        },
{
    lemma_parse_exp_no_brackets(toks, 0);
}

} // verus!
