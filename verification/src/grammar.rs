//! What holds of every tree that the grammar builds.

use vstd::prelude::*;
use crate::error::CompileError;
use crate::lexing::ends_with_eof;
use crate::parse::{
    parse_all, parse_fold, parse_level, parse_operand, parse_primary, parse_unary, tokens_left,
    Level, Node, NodeKind, Parsed,
};
use crate::token::{token_at, Token, TokenKind};

verus! {

/// Where `parsed` is a success at index `pos` of `tokens`: the tree has the
/// shape of an expression tree, at least `least` tokens were consumed, and
/// all of them are tokens of the sequence.
pub open spec fn sound(tokens: Seq<Token>, pos: nat, parsed: Parsed, least: nat) -> bool {
    parsed matches Ok((node, consumed)) ==> {
        &&& node.wf()
        &&& least <= consumed
        &&& pos + consumed <= tokens.len()
    }
}

/// `parse_primary` builds well-formed trees from at least one token.
pub proof fn lemma_primary_sound(tokens: Seq<Token>, pos: nat)
    ensures
        sound(tokens, pos, parse_primary(tokens, pos), 1),
    decreases tokens_left(tokens, pos), 0nat, 0nat,
{
    if let Some(token) = token_at(tokens, pos) {
        if token.kind == TokenKind::LParen {
            lemma_level_sound(tokens, pos + 1, Level::Equality);
        }
    }
}

/// `parse_unary` builds well-formed trees from at least one token.
pub proof fn lemma_unary_sound(tokens: Seq<Token>, pos: nat)
    ensures
        sound(tokens, pos, parse_unary(tokens, pos), 1),
    decreases tokens_left(tokens, pos), 0nat, 1nat,
{
    lemma_primary_sound(tokens, pos);
    if let Some(token) = token_at(tokens, pos) {
        if token.kind == TokenKind::Plus || token.kind == TokenKind::Minus {
            lemma_primary_sound(tokens, pos + 1);
            if let Ok((node, consumed)) = parse_primary(tokens, pos + 1) {
                assert(Node::leaf(0).wf());
                assert(Node::binary(NodeKind::Sub, Node::leaf(0), node).wf());
            }
        }
    }
}

/// The operands of every rule are well-formed trees of at least one token.
pub proof fn lemma_operand_sound(tokens: Seq<Token>, pos: nat, level: Level)
    ensures
        sound(tokens, pos, parse_operand(tokens, pos, level), 1),
    decreases tokens_left(tokens, pos), level.rank(), 0nat,
{
    match level {
        Level::Term => lemma_unary_sound(tokens, pos),
        Level::Additive => lemma_level_sound(tokens, pos, Level::Term),
        Level::Relational => lemma_level_sound(tokens, pos, Level::Additive),
        Level::Equality => lemma_level_sound(tokens, pos, Level::Relational),
    }
}

/// Every binary rule builds well-formed trees from at least one token.
pub proof fn lemma_level_sound(tokens: Seq<Token>, pos: nat, level: Level)
    ensures
        sound(tokens, pos, parse_level(tokens, pos, level), 1),
    decreases tokens_left(tokens, pos), level.rank(), 2nat,
{
    lemma_operand_sound(tokens, pos, level);
    if let Ok((first, consumed)) = parse_operand(tokens, pos, level) {
        lemma_fold_sound(tokens, pos + consumed, level, first);
    }
}

/// Folding further operands onto a well-formed tree gives a well-formed
/// tree.
pub proof fn lemma_fold_sound(tokens: Seq<Token>, pos: nat, level: Level, left: Node)
    requires
        left.wf(),
        pos <= tokens.len(),
    ensures
        sound(tokens, pos, parse_fold(tokens, pos, level, left), 0),
    decreases tokens_left(tokens, pos), level.rank(), 1nat,
{
    if token_at(tokens, pos) is Some && level.operator(token_at(tokens, pos)->0.kind) is Some {
        let kind = level.operator(token_at(tokens, pos)->0.kind)->0;
        lemma_operand_sound(tokens, pos + 1, level);
        if let Ok((right, consumed)) = parse_operand(tokens, pos + 1, level) {
            assert(Node::binary(kind, left, right).wf());
            lemma_fold_sound(tokens, pos + 1 + consumed, level, Node::binary(kind, left, right));
        }
    }
}

/// A successful parse gives a well-formed tree, and the last token that it
/// consumed is an end marker.
pub proof fn lemma_parse_all_sound(tokens: Seq<Token>, pos: nat)
    ensures
        sound(tokens, pos, parse_all(tokens, pos), 2),
        parse_all(tokens, pos) matches Ok((_, consumed)) ==> tokens[pos + consumed - 1].kind
            == TokenKind::Eof,
{
    lemma_level_sound(tokens, pos, Level::Equality);
}

/// A successful parse of a sequence that ends with its one end marker
/// consumes the whole sequence.
pub proof fn lemma_parse_consumes_all(tokens: Seq<Token>)
    requires
        ends_with_eof(tokens),
    ensures
        parse_all(tokens, 0) matches Ok((_, consumed)) ==> consumed == tokens.len(),
{
    lemma_parse_all_sound(tokens, 0);
}

/// The rank of the rule that folds tokens of kind `kind` as operators, or 0
/// for a token that is no binary operator.
pub open spec fn operator_rank(kind: TokenKind) -> nat {
    match kind {
        TokenKind::Mul | TokenKind::Div => 1,
        TokenKind::Plus | TokenKind::Minus => 2,
        TokenKind::Lt | TokenKind::Leq | TokenKind::Gt | TokenKind::Geq => 3,
        TokenKind::Eq | TokenKind::Neq => 4,
        _ => 0,
    }
}

/// The token that is folded into an operator node of kind `kind`.
pub open spec fn operator_token(kind: NodeKind) -> TokenKind {
    match kind {
        NodeKind::Add => TokenKind::Plus,
        NodeKind::Sub => TokenKind::Minus,
        NodeKind::Mul => TokenKind::Mul,
        NodeKind::Div => TokenKind::Div,
        NodeKind::Eq => TokenKind::Eq,
        NodeKind::Neq => TokenKind::Neq,
        NodeKind::Lt => TokenKind::Lt,
        NodeKind::Leq => TokenKind::Leq,
        NodeKind::Gt => TokenKind::Gt,
        NodeKind::Geq => TokenKind::Geq,
        NodeKind::Num(value) => TokenKind::Num(value),
    }
}

/// The rule that folds operator nodes of kind `kind`.
pub open spec fn level_of(kind: NodeKind) -> Level {
    match kind {
        NodeKind::Mul | NodeKind::Div => Level::Term,
        NodeKind::Add | NodeKind::Sub => Level::Additive,
        NodeKind::Eq | NodeKind::Neq => Level::Equality,
        _ => Level::Relational,
    }
}

/// A tree written out with every operator node in brackets of its own.
pub open spec fn bracketed(node: Node) -> Seq<TokenKind>
    decreases node,
{
    match node.kind {
        NodeKind::Num(value) => seq![TokenKind::Num(value)],
        kind => if node.lhs is Some && node.rhs is Some {
            seq![TokenKind::LParen] + bracketed(*node.lhs->0) + seq![operator_token(kind)]
                + bracketed(*node.rhs->0) + seq![TokenKind::RParen]
        } else {
            seq![]
        },
    }
}

/// The tokens from index `pos` on are of the kinds `kinds`, in order.
pub open spec fn spells(tokens: Seq<Token>, pos: nat, kinds: Seq<TokenKind>) -> bool {
    &&& pos + kinds.len() <= tokens.len()
    &&& forall|i: int| 0 <= i < kinds.len() ==> tokens[pos + i].kind == #[trigger] kinds[i]
}

/// The kind of the token at `pos` is not folded by any rule of a rank from
/// `low` up to `high`: there the folding of those rules stops. It also stops
/// where no token is left.
pub open spec fn stops(tokens: Seq<Token>, pos: nat, low: nat, high: nat) -> bool {
    token_at(tokens, pos) matches Some(token) ==> !(low <= operator_rank(token.kind) <= high)
}

/// At `pos` stands a primary expression without a sign before it: there
/// `parse_primary` reads the tree `node` from `len` tokens, the first of
/// which is neither `+` nor `-`.
pub open spec fn atom(tokens: Seq<Token>, pos: nat, node: Node, len: nat) -> bool {
    &&& parse_primary(tokens, pos) == Ok::<(Node, nat), (CompileError, nat)>((node, len))
    &&& token_at(tokens, pos) matches Some(first) ==> first.kind != TokenKind::Plus && first.kind
        != TokenKind::Minus
}

/// At `pos` stands a token that the rule `level` folds into a node of kind
/// `kind`.
pub open spec fn operator_at(tokens: Seq<Token>, pos: nat, level: Level, kind: NodeKind) -> bool {
    token_at(tokens, pos) matches Some(token) && level.operator(token.kind) == Some(kind)
}

/// A rule folds exactly the operators of its rank.
proof fn lemma_operator_rank(level: Level, kind: TokenKind)
    ensures
        level.operator(kind) is Some <==> operator_rank(kind) == level.rank(),
{
}

/// Where the folding of `level` stops, the fold hands on what it has.
proof fn lemma_fold_stops(tokens: Seq<Token>, pos: nat, level: Level, left: Node)
    requires
        stops(tokens, pos, level.rank(), level.rank()),
    ensures
        parse_fold(tokens, pos, level, left) == Ok::<(Node, nat), (CompileError, nat)>((left, 0)),
{
    if let Some(token) = token_at(tokens, pos) {
        lemma_operator_rank(level, token.kind);
    }
}

/// A primary expression that no operator of a tighter rule follows is, as
/// it stands, an operand of the rule `level`.
pub proof fn lemma_operand_is_atom(
    tokens: Seq<Token>,
    pos: nat,
    level: Level,
    node: Node,
    len: nat,
)
    requires
        atom(tokens, pos, node, len),
        stops(tokens, pos + len, 1, (level.rank() - 1) as nat),
    ensures
        parse_operand(tokens, pos, level) == Ok::<(Node, nat), (CompileError, nat)>((node, len)),
    decreases level.rank(), 0nat,
{
    match level {
        Level::Term => {},
        Level::Additive => lemma_level_is_atom(tokens, pos, Level::Term, node, len),
        Level::Relational => lemma_level_is_atom(tokens, pos, Level::Additive, node, len),
        Level::Equality => lemma_level_is_atom(tokens, pos, Level::Relational, node, len),
    }
}

/// A primary expression that no operator of the rule `level` or of a
/// tighter rule follows is, as it stands, what the rule gives.
pub proof fn lemma_level_is_atom(tokens: Seq<Token>, pos: nat, level: Level, node: Node, len: nat)
    requires
        atom(tokens, pos, node, len),
        stops(tokens, pos + len, 1, level.rank()),
    ensures
        parse_level(tokens, pos, level) == Ok::<(Node, nat), (CompileError, nat)>((node, len)),
    decreases level.rank(), 1nat,
{
    lemma_operand_is_atom(tokens, pos, level, node, len);
    lemma_fold_stops(tokens, pos + len, level, node);
}

/// One operator between two primary expressions: the rule of the operator
/// folds them into one node, and every looser rule hands that node on, as
/// long as no operator up to its own rank follows.
pub proof fn lemma_single_operator(
    tokens: Seq<Token>,
    pos: nat,
    level: Level,
    own: Level,
    kind: NodeKind,
    left: Node,
    left_len: nat,
    right: Node,
    right_len: nat,
)
    requires
        atom(tokens, pos, left, left_len),
        operator_at(tokens, pos + left_len, own, kind),
        atom(tokens, pos + left_len + 1, right, right_len),
        own.rank() <= level.rank(),
        stops(tokens, pos + left_len + 1 + right_len, 1, level.rank()),
    ensures
        parse_level(tokens, pos, level) == Ok::<(Node, nat), (CompileError, nat)>(
            (Node::binary(kind, left, right), left_len + 1 + right_len),
        ),
    decreases level.rank(),
{
    let whole = Node::binary(kind, left, right);
    let end = pos + left_len + 1 + right_len;
    let op = token_at(tokens, pos + left_len)->0;
    lemma_operator_rank(own, op.kind);
    lemma_operator_rank(level, op.kind);
    lemma_fold_stops(tokens, end, level, whole);
    if own.rank() == level.rank() {
        lemma_operand_is_atom(tokens, pos, level, left, left_len);
        lemma_operand_is_atom(tokens, pos + left_len + 1, level, right, right_len);
        assert(parse_fold(tokens, pos + left_len, level, left) == Ok::<
            (Node, nat),
            (CompileError, nat),
        >((whole, 1 + right_len)));
    } else {
        match level {
            Level::Term => {},
            Level::Additive => lemma_single_operator(
                tokens,
                pos,
                Level::Term,
                own,
                kind,
                left,
                left_len,
                right,
                right_len,
            ),
            Level::Relational => lemma_single_operator(
                tokens,
                pos,
                Level::Additive,
                own,
                kind,
                left,
                left_len,
                right,
                right_len,
            ),
            Level::Equality => lemma_single_operator(
                tokens,
                pos,
                Level::Relational,
                own,
                kind,
                left,
                left_len,
                right,
                right_len,
            ),
        }
    }
}

/// Operators of one rule associate to the left: `x op y op z`, with both
/// operators of the rule `level`, is read as `(x op y) op z`.
pub proof fn lemma_left_associative(
    tokens: Seq<Token>,
    pos: nat,
    level: Level,
    x: (Node, nat),
    first: NodeKind,
    y: (Node, nat),
    second: NodeKind,
    z: (Node, nat),
)
    requires
        atom(tokens, pos, x.0, x.1),
        operator_at(tokens, pos + x.1, level, first),
        atom(tokens, pos + x.1 + 1, y.0, y.1),
        operator_at(tokens, pos + x.1 + 1 + y.1, level, second),
        atom(tokens, pos + x.1 + y.1 + 2, z.0, z.1),
        stops(tokens, pos + x.1 + y.1 + z.1 + 2, 1, level.rank()),
    ensures
        parse_level(tokens, pos, level) == Ok::<(Node, nat), (CompileError, nat)>(
            (
                Node::binary(second, Node::binary(first, x.0, y.0), z.0),
                x.1 + y.1 + z.1 + 2,
            ),
        ),
{
    let inner = Node::binary(first, x.0, y.0);
    let whole = Node::binary(second, inner, z.0);
    let first_op = token_at(tokens, pos + x.1)->0;
    let second_op = token_at(tokens, pos + x.1 + 1 + y.1)->0;
    lemma_operator_rank(level, first_op.kind);
    lemma_operator_rank(level, second_op.kind);
    lemma_operand_is_atom(tokens, pos, level, x.0, x.1);
    lemma_operand_is_atom(tokens, pos + x.1 + 1, level, y.0, y.1);
    lemma_operand_is_atom(tokens, pos + x.1 + y.1 + 2, level, z.0, z.1);
    lemma_fold_stops(tokens, pos + x.1 + y.1 + z.1 + 2, level, whole);
    assert(parse_fold(tokens, pos + x.1 + 1 + y.1, level, inner) == Ok::<
        (Node, nat),
        (CompileError, nat),
    >((whole, 1 + z.1)));
    assert(parse_fold(tokens, pos + x.1, level, x.0) == Ok::<(Node, nat), (CompileError, nat)>(
        (whole, 2 + y.1 + z.1),
    ));
}

/// The rule one step tighter than `level`, whose results are the operands
/// of `level`; the tightest rule has none.
pub open spec fn next_tighter(level: Level) -> Level {
    match level {
        Level::Term => Level::Term,
        Level::Additive => Level::Term,
        Level::Relational => Level::Additive,
        Level::Equality => Level::Relational,
    }
}

/// The operands of every rule but the tightest are what the next tighter
/// rule gives.
proof fn lemma_operand_rule(tokens: Seq<Token>, pos: nat, level: Level)
    requires
        level.rank() > 1,
    ensures
        parse_operand(tokens, pos, level) == parse_level(tokens, pos, next_tighter(level)),
        next_tighter(level).rank() == level.rank() - 1,
{
}

/// The tighter operator binds first, also where it stands second: in
/// `x op y op z` with the first operator of the rule `loose` and the second
/// of a tighter rule, `y op z` is the right operand of the first operator.
pub proof fn lemma_tighter_binds_right(
    tokens: Seq<Token>,
    pos: nat,
    tight: Level,
    loose: Level,
    x: (Node, nat),
    first: NodeKind,
    y: (Node, nat),
    second: NodeKind,
    z: (Node, nat),
)
    requires
        tight.rank() < loose.rank(),
        atom(tokens, pos, x.0, x.1),
        operator_at(tokens, pos + x.1, loose, first),
        atom(tokens, pos + x.1 + 1, y.0, y.1),
        operator_at(tokens, pos + x.1 + 1 + y.1, tight, second),
        atom(tokens, pos + x.1 + y.1 + 2, z.0, z.1),
        stops(tokens, pos + x.1 + y.1 + z.1 + 2, 1, loose.rank()),
    ensures
        parse_level(tokens, pos, loose) == Ok::<(Node, nat), (CompileError, nat)>(
            (
                Node::binary(first, x.0, Node::binary(second, y.0, z.0)),
                x.1 + y.1 + z.1 + 2,
            ),
        ),
{
    let below = next_tighter(loose);
    let inner = Node::binary(second, y.0, z.0);
    let whole = Node::binary(first, x.0, inner);
    let first_op = token_at(tokens, pos + x.1)->0;
    lemma_operator_rank(loose, first_op.kind);
    lemma_operand_rule(tokens, pos, loose);
    lemma_operand_rule(tokens, pos + x.1 + 1, loose);
    lemma_level_is_atom(tokens, pos, below, x.0, x.1);
    lemma_single_operator(tokens, pos + x.1 + 1, below, tight, second, y.0, y.1, z.0, z.1);
    lemma_fold_stops(tokens, pos + x.1 + y.1 + z.1 + 2, loose, whole);
    assert(parse_fold(tokens, pos + x.1, loose, x.0) == Ok::<(Node, nat), (CompileError, nat)>(
        (whole, 2 + y.1 + z.1),
    ));
}

/// The tighter operator binds first where it stands first: in `x op y op z`
/// with the first operator of the rule `tight` and the second of a looser
/// rule, `x op y` is the left operand of the second operator.
pub proof fn lemma_tighter_binds_left(
    tokens: Seq<Token>,
    pos: nat,
    tight: Level,
    loose: Level,
    x: (Node, nat),
    first: NodeKind,
    y: (Node, nat),
    second: NodeKind,
    z: (Node, nat),
)
    requires
        tight.rank() < loose.rank(),
        atom(tokens, pos, x.0, x.1),
        operator_at(tokens, pos + x.1, tight, first),
        atom(tokens, pos + x.1 + 1, y.0, y.1),
        operator_at(tokens, pos + x.1 + 1 + y.1, loose, second),
        atom(tokens, pos + x.1 + y.1 + 2, z.0, z.1),
        stops(tokens, pos + x.1 + y.1 + z.1 + 2, 1, loose.rank()),
    ensures
        parse_level(tokens, pos, loose) == Ok::<(Node, nat), (CompileError, nat)>(
            (
                Node::binary(second, Node::binary(first, x.0, y.0), z.0),
                x.1 + y.1 + z.1 + 2,
            ),
        ),
{
    let below = next_tighter(loose);
    let inner = Node::binary(first, x.0, y.0);
    let whole = Node::binary(second, inner, z.0);
    let second_op = token_at(tokens, pos + x.1 + 1 + y.1)->0;
    lemma_operator_rank(loose, second_op.kind);
    lemma_operand_rule(tokens, pos, loose);
    lemma_single_operator(tokens, pos, below, tight, first, x.0, x.1, y.0, y.1);
    lemma_operand_is_atom(tokens, pos + x.1 + y.1 + 2, loose, z.0, z.1);
    lemma_fold_stops(tokens, pos + x.1 + y.1 + z.1 + 2, loose, whole);
    assert(parse_fold(tokens, pos + x.1 + 1 + y.1, loose, inner) == Ok::<
        (Node, nat),
        (CompileError, nat),
    >((whole, 1 + z.1)));
}

/// A minus sign before a primary expression subtracts it from zero.
pub proof fn lemma_unary_minus(tokens: Seq<Token>, pos: nat, node: Node, len: nat)
    requires
        token_at(tokens, pos) matches Some(sign) && sign.kind == TokenKind::Minus,
        parse_primary(tokens, pos + 1) == Ok::<(Node, nat), (CompileError, nat)>((node, len)),
    ensures
        parse_unary(tokens, pos) == Ok::<(Node, nat), (CompileError, nat)>(
            (Node::binary(NodeKind::Sub, Node::leaf(0), node), len + 1),
        ),
{
}

/// A bracketed tree begins with a bracket or a number.
proof fn lemma_bracketed_first(node: Node)
    requires
        node.wf(),
    ensures
        bracketed(node).len() > 0,
        bracketed(node)[0] == TokenKind::LParen || bracketed(node)[0] is Num,
{
}

/// Brackets override every precedence: wherever the tokens spell a
/// well-formed tree with all its brackets, the rule for primary expressions
/// reads exactly that tree, and consumes exactly those tokens.
pub proof fn lemma_bracketed_primary(tokens: Seq<Token>, pos: nat, node: Node)
    requires
        node.wf(),
        spells(tokens, pos, bracketed(node)),
    ensures
        parse_primary(tokens, pos) == Ok::<(Node, nat), (CompileError, nat)>(
            (node, bracketed(node).len()),
        ),
    decreases node,
{
    let all = bracketed(node);
    let p = pos as int;
    assert(tokens[p + 0].kind == all[0]);
    match node.kind {
        NodeKind::Num(value) => {},
        kind => {
            let left = *node.lhs->0;
            let right = *node.rhs->0;
            let a = bracketed(left).len() as int;
            let b = bracketed(right).len() as int;
            assert(all.len() == a + b + 3);
            assert(tokens[p + (a + 1)].kind == all[a + 1]);
            assert(tokens[p + (a + b + 2)].kind == all[a + b + 2]);
            assert forall|i: int| 0 <= i < a implies tokens[p + 1 + i].kind
                == #[trigger] bracketed(left)[i] by {
                assert(tokens[p + (i + 1)].kind == all[i + 1]);
            }
            assert forall|i: int| 0 <= i < b implies tokens[p + a + 2 + i].kind
                == #[trigger] bracketed(right)[i] by {
                assert(tokens[p + (i + a + 2)].kind == all[i + a + 2]);
            }
            lemma_bracketed_primary(tokens, pos + 1, left);
            lemma_bracketed_primary(tokens, (pos + a + 2) as nat, right);
            lemma_bracketed_first(left);
            lemma_bracketed_first(right);
            assert(tokens[p + 1 + 0].kind == bracketed(left)[0]);
            assert(tokens[p + a + 2 + 0].kind == bracketed(right)[0]);
            lemma_single_operator(
                tokens,
                pos + 1,
                Level::Equality,
                level_of(kind),
                kind,
                left,
                a as nat,
                right,
                b as nat,
            );
            assert(node == Node::binary(kind, left, right));
        },
    }
}

/// Every well-formed tree is the parse of its bracketed form followed by the
/// end marker.
pub proof fn lemma_bracketed_parse(tokens: Seq<Token>, node: Node)
    requires
        node.wf(),
        spells(tokens, 0, bracketed(node) + seq![TokenKind::Eof]),
    ensures
        parse_all(tokens, 0) == Ok::<(Node, nat), (CompileError, nat)>(
            (node, bracketed(node).len() + 1),
        ),
{
    let all = bracketed(node) + seq![TokenKind::Eof];
    let n = bracketed(node).len() as int;
    assert forall|i: int| 0 <= i < n implies tokens[0 + i].kind == #[trigger] bracketed(
        node,
    )[i] by {
        assert(tokens[0 + i].kind == all[i]);
    }
    assert(tokens[0 + n].kind == all[n]);
    lemma_bracketed_primary(tokens, 0, node);
    lemma_bracketed_first(node);
    assert(tokens[0int + 0].kind == bracketed(node)[0]);
    lemma_level_is_atom(tokens, 0, Level::Equality, node, n as nat);
}

} // verus!
