//! What holds of every text that `lex` reads.

use vstd::prelude::*;
use crate::error::CompileError;
use crate::text::decimal;
use crate::token::{
    chars_left, decimal_value, digit_run, is_digit, lemma_digit_run, lemma_digit_run_bounds, lex,
    lex_after, loc_at, one_char_operator, two_char_operator, Token, TokenKind,
};

verus! {

/// The characters that spell an operator, a bracket or the end marker; a
/// number has no fixed spelling.
pub open spec fn spelling(kind: TokenKind) -> Seq<char> {
    match kind {
        TokenKind::Num(_) => seq![],
        TokenKind::Plus => seq!['+'],
        TokenKind::Minus => seq!['-'],
        TokenKind::Mul => seq!['*'],
        TokenKind::Div => seq!['/'],
        TokenKind::LParen => seq!['('],
        TokenKind::RParen => seq![')'],
        TokenKind::Eq => seq!['=', '='],
        TokenKind::Neq => seq!['!', '='],
        TokenKind::Lt => seq!['<'],
        TokenKind::Leq => seq!['<', '='],
        TokenKind::Gt => seq!['>'],
        TokenKind::Geq => seq!['>', '='],
        TokenKind::Eof => seq![],
    }
}

/// The token `token` stands in `s` where its location says: on line 0, at
/// the column that is the offset of its first character. An operator is
/// spelled out there, a number is the digit run that starts there, and the
/// end marker stands at the end of the text.
pub open spec fn stands_at(s: Seq<char>, token: Token) -> bool {
    let col = token.loc.col as int;
    &&& token.loc.line == 0
    &&& 0 <= col <= s.len()
    &&& match token.kind {
        TokenKind::Num(value) => {
            &&& col < s.len()
            &&& is_digit(s[col])
            &&& value == decimal_value(s.subrange(col, col + digit_run(s, col)))
        },
        TokenKind::Eof => col == s.len(),
        kind => {
            &&& col + spelling(kind).len() <= s.len()
            &&& s.subrange(col, col + spelling(kind).len()) == spelling(kind)
        },
    }
}

/// Exactly the last token is the end marker.
pub open spec fn ends_with_eof(tokens: Seq<Token>) -> bool {
    &&& tokens.len() > 0
    &&& tokens.last().kind == TokenKind::Eof
    &&& forall|i: int| 0 <= i < tokens.len() - 1 ==> (#[trigger] tokens[i]).kind != TokenKind::Eof
}

/// The tokens end with the one end marker, and each of them stands in `s`
/// at or behind `pos`.
pub open spec fn tokens_stand(s: Seq<char>, pos: int, tokens: Seq<Token>) -> bool {
    &&& ends_with_eof(tokens)
    &&& forall|i: int|
        0 <= i < tokens.len() ==> stands_at(s, #[trigger] tokens[i]) && pos <= tokens[i].loc.col
}

/// One more token in front keeps `tokens_stand`.
proof fn lemma_stand_cons(s: Seq<char>, pos: int, first: Token, next: int, rest: Seq<Token>)
    requires
        pos <= next,
        stands_at(s, first),
        first.loc.col == pos,
        first.kind != TokenKind::Eof,
        tokens_stand(s, next, rest),
    ensures
        tokens_stand(s, pos, seq![first] + rest),
{
    let tokens = seq![first] + rest;
    assert forall|i: int| 0 <= i < tokens.len() implies stands_at(s, #[trigger] tokens[i]) && pos
        <= tokens[i].loc.col by {
        if i > 0 {
            assert(tokens[i] == rest[i - 1]);
        }
    }
    assert forall|i: int| 0 <= i < tokens.len() - 1 implies (#[trigger] tokens[i]).kind
        != TokenKind::Eof by {
        if i > 0 {
            assert(tokens[i] == rest[i - 1]);
        }
    }
    assert(tokens.last() == rest.last());
}

/// An operator of two characters is spelled by them.
proof fn lemma_spelled_pair(a: char, b: char)
    requires
        two_char_operator(a, b) is Some,
    ensures
        spelling(two_char_operator(a, b)->0) =~= seq![a, b],
        two_char_operator(a, b)->0 != TokenKind::Eof,
        !(two_char_operator(a, b)->0 is Num),
{
}

/// An operator of one character is spelled by it.
proof fn lemma_spelled_single(c: char)
    requires
        one_char_operator(c) is Some,
    ensures
        spelling(one_char_operator(c)->0) =~= seq![c],
        one_char_operator(c)->0 != TokenKind::Eof,
        !(one_char_operator(c)->0 is Num),
{
}

/// The tokens that `lex` gives from `pos` on end with the one end marker,
/// and each of them stands at or behind `pos` where its location says: its
/// column is the offset of its first character.
pub proof fn lemma_lex_tokens(s: Seq<char>, pos: int)
    requires
        0 <= pos <= s.len() <= usize::MAX,
    ensures
        lex(s, pos) matches Ok(tokens) ==> tokens_stand(s, pos, tokens),
    decreases chars_left(s, pos),
{
    if pos >= s.len() {
    } else if s[pos] == ' ' {
        lemma_lex_tokens(s, pos + 1);
        if let Ok(tokens) = lex(s, pos) {
            assert(tokens_stand(s, pos + 1, tokens));
        }
    } else if pos + 1 < s.len() && two_char_operator(s[pos], s[pos + 1]) is Some {
        lemma_lex_tokens(s, pos + 2);
        if let Ok(rest) = lex(s, pos + 2) {
            let first = Token { kind: two_char_operator(s[pos], s[pos + 1])->0, loc: loc_at(pos) };
            lemma_spelled_pair(s[pos], s[pos + 1]);
            assert(s.subrange(pos, pos + 2) =~= seq![s[pos], s[pos + 1]]);
            lemma_stand_cons(s, pos, first, pos + 2, rest);
        }
    } else if one_char_operator(s[pos]) is Some {
        lemma_lex_tokens(s, pos + 1);
        if let Ok(rest) = lex(s, pos + 1) {
            let first = Token { kind: one_char_operator(s[pos])->0, loc: loc_at(pos) };
            lemma_spelled_single(s[pos]);
            assert(s.subrange(pos, pos + 1) =~= seq![s[pos]]);
            lemma_stand_cons(s, pos, first, pos + 1, rest);
        }
    } else if is_digit(s[pos]) {
        let n = digit_run(s, pos);
        lemma_digit_run_bounds(s, pos);
        lemma_lex_tokens(s, pos + n);
        let value = decimal_value(s.subrange(pos, pos + n));
        if value <= u64::MAX {
            if let Ok(rest) = lex(s, pos + n) {
                let first = Token { kind: TokenKind::Num(value as u64), loc: loc_at(pos) };
                lemma_stand_cons(s, pos, first, pos + n, rest);
            }
        }
    }
}

/// A text of digits, whose value fits in 64 bits, is one number and the end
/// marker.
pub proof fn lemma_lex_digits(digits: Seq<char>)
    requires
        digits.len() > 0,
        forall|i: int| 0 <= i < digits.len() ==> is_digit(#[trigger] digits[i]),
        decimal_value(digits) <= u64::MAX,
    ensures
        lex(digits, 0) == Ok::<Seq<Token>, CompileError>(
            seq![
                Token { kind: TokenKind::Num(decimal_value(digits) as u64), loc: loc_at(0) },
                Token { kind: TokenKind::Eof, loc: loc_at(digits.len() as int) },
            ],
        ),
{
    lemma_digit_run(digits, 0, digits.len());
    assert(digits.subrange(0, digits.len() as int) =~= digits);
    let number = Token { kind: TokenKind::Num(decimal_value(digits) as u64), loc: loc_at(0) };
    let eof = Token { kind: TokenKind::Eof, loc: loc_at(digits.len() as int) };
    assert(lex(digits, digits.len() as int) == Ok::<Seq<Token>, CompileError>(seq![eof]));
    assert(seq![number] + seq![eof] =~= seq![number, eof]);
}

/// The decimal numeral of a number is a string of digits that denotes the
/// number.
pub proof fn lemma_decimal_denotes(n: nat)
    ensures
        decimal(n).len() > 0,
        forall|i: int| 0 <= i < decimal(n).len() ==> is_digit(#[trigger] decimal(n)[i]),
        decimal_value(decimal(n)) == n,
    decreases n,
{
    if n < 10 {
        assert(decimal(n).drop_last() =~= Seq::<char>::empty());
        assert(decimal_value(decimal(n).drop_last()) == 0);
    } else {
        lemma_decimal_denotes(n / 10);
        assert(decimal(n).drop_last() =~= decimal(n / 10));
    }
}

/// Writing a number out and reading it back gives the number: the numeral of
/// a number of 64 bits is read as that one number.
pub proof fn lemma_lex_decimal(n: u64)
    ensures
        lex(decimal(n as nat), 0) == Ok::<Seq<Token>, CompileError>(
            seq![
                Token { kind: TokenKind::Num(n), loc: loc_at(0) },
                Token { kind: TokenKind::Eof, loc: loc_at(decimal(n as nat).len() as int) },
            ],
        ),
{
    lemma_decimal_denotes(n as nat);
    lemma_lex_digits(decimal(n as nat));
}

/// The kinds of the tokens, numbers with their values, where lexing
/// succeeded.
pub open spec fn kinds_of(lexed: Result<Seq<Token>, CompileError>) -> Option<Seq<TokenKind>> {
    match lexed {
        Ok(tokens) => Some(Seq::new(tokens.len(), |i: int| tokens[i].kind)),
        Err(_) => None,
    }
}

/// The lexer, started at offset `from`, comes to stand at offset `p`: there
/// a token begins, or a space stands, or the text ends.
pub open spec fn token_boundary(s: Seq<char>, from: int, p: int) -> bool
    decreases chars_left(s, from),
{
    if from == p {
        true
    } else if !(0 <= from < s.len()) || from > p {
        false
    } else if s[from] == ' ' {
        token_boundary(s, from + 1, p)
    } else if from + 1 < s.len() && two_char_operator(s[from], s[from + 1]) is Some {
        token_boundary(s, from + 2, p)
    } else if one_char_operator(s[from]) is Some {
        token_boundary(s, from + 1, p)
    } else if is_digit(s[from]) {
        token_boundary(s, from + digit_run(s, from), p)
    } else {
        false
    }
}

/// Tokens of one kind in front of token sequences of the same kinds give
/// sequences of the same kinds.
proof fn lemma_kinds_cons(
    a: Token,
    b: Token,
    x: Result<Seq<Token>, CompileError>,
    y: Result<Seq<Token>, CompileError>,
)
    requires
        a.kind == b.kind,
        kinds_of(x) == kinds_of(y),
    ensures
        kinds_of(lex_after(seq![a], x)) == kinds_of(lex_after(seq![b], y)),
{
    if let Ok(xs) = x {
        let ys = y->Ok_0;
        let kx = Seq::new(xs.len(), |i: int| xs[i].kind);
        let ky = Seq::new(ys.len(), |i: int| ys[i].kind);
        assert(kx == ky);
        assert(xs.len() == kx.len() && ys.len() == ky.len());
        let ax = seq![a] + xs;
        let by = seq![b] + ys;
        assert forall|i: int| 0 <= i < ax.len() implies ax[i].kind == by[i].kind by {
            if i > 0 {
                assert(kx[i - 1] == ky[i - 1]);
            }
        }
        assert(Seq::new(ax.len(), |i: int| ax[i].kind) =~= Seq::new(by.len(), |i: int| by[i].kind));
    }
}

/// The digit run of `s` at `q` is the digit run of `t` at `r` where the two
/// texts agree along the run and on what ends it.
proof fn lemma_same_run(s: Seq<char>, q: int, t: Seq<char>, r: int)
    requires
        0 <= q <= s.len(),
        0 <= r,
        r + digit_run(s, q) <= t.len(),
        forall|i: int| q <= i < q + digit_run(s, q) ==> #[trigger] s[i] == t[i + (r - q)],
        r + digit_run(s, q) == t.len() || !is_digit(t[r + digit_run(s, q)]),
    ensures
        digit_run(t, r) == digit_run(s, q),
        t.subrange(r, r + digit_run(s, q)) == s.subrange(q, q + digit_run(s, q)),
{
    let n = digit_run(s, q);
    lemma_digit_run_bounds(s, q);
    assert forall|i: int| r <= i < r + n implies is_digit(#[trigger] t[i]) by {
        assert(s[i - (r - q)] == t[i]);
    }
    lemma_digit_run(t, r, n);
    assert(t.subrange(r, r + n) =~= s.subrange(q, q + n));
}

/// Behind an inserted space the text is read as before, one column later.
proof fn lemma_space_shift(s: Seq<char>, p: int, q: int)
    requires
        0 <= p <= q <= s.len(),
    ensures
        kinds_of(lex(s.insert(p, ' '), q + 1)) == kinds_of(lex(s, q)),
    decreases s.len() - q,
{
    let t = s.insert(p, ' ');
    assert(t.len() == s.len() + 1);
    assert forall|i: int| p <= i < s.len() implies t[i + 1] == #[trigger] s[i] by {}
    if q == s.len() {
        let x = lex(t, q + 1)->Ok_0;
        let y = lex(s, q)->Ok_0;
        assert(Seq::new(x.len(), |i: int| x[i].kind) =~= Seq::new(y.len(), |i: int| y[i].kind));
    } else if s[q] == ' ' {
        lemma_space_shift(s, p, q + 1);
    } else if q + 1 < s.len() && two_char_operator(s[q], s[q + 1]) is Some {
        lemma_space_shift(s, p, q + 2);
        let kind = two_char_operator(s[q], s[q + 1])->0;
        lemma_kinds_cons(
            Token { kind, loc: loc_at(q + 1) },
            Token { kind, loc: loc_at(q) },
            lex(t, q + 3),
            lex(s, q + 2),
        );
    } else if one_char_operator(s[q]) is Some {
        lemma_space_shift(s, p, q + 1);
        let kind = one_char_operator(s[q])->0;
        lemma_kinds_cons(
            Token { kind, loc: loc_at(q + 1) },
            Token { kind, loc: loc_at(q) },
            lex(t, q + 2),
            lex(s, q + 1),
        );
    } else if is_digit(s[q]) {
        let n = digit_run(s, q);
        lemma_digit_run_bounds(s, q);
        lemma_same_run(s, q, t, q + 1);
        lemma_space_shift(s, p, q + n);
        let value = decimal_value(s.subrange(q, q + n));
        if value <= u64::MAX {
            let kind = TokenKind::Num(value as u64);
            lemma_kinds_cons(
                Token { kind, loc: loc_at(q + 1) },
                Token { kind, loc: loc_at(q) },
                lex(t, q + 1 + n),
                lex(s, q + n),
            );
        }
    }
}

/// The lexer only comes to stand at or behind where it started.
proof fn lemma_boundary_ahead(s: Seq<char>, from: int, p: int)
    requires
        token_boundary(s, from, p),
    ensures
        from <= p,
{
}

/// Up to an inserted space the text is read as before.
proof fn lemma_space_ahead(s: Seq<char>, from: int, p: int)
    requires
        0 <= from <= p <= s.len(),
        token_boundary(s, from, p),
    ensures
        kinds_of(lex(s.insert(p, ' '), from)) == kinds_of(lex(s, from)),
    decreases p - from,
{
    let t = s.insert(p, ' ');
    assert(t.len() == s.len() + 1);
    assert(t[p] == ' ');
    assert forall|i: int| 0 <= i < p implies t[i] == #[trigger] s[i] by {}
    if from == p {
        lemma_space_shift(s, p, p);
    } else if s[from] == ' ' {
        lemma_space_ahead(s, from + 1, p);
    } else if from + 1 < s.len() && two_char_operator(s[from], s[from + 1]) is Some {
        lemma_boundary_ahead(s, from + 2, p);
        lemma_space_ahead(s, from + 2, p);
        let kind = two_char_operator(s[from], s[from + 1])->0;
        let token = Token { kind, loc: loc_at(from) };
        lemma_kinds_cons(token, token, lex(t, from + 2), lex(s, from + 2));
    } else if one_char_operator(s[from]) is Some {
        lemma_space_ahead(s, from + 1, p);
        let kind = one_char_operator(s[from])->0;
        let token = Token { kind, loc: loc_at(from) };
        assert(two_char_operator(t[from], t[from + 1]) is None);
        lemma_kinds_cons(token, token, lex(t, from + 1), lex(s, from + 1));
    } else {
        let n = digit_run(s, from);
        lemma_digit_run_bounds(s, from);
        lemma_boundary_ahead(s, from + n, p);
        assert(two_char_operator(t[from], t[from + 1]) is None);
        lemma_same_run(s, from, t, from);
        lemma_space_ahead(s, from + n, p);
        let value = decimal_value(s.subrange(from, from + n));
        if value <= u64::MAX {
            let token = Token { kind: TokenKind::Num(value as u64), loc: loc_at(from) };
            lemma_kinds_cons(token, token, lex(t, from + n), lex(s, from + n));
        }
    }
}

/// A space put where a token begins, where a space stands, or at the end of
/// the text changes neither the kinds of the tokens nor the values of the
/// numbers; a text that is rejected stays rejected.
pub proof fn lemma_space_between_tokens(s: Seq<char>, p: int)
    requires
        0 <= p <= s.len(),
        token_boundary(s, 0, p),
    ensures
        kinds_of(lex(s.insert(p, ' '), 0)) == kinds_of(lex(s, 0)),
{
    lemma_space_ahead(s, 0, p);
}

} // verus!
