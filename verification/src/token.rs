use vstd::prelude::*;
use crate::error::CompileError;
use crate::lexing::{lemma_lex_tokens, tokens_stand};
pub use crate::reader::InputReader;

verus! {

/// A position in the source text. Lines and columns count from zero, in
/// characters.
#[derive(Debug, Copy, Clone, PartialEq, Eq, Structural)]
pub struct Loc {
    pub line: usize,
    pub col: usize,
}

#[derive(Debug, Copy, Clone, PartialEq, Eq, Structural)]
pub enum TokenKind {
    Num(u64),
    Plus,
    Minus,
    Mul,
    Div,
    LParen,
    RParen,
    Eq,
    Neq,
    Lt,
    Leq,
    Gt,
    Geq,
    Eof,
}

/// A lexical unit together with the position of its first character.
#[derive(Debug, Copy, Clone, PartialEq, Eq, Structural)]
pub struct Token {
    pub kind: TokenKind,
    pub loc: Loc,
}

pub open spec fn is_digit(c: char) -> bool {
    '0' <= c && c <= '9'
}

/// The number that a decimal digit stands for.
pub open spec fn digit_value(c: char) -> nat {
    (c as int - '0' as int) as nat
}

/// The length of the longest run of decimal digits of `s` that starts at `pos`.
pub open spec fn digit_run(s: Seq<char>, pos: int) -> nat
    decreases s.len() - pos,
{
    if 0 <= pos < s.len() && is_digit(s[pos]) {
        1 + digit_run(s, pos + 1)
    } else {
        0
    }
}

/// The number that a string of decimal digits denotes.
pub open spec fn decimal_value(digits: Seq<char>) -> nat
    decreases digits.len(),
{
    if digits.len() == 0 {
        0
    } else {
        decimal_value(digits.drop_last()) * 10 + digit_value(digits.last())
    }
}

/// The operator that the two characters `a`, `b` spell together, if any.
pub open spec fn two_char_operator(a: char, b: char) -> Option<TokenKind> {
    if a == '=' && b == '=' {
        Some(TokenKind::Eq)
    } else if a == '!' && b == '=' {
        Some(TokenKind::Neq)
    } else if a == '<' && b == '=' {
        Some(TokenKind::Leq)
    } else if a == '>' && b == '=' {
        Some(TokenKind::Geq)
    } else {
        None
    }
}

/// The operator or bracket that the character `c` spells alone, if any.
pub open spec fn one_char_operator(c: char) -> Option<TokenKind> {
    if c == '+' {
        Some(TokenKind::Plus)
    } else if c == '-' {
        Some(TokenKind::Minus)
    } else if c == '*' {
        Some(TokenKind::Mul)
    } else if c == '/' {
        Some(TokenKind::Div)
    } else if c == '(' {
        Some(TokenKind::LParen)
    } else if c == ')' {
        Some(TokenKind::RParen)
    } else if c == '<' {
        Some(TokenKind::Lt)
    } else if c == '>' {
        Some(TokenKind::Gt)
    } else {
        None
    }
}

/// The location of the character at offset `pos` of a text without newlines.
pub open spec fn loc_at(pos: int) -> Loc {
    Loc { line: 0, col: pos as usize }
}

/// How many characters of `s` stand at or behind `pos`.
pub open spec fn chars_left(s: Seq<char>, pos: int) -> nat {
    if 0 <= pos < s.len() {
        (s.len() - pos) as nat
    } else {
        0
    }
}

/// The tokens `done`, followed by what the rest of the text gave.
pub open spec fn lex_after(done: Seq<Token>, rest: Result<Seq<Token>, CompileError>) -> Result<
    Seq<Token>,
    CompileError,
> {
    match rest {
        Ok(tokens) => Ok(done + tokens),
        Err(e) => Err(e),
    }
}

/// The tokens of `s` from offset `pos` on, or the first lexical error there.
///
/// Spaces separate tokens and are dropped. At any other character the rules
/// are tried in this order: an operator of two characters, an operator or
/// bracket of one, a maximal run of digits. A run whose value exceeds 64 bits
/// is an error, and so is a character that starts none of these. The end of
/// the text gives the end marker.
pub open spec fn lex(s: Seq<char>, pos: int) -> Result<Seq<Token>, CompileError>
    decreases chars_left(s, pos),
{
    if !(0 <= pos < s.len()) {
        Ok(seq![Token { kind: TokenKind::Eof, loc: loc_at(s.len() as int) }])
    } else if s[pos] == ' ' {
        lex(s, pos + 1)
    } else if pos + 1 < s.len() && two_char_operator(s[pos], s[pos + 1]) is Some {
        lex_after(
            seq![Token { kind: two_char_operator(s[pos], s[pos + 1])->0, loc: loc_at(pos) }],
            lex(s, pos + 2),
        )
    } else if one_char_operator(s[pos]) is Some {
        lex_after(
            seq![Token { kind: one_char_operator(s[pos])->0, loc: loc_at(pos) }],
            lex(s, pos + 1),
        )
    } else if is_digit(s[pos]) {
        let n = digit_run(s, pos);
        let value = decimal_value(s.subrange(pos, pos + n));
        if value > u64::MAX {
            Err(CompileError::LiteralTooLarge(loc_at(pos)))
        } else {
            lex_after(
                seq![Token { kind: TokenKind::Num(value as u64), loc: loc_at(pos) }],
                lex(s, pos + n),
            )
        }
    } else {
        Err(CompileError::Tokenize(s[pos], loc_at(pos)))
    }
}

/// A run of digits is as long as `digit_run` says exactly when the character
/// behind it is no digit.
pub proof fn lemma_digit_run(s: Seq<char>, pos: int, n: nat)
    requires
        0 <= pos,
        pos + n <= s.len(),
        forall|i: int| pos <= i < pos + n ==> is_digit(#[trigger] s[i]),
        pos + n == s.len() || !is_digit(s[pos + n]),
    ensures
        digit_run(s, pos) == n,
    decreases n,
{
    if n > 0 {
        lemma_digit_run(s, pos + 1, (n - 1) as nat);
    }
}

/// The digits of a run are digits, and the run ends within the text.
pub proof fn lemma_digit_run_bounds(s: Seq<char>, pos: int)
    requires
        0 <= pos <= s.len(),
    ensures
        pos + digit_run(s, pos) <= s.len(),
        forall|i: int| pos <= i < pos + digit_run(s, pos) ==> is_digit(#[trigger] s[i]),
        pos + digit_run(s, pos) == s.len() || !is_digit(s[pos + digit_run(s, pos)]),
    decreases s.len() - pos,
{
    if pos < s.len() && is_digit(s[pos]) {
        lemma_digit_run_bounds(s, pos + 1);
    }
}

impl TokenKind {
    /// The operator or bracket that `c` spells alone.
    pub fn try_from(c: char) -> (kind: Option<TokenKind>)
        ensures
            kind == one_char_operator(c),
    {
        match c {
            '+' => Some(TokenKind::Plus),
            '-' => Some(TokenKind::Minus),
            '*' => Some(TokenKind::Mul),
            '/' => Some(TokenKind::Div),
            '(' => Some(TokenKind::LParen),
            ')' => Some(TokenKind::RParen),
            '<' => Some(TokenKind::Lt),
            '>' => Some(TokenKind::Gt),
            _ => None,
        }
    }

    /// The operator that `a` and `b` spell together.
    pub fn try_from_pair(a: char, b: char) -> (kind: Option<TokenKind>)
        ensures
            kind == two_char_operator(a, b),
    {
        if b != '=' {
            None
        } else {
            match a {
                '=' => Some(TokenKind::Eq),
                '!' => Some(TokenKind::Neq),
                '<' => Some(TokenKind::Leq),
                '>' => Some(TokenKind::Geq),
                _ => None,
            }
        }
    }
}

/// Lexing `token` at `pos` and going on at `next` extends the tokens found
/// so far by `token`.
proof fn lemma_lex_step(s: Seq<char>, done: Seq<Token>, token: Token, pos: int, next: int)
    requires
        lex(s, pos) == lex_after(seq![token], lex(s, next)),
    ensures
        lex_after(done, lex(s, pos)) == lex_after(done.push(token), lex(s, next)),
{
    if let Ok(rest) = lex(s, next) {
        assert(done + (seq![token] + rest) =~= done.push(token) + rest);
    }
}

/// Splits `input` into tokens, each with the location of its first character,
/// and ends them with the end marker. The result is what `lex` gives from the
/// start of the text: the tokens, or the first lexical error. The tokens end
/// with the one end marker, and the column of each is the offset of its first
/// character in `input`.
pub fn tokenize(input: &str) -> (res: Result<Vec<Token>, CompileError>)
    ensures
        match res {
            Ok(tokens) => lex(input@, 0) == Ok::<Seq<Token>, CompileError>(tokens@)
                && tokens_stand(input@, 0, tokens@),
            Err(e) => lex(input@, 0) == Err::<Seq<Token>, CompileError>(e),
        },
{
    let mut tokens: Vec<Token> = Vec::new();
    let mut reader = InputReader::new(input);
    let ghost s = input@;
    assert(lex_after(tokens@, lex(s, 0)) == lex(s, 0)) by {
        if let Ok(rest) = lex(s, 0) {
            assert(tokens@ + rest =~= rest);
        }
    }
    loop
        invariant
            s == input@,
            reader.wf(),
            reader.source() == s,
            reader.here() == loc_at(reader.offset()),
            lex(s, 0) == lex_after(tokens@, lex(s, reader.offset())),
        ensures
            reader.remaining().len() == 0,
        decreases s.len() - reader.offset(),
    {
        proof {
            reader.lemma_offset_in_range();
        }
        let ghost pos = reader.offset();
        let loc = reader.location();
        let c: char = match reader.peek() {
            Some(c) => c,
            None => {
                break;
            },
        };
        let pair = match reader.peek_at(1) {
            Some(d) => TokenKind::try_from_pair(c, d),
            None => None,
        };
        let single = TokenKind::try_from(c);
        let ghost span1 = reader.remaining().take(1);
        let ghost span2 = reader.remaining().take(2);
        if c == ' ' {
            assert(!span1.contains('\n'));
            match reader.advance(1) {
                Ok(_) => {},
                Err(e) => {
                    return Err(e);
                },
            }
        } else if let Some(kind) = pair {
            assert(!span2.contains('\n'));
            match reader.advance(2) {
                Ok(_) => {},
                Err(e) => {
                    return Err(e);
                },
            }
            proof {
                lemma_lex_step(s, tokens@, Token { kind, loc }, pos, pos + 2);
            }
            tokens.push(Token { kind, loc });
        } else if let Some(kind) = single {
            assert(!span1.contains('\n'));
            match reader.advance(1) {
                Ok(_) => {},
                Err(e) => {
                    return Err(e);
                },
            }
            proof {
                lemma_lex_step(s, tokens@, Token { kind, loc }, pos, pos + 1);
            }
            tokens.push(Token { kind, loc });
        } else {
            match reader.consume_number() {
                Ok(value) => {
                    proof {
                        lemma_lex_step(
                            s,
                            tokens@,
                            Token { kind: TokenKind::Num(value), loc },
                            pos,
                            pos + digit_run(s, pos),
                        );
                    }
                    tokens.push(Token { kind: TokenKind::Num(value), loc });
                },
                Err(e) => {
                    assert(lex(s, pos) == Err::<Seq<Token>, CompileError>(e));
                    return Err(e);
                },
            }
        }
        proof {
            reader.lemma_offset_in_range();
        }
    }
    proof {
        reader.lemma_offset_in_range();
        let eof = Token { kind: TokenKind::Eof, loc: reader.here() };
        assert(tokens@ + seq![eof] =~= tokens@.push(eof));
        lemma_lex_tokens(s, 0);
    }
    tokens.push(Token { kind: TokenKind::Eof, loc: reader.location() });
    Ok(tokens)
}

/// The token at index `pos` of `tokens`, if there is one.
pub open spec fn token_at(tokens: Seq<Token>, pos: nat) -> Option<Token> {
    if pos < tokens.len() {
        Some(tokens[pos as int])
    } else {
        None
    }
}

/// A token sequence read front to back with one token of lookahead.
pub struct TokenCursor {
    tokens: Vec<Token>,
    pos: usize,
}

impl TokenCursor {
    /// All the tokens, consumed or not.
    pub closed spec fn tokens(&self) -> Seq<Token> {
        self.tokens@
    }

    /// How many tokens have been consumed.
    pub closed spec fn index(&self) -> nat {
        self.pos as nat
    }

    /// The token that `peek` shows.
    pub open spec fn current(&self) -> Option<Token> {
        token_at(self.tokens(), self.index())
    }

    /// `self`, one token further on.
    pub open spec fn stepped(&self, next: &TokenCursor) -> bool {
        next.tokens() == self.tokens() && next.index() == self.index() + 1
    }

    /// `self`, unchanged.
    pub open spec fn stayed(&self, next: &TokenCursor) -> bool {
        next.tokens() == self.tokens() && next.index() == self.index()
    }

    pub fn new(tokens: Vec<Token>) -> (cursor: Self)
        ensures
            cursor.tokens() == tokens@,
            cursor.index() == 0,
    {
        TokenCursor { tokens, pos: 0 }
    }

    /// The current token, which stays where it is.
    pub fn peek(&self) -> (token: Option<Token>)
        ensures
            token == self.current(),
    {
        if self.pos < self.tokens.len() {
            Some(self.tokens[self.pos])
        } else {
            None
        }
    }

    /// Consumes the current token and returns it.
    pub fn next(&mut self) -> (token: Option<Token>)
        ensures
            token == old(self).current(),
            token is Some ==> old(self).stepped(final(self)),
            token is None ==> old(self).stayed(final(self)),
    {
        if self.pos < self.tokens.len() {
            let token = self.tokens[self.pos];
            self.pos = self.pos + 1;
            Some(token)
        } else {
            None
        }
    }
}

/// Consumes the current token if it is of kind `expected_kind`, and says
/// whether it did. Otherwise the cursor stays.
pub fn consume(expected_kind: TokenKind, tokens: &mut TokenCursor) -> (consumed: bool)
    ensures
        consumed == (old(tokens).current() is Some && old(tokens).current()->0.kind
            == expected_kind),
        consumed ==> old(tokens).stepped(final(tokens)),
        !consumed ==> old(tokens).stayed(final(tokens)),
{
    if let Some(token) = tokens.peek() {
        if token.kind == expected_kind {
            tokens.next();
            return true;
        }
    }
    false
}

/// What `expect` answers when the current token is `current`.
pub open spec fn expect_result(expected_kind: TokenKind, current: Option<Token>) -> Result<
    (),
    CompileError,
> {
    match current {
        None => Err(CompileError::EndOfTokens),
        Some(token) => if token.kind == expected_kind {
            Ok(())
        } else {
            Err(CompileError::UnexpectedToken { expected: expected_kind, found: token })
        },
    }
}

/// Requires the current token to be of kind `expected_kind` and consumes it.
/// On any other token, or none, the cursor stays and the error names what was
/// found.
pub fn expect(expected_kind: TokenKind, tokens: &mut TokenCursor) -> (res: Result<
    (),
    CompileError,
>)
    ensures
        res == expect_result(expected_kind, old(tokens).current()),
        res is Ok ==> old(tokens).stepped(final(tokens)),
        res is Err ==> old(tokens).stayed(final(tokens)),
{
    match tokens.peek() {
        None => Err(CompileError::EndOfTokens),
        Some(token) => {
            if token.kind != expected_kind {
                return Err(CompileError::UnexpectedToken { expected: expected_kind, found: token });
            }
            tokens.next();
            Ok(())
        },
    }
}

/// What `expect_number` answers when the current token is `current`.
pub open spec fn expect_number_result(current: Option<Token>) -> Result<u64, CompileError> {
    match current {
        None => Err(CompileError::EndOfTokens),
        Some(token) => match token.kind {
            TokenKind::Num(value) => Ok(value),
            _ => Err(CompileError::ExpectedNumber(token)),
        },
    }
}

/// Requires the current token to be an integer literal, consumes it and
/// returns its value. On any other token, or none, the cursor stays.
pub fn expect_number(tokens: &mut TokenCursor) -> (res: Result<u64, CompileError>)
    ensures
        res == expect_number_result(old(tokens).current()),
        res is Ok ==> old(tokens).stepped(final(tokens)),
        res is Err ==> old(tokens).stayed(final(tokens)),
{
    match tokens.peek() {
        None => Err(CompileError::EndOfTokens),
        Some(token) => match token.kind {
            TokenKind::Num(value) => {
                tokens.next();
                Ok(value)
            },
            _ => Err(CompileError::ExpectedNumber(token)),
        },
    }
}

} // verus!
