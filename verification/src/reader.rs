use vstd::prelude::*;
use vstd::string::*;
use crate::error::CompileError;
use crate::token::{decimal_value, digit_run, digit_value, is_digit, lemma_digit_run, Loc};

verus! {

/// The position reached from `loc` by consuming `span`: a span that holds a
/// newline starts a new line, any other span moves the column by its length.
pub open spec fn loc_after(loc: Loc, span: Seq<char>) -> Loc {
    if span.contains('\n') {
        Loc { line: (loc.line + 1) as usize, col: 0 }
    } else {
        Loc { line: loc.line, col: (loc.col + span.len()) as usize }
    }
}

/// The characters of `text`, in order.
pub fn chars_of(text: &str) -> (chars: Vec<char>)
    ensures
        chars@ == text@,
{
    let mut chars: Vec<char> = Vec::new();
    for c in it: text.chars()
        invariant
            chars@ == it.seq().take(it.index() as int),
            it.seq() == text@,
    {
        chars.push(c);
    }
    chars
}

/// What reading a number at offset `pos` of `s` gives, `loc` being the
/// location of that offset: the value of the digit run there, or why there is
/// none.
pub open spec fn number_at(s: Seq<char>, pos: int, loc: Loc) -> Result<u64, CompileError> {
    if !(0 <= pos < s.len()) {
        Err(CompileError::EndOfInput)
    } else if !is_digit(s[pos]) {
        Err(CompileError::Tokenize(s[pos], loc))
    } else if decimal_value(s.subrange(pos, pos + digit_run(s, pos))) > u64::MAX {
        Err(CompileError::LiteralTooLarge(loc))
    } else {
        Ok(decimal_value(s.subrange(pos, pos + digit_run(s, pos))) as u64)
    }
}

/// A cursor over source text. It remembers the whole text and how far it has
/// come, and keeps the position of the next character.
pub struct InputReader<'a> {
    text: &'a str,
    chars: Vec<char>,
    pos: usize,
    /// Where the next character stands.
    pub loc: Loc,
}

impl<'a> InputReader<'a> {
    /// The whole text the reader was made for.
    pub closed spec fn source(&self) -> Seq<char> {
        self.text@
    }

    /// The position of the next character: what the field `loc` holds.
    pub closed spec fn here(&self) -> Loc {
        self.loc
    }

    /// How many characters have been consumed.
    pub closed spec fn offset(&self) -> int {
        self.pos as int
    }

    /// The reader is consistent: its offset lies within the text, and neither
    /// the line nor the column exceeds the offset.
    pub closed spec fn wf(&self) -> bool {
        &&& self.chars@ == self.text@
        &&& self.pos <= self.chars.len()
        &&& self.loc.line <= self.pos
        &&& self.loc.col <= self.pos
    }

    /// The characters not consumed yet.
    pub open spec fn remaining(&self) -> Seq<char> {
        self.source().skip(self.offset())
    }

    /// A well-formed reader stands inside its text.
    pub proof fn lemma_offset_in_range(&self)
        requires
            self.wf(),
        ensures
            0 <= self.offset() <= self.source().len(),
            self.remaining().len() == self.source().len() - self.offset(),
            self.here().line <= self.offset(),
            self.here().col <= self.offset(),
            self.source().len() <= usize::MAX,
    {
    }

    pub fn new(input: &'a str) -> (reader: Self)
        ensures
            reader.wf(),
            reader.source() == input@,
            reader.offset() == 0,
            reader.here() == (Loc { line: 0, col: 0 }),
    {
        InputReader { text: input, chars: chars_of(input), pos: 0, loc: Loc { line: 0, col: 0 } }
    }

    /// The position of the next character.
    pub fn location(&self) -> (loc: Loc)
        ensures
            loc == self.here(),
    {
        self.loc
    }

    /// The number of characters left.
    pub fn len(&self) -> (n: usize)
        requires
            self.wf(),
        ensures
            n == self.remaining().len(),
    {
        self.chars.len() - self.pos
    }

    /// Whether the rest of the text begins with `pat`.
    pub fn starts_with(&self, pat: &str) -> (found: bool)
        requires
            self.wf(),
        ensures
            found == pat@.is_prefix_of(self.remaining()),
    {
        let n: usize = pat.unicode_len();
        if n > self.chars.len() - self.pos {
            return false;
        }
        let mut i: usize = 0;
        while i < n
            invariant
                self.wf(),
                n == pat@.len(),
                i <= n <= self.remaining().len(),
                forall|j: int| 0 <= j < i ==> pat@[j] == self.remaining()[j],
            decreases n - i,
        {
            if pat.get_char(i) != self.chars[self.pos + i] {
                assert(pat@[i as int] != self.remaining()[i as int]);
                return false;
            }
            i += 1;
        }
        assert(pat@ =~= self.remaining().subrange(0, pat@.len() as int));
        true
    }

    /// Consumes `n` characters and moves the location over them. Asking for
    /// more than is left consumes nothing and fails.
    pub fn advance(&mut self, n: usize) -> (res: Result<(), CompileError>)
        requires
            old(self).wf(),
        ensures
            final(self).wf(),
            final(self).source() == old(self).source(),
            match res {
                Ok(_) => {
                    &&& n <= old(self).remaining().len()
                    &&& final(self).offset() == old(self).offset() + n
                    &&& final(self).here() == loc_after(old(self).here(), old(self).remaining().take(n as int))
                },
                Err(e) => {
                    &&& n > old(self).remaining().len()
                    &&& e == CompileError::EndOfInput
                    &&& final(self).offset() == old(self).offset()
                    &&& final(self).here() == old(self).here()
                },
            },
    {
        if n > self.chars.len() - self.pos {
            return Err(CompileError::EndOfInput);
        }
        let ghost span = self.remaining().take(n as int);
        let mut newline: bool = false;
        let mut i: usize = 0;
        while i < n
            invariant
                self.wf(),
                i <= n <= self.remaining().len(),
                span == self.remaining().take(n as int),
                newline == span.take(i as int).contains('\n'),
            decreases n - i,
        {
            if self.chars[self.pos + i] == '\n' {
                newline = true;
            }
            proof {
                let a = span.take(i as int);
                let b = span.take(i + 1);
                assert(b =~= a.push(span[i as int]));
                if a.contains('\n') {
                    let k = choose|k: int| 0 <= k < a.len() && a[k] == '\n';
                    assert(b[k] == '\n');
                }
                if b.contains('\n') && span[i as int] != '\n' {
                    let k = choose|k: int| 0 <= k < b.len() && b[k] == '\n';
                    assert(a[k] == '\n');
                }
                if span[i as int] == '\n' {
                    assert(b[i as int] == '\n');
                }
            }
            i += 1;
        }
        assert(span.take(n as int) =~= span);
        proof {
            if newline {
                let k = choose|k: int| 0 <= k < span.len() && span[k] == '\n';
                assert(n >= 1);
            }
        }
        self.pos = self.pos + n;
        if newline {
            self.loc = Loc { line: self.loc.line + 1, col: 0 };
        } else {
            self.loc = Loc { line: self.loc.line, col: self.loc.col + n };
        }
        Ok(())
    }

    /// Consumes the longest run of digits at the front and returns its value.
    /// The run is consumed even where its value does not fit in 64 bits; where
    /// the front is no digit, nothing is consumed.
    pub fn consume_number(&mut self) -> (res: Result<u64, CompileError>)
        requires
            old(self).wf(),
        ensures
            final(self).wf(),
            final(self).source() == old(self).source(),
            final(self).offset() == old(self).offset() + digit_run(
                old(self).source(),
                old(self).offset(),
            ),
            final(self).here() == (Loc {
                line: old(self).here().line,
                col: (old(self).here().col + digit_run(old(self).source(), old(self).offset())) as usize,
            }),
            res == number_at(old(self).source(), old(self).offset(), old(self).here()),
    {
        let ghost s = self.source();
        let ghost start = self.offset();
        let start_loc = self.loc;
        if self.pos >= self.chars.len() {
            return Err(CompileError::EndOfInput);
        }
        let first: char = self.chars[self.pos];
        if !(first >= '0' && first <= '9') {
            return Err(CompileError::Tokenize(first, start_loc));
        }
        let mut value: u64 = 0;
        let mut fits: bool = true;
        while self.pos < self.chars.len() && self.chars[self.pos] >= '0' && self.chars[self.pos] <= '9'
            invariant
                self.wf(),
                self.source() == s,
                start <= self.offset() <= s.len(),
                start == old(self).offset(),
                forall|i: int| start <= i < self.offset() ==> is_digit(#[trigger] s[i]),
                self.loc.line == start_loc.line,
                self.loc.col == start_loc.col + (self.offset() - start),
                start_loc.col <= start,
                start_loc.line <= start,
                fits == (decimal_value(s.subrange(start, self.offset())) <= u64::MAX),
                fits ==> value == decimal_value(s.subrange(start, self.offset())),
            decreases s.len() - self.offset(),
        {
            let c: char = self.chars[self.pos];
            let d: u64 = (c as u32 - '0' as u32) as u64;
            proof {
                let before = s.subrange(start, self.offset());
                let after = s.subrange(start, self.offset() + 1);
                assert(after.drop_last() =~= before);
                assert(after.last() == c);
                assert(decimal_value(after) == decimal_value(before) * 10 + digit_value(c));
                assert(d == digit_value(c));
            }
            if fits && value <= (u64::MAX - d) / 10 {
                value = value * 10 + d;
            } else {
                fits = false;
            }
            self.pos = self.pos + 1;
            self.loc = Loc { line: self.loc.line, col: self.loc.col + 1 };
        }
        proof {
            lemma_digit_run(s, start, (self.offset() - start) as nat);
        }
        if fits {
            Ok(value)
        } else {
            Err(CompileError::LiteralTooLarge(start_loc))
        }
    }

    /// The character `k` places ahead, if the text reaches that far.
    pub fn peek_at(&self, k: usize) -> (c: Option<char>)
        requires
            self.wf(),
        ensures
            c == if k < self.remaining().len() {
                Some(self.remaining()[k as int])
            } else {
                None
            },
    {
        if k < self.chars.len() - self.pos {
            Some(self.chars[self.pos + k])
        } else {
            None
        }
    }

    /// The next character, if any is left.
    pub fn peek(&self) -> (c: Option<char>)
        requires
            self.wf(),
        ensures
            c == if self.remaining().len() > 0 {
                Some(self.remaining()[0])
            } else {
                None
            },
    {
        self.peek_at(0)
    }

    /// The next `n` characters as a slice of the text, without consuming
    /// them; `None` where fewer are left.
    pub fn head(&self, n: usize) -> (head: Option<&'a str>)
        requires
            self.wf(),
        ensures
            match head {
                Some(h) => n <= self.remaining().len() && h@ == self.remaining().take(n as int),
                None => n > self.remaining().len(),
            },
    {
        if n > self.chars.len() - self.pos {
            return None;
        }
        let h = self.text.substring_char(self.pos, self.pos + n);
        assert(h@ =~= self.remaining().take(n as int));
        Some(h)
    }

    /// Consumes and returns the next character, if any is left.
    pub fn next(&mut self) -> (c: Option<char>)
        requires
            old(self).wf(),
        ensures
            final(self).wf(),
            final(self).source() == old(self).source(),
            match c {
                Some(c) => {
                    &&& old(self).remaining().len() > 0
                    &&& c == old(self).remaining()[0]
                    &&& final(self).offset() == old(self).offset() + 1
                    &&& final(self).here() == loc_after(old(self).here(), old(self).remaining().take(1))
                },
                None => {
                    &&& old(self).remaining().len() == 0
                    &&& final(self).offset() == old(self).offset()
                    &&& final(self).here() == old(self).here()
                },
            },
    {
        let c = self.peek();
        if c.is_some() {
            let _ = self.advance(1);
        }
        c
    }
}

} // verus!
