use vstd::prelude::*;
use vstd::string::*;
use crate::text::append_spaces;
use crate::reader::chars_of;
use crate::token::Loc;

verus! {

/// The offset at which the line that holds offset `from` ends: that of the
/// first newline at or behind `from`, or the length of the text.
pub open spec fn line_end(s: Seq<char>, from: int) -> int
    decreases s.len() - from,
{
    if from < 0 || from >= s.len() {
        s.len() as int
    } else if s[from] == '\n' {
        from
    } else {
        line_end(s, from + 1)
    }
}

/// The offset at which line number `line` begins, where the text has that
/// many lines. Lines are what newlines separate, so a text that ends with a
/// newline has an empty last line.
pub open spec fn line_begin(s: Seq<char>, line: nat) -> Option<int>
    decreases line,
{
    if line == 0 {
        Some(0)
    } else {
        match line_begin(s, (line - 1) as nat) {
            Some(begin) => if line_end(s, begin) < s.len() {
                Some(line_end(s, begin) + 1)
            } else {
                None
            },
            None => None,
        }
    }
}

/// Line number `line` of the text, without its newline.
pub open spec fn line_at(s: Seq<char>, line: nat) -> Option<Seq<char>> {
    match line_begin(s, line) {
        Some(begin) => Some(s.subrange(begin, line_end(s, begin))),
        None => None,
    }
}

/// The report on `loc`: the source line, a caret under column `col`, and the
/// message, each on a line of its own.
pub open spec fn report(line: Seq<char>, col: nat, message: Seq<char>) -> Seq<char> {
    line + seq!['\n'] + Seq::new(col, |i: int| ' ') + seq!['^', '\n'] + message + seq!['\n']
}

/// The offset at which the line that holds offset `from` ends.
fn find_line_end(chars: &Vec<char>, from: usize) -> (end: usize)
    requires
        from <= chars.len(),
    ensures
        end == line_end(chars@, from as int),
        from <= end <= chars.len(),
{
    let mut end: usize = from;
    while end < chars.len() && chars[end] != '\n'
        invariant
            from <= end <= chars.len(),
            line_end(chars@, from as int) == line_end(chars@, end as int),
        decreases chars.len() - end,
    {
        end += 1;
    }
    end
}

/// Renders the diagnostic for a location in `source`: the line that
/// `loc.line` names, a second line with a caret under column `loc.col`, and
/// `message` on a third. `None` where the text has no such line.
pub fn render_compile_error(source: &str, loc: Loc, message: &str) -> (res: Option<String>)
    ensures
        match res {
            Some(text) => line_at(source@, loc.line as nat) is Some && text@ == report(
                line_at(source@, loc.line as nat)->0,
                loc.col as nat,
                message@,
            ),
            None => line_at(source@, loc.line as nat) is None,
        },
{
    let chars = chars_of(source);
    let mut begin: usize = 0;
    let mut line: usize = 0;
    while line < loc.line
        invariant
            chars@ == source@,
            line <= loc.line,
            begin <= chars.len(),
            line_begin(source@, line as nat) == Some(begin as int),
        decreases loc.line - line,
    {
        let end = find_line_end(&chars, begin);
        if end >= chars.len() {
            proof {
                lemma_no_later_line(source@, (line + 1) as nat, loc.line as nat);
            }
            return None;
        }
        begin = end + 1;
        line += 1;
    }
    let end = find_line_end(&chars, begin);
    proof {
        reveal_strlit("\n");
        reveal_strlit("^\n");
    }
    let mut text = String::new();
    text.append(source.substring_char(begin, end));
    text.append("\n");
    append_spaces(&mut text, loc.col);
    text.append("^\n");
    text.append(message);
    text.append("\n");
    assert(text@ =~= report(source@.subrange(begin as int, end as int), loc.col as nat, message@));
    Some(text)
}

/// A text without line `first` has no later line either.
proof fn lemma_no_later_line(s: Seq<char>, first: nat, later: nat)
    requires
        first <= later,
        line_begin(s, first) is None,
    ensures
        line_begin(s, later) is None,
    decreases later,
{
    if first < later {
        lemma_no_later_line(s, first, (later - 1) as nat);
    }
}

} // verus!
