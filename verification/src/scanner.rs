//! Character classes of the grammar and the read cursor over the input text.

use vstd::prelude::*;

verus! {

/// Whether `c` is one of the three whitespace characters: space, newline, tab.
pub open spec fn is_space(c: char) -> bool {
    c == ' ' || c == '\n' || c == '\t'
}

/// Whether `c` is an ASCII decimal digit.
pub open spec fn is_digit(c: char) -> bool {
    '0' <= c && c <= '9'
}

/// Whether `c` ends a symbol: whitespace or a parenthesis.
pub open spec fn is_delimiter(c: char) -> bool {
    is_space(c) || c == '(' || c == ')'
}

/// The character at index `i`, if the text reaches that far.
pub open spec fn char_at(s: Seq<char>, i: int) -> Option<char> {
    if 0 <= i < s.len() {
        Some(s[i])
    } else {
        None
    }
}

/// The end of the longest run of characters of one class that starts at `i`:
/// the first index from `i` on whose character is outside the class, or the
/// length of `s` where there is none.
pub open spec fn run_end(s: Seq<char>, i: int, class: spec_fn(char) -> bool) -> int
    decreases s.len() - i,
{
    if 0 <= i < s.len() && class(s[i]) {
        run_end(s, i + 1, class)
    } else {
        i
    }
}

/// Where the whitespace that starts at `i` ends.
pub open spec fn spaces_end(s: Seq<char>, i: int) -> int {
    run_end(s, i, |c: char| is_space(c))
}

/// Where the digits that start at `i` end.
pub open spec fn digits_end(s: Seq<char>, i: int) -> int {
    run_end(s, i, |c: char| is_digit(c))
}

/// Where the symbol that starts at `i` ends.
pub open spec fn word_end(s: Seq<char>, i: int) -> int {
    run_end(s, i, |c: char| !is_delimiter(c))
}

/// A run does not go backwards, ends inside the text, holds only characters of
/// its class, and cannot be made longer.
pub proof fn lemma_run_end(s: Seq<char>, i: int, class: spec_fn(char) -> bool)
    ensures
        i <= run_end(s, i, class),
        i <= s.len() ==> run_end(s, i, class) <= s.len(),
        forall|k: int| i <= k < run_end(s, i, class) ==> class(#[trigger] s[k]),
        0 <= run_end(s, i, class) < s.len() ==> !class(s[run_end(s, i, class)]),
    decreases s.len() - i,
{
    if 0 <= i < s.len() && class(s[i]) {
        lemma_run_end(s, i + 1, class);
    }
}

/// An index from which every character up to `end` is of the class, and at
/// which the text ends or holds a character outside the class, is where the
/// run ends.
pub proof fn lemma_run_ends_at(s: Seq<char>, i: int, end: int, class: spec_fn(char) -> bool)
    requires
        0 <= i <= end <= s.len(),
        forall|k: int| i <= k < end ==> class(#[trigger] s[k]),
        end < s.len() ==> !class(s[end]),
    ensures
        run_end(s, i, class) == end,
    decreases end - i,
{
    if i < end {
        lemma_run_ends_at(s, i + 1, end, class);
    }
}

/// A read position in a text. The position never passes the end of the text.
pub struct Cursor {
    chars: Vec<char>,
    pos: usize,
}

impl Cursor {
    /// The whole text, read or not.
    pub closed spec fn text(&self) -> Seq<char> {
        self.chars@
    }

    /// The index of the next character to read.
    pub closed spec fn pos(&self) -> int {
        self.pos as int
    }

    /// The position is inside the text or at its end.
    #[verifier::type_invariant]
    pub open spec fn in_bounds(&self) -> bool {
        0 <= self.pos() <= self.text().len()
    }

    /// A cursor at the start of `text`.
    pub fn new(text: &str) -> (cursor: Cursor)
        ensures
            cursor.text() == text@,
            cursor.pos() == 0,
    {
        let mut chars: Vec<char> = Vec::new();
        for c in it: text.chars()
            invariant
                chars@ == it.seq().take(it.index()),
        {
            chars.push(c);
        }
        Cursor { chars, pos: 0 }
    }

    /// The index of the next character to read.
    pub fn position(&self) -> (p: usize)
        ensures
            p == self.pos(),
    {
        proof {
            use_type_invariant(self);
        }
        self.pos
    }

    /// The next character, if the text has not ended. The cursor stays.
    pub fn peek(&self) -> (next: Option<char>)
        ensures
            next == char_at(self.text(), self.pos()),
    {
        proof {
            use_type_invariant(self);
        }
        if self.pos < self.chars.len() {
            Some(self.chars[self.pos])
        } else {
            None
        }
    }

    /// Steps over the next character, if the text has not ended.
    pub fn advance(&mut self)
        ensures
            final(self).text() == old(self).text(),
            final(self).pos() == if old(self).pos() < old(self).text().len() {
                old(self).pos() + 1
            } else {
                old(self).pos()
            },
    {
        proof {
            use_type_invariant(&*self);
        }
        if self.pos < self.chars.len() {
            self.pos = self.pos + 1;
        }
    }
}

/// Moves the cursor past the whitespace in front of it: it stops at the first
/// character that is not a space, newline or tab, or at the end of the text.
pub fn strip_ws(iter: &mut Cursor)
    ensures
        final(iter).text() == old(iter).text(),
        final(iter).pos() == spaces_end(old(iter).text(), old(iter).pos()),
{
    loop
        invariant
            iter.text() == old(iter).text(),
            spaces_end(iter.text(), iter.pos()) == spaces_end(old(iter).text(), old(iter).pos()),
        ensures
            iter.text() == old(iter).text(),
            iter.pos() == spaces_end(old(iter).text(), old(iter).pos()),
        decreases iter.text().len() - iter.pos(),
    {
        match iter.peek() {
            Some(c) => {
                if c == ' ' || c == '\n' || c == '\t' {
                    iter.advance();
                } else {
                    break;
                }
            },
            None => {
                break;
            },
        }
    }
}

} // verus!
