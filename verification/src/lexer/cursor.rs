//! A cursor over the characters of a source that tracks its position.
use vstd::prelude::*;
use vstd::string::StringSliceAdditionalSpecFns;
use vstd::utf8::char_is_scalar;
use vstd::utf8::encode_scalar;
use vstd::utf8::encode_utf8;

use crate::token::Position;

verus! {

/// The character that stands for the end of the input.
pub const END: char = '\0';

/// The number of bytes that `c` takes in UTF-8.
pub open spec fn width(c: char) -> nat {
    encode_scalar(c as u32).len()
}

/// The byte offset of the character at index `i` of `src`.
pub open spec fn offset_at(src: Seq<char>, i: int) -> nat
    decreases i,
{
    if i <= 0 {
        0
    } else {
        offset_at(src, i - 1) + width(src[i - 1])
    }
}

/// The line, counted from 1, of the character at index `i` of `src`.
pub open spec fn line_at(src: Seq<char>, i: int) -> nat
    decreases i,
{
    if i <= 0 {
        1
    } else if src[i - 1] == '\n' {
        line_at(src, i - 1) + 1
    } else {
        line_at(src, i - 1)
    }
}

/// The byte offset at which the line of the character at index `i` of `src` starts.
pub open spec fn line_start_at(src: Seq<char>, i: int) -> nat
    decreases i,
{
    if i <= 0 {
        0
    } else if src[i - 1] == '\n' {
        offset_at(src, i)
    } else {
        line_start_at(src, i - 1)
    }
}

/// The position of the character at index `i` of `src`; for `i == src.len()`, the position of the end.
pub open spec fn position_at(src: Seq<char>, i: int) -> Position {
    Position {
        offset: offset_at(src, i) as usize,
        line: line_at(src, i) as usize,
        line_offset: line_start_at(src, i) as usize,
    }
}

/// The character at index `i` of `src`, or `END` past the last one.
pub open spec fn char_at(src: Seq<char>, i: int) -> char {
    if 0 <= i < src.len() {
        src[i]
    } else {
        END
    }
}

/// The encoding of a text with one more character is the encoding of the text, then that of the character.
pub proof fn lemma_encode_push(s: Seq<char>, c: char)
    ensures
        encode_utf8(s.push(c)) == encode_utf8(s) + encode_scalar(c as u32),
    decreases s.len(),
{
    if s.len() == 0 {
        assert(s.push(c).drop_first() =~= s);
        assert(encode_utf8(s.push(c).drop_first()) == Seq::<u8>::empty());
        assert(encode_utf8(s.push(c)) =~= encode_utf8(s) + encode_scalar(c as u32));
    } else {
        lemma_encode_push(s.drop_first(), c);
        assert(s.push(c).drop_first() =~= s.drop_first().push(c));
        assert(encode_utf8(s.push(c)) =~= encode_utf8(s) + encode_scalar(c as u32));
    }
}

/// The offset of a character is the length in bytes of the text before it.
pub proof fn lemma_offset_is_encoded_length(src: Seq<char>, i: int)
    requires
        0 <= i <= src.len(),
    ensures
        offset_at(src, i) == encode_utf8(src.take(i)).len(),
    decreases i,
{
    if i > 0 {
        lemma_offset_is_encoded_length(src, i - 1);
        lemma_encode_push(src.take(i - 1), src[i - 1]);
        assert(src.take(i) =~= src.take(i - 1).push(src[i - 1]));
    } else {
        assert(src.take(0) =~= Seq::<char>::empty());
    }
}

/// Offsets, lines and line starts grow with the index, and a line starts no later than its characters.
pub proof fn lemma_positions_grow(src: Seq<char>, i: int, j: int)
    requires
        0 <= i <= j <= src.len(),
    ensures
        offset_at(src, i) + (j - i) <= offset_at(src, j),
        line_at(src, i) <= line_at(src, j) <= line_at(src, i) + (j - i),
        line_start_at(src, i) <= line_start_at(src, j) <= offset_at(src, j),
    decreases j,
{
    if i < j {
        lemma_positions_grow(src, i, j - 1);
        lemma_width_bounds(src[j - 1]);
    } else if i > 0 {
        lemma_positions_grow(src, i - 1, i - 1);
        lemma_width_bounds(src[i - 1]);
    }
}

/// A character takes from one to four bytes.
pub proof fn lemma_width_bounds(c: char)
    ensures
        1 <= width(c) <= 4,
{
    char_is_scalar(c);
}

/// The number of bytes that `c` takes in UTF-8.
pub fn char_width(c: char) -> (w: usize)
    ensures
        w == width(c),
        1 <= w <= 4,
{
    proof {
        char_is_scalar(c);
    }
    let v: u32 = c as u32;
    if v <= 0x7F {
        1
    } else if v <= 0x7FF {
        2
    } else if v <= 0xFFFF {
        3
    } else {
        4
    }
}

/// The indexed place of a cursor: the index of its current character and the position of it.
#[derive(Clone, Copy, Debug)]
struct Place {
    index: usize,
    position: Position,
}

/// A cursor over the characters of a source, with lookahead, that tracks the position of its
/// current character. Past the last character it stands at the end and stays there.
#[derive(Clone, Debug)]
pub struct Cursor {
    /// The characters of the source, then one `END`.
    chars: Vec<char>,
    place: Place,
}

impl Cursor {
    /// The characters of the source that the cursor reads.
    pub closed spec fn source(&self) -> Seq<char> {
        self.chars@.drop_last()
    }

    /// The index in the source of the current character; the length of the source at the end.
    pub closed spec fn index(&self) -> int {
        self.place.index as int
    }

    /// The cursor's invariant: it stands in its source or at the end of it, and knows its position.
    pub closed spec fn wf(&self) -> bool {
        &&& self.chars@.len() >= 1
        &&& self.chars@.last() == END
        &&& self.place.index < self.chars@.len()
        &&& offset_at(self.source(), self.source().len() as int) <= usize::MAX
        &&& self.place.position == position_at(self.source(), self.index())
    }

    /// A well-formed cursor stands in its source or at its end, and the source fits in memory.
    pub proof fn lemma_wf(&self)
        requires
            self.wf(),
        ensures
            0 <= self.index() <= self.source().len(),
            offset_at(self.source(), self.source().len() as int) <= usize::MAX,
            self.source().len() < usize::MAX,
    {
        assert(self.chars.len() <= usize::MAX);
    }

    pub fn new(source: &str) -> (cursor: Self)
        ensures
            cursor.wf(),
            cursor.source() == source@,
            cursor.index() == 0,
    {
        let mut chars: Vec<char> = Vec::new();
        for c in it: source.chars()
            invariant
                it.seq() == source@,
                chars@ == source@.take(it.index() as int),
        {
            chars.push(c);
            assert(source@.take(it.index() + 1) =~= source@.take(it.index() as int).push(c));
        }
        assert(chars@ =~= source@);
        chars.push(END);
        let bytes = source.as_bytes();
        let _total: usize = bytes.len();
        proof {
            assert(chars@.drop_last() =~= source@);
            assert(source@.take(source@.len() as int) =~= source@);
            lemma_offset_is_encoded_length(source@, source@.len() as int);
        }
        Cursor { chars, place: Place { index: 0, position: Position::new() } }
    }

    /// The current character; `END` at the end of the source.
    pub fn current(&self) -> (c: char)
        requires
            self.wf(),
        ensures
            c == char_at(self.source(), self.index()),
    {
        self.chars[self.place.index]
    }

    /// Whether the cursor stands at the end of the source, past its last character.
    pub fn at_end(&self) -> (r: bool)
        requires
            self.wf(),
        ensures
            r == (self.index() == self.source().len()),
    {
        self.place.index == self.chars.len() - 1
    }

    /// The position of the current character.
    pub fn position(&self) -> (p: Position)
        requires
            self.wf(),
        ensures
            p == position_at(self.source(), self.index()),
    {
        self.place.position
    }

    /// Advances the cursor by one character, unless it stands at the end, and returns the new
    /// current character.
    pub fn next(&mut self) -> (c: char)
        requires
            old(self).wf(),
        ensures
            final(self).wf(),
            final(self).source() == old(self).source(),
            final(self).index() == if old(self).index() < old(self).source().len() {
                old(self).index() + 1
            } else {
                old(self).index()
            },
            c == char_at(final(self).source(), final(self).index()),
    {
        let index = self.place.index;
        if index < self.chars.len() - 1 {
            let current = self.chars[index];
            let position = self.place.position;
            proof {
                lemma_positions_grow(self.source(), index + 1, self.source().len() as int);
                lemma_positions_grow(self.source(), 0, index + 1);
            }
            let offset: usize = position.offset + char_width(current);
            let next = if current == '\n' {
                Position { offset, line: position.line + 1, line_offset: offset }
            } else {
                Position { offset, line: position.line, line_offset: position.line_offset }
            };
            self.place = Place { index: index + 1, position: next };
        }
        self.chars[self.place.index]
    }

    /// Advances the cursor by `n` characters, or to the end if fewer are left.
    pub fn skip(&mut self, n: usize)
        requires
            old(self).wf(),
        ensures
            final(self).wf(),
            final(self).source() == old(self).source(),
            final(self).index() == if old(self).index() + n <= old(self).source().len() {
                old(self).index() + n
            } else {
                old(self).source().len() as int
            },
    {
        let mut i: usize = 0;
        while i < n
            invariant
                i <= n,
                self.wf(),
                self.source() == old(self).source(),
                self.index() == if old(self).index() + i <= old(self).source().len() {
                    old(self).index() + i
                } else {
                    old(self).source().len() as int
                },
            decreases n - i,
        {
            self.next();
            i += 1;
        }
    }

    /// The character after the current one, without advancing; `END` if there is none.
    pub fn peek(&self) -> (c: char)
        requires
            self.wf(),
        ensures
            c == char_at(self.source(), self.index() + 1),
    {
        self.peek_nth(0)
    }

    /// The character `n + 1` places after the current one, without advancing; `END` if there is none.
    pub fn peek_nth(&self, n: usize) -> (c: char)
        requires
            self.wf(),
        ensures
            c == char_at(self.source(), self.index() + 1 + n),
    {
        let left: usize = self.chars.len() - 1 - self.place.index;
        if n < left {
            self.chars[self.place.index + 1 + n]
        } else {
            END
        }
    }
}

} // verus!
