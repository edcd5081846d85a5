//! A cursor over the characters of a text that keeps the byte offset of the
//! current character.
use vstd::prelude::*;
use vstd::utf8::*;
use crate::offsets::{byte_offset, lemma_byte_at_offset, lemma_byte_offset_ends, lemma_byte_offset_monotone, lemma_byte_offset_step, lemma_index_le_offset, lemma_lead_byte, slice_chars};

verus! {

pub struct Cursor<'src> {
    input: &'src str,
    bytes: &'src [u8],
    index: usize,
    position: usize,
}

impl<'src> Cursor<'src> {
    /// The characters of the text.
    pub open spec fn src(&self) -> Seq<char> {
        self.input()@
    }

    /// The text itself.
    pub closed spec fn input(&self) -> &'src str {
        self.input
    }

    /// Index of the current character; the length of the text once exhausted.
    pub closed spec fn index(&self) -> nat {
        self.index as nat
    }

    /// The current character, if any.
    pub open spec fn current_spec(&self) -> Option<char> {
        if self.index() < self.src().len() {
            Some(self.src()[self.index() as int])
        } else {
            None
        }
    }

    /// The cursor is consistent with its text; its index is within the text.
    pub open spec fn wf(&self) -> bool {
        self.inv() && self.index() <= self.src().len()
    }

    pub closed spec fn inv(&self) -> bool {
        &&& self.bytes@ == encode_utf8(self.input@)
        &&& self.index <= self.input@.len()
        &&& self.position == byte_offset(self.input@, self.index as int)
    }

    /// Start at the first character of `input`.
    pub fn new(input: &'src str) -> (c: Cursor<'src>)
        ensures
            c.wf(),
            c.input() == input,
            c.index() == 0,
    {
        let bytes = input.as_bytes();
        proof {
            lemma_byte_offset_ends(input@);
        }
        Cursor { input, bytes, index: 0, position: 0 }
    }

    /// Byte offset of the current character; the byte length of the text once exhausted.
    pub fn position(&self) -> (r: usize)
        requires
            self.wf(),
        ensures
            r == byte_offset(self.src(), self.index() as int),
    {
        self.position
    }

    /// Whether the text is exhausted.
    pub fn at_end(&self) -> (r: bool)
        requires
            self.wf(),
        ensures
            r == (self.index() == self.src().len()),
    {
        proof {
            lemma_byte_offset_ends(self.input@);
            if self.index < self.input@.len() {
                lemma_byte_offset_monotone(self.input@, self.index as int, self.input@.len() as int);
            }
        }
        self.position == self.bytes.len()
    }

    /// The current character when it is an ASCII character; `None` at the end
    /// of the text and on any other character.
    pub fn current_ascii(&self) -> (r: Option<char>)
        requires
            self.wf(),
        ensures
            r == (match self.current_spec() {
                Some(c) => if (c as u32) < 0x80 { Some(c) } else { None::<char> },
                None => None::<char>,
            }),
    {
        if self.at_end() {
            return None;
        }
        proof {
            lemma_byte_at_offset(self.input@, self.index as int);
            lemma_lead_byte(self.input@[self.index as int]);
        }
        let b = self.bytes[self.position];
        if b < 0x80 {
            let c = b as char;
            proof {
                vstd::utf8::char_u32_cast(self.input@[self.index as int], b as u32);
            }
            Some(c)
        } else {
            None
        }
    }

    /// The current character; the text must not be exhausted.
    pub fn current_char(&self) -> (r: char)
        requires
            self.wf(),
            self.index() < self.src().len(),
        ensures
            r == self.src()[self.index() as int],
    {
        match self.current_ascii() {
            Some(c) => c,
            None => self.input.get_char(self.index),
        }
    }

    /// The current character, or `None` at the end of the text.
    pub fn current(&self) -> (r: Option<char>)
        requires
            self.wf(),
        ensures
            r == self.current_spec(),
    {
        if self.at_end() {
            None
        } else {
            Some(self.current_char())
        }
    }

    /// Move to the next character; does nothing once the text is exhausted.
    pub fn advance(&mut self)
        requires
            old(self).wf(),
        ensures
            final(self).wf(),
            final(self).input() == old(self).input(),
            final(self).index() == (if old(self).index() < old(self).src().len() {
                old(self).index() + 1
            } else {
                old(self).index()
            }),
    {
        if self.at_end() {
            return;
        }
        let ghost i = self.index as int;
        proof {
            lemma_byte_at_offset(self.input@, i);
            lemma_lead_byte(self.input@[i]);
            lemma_byte_offset_step(self.input@, i);
            lemma_byte_offset_monotone(self.input@, i + 1, self.input@.len() as int);
            lemma_byte_offset_ends(self.input@);
            lemma_index_le_offset(self.input@, i + 1);
        }
        let b = self.bytes[self.position];
        let w: usize = if b < 0x80 {
            1
        } else if b < 0xE0 {
            2
        } else if b < 0xF0 {
            3
        } else {
            4
        };
        self.position = self.position + w;
        self.index = self.index + 1;
    }

    /// The text between two byte offsets, given with the character indices they belong to.
    pub fn slice(&self, from: usize, to: usize, Ghost(a): Ghost<int>, Ghost(b): Ghost<int>) -> (r: &'src str)
        requires
            self.wf(),
            0 <= a <= b <= self.src().len(),
            from == byte_offset(self.src(), a),
            to == byte_offset(self.src(), b),
        ensures
            r@ == self.src().subrange(a, b),
    {
        slice_chars(self.input, from, to, Ghost(a), Ghost(b))
    }
}

} // verus!
