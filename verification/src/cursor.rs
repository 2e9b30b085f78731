//! Walking through a text one character at a time.
//!
//! A cursor stands between two characters of a text, or at one of its ends,
//! and hands out the text before it and the text after it without copying
//! or counting: it keeps the byte offset of its position, and moves on by
//! the width of the character it passes.
use vstd::prelude::*;
use vstd::string::StringSliceAdditionalSpecFns;
use vstd::utf8::{
    decode_utf8,
    decode_utf8_split,
    encode_utf8,
    encode_utf8_decode_utf8,
    encode_utf8_valid_utf8,
    is_char_boundary,
    length_of_first_scalar,
    pop_first_scalar,
    valid_utf8,
    valid_utf8_split,
};

verus! {

/// A character boundary of what follows a character boundary is one of the
/// whole.
proof fn boundary_after_boundary(bytes: Seq<u8>, at: int, width: int)
    requires
        valid_utf8(bytes),
        0 <= at <= bytes.len(),
        is_char_boundary(bytes, at),
        0 <= width,
        is_char_boundary(bytes.subrange(at, bytes.len() as int), width),
    ensures
        is_char_boundary(bytes, at + width),
        at + width <= bytes.len(),
    decreases bytes.len(),
{
    let rest = bytes.subrange(at, bytes.len() as int);
    valid_utf8_split(bytes, at);
    if at == 0 {
        assert(rest =~= bytes);
    } else if width > 0 {
        let first = length_of_first_scalar(bytes);
        let tail = pop_first_scalar(bytes);
        assert(is_char_boundary(tail, at - first));
        assert(0 <= at - first <= tail.len());
        assert(tail.subrange(at - first, tail.len() as int) =~= rest);
        boundary_after_boundary(tail, at - first, width);
    }
}

/// A position in a text.
pub struct Cursor<'a> {
    text: &'a str,
    offset: usize,
    position: usize,
}

impl<'a> Cursor<'a> {
    #[verifier::type_invariant]
    spec fn in_step(self) -> bool {
        &&& self.position <= self.offset <= self.text.spec_bytes().len()
        &&& self.position <= self.text@.len()
        &&& is_char_boundary(self.text.spec_bytes(), self.offset as int)
        &&& decode_utf8(self.text.spec_bytes().subrange(0, self.offset as int))
            == self.text@.subrange(0, self.position as int)
    }

    /// The text that the cursor walks through.
    pub closed spec fn whole(self) -> Seq<char> {
        self.text@
    }

    /// How many characters lie before the cursor.
    pub closed spec fn passed(self) -> nat {
        self.position as nat
    }

    /// A cursor at the start of a text.
    pub fn new(text: &'a str) -> (r: Cursor<'a>)
        ensures
            r.whole() == text@,
            r.passed() == 0,
    {
        proof {
            let bytes = text.spec_bytes();
            encode_utf8_valid_utf8(text@);
            assert(bytes.subrange(0, 0) =~= Seq::<u8>::empty());
            assert(decode_utf8(Seq::<u8>::empty()) =~= Seq::<char>::empty());
            assert(text@.subrange(0, 0) =~= Seq::<char>::empty());
        }
        Cursor { text, offset: 0, position: 0 }
    }

    /// The text that the cursor walks through.
    pub fn text(&self) -> (r: &'a str)
        ensures
            r@ == self.whole(),
    {
        self.text
    }

    /// How many characters lie before the cursor.
    pub fn position(&self) -> (r: usize)
        ensures
            r == self.passed(),
            r <= self.whole().len(),
    {
        proof {
            use_type_invariant(self);
        }
        self.position
    }

    /// The text before the cursor and the text after it.
    pub fn sides(&self) -> (r: (&'a str, &'a str))
        ensures
            r.0@ == self.whole().subrange(0, self.passed() as int),
            r.1@ == self.whole().subrange(self.passed() as int, self.whole().len() as int),
    {
        proof {
            use_type_invariant(self);
        }
        let (left, right) = self.text.split_at(self.offset);
        proof {
            let bytes = self.text.spec_bytes();
            encode_utf8_valid_utf8(self.text@);
            encode_utf8_decode_utf8(self.text@);
            encode_utf8_decode_utf8(left@);
            encode_utf8_decode_utf8(right@);
            decode_utf8_split(bytes, self.offset as int);
            assert(self.text@ =~= left@ + right@);
            assert(right@ =~= self.text@.subrange(
                self.position as int,
                self.text@.len() as int,
            ));
        }
        (left, right)
    }

    /// Whether the cursor stands at the end of the text.
    pub fn at_end(&self) -> (r: bool)
        ensures
            r == (self.passed() == self.whole().len()),
    {
        proof {
            use_type_invariant(self);
            let bytes = self.text.spec_bytes();
            encode_utf8_valid_utf8(self.text@);
            encode_utf8_decode_utf8(self.text@);
            decode_utf8_split(bytes, self.offset as int);
            valid_utf8_split(bytes, self.offset as int);
            let before = bytes.subrange(0, self.offset as int);
            let rest = bytes.subrange(self.offset as int, bytes.len() as int);
            assert(self.text@.len() == decode_utf8(before).len() + decode_utf8(rest).len());
            assert(decode_utf8(before).len() == self.position);
            if self.offset == bytes.len() {
                assert(rest =~= Seq::<u8>::empty());
                assert(decode_utf8(rest).len() == 0);
            } else {
                assert(rest.len() > 0);
                assert(decode_utf8(rest).len() > 0);
            }
        }
        self.offset == self.text.as_bytes().len()
    }

    /// Moves the cursor past the character that follows it.
    pub fn advance(&mut self)
        requires
            old(self).passed() < old(self).whole().len(),
        ensures
            final(self).whole() == old(self).whole(),
            final(self).passed() == old(self).passed() + 1,
    {
        proof {
            use_type_invariant(&*self);
        }
        let ghost bytes = self.text.spec_bytes();
        let ghost rest = bytes.subrange(self.offset as int, bytes.len() as int);
        proof {
            encode_utf8_valid_utf8(self.text@);
            encode_utf8_decode_utf8(self.text@);
            decode_utf8_split(bytes, self.offset as int);
            valid_utf8_split(bytes, self.offset as int);
            if self.offset == bytes.len() {
                assert(bytes.subrange(0, self.offset as int) =~= bytes);
            }
            assert(rest.len() > 0);
            assert(rest[0] == bytes[self.offset as int]);
        }
        let lead = self.text.as_bytes()[self.offset];
        let width: usize = if lead <= 0x7f {
            1
        } else if 0xc0 <= lead && lead <= 0xdf {
            2
        } else if 0xe0 <= lead && lead <= 0xef {
            3
        } else {
            4
        };
        proof {
            assert(width == length_of_first_scalar(rest));
            assert(is_char_boundary(rest, width as int)) by {
                assert(is_char_boundary(pop_first_scalar(rest), 0));
            }
            boundary_after_boundary(bytes, self.offset as int, width as int);
            let next = self.offset + width;
            decode_utf8_split(bytes, next);
            valid_utf8_split(bytes, next);
            assert(bytes.subrange(next, bytes.len() as int) =~= pop_first_scalar(rest));
            assert(decode_utf8(rest).len() == decode_utf8(pop_first_scalar(rest)).len() + 1);
            assert(decode_utf8(bytes.subrange(0, next)).len() == self.position + 1);
            assert(decode_utf8(bytes.subrange(0, next)) =~= self.text@.subrange(
                0,
                self.position + 1,
            ));
        }
        *self = Cursor {
            text: self.text,
            offset: self.offset + width,
            position: self.position + 1,
        };
    }
}

} // verus!
