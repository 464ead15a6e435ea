//! Cutting text to a stored length without splitting a character.

use vstd::prelude::*;
use vstd::string::*;
use vstd::utf8::{
    encode_utf8,
    encode_utf8_valid_utf8,
    is_char_boundary,
    is_char_boundary_start_end_of_seq,
};

verus! {

/// The greatest offset up to `limit` at which a character of the text starts,
/// or zero where there is none.
pub open spec fn last_start_within(bytes: Seq<u8>, limit: int) -> int
    decreases limit,
{
    if limit <= 0 {
        0
    } else if limit < bytes.len() && is_char_boundary(bytes, limit) {
        limit
    } else {
        last_start_within(bytes, limit - 1)
    }
}

/// The offset at which the character that starts at `from` ends: the next
/// character boundary, or the end of the text.
pub open spec fn boundary_after(bytes: Seq<u8>, from: int) -> int
    decreases bytes.len() - from,
{
    if from + 1 >= bytes.len() {
        bytes.len() as int
    } else if is_char_boundary(bytes, from + 1) {
        from + 1
    } else {
        boundary_after(bytes, from + 1)
    }
}

/// What trimming a borrowed text to `length` keeps of its bytes: all of them
/// where the text is shorter than `length`; else those before the last
/// character that starts at or before `length`.
pub open spec fn trimmed_slice(bytes: Seq<u8>, length: usize) -> Seq<u8> {
    if bytes.len() < length {
        bytes
    } else {
        bytes.subrange(0, last_start_within(bytes, length as int))
    }
}

/// What trimming an owned text to `length` keeps of its bytes: all of them
/// where the text is shorter than `length`; else those up to the end of the
/// last character that starts at or before `length`.
pub open spec fn trimmed_string(bytes: Seq<u8>, length: usize) -> Seq<u8> {
    if bytes.len() < length || bytes.len() == 0 {
        bytes
    } else {
        bytes.subrange(0, boundary_after(bytes, last_start_within(bytes, length as int)))
    }
}

/// Values that hold text and can be cut to a length.
pub trait TrimTextValue: Sized {
    /// Whether `trimmed` is `self` cut to `length`.
    spec fn trims_to(self, length: usize, trimmed: Self) -> bool;

    /// Cuts the text that the value holds to `length` bytes or a little more,
    /// without splitting a character.
    fn trim_text(self, length: usize) -> (trimmed: Self)
        ensures
            self.trims_to(length, trimmed),
    ;
}

fn last_start(text: &str, length: usize) -> (index: usize)
    requires
        text.spec_bytes().len() >= length,
    ensures
        index == last_start_within(text.spec_bytes(), length as int),
        index <= length,
        text.spec_bytes().len() > 0 ==> index < text.spec_bytes().len(),
        is_char_boundary(text.spec_bytes(), index as int),
{
    let len = text.as_bytes().len();
    let mut i: usize = length;
    proof {
        encode_utf8_valid_utf8(text@);
        is_char_boundary_start_end_of_seq(text.spec_bytes());
    }
    while i > 0
        invariant
            i <= length,
            len == text.spec_bytes().len(),
            is_char_boundary(text.spec_bytes(), 0),
            last_start_within(text.spec_bytes(), length as int) == last_start_within(
                text.spec_bytes(),
                i as int,
            ),
        decreases i,
    {
        if i < len && text.is_char_boundary(i) {
            return i;
        }
        i -= 1;
    }
    0
}

fn next_boundary(text: &str, from: usize) -> (index: usize)
    requires
        from < text.spec_bytes().len(),
    ensures
        index == boundary_after(text.spec_bytes(), from as int),
        from < index <= text.spec_bytes().len(),
        is_char_boundary(text.spec_bytes(), index as int),
{
    let len = text.as_bytes().len();
    let mut i: usize = from;
    proof {
        encode_utf8_valid_utf8(text@);
        is_char_boundary_start_end_of_seq(text.spec_bytes());
    }
    while i + 1 < len
        invariant
            from <= i < len,
            len == text.spec_bytes().len(),
            is_char_boundary(text.spec_bytes(), len as int),
            boundary_after(text.spec_bytes(), from as int) == boundary_after(
                text.spec_bytes(),
                i as int,
            ),
        decreases len - i,
    {
        if text.is_char_boundary(i + 1) {
            return i + 1;
        }
        i += 1;
    }
    len
}

impl<'a> TrimTextValue for &'a str {
    open spec fn trims_to(self, length: usize, trimmed: Self) -> bool {
        trimmed.spec_bytes() == trimmed_slice(self.spec_bytes(), length)
    }

    fn trim_text(self, length: usize) -> (trimmed: Self) {
        if self.as_bytes().len() < length {
            self
        } else {
            let index = last_start(self, length);
            self.split_at(index).0
        }
    }
}

impl TrimTextValue for String {
    open spec fn trims_to(self, length: usize, trimmed: Self) -> bool {
        encode_utf8(trimmed@) == trimmed_string(encode_utf8(self@), length)
    }

    fn trim_text(self, length: usize) -> (trimmed: Self) {
        let text = self.as_str();
        let len = text.as_bytes().len();
        if len < length || len == 0 {
            self
        } else {
            let start = last_start(text, length);
            let end = next_boundary(text, start);
            text.split_at(end).0.to_owned()
        }
    }
}

impl<T: TrimTextValue> TrimTextValue for Vec<T> {
    open spec fn trims_to(self, length: usize, trimmed: Self) -> bool {
        &&& trimmed@.len() == self@.len()
        &&& forall|i: int|
            0 <= i < self@.len() ==> (#[trigger] self@[i]).trims_to(length, trimmed@[i])
    }

    fn trim_text(self, length: usize) -> (trimmed: Self) {
        let mut trimmed: Vec<T> = Vec::new();
        for value in it: self.into_iter()
            invariant
                it.seq() == self@,
                trimmed@.len() == it.index(),
                forall|i: int|
                    0 <= i < it.index() ==> (#[trigger] self@[i]).trims_to(length, trimmed@[i]),
        {
            trimmed.push(value.trim_text(length));
        }
        trimmed
    }
}

} // verus!
