//! The text under which an address header is sorted: names and addresses in
//! lower case, separated by single spaces, cut at a fixed length.

use vstd::prelude::*;
use vstd::string::*;
use vstd::utf8::encode_utf8;

verus! {

/// The most bytes a sort text takes before it is cut.
pub const MAX_SORT_FIELD_LENGTH: usize = 255;

/// The characters that the standard library's `char::to_lowercase` yields for
/// a character: its lower-case mapping by the Unicode tables.
pub uninterp spec fn lowercase_of(ch: char) -> Seq<char>;

/// Whether the standard library's `char::is_whitespace` holds of a character:
/// whether it has the Unicode property `White_Space`.
pub uninterp spec fn is_whitespace_char(ch: char) -> bool;

/// Calls `char::to_lowercase` and collects the characters it yields.
#[verifier::external_body]
fn lowercase(ch: char) -> (lower: Vec<char>)
    ensures
        lower@ == lowercase_of(ch),
{
    ch.to_lowercase().collect()
}

/// Calls `char::is_whitespace`.
#[verifier::external_body]
fn is_whitespace(ch: char) -> (yes: bool)
    ensures
        yes == is_whitespace_char(ch),
{
    ch.is_whitespace()
}

/// Calls `String::push`, which appends the character to the string.
#[verifier::external_body]
fn push_char(text: &mut String, ch: char)
    ensures
        final(text)@ == old(text)@.push(ch),
{
    text.push(ch);
}

/// A sort text under construction.
pub struct SortTextView {
    pub buf: Seq<char>,
    /// Whether a whitespace character would follow whitespace, or stand at the
    /// beginning.
    pub last_is_space: bool,
}

/// The text in lower case: the lower-case mapping of each character, in order.
pub open spec fn lowered(text: Seq<char>) -> Seq<char>
    decreases text.len(),
{
    if text.len() == 0 {
        Seq::empty()
    } else {
        lowercase_of(text.first()) + lowered(text.drop_first())
    }
}

impl SortTextView {
    /// Whether the text has reached the length at which it is cut.
    pub open spec fn is_full(self) -> bool {
        encode_utf8(self.buf).len() >= MAX_SORT_FIELD_LENGTH
    }

    /// The text after one more character: whitespace that follows whitespace
    /// is dropped.
    pub open spec fn with_char(self, ch: char) -> SortTextView {
        if !is_whitespace_char(ch) || !self.last_is_space {
            SortTextView { buf: self.buf.push(ch), last_is_space: is_whitespace_char(ch) }
        } else {
            self
        }
    }

    /// The text after the characters `chars` were added one by one, and
    /// whether all of them were looked at: adding stops at the first character
    /// that finds the text full.
    pub open spec fn with_chars(self, chars: Seq<char>) -> (SortTextView, bool)
        decreases chars.len(),
    {
        if chars.len() == 0 {
            (self, true)
        } else if self.is_full() {
            (self, false)
        } else {
            self.with_char(chars.first()).with_chars(chars.drop_first())
        }
    }

    /// The text after the part `text` was added, and whether all of it was
    /// taken: an empty part changes nothing; any other is set off from what is
    /// there by a space and added in lower case.
    pub open spec fn with_part(self, text: Seq<char>) -> (SortTextView, bool) {
        if text.len() == 0 {
            (self, true)
        } else if self.buf.len() > 0 {
            (SortTextView { buf: self.buf.push(' '), last_is_space: true }).with_chars(
                lowered(text),
            )
        } else {
            self.with_chars(lowered(text))
        }
    }

    /// What the builder hands out: the text, or an exclamation mark where the
    /// text is empty.
    pub open spec fn built(self) -> Seq<char> {
        if self.buf.len() > 0 {
            self.buf
        } else {
            seq!['!']
        }
    }
}

/// Builds the text under which an address header is sorted.
#[derive(Debug)]
pub struct SortedAddressBuilder {
    /// Whether a whitespace character would be dropped if it came next.
    pub last_is_space: bool,
    /// The text built so far.
    pub buf: String,
}

impl View for SortedAddressBuilder {
    type V = SortTextView;

    open spec fn view(&self) -> SortTextView {
        SortTextView { buf: self.buf@, last_is_space: self.last_is_space }
    }
}

impl SortedAddressBuilder {
    /// An empty builder.
    pub fn new() -> (builder: SortedAddressBuilder)
        ensures
            builder@ == (SortTextView { buf: Seq::empty(), last_is_space: true }),
    {
        SortedAddressBuilder { last_is_space: true, buf: String::new() }
    }

    /// Adds a part, such as a name or an address. Returns whether all of it
    /// was taken; if not, the text is full and holds what fitted.
    pub fn push(&mut self, text: &str) -> (taken: bool)
        ensures
            final(self)@ == old(self)@.with_part(text@).0,
            taken == old(self)@.with_part(text@).1,
    {
        if text.is_empty() {
            return true;
        }
        if !self.buf.as_str().is_empty() {
            push_char(&mut self.buf, ' ');
            self.last_is_space = true;
        }
        let ghost start = self@;
        let ghost goal = start.with_chars(lowered(text@));
        proof {
            assert(text@.skip(0) =~= text@);
        }
        for ch in it: text.chars()
            invariant
                it.seq() == text@,
                goal == self@.with_chars(lowered(text@.skip(it.index() as int))),
                old(self)@.with_part(text@) == goal,
        {
            let ghost i = it.index() as int;
            let lower = lowercase(ch);
            let ghost tail = lowered(text@.skip(i + 1));
            let mut j: usize = 0;
            proof {
                assert(text@.skip(i).first() == ch);
                assert(text@.skip(i).drop_first() =~= text@.skip(i + 1));
                assert(lower@.skip(0) =~= lower@);
            }
            while j < lower.len()
                invariant
                    j <= lower.len(),
                    goal == self@.with_chars(lower@.skip(j as int) + tail),
                    old(self)@.with_part(text@) == goal,
                decreases lower.len() - j,
            {
                proof {
                    assert((lower@.skip(j as int) + tail).first() == lower@[j as int]);
                    assert((lower@.skip(j as int) + tail).drop_first() =~= lower@.skip(j + 1)
                        + tail);
                }
                let ghost current = self@;
                let ghost ahead = lower@.skip(j as int) + tail;
                if self.buf.as_str().as_bytes().len() < MAX_SORT_FIELD_LENGTH {
                    proof {
                        assert(!current.is_full());
                        assert(current.with_chars(ahead) == current.with_char(
                            ahead.first(),
                        ).with_chars(ahead.drop_first()));
                    }
                    let low = lower[j];
                    let is_space = is_whitespace(low);
                    if !is_space || !self.last_is_space {
                        push_char(&mut self.buf, low);
                        self.last_is_space = is_space;
                    }
                } else {
                    proof {
                        assert(current.is_full());
                        assert(current.with_chars(ahead) == (current, false));
                    }
                    return false;
                }
                j += 1;
            }
            proof {
                assert(lower@.skip(lower.len() as int) + tail =~= tail);
            }
        }
        proof {
            assert(text@.skip(text@.len() as int) =~= Seq::<char>::empty());
        }
        true
    }

    /// The finished text: what was built, or `!` where nothing was.
    pub fn build(self) -> (text: String)
        ensures
            text@ == self@.built(),
    {
        if !self.buf.as_str().is_empty() {
            self.buf
        } else {
            proof {
                reveal_strlit("!");
                assert("!"@ =~= seq!['!']);
            }
            String::from_str("!")
        }
    }
}

impl Default for SortedAddressBuilder {
    fn default() -> (builder: SortedAddressBuilder)
        ensures
            builder@ == (SortTextView { buf: Seq::empty(), last_is_space: true }),
    {
        SortedAddressBuilder::new()
    }
}

} // verus!
