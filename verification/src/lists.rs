//! Short lists with inline storage, for the few tones and tokens of a chord.
//!
//! The storage is `smallvec::SmallVec`. Each list type has a name for the
//! sequence it holds; the functions here say what they do to that sequence.

use vstd::prelude::*;
use smallvec::SmallVec;
use crate::text::text_eq;

verus! {

/// A list of tone numbers (added, omitted or suspended intervals).
#[verifier::external_body]
#[derive(Debug, PartialEq)]
pub struct ToneList {
    inner: SmallVec<[u8; 3]>,
}

/// The tone numbers that a list holds, in order.
pub uninterp spec fn tone_items(l: ToneList) -> Seq<u8>;

impl View for ToneList {
    type V = Seq<u8>;

    open spec fn view(&self) -> Seq<u8> {
        tone_items(*self)
    }
}

/// `SmallVec::new`: the new list holds nothing.
#[verifier::external_body]
fn tones_empty() -> (l: ToneList)
    ensures
        tone_items(l) == Seq::<u8>::empty(),
{
    ToneList { inner: SmallVec::new() }
}

/// `SmallVec::push`: the value is appended and nothing else changes.
#[verifier::external_body]
fn tones_push(l: &mut ToneList, value: u8)
    ensures
        tone_items(*final(l)) == tone_items(*old(l)).push(value),
{
    l.inner.push(value)
}

/// `SmallVec::as_slice`: the slice holds the list's items in order.
#[verifier::external_body]
fn tones_slice(l: &ToneList) -> (s: &[u8])
    ensures
        s@ == tone_items(*l),
{
    l.inner.as_slice()
}

impl Clone for ToneList {
    /// `SmallVec::clone`: the copy holds the same items in the same order.
    #[verifier::external_body]
    fn clone(&self) -> (r: Self)
        ensures
            tone_items(r) == tone_items(*self),
    {
        ToneList { inner: self.inner.clone() }
    }
}

impl ToneList {
    pub fn new() -> (l: ToneList)
        ensures
            l@ == Seq::<u8>::empty(),
    {
        tones_empty()
    }

    pub fn push(&mut self, value: u8)
        ensures
            final(self)@ == old(self)@.push(value),
    {
        tones_push(self, value)
    }

    pub fn as_slice(&self) -> (s: &[u8])
        ensures
            s@ == self@,
    {
        tones_slice(self)
    }

    pub fn len(&self) -> (n: usize)
        ensures
            n == self@.len(),
    {
        tones_slice(self).len()
    }

    pub fn is_empty(&self) -> (b: bool)
        ensures
            b == (self@.len() == 0),
    {
        tones_slice(self).len() == 0
    }

    pub fn get(&self, i: usize) -> (x: u8)
        requires
            i < self@.len(),
        ensures
            x == self@[i as int],
    {
        tones_slice(self)[i]
    }

    /// Whether `value` occurs in the list.
    pub fn contains(&self, value: u8) -> (b: bool)
        ensures
            b == self@.contains(value),
    {
        let s = tones_slice(self);
        let mut i: usize = 0;
        while i < s.len()
            invariant
                i <= s.len(),
                s@ == self@,
                forall|j: int| 0 <= j < i ==> s@[j] != value,
            decreases s.len() - i,
        {
            if s[i] == value {
                return true;
            }
            i = i + 1;
        }
        false
    }

    /// The list that holds the given values in order.
    pub fn from_slice(values: &[u8]) -> (l: ToneList)
        ensures
            l@ == values@,
    {
        let mut l = tones_empty();
        let mut i: usize = 0;
        while i < values.len()
            invariant
                i <= values.len(),
                l@ == values@.subrange(0, i as int),
            decreases values.len() - i,
        {
            tones_push(&mut l, values[i]);
            i = i + 1;
            assert(values@.subrange(0, i as int) == values@.subrange(0, i - 1).push(
                values@[i - 1],
            ));
        }
        assert(values@.subrange(0, values.len() as int) == values@);
        l
    }
}

/// A list of short text tokens (alteration names, substitution names).
#[verifier::external_body]
#[derive(Debug, PartialEq)]
pub struct TagList {
    inner: SmallVec<[String; 4]>,
}

/// The tokens that a list holds, in order.
pub uninterp spec fn tag_items(l: TagList) -> Seq<String>;

/// The characters of each text of a sequence.
pub open spec fn texts(s: Seq<String>) -> Seq<Seq<char>> {
    Seq::new(s.len(), |i: int| s[i]@)
}

impl View for TagList {
    type V = Seq<Seq<char>>;

    open spec fn view(&self) -> Seq<Seq<char>> {
        texts(tag_items(*self))
    }
}

/// `SmallVec::new`: the new list holds nothing.
#[verifier::external_body]
fn tags_empty() -> (l: TagList)
    ensures
        tag_items(l) == Seq::<String>::empty(),
{
    TagList { inner: SmallVec::new() }
}

/// `SmallVec::push`: the value is appended and nothing else changes.
#[verifier::external_body]
fn tags_push(l: &mut TagList, value: String)
    ensures
        tag_items(*final(l)) == tag_items(*old(l)).push(value),
{
    l.inner.push(value)
}

/// `SmallVec::as_slice`: the slice holds the list's items in order.
#[verifier::external_body]
fn tags_slice(l: &TagList) -> (s: &[String])
    ensures
        s@ == tag_items(*l),
{
    l.inner.as_slice()
}

impl Clone for TagList {
    /// `SmallVec::clone`: the copy holds equal items in the same order.
    #[verifier::external_body]
    fn clone(&self) -> (r: Self)
        ensures
            tag_items(r) == tag_items(*self),
    {
        TagList { inner: self.inner.clone() }
    }
}

impl TagList {
    pub fn new() -> (l: TagList)
        ensures
            l@ == Seq::<Seq<char>>::empty(),
    {
        tags_empty()
    }

    pub fn push(&mut self, value: String)
        ensures
            final(self)@ == old(self)@.push(value@),
    {
        tags_push(self, value)
    }

    pub fn as_slice(&self) -> (s: &[String])
        ensures
            texts(s@) == self@,
    {
        tags_slice(self)
    }

    pub fn len(&self) -> (n: usize)
        ensures
            n == self@.len(),
    {
        tags_slice(self).len()
    }

    pub fn is_empty(&self) -> (b: bool)
        ensures
            b == (self@.len() == 0),
    {
        tags_slice(self).len() == 0
    }

    pub fn get(&self, i: usize) -> (x: &String)
        requires
            i < self@.len(),
        ensures
            x@ == self@[i as int],
    {
        &tags_slice(self)[i]
    }

    /// Whether a token with the characters of `value` occurs in the list.
    pub fn contains(&self, value: &str) -> (b: bool)
        ensures
            b == self@.contains(value@),
    {
        let s = tags_slice(self);
        let mut i: usize = 0;
        while i < s.len()
            invariant
                i <= s.len(),
                texts(s@) == self@,
                forall|j: int| 0 <= j < i ==> self@[j] != value@,
            decreases s.len() - i,
        {
            if text_eq(s[i].as_str(), value) {
                assert(self@[i as int] == value@);
                return true;
            }
            i = i + 1;
        }
        false
    }
}

} // verus!
