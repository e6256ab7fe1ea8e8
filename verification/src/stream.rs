//! A stream of code points with a bounded look-ahead.

use arraydeque::{ArrayDeque, Saturating};
use vstd::prelude::*;

verus! {

/// The number of code points that a stream can hold ahead.
pub const CAPACITY: usize = 8;

/// The look-ahead buffer of a stream: an `arraydeque::ArrayDeque` of
/// capacity 8 that refuses an element when it is full.
#[verifier::external_body]
pub struct Buffer {
    inner: ArrayDeque<[Option<char>; 8], Saturating>,
}

/// What the buffer holds, from its front to its back.
pub uninterp spec fn contents(buffer: Buffer) -> Seq<Option<char>>;

/// `ArrayDeque::new`: an empty buffer.
#[verifier::external_body]
fn buffer_new() -> (buffer: Buffer)
    ensures
        contents(buffer) == Seq::<Option<char>>::empty(),
{
    Buffer { inner: ArrayDeque::new() }
}

/// `ArrayDeque::len`: the number of elements in the buffer.
#[verifier::external_body]
fn buffer_len(buffer: &Buffer) -> (n: usize)
    ensures
        n == contents(*buffer).len(),
{
    buffer.inner.len()
}

/// `ArrayDeque::pop_front`: takes the element at the front off the buffer
/// and gives it; gives nothing and leaves the buffer as it is where it is
/// empty.
#[verifier::external_body]
fn buffer_pop_front(buffer: &mut Buffer) -> (r: Option<Option<char>>)
    ensures
        match r {
            Some(element) => contents(*old(buffer)).len() > 0 && element == contents(
                *old(buffer),
            )[0] && contents(*final(buffer)) == contents(*old(buffer)).drop_first(),
            None => contents(*old(buffer)).len() == 0 && contents(*final(buffer)) == contents(
                *old(buffer),
            ),
        },
{
    buffer.inner.pop_front()
}

/// `ArrayDeque::push_front` of a saturating buffer: puts the element at the
/// front and succeeds where fewer than 8 elements are in the buffer; else
/// fails and leaves the buffer as it is. The result says whether it
/// succeeded.
#[verifier::external_body]
fn buffer_push_front(buffer: &mut Buffer, element: Option<char>) -> (r: bool)
    ensures
        r == (contents(*old(buffer)).len() < 8),
        contents(*final(buffer)) == if r {
            seq![element] + contents(*old(buffer))
        } else {
            contents(*old(buffer))
        },
{
    buffer.inner.push_front(element).is_ok()
}

/// `ArrayDeque::push_back` of a saturating buffer: puts the element at the
/// back and succeeds where fewer than 8 elements are in the buffer; else
/// fails and leaves the buffer as it is. The result says whether it
/// succeeded.
#[verifier::external_body]
fn buffer_push_back(buffer: &mut Buffer, element: Option<char>) -> (r: bool)
    ensures
        r == (contents(*old(buffer)).len() < 8),
        contents(*final(buffer)) == if r {
            contents(*old(buffer)).push(element)
        } else {
            contents(*old(buffer))
        },
{
    buffer.inner.push_back(element).is_ok()
}

/// `ArrayDeque::get`: the element of the given index, counted from the
/// front; nothing where the buffer holds no more than `index` elements.
#[verifier::external_body]
fn buffer_get(buffer: &Buffer, index: usize) -> (r: Option<Option<char>>)
    ensures
        r == if index < contents(*buffer).len() {
            Some(contents(*buffer)[index as int])
        } else {
            None
        },
{
    buffer.inner.get(index).copied()
}

/// The first code point of `rest`, if it has one.
pub open spec fn head(rest: Seq<char>) -> Option<char> {
    if rest.len() > 0 {
        Some(rest[0])
    } else {
        None
    }
}

/// `rest` without its first code point.
pub open spec fn tail(rest: Seq<char>) -> Seq<char> {
    if rest.len() > 0 {
        rest.drop_first()
    } else {
        rest
    }
}

/// The look-ahead `buffered` filled from `rest` until it holds `needed`
/// elements, and what is left of `rest`. Where `rest` is used up, the
/// elements are `None`.
pub open spec fn filled(buffered: Seq<Option<char>>, rest: Seq<char>, needed: int) -> (
    Seq<Option<char>>,
    Seq<char>,
)
    decreases needed - buffered.len(),
{
    if buffered.len() < needed {
        filled(buffered.push(head(rest)), tail(rest), needed)
    } else {
        (buffered, rest)
    }
}

/// A stream of code points: the one that was taken last, those that were
/// looked at ahead, and the input that is left.
pub struct Stream {
    input: Vec<char>,
    position: usize,
    current: Option<char>,
    buffer: Buffer,
}

impl Stream {
    /// The code point that was taken last.
    pub closed spec fn current(&self) -> Option<char> {
        self.current
    }

    /// The code points that were looked at ahead and not taken yet.
    pub closed spec fn buffered(&self) -> Seq<Option<char>> {
        contents(self.buffer)
    }

    /// The input behind the look-ahead.
    pub closed spec fn rest(&self) -> Seq<char> {
        self.input@.subrange(self.position as int, self.input@.len() as int)
    }

    /// The look-ahead holds no more than it can.
    pub closed spec fn wf(&self) -> bool {
        contents(self.buffer).len() <= CAPACITY && self.position <= self.input.len()
    }

    /// A stream over `input`, of which nothing is taken yet.
    pub fn new(input: Vec<char>) -> (r: Self)
        ensures
            r.wf(),
            r.current() is None,
            r.buffered() == Seq::<Option<char>>::empty(),
            r.rest() == input@,
    {
        assert(input@.subrange(0, input@.len() as int) =~= input@);
        Self { input, position: 0, current: None, buffer: buffer_new() }
    }

    /// Takes the first code point of the input that is left.
    fn next_input(&mut self) -> (r: Option<char>)
        requires
            old(self).wf(),
        ensures
            final(self).wf(),
            r == head(old(self).rest()),
            final(self).rest() == tail(old(self).rest()),
            final(self).current == old(self).current,
            final(self).buffer == old(self).buffer,
    {
        if self.position < self.input.len() {
            let c = self.input[self.position];
            self.position = self.position + 1;
            assert(self.rest() =~= old(self).rest().drop_first());
            Some(c)
        } else {
            None
        }
    }

    /// Takes the next code point: the first of the look-ahead, or where
    /// that is empty, the first of the input.
    pub fn consume(&mut self) -> (r: Option<char>)
        requires
            old(self).wf(),
        ensures
            final(self).wf(),
            r == final(self).current(),
            old(self).buffered().len() > 0 ==> {
                &&& r == old(self).buffered()[0]
                &&& final(self).buffered() == old(self).buffered().drop_first()
                &&& final(self).rest() == old(self).rest()
            },
            old(self).buffered().len() == 0 ==> {
                &&& r == head(old(self).rest())
                &&& final(self).buffered() == old(self).buffered()
                &&& final(self).rest() == tail(old(self).rest())
            },
    {
        self.current = match buffer_pop_front(&mut self.buffer) {
            Some(value) => value,
            None => self.next_input(),
        };
        self.current
    }

    /// Puts the code point that was taken last back in front of the
    /// look-ahead.
    pub fn reconsume_current(&mut self)
        requires
            old(self).wf(),
            old(self).buffered().len() < CAPACITY,
        ensures
            final(self).wf(),
            final(self).current() == old(self).current(),
            final(self).buffered() == seq![old(self).current()] + old(self).buffered(),
            final(self).rest() == old(self).rest(),
    {
        let pushed = buffer_push_front(&mut self.buffer, self.current);
        assert(pushed);
    }

    /// The code point that stands `index` code points ahead, or for the
    /// index -1 the one that was taken last. The look-ahead is filled from
    /// the input as far as the index asks.
    pub fn peek(&mut self, index: i32) -> (r: Option<char>)
        requires
            old(self).wf(),
            -1 <= index < CAPACITY,
        ensures
            final(self).wf(),
            final(self).current() == old(self).current(),
            index == -1 ==> r == old(self).current() && final(self).buffered() == old(
                self,
            ).buffered() && final(self).rest() == old(self).rest(),
            index >= 0 ==> (final(self).buffered(), final(self).rest()) == filled(
                old(self).buffered(),
                old(self).rest(),
                index + 1,
            ) && index < final(self).buffered().len() && r == final(self).buffered()[index as int],
    {
        if index == -1 {
            return self.current;
        }
        let needed: usize = (index + 1) as usize;
        while needed > buffer_len(&self.buffer)
            invariant
                self.wf(),
                needed <= CAPACITY,
                self.current == old(self).current,
                filled(old(self).buffered(), old(self).rest(), needed as int) == filled(
                    self.buffered(),
                    self.rest(),
                    needed as int,
                ),
            decreases needed - self.buffered().len(),
        {
            let next = self.next_input();
            let pushed = buffer_push_back(&mut self.buffer, next);
            assert(pushed);
        }
        match buffer_get(&self.buffer, index as usize) {
            Some(value) => value,
            None => None,
        }
    }
}

/// Looking ahead in a stream.
pub trait PeekAt<T>: Sized {
    /// Whether one can look at `index`.
    spec fn can_peek(&self, index: i32) -> bool;

    /// Whether looking at `index` in this stream gives `r` and leaves the
    /// stream as `after`.
    spec fn peeked(&self, after: &Self, index: i32, r: T) -> bool;

    /// What stands at `index`.
    fn peek_at(&mut self, index: i32) -> (r: T)
        requires
            old(self).can_peek(index),
        ensures
            old(self).peeked(final(self), index, r),
    ;
}

impl PeekAt<Option<char>> for Stream {
    open spec fn can_peek(&self, index: i32) -> bool {
        self.wf() && -1 <= index < CAPACITY
    }

    open spec fn peeked(&self, after: &Self, index: i32, r: Option<char>) -> bool {
        &&& after.wf()
        &&& after.current() == self.current()
        &&& index == -1 ==> r == self.current() && after.buffered() == self.buffered()
            && after.rest() == self.rest()
        &&& index >= 0 ==> (after.buffered(), after.rest()) == filled(
            self.buffered(),
            self.rest(),
            index + 1,
        ) && index < after.buffered().len() && r == after.buffered()[index as int]
    }

    fn peek_at(&mut self, index: i32) -> (r: Option<char>) {
        self.peek(index)
    }
}

/// Looking at two or three places in a row.
pub trait PeekTuple<R>: Sized {
    /// Whether one can look at `index` and behind it.
    spec fn can_peek_tuple(&self, index: i32) -> bool;

    /// Whether looking at `index` and behind it in this stream gives `r`
    /// and leaves the stream as `after`.
    spec fn peeked_tuple(&self, after: &Self, index: i32, r: R) -> bool;

    /// What stands at `index` and behind it.
    fn peek_tuple(&mut self, index: i32) -> (r: R)
        requires
            old(self).can_peek_tuple(index),
        ensures
            old(self).peeked_tuple(final(self), index, r),
    ;
}

/// Whether looking at `index` and at the place behind it leads from
/// `before` over `mid` to `after` and gives `r`.
pub open spec fn peeked_two<T, U: PeekAt<T>>(
    before: U,
    mid: U,
    after: U,
    index: i32,
    r: (T, T),
) -> bool {
    before.peeked(&mid, index, r.0) && mid.peeked(&after, (index + 1) as i32, r.1)
}

/// Whether looking at `index` and at the two places behind it leads from
/// `before` over `mid` and `next` to `after` and gives `r`.
pub open spec fn peeked_three<T, U: PeekAt<T>>(
    before: U,
    mid: U,
    next: U,
    after: U,
    index: i32,
    r: (T, T, T),
) -> bool {
    before.peeked(&mid, index, r.0) && mid.peeked(&next, (index + 1) as i32, r.1) && next.peeked(
        &after,
        (index + 2) as i32,
        r.2,
    )
}

impl<T, U> PeekTuple<(T, T)> for U where T: Clone, U: PeekAt<T> {
    open spec fn can_peek_tuple(&self, index: i32) -> bool {
        &&& index < i32::MAX
        &&& self.can_peek(index)
        &&& forall|mid: U, first: T| #[trigger]
            self.peeked(&mid, index, first) ==> mid.can_peek((index + 1) as i32)
    }

    open spec fn peeked_tuple(&self, after: &U, index: i32, r: (T, T)) -> bool {
        exists|mid: U| peeked_two(*self, mid, *after, index, r)
    }

    fn peek_tuple(&mut self, index: i32) -> (r: (T, T)) {
        let first = self.peek_at(index);
        let ghost mid = *self;
        let second = self.peek_at(index + 1);
        assert(peeked_two(*old(self), mid, *self, index, (first, second)));
        (first, second)
    }
}

impl<T, U> PeekTuple<(T, T, T)> for U where T: Clone, U: PeekAt<T> {
    open spec fn can_peek_tuple(&self, index: i32) -> bool {
        &&& index < i32::MAX - 1
        &&& self.can_peek(index)
        &&& forall|mid: U, first: T| #[trigger]
            self.peeked(&mid, index, first) ==> mid.can_peek((index + 1) as i32)
        &&& forall|mid: U, next: U, r: (T, T)| #[trigger]
            peeked_two(*self, mid, next, index, r) ==> next.can_peek((index + 2) as i32)
    }

    open spec fn peeked_tuple(&self, after: &U, index: i32, r: (T, T, T)) -> bool {
        exists|mid: U, next: U| peeked_three(*self, mid, next, *after, index, r)
    }

    fn peek_tuple(&mut self, index: i32) -> (r: (T, T, T)) {
        let first = self.peek_at(index);
        let ghost mid = *self;
        let second = self.peek_at(index + 1);
        let ghost next = *self;
        assert(peeked_two(*old(self), mid, next, index, (first, second)));
        let third = self.peek_at(index + 2);
        assert(peeked_three(*old(self), mid, next, *self, index, (first, second, third)));
        (first, second, third)
    }
}

} // verus!
