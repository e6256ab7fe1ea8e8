//! A cursor over a slice of tokens.

use vstd::prelude::*;
use vstd::slice::slice_subrange;

verus! {

/// A cursor over a slice of tokens: it holds the tokens that are left.
#[derive(Debug)]
pub struct RefStream<'t, T> {
    tokens: &'t [T],
}

impl<'t, T> View for RefStream<'t, T> {
    type V = Seq<T>;

    /// The tokens that are left.
    closed spec fn view(&self) -> Seq<T> {
        self.tokens@
    }
}

impl<'t, T> RefStream<'t, T> {
    /// A cursor at the start of `tokens`.
    pub fn new(tokens: &'t [T]) -> (r: Self)
        ensures
            r@ == tokens@,
    {
        Self { tokens }
    }

    /// The tokens that are left.
    pub fn into_inner(self) -> (r: &'t [T])
        ensures
            r@ == self@,
    {
        self.tokens
    }

    /// The number of tokens that are left.
    pub fn eof_offset(&self) -> (n: usize)
        ensures
            n == self@.len(),
    {
        self.tokens.len()
    }

    /// Takes the next token, if one is left.
    pub fn next_token(&mut self) -> (r: Option<&'t T>)
        ensures
            match r {
                Some(token) => old(self)@.len() > 0 && *token == old(self)@[0] && final(self)@
                    == old(self)@.drop_first(),
                None => old(self)@.len() == 0 && final(self)@ == old(self)@,
            },
    {
        let tokens = self.tokens;
        if tokens.len() == 0 {
            None
        } else {
            self.tokens = slice_subrange(tokens, 1, tokens.len());
            Some(&tokens[0])
        }
    }

    /// The index of the first token that is left of which `predicate`
    /// holds.
    pub fn offset_for<P: Fn(&T) -> bool>(&self, predicate: P) -> (r: Option<usize>)
        requires
            forall|i: int| 0 <= i < self@.len() ==> predicate.requires((&#[trigger] self@[i],)),
        ensures
            match r {
                Some(k) => k < self@.len() && predicate.ensures((&self@[k as int],), true)
                    && forall|i: int|
                    0 <= i < k ==> predicate.ensures((&#[trigger] self@[i],), false),
                None => forall|i: int|
                    0 <= i < self@.len() ==> predicate.ensures((&#[trigger] self@[i],), false),
            },
    {
        let mut k: usize = 0;
        while k < self.tokens.len()
            invariant
                k <= self.tokens.len(),
                forall|i: int| 0 <= i < self@.len() ==> predicate.requires((&#[trigger] self@[i],)),
                forall|i: int| 0 <= i < k ==> predicate.ensures((&#[trigger] self@[i],), false),
            decreases self.tokens.len() - k,
        {
            assert(predicate.requires((&self@[k as int],)));
            if predicate(&self.tokens[k]) {
                return Some(k);
            }
            k += 1;
        }
        None
    }

    /// Whether `tokens` tokens are left: their number, or else the number of
    /// tokens that are missing.
    pub fn offset_at(&self, tokens: usize) -> (r: Result<usize, usize>)
        ensures
            match r {
                Ok(n) => n == tokens && tokens <= self@.len(),
                Err(needed) => tokens > self@.len() && needed == tokens - self@.len(),
            },
    {
        if tokens > self.tokens.len() {
            Err(tokens - self.tokens.len())
        } else {
            Ok(tokens)
        }
    }

    /// Takes the next `offset` tokens.
    pub fn next_slice(&mut self, offset: usize) -> (r: &'t [T])
        requires
            offset <= old(self)@.len(),
        ensures
            r@ == old(self)@.subrange(0, offset as int),
            final(self)@ == old(self)@.subrange(offset as int, old(self)@.len() as int),
    {
        let tokens = self.tokens;
        self.tokens = slice_subrange(tokens, offset, tokens.len());
        slice_subrange(tokens, 0, offset)
    }

    /// A cursor at the same place.
    pub fn checkpoint(&self) -> (r: Self)
        ensures
            r@ == self@,
    {
        Self { tokens: self.tokens }
    }

    /// Goes back to the place of `checkpoint`.
    pub fn reset(&mut self, checkpoint: &Self)
        ensures
            final(self)@ == checkpoint@,
    {
        self.tokens = checkpoint.tokens;
    }

    /// The number of tokens that were taken since this cursor was at the
    /// place of `start`.
    pub fn offset_from(&self, start: &Self) -> (n: usize)
        requires
            self@.len() <= start@.len(),
        ensures
            n == start@.len() - self@.len(),
    {
        start.tokens.len() - self.tokens.len()
    }

    /// Whether the cursor can wait for more tokens: it cannot.
    pub fn is_partial_supported() -> (r: bool)
        ensures
            !r,
    {
        false
    }
}

impl<'t, T> Clone for RefStream<'t, T> {
    fn clone(&self) -> (r: Self)
        ensures
            r@ == self@,
    {
        Self { tokens: self.tokens }
    }
}

} // verus!
