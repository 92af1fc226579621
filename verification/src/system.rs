//! The grammar definition and the cursor that walks its generations.

use crate::model::{Cursor, Grammar};
use crate::rewriting::{expands, expansion};
use vstd::prelude::*;

verus! {

/// An L-system: a starting word over the alphabet `T` and the production
/// rule, a function from one symbol to the word that replaces it.
///
/// The value is never changed once it is made. Any number of cursors can be
/// taken from it, each with a word of its own.
#[verifier::reject_recursive_types(T)]
pub struct LSystemType<T: Clone, F: Fn(T) -> Vec<T>> {
    start: Vec<T>,
    rules: F,
}

/// A cursor over the generations of an L-system. It never runs out.
///
/// It owns the word of the generation it stands at and borrows the rule from
/// the system that made it.
#[verifier::reject_recursive_types(T)]
pub struct LSystemIterator<'a, T: Clone, F: Fn(T) -> Vec<T>> {
    current_state: Vec<T>,
    rules: &'a F,
    zeroth: bool,
}

impl<T: Clone, F: Fn(T) -> Vec<T>> View for LSystemType<T, F> {
    type V = Grammar<T, F>;

    closed spec fn view(&self) -> Grammar<T, F> {
        Grammar { start: self.start@, rule: self.rules }
    }
}

impl<'a, T: Clone, F: Fn(T) -> Vec<T>> View for LSystemIterator<'a, T, F> {
    type V = Cursor<T, F>;

    closed spec fn view(&self) -> Cursor<T, F> {
        Cursor { word: self.current_state@, rule: *self.rules, pending: self.zeroth }
    }
}

impl<T: Clone, F: Fn(T) -> Vec<T>> LSystemType<T, F> {
    /// Makes the system with the starting word `start` and the rule `rules`.
    /// Any word will do, the empty one too.
    pub fn new(start: Vec<T>, rules: F) -> (sys: Self)
        ensures
            sys@.start == start@,
            sys@.rule == rules,
    {
        LSystemType { start: start, rules: rules }
    }

    /// A new cursor at generation 0, with its own duplicate of the starting
    /// word. The system stays as it is.
    pub fn iter(&self) -> (it: LSystemIterator<'_, T, F>)
        ensures
            self@.spawns(it@),
    {
        LSystemIterator { current_state: self.start.clone(), rules: &self.rules, zeroth: true }
    }
}

impl<'a, T: Clone, F: Fn(T) -> Vec<T>> LSystemIterator<'a, T, F> {
    /// Hands out the next generation; the result is never `None`.
    ///
    /// The first call hands out the starting word. Every later call runs the
    /// rule on a duplicate of each symbol of the current word, from the first
    /// to the last, puts the words it returns one behind the other, keeps the
    /// outcome as the new current word and hands out a duplicate of it.
    ///
    /// The rule is the caller's: from the second call on it has to accept
    /// every symbol of the current word.
    pub fn next(&mut self) -> (out: Option<Vec<T>>)
        requires
            old(self)@.ready(),
        ensures
            out matches Some(word) && old(self)@.advances_to(final(self)@, word@),
    {
        if self.zeroth {
            self.zeroth = false;
            return Some(self.current_state.clone());
        }
        let mut new_state: Vec<T> = Vec::new();
        let ghost mut parts: Seq<Seq<T>> = Seq::empty();
        let n: usize = self.current_state.len();
        let mut i: usize = 0;
        while i < n
            invariant
                i <= n,
                n == self.current_state@.len(),
                *self == *old(self),
                old(self)@.ready(),
                !self.zeroth,
                parts.len() == i,
                forall|j: int|
                    0 <= j < i ==> expands(*self.rules, self.current_state@[j], #[trigger] parts[j]),
                new_state@ == parts.flatten(),
            decreases n - i,
        {
            let element = self.current_state[i].clone();
            assert(cloned::<T>(self.current_state@[i as int], element));
            let mut entry = (self.rules)(element);
            proof {
                parts.lemma_flatten_push(entry@);
                parts = parts.push(entry@);
            }
            new_state.append(&mut entry);
            i += 1;
        }
        self.current_state = new_state;
        assert(expansion(old(self)@.rule, old(self)@.word, parts));
        Some(self.current_state.clone())
    }
}

} // verus!
