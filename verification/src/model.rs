//! The abstract values of the two executable types, and the two transitions
//! between them.
//!
//! A [`Grammar`] is what an [`LSystemType`](crate::system::LSystemType)
//! stands for, a [`Cursor`] what an
//! [`LSystemIterator`](crate::system::LSystemIterator) stands for. The
//! contracts of the executable functions are stated over them:
//! [`Grammar::spawns`] is the contract of `iter`, [`Cursor::ready`] and
//! [`Cursor::advances_to`] are that of `next`.

use crate::rewriting::{accepts_all, copies, rewrite, rewrites};
use vstd::prelude::*;

verus! {

/// A starting word and a production rule.
pub struct Grammar<T, F> {
    /// Generation 0.
    pub start: Seq<T>,
    /// The function that gives the word to put in place of a symbol.
    pub rule: F,
}

/// A position in the sequence of generations of a grammar.
pub struct Cursor<T, F> {
    /// The word of the generation that the cursor stands at.
    pub word: Seq<T>,
    /// The rule of the grammar that the cursor was taken from.
    pub rule: F,
    /// Generation 0 has not been handed out yet.
    pub pending: bool,
}

impl<T: Clone, F: Fn(T) -> Vec<T>> Grammar<T, F> {
    /// `cursor` is a fresh cursor of this grammar: it has the grammar's
    /// rule, a duplicate of the starting word, and generation 0 is still to
    /// come.
    pub open spec fn spawns(self, cursor: Cursor<T, F>) -> bool {
        &&& cursor.rule == self.rule
        &&& cursor.pending
        &&& copies(self.start, cursor.word)
    }
}

impl<T: Clone, F: Fn(T) -> Vec<T>> Cursor<T, F> {
    /// The next step runs the rule only on symbols that it accepts. The
    /// first step does not run the rule at all.
    pub open spec fn ready(self) -> bool {
        self.pending || accepts_all(self.rule, self.word)
    }

    /// One step: from `self` it leads to `after` and hands out `word`.
    ///
    /// The first step leaves the cursor's word in place; every later one puts
    /// a rewriting of it in its place. Either way the rule stays, and what is
    /// handed out is a duplicate of the word that the cursor then holds.
    pub open spec fn advances_to(self, after: Self, word: Seq<T>) -> bool {
        &&& after.rule == self.rule
        &&& !after.pending
        &&& if self.pending {
            after.word == self.word
        } else {
            rewrites(self.rule, self.word, after.word)
        }
        &&& copies(after.word, word)
    }

    /// Where one step leads with a rule that computes `f`: the first one
    /// nowhere, every later one to the rewriting of the cursor's word.
    pub open spec fn stepped(self, f: spec_fn(T) -> Seq<T>) -> Self {
        Cursor {
            word: if self.pending {
                self.word
            } else {
                rewrite(f, self.word)
            },
            rule: self.rule,
            pending: false,
        }
    }
}

} // verus!
