//! What holds of whole runs.
//!
//! A run is written down as the cursors it passes through and the words it
//! hands out; [`run_of`] ties them to the contracts of
//! [`LSystemType::iter`](crate::system::LSystemType::iter) and
//! [`LSystemIterator::next`](crate::system::LSystemIterator::next). The laws
//! are proved from those contracts alone.
//!
//! A law that says which word comes out needs two things of its inputs that
//! Rust does not promise: that a duplicate of a symbol is that symbol
//! ([`faithful_clone`]), and that the rule's contract fixes its result
//! ([`computes`], [`deterministic`]). The laws on lengths need neither.

use crate::model::{Cursor, Grammar};
use crate::rewriting::{
    closed_under, computes, deterministic, expands, expansion, faithful_clone, generation, image,
    lemma_closed_accepts_within, lemma_closed_rewrites_within,
    lemma_deterministic_computes_image, lemma_faithful_copy, lemma_rewrite_identity,
    lemma_rewrites_empty, lemma_rewrites_is_rewrite, lemma_rewrites_uniform_length, total,
    uniform, within, yields,
};
use vstd::arithmetic::power::pow;
use vstd::prelude::*;
use vstd::seq_lib::lemma_flatten_concat;

verus! {

/// A run of a fresh cursor of `grammar`: `stops[0]` is the cursor as `iter`
/// made it, and call number `k` of `next`, counted from 0, found it as
/// `stops[k]`, left it as `stops[k + 1]` and handed out `words[k]`.
pub open spec fn run_of<T: Clone, F: Fn(T) -> Vec<T>>(
    grammar: Grammar<T, F>,
    stops: Seq<Cursor<T, F>>,
    words: Seq<Seq<T>>,
) -> bool {
    &&& stops.len() == words.len() + 1
    &&& grammar.spawns(stops[0])
    &&& forall|k: int|
        0 <= k < words.len() ==> stops[k].advances_to(stops[k + 1], #[trigger] words[k])
}

/// With faithful duplication and a rule that computes `f`, a step has one
/// outcome: it leads to [`Cursor::stepped`] and hands out the word held
/// there.
pub proof fn lemma_step_is_determined<T: Clone, F: Fn(T) -> Vec<T>>(
    f: spec_fn(T) -> Seq<T>,
    before: Cursor<T, F>,
    after: Cursor<T, F>,
    word: Seq<T>,
)
    requires
        faithful_clone::<T>(),
        computes(before.rule, f),
        before.advances_to(after, word),
    ensures
        after == before.stepped(f),
        word == after.word,
{
    if !before.pending {
        lemma_rewrites_is_rewrite(before.rule, f, before.word, after.word);
    }
    lemma_faithful_copy(after.word, word);
}

/// Generation 0 is the starting word: the first word that a fresh cursor
/// hands out is the word the grammar was made with, symbol for symbol, and
/// the cursor then holds that word.
pub proof fn lemma_first_word_is_start<T: Clone, F: Fn(T) -> Vec<T>>(
    grammar: Grammar<T, F>,
    fresh: Cursor<T, F>,
    after: Cursor<T, F>,
    word: Seq<T>,
)
    requires
        faithful_clone::<T>(),
        grammar.spawns(fresh),
        fresh.advances_to(after, word),
    ensures
        word == grammar.start,
        after == (Cursor { word: grammar.start, rule: grammar.rule, pending: false }),
{
    lemma_faithful_copy(grammar.start, fresh.word);
    lemma_faithful_copy(after.word, word);
}

/// The word handed out by call number `n` of a run is generation `n`, and
/// it is the word that the cursor then holds.
pub proof fn lemma_run_yields_generations<T: Clone, F: Fn(T) -> Vec<T>>(
    grammar: Grammar<T, F>,
    f: spec_fn(T) -> Seq<T>,
    stops: Seq<Cursor<T, F>>,
    words: Seq<Seq<T>>,
    n: nat,
)
    requires
        faithful_clone::<T>(),
        computes(grammar.rule, f),
        run_of(grammar, stops, words),
        n < words.len(),
    ensures
        words[n as int] == generation(f, grammar.start, n),
        stops[n as int + 1] == (Cursor {
            word: generation(f, grammar.start, n),
            rule: grammar.rule,
            pending: false,
        }),
    decreases n,
{
    let k = n as int;
    if n == 0 {
        lemma_faithful_copy(grammar.start, stops[0].word);
    } else {
        lemma_run_yields_generations(grammar, f, stops, words, (n - 1) as nat);
    }
    lemma_step_is_determined(f, stops[k], stops[k + 1], words[k]);
}

/// Determinism: two runs of fresh cursors of one grammar hand out the same
/// word at call number `n`.
pub proof fn lemma_runs_agree<T: Clone, F: Fn(T) -> Vec<T>>(
    grammar: Grammar<T, F>,
    stops_a: Seq<Cursor<T, F>>,
    words_a: Seq<Seq<T>>,
    stops_b: Seq<Cursor<T, F>>,
    words_b: Seq<Seq<T>>,
    n: nat,
)
    requires
        faithful_clone::<T>(),
        deterministic(grammar.rule),
        run_of(grammar, stops_a, words_a),
        run_of(grammar, stops_b, words_b),
        n < words_a.len(),
        n < words_b.len(),
    ensures
        words_a[n as int] == words_b[n as int],
{
    let f = image(grammar.rule);
    lemma_deterministic_computes_image(grammar.rule);
    lemma_run_yields_generations(grammar, f, stops_a, words_a, n);
    lemma_run_yields_generations(grammar, f, stops_b, words_b, n);
}

/// Order is kept: from the starting word `[x, y]`, generation 1 is a word
/// that the rule returns for `x` followed by a word that it returns for `y`.
/// For a rule that computes `f` it is `f(x)` followed by `f(y)`.
pub proof fn lemma_pair_rewritten_in_order<T: Clone, F: Fn(T) -> Vec<T>>(
    grammar: Grammar<T, F>,
    f: spec_fn(T) -> Seq<T>,
    x: T,
    y: T,
    stops: Seq<Cursor<T, F>>,
    words: Seq<Seq<T>>,
)
    requires
        faithful_clone::<T>(),
        grammar.start == seq![x, y],
        run_of(grammar, stops, words),
        words.len() >= 2,
    ensures
        exists|p: Seq<T>, q: Seq<T>|
            #![trigger p + q]
            yields(grammar.rule, x, p) && yields(grammar.rule, y, q) && words[1] == p + q,
        computes(grammar.rule, f) ==> words[1] == f(x) + f(y),
{
    assert(stops[0].advances_to(stops[1], words[0]));
    assert(stops[1].advances_to(stops[2], words[1]));
    lemma_faithful_copy(grammar.start, stops[0].word);
    lemma_faithful_copy(stops[2].word, words[1]);
    let before = stops[1].word;
    let parts = choose|parts: Seq<Seq<T>>| #[trigger]
        expansion(grammar.rule, before, parts) && stops[2].word == parts.flatten();
    let p = parts[0];
    let q = parts[1];
    assert(expands(grammar.rule, before[0], p));
    assert(expands(grammar.rule, before[1], q));
    assert(parts =~= seq![p] + seq![q]);
    lemma_flatten_concat(seq![p], seq![q]);
    seq![p].lemma_flatten_one_element();
    seq![q].lemma_flatten_one_element();
    assert(words[1] == p + q);
}

/// An empty starting word gives the empty word at every generation, for any
/// rule and any `Clone`.
pub proof fn lemma_empty_start_stays_empty<T: Clone, F: Fn(T) -> Vec<T>>(
    grammar: Grammar<T, F>,
    stops: Seq<Cursor<T, F>>,
    words: Seq<Seq<T>>,
    n: nat,
)
    requires
        grammar.start.len() == 0,
        run_of(grammar, stops, words),
        n < words.len(),
    ensures
        words[n as int] == Seq::<T>::empty(),
        stops[n as int + 1] == (Cursor {
            word: Seq::<T>::empty(),
            rule: grammar.rule,
            pending: false,
        }),
    decreases n,
{
    let k = n as int;
    assert(stops[k].advances_to(stops[k + 1], words[k]));
    if n > 0 {
        lemma_empty_start_stays_empty(grammar, stops, words, (n - 1) as nat);
        lemma_rewrites_empty(stops[k].rule, stops[k].word, stops[k + 1].word);
    }
    assert(stops[k + 1].word =~= Seq::<T>::empty());
    assert(words[k] =~= Seq::<T>::empty());
}

/// Under a function that replaces every symbol by itself, every generation
/// is the starting word.
pub proof fn lemma_generation_identity<T>(f: spec_fn(T) -> Seq<T>, start: Seq<T>, n: nat)
    requires
        forall|x: T| #[trigger] f(x) == seq![x],
    ensures
        generation(f, start, n) == start,
    decreases n,
{
    if n > 0 {
        lemma_generation_identity(f, start, (n - 1) as nat);
        lemma_rewrite_identity(f, start);
    }
}

/// With a rule that replaces every symbol by itself, every word handed out
/// is the starting word.
pub proof fn lemma_identity_rule_keeps_start<T: Clone, F: Fn(T) -> Vec<T>>(
    grammar: Grammar<T, F>,
    stops: Seq<Cursor<T, F>>,
    words: Seq<Seq<T>>,
    n: nat,
)
    requires
        faithful_clone::<T>(),
        computes(grammar.rule, |x: T| seq![x]),
        run_of(grammar, stops, words),
        n < words.len(),
    ensures
        words[n as int] == grammar.start,
{
    let f = |x: T| seq![x];
    lemma_run_yields_generations(grammar, f, stops, words, n);
    lemma_generation_identity(f, grammar.start, n);
}

/// Growth: where the rule returns `c` symbols for every symbol, generation
/// `n` has the length of the starting word times `c` to the power `n`,
/// whatever `Clone` does.
pub proof fn lemma_uniform_growth<T: Clone, F: Fn(T) -> Vec<T>>(
    grammar: Grammar<T, F>,
    c: nat,
    stops: Seq<Cursor<T, F>>,
    words: Seq<Seq<T>>,
    n: nat,
)
    requires
        uniform(grammar.rule, c),
        run_of(grammar, stops, words),
        n < words.len(),
    ensures
        words[n as int].len() == grammar.start.len() * pow(c as int, n),
        stops[n as int + 1].word.len() == grammar.start.len() * pow(c as int, n),
        stops[n as int + 1].rule == grammar.rule,
        !stops[n as int + 1].pending,
    decreases n,
{
    let k = n as int;
    let len = grammar.start.len() as int;
    assert(stops[k].advances_to(stops[k + 1], words[k]));
    reveal(pow);
    if n == 0 {
        assert(len * pow(c as int, 0) == len) by (nonlinear_arith)
            requires
                pow(c as int, 0) == 1,
        ;
    } else {
        lemma_uniform_growth(grammar, c, stops, words, (n - 1) as nat);
        lemma_rewrites_uniform_length(grammar.rule, c, stops[k].word, stops[k + 1].word);
        let prev = pow(c as int, (n - 1) as nat);
        assert((len * prev) * c == len * (c * prev)) by (nonlinear_arith);
    }
}

/// A rule that may be run on every symbol can be run for ever: after any
/// step the cursor is ready for the next.
pub proof fn lemma_total_rule_keeps_ready<T: Clone, F: Fn(T) -> Vec<T>>(
    before: Cursor<T, F>,
    after: Cursor<T, F>,
    word: Seq<T>,
)
    requires
        total(before.rule),
        before.advances_to(after, word),
    ensures
        after.ready(),
        total(after.rule),
{
}

/// A rule that is closed under an alphabet can be run for ever: from a
/// starting word of the alphabet, every cursor of a run is ready for the next
/// call and holds a word of the alphabet.
pub proof fn lemma_closed_alphabet_keeps_ready<T: Clone, F: Fn(T) -> Vec<T>>(
    grammar: Grammar<T, F>,
    alphabet: spec_fn(T) -> bool,
    stops: Seq<Cursor<T, F>>,
    words: Seq<Seq<T>>,
    k: nat,
)
    requires
        closed_under(alphabet, grammar.rule),
        within(alphabet, grammar.start),
        run_of(grammar, stops, words),
        k <= words.len(),
    ensures
        stops[k as int].ready(),
        stops[k as int].rule == grammar.rule,
        within(alphabet, stops[k as int].word),
        k > 0 ==> within(alphabet, words[k - 1]),
    decreases k,
{
    if k > 0 {
        let j = k - 1;
        lemma_closed_alphabet_keeps_ready(grammar, alphabet, stops, words, j as nat);
        assert(stops[j].advances_to(stops[j + 1], words[j]));
        if !stops[j].pending {
            lemma_closed_rewrites_within(alphabet, grammar.rule, stops[j].word, stops[j + 1].word);
        }
    }
    lemma_closed_accepts_within(alphabet, grammar.rule, stops[k as int].word);
}

/// A joint run of two fresh cursors of `grammar`. Call number `k` is made on
/// the first cursor where `turns[k]` holds and on the second where it does
/// not; `firsts[k]` and `seconds[k]` are the two cursors before that call and
/// `words[k]` is what it handed out. A call has its cursor by unique
/// reference, so the other cursor is after the call what it was before.
pub open spec fn joint_run_of<T: Clone, F: Fn(T) -> Vec<T>>(
    grammar: Grammar<T, F>,
    firsts: Seq<Cursor<T, F>>,
    seconds: Seq<Cursor<T, F>>,
    turns: Seq<bool>,
    words: Seq<Seq<T>>,
) -> bool {
    &&& turns.len() == words.len()
    &&& firsts.len() == words.len() + 1
    &&& seconds.len() == words.len() + 1
    &&& grammar.spawns(firsts[0])
    &&& grammar.spawns(seconds[0])
    &&& forall|k: int|
        0 <= k < words.len() ==> if turns[k] {
            firsts[k].advances_to(firsts[k + 1], #[trigger] words[k]) && seconds[k + 1]
                == seconds[k]
        } else {
            seconds[k].advances_to(seconds[k + 1], words[k]) && firsts[k + 1] == firsts[k]
        }
}

/// How many of the first `k` calls of a joint run were made on the cursor
/// `who`: `true` for the first cursor, `false` for the second.
pub open spec fn calls_on(turns: Seq<bool>, who: bool, k: nat) -> nat
    decreases k,
{
    if k == 0 {
        0
    } else {
        calls_on(turns, who, (k - 1) as nat) + if turns[k - 1] == who {
            1nat
        } else {
            0nat
        }
    }
}

/// `cursor` is what a fresh cursor of `grammar` has become after `m` calls.
pub open spec fn stands_after<T: Clone, F: Fn(T) -> Vec<T>>(
    grammar: Grammar<T, F>,
    f: spec_fn(T) -> Seq<T>,
    cursor: Cursor<T, F>,
    m: nat,
) -> bool {
    &&& cursor.rule == grammar.rule
    &&& if m == 0 {
        cursor.pending && cursor.word == grammar.start
    } else {
        !cursor.pending && cursor.word == generation(f, grammar.start, (m - 1) as nat)
    }
}

/// In a joint run each cursor stands where its own calls have brought it.
pub proof fn lemma_joint_run_stops<T: Clone, F: Fn(T) -> Vec<T>>(
    grammar: Grammar<T, F>,
    f: spec_fn(T) -> Seq<T>,
    firsts: Seq<Cursor<T, F>>,
    seconds: Seq<Cursor<T, F>>,
    turns: Seq<bool>,
    words: Seq<Seq<T>>,
    k: nat,
)
    requires
        faithful_clone::<T>(),
        computes(grammar.rule, f),
        joint_run_of(grammar, firsts, seconds, turns, words),
        k <= words.len(),
    ensures
        stands_after(grammar, f, firsts[k as int], calls_on(turns, true, k)),
        stands_after(grammar, f, seconds[k as int], calls_on(turns, false, k)),
    decreases k,
{
    if k == 0 {
        lemma_faithful_copy(grammar.start, firsts[0].word);
        lemma_faithful_copy(grammar.start, seconds[0].word);
    } else {
        let j = k - 1;
        lemma_joint_run_stops(grammar, f, firsts, seconds, turns, words, j as nat);
        if turns[j] {
            lemma_step_is_determined(f, firsts[j], firsts[j + 1], words[j]);
        } else {
            lemma_step_is_determined(f, seconds[j], seconds[j + 1], words[j]);
        }
    }
}

/// Independence: however the calls on two cursors of one grammar are
/// interleaved, a call hands out the generation whose number is the count of
/// earlier calls on the same cursor. What was done with the other cursor
/// plays no part.
pub proof fn lemma_cursors_independent<T: Clone, F: Fn(T) -> Vec<T>>(
    grammar: Grammar<T, F>,
    f: spec_fn(T) -> Seq<T>,
    firsts: Seq<Cursor<T, F>>,
    seconds: Seq<Cursor<T, F>>,
    turns: Seq<bool>,
    words: Seq<Seq<T>>,
    n: nat,
)
    requires
        faithful_clone::<T>(),
        computes(grammar.rule, f),
        joint_run_of(grammar, firsts, seconds, turns, words),
        n < words.len(),
    ensures
        words[n as int] == generation(f, grammar.start, calls_on(turns, turns[n as int], n)),
{
    let k = n as int;
    lemma_joint_run_stops(grammar, f, firsts, seconds, turns, words, n);
    lemma_joint_run_stops(grammar, f, firsts, seconds, turns, words, n + 1);
    if turns[k] {
        lemma_step_is_determined(f, firsts[k], firsts[k + 1], words[k]);
    } else {
        lemma_step_is_determined(f, seconds[k], seconds[k + 1], words[k]);
    }
}

} // verus!
