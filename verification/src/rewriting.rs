//! Words, rules and the rewriting step.
//!
//! A word is a `Seq` of symbols. A rule is any executable function from a
//! symbol to a vector of symbols; what is known of it is its contract, so the
//! model is relational: [`yields`] says which words the rule may return for a
//! symbol, and [`rewrites`] lifts that to whole words. Symbols are duplicated
//! with `Clone`, of which nothing is known either: [`copies`] says what a
//! duplicate of a word is.
//!
//! For a rule whose contract fixes its result ([`computes`]) and a `Clone`
//! that gives back what it was given ([`faithful_clone`]), [`rewrite`] and
//! [`generation`] are the words themselves.

use vstd::prelude::*;
use vstd::seq_lib::lemma_flatten_concat;

verus! {

/// `to` has the symbols of `from`, each one duplicated by `Clone`, in the
/// same order.
pub open spec fn copies<T: Clone>(from: Seq<T>, to: Seq<T>) -> bool {
    &&& to.len() == from.len()
    &&& forall|i: int| 0 <= i < from.len() ==> cloned::<T>(from[i], #[trigger] to[i])
}

/// Duplicating a symbol gives back the same symbol.
pub open spec fn faithful_clone<T: Clone>() -> bool {
    forall|a: T, b: T| #[trigger] cloned::<T>(a, b) ==> a == b
}

/// `word` is a result that `rule` may return when it is run on `symbol`.
pub open spec fn yields<T, F: Fn(T) -> Vec<T>>(rule: F, symbol: T, word: Seq<T>) -> bool {
    exists|out: Vec<T>| #[trigger] call_ensures(rule, (symbol,), out) && out@ == word
}

/// `word` is a result that `rule` may return when it is run on a duplicate of
/// `symbol`.
pub open spec fn expands<T: Clone, F: Fn(T) -> Vec<T>>(rule: F, symbol: T, word: Seq<T>) -> bool {
    exists|arg: T| #[trigger] cloned::<T>(symbol, arg) && yields(rule, arg, word)
}

/// `parts` holds, for each symbol of `before` in turn, a word that the rule
/// may put in its place.
pub open spec fn expansion<T: Clone, F: Fn(T) -> Vec<T>>(
    rule: F,
    before: Seq<T>,
    parts: Seq<Seq<T>>,
) -> bool {
    &&& parts.len() == before.len()
    &&& forall|i: int| 0 <= i < before.len() ==> expands(rule, before[i], #[trigger] parts[i])
}

/// One rewriting step: `after` is `before` with every symbol replaced by a
/// word that the rule may return for it, the replacements standing in the
/// order of the symbols they replace.
pub open spec fn rewrites<T: Clone, F: Fn(T) -> Vec<T>>(
    rule: F,
    before: Seq<T>,
    after: Seq<T>,
) -> bool {
    exists|parts: Seq<Seq<T>>| #[trigger] expansion(rule, before, parts) && after == parts.flatten()
}

/// The rule may be run on `symbol` and on every duplicate of it.
pub open spec fn accepts<T: Clone, F: Fn(T) -> Vec<T>>(rule: F, symbol: T) -> bool {
    forall|arg: T| #[trigger] cloned::<T>(symbol, arg) ==> call_requires(rule, (arg,))
}

/// The rule may be run on every symbol of `word`.
pub open spec fn accepts_all<T: Clone, F: Fn(T) -> Vec<T>>(rule: F, word: Seq<T>) -> bool {
    forall|i: int| 0 <= i < word.len() ==> accepts(rule, #[trigger] word[i])
}

/// The rule may be run on every symbol there is.
pub open spec fn total<T, F: Fn(T) -> Vec<T>>(rule: F) -> bool {
    forall|x: T| #[trigger] call_requires(rule, (x,))
}

/// Every symbol of `word` belongs to `alphabet`.
pub open spec fn within<T>(alphabet: spec_fn(T) -> bool, word: Seq<T>) -> bool {
    forall|i: int| 0 <= i < word.len() ==> alphabet(#[trigger] word[i])
}

/// The rule never leads out of `alphabet`: it may be run on every symbol of
/// it, what it returns for one consists of symbols of it, and so does a
/// duplicate of one.
pub open spec fn closed_under<T: Clone, F: Fn(T) -> Vec<T>>(
    alphabet: spec_fn(T) -> bool,
    rule: F,
) -> bool {
    &&& forall|a: T, b: T| alphabet(a) && #[trigger] cloned::<T>(a, b) ==> alphabet(b)
    &&& forall|x: T| alphabet(x) ==> #[trigger] call_requires(rule, (x,))
    &&& forall|x: T, out: Vec<T>|
        alphabet(x) && #[trigger] call_ensures(rule, (x,), out) ==> within(alphabet, out@)
}

/// Whatever `rule` returns for a symbol `x` is the word `f(x)`.
pub open spec fn computes<T, F: Fn(T) -> Vec<T>>(rule: F, f: spec_fn(T) -> Seq<T>) -> bool {
    forall|x: T, out: Vec<T>| #[trigger] call_ensures(rule, (x,), out) ==> out@ == f(x)
}

/// The rule's contract leaves no choice: two results for one symbol are the
/// same word.
pub open spec fn deterministic<T, F: Fn(T) -> Vec<T>>(rule: F) -> bool {
    forall|x: T, a: Vec<T>, b: Vec<T>|
        #[trigger] call_ensures(rule, (x,), a) && #[trigger] call_ensures(rule, (x,), b) ==> a@
            == b@
}

/// Whatever `rule` returns for a symbol has `c` symbols.
pub open spec fn uniform<T, F: Fn(T) -> Vec<T>>(rule: F, c: nat) -> bool {
    forall|x: T, out: Vec<T>| #[trigger] call_ensures(rule, (x,), out) ==> out@.len() == c
}

/// The word that a deterministic rule returns for `x`.
pub open spec fn image<T, F: Fn(T) -> Vec<T>>(rule: F) -> spec_fn(T) -> Seq<T> {
    |x: T| choose|word: Seq<T>| yields(rule, x, word)
}

/// `word` with every symbol `x` replaced by `f(x)`.
pub open spec fn rewrite<T>(f: spec_fn(T) -> Seq<T>, word: Seq<T>) -> Seq<T> {
    word.map_values(f).flatten()
}

/// The word after `n` rewriting steps from `start`.
pub open spec fn generation<T>(f: spec_fn(T) -> Seq<T>, start: Seq<T>, n: nat) -> Seq<T>
    decreases n,
{
    if n == 0 {
        start
    } else {
        rewrite(f, generation(f, start, (n - 1) as nat))
    }
}

/// Where duplicating is faithful, a copy of a word is that word.
pub proof fn lemma_faithful_copy<T: Clone>(from: Seq<T>, to: Seq<T>)
    requires
        faithful_clone::<T>(),
        copies(from, to),
    ensures
        to == from,
{
    assert(to =~= from);
}

/// A deterministic rule computes its [`image`].
pub proof fn lemma_deterministic_computes_image<T, F: Fn(T) -> Vec<T>>(rule: F)
    requires
        deterministic(rule),
    ensures
        computes(rule, image(rule)),
{
    let f = image(rule);
    assert forall|x: T, out: Vec<T>| #[trigger] call_ensures(rule, (x,), out) implies out@ == f(
        x,
    ) by {
        assert(yields(rule, x, out@));
        let word = choose|word: Seq<T>| yields(rule, x, word);
        let other = choose|other: Vec<T>| #[trigger]
            call_ensures(rule, (x,), other) && other@ == word;
        assert(out@ == other@);
    }
}

/// A rule that computes some function is deterministic.
pub proof fn lemma_computed_is_deterministic<T, F: Fn(T) -> Vec<T>>(
    rule: F,
    f: spec_fn(T) -> Seq<T>,
)
    requires
        computes(rule, f),
    ensures
        deterministic(rule),
{
}

/// For a rule that computes `f`, and with faithful duplication, a rewriting
/// step has one outcome: the word given by [`rewrite`].
pub proof fn lemma_rewrites_is_rewrite<T: Clone, F: Fn(T) -> Vec<T>>(
    rule: F,
    f: spec_fn(T) -> Seq<T>,
    before: Seq<T>,
    after: Seq<T>,
)
    requires
        faithful_clone::<T>(),
        computes(rule, f),
        rewrites(rule, before, after),
    ensures
        after == rewrite(f, before),
{
    let parts = choose|parts: Seq<Seq<T>>| #[trigger]
        expansion(rule, before, parts) && after == parts.flatten();
    assert forall|i: int| 0 <= i < before.len() implies parts[i] == f(before[i]) by {
        assert(expands(rule, before[i], parts[i]));
    }
    assert(parts =~= before.map_values(f));
}

/// Rewriting the empty word gives the empty word, whatever the rule.
pub proof fn lemma_rewrites_empty<T: Clone, F: Fn(T) -> Vec<T>>(
    rule: F,
    before: Seq<T>,
    after: Seq<T>,
)
    requires
        before.len() == 0,
        rewrites(rule, before, after),
    ensures
        after.len() == 0,
{
    let parts = choose|parts: Seq<Seq<T>>| #[trigger]
        expansion(rule, before, parts) && after == parts.flatten();
    assert(parts.len() == 0);
}

/// Rewritings can be put together: a rewriting of `a` followed by a
/// rewriting of `b` is a rewriting of `a` followed by `b`.
pub proof fn lemma_rewrites_joins<T: Clone, F: Fn(T) -> Vec<T>>(
    rule: F,
    a: Seq<T>,
    b: Seq<T>,
    after_a: Seq<T>,
    after_b: Seq<T>,
)
    requires
        rewrites(rule, a, after_a),
        rewrites(rule, b, after_b),
    ensures
        rewrites(rule, a + b, after_a + after_b),
{
    let parts_a = choose|parts: Seq<Seq<T>>| #[trigger]
        expansion(rule, a, parts) && after_a == parts.flatten();
    let parts_b = choose|parts: Seq<Seq<T>>| #[trigger]
        expansion(rule, b, parts) && after_b == parts.flatten();
    let parts = parts_a + parts_b;
    assert forall|i: int| 0 <= i < (a + b).len() implies expands(
        rule,
        (a + b)[i],
        #[trigger] parts[i],
    ) by {
        if i < a.len() {
            assert(expands(rule, a[i], parts_a[i]));
        } else {
            assert(expands(rule, b[i - a.len()], parts_b[i - a.len()]));
        }
    }
    lemma_flatten_concat(parts_a, parts_b);
    assert(expansion(rule, a + b, parts));
}

/// Rewriting keeps the order of the symbols: every rewriting of `a` followed
/// by `b` is a rewriting of `a` followed by a rewriting of `b`. No symbol of
/// the second comes before a symbol of the first.
pub proof fn lemma_rewrites_splits<T: Clone, F: Fn(T) -> Vec<T>>(
    rule: F,
    a: Seq<T>,
    b: Seq<T>,
    after: Seq<T>,
)
    requires
        rewrites(rule, a + b, after),
    ensures
        exists|after_a: Seq<T>, after_b: Seq<T>|
            #![trigger after_a + after_b]
            rewrites(rule, a, after_a) && rewrites(rule, b, after_b) && after == after_a
                + after_b,
{
    let whole = a + b;
    let parts = choose|parts: Seq<Seq<T>>| #[trigger]
        expansion(rule, whole, parts) && after == parts.flatten();
    let parts_a = parts.subrange(0, a.len() as int);
    let parts_b = parts.subrange(a.len() as int, parts.len() as int);
    assert forall|i: int| 0 <= i < a.len() implies expands(rule, a[i], #[trigger] parts_a[i]) by {
        assert(expands(rule, whole[i], parts[i]));
    }
    assert forall|i: int| 0 <= i < b.len() implies expands(rule, b[i], #[trigger] parts_b[i]) by {
        assert(expands(rule, whole[i + a.len()], parts[i + a.len()]));
    }
    assert(expansion(rule, a, parts_a));
    assert(expansion(rule, b, parts_b));
    assert(parts =~= parts_a + parts_b);
    lemma_flatten_concat(parts_a, parts_b);
    assert(after == parts_a.flatten() + parts_b.flatten());
}

/// The same of the words themselves: under `f`, the rewriting of `a`
/// followed by `b` is the rewriting of `a` followed by the rewriting of `b`.
pub proof fn lemma_rewrite_concat<T>(f: spec_fn(T) -> Seq<T>, a: Seq<T>, b: Seq<T>)
    ensures
        rewrite(f, a + b) == rewrite(f, a) + rewrite(f, b),
{
    assert((a + b).map_values(f) =~= a.map_values(f) + b.map_values(f));
    lemma_flatten_concat(a.map_values(f), b.map_values(f));
}

/// Rewriting a word of one symbol gives the word that stands for the symbol.
pub proof fn lemma_rewrite_single<T>(f: spec_fn(T) -> Seq<T>, x: T)
    ensures
        rewrite(f, seq![x]) == f(x),
{
    assert(seq![x].map_values(f) =~= seq![f(x)]);
    seq![f(x)].lemma_flatten_one_element();
}

/// Rewriting `[x, y]` gives `f(x)` followed by `f(y)`.
pub proof fn lemma_rewrite_pair<T>(f: spec_fn(T) -> Seq<T>, x: T, y: T)
    ensures
        rewrite(f, seq![x, y]) == f(x) + f(y),
{
    assert(seq![x, y] =~= seq![x] + seq![y]);
    lemma_rewrite_concat(f, seq![x], seq![y]);
    lemma_rewrite_single(f, x);
    lemma_rewrite_single(f, y);
}

/// A rule that replaces every symbol by itself leaves every word as it is.
pub proof fn lemma_rewrite_identity<T>(f: spec_fn(T) -> Seq<T>, word: Seq<T>)
    requires
        forall|x: T| #[trigger] f(x) == seq![x],
    ensures
        rewrite(f, word) == word,
    decreases word.len(),
{
    if word.len() == 0 {
        assert(word.map_values(f) =~= Seq::<Seq<T>>::empty());
        assert(rewrite(f, word) =~= word);
    } else {
        let head = word.take(word.len() - 1);
        let last = word.last();
        assert(word =~= head + seq![last]);
        lemma_rewrite_concat(f, head, seq![last]);
        lemma_rewrite_single(f, last);
        lemma_rewrite_identity(f, head);
    }
}

/// Where every part has `c` symbols, the parts put together have `c` symbols
/// for each part.
pub proof fn lemma_flatten_uniform_length<T>(parts: Seq<Seq<T>>, c: nat)
    requires
        forall|i: int| 0 <= i < parts.len() ==> (#[trigger] parts[i]).len() == c,
    ensures
        parts.flatten().len() == parts.len() * c,
    decreases parts.len(),
{
    if parts.len() == 0 {
    } else {
        let rest = parts.drop_first();
        assert forall|i: int| 0 <= i < rest.len() implies (#[trigger] rest[i]).len() == c by {
            assert(rest[i] == parts[i + 1]);
        }
        lemma_flatten_uniform_length(rest, c);
        assert(parts.flatten().len() == parts.first().len() + rest.flatten().len());
        assert(parts.len() * c == c + (parts.len() - 1) * c) by (nonlinear_arith);
    }
}

/// Where the rule returns `c` symbols for every symbol, a rewriting step
/// multiplies the length of the word by `c`.
pub proof fn lemma_rewrites_uniform_length<T: Clone, F: Fn(T) -> Vec<T>>(
    rule: F,
    c: nat,
    before: Seq<T>,
    after: Seq<T>,
)
    requires
        uniform(rule, c),
        rewrites(rule, before, after),
    ensures
        after.len() == before.len() * c,
{
    let parts = choose|parts: Seq<Seq<T>>| #[trigger]
        expansion(rule, before, parts) && after == parts.flatten();
    assert forall|i: int| 0 <= i < parts.len() implies (#[trigger] parts[i]).len() == c by {
        assert(expands(rule, before[i], parts[i]));
    }
    lemma_flatten_uniform_length(parts, c);
}

/// Parts made of symbols of an alphabet, put together, give a word of that
/// alphabet.
pub proof fn lemma_flatten_within<T>(alphabet: spec_fn(T) -> bool, parts: Seq<Seq<T>>)
    requires
        forall|i: int| 0 <= i < parts.len() ==> within(alphabet, #[trigger] parts[i]),
    ensures
        within(alphabet, parts.flatten()),
    decreases parts.len(),
{
    if parts.len() > 0 {
        let rest = parts.drop_first();
        assert forall|i: int| 0 <= i < rest.len() implies within(alphabet, #[trigger] rest[i]) by {
            assert(rest[i] == parts[i + 1]);
        }
        lemma_flatten_within(alphabet, rest);
        assert(within(alphabet, parts.first()));
        assert(parts.flatten() == parts.first() + rest.flatten());
    }
}

/// A rule that is closed under an alphabet accepts every word of it.
pub proof fn lemma_closed_accepts_within<T: Clone, F: Fn(T) -> Vec<T>>(
    alphabet: spec_fn(T) -> bool,
    rule: F,
    word: Seq<T>,
)
    requires
        closed_under(alphabet, rule),
        within(alphabet, word),
    ensures
        accepts_all(rule, word),
{
}

/// With a rule that is closed under an alphabet, a rewriting step leads from
/// a word of the alphabet to a word of it.
pub proof fn lemma_closed_rewrites_within<T: Clone, F: Fn(T) -> Vec<T>>(
    alphabet: spec_fn(T) -> bool,
    rule: F,
    before: Seq<T>,
    after: Seq<T>,
)
    requires
        closed_under(alphabet, rule),
        within(alphabet, before),
        rewrites(rule, before, after),
    ensures
        within(alphabet, after),
{
    let parts = choose|parts: Seq<Seq<T>>| #[trigger]
        expansion(rule, before, parts) && after == parts.flatten();
    assert forall|i: int| 0 <= i < parts.len() implies within(alphabet, #[trigger] parts[i]) by {
        assert(expands(rule, before[i], parts[i]));
    }
    lemma_flatten_within(alphabet, parts);
}

} // verus!
