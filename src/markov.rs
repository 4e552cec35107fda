use vstd::prelude::*;

verus! {

/// A word of the chain, or one of the two markers that open and close a sentence.
#[derive(Debug)]
pub enum Word {
    Start,
    End,
    Word(String),
}

pub enum WordView {
    Start,
    End,
    Word(Seq<char>),
}

impl View for Word {
    type V = WordView;

    open spec fn view(&self) -> WordView {
        match self {
            Word::Start => WordView::Start,
            Word::End => WordView::End,
            Word::Word(s) => WordView::Word(s@),
        }
    }
}

impl PartialEq for Word {
    fn eq(&self, other: &Word) -> (r: bool)
        ensures
            r == (self@ == other@),
    {
        match (self, other) {
            (Word::Start, Word::Start) => true,
            (Word::End, Word::End) => true,
            (Word::Word(a), Word::Word(b)) => a.eq(b),
            _ => false,
        }
    }
}

impl vstd::std_specs::cmp::PartialEqSpecImpl for Word {
    open spec fn obeys_eq_spec() -> bool {
        true
    }

    open spec fn eq_spec(&self, other: &Word) -> bool {
        self@ == other@
    }
}

impl Clone for Word {
    fn clone(&self) -> (r: Word)
        ensures
            r@ == self@,
    {
        match self {
            Word::Start => Word::Start,
            Word::End => Word::End,
            Word::Word(s) => Word::Word(s.clone()),
        }
    }
}

/// How many words lead to the next one.
pub const WORD_COUNT: usize = 2;

/// The words that lead to the next one.
pub type WordArray = [Word; 2];

/// The leading words at the start of a sentence.
pub fn start_words() -> (r: WordArray)
    ensures
        r[0]@ == WordView::Start,
        r[1]@ == WordView::Start,
{
    [Word::Start, Word::Start]
}

/// One transition of the chain: after `first` and `second`, `next` was seen `weight` times.
#[derive(Clone, Debug)]
pub struct Transition {
    pub first: Word,
    pub second: Word,
    pub next: Word,
    pub weight: usize,
}

/// Two leading words and the word that follows them.
pub type Key = (WordView, WordView, WordView);

pub open spec fn key_of(t: Transition) -> Key {
    (t.first@, t.second@, t.next@)
}

/// The weight of a key in a list of transitions (that of the last one with the key, which in a
/// well-formed chain is the only one), or zero.
pub open spec fn weight_in(ts: Seq<Transition>, k: Key) -> nat
    decreases ts.len(),
{
    if ts.len() == 0 {
        0
    } else if key_of(ts.last()) == k {
        ts.last().weight as nat
    } else {
        weight_in(ts.drop_last(), k)
    }
}

/// Each key occurs once, with a positive weight.
pub open spec fn transitions_wf(ts: Seq<Transition>) -> bool {
    &&& forall|i: int, j: int|
        0 <= i < ts.len() && 0 <= j < ts.len() && i != j ==> key_of(#[trigger] ts[i]) != key_of(
            #[trigger] ts[j],
        )
    &&& forall|i: int| 0 <= i < ts.len() ==> (#[trigger] ts[i]).weight > 0
}

/// A count increased by one, saturating.
pub open spec fn bump(n: nat, by: nat) -> nat {
    if n + by <= usize::MAX {
        n + by
    } else {
        usize::MAX as nat
    }
}

proof fn lemma_weight_absent(ts: Seq<Transition>, k: Key)
    requires
        forall|i: int| 0 <= i < ts.len() ==> key_of(#[trigger] ts[i]) != k,
    ensures
        weight_in(ts, k) == 0,
    decreases ts.len(),
{
    if ts.len() > 0 {
        assert(key_of(ts[ts.len() - 1]) != k);
        lemma_weight_absent(ts.drop_last(), k);
    }
}

proof fn lemma_weight_at(ts: Seq<Transition>, i: int)
    requires
        transitions_wf(ts),
        0 <= i < ts.len(),
    ensures
        weight_in(ts, key_of(ts[i])) == ts[i].weight,
    decreases ts.len(),
{
    if i < ts.len() - 1 {
        assert(key_of(ts[ts.len() - 1]) != key_of(ts[i]));
        let d = ts.drop_last();
        assert(forall|j: int| 0 <= j < d.len() ==> d[j] == ts[j]);
        lemma_weight_at(d, i);
    }
}

proof fn lemma_weight_update(ts: Seq<Transition>, i: int, t: Transition, k: Key)
    requires
        transitions_wf(ts),
        0 <= i < ts.len(),
        key_of(t) == key_of(ts[i]),
    ensures
        weight_in(ts.update(i, t), k) == if k == key_of(t) {
            t.weight as nat
        } else {
            weight_in(ts, k)
        },
    decreases ts.len(),
{
    let u = ts.update(i, t);
    if i == ts.len() - 1 {
        assert(u.drop_last() =~= ts.drop_last());
        if k == key_of(t) {
        } else {
        }
    } else {
        let d = ts.drop_last();
        assert(u.drop_last() =~= d.update(i, t));
        assert(forall|j: int| 0 <= j < d.len() ==> d[j] == ts[j]);
        lemma_weight_update(d, i, t, k);
        assert(key_of(ts[ts.len() - 1]) != key_of(ts[i]));
    }
}

/// The `j`th word of a sentence as a chain word; before the sentence, the start marker.
pub open spec fn word_at(words: Seq<Seq<char>>, j: int) -> WordView {
    if j < 0 {
        WordView::Start
    } else {
        WordView::Word(words[j])
    }
}

/// The `j`th transition of a sentence (`0 <= j <= words.len()`): the two words before the
/// `j`th and the `j`th itself, where the one past the last word is the end marker.
pub open spec fn sentence_key(words: Seq<Seq<char>>, j: int) -> Key {
    (
        word_at(words, j - 2),
        word_at(words, j - 1),
        if j < words.len() {
            WordView::Word(words[j])
        } else {
            WordView::End
        },
    )
}

/// How many of the first `upto` transitions of a sentence are `k`.
pub open spec fn occurrences(words: Seq<Seq<char>>, upto: int, k: Key) -> nat
    decreases upto,
{
    if upto <= 0 {
        0
    } else {
        occurrences(words, upto - 1, k) + if sentence_key(words, upto - 1) == k {
            1nat
        } else {
            0nat
        }
    }
}

/// The number of transitions whose weight is below `threshold`.
pub open spec fn count_below(ts: Seq<Transition>, threshold: usize) -> nat
    decreases ts.len(),
{
    if ts.len() == 0 {
        0
    } else {
        count_below(ts.drop_last(), threshold) + if ts.last().weight < threshold {
            1nat
        } else {
            0nat
        }
    }
}

/// A weight that a clean with `threshold` keeps.
pub open spec fn kept(w: nat, threshold: usize) -> nat {
    if w >= threshold {
        w
    } else {
        0
    }
}

proof fn lemma_weight_bounded(ts: Seq<Transition>, k: Key)
    ensures
        weight_in(ts, k) <= usize::MAX,
    decreases ts.len(),
{
    if ts.len() > 0 {
        lemma_weight_bounded(ts.drop_last(), k);
    }
}

proof fn lemma_weight_present(ts: Seq<Transition>, k: Key)
    requires
        transitions_wf(ts),
    ensures
        weight_in(ts, k) > 0 <==> exists|i: int| 0 <= i < ts.len() && key_of(ts[i]) == k,
{
    if exists|i: int| 0 <= i < ts.len() && key_of(ts[i]) == k {
        let i = choose|i: int| 0 <= i < ts.len() && key_of(ts[i]) == k;
        lemma_weight_at(ts, i);
    } else {
        lemma_weight_absent(ts, k);
    }
}

pub open spec fn sum_of(ws: Seq<usize>) -> nat
    decreases ws.len(),
{
    if ws.len() == 0 {
        0
    } else {
        sum_of(ws.drop_last()) + ws.last() as nat
    }
}

/// Relies on rand's `WeightedIndex::new` and its `Distribution::sample` with the thread's
/// generator: an index of the weights, drawn with probability in proportion to its weight.
#[verifier::external_body]
fn sample_index(weights: &Vec<usize>) -> (r: usize)
    requires
        weights@.len() > 0,
        sum_of(weights@) <= usize::MAX,
        forall|i: int| 0 <= i < weights@.len() ==> #[trigger] weights@[i] > 0,
    ensures
        r < weights@.len(),
{
    match rand::distributions::WeightedIndex::new(weights.iter()) {
        Ok(dist) => rand::distributions::Distribution::sample(&dist, &mut rand::thread_rng()),
        Err(_) => 0,
    }
}

/// The texts that a list of strings holds.
pub open spec fn texts_view(items: Seq<String>) -> Set<Seq<char>> {
    Set::new(|v: Seq<char>| exists|q: int| 0 <= q < items.len() && (#[trigger] items[q])@ == v)
}

/// The words that follow `second` as the second leading word in a list of transitions.
pub open spec fn followers(ts: Seq<Transition>, second: WordView) -> Set<Seq<char>>
    decreases ts.len(),
{
    if ts.len() == 0 {
        Set::empty()
    } else {
        let rest = followers(ts.drop_last(), second);
        match ts.last().next@ {
            WordView::Word(w) => if ts.last().second@ == second {
                rest.insert(w)
            } else {
                rest
            },
            _ => rest,
        }
    }
}

proof fn lemma_followers(ts: Seq<Transition>, second: WordView)
    ensures
        forall|w: Seq<char>|
            #[trigger] followers(ts, second).contains(w) <==> exists|p: int|
                0 <= p < ts.len() && ts[p].second@ == second && ts[p].next@
                    == WordView::Word(w),
    decreases ts.len(),
{
    if ts.len() > 0 {
        let d = ts.drop_last();
        lemma_followers(d, second);
        assert forall|w: Seq<char>|
            #[trigger] followers(ts, second).contains(w) <==> exists|p: int|
                0 <= p < ts.len() && ts[p].second@ == second && ts[p].next@
                    == WordView::Word(w) by {
            if followers(d, second).contains(w) {
                let p = choose|p: int|
                    0 <= p < d.len() && d[p].second@ == second && d[p].next@
                        == WordView::Word(w);
                assert(d[p] == ts[p]);
            }
            if exists|p: int|
                0 <= p < ts.len() && ts[p].second@ == second && ts[p].next@
                    == WordView::Word(w) {
                let p = choose|p: int|
                    0 <= p < ts.len() && ts[p].second@ == second && ts[p].next@
                        == WordView::Word(w);
                if p < d.len() {
                    assert(d[p] == ts[p]);
                }
            }
        }
    }
}

fn contains_text(items: &Vec<String>, w: &String) -> (r: bool)
    ensures
        r == exists|q: int| 0 <= q < items@.len() && (#[trigger] items@[q])@ == w@,
{
    let mut j: usize = 0;
    while j < items.len()
        invariant
            j <= items@.len(),
            forall|q: int| 0 <= q < j ==> (#[trigger] items@[q])@ != w@,
        decreases items@.len() - j,
    {
        if items[j].eq(w) {
            return true;
        }
        j = j + 1;
    }
    false
}

/// A chain of words: which word followed which two, and how often.
#[derive(Debug)]
pub struct Markov {
    transitions: Vec<Transition>,
}

impl Markov {
    pub closed spec fn wf(&self) -> bool {
        transitions_wf(self.transitions@)
    }

    /// How often `k.2` followed `k.0` and `k.1`.
    pub closed spec fn weight(&self, k: Key) -> nat {
        weight_in(self.transitions@, k)
    }

    pub fn new() -> (r: Markov)
        ensures
            r.wf(),
            forall|k: Key| #[trigger] r.weight(k) == 0,
    {
        Markov { transitions: Vec::new() }
    }

    fn find(&self, first: &Word, second: &Word, next: &Word) -> (r: Option<usize>)
        requires
            self.wf(),
        ensures
            match r {
                Some(i) => i < self.transitions@.len() && key_of(self.transitions@[i as int]) == (
                first@, second@, next@),
                None => forall|i: int|
                    0 <= i < self.transitions@.len() ==> key_of(#[trigger] self.transitions@[i])
                        != (first@, second@, next@),
            },
    {
        let mut i: usize = 0;
        while i < self.transitions.len()
            invariant
                i <= self.transitions@.len(),
                forall|j: int|
                    0 <= j < i ==> key_of(#[trigger] self.transitions@[j]) != (
                    first@, second@, next@),
            decreases self.transitions@.len() - i,
        {
            let t = &self.transitions[i];
            if t.first == *first && t.second == *second && t.next == *next {
                return Some(i);
            }
            i = i + 1;
        }
        None
    }

    /// Adds `by` to the weight of `next` after the two leading words, saturating.
    pub fn add(&mut self, index: &WordArray, next: &Word, by: usize)
        requires
            old(self).wf(),
            by > 0,
        ensures
            final(self).wf(),
            forall|k: Key| #[trigger]
                final(self).weight(k) == if k == (index[0]@, index[1]@, next@) {
                    bump(old(self).weight(k), by as nat)
                } else {
                    old(self).weight(k)
                },
    {
        let ghost ts = self.transitions@;
        let ghost key = (index[0]@, index[1]@, next@);
        match self.find(&index[0], &index[1], next) {
            Some(i) => {
                let old_t = &self.transitions[i];
                let weight = old_t.weight.saturating_add(by);
                let t = Transition {
                    first: old_t.first.clone(),
                    second: old_t.second.clone(),
                    next: old_t.next.clone(),
                    weight,
                };
                proof {
                    lemma_weight_at(ts, i as int);
                }
                self.transitions.set(i, t);
                assert forall|k: Key| #[trigger]
                    weight_in(self.transitions@, k) == if k == key {
                        bump(weight_in(ts, k), by as nat)
                    } else {
                        weight_in(ts, k)
                    } by {
                    lemma_weight_update(ts, i as int, t, k);
                }
                assert forall|a: int, b: int|
                    0 <= a < self.transitions@.len() && 0 <= b < self.transitions@.len() && a
                        != b implies key_of(#[trigger] self.transitions@[a]) != key_of(
                    #[trigger] self.transitions@[b],
                ) by {
                    assert(key_of(ts[a]) != key_of(ts[b]));
                }
            },
            None => {
                let t = Transition {
                    first: index[0].clone(),
                    second: index[1].clone(),
                    next: next.clone(),
                    weight: by,
                };
                proof {
                    lemma_weight_absent(ts, key);
                }
                self.transitions.push(t);
                assert(self.transitions@.drop_last() =~= ts);
                assert forall|a: int, b: int|
                    0 <= a < self.transitions@.len() && 0 <= b < self.transitions@.len() && a
                        != b implies key_of(#[trigger] self.transitions@[a]) != key_of(
                    #[trigger] self.transitions@[b],
                ) by {
                    if a < ts.len() && b < ts.len() {
                        assert(key_of(ts[a]) != key_of(ts[b]));
                    } else if a < ts.len() {
                        assert(key_of(ts[a]) != key);
                    } else {
                        assert(key_of(ts[b]) != key);
                    }
                }
            },
        }
    }

    /// Counts one more occurrence of `word` after the two leading words.
    pub fn insert(&mut self, index: WordArray, word: Word)
        requires
            old(self).wf(),
        ensures
            final(self).wf(),
            forall|k: Key| #[trigger]
                final(self).weight(k) == if k == (index[0]@, index[1]@, word@) {
                    bump(old(self).weight(k), 1)
                } else {
                    old(self).weight(k)
                },
    {
        self.add(&index, &word, 1);
    }
}

impl Markov {
    /// Counts the transitions of a sentence: from the two start markers to its first word,
    /// from word to word, and from its last two words to the end marker.
    pub fn insert_sequence(&mut self, seq: Vec<String>)
        requires
            old(self).wf(),
        ensures
            final(self).wf(),
            forall|k: Key| #[trigger]
                final(self).weight(k) == bump(
                    old(self).weight(k),
                    occurrences(seq@.map_values(|s: String| s@), seq@.len() as int + 1, k),
                ),
    {
        let ghost words = seq@.map_values(|s: String| s@);
        assert forall|k: Key| #[trigger]
            self.weight(k) == bump(old(self).weight(k), occurrences(words, 0, k)) by {
            lemma_weight_bounded(self.transitions@, k);
        }
        let mut prev0 = Word::Start;
        let mut prev1 = Word::Start;
        let mut i: usize = 0;
        while i < seq.len()
            invariant
                i <= seq@.len(),
                words == seq@.map_values(|s: String| s@),
                self.wf(),
                prev0@ == word_at(words, i - 2),
                prev1@ == word_at(words, i - 1),
                forall|k: Key| #[trigger]
                    self.weight(k) == bump(old(self).weight(k), occurrences(words, i as int, k)),
            decreases seq@.len() - i,
        {
            let cur = Word::Word(seq[i].clone());
            assert(cur@ == WordView::Word(words[i as int]));
            let ghost before = *self;
            self.insert([prev0.clone(), prev1.clone()], cur.clone());
            assert forall|k: Key| #[trigger]
                self.weight(k) == bump(old(self).weight(k), occurrences(words, i + 1, k)) by {
                assert(sentence_key(words, i as int) == (prev0@, prev1@, cur@));
                assert(before.weight(k) == bump(old(self).weight(k), occurrences(words, i as int, k)));
            }
            prev0 = prev1;
            prev1 = cur;
            i = i + 1;
        }
        self.insert([prev0, prev1], Word::End);
        assert forall|k: Key| #[trigger]
            self.weight(k) == bump(old(self).weight(k), occurrences(words, i + 1, k)) by {
            assert(sentence_key(words, i as int).2 == WordView::End);
        }
    }

    /// Drops every transition whose weight is below `threshold`, and returns how many it
    /// dropped.
    pub fn clean(&mut self, threshold: usize) -> (r: usize)
        requires
            old(self).wf(),
        ensures
            final(self).wf(),
            forall|k: Key| #[trigger] final(self).weight(k) == kept(old(self).weight(k), threshold),
            r == old(self).removed_by_clean(threshold),
    {
        let ghost ts = self.transitions@;
        let mut out: Vec<Transition> = Vec::new();
        let mut removed: usize = 0;
        let mut i: usize = 0;
        assert(ts.take(0) =~= Seq::<Transition>::empty());
        while i < self.transitions.len()
            invariant
                i <= ts.len(),
                self.transitions@ == ts,
                transitions_wf(ts),
                transitions_wf(out@),
                forall|j: int|
                    0 <= j < out@.len() ==> exists|p: int|
                        0 <= p < i && key_of(#[trigger] out@[j]) == key_of(ts[p]),
                forall|k: Key| #[trigger]
                    weight_in(out@, k) == kept(weight_in(ts.take(i as int), k), threshold),
                removed == count_below(ts.take(i as int), threshold),
                removed <= i,
            decreases ts.len() - i,
        {
            let t = &self.transitions[i];
            let ghost prefix = ts.take(i + 1);
            assert(prefix.drop_last() =~= ts.take(i as int));
            assert(prefix.last() == ts[i as int]);
            let ghost before = out@;
            if t.weight >= threshold {
                let copy = Transition {
                    first: t.first.clone(),
                    second: t.second.clone(),
                    next: t.next.clone(),
                    weight: t.weight,
                };
                out.push(copy);
                assert(out@.drop_last() =~= before);
                assert(key_of(out@.last()) == key_of(ts[i as int]));
                assert(out@.last().weight == ts[i as int].weight);
                assert forall|k: Key| #[trigger]
                    weight_in(out@, k) == kept(weight_in(prefix, k), threshold) by {
                    if k == key_of(ts[i as int]) {
                    } else {
                        assert(weight_in(out@, k) == weight_in(before, k));
                        assert(weight_in(prefix, k) == weight_in(ts.take(i as int), k));
                    }
                }
                assert forall|a: int, b: int|
                    0 <= a < out@.len() && 0 <= b < out@.len() && a != b implies key_of(
                    #[trigger] out@[a],
                ) != key_of(#[trigger] out@[b]) by {
                    if a < before.len() && b < before.len() {
                    } else if a < before.len() {
                        let p = choose|p: int| 0 <= p < i && key_of(before[a]) == key_of(ts[p]);
                        assert(key_of(ts[p]) != key_of(ts[i as int]));
                    } else {
                        let p = choose|p: int| 0 <= p < i && key_of(before[b]) == key_of(ts[p]);
                        assert(key_of(ts[p]) != key_of(ts[i as int]));
                    }
                }
                assert forall|j: int|
                    0 <= j < out@.len() implies exists|p: int|
                        0 <= p < i + 1 && key_of(#[trigger] out@[j]) == key_of(ts[p]) by {
                    if j < before.len() {
                        let p = choose|p: int| 0 <= p < i && key_of(before[j]) == key_of(ts[p]);
                        assert(key_of(out@[j]) == key_of(ts[p]));
                    } else {
                        assert(key_of(out@[j]) == key_of(ts[i as int]));
                    }
                }
            } else {
                removed = removed + 1;
                assert forall|k: Key| #[trigger]
                    weight_in(out@, k) == kept(weight_in(prefix, k), threshold) by {
                    if k == key_of(ts[i as int]) {
                        assert forall|j: int| 0 <= j < out@.len() implies key_of(
                            #[trigger] out@[j],
                        ) != k by {
                            let p = choose|p: int|
                                0 <= p < i && key_of(out@[j]) == key_of(ts[p]);
                            assert(key_of(ts[p]) != key_of(ts[i as int]));
                        }
                        lemma_weight_absent(out@, k);
                    }
                }
            }
            i = i + 1;
        }
        assert(ts.take(ts.len() as int) =~= ts);
        self.transitions = out;
        removed
    }

    /// The number of transitions whose weight is below `threshold`.
    pub closed spec fn removed_by_clean(&self, threshold: usize) -> nat {
        count_below(self.transitions@, threshold)
    }

    /// The words (not markers) that followed `second` as the second of two leading words,
    /// each once, in the order first met.
    fn following(&self, second: &Word) -> (r: Vec<String>)
        requires
            self.wf(),
        ensures
            forall|a: int, b: int|
                0 <= a < r@.len() && 0 <= b < r@.len() && a != b ==> (#[trigger] r@[a])@ != (
                #[trigger] r@[b])@,
            forall|w: Seq<char>|
                #[trigger] texts_view(r@).contains(w) <==> exists|a: WordView|
                    #[trigger] self.weight((a, second@, WordView::Word(w))) > 0,
    {
        let ghost ts = self.transitions@;
        let mut out: Vec<String> = Vec::new();
        let mut i: usize = 0;
        assert(ts.take(0) =~= Seq::<Transition>::empty());
        assert(texts_view(out@) =~= Set::<Seq<char>>::empty());
        while i < self.transitions.len()
            invariant
                i <= ts.len(),
                self.transitions@ == ts,
                                forall|a: int, b: int|
                    0 <= a < out@.len() && 0 <= b < out@.len() && a != b ==> (
                    #[trigger] out@[a])@ != (#[trigger] out@[b])@,
                texts_view(out@) == followers(ts.take(i as int), second@),
            decreases ts.len() - i,
        {
            let t = &self.transitions[i];
            let ghost prefix = ts.take(i + 1);
            assert(prefix.drop_last() =~= ts.take(i as int));
            assert(prefix.last() == ts[i as int]);
            if t.second == *second {
                match &t.next {
                    Word::Word(w) => {
                        if !contains_text(&out, w) {
                            let ghost before = out@;
                            out.push(w.clone());
                            assert(texts_view(out@) =~= texts_view(before).insert(w@)) by {
                                assert forall|v: Seq<char>|
                                    texts_view(out@).contains(v) <==> texts_view(before).insert(
                                        w@,
                                    ).contains(v) by {
                                    if texts_view(out@).contains(v) {
                                        let q = choose|q: int|
                                            0 <= q < out@.len() && (#[trigger] out@[q])@ == v;
                                        if q < before.len() {
                                            assert(before[q] == out@[q]);
                                        }
                                    }
                                    if texts_view(before).contains(v) {
                                        let q = choose|q: int|
                                            0 <= q < before.len() && (#[trigger] before[q])@ == v;
                                        assert(out@[q] == before[q]);
                                    }
                                    if v == w@ {
                                        assert(out@[before.len() as int]@ == v);
                                    }
                                }
                            }
                        } else {
                            assert(texts_view(out@) =~= texts_view(out@).insert(w@));
                        }
                    },
                    _ => {},
                }
            }
            i = i + 1;
        }
        assert(ts.take(ts.len() as int) =~= ts);
        proof {
            lemma_followers(ts, second@);
            assert forall|w: Seq<char>|
                #[trigger] texts_view(out@).contains(w) <==> exists|a: WordView|
                    #[trigger] self.weight((a, second@, WordView::Word(w))) > 0 by {
                if texts_view(out@).contains(w) {
                    let p = choose|p: int|
                        0 <= p < ts.len() && ts[p].second@ == second@ && ts[p].next@
                            == WordView::Word(w);
                    lemma_weight_at(ts, p);
                    assert(self.weight((ts[p].first@, second@, WordView::Word(w)))
                        > 0);
                }
                if exists|a: WordView|
                    #[trigger] self.weight((a, second@, WordView::Word(w))) > 0 {
                    let a = choose|a: WordView|
                        #[trigger] self.weight((a, second@, WordView::Word(w))) > 0;
                    lemma_weight_present(ts, (a, second@, WordView::Word(w)));
                    let p = choose|p: int|
                        0 <= p < ts.len() && key_of(ts[p]) == (
                        a,
                        second@,
                        WordView::Word(w),
                    );
                    assert(ts[p].second@ == second@ && ts[p].next@ == WordView::Word(
                        w,
                    ));
                }
            }
        }
        out
    }

    /// The words (not markers) that followed `word` as the second of two leading words, each
    /// once, in the order first met.
    pub fn what_follows(&self, word: &str) -> (r: Vec<String>)
        requires
            self.wf(),
        ensures
            forall|a: int, b: int|
                0 <= a < r@.len() && 0 <= b < r@.len() && a != b ==> (#[trigger] r@[a])@ != (
                #[trigger] r@[b])@,
            forall|w: Seq<char>|
                #[trigger] texts_view(r@).contains(w) <==> exists|a: WordView|
                    #[trigger] self.weight((a, WordView::Word(word@), WordView::Word(w))) > 0,
    {
        self.following(&Word::Word(word.to_owned()))
    }

    /// The words that start sentences, each once, in the order first met.
    pub fn what_starts(&self) -> (r: Vec<String>)
        requires
            self.wf(),
        ensures
            forall|a: int, b: int|
                0 <= a < r@.len() && 0 <= b < r@.len() && a != b ==> (#[trigger] r@[a])@ != (
                #[trigger] r@[b])@,
            forall|w: Seq<char>|
                #[trigger] texts_view(r@).contains(w) <==> exists|a: WordView|
                    #[trigger] self.weight((a, WordView::Start, WordView::Word(w))) > 0,
    {
        self.following(&Word::Start)
    }
}

/// A random walk through a chain, one word at a time, from the start of a sentence.
pub struct Chain<'a> {
    markov: &'a Markov,
    cur_words: WordArray,
}

impl Markov {
    /// The transitions of the chain.
    pub fn transitions(&self) -> (r: &Vec<Transition>)
        ensures
            transitions_wf(r@) == self.wf(),
            forall|k: Key| #[trigger] weight_in(r@, k) == self.weight(k),
    {
        &self.transitions
    }

    /// Starts a walk at the start of a sentence.
    pub fn generate_sequence(&self) -> (r: Chain<'_>)
        requires
            self.wf(),
        ensures
            r.chain() == *self,
            r.leading() == (WordView::Start, WordView::Start),
    {
        Chain { markov: self, cur_words: start_words() }
    }
}

impl<'a> Chain<'a> {
    /// The chain being walked.
    pub closed spec fn chain(&self) -> Markov {
        *self.markov
    }

    /// The two words that lead to the next one.
    pub closed spec fn leading(&self) -> (WordView, WordView) {
        (self.cur_words[0]@, self.cur_words[1]@)
    }

    /// Draws the word that follows the two leading words, with probability in proportion to its
    /// weight, and moves on to it. `None` where no word follows them, or where the end marker
    /// was drawn.
    pub fn next(&mut self) -> (r: Option<String>)
        requires
            old(self).chain().wf(),
        ensures
            final(self).chain() == old(self).chain(),
            r matches Some(w) ==> old(self).chain().weight(
                (old(self).leading().0, old(self).leading().1, WordView::Word(w@)),
            ) > 0,
            r matches Some(w) ==> final(self).leading() == (
                old(self).leading().1,
                WordView::Word(w@),
            ),
            r is None ==> {
                ||| (forall|n: WordView| #[trigger]
                    old(self).chain().weight((old(self).leading().0, old(self).leading().1, n))
                        == 0) && final(self).leading() == old(self).leading()
                ||| exists|n: WordView|
                    !(n is Word) && #[trigger] old(self).chain().weight(
                        (old(self).leading().0, old(self).leading().1, n),
                    ) > 0 && final(self).leading() == (old(self).leading().1, n)
            },
    {
        let ts = &self.markov.transitions;
        let ghost lead = (self.cur_words[0]@, self.cur_words[1]@);
        let mut indices: Vec<usize> = Vec::new();
        let mut weights: Vec<usize> = Vec::new();
        let mut total: usize = 0;
        let mut overflow = false;
        let mut i: usize = 0;
        while i < ts.len()
            invariant
                i <= ts@.len(),
                transitions_wf(ts@),
                lead == (self.cur_words[0]@, self.cur_words[1]@),
                indices@.len() == weights@.len(),
                forall|q: int|
                    0 <= q < indices@.len() ==> {
                        &&& (#[trigger] indices@[q]) < i
                        &&& (ts@[indices@[q] as int].first@, ts@[indices@[q] as int].second@)
                            == lead
                        &&& weights@[q] == ts@[indices@[q] as int].weight
                    },
                indices@.len() == 0 ==> forall|p: int|
                    0 <= p < i ==> (#[trigger] ts@[p].first@, ts@[p].second@) != lead,
                !overflow ==> total == sum_of(weights@),
            decreases ts@.len() - i,
        {
            let t = &ts[i];
            if t.first == self.cur_words[0] && t.second == self.cur_words[1] {
                let ghost before = weights@;
                indices.push(i);
                weights.push(t.weight);
                assert(weights@.drop_last() =~= before);
                if !overflow {
                    match total.checked_add(t.weight) {
                        Some(s) => total = s,
                        None => overflow = true,
                    }
                }
            }
            i = i + 1;
        }
        if indices.len() == 0 {
            assert forall|n: WordView| #[trigger]
                weight_in(ts@, (lead.0, lead.1, n)) == 0 by {
                lemma_weight_absent(ts@, (lead.0, lead.1, n));
            }
            return None;
        }
        let k = if overflow {
            0
        } else {
            assert forall|q: int| 0 <= q < weights@.len() implies #[trigger] weights@[q] > 0 by {
                assert(ts@[indices@[q] as int].weight > 0);
            }
            sample_index(&weights)
        };
        let chosen = &ts[indices[k]];
        let next = chosen.next.clone();
        let ghost at = indices@[k as int] as int;
        proof {
            lemma_weight_at(ts@, at);
        }
        assert((ts@[at].first@, ts@[at].second@) == lead);
        assert(ts@[at].weight > 0);
        assert(weight_in(ts@, (lead.0, lead.1, next@)) > 0);
        let second = self.cur_words[1].clone();
        let follower = next.clone();
        let ghost shifted = (second@, follower@);
        self.cur_words = [second, follower];
        assert(self.leading() == shifted);
        let ghost drawn = next@;
        match next {
            Word::Word(w) => Some(w),
            _ => {
                assert(!(drawn is Word) && self.chain().weight((lead.0, lead.1, drawn)) > 0
                    && self.leading() == (lead.1, drawn));
                None
            },
        }
    }
}

} // verus!
