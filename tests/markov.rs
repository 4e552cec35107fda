use gateway_client::markov::{start_words, Markov, Word};

fn words(ws: &[&str]) -> Vec<String> {
    ws.iter().map(|w| w.to_string()).collect()
}

fn weight(m: &Markov, a: &Word, b: &Word, n: &Word) -> usize {
    m.transitions()
        .iter()
        .find(|t| t.first == *a && t.second == *b && t.next == *n)
        .map(|t| t.weight)
        .unwrap_or(0)
}

fn w(s: &str) -> Word {
    Word::Word(s.to_string())
}

#[test]
fn insert_counts_transitions() {
    let mut m = Markov::new();
    m.insert(start_words(), w("a"));
    m.insert(start_words(), w("a"));
    m.insert(start_words(), w("b"));
    assert_eq!(weight(&m, &Word::Start, &Word::Start, &w("a")), 2);
    assert_eq!(weight(&m, &Word::Start, &Word::Start, &w("b")), 1);
    assert_eq!(m.transitions().len(), 2);
}

#[test]
fn insert_sequence_counts_each_step() {
    let mut m = Markov::new();
    m.insert_sequence(words(&["the", "cat", "sat"]));
    assert_eq!(weight(&m, &Word::Start, &Word::Start, &w("the")), 1);
    assert_eq!(weight(&m, &Word::Start, &w("the"), &w("cat")), 1);
    assert_eq!(weight(&m, &w("the"), &w("cat"), &w("sat")), 1);
    assert_eq!(weight(&m, &w("cat"), &w("sat"), &Word::End), 1);
    assert_eq!(m.transitions().len(), 4);
    m.insert_sequence(words(&["the", "dog"]));
    assert_eq!(weight(&m, &Word::Start, &Word::Start, &w("the")), 2);
    assert_eq!(weight(&m, &w("the"), &w("dog"), &Word::End), 1);
}

#[test]
fn empty_sequence_counts_an_empty_sentence() {
    let mut m = Markov::new();
    m.insert_sequence(Vec::new());
    assert_eq!(weight(&m, &Word::Start, &Word::Start, &Word::End), 1);
}

#[test]
fn clean_drops_rare_transitions() {
    let mut m = Markov::new();
    m.insert_sequence(words(&["a", "b", "c"]));
    m.insert_sequence(words(&["a", "b", "d"]));
    let removed = m.clean(2);
    // Kept: (S,S)->a and (S,a)->b, seen twice each.
    assert_eq!(removed, 4);
    assert_eq!(m.transitions().len(), 2);
    assert_eq!(weight(&m, &Word::Start, &w("a"), &w("b")), 2);
    assert_eq!(weight(&m, &w("a"), &w("b"), &w("c")), 0);
    assert_eq!(m.clean(0), 0);
}

#[test]
fn what_follows_lists_each_word_once() {
    let mut m = Markov::new();
    m.insert_sequence(words(&["x", "go", "home"]));
    m.insert_sequence(words(&["y", "go", "home"]));
    m.insert_sequence(words(&["go", "away"]));
    m.insert_sequence(words(&["go"]));
    let follows = m.what_follows("go");
    assert_eq!(follows, words(&["home", "away"]));
    assert!(m.what_follows("nothing").is_empty());
    let starts = m.what_starts();
    assert_eq!(starts, words(&["x", "y", "go"]));
}

#[test]
fn walk_follows_the_only_path() {
    let mut m = Markov::new();
    m.insert_sequence(words(&["one", "two", "three"]));
    let mut chain = m.generate_sequence();
    assert_eq!(chain.next(), Some("one".to_string()));
    assert_eq!(chain.next(), Some("two".to_string()));
    assert_eq!(chain.next(), Some("three".to_string()));
    assert_eq!(chain.next(), None);
    assert_eq!(chain.next(), None);
}

#[test]
fn walk_draws_only_seen_words() {
    let mut m = Markov::new();
    m.insert_sequence(words(&["a"]));
    m.insert_sequence(words(&["b"]));
    for _ in 0..20 {
        let mut chain = m.generate_sequence();
        let first = chain.next().unwrap();
        assert!(first == "a" || first == "b");
        assert_eq!(chain.next(), None);
    }
    let empty = Markov::new();
    assert_eq!(empty.generate_sequence().next(), None);
}

#[test]
fn word_equality_and_clone() {
    assert!(w("a") == w("a"));
    assert!(w("a") != w("b"));
    assert!(Word::Start != Word::End);
    assert!(Word::Start != w("a"));
    assert!(w("q").clone() == w("q"));
}
