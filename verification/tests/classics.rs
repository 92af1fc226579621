use lsystem::{LSystemIterator, LSystemType};

#[derive(Clone, Copy, Debug, PartialEq, Eq)]
enum Algae {
    A,
    B,
}

fn algae_rule(input: Algae) -> Vec<Algae> {
    match input {
        Algae::A => vec![Algae::A, Algae::B],
        Algae::B => vec![Algae::A],
    }
}

fn keep(input: Algae) -> Vec<Algae> {
    vec![input]
}

fn double(input: char) -> Vec<char> {
    vec![input, input]
}

fn cantor(input: char) -> Vec<char> {
    match input {
        'A' => vec!['A', 'B', 'A'],
        _ => vec!['B', 'B', 'B'],
    }
}

fn skip<T: Clone, F: Fn(T) -> Vec<T>>(it: &mut LSystemIterator<'_, T, F>, n: usize) {
    for _ in 0..n {
        assert!(it.next().is_some());
    }
}

#[test]
fn algae_fifth_word() {
    let algae = LSystemType::new(vec![Algae::B], algae_rule);
    let mut it = algae.iter();
    skip(&mut it, 4);
    assert_eq!(
        it.next().unwrap(),
        vec![Algae::A, Algae::B, Algae::A, Algae::A, Algae::B]
    );
}

#[test]
fn algae_generations_zero_to_four() {
    let algae = LSystemType::new(vec![Algae::B], algae_rule);
    let mut it = algae.iter();
    assert_eq!(it.next(), Some(vec![Algae::B]));
    assert_eq!(it.next(), Some(vec![Algae::A]));
    assert_eq!(it.next(), Some(vec![Algae::A, Algae::B]));
    assert_eq!(it.next(), Some(vec![Algae::A, Algae::B, Algae::A]));
    assert_eq!(it.next(), Some(vec![Algae::A, Algae::B, Algae::A, Algae::A, Algae::B]));
}

#[test]
fn algae_lengths_follow_fibonacci() {
    let algae = LSystemType::new(vec![Algae::B], algae_rule);
    let mut it = algae.iter();
    let expected: [usize; 12] = [1, 1, 2, 3, 5, 8, 13, 21, 34, 55, 89, 144];
    for len in expected {
        assert_eq!(it.next().unwrap().len(), len);
    }
}

#[test]
fn identity_rule_repeats_start() {
    let start = vec![Algae::A, Algae::B, Algae::B, Algae::A, Algae::A];
    let sys = LSystemType::new(start.clone(), keep);
    let mut it = sys.iter();
    for _ in 0..8 {
        assert_eq!(it.next().unwrap(), start);
    }
}

#[test]
fn doubling_rule_grows_by_powers_of_two() {
    let sys = LSystemType::new(vec!['A'], double);
    let mut it = sys.iter();
    let mut expected: usize = 1;
    for _ in 0..=12 {
        let word = it.next().unwrap();
        assert_eq!(word.len(), expected);
        assert!(word.iter().all(|c| *c == 'A'));
        expected *= 2;
    }
    assert_eq!(expected, 8192);
}

#[test]
fn doubling_rule_tenth_generation_has_1024_symbols() {
    let sys = LSystemType::new(vec!['A'], double);
    let mut it = sys.iter();
    skip(&mut it, 10);
    assert_eq!(it.next().unwrap().len(), 1024);
}

#[test]
fn tripling_rule_from_two_symbols() {
    let sys = LSystemType::new(vec!['A', 'B'], cantor);
    let mut it = sys.iter();
    let expected: [usize; 6] = [2, 6, 18, 54, 162, 486];
    for len in expected {
        assert_eq!(it.next().unwrap().len(), len);
    }
}

#[test]
fn cantor_words() {
    let sys = LSystemType::new(vec!['A'], cantor);
    let mut it = sys.iter();
    let text = |w: Vec<char>| w.into_iter().collect::<String>();
    assert_eq!(text(it.next().unwrap()), "A");
    assert_eq!(text(it.next().unwrap()), "ABA");
    assert_eq!(text(it.next().unwrap()), "ABABBBABA");
    assert_eq!(text(it.next().unwrap()), "ABABBBABABBBBBBBBBABABBBABA");
}
