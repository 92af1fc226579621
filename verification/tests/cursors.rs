use lsystem::LSystemType;

fn branch(input: u8) -> Vec<u8> {
    match input {
        1 => vec![1, 1],
        0 => vec![1, 2, 0, 3, 0],
        other => vec![other],
    }
}

fn erase_odd(input: u32) -> Vec<u32> {
    if input % 2 == 1 {
        Vec::new()
    } else {
        vec![input, input + 1]
    }
}

fn erase(_input: u32) -> Vec<u32> {
    Vec::new()
}

fn spell(input: String) -> Vec<String> {
    match input.as_str() {
        "F" => vec!["F".to_string(), "+".to_string(), "F".to_string()],
        _ => vec![input],
    }
}

fn generation<T: Clone, F: Fn(T) -> Vec<T>>(sys: &LSystemType<T, F>, n: usize) -> Vec<T> {
    let mut it = sys.iter();
    for _ in 0..n {
        it.next();
    }
    it.next().unwrap()
}

#[test]
fn first_word_is_the_start() {
    for start in [vec![], vec![0u8], vec![0, 1, 0], vec![3, 3, 2, 1, 0, 0, 2]] {
        let sys = LSystemType::new(start.clone(), branch);
        assert_eq!(sys.iter().next(), Some(start));
    }
}

#[test]
fn first_word_keeps_order_and_repeats() {
    let sys = LSystemType::new(vec![2u8, 1, 2, 2, 0], branch);
    assert_eq!(sys.iter().next().unwrap(), vec![2, 1, 2, 2, 0]);
}

#[test]
fn fresh_cursors_give_the_same_generations() {
    let sys = LSystemType::new(vec![0u8], branch);
    for n in 0..7 {
        let first = generation(&sys, n);
        for _ in 0..3 {
            assert_eq!(generation(&sys, n), first);
        }
    }
}

#[test]
fn binary_tree_generations() {
    let sys = LSystemType::new(vec![0u8], branch);
    assert_eq!(generation(&sys, 0), vec![0]);
    assert_eq!(generation(&sys, 1), vec![1, 2, 0, 3, 0]);
    assert_eq!(
        generation(&sys, 2),
        vec![1, 1, 2, 1, 2, 0, 3, 0, 3, 1, 2, 0, 3, 0]
    );
}

#[test]
fn pair_is_rewritten_in_order() {
    for (x, y) in [(0u8, 1u8), (1, 0), (0, 0), (1, 1), (2, 0), (0, 3)] {
        let sys = LSystemType::new(vec![x, y], branch);
        let mut expected = branch(x);
        expected.extend(branch(y));
        assert_eq!(generation(&sys, 1), expected);
    }
}

#[test]
fn pair_with_distinct_images_is_not_swapped() {
    let sys = LSystemType::new(vec![1u8, 0], branch);
    assert_eq!(generation(&sys, 1), vec![1, 1, 1, 2, 0, 3, 0]);
    let sys = LSystemType::new(vec![0u8, 1], branch);
    assert_eq!(generation(&sys, 1), vec![1, 2, 0, 3, 0, 1, 1]);
}

#[test]
fn cursors_of_one_system_are_independent() {
    let sys = LSystemType::new(vec![0u8], branch);
    let mut a = sys.iter();
    let mut b = sys.iter();
    assert_eq!(a.next().unwrap(), generation(&sys, 0));
    assert_eq!(a.next().unwrap(), generation(&sys, 1));
    assert_eq!(a.next().unwrap(), generation(&sys, 2));
    assert_eq!(b.next().unwrap(), generation(&sys, 0));
    assert_eq!(a.next().unwrap(), generation(&sys, 3));
    assert_eq!(b.next().unwrap(), generation(&sys, 1));
    let mut c = sys.iter();
    assert_eq!(b.next().unwrap(), generation(&sys, 2));
    assert_eq!(c.next().unwrap(), generation(&sys, 0));
    assert_eq!(a.next().unwrap(), generation(&sys, 4));
    assert_eq!(c.next().unwrap(), generation(&sys, 1));
}

#[test]
fn dropping_a_cursor_leaves_the_others() {
    let sys = LSystemType::new(vec![0u8], branch);
    let mut kept = sys.iter();
    {
        let mut gone = sys.iter();
        gone.next();
        gone.next();
        gone.next();
    }
    assert_eq!(kept.next().unwrap(), vec![0]);
    assert_eq!(kept.next().unwrap(), vec![1, 2, 0, 3, 0]);
}

#[test]
fn empty_start_stays_empty() {
    let sys = LSystemType::new(Vec::new(), branch);
    let mut it = sys.iter();
    for _ in 0..10 {
        assert_eq!(it.next(), Some(Vec::new()));
    }
    let sys = LSystemType::new(Vec::new(), erase_odd);
    let mut it = sys.iter();
    for _ in 0..10 {
        assert_eq!(it.next(), Some(Vec::new()));
    }
}

#[test]
fn rule_may_return_the_empty_word() {
    let sys = LSystemType::new(vec![4u32, 7, 1, 10], erase_odd);
    let mut it = sys.iter();
    assert_eq!(it.next().unwrap(), vec![4, 7, 1, 10]);
    assert_eq!(it.next().unwrap(), vec![4, 5, 10, 11]);
    assert_eq!(it.next().unwrap(), vec![4, 5, 10, 11]);
}

#[test]
fn erasing_rule_empties_the_word_after_the_start() {
    let sys = LSystemType::new(vec![1u32, 2, 3], erase);
    let mut it = sys.iter();
    assert_eq!(it.next().unwrap(), vec![1, 2, 3]);
    for _ in 0..5 {
        assert_eq!(it.next().unwrap(), Vec::<u32>::new());
    }
}

#[test]
fn next_never_runs_out() {
    let sys = LSystemType::new(vec![2u8, 3], branch);
    let mut it = sys.iter();
    for _ in 0..1000 {
        assert_eq!(it.next(), Some(vec![2, 3]));
    }
}

#[test]
fn returned_word_is_a_copy_of_its_own() {
    let sys = LSystemType::new(vec![0u8], branch);
    let mut it = sys.iter();
    let mut zeroth = it.next().unwrap();
    zeroth.clear();
    zeroth.push(1);
    let mut first = it.next().unwrap();
    assert_eq!(first, vec![1, 2, 0, 3, 0]);
    first.truncate(1);
    first[0] = 3;
    assert_eq!(
        it.next().unwrap(),
        vec![1, 1, 2, 1, 2, 0, 3, 0, 3, 1, 2, 0, 3, 0]
    );
    assert_eq!(sys.iter().next().unwrap(), vec![0]);
}

#[test]
fn start_is_held_by_value() {
    let mut mine = vec![0u8, 1];
    let sys = LSystemType::new(mine.clone(), branch);
    mine.clear();
    mine.push(3);
    assert_eq!(sys.iter().next().unwrap(), vec![0, 1]);
}

#[test]
fn symbols_need_only_clone() {
    let sys = LSystemType::new(vec!["F".to_string(), "-".to_string()], spell);
    let mut it = sys.iter();
    assert_eq!(it.next().unwrap().concat(), "F-");
    assert_eq!(it.next().unwrap().concat(), "F+F-");
    assert_eq!(it.next().unwrap().concat(), "F+F+F+F-");
}

#[test]
fn rule_may_be_a_closure() {
    let step: u32 = 10;
    let sys = LSystemType::new(vec![1u32], move |x: u32| vec![x, x + step]);
    let mut it = sys.iter();
    assert_eq!(it.next().unwrap(), vec![1]);
    assert_eq!(it.next().unwrap(), vec![1, 11]);
    assert_eq!(it.next().unwrap(), vec![1, 11, 11, 21]);
}

#[test]
fn rule_may_be_a_function_pointer() {
    let rule: fn(u8) -> Vec<u8> = branch;
    let sys = LSystemType::new(vec![0u8, 1], rule);
    let mut it = sys.iter();
    assert_eq!(it.next().unwrap(), vec![0, 1]);
    assert_eq!(it.next().unwrap(), vec![1, 2, 0, 3, 0, 1, 1]);
}

#[test]
fn one_symbol_start_is_rewritten_to_its_image() {
    for x in [0u8, 1, 2, 3, 200] {
        let sys = LSystemType::new(vec![x], branch);
        assert_eq!(generation(&sys, 1), branch(x));
    }
}

#[test]
fn longer_word_is_rewritten_symbol_by_symbol() {
    let start = vec![3u8, 0, 1, 1, 2, 0];
    let sys = LSystemType::new(start.clone(), branch);
    let mut expected: Vec<u8> = Vec::new();
    for x in start {
        expected.extend(branch(x));
    }
    assert_eq!(generation(&sys, 1), expected);
    assert_eq!(
        expected,
        vec![3, 1, 2, 0, 3, 0, 1, 1, 1, 1, 2, 1, 2, 0, 3, 0]
    );
}
