use log_file_analyser::{drain, merge, Buffers, Printer, Source, VecSource};

struct TestCase {
    arr1: Vec<usize>,
    arr2: Vec<usize>,
    expected: Vec<usize>,
}

fn test_cases() -> Vec<TestCase> {
    vec![
        TestCase {
            arr1: vec![1, 3, 5],
            arr2: vec![2, 4, 6],
            expected: vec![1, 2, 3, 4, 5, 6],
        },
        TestCase {
            arr1: vec![1, 2, 3],
            arr2: vec![4, 5, 6],
            expected: vec![1, 2, 3, 4, 5, 6],
        },
        TestCase {
            arr1: vec![1, 2, 3],
            arr2: vec![],
            expected: vec![1, 2, 3],
        },
        TestCase {
            arr1: vec![],
            arr2: vec![],
            expected: vec![],
        },
        TestCase {
            arr1: vec![1, 2, 3],
            arr2: vec![1, 2, 3],
            expected: vec![1, 1, 2, 2, 3, 3],
        },
        TestCase {
            arr1: vec![1, 2, 3],
            arr2: vec![1, 2, 3, 4, 5, 6],
            expected: vec![1, 1, 2, 2, 3, 3, 4, 5, 6],
        },
        TestCase {
            arr1: vec![1, 4, 5, 6],
            arr2: vec![2, 3, 7, 8],
            expected: vec![1, 2, 3, 4, 5, 6, 7, 8],
        },
    ]
}

fn less(a: &usize, b: &usize) -> bool {
    a < b
}

#[test]
fn merging_iterator_collect() {
    let test_cases = test_cases();

    for (idx, test_case) in test_cases.iter().enumerate() {
        // Both directions of merging give the same result.
        let merged = merge(
            VecSource::new(test_case.arr1.clone()),
            VecSource::new(test_case.arr2.clone()),
            |a: &usize, b: &usize| a < b,
        );
        let collected: Vec<usize> = merged.collect();
        assert_eq!(collected, test_case.expected, "test case {}", idx);

        let merged = merge(
            VecSource::new(test_case.arr2.clone()),
            VecSource::new(test_case.arr1.clone()),
            |a: &usize, b: &usize| a < b,
        );
        let collected: Vec<usize> = merged.collect();
        assert_eq!(collected, test_case.expected, "test case {}", idx);
    }
}

#[test]
fn merging_iterators_next() {
    let test_cases = test_cases();

    for (idx, test_case) in test_cases.iter().enumerate() {
        let mut merged = merge(
            VecSource::new(test_case.arr1.clone()),
            VecSource::new(test_case.arr2.clone()),
            |a: &usize, b: &usize| a < b,
        );
        for expected in &test_case.expected {
            assert_eq!(merged.next(), Some(*expected), "test case {}", idx);
        }

        let mut merged = merge(
            VecSource::new(test_case.arr2.clone()),
            VecSource::new(test_case.arr1.clone()),
            |a: &usize, b: &usize| a < b,
        );
        for expected in &test_case.expected {
            assert_eq!(merged.next(), Some(*expected), "test case {}", idx);
        }
    }
}

#[test]
fn merge_with_empty_right_is_left() {
    let merged = merge(VecSource::new(vec![3usize, 1, 2]), VecSource::new(vec![]), less);
    assert_eq!(merged.collect(), vec![3, 1, 2]);
}

#[test]
fn merge_of_empties_is_empty() {
    let merged = merge(VecSource::<usize>::new(vec![]), VecSource::new(vec![]), less);
    assert_eq!(merged.collect(), Vec::<usize>::new());
}

#[test]
fn merge_equal_sequences_duplicates() {
    let merged = merge(VecSource::new(vec![1usize, 2, 3]), VecSource::new(vec![1, 2, 3]), less);
    assert_eq!(merged.collect(), vec![1, 1, 2, 2, 3, 3]);
}

#[test]
fn merge_unequal_lengths() {
    let merged = merge(
        VecSource::new(vec![1usize, 2, 3]),
        VecSource::new(vec![1, 2, 3, 4, 5, 6]),
        less,
    );
    assert_eq!(merged.collect(), vec![1, 1, 2, 2, 3, 3, 4, 5, 6]);
}

#[test]
fn merge_sorted_both_directions() {
    let a = vec![1usize, 3, 5];
    let b = vec![2usize, 4, 6];
    let ab = merge(VecSource::new(a.clone()), VecSource::new(b.clone()), less).collect();
    let ba = merge(VecSource::new(b), VecSource::new(a), less).collect();
    assert_eq!(ab, vec![1, 2, 3, 4, 5, 6]);
    assert_eq!(ab, ba);
}

#[test]
fn pulls_match_drain() {
    let make = || merge(VecSource::new(vec![1usize, 4, 5]), VecSource::new(vec![2, 3, 9]), less);
    let drained = make().collect();
    let mut pulled = Vec::new();
    let mut m = make();
    while let Some(x) = m.next() {
        pulled.push(x);
    }
    assert_eq!(pulled, drained);
    assert_eq!(pulled, vec![1, 2, 3, 4, 5, 9]);
}

#[test]
fn exhausted_merge_stays_exhausted() {
    let mut m = merge(VecSource::new(vec![7usize]), VecSource::new(vec![]), less);
    assert_eq!(m.next(), Some(7));
    assert_eq!(m.next(), None);
    assert_eq!(m.next(), None);
}

#[test]
fn tie_emits_right_item_first() {
    // Neither (1, 'a') nor (1, 'b') precedes the other by key: the right comes out first.
    let before = |a: &(usize, char), b: &(usize, char)| a.0 < b.0;
    let merged = merge(VecSource::new(vec![(1usize, 'a')]), VecSource::new(vec![(1, 'b')]), before);
    assert_eq!(merged.collect(), vec![(1, 'b'), (1, 'a')]);
}

#[test]
fn unsorted_input_keeps_each_side_in_order() {
    let merged = merge(VecSource::new(vec![5usize, 1]), VecSource::new(vec![3, 2]), less);
    assert_eq!(merged.collect(), vec![3, 2, 5, 1]);
}

#[test]
fn printer_passes_items_through() {
    let mut p = Printer::new(VecSource::new(vec![4usize, 8]));
    assert_eq!(p.next(), Some(4));
    assert_eq!(p.next(), Some(8));
    assert_eq!(p.next(), None);
}

#[test]
fn drain_empties_source() {
    let mut s = VecSource::new(vec![1usize, 2, 3]);
    assert_eq!(s.next(), Some(1));
    assert_eq!(drain(&mut s), vec![2, 3]);
    assert_eq!(s.next(), None);
}

#[test]
fn buffers_hold_one_item_per_side() {
    let mut m = merge(VecSource::new(vec![1usize, 3]), VecSource::new(vec![2]), less);
    assert_eq!(m.buffers(), Buffers::Empty);
    assert_eq!(m.next(), Some(1));
    assert_eq!(m.buffers(), Buffers::RightOnly);
    assert_eq!(m.next(), Some(2));
    assert_eq!(m.buffers(), Buffers::LeftOnly);
    assert_eq!(m.next(), Some(3));
    assert_eq!(m.buffers(), Buffers::Empty);
    assert_eq!(m.next(), None);
}

#[test]
fn buffer_states_after_pulls() {
    let mut m = merge(VecSource::new(vec![5usize]), VecSource::new(vec![1, 9]), less);
    assert_eq!(m.next(), Some(1));
    assert_eq!(m.buffers(), Buffers::LeftOnly);
    assert_eq!(m.next(), Some(5));
    assert_eq!(m.buffers(), Buffers::RightOnly);
    let mut m = merge(VecSource::new(vec![5usize, 6]), VecSource::new(vec![7usize]), less);
    assert_eq!(m.next(), Some(5));
    assert_eq!(m.buffers(), Buffers::RightOnly);
    assert_eq!(m.next(), Some(6));
    assert_eq!(m.buffers(), Buffers::RightOnly);
    let mut m = merge(VecSource::new(vec![2usize, 3]), VecSource::new(vec![1usize, 4]), less);
    assert_eq!(m.next(), Some(1));
    assert_eq!(m.next(), Some(2));
    assert_eq!(m.buffers(), Buffers::RightOnly);
    assert_eq!(m.next(), Some(3));
    assert_eq!(m.buffers(), Buffers::RightOnly);
}

#[test]
fn pull_emits_by_rule_and_empties_the_emitting_buffer() {
    let mut m = merge(VecSource::new(vec![1usize, 3, 5]), VecSource::new(vec![2, 4, 6]), less);
    assert_eq!(m.pull(), Some(1));
    assert_eq!(m.buffers(), Buffers::RightOnly);
    assert_eq!(m.pull(), Some(2));
    assert_eq!(m.buffers(), Buffers::LeftOnly);
    let rest: Vec<usize> = m.collect();
    assert_eq!(rest, vec![3, 4, 5, 6]);
}
