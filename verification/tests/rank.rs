use athroisma::rank::{rank, rank_rows};

#[test]
fn largest_first_and_ties_as_they_came() {
    let keys: Vec<u64> = vec![3, 9, 3, 0, 9, 1];
    assert_eq!(rank(&keys), [1, 4, 0, 2, 5, 3]);
}

#[test]
fn ranking_agrees_with_a_stable_sort() {
    let mut x: u64 = 12345;
    let keys: Vec<u64> = (0..500)
        .map(|_| {
            x = x.wrapping_mul(6364136223846793005).wrapping_add(1442695040888963407);
            (x >> 33) % 50
        })
        .collect();
    let mut expected: Vec<usize> = (0..keys.len()).collect();
    expected.sort_by(|a, b| keys[*b].cmp(&keys[*a]));
    assert_eq!(rank(&keys), expected);
}

#[test]
fn names_rank_as_strings_do() {
    let names = ["sdb", "sda10", "", "sda", "sda1", "\u{e9}", "z", "sda", "\u{10000}", "\u{ffff}"];
    let keys: Vec<Vec<char>> = names.iter().map(|n| n.chars().collect()).collect();
    let mut expected: Vec<usize> = (0..names.len()).collect();
    expected.sort_by(|a, b| names[*a].cmp(names[*b]));
    assert_eq!(rank(&keys), expected);
}

#[test]
fn limit_cuts_the_list() {
    let rows = ['a', 'b', 'c', 'd'];
    let keys: Vec<u64> = vec![1, 4, 2, 4];
    assert_eq!(rank_rows(&rows, &keys, None), ['b', 'd', 'c', 'a']);
    assert_eq!(rank_rows(&rows, &keys, Some(2)), ['b', 'd']);
    assert_eq!(rank_rows(&rows, &keys, Some(9)), ['b', 'd', 'c', 'a']);
    assert_eq!(rank_rows(&rows, &keys, Some(0)), Vec::<char>::new());
}
