use isomesh::combinations::{array_0_to_N, combinations_constsize, combinations_constsize_owned};

#[test]
fn pairs_of_four_come_in_counter_order() {
    let source = [10usize, 20, 30, 40];
    let pairs: Vec<[usize; 2]> = combinations_constsize::<2, usize>(&source);
    assert_eq!(
        pairs,
        vec![[10, 20], [10, 30], [20, 30], [10, 40], [20, 40], [30, 40]]
    );
}

#[test]
fn triples_of_four() {
    let triples: Vec<[u8; 3]> = combinations_constsize_owned::<3, u8>(vec![0, 1, 2, 3]);
    assert_eq!(triples, vec![[0, 1, 2], [0, 1, 3], [0, 2, 3], [1, 2, 3]]);
}

#[test]
fn size_zero_yields_nothing() {
    let none: Vec<[u8; 0]> = combinations_constsize::<0, u8>(&[1, 2, 3]);
    assert!(none.is_empty());
}

#[test]
fn too_few_elements_yield_nothing() {
    let none: Vec<[u8; 3]> = combinations_constsize::<3, u8>(&[1, 2]);
    assert!(none.is_empty());
}

#[test]
fn counting_array() {
    assert_eq!(array_0_to_N::<4>(), [0, 1, 2, 3]);
}
