use ir_affinity::selections::{hashset_to_mask, mask_to_hashset};

#[test]
fn mask_from_indices() {
    assert_eq!(hashset_to_mask(&vec![0, 2]), 0b101);
    assert_eq!(hashset_to_mask(&vec![]), 0);
    assert_eq!(hashset_to_mask(&vec![1, 3, 1]), 0b1010);
}

#[test]
fn indices_from_mask() {
    assert_eq!(mask_to_hashset(&0b1010), vec![1, 3]);
    assert_eq!(mask_to_hashset(&0), Vec::<usize>::new());
    assert_eq!(mask_to_hashset(&0b1), vec![0]);
}

#[test]
fn indices_from_mask_full_width() {
    let top = usize::BITS as usize - 1;
    let mask = 1usize << top;
    assert_eq!(mask_to_hashset(&mask), vec![top]);
    assert_eq!(mask_to_hashset(&usize::MAX).len(), usize::BITS as usize);
}

#[test]
fn mask_round_trip() {
    let sets: Vec<Vec<usize>> = vec![
        vec![],
        vec![0],
        vec![0, 1, 2, 3],
        vec![5, 17, 31],
        vec![usize::BITS as usize - 1, 0],
    ];
    for selections in sets {
        let mask = hashset_to_mask(&selections);
        let mut back = mask_to_hashset(&mask);
        let mut expected = selections.clone();
        expected.sort();
        expected.dedup();
        back.sort();
        assert_eq!(back, expected);
    }
}
