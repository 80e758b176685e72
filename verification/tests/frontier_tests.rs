use crystal_kmc::frontier::Frontier;
use rand::SeedableRng;
use rand_chacha::ChaCha8Rng;

#[test]
fn new_index_is_empty() {
    let front = Frontier::new(10);
    assert_eq!(front.tpas_size, 0);
    assert_eq!(front.tpbs_size, 0);
    assert!(front.tpas.is_empty());
    assert!(front.tpbs.is_empty());
}

#[test]
fn add_appends_and_counts() {
    let mut front = Frontier::new(10);
    front.tpa_add(4);
    front.tpa_add(7);
    front.tpb_add(2);
    assert_eq!(front.tpas, vec![4, 7]);
    assert_eq!(front.tpbs, vec![2]);
    assert_eq!(front.tpa_size(), 2);
    assert_eq!(front.tpb_size(), 1);
    assert_eq!(front.tpa_at(1), 7);
    assert_eq!(front.tpb_at(0), 2);
}

#[test]
fn add_of_a_member_changes_nothing() {
    let mut front = Frontier::new(10);
    front.tpa_add(4);
    front.tpa_add(7);
    front.tpa_add(4);
    assert_eq!(front.tpas, vec![4, 7]);
    assert_eq!(front.tpas_size, 2);
    front.tpb_add(1);
    front.tpb_add(1);
    assert_eq!(front.tpbs, vec![1]);
}

#[test]
fn remove_moves_the_last_member_into_the_gap() {
    let mut front = Frontier::new(10);
    for g in [1, 3, 5, 7, 9] {
        front.tpa_add(g);
    }
    front.tpa_rem(3);
    assert_eq!(front.tpas, vec![1, 9, 5, 7]);
    assert_eq!(front.tpas_size, 4);
    // the moved member is found at its new place
    front.tpa_rem(9);
    assert_eq!(front.tpas, vec![1, 7, 5]);
    front.tpa_rem(5);
    assert_eq!(front.tpas, vec![1, 7]);
}

#[test]
fn remove_of_a_site_that_is_no_member_changes_nothing() {
    let mut front = Frontier::new(10);
    front.tpa_add(2);
    front.tpb_add(6);
    front.tpa_rem(6);
    front.tpb_rem(2);
    front.tpa_rem(9);
    assert_eq!(front.tpas, vec![2]);
    assert_eq!(front.tpbs, vec![6]);
}

#[test]
fn add_then_remove_gives_the_index_back() {
    let mut front = Frontier::new(12);
    for g in [0, 5, 11] {
        front.tpa_add(g);
    }
    for g in [2, 8] {
        front.tpb_add(g);
    }
    front.tpa_add(7);
    front.tpa_rem(7);
    front.tpb_add(9);
    front.tpb_rem(9);
    assert_eq!(front.tpas, vec![0, 5, 11]);
    assert_eq!(front.tpbs, vec![2, 8]);
    assert_eq!(front.tpas_size, 3);
    assert_eq!(front.tpbs_size, 2);
    // the site that came and went can come again at the end
    front.tpa_add(7);
    assert_eq!(front.tpas, vec![0, 5, 11, 7]);
}

#[test]
fn the_two_sets_are_kept_apart() {
    let mut front = Frontier::new(6);
    front.tpa_add(1);
    front.tpb_add(2);
    front.tpa_rem(1);
    front.tpb_add(1);
    assert_eq!(front.tpas, Vec::<usize>::new());
    assert_eq!(front.tpbs, vec![2, 1]);
}

#[test]
fn sampling_draws_members_of_the_right_set() {
    let mut front = Frontier::new(20);
    for g in [3, 8, 13] {
        front.tpa_add(g);
    }
    for g in [5, 17] {
        front.tpb_add(g);
    }
    let mut rng = ChaCha8Rng::seed_from_u64(1012);
    let mut seen_a = Vec::new();
    let mut seen_b = Vec::new();
    for _ in 0..200 {
        let a = front.tpa_sample(&mut rng);
        let b = front.tpb_sample(&mut rng);
        assert!([3, 8, 13].contains(&a));
        assert!([5, 17].contains(&b));
        if !seen_a.contains(&a) {
            seen_a.push(a);
        }
        if !seen_b.contains(&b) {
            seen_b.push(b);
        }
    }
    assert_eq!(seen_a.len(), 3);
    assert_eq!(seen_b.len(), 2);
}
