use spireai::state::probability::Probability;

#[test]
fn range_records_its_odds() {
    let mut p = Probability::new();
    assert_eq!(p.range(0), 0);
    assert!(p.factors.is_empty());
    for _ in 0..50 {
        assert!(p.range(6) < 6);
    }
    assert_eq!(p.factors.len(), 50);
    assert!(p.factors.iter().all(|f| *f == (1, 6)));
}

#[test]
fn choose_one_picks_an_item() {
    let mut p = Probability::new();
    assert_eq!(p.choose_one(Vec::<u8>::new()), None);
    assert!(p.factors.is_empty());
    let got = p.choose_one(vec![3u8, 5, 7]).unwrap();
    assert!([3, 5, 7].contains(&got));
    assert_eq!(p.factors, vec![(1, 3)]);
}

#[test]
fn choose_weighted_records_the_weight() {
    let mut p = Probability::new();
    let choices = [('a', 1u8), ('b', 3u8)];
    for _ in 0..20 {
        let got = *p.choose_weighted(&choices).unwrap();
        assert!(got == 'a' || got == 'b');
        let last = *p.factors.last().unwrap();
        assert!(last == (1, 4) || last == (3, 4));
    }
}

#[test]
fn choose_multiple_takes_distinct_positions() {
    let mut p = Probability::new();
    for _ in 0..20 {
        let got = p.choose_multiple(vec![1u8, 2, 3, 4, 5], 3);
        assert_eq!(got.len(), 3);
        let mut sorted = got.clone();
        sorted.sort();
        sorted.dedup();
        assert_eq!(sorted.len(), 3);
    }
}

#[test]
fn combine_joins_the_factors() {
    let mut a = Probability::new();
    a.range(2);
    let mut b = Probability::new();
    b.range(3);
    b.range(4);
    let v = a.combine((9u8, b));
    assert_eq!(v, 9);
    assert_eq!(a.factors, vec![(1, 2), (1, 3), (1, 4)]);
}

#[test]
fn choose_multiple_divides_by_the_ways_to_pick() {
    let mut p = Probability::new();
    p.choose_multiple(vec![1u8, 2, 3, 4, 5], 3);
    assert_eq!(p.factors.last(), Some(&(1, 10)));
    p.choose_multiple(vec![1u8, 2], 5);
    assert_eq!(p.factors.last(), Some(&(1, 1)));
    let many: Vec<u32> = (0..100).collect();
    p.choose_multiple(many, 2);
    assert_eq!(p.factors.last(), Some(&(1, 4950)));
    let more: Vec<u32> = (0..70).collect();
    p.choose_multiple(more, 10);
    assert_eq!(p.factors.last(), Some(&(1, 396704524216)));
}
