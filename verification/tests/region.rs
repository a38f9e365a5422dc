use eevee::region::Region;

#[test]
fn ordering_is_by_priority() {
    assert!(Region::Preponed < Region::Active);
    assert!(Region::Active < Region::Inactive);
    assert!(Region::Inactive < Region::Nba);
    assert!(Region::Nba < Region::Observed);
    assert!(Region::Observed < Region::Reactive);
    assert!(Region::Reactive < Region::Postponed);
}

#[test]
fn priorities_are_dense() {
    for (i, r) in Region::ALL.iter().enumerate() {
        assert_eq!(r.priority() as usize, i);
    }
}

#[test]
fn next_chain() {
    let mut r = Region::Preponed;
    let mut count = 1;
    while let Some(n) = r.next() {
        r = n;
        count += 1;
    }
    assert_eq!(r, Region::Postponed);
    assert_eq!(count, 7);
}
