use vectx::visited::VisitedSet;

#[test]
fn test_visited_set() {
    let mut vs = VisitedSet::new(100);

    // Test insert and contains
    assert!(!vs.contains(5));
    assert!(vs.insert(5)); // First insert returns true
    assert!(vs.contains(5));
    assert!(!vs.insert(5)); // Second insert returns false

    // Test clear
    vs.clear();
    assert!(!vs.contains(5));
    assert!(vs.insert(5));
}

#[test]
fn test_visited_set_growth() {
    let mut vs = VisitedSet::new(8);
    assert!(!vs.contains(1000));
    assert!(vs.insert(1000));
    assert!(vs.contains(1000));
    assert!(!vs.contains(999));
    vs.clear();
    assert!(!vs.contains(1000));
}

#[test]
fn test_visited_set_many_generations() {
    let mut vs = VisitedSet::new(64);
    for round in 0..1000usize {
        let idx = round % 64;
        assert!(!vs.contains(idx));
        assert!(vs.insert(idx));
        assert!(vs.contains(idx));
        vs.clear();
    }
}
