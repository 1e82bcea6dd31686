use heyting::temporal::{TimeSet, VirtualRelations};

/// TimeSet algebra: double complement is identity, De Morgan holds, and
/// before/singleton/after partition the axis. Checked on an axis that
/// crosses a word boundary (n = 70) so tail masking is exercised.
#[test]
fn timeset_algebra_laws() {
    let n = 70;
    let a = TimeSet::between(3, 40, n);
    let b = TimeSet::after(25, n);

    assert_eq!(a.complement().complement(), a);
    assert_eq!(
        a.union(&b).complement(),
        a.complement().intersect(&b.complement()),
        "De Morgan"
    );

    let t = 33;
    let partition = TimeSet::before(t, n)
        .union(&TimeSet::singleton(t, n))
        .union(&TimeSet::after(t, n));
    assert_eq!(partition, TimeSet::all(n));
    assert!(TimeSet::before(t, n)
        .intersect(&TimeSet::after(t, n))
        .is_empty());

    // Complement never leaks off-axis bits.
    assert_eq!(TimeSet::empty(n).complement(), TimeSet::all(n));
    assert_eq!(TimeSet::all(n).complement().len(), 0);
}

/// The TFLEX non-contiguous cases intervals cannot carry: a complement
/// (two rays) and a union of two windows.
#[test]
fn timeset_represents_non_contiguous_sets() {
    let n = 100;
    let mid = TimeSet::between(40, 60, n);
    let rays = mid.complement();
    assert!(rays.contains(0) && rays.contains(99));
    assert!(!rays.contains(50));
    assert_eq!(rays.len(), 100 - 21);

    let two = TimeSet::between(0, 5, n).union(&TimeSet::between(90, 95, n));
    assert_eq!(two.len(), 12);
    assert!(!two.contains(50));
    let members: Vec<usize> = two.iter();
    assert_eq!(members[0], 0);
    assert_eq!(*members.last().unwrap(), 95);
}

#[test]
fn timeset_constructors_clamp_to_the_axis() {
    let n = 10;
    assert_eq!(TimeSet::before(50, n), TimeSet::all(n));
    assert_eq!(TimeSet::before(0, n).len(), 0);
    assert!(TimeSet::after(9, n).is_empty());
    assert!(TimeSet::after(usize::MAX, n).is_empty());
    assert_eq!(TimeSet::after(7, n).iter(), vec![8, 9]);
    assert_eq!(TimeSet::between(8, 100, n).iter(), vec![8, 9]);
    assert!(TimeSet::between(5, 3, n).is_empty());
    assert!(TimeSet::between(0, 0, 0).is_empty());
    assert!(TimeSet::singleton(10, n).is_empty());
    assert_eq!(TimeSet::singleton(4, n).iter(), vec![4]);
    assert_eq!(TimeSet::all(0).len(), 0);
    assert_eq!(TimeSet::all(n).num_timestamps(), n);
}

#[test]
fn timeset_insert_ignores_off_axis_timestamps() {
    let mut s = TimeSet::empty(65);
    s.insert(64);
    s.insert(0);
    s.insert(0);
    s.insert(65);
    s.insert(1000);
    assert_eq!(s.len(), 2);
    assert!(s.contains(64) && s.contains(0));
    assert!(!s.contains(65));
    assert_eq!(s.iter(), vec![0, 64]);
    // The complement keeps off-axis bits clear, so it has exactly the rest.
    assert_eq!(s.complement().len(), 63);
}

#[test]
fn timeset_equality_is_set_equality_over_one_axis() {
    let a = TimeSet::between(3, 5, 64);
    let mut b = TimeSet::empty(64);
    for t in [5, 4, 3] {
        b.insert(t);
    }
    assert_eq!(a, b);
    assert_ne!(a, TimeSet::between(3, 5, 65));
    assert_ne!(a, TimeSet::between(3, 6, 64));
    assert_eq!(TimeSet::all(128).complement(), TimeSet::empty(128));
}

#[test]
fn registered_views_read_back() {
    let mut reg: VirtualRelations<TimeSet> = VirtualRelations::new(2);
    assert_eq!(reg.num_base(), 2);
    let early = TimeSet::before(3, 10);
    let late = TimeSet::after(6, 10);
    assert_eq!(reg.register(0, early.clone()), Some(2));
    assert_eq!(reg.register(1, late.clone()), Some(3));
    assert_eq!(reg.register(2, TimeSet::all(10)), None);

    assert_eq!(reg.resolve(0), Some((0, None)));
    assert_eq!(reg.resolve(1), Some((1, None)));
    assert_eq!(reg.resolve(2), Some((0, Some(&early))));
    assert_eq!(reg.resolve(3), Some((1, Some(&late))));
    assert_eq!(reg.resolve(4), None);
}

#[test]
fn registration_on_an_axis_rejects_mismatched_sets() {
    let mut reg: VirtualRelations<TimeSet> = VirtualRelations::new(1);
    assert_eq!(reg.register_on_axis(0, TimeSet::all(4), 5), None);
    assert_eq!(reg.register_on_axis(3, TimeSet::all(5), 5), None);
    assert_eq!(reg.register_on_axis(0, TimeSet::singleton(2, 5), 5), Some(1));
    assert_eq!(reg.resolve(1), Some((0, Some(&TimeSet::singleton(2, 5)))));
    assert_eq!(reg.resolve(2), None);
}

#[test]
fn checked_set_operations_refuse_mismatched_axes() {
    let mut a = TimeSet::empty(65);
    a.insert(1);
    a.insert(64);
    let mut b = TimeSet::empty(65);
    b.insert(64);
    b.insert(3);
    let u = a.checked_union(&b).unwrap();
    assert_eq!(u.iter(), vec![1, 3, 64]);
    assert_eq!(u.num_timestamps(), 65);
    let i = a.checked_intersect(&b).unwrap();
    assert_eq!(i.iter(), vec![64]);

    let c = TimeSet::all(100); // same word count, different axis
    assert!(a.checked_union(&c).is_none());
    assert!(a.checked_intersect(&c).is_none());
    assert!(c.checked_union(&TimeSet::empty(3)).is_none());
}
