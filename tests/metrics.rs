use folo_metrics::{
    report_page, ConfigurationError, EventBuilder, Magnitude, Registry, ReportBuilder, UNIT,
};

fn units(n: i64) -> Magnitude {
    n * UNIT
}

fn sum_of(n: i64) -> i128 {
    (n as i128) * (UNIT as i128)
}

#[test]
fn event_smoke_test() {
    let mut registry = Registry::new();

    let event = EventBuilder::new()
        .name("test")
        .buckets(vec![units(1), units(2), units(3)])
        .build(&mut registry)
        .unwrap();

    event.observe(&mut registry, units(1));
    event.observe(&mut registry, units(2));
    event.observe(&mut registry, units(3));
    event.observe(&mut registry, units(4));
    event.observe(&mut registry, units(5));
    event.observe_many(&mut registry, units(1), 2);
    event.observe_many(&mut registry, units(2), 3);
    event.observe_many(&mut registry, units(3), 4);
    event.observe_many(&mut registry, units(4), 5);
    event.observe_many(&mut registry, units(5), 6);

    let page = report_page(&registry);

    assert_eq!(page.len(), 1);

    let snapshot = page.get("test").unwrap();
    assert_eq!(snapshot.count, 25);
    assert_eq!(snapshot.sum, sum_of(85));
    assert_eq!(snapshot.bucket_counts, vec![3, 4, 5]);

    let mut report_builder = ReportBuilder::new();
    report_builder.add_page(page);

    let report = report_builder.build();

    println!("{}", report.render());
}

#[test]
fn counter() {
    let mut registry = Registry::new();

    let event = EventBuilder::new()
        .name("test_counter")
        .buckets(vec![])
        .build(&mut registry)
        .unwrap();

    event.observe_unit(&mut registry);
    event.observe_unit(&mut registry);
    event.observe_unit(&mut registry);

    let page = report_page(&registry);

    assert_eq!(page.len(), 1);

    let snapshot = page.get("test_counter").unwrap();
    assert_eq!(snapshot.count, 3);
    assert_eq!(snapshot.sum, sum_of(3));
    assert_eq!(snapshot.bucket_counts, Vec::<usize>::new());

    let mut report_builder = ReportBuilder::new();
    report_builder.add_page(page);

    let report = report_builder.build();

    println!("{}", report.render());
}

#[test]
fn multi_page_report() {
    let mut registry = Registry::new();

    let event = EventBuilder::new()
        .name("test")
        .buckets(vec![units(1), units(2), units(3)])
        .build(&mut registry)
        .unwrap();

    event.observe(&mut registry, units(0));
    event.observe(&mut registry, units(100));

    // The registry of another thread.
    let mut other = Registry::new();
    let other_event = EventBuilder::new()
        .name("test")
        .buckets(vec![units(1), units(2), units(3)])
        .build(&mut other)
        .unwrap();

    other_event.observe(&mut other, units(-10));
    other_event.observe(&mut other, units(1));
    other_event.observe(&mut other, units(1));
    other_event.observe(&mut other, units(1));

    let other_page = report_page(&other);
    let this_page = report_page(&registry);

    let mut report_builder = ReportBuilder::new();
    report_builder.add_page(this_page);
    report_builder.add_page(other_page);

    let report = report_builder.build();

    let snapshot = report.get("test").unwrap();

    assert_eq!(snapshot.count, 6);
    assert_eq!(snapshot.sum, sum_of(93));
    assert_eq!(snapshot.bucket_counts, vec![5, 0, 0]);

    println!("{}", report.render());
}

#[test]
fn multi_metric_report() {
    let mut registry = Registry::new();

    let event = EventBuilder::new()
        .name("test")
        .buckets(vec![units(1), units(2), units(3)])
        .build(&mut registry)
        .unwrap();

    event.observe(&mut registry, units(0));
    event.observe(&mut registry, units(100));

    let event = EventBuilder::new().name("another_test").build(&mut registry).unwrap();

    event.observe(&mut registry, units(1234));
    event.observe(&mut registry, units(45678));

    let event = EventBuilder::new().name("more").build(&mut registry).unwrap();

    event.observe(&mut registry, units(1234));
    event.observe(&mut registry, units(45678));

    let mut report_builder = ReportBuilder::new();
    report_builder.add_page(report_page(&registry));

    let report = report_builder.build();

    assert_eq!(3, report.len());

    println!("{}", report.render());
}

#[test]
fn build_without_name_is_a_configuration_error() {
    let mut registry = Registry::new();
    let r = EventBuilder::new().buckets(vec![units(1)]).build(&mut registry);
    assert!(matches!(r, Err(ConfigurationError::MissingName)));
    assert_eq!(registry.len(), 0);
    assert_eq!(report_page(&registry).len(), 0);
}

#[test]
fn second_registration_reuses_the_first_bag() {
    let mut registry = Registry::new();
    let first = EventBuilder::new()
        .name("e")
        .buckets(vec![units(1)])
        .build(&mut registry)
        .unwrap();
    let second = EventBuilder::new()
        .name("e")
        .buckets(vec![units(10), units(20)])
        .build(&mut registry)
        .unwrap();
    first.observe(&mut registry, units(1));
    second.observe(&mut registry, units(5));
    assert_eq!(registry.len(), 1);
    let page = report_page(&registry);
    let s = page.get("e").unwrap();
    assert_eq!(s.count, 2);
    assert_eq!(s.sum, sum_of(6));
    assert_eq!(s.bucket_counts, vec![1]);
    assert_eq!(s.bucket_magnitudes, vec![units(1)]);
}

#[test]
fn placement_is_upper_inclusive_and_first_fit() {
    let mut registry = Registry::new();
    let e = EventBuilder::new()
        .name("h")
        .buckets(vec![units(1), units(2), units(3)])
        .build(&mut registry)
        .unwrap();
    e.observe(&mut registry, units(1));
    e.observe(&mut registry, units(1) + 1);
    e.observe(&mut registry, units(-5));
    e.observe(&mut registry, units(3));
    e.observe(&mut registry, units(3) + 1);
    let page = report_page(&registry);
    let s = page.get("h").unwrap();
    assert_eq!(s.bucket_counts, vec![2, 1, 1]);
    assert_eq!(s.count, 5);
}

#[test]
fn snapshot_does_not_reset_the_bag() {
    let mut registry = Registry::new();
    let e = EventBuilder::new().name("c").build(&mut registry).unwrap();
    e.observe_unit(&mut registry);
    let first = report_page(&registry);
    e.observe_unit(&mut registry);
    let second = report_page(&registry);
    assert_eq!(first.get("c").unwrap().count, 1);
    assert_eq!(second.get("c").unwrap().count, 2);
}

#[test]
fn clear_empties_the_registry() {
    let mut registry = Registry::new();
    let e = EventBuilder::new().name("c").build(&mut registry).unwrap();
    e.observe_unit(&mut registry);
    registry.clear();
    assert_eq!(registry.len(), 0);
    e.observe_unit(&mut registry);
    assert_eq!(report_page(&registry).len(), 0);
}

#[test]
fn merge_order_does_not_matter() {
    let mut a = Registry::new();
    let mut b = Registry::new();
    let ea = EventBuilder::new().name("x").buckets(vec![units(2)]).build(&mut a).unwrap();
    let eb = EventBuilder::new().name("x").buckets(vec![units(2)]).build(&mut b).unwrap();
    let only_b = EventBuilder::new().name("y").build(&mut b).unwrap();
    ea.observe_many(&mut a, units(1), 3);
    eb.observe_many(&mut b, units(7), 2);
    only_b.observe_unit(&mut b);

    let mut ab = ReportBuilder::new();
    ab.add_page(report_page(&a));
    ab.add_page(report_page(&b));
    let mut ba = ReportBuilder::new();
    ba.add_page(report_page(&b));
    ba.add_page(report_page(&a));
    let (ab, ba) = (ab.build(), ba.build());

    for name in ["x", "y"] {
        let (s, t) = (ab.get(name).unwrap(), ba.get(name).unwrap());
        assert_eq!(s.count, t.count);
        assert_eq!(s.sum, t.sum);
        assert_eq!(s.bucket_counts, t.bucket_counts);
    }
    assert_eq!(ab.get("x").unwrap().count, 5);
    assert_eq!(ab.get("x").unwrap().sum, sum_of(17));
    assert_eq!(ab.get("x").unwrap().bucket_counts, vec![3]);
    assert_eq!(ab.len(), 2);
    assert_eq!(ab.render(), ba.render());
}

#[test]
fn empty_builder_gives_empty_report() {
    let report = ReportBuilder::new().build();
    assert_eq!(report.len(), 0);
    assert_eq!(report.render(), "");
}

#[test]
fn counter_renders_in_simplified_form() {
    let mut registry = Registry::new();
    let e = EventBuilder::new().name("test_counter").build(&mut registry).unwrap();
    e.observe_unit(&mut registry);
    e.observe_unit(&mut registry);
    e.observe_unit(&mut registry);
    let mut builder = ReportBuilder::new();
    builder.add_page(report_page(&registry));
    assert_eq!(builder.build().render(), "test_counter: 3 (counter)\n\n");
}

#[test]
fn histogram_renders_buckets_and_overflow() {
    let mut registry = Registry::new();
    let e = EventBuilder::new()
        .name("test")
        .buckets(vec![units(1), units(2), units(3)])
        .build(&mut registry)
        .unwrap();
    for m in 1..=5 {
        e.observe(&mut registry, units(m));
        e.observe_many(&mut registry, units(m), (m + 1) as usize);
    }
    let mut builder = ReportBuilder::new();
    builder.add_page(report_page(&registry));
    assert_eq!(
        builder.build().render(),
        "test: 25; sum 85; avg 3.4\n  bucket <= 1: 3\n  bucket <= 2: 4\n  bucket <= 3: 5\n  bucket +Inf: 13\n\n"
    );
}

#[test]
fn report_is_sorted_by_name_with_fractional_values() {
    let mut registry = Registry::new();
    let b = EventBuilder::new().name("b").build(&mut registry).unwrap();
    let a = EventBuilder::new()
        .name("a")
        .buckets(vec![UNIT / 2])
        .build(&mut registry)
        .unwrap();
    b.observe(&mut registry, -1_250_000);
    a.observe(&mut registry, 250_000);
    a.observe(&mut registry, 2_000_000);
    let mut builder = ReportBuilder::new();
    builder.add_page(report_page(&registry));
    assert_eq!(
        builder.build().render(),
        "a: 2; sum 2.25; avg 1.125\n  bucket <= 0.5: 1\n  bucket +Inf: 1\n\nb: 1; sum -1.25; avg -1.25\n\n"
    );
}

#[test]
fn observations_beyond_every_bound_count_only_as_overflow() {
    let mut registry = Registry::new();
    let e = EventBuilder::new()
        .name("o")
        .buckets(vec![units(1)])
        .build(&mut registry)
        .unwrap();
    e.observe_many(&mut registry, units(9), 4);
    assert!(registry.has_room_for(&e, 1));
    let page = report_page(&registry);
    let s = page.get("o").unwrap();
    assert_eq!(s.bucket_counts, vec![0]);
    assert_eq!(s.count, 4);
    assert_eq!(s.render(), "4; sum 36; avg 9\n  bucket <= 1: 0\n  bucket +Inf: 4\n");
}

#[test]
fn pages_with_different_buckets_for_one_name_are_refused() {
    let mut a = Registry::new();
    let mut b = Registry::new();
    let ea = EventBuilder::new().name("x").buckets(vec![units(1)]).build(&mut a).unwrap();
    let eb = EventBuilder::new()
        .name("x")
        .buckets(vec![units(1), units(2)])
        .build(&mut b)
        .unwrap();
    ea.observe_unit(&mut a);
    eb.observe_unit(&mut b);
    let mut builder = ReportBuilder::new();
    let first = report_page(&a);
    assert!(builder.can_add(&first));
    builder.add_page(first);
    assert!(!builder.can_add(&report_page(&b)));
    let mut other = Registry::new();
    let eo = EventBuilder::new().name("y").buckets(vec![units(5)]).build(&mut other).unwrap();
    eo.observe(&mut other, units(4));
    assert!(builder.can_add(&report_page(&other)));
}

#[test]
fn a_full_bag_has_no_room_for_more() {
    let mut registry = Registry::new();
    let e = EventBuilder::new().name("full").build(&mut registry).unwrap();
    e.observe_many(&mut registry, units(2), usize::MAX - 1);
    assert!(registry.has_room_for(&e, 1));
    assert!(!registry.has_room_for(&e, 2));
    e.observe_unit(&mut registry);
    let page = report_page(&registry);
    let s = page.get("full").unwrap();
    assert_eq!(s.count, usize::MAX);
    assert_eq!(s.sum, sum_of(2) * ((usize::MAX - 1) as i128) + sum_of(1));
}
