use rs_simple_logging::fields::StrMap;
use rs_simple_logging::{Item, Severity};

const ALL: [Severity; 6] = [
    Severity::Trace,
    Severity::Debug,
    Severity::Info,
    Severity::Warn,
    Severity::Error,
    Severity::Fatal,
];

#[test]
fn ranks_are_the_fixed_constants() {
    let ranks: Vec<u8> = ALL.iter().map(|s| s.rank()).collect();
    assert_eq!(ranks, vec![1, 5, 9, 13, 17, 21]);
}

#[test]
fn ranks_increase_with_severity() {
    for i in 0..ALL.len() {
        for j in (i + 1)..ALL.len() {
            assert!(ALL[i].rank() < ALL[j].rank());
        }
    }
}

#[test]
fn rank_round_trips() {
    for s in ALL {
        assert_eq!(Severity::from_rank(s.rank()), s);
        let n: u8 = s.into();
        assert_eq!(Severity::from(n), s);
    }
}

#[test]
fn ranks_fall_into_buckets() {
    assert_eq!(Severity::from(1u8), Severity::Trace);
    assert_eq!(Severity::from(4u8), Severity::Trace);
    assert_eq!(Severity::from(5u8), Severity::Debug);
    assert_eq!(Severity::from(8u8), Severity::Debug);
    assert_eq!(Severity::from(12u8), Severity::Info);
    assert_eq!(Severity::from(13u8), Severity::Warn);
    assert_eq!(Severity::from(20u8), Severity::Error);
    assert_eq!(Severity::from(21u8), Severity::Fatal);
    assert_eq!(Severity::from(24u8), Severity::Fatal);
}

#[test]
fn unknown_ranks_are_fatal() {
    assert_eq!(Severity::from(0u8), Severity::Fatal);
    assert_eq!(Severity::from(25u8), Severity::Fatal);
    assert_eq!(Severity::from(255u8), Severity::Fatal);
}

#[test]
fn severity_names() {
    let names: Vec<&str> = ALL.iter().map(|s| s.as_str()).collect();
    assert_eq!(names, vec!["trace", "debug", "info", "warn", "error", "fatal"]);
}

#[test]
fn new_item_defaults() {
    let mut attr = StrMap::new();
    attr.insert("k".to_string(), "v".to_string());
    let item = Item::new("hello", attr);
    assert_eq!(item.body, "hello");
    assert_eq!(item.severity, Severity::Trace);
    assert_eq!(item.attributes.len(), 1);
    assert_eq!(item.resource.len(), 0);
    assert!(item.trace_id.is_none());
    assert!(item.span_id.is_none());
}

#[test]
fn resource_keys_become_sorted_empty_placeholders() {
    let item = Item::new("m", StrMap::new()).with_resource_keys(&[
        "service.name",
        "host.ip",
        "host.name",
        "host.ip",
    ]);
    assert_eq!(item.body, "m");
    assert_eq!(item.resource.len(), 3);
    assert_eq!(item.resource.key_at(0), "host.ip");
    assert_eq!(item.resource.key_at(1), "host.name");
    assert_eq!(item.resource.key_at(2), "service.name");
    for i in 0..3 {
        assert_eq!(item.resource.value_at(i), "");
    }
}

#[test]
fn no_resource_keys() {
    let item = Item::new("m", StrMap::new()).with_resource_keys(&[]);
    assert_eq!(item.resource.len(), 0);
}
