use rs_simple_logging::copy::{
    log_debug, log_error, log_fatal, log_info, log_trace, log_warn, logger_new,
    logger_new_from_fn, logger_new_from_proxy, set_boxed, Logger, Registry,
};
use rs_simple_logging::fields::StrMap;
use rs_simple_logging::proxy::copy::{proxy_new_from_resource_proxy, resource_proxy_new_from_map};
use rs_simple_logging::serialize::ltsv_serializer;
use rs_simple_logging::write::{
    limited_writer_new, log_writer_new_std_default_from_lower_bound, RateLimiter, stream_of, Line, StdWrite, Stream,
};
use rs_simple_logging::{Item, Severity};

fn service_logger() -> impl Logger {
    let mut m = StrMap::new();
    m.insert("service.name".to_string(), "svc".to_string());
    let proxy = proxy_new_from_resource_proxy(resource_proxy_new_from_map(m));
    let direct = logger_new(
        ltsv_serializer(),
        log_writer_new_std_default_from_lower_bound(Severity::Info),
    );
    logger_new_from_proxy(direct, proxy)
}

fn ready_item() -> Item {
    Item::new("ready", StrMap::new()).with_resource_keys(&["service.name"])
}

#[test]
fn end_to_end_info_line_on_stdout() {
    let mut registry = Registry::new();
    set_boxed(&mut registry, Box::new(service_logger()));
    let line = log_info(&mut registry, ready_item()).unwrap();
    assert_eq!(line.text, "level:info\tservice.name:svc\tmsg:ready");
    assert_eq!(stream_of(line.level), Stream::Stdout);
}

#[test]
fn end_to_end_debug_is_filtered() {
    let mut registry = Registry::new();
    set_boxed(&mut registry, Box::new(service_logger()));
    assert!(log_debug(&mut registry, ready_item()).is_none());
    assert!(log_trace(&mut registry, ready_item()).is_none());
}

#[test]
fn dispatch_stamps_the_severity() {
    let mut registry = Registry::new();
    rs_simple_logging::copy::set(&mut registry, logger_new(ltsv_serializer(), StdWrite));
    let w = log_warn(&mut registry, Item::new("w", StrMap::new())).unwrap();
    assert_eq!(w.text, "level:warn\tmsg:w");
    assert_eq!(stream_of(w.level), Stream::Stderr);
    let e = log_error(&mut registry, Item::new("e", StrMap::new())).unwrap();
    assert_eq!(e.text, "level:error\tmsg:e");
    let f = log_fatal(&mut registry, Item::new("f", StrMap::new())).unwrap();
    assert_eq!(f.text, "level:fatal\tmsg:f");
    assert_eq!(f.level, Severity::Fatal);
    let t = log_trace(&mut registry, Item::new("t", StrMap::new())).unwrap();
    assert_eq!(t.text, "level:trace\tmsg:t");
}

#[test]
fn no_logger_installed_is_a_no_op() {
    let mut registry: Registry<rs_simple_logging::copy::FnLogger<fn(Item) -> Option<Line>>> =
        Registry::new();
    assert!(log_trace(&mut registry, Item::new("a", StrMap::new())).is_none());
    assert!(log_debug(&mut registry, Item::new("a", StrMap::new())).is_none());
    assert!(log_info(&mut registry, Item::new("a", StrMap::new())).is_none());
    assert!(log_warn(&mut registry, Item::new("a", StrMap::new())).is_none());
    assert!(log_error(&mut registry, Item::new("a", StrMap::new())).is_none());
    assert!(log_fatal(&mut registry, Item::new("a", StrMap::new())).is_none());
    assert!(registry.logger.is_none());
}

fn tag_one(i: Item) -> Option<Line> {
    Some(Line { text: format!("one:{}", i.body), level: i.severity })
}

fn tag_two(i: Item) -> Option<Line> {
    Some(Line { text: format!("two:{}", i.body), level: i.severity })
}

#[test]
fn installing_replaces_the_logger() {
    let mut registry = Registry::new();
    rs_simple_logging::copy::set(
        &mut registry,
        logger_new_from_fn(tag_one as fn(Item) -> Option<Line>),
    );
    rs_simple_logging::copy::set(&mut registry, logger_new_from_fn(tag_two as fn(Item) -> Option<Line>));
    let line = log_info(&mut registry, Item::new("x", StrMap::new())).unwrap();
    assert_eq!(line.text, "two:x");
    assert_eq!(line.level, Severity::Info);
}

#[test]
fn fn_logger_calls_the_function() {
    let mut l = logger_new_from_fn(|i: Item| {
        if i.body.is_empty() {
            None
        } else {
            Some(Line { text: i.body, level: i.severity })
        }
    });
    assert!(l.log(Item::new("", StrMap::new())).is_none());
    assert_eq!(l.log(Item::new("z", StrMap::new())).unwrap().text, "z");
}

fn stamp_check(i: Item) -> Option<Line> {
    if i.timestamp > std::time::UNIX_EPOCH {
        Some(Line { text: i.body, level: i.severity })
    } else {
        None
    }
}

#[test]
fn dispatch_overwrites_the_timestamp() {
    let mut registry = Registry::new();
    rs_simple_logging::copy::set(&mut registry, logger_new_from_fn(stamp_check as fn(Item) -> Option<Line>));
    let mut item = Item::new("old", StrMap::new());
    item.timestamp = std::time::UNIX_EPOCH;
    item.severity = Severity::Fatal;
    let line = log_debug(&mut registry, item).unwrap();
    assert_eq!(line.text, "old");
    assert_eq!(line.level, Severity::Debug);
}

#[test]
fn rate_limited_logger_drops_repeats() {
    let writer = limited_writer_new(
        log_writer_new_std_default_from_lower_bound(Severity::Info),
        RateLimiter::new(3_600_000_000_000),
    );
    let mut registry = Registry::new();
    set_boxed(&mut registry, Box::new(logger_new(ltsv_serializer(), writer)));
    assert!(log_debug(&mut registry, Item::new("a", StrMap::new())).is_none());
    assert_eq!(
        log_error(&mut registry, Item::new("b", StrMap::new())).unwrap().text,
        "level:error\tmsg:b"
    );
    assert!(log_error(&mut registry, Item::new("c", StrMap::new())).is_none());
    assert!(log_info(&mut registry, Item::new("d", StrMap::new())).is_some());
}
