use rs_simple_logging::write::{
    level_checker_from_lower_bound, limited_writer_new, log_writer_new_from_fn,
    log_writer_new_std_default_from_fn, log_writer_new_std_default_from_lower_bound, stream_of,
    LogAvailable, LogWrite, RateLimiter, StdWrite, Stream,
};
use rs_simple_logging::Severity;

const ALL: [Severity; 6] = [
    Severity::Trace,
    Severity::Debug,
    Severity::Info,
    Severity::Warn,
    Severity::Error,
    Severity::Fatal,
];

#[test]
fn streams_by_severity() {
    assert_eq!(stream_of(Severity::Trace), Stream::Stdout);
    assert_eq!(stream_of(Severity::Debug), Stream::Stdout);
    assert_eq!(stream_of(Severity::Info), Stream::Stdout);
    assert_eq!(stream_of(Severity::Warn), Stream::Stderr);
    assert_eq!(stream_of(Severity::Error), Stream::Stderr);
    assert_eq!(stream_of(Severity::Fatal), Stream::Stderr);
}

#[test]
fn level_checker_is_an_inclusive_lower_bound() {
    let check = level_checker_from_lower_bound(Severity::Warn);
    assert!(!check(Severity::Trace));
    assert!(!check(Severity::Info));
    assert!(check(Severity::Warn));
    assert!(check(Severity::Fatal));
}

#[test]
fn console_writer_passes_every_line() {
    let mut w = StdWrite;
    let out = w.write("text", Severity::Error).unwrap();
    assert_eq!(out.text, "text");
    assert_eq!(out.level, Severity::Error);
}

#[test]
fn gated_writer_passes_exactly_from_the_bound() {
    let mut w = log_writer_new_std_default_from_lower_bound(Severity::Info);
    for s in ALL {
        let out = w.write("line", s);
        if s.rank() >= Severity::Info.rank() {
            let line = out.unwrap();
            assert_eq!(line.text, "line");
            assert_eq!(line.level, s);
        } else {
            assert!(out.is_none());
        }
    }
}

#[test]
fn fn_writer_asks_the_check() {
    let mut w = log_writer_new_from_fn(StdWrite, |s: Severity| s == Severity::Debug);
    assert!(w.write("a", Severity::Info).is_none());
    assert_eq!(w.write("b", Severity::Debug).unwrap().text, "b");
    let mut d = log_writer_new_std_default_from_fn(|_s: Severity| false);
    assert!(d.write("c", Severity::Fatal).is_none());
}

#[test]
fn rate_limiter_per_severity_cooldown() {
    let mut r = RateLimiter::new(10);
    assert!(r.available_at(Severity::Info, 100));
    assert!(!r.available_at(Severity::Info, 105));
    assert!(!r.available_at(Severity::Info, 109));
    assert!(r.available_at(Severity::Info, 110));
    assert!(r.available_at(Severity::Warn, 111));
    assert!(!r.available_at(Severity::Info, 115));
    assert!(r.available_at(Severity::Info, 120));
}

#[test]
fn rate_limiter_clock_going_back_counts_as_no_time() {
    let mut r = RateLimiter::new(10);
    assert!(r.available_at(Severity::Error, 100));
    assert!(!r.available_at(Severity::Error, 50));
    let mut z = RateLimiter::new(0);
    assert!(z.available_at(Severity::Error, 100));
    assert!(z.available_at(Severity::Error, 50));
}

#[test]
fn limited_writer_delegates_once_within_the_duration() {
    let mut w = limited_writer_new(StdWrite, RateLimiter::new(1000));
    assert_eq!(w.write_at("a", Severity::Info, 0).unwrap().text, "a");
    assert!(w.write_at("b", Severity::Info, 999).is_none());
    assert_eq!(w.write_at("c", Severity::Info, 1000).unwrap().text, "c");
    assert_eq!(w.write_at("d", Severity::Error, 1001).unwrap().text, "d");
}

#[test]
fn limited_writer_with_the_clock() {
    let mut w = limited_writer_new(StdWrite, RateLimiter::new(3_600_000_000_000));
    assert!(w.write("a", Severity::Warn).is_some());
    assert!(w.write("b", Severity::Warn).is_none());
    assert!(w.write("c", Severity::Trace).is_some());
}

#[test]
fn rate_limiter_with_the_clock() {
    let mut r = RateLimiter::new(0);
    assert!(r.available(Severity::Debug));
    assert!(r.available(Severity::Debug));
}
