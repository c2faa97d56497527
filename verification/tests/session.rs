use athroisma::request::Request;
use athroisma::session::Session;

fn args(v: &[&str]) -> Vec<String> {
    v.iter().map(|s| s.to_string()).collect()
}

#[test]
fn defaults_without_arguments() {
    let s = Session::start(&args(&[]));
    assert_eq!(s.interval_ms, 1000);
    assert_eq!(s.req, Request::default());
}

#[test]
fn arguments_set_interval_and_request() {
    let s = Session::start(&args(&["500", "cpu", "mem", "procs", "nozero", "limit", "20"]));
    assert_eq!(s.interval_ms, 500);
    assert_eq!(s.req, Request::parse("cpu mem procs nozero limit 20"));
}

#[test]
fn first_argument_is_the_interval_alone() {
    let s = Session::start(&args(&["cpu", "mem"]));
    assert_eq!(s.interval_ms, 1000);
    assert_eq!(s.req, Request::parse("mem"));
    assert_eq!(Session::start(&args(&["250"])).req, Request::default());
}

#[test]
fn an_empty_request_argument_is_none() {
    assert_eq!(Session::start(&args(&["250", ""])).req, Request::default());
    assert_eq!(Session::start(&args(&["250", " "])).req, Request::parse(""));
    assert_eq!(Session::start(&args(&["250", "", ""])).req, Request::parse(""));
}

#[test]
fn arguments_split_like_a_line() {
    let a = Session::start(&args(&["1", "cpu mem", "limit", "3"]));
    let b = Session::start(&args(&["1", "cpu", "mem limit 3"]));
    assert_eq!(a, b);
    assert_eq!(a.req.proc_limit, Some(3));
}

#[test]
fn interval_lines() {
    let mut s = Session::start(&args(&[]));
    let req = s.req;
    s.take_line("interval 500");
    assert_eq!(s.interval_ms, 500);
    s.take_line("interval2000");
    assert_eq!(s.interval_ms, 2000);
    s.take_line("interval soon");
    assert_eq!(s.interval_ms, 2000);
    s.take_line("interval");
    assert_eq!(s.interval_ms, 2000);
    assert_eq!(s.req, req);
}

#[test]
fn request_lines() {
    let mut s = Session::start(&args(&["700"]));
    s.take_line("cpu limit 2");
    assert_eq!(s.interval_ms, 700);
    assert_eq!(s.req, Request::parse("cpu limit 2"));
    s.take_line(" interval 3");
    assert_eq!(s.interval_ms, 700);
    assert_eq!(s.req, Request::parse(""));
}

#[test]
fn last_request_wins() {
    let mut s = Session::start(&args(&[]));
    s.take_lines(&args(&["cpu", "mem", "interval 40", "net", "interval 50"]));
    assert_eq!(s.req, Request::parse("net"));
    assert_eq!(s.interval_ms, 50);
    let before = s;
    s.take_lines(&args(&[]));
    assert_eq!(s, before);
}

#[test]
fn pause_is_what_is_left_of_the_interval() {
    let s = Session::start(&args(&["5"]));
    assert_eq!(s.pause_ns(2_000_000), 3_000_000);
    assert_eq!(s.pause_ns(5_000_000), 0);
    assert_eq!(s.pause_ns(9_000_000), 0);
}
