use athroisma::request::Request;

const OFF: Request = Request {
    cpu: false,
    mem: false,
    gpu: false,
    net: false,
    disk: false,
    procs: false,
    filter_zero: false,
    proc_limit: None,
};

#[test]
fn everything_is_on_by_default() {
    let r = Request::default();
    assert!(r.cpu && r.mem && r.gpu && r.net && r.disk && r.procs);
    assert!(!r.filter_zero);
    assert_eq!(r.proc_limit, None);
}

#[test]
fn what_is_listed_is_on() {
    assert_eq!(Request::parse("cpu gpu"), Request { cpu: true, gpu: true, ..OFF });
    assert_eq!(
        Request::parse("cpu mem gpu net disk procs"),
        Request::default()
    );
    assert_eq!(
        Request::parse("cpu mem gpu net disk procs nozero limit 10"),
        Request { filter_zero: true, proc_limit: Some(10), ..Request::default() }
    );
}

#[test]
fn empty_line_silences_everything() {
    assert_eq!(Request::parse(""), OFF);
    assert_eq!(Request::parse(" \t\n"), OFF);
}

#[test]
fn unknown_words_are_passed_over() {
    assert_eq!(Request::parse("CPU cpus xmem net,"), OFF);
    assert_eq!(Request::parse("bogus disk"), Request { disk: true, ..OFF });
}

#[test]
fn order_and_repetition_do_not_matter() {
    assert_eq!(Request::parse("mem cpu mem"), Request::parse("cpu  mem"));
}

#[test]
fn limits() {
    assert_eq!(Request::parse("limit 5").proc_limit, Some(5));
    assert_eq!(Request::parse("limit +5").proc_limit, Some(5));
    assert_eq!(Request::parse("limit 0").proc_limit, None);
    assert_eq!(Request::parse("limit").proc_limit, None);
    assert_eq!(Request::parse("limit x 5").proc_limit, None);
    assert_eq!(Request::parse("limit 5 limit 7").proc_limit, Some(7));
    assert_eq!(Request::parse("limit 5 limit 0").proc_limit, None);
    assert_eq!(Request::parse("limit 5 limit x").proc_limit, Some(5));
    assert_eq!(Request::parse("limit limit 3").proc_limit, Some(3));
    assert_eq!(Request::parse("limit 99999999999999999999999").proc_limit, None);
    let r = Request::parse("limit cpu 4");
    assert!(r.cpu);
    assert_eq!(r.proc_limit, None);
}
