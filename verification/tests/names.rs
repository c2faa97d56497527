use athroisma::names::{read_proc_name, resolve_name, resolve_names, NameTexts};

fn name(cmdline: &str) -> Option<String> {
    read_proc_name(cmdline)
}

#[test]
fn command_names() {
    assert_eq!(name("/usr/bin/firefox\0-P\0default\0").as_deref(), Some("firefox"));
    assert_eq!(name("bash").as_deref(), Some("bash"));
    assert_eq!(name("  sshd: root  \0").as_deref(), Some("sshd: root"));
    assert_eq!(name("/a/b\0/c/d").as_deref(), Some("b"));
}

#[test]
fn wrapper_marks_are_stripped() {
    assert_eq!(name("/nix/store/x/bin/.firefox-wrapped\0").as_deref(), Some("firefox"));
    assert_eq!(name(".a-wrapper").as_deref(), Some("a"));
    assert_eq!(name("a-wrap").as_deref(), Some("a"));
    assert_eq!(name("a-wrapped-wrapped").as_deref(), Some("a"));
    assert_eq!(name("a-wrap-wrapped").as_deref(), Some("a"));
    assert_eq!(name("a-wrapped-wrap").as_deref(), Some("a-wrapped"));
    assert_eq!(name("..b").as_deref(), Some(".b"));
}

#[test]
fn no_command_name() {
    assert_eq!(name(""), None);
    assert_eq!(name("\0x"), None);
    assert_eq!(name("   \0x"), None);
    assert_eq!(name("/usr/bin/\0"), None);
    assert_eq!(name("."), None);
    assert_eq!(name("-wrapped"), None);
}

#[test]
fn names_that_are_shown() {
    assert_eq!(resolve_name(12, Some("/bin/top\0"), Some("other\n")), "top");
    assert_eq!(resolve_name(12, Some(""), Some(" kworker/0:1 \n")), "kworker/0:1");
    assert_eq!(resolve_name(12, None, Some("init\n")), "init");
    assert_eq!(resolve_name(12, None, Some("\n")), "12");
    assert_eq!(resolve_name(4294967295, None, None), "4294967295");
}

#[test]
fn names_of_a_list() {
    let found = [
        NameTexts { cmdline: Some("/bin/top\0".to_string()), comm: None },
        NameTexts { cmdline: Some(String::new()), comm: Some("init\n".to_string()) },
        NameTexts { cmdline: None, comm: None },
    ];
    assert_eq!(resolve_names(&[12, 1, 40], &found), ["top", "init", "40"]);
    assert_eq!(resolve_names(&[], &[]), Vec::<String>::new());
}
