use std::cell::RefCell;

use shell_core::builtins::{
    builtin_named, cd_check, cd_step, echo_text, exit_step, parse_status, pwd_text, run_builtin,
    same_text, type_found, type_step, Builtin, Effect, EntryKind,
};
use shell_core::dispatch::{plan_turn, route_external, Turn};
use shell_core::path::{join_path, resolve, search_candidates, split_search_path};
use shell_core::tokenize::{split_words, strip_line_end};

fn owned(words: &[&str]) -> Vec<String> {
    words.iter().map(|w| w.to_string()).collect()
}

fn stdout_of(e: Effect) -> String {
    match e {
        Effect::Stdout(s) => s,
        other => panic!("expected standard output, got {:?}", other),
    }
}

fn stderr_of(e: Effect) -> String {
    match e {
        Effect::Stderr(s) => s,
        other => panic!("expected standard error, got {:?}", other),
    }
}

#[test]
fn split_words_collapses_blanks() {
    assert_eq!(split_words("echo  a   b c"), owned(&["echo", "a", "b", "c"]));
    assert_eq!(split_words("\t ls\t-l  "), owned(&["ls", "-l"]));
    assert_eq!(split_words(""), Vec::<String>::new());
    assert_eq!(split_words(" \t "), Vec::<String>::new());
    assert_eq!(split_words("héllo wörld"), owned(&["héllo", "wörld"]));
}

#[test]
fn strip_line_end_drops_terminator() {
    assert_eq!(strip_line_end("echo hi\n"), "echo hi");
    assert_eq!(strip_line_end("echo hi\r\n"), "echo hi");
    assert_eq!(strip_line_end("echo hi"), "echo hi");
    assert_eq!(strip_line_end("\n"), "");
}

#[test]
fn empty_line_runs_nothing() {
    assert!(matches!(plan_turn(""), Turn::Empty));
    assert!(matches!(plan_turn("   \t"), Turn::Empty));
}

#[test]
fn builtin_words_route_to_builtins() {
    for (word, b) in [
        ("exit", Builtin::Exit),
        ("echo", Builtin::Echo),
        ("type", Builtin::Type),
        ("pwd", Builtin::Pwd),
        ("cd", Builtin::Cd),
    ] {
        assert_eq!(builtin_named(word), Some(b));
        assert_eq!(b.word(), word);
        match plan_turn(word) {
            Turn::Builtin(got, args) => {
                assert_eq!(got, b);
                assert!(args.is_empty());
            }
            other => panic!("expected a builtin, got {:?}", other),
        }
    }
    assert_eq!(builtin_named("Echo"), None);
    assert_eq!(builtin_named("ech"), None);
    assert_eq!(builtin_named("echoo"), None);
}

#[test]
fn other_words_route_to_search() {
    match plan_turn("nosuchcmd a b") {
        Turn::External(c, args) => {
            assert_eq!(c, "nosuchcmd");
            assert_eq!(args, owned(&["a", "b"]));
        }
        other => panic!("expected an external command, got {:?}", other),
    }
}

#[test]
fn echo_hello_world() {
    match plan_turn("echo hello world") {
        Turn::Builtin(b, args) => {
            assert_eq!(b, Builtin::Echo);
            let out = stdout_of(run_builtin(b, &args, None));
            assert_eq!(out, "hello world\n");
        }
        other => panic!("expected a builtin, got {:?}", other),
    }
}

#[test]
fn echo_spacing_does_not_matter() {
    let spaced = match plan_turn("echo  a   b c") {
        Turn::Builtin(_, args) => echo_text(&args),
        other => panic!("expected a builtin, got {:?}", other),
    };
    let plain = match plan_turn("echo a b c") {
        Turn::Builtin(_, args) => echo_text(&args),
        other => panic!("expected a builtin, got {:?}", other),
    };
    assert_eq!(spaced, plain);
    assert_eq!(plain, "a b c\n");
}

#[test]
fn echo_without_arguments_is_a_newline() {
    assert_eq!(echo_text(&[]), "\n");
}

#[test]
fn exit_with_status_seven() {
    match plan_turn("exit 7") {
        Turn::Builtin(b, args) => assert!(matches!(run_builtin(b, &args, None), Effect::Exit(7))),
        other => panic!("expected a builtin, got {:?}", other),
    }
}

#[test]
fn exit_without_argument_is_zero() {
    assert!(matches!(exit_step(&[]), Effect::Exit(0)));
}

#[test]
fn exit_with_bad_status_is_reported() {
    assert_eq!(stderr_of(exit_step(&owned(&["abc"]))), "exit: numeric argument required\n");
    assert_eq!(stderr_of(exit_step(&owned(&["2147483648"]))), "exit: numeric argument required\n");
    assert_eq!(stderr_of(exit_step(&owned(&["-"]))), "exit: numeric argument required\n");
}

#[test]
fn parse_status_reads_signed_integers() {
    assert_eq!(parse_status("7"), Some(7));
    assert_eq!(parse_status("+5"), Some(5));
    assert_eq!(parse_status("-1"), Some(-1));
    assert_eq!(parse_status("007"), Some(7));
    assert_eq!(parse_status("2147483647"), Some(2147483647));
    assert_eq!(parse_status("-2147483648"), Some(-2147483648));
    assert_eq!(parse_status("2147483648"), None);
    assert_eq!(parse_status("99999999999999999999"), None);
    assert_eq!(parse_status(""), None);
    assert_eq!(parse_status("+"), None);
    assert_eq!(parse_status("1x"), None);
    assert_eq!(parse_status(" 1"), None);
}

#[test]
fn type_echo_is_builtin() {
    assert_eq!(stdout_of(type_step(&owned(&["echo"]))), "echo is a shell builtin\n");
    assert_eq!(stdout_of(type_step(&owned(&["cd"]))), "cd is a shell builtin\n");
}

#[test]
fn type_prefers_builtin_over_path() {
    // `echo` may exist on the path as well; the builtin wins without a search.
    assert_eq!(stdout_of(type_step(&owned(&["echo"]))), "echo is a shell builtin\n");
    match plan_turn("echo hi") {
        Turn::Builtin(b, _) => assert_eq!(b, Builtin::Echo),
        other => panic!("expected a builtin, got {:?}", other),
    }
}

#[test]
fn type_missing_argument() {
    assert_eq!(stderr_of(type_step(&[])), "type: missing argument\n");
}

#[test]
fn type_ls_found_on_path() {
    let name = match type_step(&owned(&["ls"])) {
        Effect::LookUp(n) => n,
        other => panic!("expected a lookup, got {:?}", other),
    };
    let found = resolve(Some("/usr/bin"), &name, |p: &str| p == "/usr/bin/ls");
    assert_eq!(found.as_deref(), Some("/usr/bin/ls"));
    assert_eq!(type_found(&name, found.as_deref()), "ls is /usr/bin/ls\n");
}

#[test]
fn type_not_found() {
    assert_eq!(type_found("nope", None), "nope: not found\n");
}

#[test]
fn unknown_command_is_reported() {
    let found = resolve(Some("/usr/bin:/bin"), "nosuchcmd", |_p: &str| false);
    assert_eq!(found, None);
    assert_eq!(stdout_of(route_external("nosuchcmd", found)), "nosuchcmd: command not found\n");
}

#[test]
fn found_command_is_launched() {
    match route_external("ls", Some("/bin/ls".to_string())) {
        Effect::Launch(p) => assert_eq!(p, "/bin/ls"),
        other => panic!("expected a launch, got {:?}", other),
    }
}

#[test]
fn unset_path_finds_nothing() {
    let probes = RefCell::new(0usize);
    let found = resolve(None, "ls", |_p: &str| {
        *probes.borrow_mut() += 1;
        true
    });
    assert_eq!(found, None);
    assert_eq!(*probes.borrow(), 0);
}

#[test]
fn resolve_takes_first_match_in_order() {
    let asked = RefCell::new(Vec::new());
    let found = resolve(Some("/a:/b:/c"), "tool", |p: &str| {
        asked.borrow_mut().push(p.to_string());
        p == "/b/tool" || p == "/c/tool"
    });
    assert_eq!(found.as_deref(), Some("/b/tool"));
    assert_eq!(*asked.borrow(), owned(&["/a/tool", "/b/tool"]));
}

#[test]
fn search_path_splitting() {
    assert_eq!(split_search_path("/usr/bin:/bin"), owned(&["/usr/bin", "/bin"]));
    assert_eq!(split_search_path("a::b"), owned(&["a", "", "b"]));
    assert_eq!(split_search_path(""), owned(&[""]));
    assert_eq!(split_search_path(":"), owned(&["", ""]));
}

#[test]
fn candidates_join_each_directory() {
    assert_eq!(
        search_candidates(Some("/usr/bin:/opt/x/:"), "ls"),
        owned(&["/usr/bin/ls", "/opt/x/ls", "ls"])
    );
    assert_eq!(search_candidates(None, "ls"), Vec::<String>::new());
}

#[test]
fn join_path_rules() {
    assert_eq!(join_path("/usr/bin", "ls"), "/usr/bin/ls");
    assert_eq!(join_path("/usr/bin/", "ls"), "/usr/bin/ls");
    assert_eq!(join_path("", "ls"), "ls");
    assert_eq!(join_path("/usr/bin", "/bin/ls"), "/bin/ls");
    assert_eq!(join_path("/home/u", ""), "/home/u/");
}

#[test]
fn same_text_compares_characters() {
    assert!(same_text("abc", "abc"));
    assert!(!same_text("abc", "abd"));
    assert!(!same_text("abc", "ab"));
    assert!(same_text("", ""));
}

#[test]
fn cd_home_then_pwd() {
    let target = match cd_step(&owned(&["~"]), Some("/home/u")) {
        Effect::Inspect(t) => t,
        other => panic!("expected an inspection, got {:?}", other),
    };
    assert_eq!(target, "/home/u");
    match cd_check(&target, EntryKind::Directory) {
        Effect::ChangeDir(d) => assert_eq!(pwd_text(&d), "/home/u\n"),
        other => panic!("expected a change of directory, got {:?}", other),
    }
}

#[test]
fn cd_without_argument_goes_home() {
    match cd_step(&[], Some("/home/u")) {
        Effect::Inspect(t) => assert_eq!(t, "/home/u"),
        other => panic!("expected an inspection, got {:?}", other),
    }
}

#[test]
fn cd_without_home_is_reported() {
    assert_eq!(stderr_of(cd_step(&[], None)), "cd: HOME not set\n");
    assert_eq!(stderr_of(cd_step(&owned(&["~"]), None)), "cd: HOME not set\n");
    assert_eq!(stderr_of(cd_step(&owned(&["~/src"]), None)), "cd: HOME not set\n");
}

#[test]
fn cd_expands_home_prefix() {
    match cd_step(&owned(&["~/src"]), Some("/home/u")) {
        Effect::Inspect(t) => assert_eq!(t, "/home/u/src"),
        other => panic!("expected an inspection, got {:?}", other),
    }
    match cd_step(&owned(&["/tmp"]), Some("/home/u")) {
        Effect::Inspect(t) => assert_eq!(t, "/tmp"),
        other => panic!("expected an inspection, got {:?}", other),
    }
    match cd_step(&owned(&["~user"]), Some("/home/u")) {
        Effect::Inspect(t) => assert_eq!(t, "~user"),
        other => panic!("expected an inspection, got {:?}", other),
    }
}

#[test]
fn cd_reports_bad_targets() {
    assert_eq!(
        stderr_of(cd_check("/nope", EntryKind::Missing)),
        "cd: /nope: No such file or directory\n"
    );
    assert_eq!(stderr_of(cd_check("/etc/passwd", EntryKind::NotDirectory)), "cd: /etc/passwd: Not a directory\n");
}

#[test]
fn pwd_is_repeatable() {
    assert!(matches!(run_builtin(Builtin::Pwd, &[], None), Effect::ShowCwd));
    assert_eq!(pwd_text("/tmp"), pwd_text("/tmp"));
    assert_eq!(pwd_text("/tmp"), "/tmp\n");
}
