use mdsh::cli::{FileArg, Opt, Parent};
use mdsh::parser::{env_var_line, ParseErrorKind};
use mdsh::{Cleaner, Span};

fn chars(s: &str) -> usize {
    s.chars().count()
}

fn text_of(doc: &str, sp: Span) -> String {
    doc.chars().skip(sp.start).take(sp.end - sp.start).collect()
}

#[test]
fn env_line_bare_value() {
    let s = "FOO=bar\n";
    let (kv, next) = env_var_line(s, chars(s), 0).expect("parse");
    let (k, v) = kv.expect("assignment");
    assert_eq!(text_of(s, k), "FOO");
    assert_eq!(text_of(s, v), "bar");
    assert_eq!(next, 7);
}

#[test]
fn env_line_double_quoted_keeps_escapes() {
    let s = "K=\"a\\\"b\"\n";
    let (kv, _) = env_var_line(s, chars(s), 0).expect("parse");
    let (_, v) = kv.expect("assignment");
    assert_eq!(text_of(s, v), "a\\\"b");
}

#[test]
fn env_line_single_quoted_allows_spaces() {
    let s = "K='a b'\n";
    let (kv, _) = env_var_line(s, chars(s), 0).expect("parse");
    let (_, v) = kv.expect("assignment");
    assert_eq!(text_of(s, v), "a b");
}

#[test]
fn env_line_comment_and_blank_are_skipped() {
    let s = "# note\n";
    let (kv, next) = env_var_line(s, chars(s), 0).expect("parse");
    assert!(kv.is_none());
    assert_eq!(next, 7);
    let s2 = "  \nX=1\n";
    let (kv2, next2) = env_var_line(s2, chars(s2), 0).expect("parse");
    assert!(kv2.is_none());
    assert_eq!(next2, 3);
}

#[test]
fn env_line_without_equals_is_malformed() {
    let s = "JUSTAWORD\n";
    let e = env_var_line(s, chars(s), 0).expect_err("must fail");
    assert_eq!(e.kind, ParseErrorKind::MalformedEnvLine);
}

#[test]
fn env_line_unclosed_quote_is_malformed() {
    let s = "K='open\n";
    let e = env_var_line(s, chars(s), 0).expect_err("must fail");
    assert_eq!(e.kind, ParseErrorKind::MalformedEnvLine);
}

#[test]
fn env_line_garbage_after_quote_is_malformed() {
    let s = "K='v'x\n";
    let e = env_var_line(s, chars(s), 0).expect_err("must fail");
    assert_eq!(e.kind, ParseErrorKind::MalformedEnvLine);
}

#[test]
fn file_arg_from_str_unsafe_never_parses_dash() {
    match FileArg::from_str_unsafe("-") {
        FileArg::File(p) => assert_eq!(p, "-"),
        FileArg::StdHandle => panic!("dash must stay a file name here"),
    }
}

#[test]
fn parent_round_trip() {
    let p = Parent::from_parent_path_buf(String::from("/srv/docs"));
    assert_eq!(p.as_path_buf().as_str(), "/srv/docs");
}

#[test]
fn opt_carries_run_options() {
    let opt = Opt {
        inputs: vec![FileArg::from_str_unsafe("README.md")],
        output: None,
        work_dir: Some(String::from(".")),
        frozen: false,
        clean: true,
    };
    assert!(opt.clean);
    assert_eq!(opt.inputs.len(), 1);
}

#[test]
fn cleaner_new_keeps_its_buffer() {
    let c = Cleaner::new(String::from("prefix:"));
    assert_eq!(c.out, "prefix:");
    let mut c2 = Cleaner::new(String::from("prefix:"));
    c2.process("text\n").expect("clean");
    assert_eq!(c2.out, "prefix:text\n");
}
