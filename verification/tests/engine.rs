use mdsh::executor::{DataReply, DataRequest, EngineError, TheProcessor};
use mdsh::Cleaner;

/// Drive a whole run, answering every run request with the matching
/// entry of `stdouts` and every read request with `files`.
fn run_with(
    doc: &str,
    host: Vec<(String, String)>,
    stdouts: &[&str],
    files: &[&str],
) -> (String, Vec<String>) {
    let mut p = TheProcessor::new(String::from("."), host);
    p.start(String::from(doc)).expect("parse");
    let mut runs = 0;
    let mut reads = 0;
    loop {
        match p.next_request().expect("drive") {
            None => break,
            Some(DataRequest::RunCommand { .. }) => {
                let reply = DataReply::CommandDone {
                    stdout: String::from(stdouts[runs]),
                };
                runs += 1;
                p.supply(reply).expect("supply");
            }
            Some(DataRequest::ReadFiles { paths }) => {
                let mut contents = Vec::new();
                for _ in &paths {
                    contents.push(String::from(files[reads]));
                    reads += 1;
                }
                p.supply(DataReply::FilesRead { contents }).expect("supply");
            }
        }
    }
    (p.out, p.failures)
}

fn clean_of(doc: &str) -> String {
    let mut c = Cleaner::new(String::new());
    c.process(doc).expect("clean");
    c.out
}

#[test]
fn execute_inline_appends_sentinel_block() {
    let (out, failures) = run_with("`$ echo hi`\n", Vec::new(), &["hi\n"], &[]);
    assert_eq!(
        out,
        "`$ echo hi`\n\n<!-- BEGIN mdsh -->\nhi\n<!-- END mdsh -->\n"
    );
    assert!(failures.is_empty());
}

#[test]
fn execute_request_carries_oneliner() {
    let mut p = TheProcessor::new(String::from("/tmp"), Vec::new());
    p.start(String::from("`$ echo hi`\n")).expect("parse");
    match p.next_request().expect("drive") {
        Some(DataRequest::RunCommand {
            script,
            stdin,
            env,
            workdir,
        }) => {
            assert_eq!(script.as_deref(), Some("set -euo pipefail && echo hi"));
            assert_eq!(stdin, None);
            assert!(env.is_empty());
            assert_eq!(workdir, "/tmp");
        }
        other => panic!("unexpected request: {other:?}"),
    }
}

#[test]
fn raw_comment_appends_block_without_code_fence() {
    let (out, _) = run_with("<!-- > echo '*bold*' -->\n", Vec::new(), &[], &[]);
    assert_eq!(
        out,
        "<!-- > echo '*bold*' -->\n\n<!-- BEGIN mdsh -->\necho '*bold*'\n<!-- END mdsh -->\n"
    );
    assert!(out.contains("*bold*"));
    assert!(!out.contains("```"));
}

#[test]
fn environment_variable_reaches_later_command() {
    let doc = "`! NAME=world`\n\n`$ echo hello $NAME`\n";
    let mut p = TheProcessor::new(String::from("."), Vec::new());
    p.start(String::from(doc)).expect("parse");
    match p.next_request().expect("drive") {
        Some(DataRequest::RunCommand { script, env, .. }) => {
            assert_eq!(
                script.as_deref(),
                Some("set -euo pipefail && echo hello $NAME")
            );
            assert_eq!(env, vec![(String::from("NAME"), String::from("world"))]);
        }
        other => panic!("unexpected request: {other:?}"),
    }
    p.supply(DataReply::CommandDone {
        stdout: String::from("hello world\n"),
    })
    .expect("supply");
    assert_eq!(p.next_request().expect("drive").is_none(), true);
    assert!(p.out.contains("hello world\n"));
}

#[test]
fn clean_removes_generated_block() {
    let (out, _) = run_with("`$ echo hi`\n", Vec::new(), &["hi\n"], &[]);
    let cleaned = clean_of(&out);
    assert_eq!(cleaned, "`$ echo hi`\n");
    assert!(!cleaned.contains("BEGIN"));
    assert!(!cleaned.contains("hi\n<"));
}

#[test]
fn unterminated_fence_is_a_parse_error() {
    let mut p = TheProcessor::new(String::from("."), Vec::new());
    let r = p.start(String::from("```sh $\nhello\n"));
    assert!(r.is_err());
    assert_eq!(p.out, "");
    let mut c = Cleaner::new(String::new());
    assert!(c.process("```sh $\nhello\n").is_err());
    assert_eq!(c.out, "");
}

#[test]
fn process_is_idempotent_at_end_of_input() {
    let doc = "`$ echo hi`\n";
    let (out1, _) = run_with(doc, Vec::new(), &["hi\n"], &[]);
    let (out2, _) = run_with(&out1, Vec::new(), &["hi\n"], &[]);
    assert_eq!(out1, out2);
}

#[test]
fn process_is_idempotent_around_blank_lines() {
    let doc = "`$ echo hi`\n\n\nnext\n";
    let (out1, _) = run_with(doc, Vec::new(), &["hi\n"], &[]);
    let (out2, _) = run_with(&out1, Vec::new(), &["hi\n"], &[]);
    assert_eq!(out1, out2);
    assert_eq!(clean_of(&out1), doc);
}

#[test]
fn process_is_idempotent_on_its_output() {
    let doc = "# Title\n\n`$ echo hi`\n\nmore text\n";
    let (out1, _) = run_with(doc, Vec::new(), &["hi\n"], &[]);
    let (out2, _) = run_with(&out1, Vec::new(), &["hi\n"], &[]);
    assert_eq!(out1, out2);
}

#[test]
fn clean_of_processed_equals_clean_of_input() {
    let doc = "# Title\n\n`$ echo hi`\n\nmore text\n";
    let (out1, _) = run_with(doc, Vec::new(), &["hi\n"], &[]);
    assert_eq!(clean_of(&out1), clean_of(doc));
    assert_eq!(clean_of(doc), doc);
}

#[test]
fn code_block_output_is_fenced_and_tagged() {
    let (out, _) = run_with("`> yaml $ emit`\n", Vec::new(), &["foo: true\n"], &[]);
    assert_eq!(
        out,
        "`> yaml $ emit`\n\n<!-- BEGIN mdsh -->\n```yaml\nfoo: true\n```\n<!-- END mdsh -->\n"
    );
}

#[test]
fn read_files_concatenate_in_order() {
    let doc = "<!-- < \na.txt\nb.txt\n-->\n";
    let mut p = TheProcessor::new(String::from("."), Vec::new());
    p.start(String::from(doc)).expect("parse");
    match p.next_request().expect("drive") {
        Some(DataRequest::ReadFiles { paths }) => {
            assert_eq!(paths, vec![String::from("a.txt"), String::from("b.txt")]);
        }
        other => panic!("unexpected request: {other:?}"),
    }
    p.supply(DataReply::FilesRead {
        contents: vec![String::from("X\n"), String::from("Y\n")],
    })
    .expect("supply");
    assert!(p.next_request().expect("drive").is_none());
    assert!(p.out.contains("<!-- BEGIN mdsh -->\nX\nY\n<!-- END mdsh -->\n"));
}

#[test]
fn missing_file_is_fatal() {
    let doc = "[< see](data.csv)\n";
    let mut p = TheProcessor::new(String::from("."), Vec::new());
    p.start(String::from(doc)).expect("parse");
    match p.next_request().expect("drive") {
        Some(DataRequest::ReadFiles { paths }) => {
            assert_eq!(paths, vec![String::from("data.csv")]);
        }
        other => panic!("unexpected request: {other:?}"),
    }
    let r = p.supply(DataReply::FileMissing {
        path: String::from("data.csv"),
    });
    assert!(matches!(r, Err(EngineError::MissingFile { .. })));
}

#[test]
fn command_failure_is_aggregated_and_processing_continues() {
    let doc = "`$ false`\n\n`$ echo ok`\n";
    let mut p = TheProcessor::new(String::from("."), Vec::new());
    p.start(String::from(doc)).expect("parse");
    assert!(matches!(
        p.next_request().expect("drive"),
        Some(DataRequest::RunCommand { .. })
    ));
    p.supply(DataReply::CommandFailed {
        status: String::from("exit status: 1"),
    })
    .expect("supply");
    assert!(matches!(
        p.next_request().expect("drive"),
        Some(DataRequest::RunCommand { .. })
    ));
    p.supply(DataReply::CommandDone {
        stdout: String::from("ok\n"),
    })
    .expect("supply");
    assert!(p.next_request().expect("drive").is_none());
    assert_eq!(p.failures, vec![String::from("exit status: 1")]);
    assert_eq!(
        p.out,
        "`$ false`\n\n`$ echo ok`\n\n<!-- BEGIN mdsh -->\nok\n<!-- END mdsh -->\n"
    );
}

#[test]
fn environment_expansion_uses_earlier_variables() {
    let doc = "`! A=x`\n`! B=$A`\n`$ show`\n";
    let mut p = TheProcessor::new(String::from("."), Vec::new());
    p.start(String::from(doc)).expect("parse");
    match p.next_request().expect("drive") {
        Some(DataRequest::RunCommand { env, .. }) => {
            assert_eq!(
                env,
                vec![
                    (String::from("A"), String::from("x")),
                    (String::from("B"), String::from("x")),
                ]
            );
        }
        other => panic!("unexpected request: {other:?}"),
    }
}

#[test]
fn environment_expansion_falls_back_to_host() {
    let doc = "`! D=$H`\n`$ show`\n";
    let host = vec![(String::from("H"), String::from("hv"))];
    let mut p = TheProcessor::new(String::from("."), host);
    p.start(String::from(doc)).expect("parse");
    match p.next_request().expect("drive") {
        Some(DataRequest::RunCommand { env, .. }) => {
            assert_eq!(env, vec![(String::from("D"), String::from("hv"))]);
        }
        other => panic!("unexpected request: {other:?}"),
    }
}

#[test]
fn unresolved_variable_is_fatal() {
    let doc = "`! C=$NO_SUCH_VARIABLE_ANYWHERE`\n";
    let mut p = TheProcessor::new(String::from("."), Vec::new());
    p.start(String::from(doc)).expect("parse");
    let r = p.next_request();
    assert!(matches!(r, Err(EngineError::Unresolved { .. })));
}

#[test]
fn environment_from_command_output() {
    let doc = "`! $ emit-env`\n`$ show`\n";
    let mut p = TheProcessor::new(String::from("."), Vec::new());
    p.start(String::from(doc)).expect("parse");
    assert!(matches!(
        p.next_request().expect("drive"),
        Some(DataRequest::RunCommand { .. })
    ));
    p.supply(DataReply::CommandDone {
        stdout: String::from("# comment line\nfoo=bar\n\nbaz='q v'\n"),
    })
    .expect("supply");
    match p.next_request().expect("drive") {
        Some(DataRequest::RunCommand { env, .. }) => {
            assert_eq!(
                env,
                vec![
                    (String::from("foo"), String::from("bar")),
                    (String::from("baz"), String::from("q v")),
                ]
            );
        }
        other => panic!("unexpected request: {other:?}"),
    }
    // Sourcing the variables emits nothing visible.
    assert_eq!(p.out, "`! $ emit-env`\n`$ show`\n");
}

#[test]
fn malformed_env_line_is_fatal() {
    let doc = "`! =broken`\n";
    let mut p = TheProcessor::new(String::from("."), Vec::new());
    p.start(String::from(doc)).expect("parse");
    assert!(matches!(
        p.next_request(),
        Err(EngineError::EnvLine(_))
    ));
}

#[test]
fn stdin_is_piped_from_the_data_block() {
    let doc = "```md $ sed 's/.*/Hi, \\0/'\nI am *markdown*\n```\n";
    let mut p = TheProcessor::new(String::from("."), Vec::new());
    p.start(String::from(doc)).expect("parse");
    match p.next_request().expect("drive") {
        Some(DataRequest::RunCommand { script, stdin, .. }) => {
            assert_eq!(
                script.as_deref(),
                Some("set -euo pipefail && sed 's/.*/Hi, \\0/'")
            );
            assert_eq!(stdin.as_deref(), Some("I am *markdown*\n"));
        }
        other => panic!("unexpected request: {other:?}"),
    }
    p.supply(DataReply::CommandDone {
        stdout: String::from("Hi, I am *markdown*\n"),
    })
    .expect("supply");
    assert!(p.next_request().expect("drive").is_none());
    assert_eq!(
        p.out,
        "```md $ sed 's/.*/Hi, \\0/'\nI am *markdown*\n```\n\n<!-- BEGIN mdsh -->\nHi, I am *markdown*\n<!-- END mdsh -->\n"
    );
}

#[test]
fn script_only_code_block_runs_from_stdin() {
    let doc = "```sh $\necho one\necho two\n```\n";
    let mut p = TheProcessor::new(String::from("."), Vec::new());
    p.start(String::from(doc)).expect("parse");
    match p.next_request().expect("drive") {
        Some(DataRequest::RunCommand { script, stdin, .. }) => {
            assert_eq!(script, None);
            assert_eq!(stdin.as_deref(), Some("echo one\necho two\n"));
        }
        other => panic!("unexpected request: {other:?}"),
    }
}

#[test]
fn supply_out_of_turn_is_rejected() {
    let mut p = TheProcessor::new(String::from("."), Vec::new());
    p.start(String::from("plain text\n")).expect("parse");
    let r = p.supply(DataReply::CommandDone {
        stdout: String::new(),
    });
    assert!(matches!(r, Err(EngineError::OutOfTurn)));
}

#[test]
fn inline_read_requests_the_named_file() {
    let doc = "`< notes.md`\n";
    let mut p = TheProcessor::new(String::from("."), Vec::new());
    p.start(String::from(doc)).expect("parse");
    match p.next_request().expect("drive") {
        Some(DataRequest::ReadFiles { paths }) => {
            assert_eq!(paths, vec![String::from("notes.md")]);
        }
        other => panic!("unexpected request: {other:?}"),
    }
    p.supply(DataReply::FilesRead {
        contents: vec![String::from("included\n")],
    })
    .expect("supply");
    assert!(p.next_request().expect("drive").is_none());
    assert_eq!(
        p.out,
        "`< notes.md`\n\n<!-- BEGIN mdsh -->\nincluded\n<!-- END mdsh -->\n"
    );
}

#[test]
fn mixed_document_round_trip() {
    let doc = "# Demo\n\n`$ date`\n\n<!-- > yaml < -->\n\nplain `code` and [a link](x.md)\n";
    let (out1, failures) = run_with(doc, Vec::new(), &["now\n"], &[]);
    assert!(failures.is_empty());
    let (out2, _) = run_with(&out1, Vec::new(), &["now\n"], &[]);
    assert_eq!(out1, out2);
    assert_eq!(clean_of(&out1), doc);
}
