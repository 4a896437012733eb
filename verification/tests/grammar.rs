use mdsh::executor::{InType, OutType};
use mdsh::parser::{tokenize, ParseError, ParseErrorKind};
use mdsh::{MdPiece, Span};

fn text_of(doc: &str, sp: Span) -> String {
    doc.chars().skip(sp.start).take(sp.end - sp.start).collect()
}

#[test]
fn raw_lines_cover_the_input() {
    let doc = "one\ntwo\n\nthree\n";
    let pieces = tokenize(doc).expect("parse");
    assert_eq!(pieces.len(), 4);
    let mut rebuilt = String::new();
    for p in &pieces {
        match p {
            MdPiece::RawLine(sp) => rebuilt.push_str(&text_of(doc, *sp)),
            other => panic!("unexpected piece: {other:?}"),
        }
    }
    assert_eq!(rebuilt, doc);
}

#[test]
fn inline_code_without_selector_is_raw() {
    let doc = "`just code`\n";
    let pieces = tokenize(doc).expect("parse");
    assert_eq!(pieces.len(), 1);
    assert!(matches!(pieces[0], MdPiece::RawLine(_)));
}

#[test]
fn inline_execute_defaults_to_markdown_output() {
    let doc = "`$ echo hi`\n";
    let pieces = tokenize(doc).expect("parse");
    assert_eq!(pieces.len(), 1);
    match &pieces[0] {
        MdPiece::Action(sp, a) => {
            assert_eq!(text_of(doc, *sp), doc);
            assert_eq!(a.command.in_type, InType::Execute);
            assert_eq!(a.command.out_type, OutType::Markdown);
            assert_eq!(text_of(doc, a.data_line.unwrap()), "echo hi");
            assert!(a.data.is_none());
        }
        other => panic!("unexpected piece: {other:?}"),
    }
}

#[test]
fn language_tag_needs_selector_or_end_of_line() {
    // A word after `>` followed by more data is data, not a language tag.
    let doc = "<!-- > echo '*bold*' -->\n";
    let pieces = tokenize(doc).expect("parse");
    match &pieces[0] {
        MdPiece::Action(_, a) => {
            assert_eq!(a.command.out_type, OutType::Markdown);
            assert_eq!(a.command.in_type, InType::RawData);
            assert_eq!(text_of(doc, a.data_line.unwrap()), "echo '*bold*'");
        }
        other => panic!("unexpected piece: {other:?}"),
    }
    // A word after `>` followed by `$` is a language tag.
    let doc2 = "`> yml $ echo 'foo: bar'`\n";
    let pieces2 = tokenize(doc2).expect("parse");
    match &pieces2[0] {
        MdPiece::Action(_, a) => {
            match a.command.out_type {
                OutType::CodeBlock(l) => assert_eq!(text_of(doc2, l), "yml"),
                other => panic!("unexpected out type: {other:?}"),
            }
            assert_eq!(a.command.in_type, InType::Execute);
            assert_eq!(text_of(doc2, a.data_line.unwrap()), "echo 'foo: bar'");
        }
        other => panic!("unexpected piece: {other:?}"),
    }
}

#[test]
fn link_annotation_takes_path_as_data_line() {
    let doc = "[> yaml < yaml example](./sample.yaml)\n";
    let pieces = tokenize(doc).expect("parse");
    match &pieces[0] {
        MdPiece::Action(sp, a) => {
            assert_eq!(text_of(doc, *sp), doc);
            match a.command.out_type {
                OutType::CodeBlock(l) => assert_eq!(text_of(doc, l), "yaml"),
                other => panic!("unexpected out type: {other:?}"),
            }
            assert_eq!(a.command.in_type, InType::Read);
            assert_eq!(text_of(doc, a.data_line.unwrap()), "./sample.yaml");
        }
        other => panic!("unexpected piece: {other:?}"),
    }
}

#[test]
fn ordinary_link_passes_through() {
    let doc = "[docs](https://example.org)\n";
    let pieces = tokenize(doc).expect("parse");
    assert!(matches!(pieces[0], MdPiece::RawLine(_)));
}

#[test]
fn multiline_comment_action_carries_block() {
    let doc = "<!-- > $ sed 's/a/b/'\nline one\nline two\n-->\n";
    let pieces = tokenize(doc).expect("parse");
    match &pieces[0] {
        MdPiece::Action(sp, a) => {
            assert_eq!(text_of(doc, *sp), doc);
            assert_eq!(a.command.in_type, InType::Execute);
            assert_eq!(text_of(doc, a.data_line.unwrap()), "sed 's/a/b/'");
            assert_eq!(text_of(doc, a.data.unwrap()), "line one\nline two\n");
        }
        other => panic!("unexpected piece: {other:?}"),
    }
}

#[test]
fn plain_comment_passes_through() {
    let doc = "<!-- nothing to see --> trailing\n";
    let pieces = tokenize(doc).expect("parse");
    assert_eq!(pieces.len(), 2);
    match &pieces[0] {
        MdPiece::RawLine(sp) => assert_eq!(text_of(doc, *sp), "<!-- nothing to see -->"),
        other => panic!("unexpected piece: {other:?}"),
    }
    match &pieces[1] {
        MdPiece::RawLine(sp) => assert_eq!(text_of(doc, *sp), " trailing\n"),
        other => panic!("unexpected piece: {other:?}"),
    }
}

#[test]
fn plain_code_block_is_opaque() {
    let doc = "```rust\nlet `$ not an action` = 1;\n```\n";
    let pieces = tokenize(doc).expect("parse");
    assert_eq!(pieces.len(), 1);
    match &pieces[0] {
        MdPiece::RawLine(sp) => assert_eq!(text_of(doc, *sp), doc),
        other => panic!("unexpected piece: {other:?}"),
    }
}

#[test]
fn tilde_fences_match_backtick_fences() {
    let doc = "~~~\nanything\n~~~\n";
    let pieces = tokenize(doc).expect("parse");
    assert_eq!(pieces.len(), 1);
    assert!(matches!(pieces[0], MdPiece::RawLine(_)));
}

#[test]
fn generated_block_takes_its_preceding_blank_line() {
    let doc = "before\n\n<!-- BEGIN mdsh -->\nhi\n<!-- END mdsh -->\nafter\n";
    let pieces = tokenize(doc).expect("parse");
    assert_eq!(pieces.len(), 3);
    assert!(matches!(pieces[0], MdPiece::RawLine(_)));
    match &pieces[1] {
        MdPiece::FencedBlock(sp) => {
            assert_eq!(
                text_of(doc, *sp),
                "\n<!-- BEGIN mdsh -->\nhi\n<!-- END mdsh -->\n"
            );
        }
        other => panic!("unexpected piece: {other:?}"),
    }
    assert!(matches!(pieces[2], MdPiece::RawLine(_)));
}

#[test]
fn generated_block_ends_at_its_end_marker_line() {
    let doc = "<!-- BEGIN mdsh -->\nhi\n<!-- END mdsh -->\n\n\nnext\n";
    let pieces = tokenize(doc).expect("parse");
    assert_eq!(pieces.len(), 4);
    match &pieces[0] {
        MdPiece::FencedBlock(sp) => {
            assert_eq!(text_of(doc, *sp), "<!-- BEGIN mdsh -->\nhi\n<!-- END mdsh -->\n");
        }
        other => panic!("unexpected piece: {other:?}"),
    }
    assert!(matches!(pieces[1], MdPiece::RawLine(_)));
    assert!(matches!(pieces[2], MdPiece::RawLine(_)));
    assert!(matches!(pieces[3], MdPiece::RawLine(_)));
}

#[test]
fn nested_generated_blocks_parse() {
    let doc = "<!-- BEGIN mdsh -->\nouter\n<!-- BEGIN mdsh -->\ninner\n<!-- END mdsh -->\n<!-- END mdsh -->\n";
    let pieces = tokenize(doc).expect("parse");
    assert_eq!(pieces.len(), 1);
    assert!(matches!(pieces[0], MdPiece::FencedBlock(_)));
}

#[test]
fn unterminated_generated_block_is_an_error() {
    let doc = "<!-- BEGIN mdsh -->\nno end\n";
    let e = tokenize(doc).expect_err("must fail");
    assert_eq!(e.kind, ParseErrorKind::UnterminatedSentinelBlock);
}

#[test]
fn misplaced_begin_marker_is_an_error() {
    let doc = "<!-- BEGIN mdsh -->not a block\n";
    let e = tokenize(doc).expect_err("must fail");
    assert_eq!(e.kind, ParseErrorKind::MisplacedSentinel);
}

#[test]
fn unterminated_comment_is_an_error() {
    let doc = "<!-- never closed\n";
    let e = tokenize(doc).expect_err("must fail");
    assert_eq!(e.kind, ParseErrorKind::UnterminatedComment);
}

#[test]
fn unterminated_fence_is_an_error_not_raw_text() {
    let doc = "```\nstill open\n";
    let e = tokenize(doc).expect_err("must fail");
    assert_eq!(e.kind, ParseErrorKind::UnterminatedCodeBlock);
}

#[test]
fn residual_text_without_newline_is_an_error() {
    let e = tokenize("no trailing newline").expect_err("must fail");
    assert_eq!(e.kind, ParseErrorKind::ResidualText);
}

#[test]
fn parse_error_reports_position() {
    let doc = "fine\n<!-- never closed\n";
    let e: ParseError = tokenize(doc).expect_err("must fail");
    assert_eq!(e.pos, 5);
    assert_eq!(
        e.message(),
        "comment is missing its closing delimiter"
    );
}

#[test]
fn empty_document_has_no_pieces() {
    let pieces = tokenize("").expect("parse");
    assert!(pieces.is_empty());
}

#[test]
fn bad_text_after_closing_fence_is_an_error() {
    let doc = "```\nx\n``` tail\n";
    let e = tokenize(doc).expect_err("must fail");
    assert_eq!(e.kind, ParseErrorKind::BadCodeBlockClose);
}

#[test]
fn bad_text_after_end_marker_is_an_error() {
    let doc = "<!-- BEGIN mdsh -->\nx\n<!-- END mdsh --> tail\n";
    let e = tokenize(doc).expect_err("must fail");
    assert_eq!(e.kind, ParseErrorKind::BadSentinelClose);
}

#[test]
fn link_with_execute_selector_runs_the_path() {
    let doc = "[$ generator](./gen-md.sh)\n";
    let pieces = tokenize(doc).expect("parse");
    match &pieces[0] {
        MdPiece::Action(_, a) => {
            assert_eq!(a.command.in_type, InType::Execute);
            assert_eq!(a.command.out_type, OutType::Markdown);
            assert_eq!(text_of(doc, a.data_line.unwrap()), "./gen-md.sh");
        }
        other => panic!("unexpected piece: {other:?}"),
    }
}

#[test]
fn malformed_link_annotation_aborts() {
    let doc = "[$ cmd] (gap)\n";
    let e = tokenize(doc).expect_err("must fail");
    assert_eq!(e.kind, ParseErrorKind::MalformedLink);
}

#[test]
fn tilde_fence_with_command_is_an_action() {
    let doc = "~~~ $ echo x\n~~~\n";
    let pieces = tokenize(doc).expect("parse");
    match &pieces[0] {
        MdPiece::Action(sp, a) => {
            assert_eq!(text_of(doc, *sp), doc);
            assert_eq!(a.command.in_type, InType::Execute);
            assert_eq!(text_of(doc, a.data_line.unwrap()), "echo x");
            assert_eq!(text_of(doc, a.data.unwrap()), "");
        }
        other => panic!("unexpected piece: {other:?}"),
    }
}

#[test]
fn indented_fence_closer_must_match_indentation() {
    let doc = "  ```\nbody\n  ```\n";
    let pieces = tokenize(doc).expect("parse");
    assert_eq!(pieces.len(), 1);
    match &pieces[0] {
        MdPiece::RawLine(sp) => assert_eq!(text_of(doc, *sp), doc),
        other => panic!("unexpected piece: {other:?}"),
    }
}
