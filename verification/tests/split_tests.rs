use cdoc::split::CodeParseErrorKind;
use cdoc::split::CodeTaskDefinition;
use cdoc::split::Segment;
use cdoc::split::SegmentKind;
use cdoc::split::parse_code_string;
use cdoc::split::split_lines;

#[test]
fn interleaved_segments_split_into_solution_and_placeholder() {
    let def = CodeTaskDefinition {
        blocks: vec![
            Segment {
                kind: SegmentKind::Common,
                text: "A".to_string(),
                block: 0,
            },
            Segment {
                kind: SegmentKind::SolutionOnly,
                text: "S".to_string(),
                block: 0,
            },
            Segment {
                kind: SegmentKind::Common,
                text: "B".to_string(),
                block: 0,
            },
        ],
    };
    let (placeholder, solution) = def.split();
    assert_eq!(solution, "ASB");
    assert_eq!(placeholder, "AB");
}

#[test]
fn placeholder_only_segments_stay_out_of_the_solution() {
    let def = CodeTaskDefinition {
        blocks: vec![
            Segment {
                kind: SegmentKind::PlaceholderOnly,
                text: "todo\n".to_string(),
                block: 0,
            },
            Segment {
                kind: SegmentKind::SolutionOnly,
                text: "done\n".to_string(),
                block: 0,
            },
        ],
    };
    assert_eq!(def.write_string(false), "todo\n");
    assert_eq!(def.write_string(true), "done\n");
}

#[test]
fn parse_splits_marked_source() {
    let source = "A\n#| solution\nS\n#| end\nB";
    let def = parse_code_string(source, 0).unwrap();
    assert_eq!(def.blocks.len(), 3);
    assert_eq!(def.blocks[0].kind, SegmentKind::Common);
    assert_eq!(def.blocks[0].text, "A\n");
    assert_eq!(def.blocks[1].kind, SegmentKind::SolutionOnly);
    assert_eq!(def.blocks[1].text, "S\n");
    assert_eq!(def.blocks[2].kind, SegmentKind::Common);
    assert_eq!(def.blocks[2].text, "B\n");
    let (placeholder, solution) = def.split();
    assert_eq!(solution, "A\nS\nB\n");
    assert_eq!(placeholder, "A\nB\n");
}

#[test]
fn parse_reads_placeholder_regions() {
    let source = "#| placeholder\npass\n#| end\n#| solution\nreturn 1\n#| end";
    let def = parse_code_string(source, 2).unwrap();
    assert_eq!(def.blocks.len(), 2);
    assert_eq!(def.blocks[0].kind, SegmentKind::PlaceholderOnly);
    assert_eq!(def.blocks[0].text, "pass\n");
    assert_eq!(def.blocks[0].block, 2);
    assert_eq!(def.blocks[1].kind, SegmentKind::SolutionOnly);
    assert_eq!(def.blocks[1].text, "return 1\n");
}

#[test]
fn unterminated_marker_is_refused() {
    let err = parse_code_string("x\n#| solution\ny", 0).unwrap_err();
    assert_eq!(err.kind, CodeParseErrorKind::UnterminatedMarker);
    assert_eq!(err.line, 3);
}

#[test]
fn end_without_open_marker_is_refused() {
    let err = parse_code_string("#| end", 0).unwrap_err();
    assert_eq!(err.kind, CodeParseErrorKind::UnmatchedEnd);
    assert_eq!(err.line, 0);
}

#[test]
fn nested_markers_are_refused() {
    let err = parse_code_string("#| solution\n#| placeholder", 0).unwrap_err();
    assert_eq!(err.kind, CodeParseErrorKind::NestedMarker);
    assert_eq!(err.line, 1);
}

#[test]
fn error_message_names_the_line() {
    let err = parse_code_string("x\n#| solution\ny", 0).unwrap_err();
    assert_eq!(
        err.message(),
        "code task syntax error at line 3: unterminated marker"
    );
}

#[test]
fn append_concatenates_definitions() {
    let mut a = parse_code_string("one", 0).unwrap();
    let mut b = parse_code_string("two", 1).unwrap();
    a.append(&mut b);
    assert_eq!(a.blocks.len(), 2);
    assert_eq!(a.blocks[1].text, "two\n");
    assert_eq!(a.blocks[1].block, 1);
    assert!(b.blocks.is_empty());
}

#[test]
fn lines_split_at_newlines() {
    let lines = split_lines("a\nb\n");
    assert_eq!(lines, vec!["a".to_string(), "b".to_string(), String::new()]);
    assert_eq!(split_lines("plain"), vec!["plain".to_string()]);
}
