use cdoc::shortcodes::InvocationError;
use cdoc::shortcodes::OutputFormat;
use cdoc::shortcodes::ShortCodeProcessError;
use cdoc::shortcodes::ShortCodeProcessor;
use cdoc::shortcodes::ShortcodeInfo;
use cdoc::shortcodes::find_all_blocks;
use cdoc::shortcodes::find_shortcode;
use cdoc::shortcodes::parse_shortcode;

fn md_processor(templates: &[(&str, &str)]) -> ShortCodeProcessor {
    let mut tera = tera::Tera::default();
    tera.add_raw_templates(templates.to_vec()).unwrap();
    ShortCodeProcessor::new(tera, "md".to_string(), Vec::new())
}

#[test]
fn inline_code_span_is_left_untouched() {
    let processor = md_processor(&[]);
    let input = "`{{ foo }}`";
    let out = processor.process(input).unwrap();
    assert_eq!(out, input);
}

#[test]
fn fenced_code_span_is_left_untouched() {
    let processor = md_processor(&[]);
    let input = "```\n{% x %} body {% end %}\n```";
    let out = processor.process(input).unwrap();
    assert_eq!(out, input);
}

#[test]
fn earliest_opener_wins() {
    let processor = md_processor(&[
        ("md/x.tera.md", "X"),
        ("md/y.tera.md", "Y[{{ body }}]"),
    ]);
    let out = processor.process("a {{ x }} b {% y %} c {% end %}").unwrap();
    assert_eq!(out, "a X b Y[c]\n");
}

#[test]
fn inline_parameters_reach_the_template() {
    let processor = md_processor(&[("md/greet.tera.md", "Hello {{ who }}!")]);
    let out = processor.process("say {{ greet(who=world) }}").unwrap();
    assert_eq!(out, "say Hello world!");
}

#[test]
fn quoted_parameter_values_lose_their_quotes() {
    let processor = md_processor(&[("md/greet.tera.md", "Hello {{ who }}!")]);
    let out = processor
        .process("{{ greet(who=\"big world\") }}")
        .unwrap();
    assert_eq!(out, "Hello big world!");
}

#[test]
fn block_body_is_expanded_before_the_outer_template_sees_it() {
    let processor = md_processor(&[
        ("md/outer.tera.md", "O[{{ body }}]"),
        ("md/i.tera.md", "I"),
    ]);
    let out = processor.process("{% outer %} {{ i }} {% end %}").unwrap();
    assert_eq!(out, "O[I]\n");
}

#[test]
fn html_mode_renders_the_body_through_the_markup_grammar() {
    let mut tera = tera::Tera::default();
    tera.add_raw_templates(vec![("html/box.tera.html", "<b>{{ body | safe }}</b>")])
        .unwrap();
    let processor = ShortCodeProcessor::new(tera, "html".to_string(), Vec::new());
    let out = processor.process("{% box %} *hi* {% end %}").unwrap();
    assert_eq!(out, "<b><p><em>hi</em></p>\n</b>\n");
}

#[test]
fn project_values_reach_every_template() {
    let mut tera = tera::Tera::default();
    tera.add_raw_templates(vec![("md/title.tera.md", "[{{ project.title }}]")])
        .unwrap();
    let processor = ShortCodeProcessor::new(
        tera,
        "md".to_string(),
        vec![("title".to_string(), "My Course".to_string())],
    );
    let out = processor.process("{{ title }}").unwrap();
    assert_eq!(out, "[My Course]");
}

#[test]
fn missing_template_is_an_engine_error() {
    let processor = md_processor(&[]);
    let err = processor.process("{{ nope }}").unwrap_err();
    assert!(matches!(err, ShortCodeProcessError::Tera { .. }));
    assert!(err.message().starts_with("shortcode template error: "));
}

#[test]
fn unterminated_parameter_list_is_a_syntax_error() {
    let processor = md_processor(&[]);
    let err = processor.process("{{ greet(who }}").unwrap_err();
    assert!(matches!(
        err,
        ShortCodeProcessError::Syntax(InvocationError::UnterminatedList)
    ));
    assert_eq!(
        err.message(),
        "shortcode syntax error: unterminated parameter list"
    );
}

#[test]
fn parameter_without_value_is_a_syntax_error() {
    let err = parse_shortcode("name(a=1, b)").unwrap_err();
    assert_eq!(err, InvocationError::MissingEquals);
}

#[test]
fn invocations_parse_names_and_ordered_parameters() {
    let call = parse_shortcode(" greet (a=1, b=\"two\") ").unwrap();
    assert_eq!(call.name, "greet");
    assert_eq!(
        call.parameters,
        vec![
            ("a".to_string(), "1".to_string()),
            ("b".to_string(), "two".to_string()),
        ]
    );
    let bare = parse_shortcode("plain").unwrap();
    assert_eq!(bare.name, "plain");
    assert!(bare.parameters.is_empty());
}

#[test]
fn find_shortcode_picks_the_earliest_opener() {
    match find_shortcode("x {{ a }}") {
        Some(ShortcodeInfo::Inline(start, end)) => {
            assert_eq!(start, 2);
            assert_eq!(end, 7);
        }
        other => panic!("expected an inline match, got {:?}", other),
    }
    match find_shortcode("a {% b %} c {% end %}") {
        Some(ShortcodeInfo::Block { def, end }) => {
            assert_eq!(def.0, 2);
            assert_eq!(def.1, 7);
            assert_eq!(end.0, 12);
        }
        other => panic!("expected a block match, got {:?}", other),
    }
    assert!(find_shortcode("nothing here").is_none());
}

#[test]
fn code_spans_are_scanned_with_their_delimiters() {
    let blocks = find_all_blocks("a `b` ```c``` d");
    assert_eq!(blocks, vec![(2, 5), (6, 13)]);
}

#[test]
fn fenced_spans_close_with_the_opening_run_length() {
    let blocks = find_all_blocks("````x```` y");
    assert_eq!(blocks, vec![(0, 9)]);
}

#[test]
fn output_format_extensions() {
    assert_eq!(OutputFormat::Markdown.extension(), "md");
    assert_eq!(OutputFormat::Html.extension(), "html");
}
