use cdoc::chain::EventProcessorConfig;
use cdoc::chain::PreprocessorConfig;
use cdoc::chain::get_default_parser;
use cdoc::document::Document;
use cdoc::document::Element;
use cdoc::document::IteratorConfig;
use cdoc::events::BlockKind;
use cdoc::events::DocPos;
use cdoc::events::EventDocument;
use cdoc::events::FrontMatter;
use cdoc::events::PositionedEvent;
use cdoc::events::SemanticEvent;
use cdoc::extensions::CodeSplitFactory;
use cdoc::formats::FormatError;
use cdoc::formats::InputFormat;
use cdoc::formats::OutputFormat;
use cdoc::math::KaTeXPreprocessor;
use cdoc::math::MathPiece;
use cdoc::math::find_block;
use cdoc::notebook::Cell;
use cdoc::notebook::CellCommon;
use cdoc::notebook::CellMeta;
use cdoc::notebook::CellOutput;
use cdoc::notebook::Notebook;
use cdoc::notebook::NotebookMeta;
use cdoc::notebook::OutputValue;
use cdoc::notebook::concatenate_source;
use cdoc::notebook::escape_string_deserialize;
use cdoc::parser::find_header;
use cdoc::parser::parse_front_matter;
use cdoc::parser::split_front_matter;
use cdoc::processors::CodeSplit;
use cdoc::processors::ProcessorError;
use cdoc::renderers::MarkdownRenderer;
use cdoc::renderers::RenderExtensionConfiguration;
use cdoc::renderers::RendererKind;
use cdoc::renderers::render_markdown;
use cdoc::split::CodeParseErrorKind;

fn pos(line: usize, column: usize) -> DocPos {
    DocPos { line, column }
}

fn ev(event: SemanticEvent<String>) -> PositionedEvent {
    PositionedEvent {
        event,
        pos: pos(0, 0),
    }
}

fn meta() -> CellMeta {
    CellMeta {
        collapsed: None,
        deletable: None,
        format: None,
        name: None,
        tags: None,
        language_id: None,
    }
}

fn text_metadata() -> FrontMatter {
    FrontMatter {
        title: None,
        doc_type: "text".to_string(),
    }
}

#[test]
fn code_split_replaces_block_text_with_the_placeholder() {
    let doc = EventDocument {
        metadata: text_metadata(),
        content: vec![
            ev(SemanticEvent::Start(BlockKind::CodeBlock(
                "python".to_string(),
            ))),
            ev(SemanticEvent::Text(
                "x\n#| solution\ny\n#| end\nz".to_string(),
            )),
            ev(SemanticEvent::End(BlockKind::CodeBlock(
                "python".to_string(),
            ))),
        ],
    };
    let out = CodeSplit.process(doc).unwrap();
    assert_eq!(out.solution, "x\ny\nz\n");
    assert_eq!(out.tasks.blocks.len(), 3);
    assert_eq!(out.doc.content.len(), 3);
    match &out.doc.content[1].event {
        SemanticEvent::Text(t) => assert_eq!(t, "x\nz"),
        other => panic!("expected the placeholder text, got {:?}", other),
    }
}

#[test]
fn malformed_directive_reports_the_block_end_position() {
    let doc = EventDocument {
        metadata: text_metadata(),
        content: vec![
            PositionedEvent {
                event: SemanticEvent::Start(BlockKind::CodeBlock("python".to_string())),
                pos: pos(3, 1),
            },
            PositionedEvent {
                event: SemanticEvent::Text("a\n#| solution\nb".to_string()),
                pos: pos(4, 1),
            },
            PositionedEvent {
                event: SemanticEvent::End(BlockKind::CodeBlock("python".to_string())),
                pos: pos(7, 3),
            },
        ],
    };
    let err = CodeSplit.process(doc).unwrap_err();
    let ProcessorError::CodeParseError(parse_err, at) = err;
    assert_eq!(at, pos(7, 3));
    assert_eq!(parse_err.kind, CodeParseErrorKind::UnterminatedMarker);
    assert!(err.message().contains("unterminated marker"));
}

#[test]
fn extension_accumulates_across_events() {
    let mut ext = CodeSplitFactory {}.build();
    ext.each(SemanticEvent::Start(BlockKind::CodeBlock(String::new())))
        .unwrap();
    let replaced = ext
        .each(SemanticEvent::Text("a\n#| solution\nb\n#| end".to_string()))
        .unwrap();
    match replaced {
        SemanticEvent::Text(t) => assert_eq!(t, "a\n"),
        other => panic!("expected replaced text, got {:?}", other),
    }
    ext.each(SemanticEvent::End(BlockKind::CodeBlock(String::new())))
        .unwrap();
    assert_eq!(ext.solution_string, "a\nb\n");
    assert_eq!(ext.get_source_def().blocks.len(), 2);
}

#[test]
fn find_header_takes_the_first_level_one_heading() {
    let events = vec![
        ev(SemanticEvent::Start(BlockKind::Heading(2))),
        ev(SemanticEvent::Text("not this".to_string())),
        ev(SemanticEvent::End(BlockKind::Heading(2))),
        ev(SemanticEvent::Start(BlockKind::Heading(1))),
        ev(SemanticEvent::Text("  The Title ".to_string())),
    ];
    assert_eq!(find_header(&events), "The Title");
    assert_eq!(find_header(&Vec::new()), "");
}

#[test]
fn front_matter_defaults_the_document_type() {
    let fm = parse_front_matter("title: Hello");
    assert_eq!(fm.doc_type, "text");
    assert_eq!(fm.title, Some("Hello".to_string()));
}

#[test]
fn front_matter_reads_an_explicit_type() {
    let fm = parse_front_matter("type: quiz\ntitle: \"Quoted\"");
    assert_eq!(fm.doc_type, "quiz");
    assert_eq!(fm.title, Some("Quoted".to_string()));
}

#[test]
fn front_matter_block_is_split_off_the_body() {
    let (yaml, body) = split_front_matter("---\ntitle: T\n---\nbody line");
    assert_eq!(yaml, Some("title: T".to_string()));
    assert_eq!(body, "body line");
    let (none, all) = split_front_matter("no front matter");
    assert_eq!(none, None);
    assert_eq!(all, "no front matter");
}

#[test]
fn markdown_writer_formats_headings_and_code() {
    let events = vec![
        ev(SemanticEvent::Start(BlockKind::Heading(2))),
        ev(SemanticEvent::Text("Hi".to_string())),
        ev(SemanticEvent::End(BlockKind::Heading(2))),
        ev(SemanticEvent::Start(BlockKind::CodeBlock(
            "python".to_string(),
        ))),
        ev(SemanticEvent::Text("x = 1".to_string())),
        ev(SemanticEvent::End(BlockKind::CodeBlock(
            "python".to_string(),
        ))),
    ];
    assert_eq!(render_markdown(&events), "## Hi\n\n```python\nx = 1\n```\n");
}

#[test]
fn markdown_writer_numbers_ordered_lists() {
    let events = vec![
        ev(SemanticEvent::Start(BlockKind::List(Some(3)))),
        ev(SemanticEvent::Start(BlockKind::Item)),
        ev(SemanticEvent::Text("a".to_string())),
        ev(SemanticEvent::End(BlockKind::Item)),
        ev(SemanticEvent::Start(BlockKind::Item)),
        ev(SemanticEvent::Text("b".to_string())),
        ev(SemanticEvent::End(BlockKind::Item)),
        ev(SemanticEvent::End(BlockKind::List(Some(3)))),
    ];
    assert_eq!(render_markdown(&events), "3. a\n4. b\n\n");
}

#[test]
fn markdown_writer_writes_links() {
    let events = vec![
        ev(SemanticEvent::Start(BlockKind::Link(
            "https://example.org".to_string(),
            "t".to_string(),
        ))),
        ev(SemanticEvent::Text("here".to_string())),
        ev(SemanticEvent::End(BlockKind::Link(
            "https://example.org".to_string(),
            "t".to_string(),
        ))),
    ];
    assert_eq!(render_markdown(&events), "[here](https://example.org t)");
}

#[test]
fn stream_output_becomes_an_alert_box() {
    let out = CellOutput::Stream {
        name: "stdout".to_string(),
        text: "hi".to_string(),
    };
    let events = out.to_events();
    assert_eq!(events.len(), 1);
    match &events[0] {
        SemanticEvent::Html(h) => {
            assert_eq!(h, "<div class=\"alert alert-info\"><p>hi</p></div>")
        }
        other => panic!("expected markup, got {:?}", other),
    }
}

#[test]
fn data_outputs_become_blocks_and_images() {
    let out = CellOutput::Data {
        execution_count: Some(1),
        data: vec![
            OutputValue::Plain("42".to_string()),
            OutputValue::Image("QUJD".to_string()),
        ],
    };
    let events = out.to_events();
    assert_eq!(events.len(), 4);
    assert_eq!(
        events[0],
        SemanticEvent::Start(BlockKind::CodeBlock("plaintext".to_string()))
    );
    assert_eq!(events[1], SemanticEvent::Text("42".to_string()));
    assert_eq!(
        events[3],
        SemanticEvent::Html("<img src=\"data:image/png;base64,QUJD\"></img>".to_string())
    );
}

fn sample_notebook() -> Notebook {
    Notebook {
        metadata: NotebookMeta { kernelspec: None },
        nbformat: 4,
        nbformat_minor: 5,
        cells: vec![
            Cell::Markdown {
                common: CellCommon {
                    metadata: meta(),
                    source: "# Title".to_string(),
                },
            },
            Cell::Code {
                common: CellCommon {
                    metadata: meta(),
                    source: "a\n#| solution\nb\n#| end".to_string(),
                },
                execution_count: Some(2),
                outputs: vec![CellOutput::Stream {
                    name: "stdout".to_string(),
                    text: "out".to_string(),
                }],
            },
        ],
    }
}

#[test]
fn placeholder_notebook_strips_solutions_and_outputs() {
    let nb = sample_notebook().placeholder_notebook().unwrap();
    assert_eq!(nb.cells.len(), 2);
    match &nb.cells[1] {
        Cell::Code {
            common,
            execution_count,
            outputs,
        } => {
            assert_eq!(common.source, "a\n");
            assert_eq!(*execution_count, Some(2));
            assert!(outputs.is_empty());
        }
        other => panic!("expected a code cell, got {:?}", other),
    }
}

#[test]
fn front_matter_source_reads_raw_and_tagged_cells() {
    let raw = Notebook {
        metadata: NotebookMeta { kernelspec: None },
        nbformat: 4,
        nbformat_minor: 5,
        cells: vec![Cell::Raw {
            common: CellCommon {
                metadata: meta(),
                source: "title: T".to_string(),
            },
        }],
    };
    assert_eq!(raw.front_matter_source(), Some(&"title: T".to_string()));

    let mut yaml_meta = meta();
    yaml_meta.language_id = Some("yaml".to_string());
    let tagged = Notebook {
        metadata: NotebookMeta { kernelspec: None },
        nbformat: 4,
        nbformat_minor: 5,
        cells: vec![Cell::Code {
            common: CellCommon {
                metadata: yaml_meta,
                source: "type: quiz".to_string(),
            },
            execution_count: None,
            outputs: vec![],
        }],
    };
    assert_eq!(tagged.front_matter_source(), Some(&"type: quiz".to_string()));
    assert_eq!(sample_notebook().front_matter_source(), None);
}

#[test]
fn sources_are_escaped_and_concatenated() {
    assert_eq!(escape_string_deserialize("a\\b"), "a\\\\b");
    assert_eq!(
        concatenate_source(&vec!["a\n".to_string(), "b".to_string()]),
        "a\nb"
    );
}

#[test]
fn documents_come_from_strings_and_notebooks() {
    let d = Document::from_string("hello".to_string());
    assert_eq!(d.elements.len(), 1);
    let d = Document::from_notebook(sample_notebook());
    assert_eq!(d.elements.len(), 2);
    match &d.elements[1] {
        Element::Code { content, output } => {
            assert!(content.starts_with("a\n"));
            assert_eq!(output.as_ref().unwrap().len(), 1);
        }
        other => panic!("expected a code element, got {:?}", other),
    }
}

#[test]
fn code_elements_yield_their_events() {
    let element = Element::Code {
        content: "x = 1".to_string(),
        output: Some(vec![CellOutput::Error {
            ename: "E".to_string(),
            evalue: "v".to_string(),
            traceback: vec![],
        }]),
    };
    let plain = element.to_events(IteratorConfig::default()).unwrap();
    assert_eq!(plain.len(), 3);
    let with_output = element
        .to_events(IteratorConfig::default().include_output())
        .unwrap();
    assert_eq!(with_output.len(), 4);
    assert_eq!(with_output[3], SemanticEvent::Text("Error".to_string()));
}

#[test]
fn input_formats_map_extensions_and_names() {
    assert_eq!(InputFormat::from_extension("md"), Ok(InputFormat::Markdown));
    assert_eq!(
        InputFormat::from_extension("ipynb"),
        Ok(InputFormat::Notebook)
    );
    assert_eq!(
        InputFormat::from_extension("txt"),
        Err(FormatError::UnknownInputExtension)
    );
    assert_eq!(InputFormat::from_name("markdown"), Ok(InputFormat::Markdown));
    assert_eq!(
        InputFormat::from_name("word"),
        Err(FormatError::UnknownInputName)
    );
    assert_eq!(InputFormat::Notebook.extension(), "ipynb");
    assert_eq!(InputFormat::Markdown.name(), "markdown");
}

#[test]
fn output_formats_map_extensions_and_names() {
    assert_eq!(OutputFormat::from_extension("html"), Ok(OutputFormat::Html));
    assert_eq!(
        OutputFormat::from_extension("doc"),
        Err(FormatError::UnknownOutputExtension)
    );
    assert_eq!(OutputFormat::from_name("config"), Ok(OutputFormat::Config));
    assert_eq!(
        OutputFormat::from_name("tex"),
        Err(FormatError::UnknownOutputName)
    );
    assert_eq!(OutputFormat::Config.extension(), "yml");
    assert_eq!(OutputFormat::Notebook.template_extension(), "md");
    assert_eq!(OutputFormat::Html.name(), "html");
}

#[test]
fn renderer_registry_prefers_the_latest_entry() {
    let mut registry = RenderExtensionConfiguration::new();
    assert!(registry.get_parser("md").is_none());
    registry.add_mapping("md", RendererKind::Markdown(MarkdownRenderer));
    assert!(registry.get_parser("md").is_some());
    assert!(registry.get_parser("html").is_none());
}

#[test]
fn math_blocks_are_found_with_their_delimiters() {
    assert_eq!(find_block("a $x$ b"), Some((2, 4, 1)));
    assert_eq!(find_block("$$y$$"), Some((0, 3, 2)));
    assert_eq!(find_block("plain"), None);
}

#[test]
fn math_splitting_and_assembly_are_inverse_around_rendering() {
    let pre = KaTeXPreprocessor;
    let pieces = pre.split_math("a $x$ b");
    assert_eq!(pieces.len(), 3);
    match &pieces[1] {
        MathPiece::Math { source, display } => {
            assert_eq!(source, "x");
            assert!(!display);
        }
        other => panic!("expected a math piece, got {:?}", other),
    }
    let assembled = pre
        .assemble(&pieces, &vec!["<x>".to_string()])
        .unwrap();
    assert_eq!(assembled, "a <x> b");
    assert!(pre.assemble(&pieces, &Vec::new()).is_none());
}

#[test]
fn event_chain_runs_stages_in_order() {
    let doc = EventDocument {
        metadata: text_metadata(),
        content: vec![
            ev(SemanticEvent::Start(BlockKind::CodeBlock(
                "python".to_string(),
            ))),
            ev(SemanticEvent::Text("a\n#| solution\nb\n#| end".to_string())),
            ev(SemanticEvent::End(BlockKind::CodeBlock(
                "python".to_string(),
            ))),
        ],
    };
    let procs = get_default_parser().event_processors;
    let out = cdoc::chain::apply_event_processors(doc, &procs).unwrap();
    assert_eq!(out.solution, "a\nb\n");
    assert_eq!(out.tasks.blocks.len(), 2);
    assert_eq!(out.doc.metadata.doc_type, "text");
}

#[test]
fn preprocessor_chain_expands_then_typesets() {
    let mut tera = tera::Tera::default();
    tera.add_raw_templates(vec![("md/x.tera.md", "$e$")]).unwrap();
    let shortcodes =
        cdoc::shortcodes::ShortCodeProcessor::new(tera, "md".to_string(), Vec::new());
    let math = |source: String, display: bool| {
        assert!(!display);
        Ok(format!("[{}]", source))
    };
    let procs = get_default_parser().preprocessors;
    let out =
        cdoc::chain::apply_preprocessors("a {{ x }} b".to_string(), &procs, &shortcodes, &math)
            .unwrap();
    assert_eq!(out, "a [e] b");
}

#[test]
fn notebook_writer_regenerates_cells() {
    let events = vec![
        ev(SemanticEvent::Start(BlockKind::Heading(1))),
        ev(SemanticEvent::Text("Title".to_string())),
        ev(SemanticEvent::End(BlockKind::Heading(1))),
        ev(SemanticEvent::Start(BlockKind::CodeBlock("python".to_string()))),
        ev(SemanticEvent::Text("x = 1".to_string())),
        ev(SemanticEvent::End(BlockKind::CodeBlock("python".to_string()))),
        ev(SemanticEvent::Text("after".to_string())),
    ];
    let nb = cdoc::renderers::render_notebook(&events);
    assert_eq!(nb.cells.len(), 3);
    match &nb.cells[0] {
        Cell::Markdown { common } => assert_eq!(common.source, "# Title\n\n"),
        other => panic!("expected a markdown cell, got {:?}", other),
    }
    match &nb.cells[1] {
        Cell::Code {
            common,
            execution_count,
            outputs,
        } => {
            assert_eq!(common.source, "x = 1");
            assert!(execution_count.is_none());
            assert!(outputs.is_empty());
        }
        other => panic!("expected a code cell, got {:?}", other),
    }
    match &nb.cells[2] {
        Cell::Markdown { common } => assert_eq!(common.source, "after"),
        other => panic!("expected a markdown cell, got {:?}", other),
    }
}

#[test]
fn renderer_table_covers_the_crate_writers() {
    assert!(matches!(
        OutputFormat::Markdown.renderer(),
        Some(RendererKind::Markdown(_))
    ));
    assert!(matches!(
        OutputFormat::Notebook.renderer(),
        Some(RendererKind::Notebook(_))
    ));
    assert!(matches!(
        OutputFormat::Html.renderer(),
        Some(RendererKind::Html(_))
    ));
    assert!(OutputFormat::Config.renderer().is_none());
}

#[test]
fn html_renderer_writes_through_the_markup_grammar() {
    let doc = EventDocument {
        metadata: text_metadata(),
        content: vec![
            ev(SemanticEvent::Start(BlockKind::Paragraph)),
            ev(SemanticEvent::Text("hi ".to_string())),
            ev(SemanticEvent::Start(BlockKind::Emphasis)),
            ev(SemanticEvent::Text("there".to_string())),
            ev(SemanticEvent::End(BlockKind::Emphasis)),
            ev(SemanticEvent::End(BlockKind::Paragraph)),
        ],
    };
    let html = cdoc::renderers::HtmlRenderer.render_html(&doc);
    assert_eq!(html, "<p>hi <em>there</em></p>\n");
}

#[test]
fn default_chain_lists_its_stages() {
    let parser = get_default_parser();
    assert_eq!(
        parser.preprocessors,
        vec![PreprocessorConfig::ShortCode, PreprocessorConfig::KaTeX]
    );
    assert_eq!(parser.event_processors, vec![EventProcessorConfig::CodeSplit]);
    assert!(!parser.settings.solutions);
}
