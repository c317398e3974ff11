use cdoc::formats::InputFormat;
use cdoc::project::Chapter;
use cdoc::project::DocFormat;
use cdoc::project::Item;
use cdoc::project::Part;
use cdoc::project::Project;
use cdoc::project::ProjectError;
use cdoc::project::chapter_id;
use cdoc::project::extension_in;
use cdoc::project::index_helper;
use cdoc::project::join_path;
use cdoc::project::section_id;
use cdoc::project::strip_prefix;

fn doc_item(id: &str) -> Item<()> {
    Item {
        id: id.to_string(),
        format: InputFormat::Markdown,
        path: String::new(),
        content: (),
    }
}

fn sample_project() -> Project<()> {
    let doc = doc_item("doc");
    Project {
        project_path: String::new(),
        index: doc.clone(),
        content: vec![
            Part {
                id: "part1".to_string(),
                index: doc.clone(),
                chapters: vec![
                    Chapter {
                        id: "chapter1".to_string(),
                        index: doc.clone(),
                        documents: vec![doc.clone(), doc.clone()],
                        files: vec![String::new()],
                    },
                    Chapter {
                        id: "chapter2".to_string(),
                        index: doc.clone(),
                        documents: vec![doc.clone(), doc.clone()],
                        files: vec![String::new()],
                    },
                ],
            },
            Part {
                id: "part2".to_string(),
                index: doc,
                chapters: vec![],
            },
        ],
    }
}

#[test]
fn test_iteration_collect() {
    let cfg = sample_project();

    let mut items = Vec::new();
    let mut iter = cfg.clone().into_iter();
    while let Some(item) = iter.next() {
        items.push(item);
    }
    let cfg_mapped: Project<()> = Project::from_iter(items);

    for (p1, p2) in cfg.content.iter().zip(cfg_mapped.content.iter()) {
        assert_eq!(p1.id, p2.id);
    }
}

#[test]
fn round_trip_rebuilds_whole_tree() {
    let mk = |id: &str, content: u32| Item {
        id: id.to_string(),
        format: InputFormat::Markdown,
        path: format!("{}.md", id),
        content,
    };
    let project = Project {
        project_path: "course".to_string(),
        index: mk("root", 0),
        content: vec![
            Part {
                id: "p1".to_string(),
                index: mk("p1-index", 1),
                chapters: vec![
                    Chapter {
                        id: "c1".to_string(),
                        index: mk("c1-index", 2),
                        documents: vec![mk("d1", 3), mk("d2", 4)],
                        files: vec!["c1/data.csv".to_string()],
                    },
                    Chapter {
                        id: "c2".to_string(),
                        index: mk("c2-index", 5),
                        documents: vec![],
                        files: vec![],
                    },
                ],
            },
            Part {
                id: "p2".to_string(),
                index: mk("p2-index", 6),
                chapters: vec![],
            },
        ],
    };

    let reference = project.clone();
    let entries = project.flatten();
    assert_eq!(entries.len(), 7);
    assert_eq!(entries[0].part_idx, Some(0));
    let rebuilt = Project::from_iter(entries);

    assert_eq!(rebuilt.project_path, reference.project_path);
    assert_eq!(rebuilt.index.id, reference.index.id);
    assert_eq!(rebuilt.index.content, reference.index.content);
    assert_eq!(rebuilt.content.len(), reference.content.len());
    for (a, b) in reference.content.iter().zip(rebuilt.content.iter()) {
        assert_eq!(a.id, b.id);
        assert_eq!(a.index.id, b.index.id);
        assert_eq!(a.chapters.len(), b.chapters.len());
        for (ca, cb) in a.chapters.iter().zip(b.chapters.iter()) {
            assert_eq!(ca.id, cb.id);
            assert_eq!(ca.index.id, cb.index.id);
            assert_eq!(ca.files, cb.files);
            assert_eq!(ca.documents.len(), cb.documents.len());
            for (da, db) in ca.documents.iter().zip(cb.documents.iter()) {
                assert_eq!(da.id, db.id);
                assert_eq!(da.content, db.content);
            }
        }
    }
}

#[test]
fn round_trip_of_empty_project() {
    let project = Project {
        project_path: String::new(),
        index: doc_item("root"),
        content: vec![],
    };
    let rebuilt = Project::from_iter(project.clone().flatten());
    assert_eq!(rebuilt.index.id, "root");
    assert!(rebuilt.content.is_empty());
}

#[test]
fn iterator_yields_preorder_tags() {
    let cfg = sample_project();
    let mut iter = cfg.into_iter();
    let root = iter.next().unwrap();
    assert_eq!(root.part_idx, Some(0));
    assert_eq!(root.chapter_idx, None);
    let part = iter.next().unwrap();
    assert_eq!(part.part_idx, Some(1));
    assert_eq!(part.chapter_idx, Some(0));
    assert_eq!(part.part_id.as_deref(), Some("part1"));
    let chapter = iter.next().unwrap();
    assert_eq!(chapter.chapter_idx, Some(1));
    assert_eq!(chapter.chapter_id.as_deref(), Some("chapter1"));
    assert!(chapter.files.is_some());
}

#[test]
fn transform_keeps_shape_and_maps_content() {
    let project = Project {
        project_path: "p".to_string(),
        index: doc_item("root"),
        content: vec![Part {
            id: "p1".to_string(),
            index: doc_item("p1-index"),
            chapters: vec![Chapter {
                id: "c1".to_string(),
                index: doc_item("c1-index"),
                documents: vec![doc_item("d1")],
                files: vec![],
            }],
        }],
    };
    let lengths = project.transform(&|item: &Item<()>| item.id.len());
    assert_eq!(lengths.index.content, 4);
    assert_eq!(lengths.content[0].id, "p1");
    assert_eq!(lengths.content[0].chapters[0].documents[0].content, 2);
}

#[test]
fn transform_parents_hands_out_the_ancestors() {
    let project = Project {
        project_path: "p".to_string(),
        index: doc_item("root"),
        content: vec![Part {
            id: "p1".to_string(),
            index: doc_item("p1-index"),
            chapters: vec![Chapter {
                id: "c1".to_string(),
                index: doc_item("c1-index"),
                documents: vec![doc_item("d1")],
                files: vec![],
            }],
        }],
    };
    let crumbs = project.transform_parents(
        &|item: &Item<()>, part: Option<&Part<()>>, chapter: Option<&Chapter<()>>| {
            format!(
                "{}/{}/{}",
                part.map(|p| p.id.as_str()).unwrap_or("-"),
                chapter.map(|c| c.id.as_str()).unwrap_or("-"),
                item.id
            )
        },
    );
    assert_eq!(crumbs.index.content, "-/-/root");
    assert_eq!(crumbs.content[0].index.content, "p1/-/p1-index");
    assert_eq!(crumbs.content[0].chapters[0].index.content, "p1/c1/c1-index");
    assert_eq!(
        crumbs.content[0].chapters[0].documents[0].content,
        "p1/c1/d1"
    );
}

#[test]
fn item_map_changes_only_content() {
    let item = doc_item("doc");
    let mapped = item.map(|_c: &()| 7u32);
    assert_eq!(mapped.id, "doc");
    assert_eq!(mapped.content, 7);
}

#[test]
fn section_and_chapter_ids_from_paths() {
    assert_eq!(section_id("content/p/c/doc.md"), Some("doc".to_string()));
    assert_eq!(section_id("notes.tar.gz"), Some("notes".to_string()));
    assert_eq!(section_id("dir/"), Some("dir".to_string()));
    assert_eq!(section_id(""), None);
    assert_eq!(chapter_id("content/p/c"), Some("c".to_string()));
    assert_eq!(chapter_id("trailing/"), Some("trailing".to_string()));
    assert_eq!(chapter_id(""), None);
}

#[test]
fn doc_format_follows_extension() {
    assert_eq!(DocFormat::from_path("a/b.md"), Ok(DocFormat::Markdown));
    assert_eq!(DocFormat::from_path("a/b.ipynb"), Ok(DocFormat::Notebook));
    assert_eq!(
        DocFormat::from_path("a/b.txt"),
        Err(ProjectError::InvalidExtension)
    );
    assert!(extension_in("md"));
    assert!(extension_in("ipynb"));
    assert!(!extension_in("txt"));
}

#[test]
fn item_new_reads_id_and_format() {
    let item = Item::new("p1/c1/ex.ipynb").unwrap();
    assert_eq!(item.id, "ex");
    assert_eq!(item.format, InputFormat::Notebook);
    assert_eq!(item.path, "p1/c1/ex.ipynb");
    assert_eq!(
        Item::new("p1/c1/ex.doc"),
        Err(ProjectError::InvalidExtension)
    );
}

#[test]
fn index_helper_finds_index_documents() {
    let item = index_helper("content/p1/c1", "content", true).unwrap();
    assert_eq!(item.id, "index");
    assert_eq!(item.path, "p1/c1/index.md");
    assert_eq!(item.format, InputFormat::Markdown);
    let nb = index_helper("content/p1/c1", "content", false).unwrap();
    assert_eq!(nb.path, "p1/c1/index.ipynb");
    assert_eq!(nb.format, InputFormat::Notebook);
    assert!(index_helper("elsewhere/c1", "content", true).is_err());
}

#[test]
fn path_helpers_join_and_strip() {
    assert_eq!(join_path("a/b", "c.md"), "a/b/c.md");
    assert_eq!(join_path("", "c.md"), "c.md");
    assert_eq!(strip_prefix("a/b/c.md", "a"), Ok("b/c.md".to_string()));
    assert_eq!(strip_prefix("a/b", "a/b"), Ok(String::new()));
    assert_eq!(
        strip_prefix("x/y", "a"),
        Err(ProjectError::OutsideContentDir)
    );
}
