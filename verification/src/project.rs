//! The project tree: parts, chapters and documents, with the pre-order
//! flatten / rebuild protocol and whole-tree transforms.
//!
//! A project owns an ordered list of parts and a root index document; a
//! part owns an ordered list of chapters and an index document; a chapter
//! owns an ordered list of documents, an index document and a list of
//! auxiliary file paths. Flattening emits one tagged entry per document in
//! pre-order; rebuilding groups a tagged sequence back into the tree, and
//! is proved to be the exact inverse of flattening.

use vstd::prelude::*;
use vstd::string::*;
use crate::formats::InputFormat;
use crate::text::str_eq;
use crate::text::substring;

verus! {

broadcast use vstd::string::group_string_axioms;

/// A document of the tree. `content` changes type as documents move
/// through the pipeline (raw path, loaded text, parsed document, output).
#[derive(Debug, Clone, PartialEq, Eq)]
pub struct Item<C> {
    /// Document id (file name without its extension).
    pub id: String,
    /// Source format of the document.
    pub format: InputFormat,
    /// Location, relative to the content root.
    pub path: String,
    /// The document itself.
    pub content: C,
}

/// A chapter: an index document, its documents and its auxiliary files.
#[derive(Debug, Clone, PartialEq, Eq)]
pub struct Chapter<C> {
    /// Chapter id (directory name).
    pub id: String,
    /// Index document of the chapter.
    pub index: Item<C>,
    /// The chapter's documents, in order.
    pub documents: Vec<Item<C>>,
    /// Paths of non-document files in the chapter directory.
    pub files: Vec<String>,
}

/// A part: an index document and its chapters.
#[derive(Debug, Clone, PartialEq, Eq)]
pub struct Part<C> {
    /// Part id (directory name).
    pub id: String,
    /// Index document of the part.
    pub index: Item<C>,
    /// The part's chapters, in order.
    pub chapters: Vec<Chapter<C>>,
}

/// A whole project: the root index document and the parts.
#[derive(Debug, Clone, PartialEq, Eq)]
pub struct Project<C> {
    /// Directory the project was read from.
    pub project_path: String,
    /// Root index document.
    pub index: Item<C>,
    /// The parts, in order.
    pub content: Vec<Part<C>>,
}

/// One entry of a flattened project: a document together with the
/// positional tags that place it in the tree. `part_idx == Some(0)` marks
/// the project root index; `chapter_idx == Some(0)` marks a part's index;
/// any larger `chapter_idx` marks a chapter's index followed by its
/// documents, which all carry the chapter's file list.
#[derive(Debug, Clone, PartialEq, Eq)]
pub struct ProjectItem<C> {
    pub part_id: Option<String>,
    pub chapter_id: Option<String>,
    pub part_idx: Option<usize>,
    pub chapter_idx: Option<usize>,
    pub doc: Item<C>,
    pub files: Option<Vec<String>>,
    /// The project's own path, carried on the root entry so that a
    /// rebuild restores the whole tree.
    pub project_path: Option<String>,
}

// ------------------------------------------------------------------
// Mathematical models of the tree and of flattened entries.
// ------------------------------------------------------------------

#[verifier::ext_equal]
pub struct ItemModel<C> {
    pub id: Seq<char>,
    pub format: InputFormat,
    pub path: Seq<char>,
    pub content: C,
}

#[verifier::ext_equal]
pub struct ChapterModel<C> {
    pub id: Seq<char>,
    pub index: ItemModel<C>,
    pub documents: Seq<ItemModel<C>>,
    pub files: Seq<Seq<char>>,
}

#[verifier::ext_equal]
pub struct PartModel<C> {
    pub id: Seq<char>,
    pub index: ItemModel<C>,
    pub chapters: Seq<ChapterModel<C>>,
}

#[verifier::ext_equal]
pub struct ProjectModel<C> {
    pub project_path: Seq<char>,
    pub index: ItemModel<C>,
    pub parts: Seq<PartModel<C>>,
}

#[verifier::ext_equal]
pub struct ProjectItemModel<C> {
    pub part_id: Option<Seq<char>>,
    pub chapter_id: Option<Seq<char>>,
    pub part_idx: Option<int>,
    pub chapter_idx: Option<int>,
    pub doc: ItemModel<C>,
    pub files: Option<Seq<Seq<char>>>,
    pub project_path: Option<Seq<char>>,
}

impl<C> View for Item<C> {
    type V = ItemModel<C>;

    open spec fn view(&self) -> ItemModel<C> {
        ItemModel { id: self.id@, format: self.format, path: self.path@, content: self.content }
    }
}

impl<C> View for Chapter<C> {
    type V = ChapterModel<C>;

    open spec fn view(&self) -> ChapterModel<C> {
        ChapterModel {
            id: self.id@,
            index: self.index@,
            documents: self.documents@.map_values(|d: Item<C>| d@),
            files: self.files@.map_values(|f: String| f@),
        }
    }
}

impl<C> View for Part<C> {
    type V = PartModel<C>;

    open spec fn view(&self) -> PartModel<C> {
        PartModel {
            id: self.id@,
            index: self.index@,
            chapters: self.chapters@.map_values(|c: Chapter<C>| c@),
        }
    }
}

impl<C> View for Project<C> {
    type V = ProjectModel<C>;

    open spec fn view(&self) -> ProjectModel<C> {
        ProjectModel {
            project_path: self.project_path@,
            index: self.index@,
            parts: self.content@.map_values(|p: Part<C>| p@),
        }
    }
}

impl<C> View for ProjectItem<C> {
    type V = ProjectItemModel<C>;

    open spec fn view(&self) -> ProjectItemModel<C> {
        ProjectItemModel {
            part_id: match self.part_id {
                Some(ref s) => Some(s@),
                None => None,
            },
            chapter_id: match self.chapter_id {
                Some(ref s) => Some(s@),
                None => None,
            },
            part_idx: match self.part_idx {
                Some(i) => Some(i as int),
                None => None,
            },
            chapter_idx: match self.chapter_idx {
                Some(i) => Some(i as int),
                None => None,
            },
            doc: self.doc@,
            files: match self.files {
                Some(ref v) => Some(v@.map_values(|f: String| f@)),
                None => None,
            },
            project_path: match self.project_path {
                Some(ref p) => Some(p@),
                None => None,
            },
        }
    }
}

// ------------------------------------------------------------------
// The flattened form, at the model level.
// ------------------------------------------------------------------

pub open spec fn root_entry<C>(project_path: Seq<char>, index: ItemModel<C>) -> ProjectItemModel<C> {
    ProjectItemModel {
        part_id: None,
        chapter_id: None,
        part_idx: Some(0int),
        chapter_idx: None,
        doc: index,
        files: None,
        project_path: Some(project_path),
    }
}

pub open spec fn part_entry<C>(part: PartModel<C>, p_idx: int) -> ProjectItemModel<C> {
    ProjectItemModel {
        part_id: Some(part.id),
        chapter_id: None,
        part_idx: Some(p_idx),
        chapter_idx: Some(0int),
        doc: part.index,
        files: None,
        project_path: None,
    }
}

pub open spec fn chapter_entry<C>(
    ch: ChapterModel<C>,
    part_id: Seq<char>,
    p_idx: int,
    c_idx: int,
) -> ProjectItemModel<C> {
    ProjectItemModel {
        part_id: Some(part_id),
        chapter_id: Some(ch.id),
        part_idx: Some(p_idx),
        chapter_idx: Some(c_idx),
        doc: ch.index,
        files: Some(ch.files),
        project_path: None,
    }
}

pub open spec fn doc_entry<C>(
    doc: ItemModel<C>,
    ch: ChapterModel<C>,
    part_id: Seq<char>,
    p_idx: int,
    c_idx: int,
) -> ProjectItemModel<C> {
    ProjectItemModel {
        part_id: Some(part_id),
        chapter_id: Some(ch.id),
        part_idx: Some(p_idx),
        chapter_idx: Some(c_idx),
        doc: doc,
        files: Some(ch.files),
        project_path: None,
    }
}

pub open spec fn doc_entries<C>(
    docs: Seq<ItemModel<C>>,
    ch: ChapterModel<C>,
    part_id: Seq<char>,
    p_idx: int,
    c_idx: int,
) -> Seq<ProjectItemModel<C>> {
    docs.map_values(|d: ItemModel<C>| doc_entry(d, ch, part_id, p_idx, c_idx))
}

pub open spec fn chapter_entries<C>(
    ch: ChapterModel<C>,
    part_id: Seq<char>,
    p_idx: int,
    c_idx: int,
) -> Seq<ProjectItemModel<C>> {
    seq![chapter_entry(ch, part_id, p_idx, c_idx)] + doc_entries(
        ch.documents,
        ch,
        part_id,
        p_idx,
        c_idx,
    )
}

pub open spec fn chapters_entries<C>(
    chapters: Seq<ChapterModel<C>>,
    part_id: Seq<char>,
    p_idx: int,
    c_idx: int,
) -> Seq<ProjectItemModel<C>>
    decreases chapters.len(),
{
    if chapters.len() == 0 {
        Seq::empty()
    } else {
        chapter_entries(chapters[0], part_id, p_idx, c_idx) + chapters_entries(
            chapters.drop_first(),
            part_id,
            p_idx,
            c_idx + 1,
        )
    }
}

pub open spec fn part_entries<C>(part: PartModel<C>, p_idx: int) -> Seq<ProjectItemModel<C>> {
    seq![part_entry(part, p_idx)] + chapters_entries(part.chapters, part.id, p_idx, 1)
}

pub open spec fn parts_entries<C>(parts: Seq<PartModel<C>>, p_idx: int) -> Seq<
    ProjectItemModel<C>,
>
    decreases parts.len(),
{
    if parts.len() == 0 {
        Seq::empty()
    } else {
        part_entries(parts[0], p_idx) + parts_entries(parts.drop_first(), p_idx + 1)
    }
}

/// The pre-order flattening of a project: the root index, then each part's
/// index followed by its chapters, each chapter's index followed by its
/// documents.
pub open spec fn flatten_model<C>(p: ProjectModel<C>) -> Seq<ProjectItemModel<C>> {
    seq![root_entry(p.project_path, p.index)] + parts_entries(p.parts, 1)
}

/// The models of the entries of `v`.
pub open spec fn entry_models<C>(v: Seq<ProjectItem<C>>) -> Seq<ProjectItemModel<C>> {
    v.map_values(|e: ProjectItem<C>| e@)
}

/// Copy a list of path strings.
fn clone_strings(v: &Vec<String>) -> (r: Vec<String>)
    ensures
        r@ == v@,
{
    let mut r: Vec<String> = Vec::new();
    let mut i: usize = 0;
    while i < v.len()
        invariant
            i <= v@.len(),
            r@ == v@.subrange(0, i as int),
        decreases v@.len() - i,
    {
        r.push(v[i].clone());
        proof {
            assert(r@ =~= v@.subrange(0, i + 1));
        }
        i += 1;
    }
    proof {
        assert(r@ =~= v@);
    }
    r
}

impl<C> Project<C> {
    /// Flatten the tree into its tagged pre-order entry sequence.
    pub fn flatten(self) -> (out: Vec<ProjectItem<C>>)
        ensures
            entry_models(out@) == flatten_model(self@),
    {
        let ghost target = flatten_model(self@);
        let Project { project_path, index, content } = self;
        let mut out: Vec<ProjectItem<C>> = Vec::new();
        out.push(
            ProjectItem {
                part_id: None,
                chapter_id: None,
                part_idx: Some(0),
                chapter_idx: None,
                doc: index,
                files: None,
                project_path: Some(project_path),
            },
        );
        let mut parts = content;
        let plen = parts.len();
        proof {
            assert(entry_models(out@) + parts_entries(
                parts@.map_values(|p: Part<C>| p@),
                1int,
            ) =~= target);
        }
        while parts.len() > 0
            invariant
                parts@.len() <= plen,
                entry_models(out@) + parts_entries(
                    parts@.map_values(|p: Part<C>| p@),
                    plen - parts@.len() + 1,
                ) == target,
            decreases parts@.len(),
        {
            let ghost parts_m0 = parts@.map_values(|p: Part<C>| p@);
            let ghost p_idx_g = plen - parts@.len() + 1;
            let part = parts.remove(0);
            let p_idx = plen - parts.len();
            proof {
                assert(parts@.map_values(|p: Part<C>| p@) =~= parts_m0.drop_first());
                assert(parts_entries(parts_m0, p_idx_g) == part_entries(part@, p_idx_g)
                    + parts_entries(parts_m0.drop_first(), p_idx_g + 1));
            }
            let ghost part_m = part@;
            let Part { id: part_id, index: part_index, chapters } = part;
            out.push(
                ProjectItem {
                    part_id: Some(part_id.clone()),
                    chapter_id: None,
                    part_idx: Some(p_idx),
                    chapter_idx: Some(0),
                    doc: part_index,
                    files: None,
                    project_path: None,
                },
            );
            proof {
                assert(out@.last()@ =~= part_entry(part_m, p_idx as int));
                assert(entry_models(out@) =~= entry_models(out@.drop_last()).push(
                    part_entry(part_m, p_idx as int),
                ));
                assert(entry_models(out@) + (chapters_entries(
                    chapters@.map_values(|c: Chapter<C>| c@),
                    part_m.id,
                    p_idx as int,
                    1int,
                ) + parts_entries(parts@.map_values(|p: Part<C>| p@), p_idx + 1)) =~= target);
            }
            let mut chapters = chapters;
            let clen = chapters.len();
            while chapters.len() > 0
                invariant
                    chapters@.len() <= clen,
                    entry_models(out@) + (chapters_entries(
                        chapters@.map_values(|c: Chapter<C>| c@),
                        part_m.id,
                        p_idx as int,
                        clen - chapters@.len() + 1,
                    ) + parts_entries(
                        parts@.map_values(|p: Part<C>| p@),
                        p_idx + 1,
                    )) == target,
                    part_id@ == part_m.id,
                decreases chapters@.len(),
            {
                let ghost chs_m0 = chapters@.map_values(|c: Chapter<C>| c@);
                let ghost c_idx_g = clen - chapters@.len() + 1;
                let ch = chapters.remove(0);
                let c_idx = clen - chapters.len();
                proof {
                    assert(chapters@.map_values(|c: Chapter<C>| c@) =~= chs_m0.drop_first());
                    assert(chapters_entries(chs_m0, part_m.id, p_idx as int, c_idx_g)
                        == chapter_entries(ch@, part_m.id, p_idx as int, c_idx_g)
                        + chapters_entries(
                        chs_m0.drop_first(),
                        part_m.id,
                        p_idx as int,
                        c_idx_g + 1,
                    ));
                }
                let ghost ch_m = ch@;
                let Chapter { id: ch_id, index: ch_index, documents, files } = ch;
                out.push(
                    ProjectItem {
                        part_id: Some(part_id.clone()),
                        chapter_id: Some(ch_id.clone()),
                        part_idx: Some(p_idx),
                        chapter_idx: Some(c_idx),
                        doc: ch_index,
                        files: Some(clone_strings(&files)),
                        project_path: None,
                    },
                );
                proof {
                    assert(out@.last()@ =~= chapter_entry(ch_m, part_m.id, p_idx as int, c_idx as int));
                    assert(entry_models(out@) =~= entry_models(out@.drop_last()).push(
                        chapter_entry(ch_m, part_m.id, p_idx as int, c_idx as int),
                    ));
                    assert(entry_models(out@) + (doc_entries(
                        documents@.map_values(|d: Item<C>| d@),
                        ch_m,
                        part_m.id,
                        p_idx as int,
                        c_idx as int,
                    ) + (chapters_entries(
                        chapters@.map_values(|c: Chapter<C>| c@),
                        part_m.id,
                        p_idx as int,
                        c_idx + 1,
                    ) + parts_entries(
                        parts@.map_values(|p: Part<C>| p@),
                        p_idx + 1,
                    ))) =~= target);
                }
                let mut docs = documents;
                while docs.len() > 0
                    invariant
                        entry_models(out@) + (doc_entries(
                            docs@.map_values(|d: Item<C>| d@),
                            ch_m,
                            part_m.id,
                            p_idx as int,
                            c_idx as int,
                        ) + (chapters_entries(
                            chapters@.map_values(|c: Chapter<C>| c@),
                            part_m.id,
                            p_idx as int,
                            c_idx + 1,
                        ) + parts_entries(
                            parts@.map_values(|p: Part<C>| p@),
                            p_idx + 1,
                        ))) == target,
                        part_id@ == part_m.id,
                        ch_id@ == ch_m.id,
                        files@.map_values(|f: String| f@) == ch_m.files,
                    decreases docs@.len(),
                {
                    let ghost docs_m0 = docs@.map_values(|d: Item<C>| d@);
                    let d = docs.remove(0);
                    out.push(
                        ProjectItem {
                            part_id: Some(part_id.clone()),
                            chapter_id: Some(ch_id.clone()),
                            part_idx: Some(p_idx),
                            chapter_idx: Some(c_idx),
                            doc: d,
                            files: Some(clone_strings(&files)),
                            project_path: None,
                        },
                    );
                    proof {
                        assert(docs@.map_values(|dd: Item<C>| dd@) =~= docs_m0.drop_first());
                        assert(doc_entries(docs_m0, ch_m, part_m.id, p_idx as int, c_idx as int)
                            =~= seq![
                            doc_entry(docs_m0[0], ch_m, part_m.id, p_idx as int, c_idx as int),
                        ] + doc_entries(
                            docs_m0.drop_first(),
                            ch_m,
                            part_m.id,
                            p_idx as int,
                            c_idx as int,
                        ));
                        assert(out@.last()@ =~= doc_entry(
                            docs_m0[0],
                            ch_m,
                            part_m.id,
                            p_idx as int,
                            c_idx as int,
                        ));
                        assert(entry_models(out@) =~= entry_models(out@.drop_last()).push(
                            doc_entry(docs_m0[0], ch_m, part_m.id, p_idx as int, c_idx as int),
                        ));
                        assert(entry_models(out@) + (doc_entries(
                            docs@.map_values(|dd: Item<C>| dd@),
                            ch_m,
                            part_m.id,
                            p_idx as int,
                            c_idx as int,
                        ) + (chapters_entries(
                            chapters@.map_values(|c: Chapter<C>| c@),
                            part_m.id,
                            p_idx as int,
                            c_idx + 1,
                        ) + parts_entries(
                            parts@.map_values(|p: Part<C>| p@),
                            p_idx + 1,
                        ))) =~= target);
                    }
                }
            }
        }
        proof {
            assert(entry_models(out@) =~= target);
        }
        out
    }
}

// ------------------------------------------------------------------
// Rebuilding a tree from its flattened entry sequence.
// ------------------------------------------------------------------

/// State of the rebuild fold: the root index and parts gathered so far,
/// and the chapter tag of the most recently opened chapter.
#[verifier::ext_equal]
pub struct RebuildState<C> {
    pub project_path: Seq<char>,
    pub index: ItemModel<C>,
    pub parts: Seq<PartModel<C>>,
    pub last_chapter: int,
}

pub open spec fn init_state<C>(index: ItemModel<C>) -> RebuildState<C> {
    RebuildState { project_path: Seq::empty(), index: index, parts: Seq::empty(), last_chapter: 0 }
}

/// The fields that one rebuild step reads from an entry must be present,
/// and a document entry must have its chapter already open.
pub open spec fn step_ok<C>(st: RebuildState<C>, e: ProjectItemModel<C>) -> bool {
    match e.part_idx {
        None => false,
        Some(p) => p == 0 || {
            &&& e.part_id is Some
            &&& match e.chapter_idx {
                None => false,
                Some(c) => c == 0 || {
                    &&& e.chapter_id is Some
                    &&& e.files is Some
                    &&& st.parts.len() > 0
                    &&& (st.last_chapter == c ==> st.parts.last().chapters.len() > 0)
                },
            }
        },
    }
}

/// One rebuild step: the root tag replaces the index; a part tag opens a
/// part; a fresh chapter tag opens a chapter; a repeated chapter tag
/// appends the document to the open chapter.
pub open spec fn rebuild_step<C>(st: RebuildState<C>, e: ProjectItemModel<C>) -> RebuildState<
    C,
> {
    if e.part_idx == Some(0int) {
        RebuildState {
            project_path: match e.project_path {
                Some(p) => p,
                None => st.project_path,
            },
            index: e.doc,
            parts: st.parts,
            last_chapter: st.last_chapter,
        }
    } else if e.chapter_idx == Some(0int) {
        RebuildState {
            project_path: st.project_path,
            index: st.index,
            parts: st.parts.push(
                PartModel { id: e.part_id->0, index: e.doc, chapters: Seq::empty() },
            ),
            last_chapter: 0,
        }
    } else if e.chapter_idx == Some(st.last_chapter) {
        let part = st.parts.last();
        let ch = part.chapters.last();
        let ch2 = ChapterModel {
            id: ch.id,
            index: ch.index,
            documents: ch.documents.push(e.doc),
            files: ch.files,
        };
        let part2 = PartModel {
            id: part.id,
            index: part.index,
            chapters: part.chapters.update(part.chapters.len() - 1, ch2),
        };
        RebuildState {
            project_path: st.project_path,
            index: st.index,
            parts: st.parts.update(st.parts.len() - 1, part2),
            last_chapter: st.last_chapter,
        }
    } else {
        let part = st.parts.last();
        let ch = ChapterModel {
            id: e.chapter_id->0,
            index: e.doc,
            documents: Seq::empty(),
            files: e.files->0,
        };
        let part2 = PartModel {
            id: part.id,
            index: part.index,
            chapters: part.chapters.push(ch),
        };
        RebuildState {
            project_path: st.project_path,
            index: st.index,
            parts: st.parts.update(st.parts.len() - 1, part2),
            last_chapter: e.chapter_idx->0,
        }
    }
}

/// Every step of the fold over `entries` starting at `st` is permitted.
pub open spec fn rebuild_ok<C>(entries: Seq<ProjectItemModel<C>>, st: RebuildState<C>) -> bool
    decreases entries.len(),
{
    entries.len() == 0 || {
        &&& step_ok(st, entries[0])
        &&& rebuild_ok(entries.drop_first(), rebuild_step(st, entries[0]))
    }
}

/// The state after folding all of `entries` from `st`.
pub open spec fn rebuild_fold<C>(entries: Seq<ProjectItemModel<C>>, st: RebuildState<C>) -> RebuildState<C>
    decreases entries.len(),
{
    if entries.len() == 0 {
        st
    } else {
        rebuild_fold(entries.drop_first(), rebuild_step(st, entries[0]))
    }
}

impl<C> Project<C> {
    /// Rebuild a tree from its flattened entry sequence. The sequence must
    /// start with the root entry and every entry must fit the state the
    /// entries before it produced, which holds of every flattened tree.
    pub fn from_iter(entries: Vec<ProjectItem<C>>) -> (r: Project<C>)
        requires
            entry_models(entries@).len() >= 1,
            entry_models(entries@)[0].part_idx == Some(0int),
            rebuild_ok(entry_models(entries@), init_state(entry_models(entries@)[0].doc)),
        ensures
            ({
                let f = rebuild_fold(
                    entry_models(entries@),
                    init_state(entry_models(entries@)[0].doc),
                );
                r.project_path@ == f.project_path && r@.index == f.index && r@.parts == f.parts
            }),
    {
        let ghost all = entry_models(entries@);
        let ghost st0 = init_state(all[0].doc);
        let mut entries = entries;
        let first = entries.remove(0);
        let mut index = first.doc;
        let mut project_path = match first.project_path {
            Some(p) => p,
            None => String::new(),
        };
        let mut parts: Vec<Part<C>> = Vec::new();
        let mut last_chapter: usize = 0;
        proof {
            assert(entry_models(entries@) =~= all.drop_first());
            assert(rebuild_step(st0, all[0]) =~~= RebuildState {
                project_path: project_path@,
                index: index@,
                parts: parts@.map_values(|p: Part<C>| p@),
                last_chapter: last_chapter as int,
            });
        }
        while entries.len() > 0
            invariant
                rebuild_ok(
                    entry_models(entries@),
                    RebuildState {
                        project_path: project_path@,
                        index: index@,
                        parts: parts@.map_values(|p: Part<C>| p@),
                        last_chapter: last_chapter as int,
                    },
                ),
                rebuild_fold(all, st0) == rebuild_fold(
                    entry_models(entries@),
                    RebuildState {
                        project_path: project_path@,
                        index: index@,
                        parts: parts@.map_values(|p: Part<C>| p@),
                        last_chapter: last_chapter as int,
                    },
                ),
            decreases entries@.len(),
        {
            let ghost rem0 = entry_models(entries@);
            let ghost st_g = RebuildState {
                project_path: project_path@,
                index: index@,
                parts: parts@.map_values(|p: Part<C>| p@),
                last_chapter: last_chapter as int,
            };
            let e = entries.remove(0);
            proof {
                assert(entry_models(entries@) =~= rem0.drop_first());
                assert(step_ok(st_g, e@));
            }
            let ProjectItem { part_id, chapter_id, part_idx, chapter_idx, doc, files, project_path: entry_path } = e;
            let p_idx = match part_idx {
                Some(p) => p,
                None => vstd::pervasive::unreached(),
            };
            if p_idx == 0 {
                index = doc;
                match entry_path {
                    Some(p) => {
                        project_path = p;
                    },
                    None => {},
                }
            } else {
                let c_idx = match chapter_idx {
                    Some(c) => c,
                    None => vstd::pervasive::unreached(),
                };
                if c_idx == 0 {
                    let pid = match part_id {
                        Some(s) => s,
                        None => vstd::pervasive::unreached(),
                    };
                    parts.push(Part { id: pid, index: doc, chapters: Vec::new() });
                    last_chapter = 0;
                    proof {
                        assert(parts@.map_values(|p: Part<C>| p@) =~= st_g.parts.push(
                            parts@.last()@,
                        ));
                        assert(parts@.last()@ =~~= PartModel {
                            id: e@.part_id->0,
                            index: e@.doc,
                            chapters: Seq::empty(),
                        });
                    }
                } else if c_idx == last_chapter {
                    let mut part = match parts.pop() {
                        Some(p) => p,
                        None => vstd::pervasive::unreached(),
                    };
                    let mut ch = match part.chapters.pop() {
                        Some(c) => c,
                        None => vstd::pervasive::unreached(),
                    };
                    ch.documents.push(doc);
                    part.chapters.push(ch);
                    parts.push(part);
                    proof {
                        let st2 = rebuild_step(st_g, e@);
                        assert(parts@.last()@.chapters =~= st_g.parts.last().chapters.update(
                            st_g.parts.last().chapters.len() - 1,
                            parts@.last()@.chapters.last(),
                        ));
                        assert(parts@.last()@.chapters.last().documents =~= st_g.parts.last().chapters.last().documents.push(
                            e@.doc,
                        ));
                        assert(parts@.last()@.chapters.last() =~~= st2.parts.last().chapters.last());
                        assert(parts@.last()@ =~~= st2.parts.last());
                        assert(parts@.map_values(|p: Part<C>| p@) =~~= st2.parts);
                    }
                } else {
                    let cid = match chapter_id {
                        Some(s) => s,
                        None => vstd::pervasive::unreached(),
                    };
                    let fs = match files {
                        Some(f) => f,
                        None => vstd::pervasive::unreached(),
                    };
                    let mut part = match parts.pop() {
                        Some(p) => p,
                        None => vstd::pervasive::unreached(),
                    };
                    part.chapters.push(
                        Chapter { id: cid, index: doc, documents: Vec::new(), files: fs },
                    );
                    parts.push(part);
                    last_chapter = c_idx;
                    proof {
                        let st2 = rebuild_step(st_g, e@);
                        assert(parts@.last()@.chapters =~= st_g.parts.last().chapters.push(
                            parts@.last()@.chapters.last(),
                        ));
                        assert(parts@.last()@.chapters.last() =~~= st2.parts.last().chapters.last());
                        assert(parts@.last()@ =~~= st2.parts.last());
                        assert(parts@.map_values(|p: Part<C>| p@) =~~= st2.parts);
                    }
                }
            }
            proof {
                assert(RebuildState {
                    project_path: project_path@,
                    index: index@,
                    parts: parts@.map_values(|p: Part<C>| p@),
                    last_chapter: last_chapter as int,
                } =~~= rebuild_step(st_g, e@));
            }
        }
        let r = Project { project_path: project_path, index: index, content: parts };
        proof {
            assert(r@.parts =~= parts@.map_values(|p: Part<C>| p@));
        }
        r
    }
}

// ------------------------------------------------------------------
// The round-trip law: rebuilding a flattened tree yields the tree.
// ------------------------------------------------------------------

proof fn lemma_fold_concat<C>(
    s1: Seq<ProjectItemModel<C>>,
    s2: Seq<ProjectItemModel<C>>,
    st: RebuildState<C>,
)
    ensures
        rebuild_fold(s1 + s2, st) == rebuild_fold(s2, rebuild_fold(s1, st)),
        rebuild_ok(s1 + s2, st) <==> (rebuild_ok(s1, st) && rebuild_ok(
            s2,
            rebuild_fold(s1, st),
        )),
    decreases s1.len(),
{
    if s1.len() == 0 {
        assert(s1 + s2 =~= s2);
    } else {
        assert((s1 + s2)[0] == s1[0]);
        assert((s1 + s2).drop_first() =~= s1.drop_first() + s2);
        lemma_fold_concat(s1.drop_first(), s2, rebuild_step(st, s1[0]));
    }
}

proof fn lemma_fold_one<C>(e: ProjectItemModel<C>, st: RebuildState<C>)
    ensures
        rebuild_fold(seq![e], st) == rebuild_step(st, e),
        rebuild_ok(seq![e], st) == step_ok(st, e),
{
    assert(seq![e][0] == e);
    assert(seq![e].drop_first() =~= Seq::<ProjectItemModel<C>>::empty());
    assert(rebuild_fold(Seq::<ProjectItemModel<C>>::empty(), rebuild_step(st, e))
        == rebuild_step(st, e));
    assert(rebuild_ok(Seq::<ProjectItemModel<C>>::empty(), rebuild_step(st, e)));
}

proof fn lemma_fold_docs<C>(
    docs: Seq<ItemModel<C>>,
    ch: ChapterModel<C>,
    part_id: Seq<char>,
    p_idx: int,
    c_idx: int,
    st: RebuildState<C>,
)
    requires
        st.parts.len() > 0,
        st.parts.last().chapters.len() > 0,
        st.last_chapter == c_idx,
        c_idx >= 1,
        p_idx >= 1,
    ensures
        rebuild_ok(doc_entries(docs, ch, part_id, p_idx, c_idx), st),
        ({
            let f = rebuild_fold(doc_entries(docs, ch, part_id, p_idx, c_idx), st);
            let part0 = st.parts.last();
            let ch0 = part0.chapters.last();
            f == RebuildState {
                project_path: st.project_path,
                index: st.index,
                parts: st.parts.update(
                    st.parts.len() - 1,
                    PartModel {
                        id: part0.id,
                        index: part0.index,
                        chapters: part0.chapters.update(
                            part0.chapters.len() - 1,
                            ChapterModel {
                                id: ch0.id,
                                index: ch0.index,
                                documents: ch0.documents + docs,
                                files: ch0.files,
                            },
                        ),
                    },
                ),
                last_chapter: st.last_chapter,
            }
        }),
    decreases docs.len(),
{
    let entries = doc_entries(docs, ch, part_id, p_idx, c_idx);
    let part0 = st.parts.last();
    let ch0 = part0.chapters.last();
    if docs.len() == 0 {
        assert(entries.len() == 0);
        assert(ch0.documents + docs =~= ch0.documents);
        assert(ChapterModel {
            id: ch0.id,
            index: ch0.index,
            documents: ch0.documents + docs,
            files: ch0.files,
        } =~~= ch0);
        assert(part0.chapters.update(part0.chapters.len() - 1, ch0) =~= part0.chapters);
        assert(PartModel { id: part0.id, index: part0.index, chapters: part0.chapters } =~~= part0);
        assert(st.parts.update(st.parts.len() - 1, part0) =~= st.parts);
        assert(rebuild_fold(entries, st) =~~= RebuildState {
            project_path: st.project_path,
            index: st.index,
            parts: st.parts.update(
                st.parts.len() - 1,
                PartModel {
                    id: part0.id,
                    index: part0.index,
                    chapters: part0.chapters.update(
                        part0.chapters.len() - 1,
                        ChapterModel {
                            id: ch0.id,
                            index: ch0.index,
                            documents: ch0.documents + docs,
                            files: ch0.files,
                        },
                    ),
                },
            ),
            last_chapter: st.last_chapter,
        });
    } else {
        let e = doc_entry(docs[0], ch, part_id, p_idx, c_idx);
        assert(entries[0] == e);
        assert(step_ok(st, e));
        let st2 = rebuild_step(st, e);
        assert(entries.drop_first() =~= doc_entries(
            docs.drop_first(),
            ch,
            part_id,
            p_idx,
            c_idx,
        ));
        lemma_fold_docs(docs.drop_first(), ch, part_id, p_idx, c_idx, st2);
        let part1 = st2.parts.last();
        let ch1 = part1.chapters.last();
        assert(part1.id == part0.id && part1.index == part0.index);
        assert(ch1.documents =~= ch0.documents.push(docs[0]));
        assert(ch1.documents + docs.drop_first() =~= ch0.documents + docs);
        let f = rebuild_fold(entries, st);
        assert(f.parts =~= st.parts.update(
            st.parts.len() - 1,
            PartModel {
                id: part0.id,
                index: part0.index,
                chapters: part0.chapters.update(
                    part0.chapters.len() - 1,
                    ChapterModel {
                        id: ch0.id,
                        index: ch0.index,
                        documents: ch0.documents + docs,
                        files: ch0.files,
                    },
                ),
            },
        )) by {
            assert(ch1.documents + docs.drop_first() =~= ch0.documents + docs);
            assert(part1.chapters =~= part0.chapters.update(
                part0.chapters.len() - 1,
                ch1,
            ));
            assert(st2.parts =~= st.parts.update(st.parts.len() - 1, part1));
            assert(part1.chapters.update(
                part1.chapters.len() - 1,
                ChapterModel {
                    id: ch1.id,
                    index: ch1.index,
                    documents: ch1.documents + docs.drop_first(),
                    files: ch1.files,
                },
            ) =~~= part0.chapters.update(
                part0.chapters.len() - 1,
                ChapterModel {
                    id: ch0.id,
                    index: ch0.index,
                    documents: ch0.documents + docs,
                    files: ch0.files,
                },
            ));
            assert(st2.parts.update(
                st2.parts.len() - 1,
                PartModel {
                    id: part1.id,
                    index: part1.index,
                    chapters: part1.chapters.update(
                        part1.chapters.len() - 1,
                        ChapterModel {
                            id: ch1.id,
                            index: ch1.index,
                            documents: ch1.documents + docs.drop_first(),
                            files: ch1.files,
                        },
                    ),
                },
            ) =~~= st.parts.update(
                st.parts.len() - 1,
                PartModel {
                    id: part0.id,
                    index: part0.index,
                    chapters: part0.chapters.update(
                        part0.chapters.len() - 1,
                        ChapterModel {
                            id: ch0.id,
                            index: ch0.index,
                            documents: ch0.documents + docs,
                            files: ch0.files,
                        },
                    ),
                },
            ));
        }
    }
}

proof fn lemma_fold_chapter<C>(
    ch: ChapterModel<C>,
    part_id: Seq<char>,
    p_idx: int,
    c_idx: int,
    st: RebuildState<C>,
)
    requires
        st.parts.len() > 0,
        st.last_chapter != c_idx,
        c_idx >= 1,
        p_idx >= 1,
    ensures
        rebuild_ok(chapter_entries(ch, part_id, p_idx, c_idx), st),
        ({
            let f = rebuild_fold(chapter_entries(ch, part_id, p_idx, c_idx), st);
            let part0 = st.parts.last();
            f == RebuildState {
                project_path: st.project_path,
                index: st.index,
                parts: st.parts.update(
                    st.parts.len() - 1,
                    PartModel {
                        id: part0.id,
                        index: part0.index,
                        chapters: part0.chapters.push(ch),
                    },
                ),
                last_chapter: c_idx,
            }
        }),
{
    let e = chapter_entry(ch, part_id, p_idx, c_idx);
    let docs = doc_entries(ch.documents, ch, part_id, p_idx, c_idx);
    let part0 = st.parts.last();
    assert(chapter_entries(ch, part_id, p_idx, c_idx) == seq![e] + docs);
    lemma_fold_concat(seq![e], docs, st);
    lemma_fold_one(e, st);
    assert(step_ok(st, e));
    let st2 = rebuild_step(st, e);
    assert(st2.parts.last().chapters.len() > 0);
    lemma_fold_docs(ch.documents, ch, part_id, p_idx, c_idx, st2);
    let f = rebuild_fold(chapter_entries(ch, part_id, p_idx, c_idx), st);
    let part1 = st2.parts.last();
    let ch1 = part1.chapters.last();
    assert(ch1 == ChapterModel {
        id: ch.id,
        index: ch.index,
        documents: Seq::empty(),
        files: ch.files,
    });
    assert(ChapterModel {
        id: ch1.id,
        index: ch1.index,
        documents: ch1.documents + ch.documents,
        files: ch1.files,
    } =~~= ch);
    assert(part1.chapters.update(part1.chapters.len() - 1, ch) =~= part0.chapters.push(ch));
    assert(st2.parts.update(
        st2.parts.len() - 1,
        PartModel {
            id: part1.id,
            index: part1.index,
            chapters: part1.chapters.update(part1.chapters.len() - 1, ch),
        },
    ) =~~= st.parts.update(
        st.parts.len() - 1,
        PartModel { id: part0.id, index: part0.index, chapters: part0.chapters.push(ch) },
    ));
    assert(f =~~= RebuildState {
        project_path: st.project_path,
        index: st.index,
        parts: st.parts.update(
            st.parts.len() - 1,
            PartModel { id: part0.id, index: part0.index, chapters: part0.chapters.push(ch) },
        ),
        last_chapter: c_idx,
    });
}

proof fn lemma_fold_chapters<C>(
    chs: Seq<ChapterModel<C>>,
    part_id: Seq<char>,
    p_idx: int,
    c_idx: int,
    st: RebuildState<C>,
)
    requires
        st.parts.len() > 0,
        st.last_chapter < c_idx,
        c_idx >= 1,
        p_idx >= 1,
    ensures
        rebuild_ok(chapters_entries(chs, part_id, p_idx, c_idx), st),
        ({
            let f = rebuild_fold(chapters_entries(chs, part_id, p_idx, c_idx), st);
            let part0 = st.parts.last();
            &&& f.project_path == st.project_path
            &&& f.index == st.index
            &&& f.parts == st.parts.update(
                st.parts.len() - 1,
                PartModel {
                    id: part0.id,
                    index: part0.index,
                    chapters: part0.chapters + chs,
                },
            )
            &&& f.last_chapter < c_idx + chs.len()
        }),
    decreases chs.len(),
{
    let part0 = st.parts.last();
    if chs.len() == 0 {
        assert(part0.chapters + chs =~= part0.chapters);
        assert(PartModel {
            id: part0.id,
            index: part0.index,
            chapters: part0.chapters + chs,
        } =~~= part0);
        assert(st.parts.update(st.parts.len() - 1, part0) =~= st.parts);
        assert(rebuild_fold(chapters_entries(chs, part_id, p_idx, c_idx), st).parts =~= st.parts.update(
            st.parts.len() - 1,
            PartModel { id: part0.id, index: part0.index, chapters: part0.chapters + chs },
        ));
    } else {
        let first = chapter_entries(chs[0], part_id, p_idx, c_idx);
        let rest = chapters_entries(chs.drop_first(), part_id, p_idx, c_idx + 1);
        lemma_fold_concat(first, rest, st);
        lemma_fold_chapter(chs[0], part_id, p_idx, c_idx, st);
        let st2 = rebuild_fold(first, st);
        lemma_fold_chapters(chs.drop_first(), part_id, p_idx, c_idx + 1, st2);
        let part1 = st2.parts.last();
        assert(part1.chapters =~= part0.chapters.push(chs[0]));
        assert(part1.chapters + chs.drop_first() =~= part0.chapters + chs);
        let f = rebuild_fold(chapters_entries(chs, part_id, p_idx, c_idx), st);
        assert(st2.parts.update(
            st2.parts.len() - 1,
            PartModel {
                id: part1.id,
                index: part1.index,
                chapters: part1.chapters + chs.drop_first(),
            },
        ) =~~= st.parts.update(
            st.parts.len() - 1,
            PartModel { id: part0.id, index: part0.index, chapters: part0.chapters + chs },
        ));
    }
}

proof fn lemma_fold_part<C>(part: PartModel<C>, p_idx: int, st: RebuildState<C>)
    requires
        p_idx >= 1,
    ensures
        rebuild_ok(part_entries(part, p_idx), st),
        ({
            let f = rebuild_fold(part_entries(part, p_idx), st);
            f.project_path == st.project_path && f.index == st.index && f.parts
                == st.parts.push(part)
        }),
{
    let e = part_entry(part, p_idx);
    let chs = chapters_entries(part.chapters, part.id, p_idx, 1);
    assert(part_entries(part, p_idx) == seq![e] + chs);
    lemma_fold_concat(seq![e], chs, st);
    lemma_fold_one(e, st);
    assert(step_ok(st, e));
    let st2 = rebuild_step(st, e);
    assert(st2.parts.len() > 0 && st2.last_chapter == 0);
    lemma_fold_chapters(part.chapters, part.id, p_idx, 1, st2);
    let f = rebuild_fold(part_entries(part, p_idx), st);
    let part1 = st2.parts.last();
    assert(part1.chapters =~= Seq::<ChapterModel<C>>::empty());
    assert(part1.chapters + part.chapters =~= part.chapters);
    assert(st2.parts.update(
        st2.parts.len() - 1,
        PartModel {
            id: part1.id,
            index: part1.index,
            chapters: part1.chapters + part.chapters,
        },
    ) =~~= st.parts.push(part));
}

proof fn lemma_fold_parts<C>(parts: Seq<PartModel<C>>, p_idx: int, st: RebuildState<C>)
    requires
        p_idx >= 1,
    ensures
        rebuild_ok(parts_entries(parts, p_idx), st),
        ({
            let f = rebuild_fold(parts_entries(parts, p_idx), st);
            f.project_path == st.project_path && f.index == st.index && f.parts == st.parts
                + parts
        }),
    decreases parts.len(),
{
    if parts.len() == 0 {
        assert(st.parts + parts =~= st.parts);
    } else {
        let first = part_entries(parts[0], p_idx);
        let rest = parts_entries(parts.drop_first(), p_idx + 1);
        lemma_fold_concat(first, rest, st);
        lemma_fold_part(parts[0], p_idx, st);
        let st2 = rebuild_fold(first, st);
        lemma_fold_parts(parts.drop_first(), p_idx + 1, st2);
        assert(st2.parts + parts.drop_first() =~= st.parts + parts);
    }
}

/// The round-trip law: rebuilding the flattened form of any tree, with
/// any number of parts, chapters and documents, yields the same root
/// index and the same parts, in order, with all ids, documents and file
/// lists intact.
pub proof fn lemma_flatten_rebuild<C>(p: ProjectModel<C>)
    ensures
        flatten_model(p).len() >= 1,
        flatten_model(p)[0].part_idx == Some(0int),
        flatten_model(p)[0].doc == p.index,
        rebuild_ok(flatten_model(p), init_state(flatten_model(p)[0].doc)),
        rebuild_fold(flatten_model(p), init_state(flatten_model(p)[0].doc)).project_path
            == p.project_path,
        rebuild_fold(flatten_model(p), init_state(flatten_model(p)[0].doc)).index == p.index,
        rebuild_fold(flatten_model(p), init_state(flatten_model(p)[0].doc)).parts == p.parts,
{
    let root = root_entry(p.project_path, p.index);
    let st0 = init_state(p.index);
    assert(flatten_model(p)[0] == root);
    lemma_fold_concat(seq![root], parts_entries(p.parts, 1), st0);
    lemma_fold_one(root, st0);
    assert(step_ok(st0, root));
    let st1 = rebuild_step(st0, root);
    lemma_fold_parts(p.parts, 1, st1);
    assert(st1.parts + p.parts =~= p.parts);
}

// ------------------------------------------------------------------
// Iteration.
// ------------------------------------------------------------------

/// Iterator over the flattened entries of a project, in pre-order.
pub struct ProjectIterator<C> {
    items: Vec<ProjectItem<C>>,
}

impl<C> ProjectIterator<C> {
    /// Entries not yet returned.
    pub closed spec fn remaining(&self) -> Seq<ProjectItemModel<C>> {
        entry_models(self.items@)
    }

    /// Yield the next entry in pre-order, or nothing when exhausted.
    pub fn next(&mut self) -> (r: Option<ProjectItem<C>>)
        ensures
            old(self).remaining().len() == 0 ==> r is None && final(self).remaining()
                == old(self).remaining(),
            old(self).remaining().len() > 0 ==> (r matches Some(e) && e@ == old(
                self,
            ).remaining()[0] && final(self).remaining() == old(self).remaining().drop_first()),
    {
        if self.items.len() == 0 {
            None
        } else {
            let e = self.items.remove(0);
            proof {
                assert(entry_models(self.items@) =~= entry_models(old(self).items@).drop_first());
            }
            Some(e)
        }
    }
}

impl<C> Project<C> {
    /// Turn the tree into an iterator over its flattened entries.
    pub fn into_iter(self) -> (it: ProjectIterator<C>)
        ensures
            it.remaining() == flatten_model(self@),
    {
        ProjectIterator { items: self.flatten() }
    }
}

// ------------------------------------------------------------------
// Transforms: apply a function to every document, keeping the shape.
// ------------------------------------------------------------------

impl<C> Item<C> {
    /// Apply `f` to the content, keeping id, format and path.
    pub fn map<O, F: Fn(&C) -> O>(self, f: F) -> (r: Item<O>)
        requires
            forall|x: C| #[trigger] call_requires(f, (&x,)),
        ensures
            r.id@ == self.id@,
            r.format == self.format,
            r.path@ == self.path@,
            call_ensures(f, (&self.content,), r.content),
    {
        let Item { id, format, path, content } = self;
        let new_content = f(&content);
        Item { id, format, path, content: new_content }
    }
}

/// The transform relation between a source item and a result item:
/// everything but the content is kept, and the contents are related by a
/// permitted outcome of `f`.
pub open spec fn item_transformed<I, O, F: Fn(&Item<I>) -> O>(
    f: F,
    a: ItemModel<I>,
    r: ItemModel<O>,
    arg: Item<I>,
) -> bool {
    &&& r.id == a.id
    &&& r.format == a.format
    &&& r.path == a.path
    &&& arg@ == a
    &&& call_ensures(f, (&arg,), r.content)
}

/// The transform relation for a whole chapter: id and files are kept,
/// and the index and every document are transformed items.
pub open spec fn chapter_transformed<I, O, F: Fn(&Item<I>) -> O>(
    f: F,
    a: Chapter<I>,
    r: ChapterModel<O>,
) -> bool {
    &&& r.id == a.id@
    &&& r.files == a@.files
    &&& item_transformed(f, a@.index, r.index, a.index)
    &&& r.documents.len() == a.documents@.len()
    &&& forall|i: int|
        0 <= i < a.documents@.len() ==> #[trigger] item_transformed(
            f,
            a@.documents[i],
            r.documents[i],
            a.documents@[i],
        )
}

/// The transform relation for a whole part: the id is kept, and the
/// index and every chapter are transformed.
pub open spec fn part_transformed<I, O, F: Fn(&Item<I>) -> O>(
    f: F,
    a: Part<I>,
    r: PartModel<O>,
) -> bool {
    &&& r.id == a.id@
    &&& item_transformed(f, a@.index, r.index, a.index)
    &&& r.chapters.len() == a.chapters@.len()
    &&& forall|i: int|
        0 <= i < a.chapters@.len() ==> #[trigger] chapter_transformed(
            f,
            a.chapters@[i],
            r.chapters[i],
        )
}

impl<I> Item<I> {
    /// Apply `f` to this item, keeping id, format and path. Unlike `map`,
    /// `f` sees the whole item.
    pub fn transform<O, F: Fn(&Item<I>) -> O>(&self, f: &F) -> (r: Item<O>)
        requires
            forall|x: Item<I>| #[trigger] call_requires(*f, (&x,)),
        ensures
            item_transformed(*f, self@, r@, *self),
    {
        let new_content = f(self);
        Item {
            id: self.id.clone(),
            format: self.format,
            path: self.path.clone(),
            content: new_content,
        }
    }
}

impl<I> Chapter<I> {
    /// Apply `f` to the index and every document of the chapter.
    pub fn transform<O, F: Fn(&Item<I>) -> O>(&self, f: &F) -> (r: Chapter<O>)
        requires
            forall|x: Item<I>| #[trigger] call_requires(*f, (&x,)),
        ensures
            chapter_transformed(*f, *self, r@),
    {
        let index = self.index.transform(f);
        let mut documents: Vec<Item<O>> = Vec::new();
        let mut i: usize = 0;
        while i < self.documents.len()
            invariant
                forall|x: Item<I>| #[trigger] call_requires(*f, (&x,)),
                i <= self.documents@.len(),
                documents@.len() == i,
                forall|j: int|
                    0 <= j < i ==> #[trigger] item_transformed(
                        *f,
                        self@.documents[j],
                        documents@[j]@,
                        self.documents@[j],
                    ),
            decreases self.documents@.len() - i,
        {
            documents.push(self.documents[i].transform(f));
            i += 1;
        }
        Chapter { id: self.id.clone(), index, documents, files: clone_strings(&self.files) }
    }
}

impl<I> Part<I> {
    /// Apply `f` to the index and every document of every chapter.
    pub fn transform<O, F: Fn(&Item<I>) -> O>(&self, f: &F) -> (r: Part<O>)
        requires
            forall|x: Item<I>| #[trigger] call_requires(*f, (&x,)),
        ensures
            part_transformed(*f, *self, r@),
    {
        let index = self.index.transform(f);
        let mut chapters: Vec<Chapter<O>> = Vec::new();
        let mut i: usize = 0;
        while i < self.chapters.len()
            invariant
                forall|x: Item<I>| #[trigger] call_requires(*f, (&x,)),
                i <= self.chapters@.len(),
                chapters@.len() == i,
                forall|j: int|
                    0 <= j < i ==> #[trigger] chapter_transformed(
                        *f,
                        self.chapters@[j],
                        chapters@[j]@,
                    ),
            decreases self.chapters@.len() - i,
        {
            chapters.push(self.chapters[i].transform(f));
            i += 1;
        }
        Part { id: self.id.clone(), index, chapters }
    }
}

impl<I> Project<I> {
    /// Apply `f` to every document of the whole tree; the shape, the ids
    /// and the file lists are kept.
    pub fn transform<O, F: Fn(&Item<I>) -> O>(&self, f: &F) -> (r: Project<O>)
        requires
            forall|x: Item<I>| #[trigger] call_requires(*f, (&x,)),
        ensures
            r.project_path@ == self.project_path@,
            item_transformed(*f, self@.index, r@.index, self.index),
            r@.parts.len() == self@.parts.len(),
            forall|i: int|
                0 <= i < self@.parts.len() ==> #[trigger] part_transformed(
                    *f,
                    self.content@[i],
                    r@.parts[i],
                ),
    {
        let index = self.index.transform(f);
        let mut parts: Vec<Part<O>> = Vec::new();
        let mut i: usize = 0;
        while i < self.content.len()
            invariant
                forall|x: Item<I>| #[trigger] call_requires(*f, (&x,)),
                i <= self.content@.len(),
                parts@.len() == i,
                forall|j: int|
                    0 <= j < i ==> #[trigger] part_transformed(*f, self.content@[j], parts@[j]@),
            decreases self.content@.len() - i,
        {
            parts.push(self.content[i].transform(f));
            i += 1;
        }
        Project { project_path: self.project_path.clone(), index, content: parts }
    }
}

/// The transform relation for a document seen with its ancestors: the
/// item keeps everything but the content, and the new content is a
/// permitted outcome of `f` applied to the item together with its
/// enclosing part and chapter, where it has them.
pub open spec fn item_parents_transformed<I, O, F: Fn(&Item<I>, Option<&Part<I>>, Option<&Chapter<I>>) -> O>(
    f: F,
    a: ItemModel<I>,
    r: ItemModel<O>,
    arg: Item<I>,
    part: Option<&Part<I>>,
    chapter: Option<&Chapter<I>>,
) -> bool {
    &&& r.id == a.id
    &&& r.format == a.format
    &&& r.path == a.path
    &&& arg@ == a
    &&& call_ensures(f, (&arg, part, chapter), r.content)
}

impl<I> Item<I> {
    /// Apply `f` to this item together with its ancestors, keeping id,
    /// format and path.
    fn transform_parents_helper<O, F: Fn(&Item<I>, Option<&Part<I>>, Option<&Chapter<I>>) -> O>(
        &self,
        part: Option<&Part<I>>,
        chapter: Option<&Chapter<I>>,
        f: &F,
    ) -> (r: Item<O>)
        requires
            forall|x: &Item<I>, p: Option<&Part<I>>, c: Option<&Chapter<I>>|
                #[trigger] call_requires(*f, (x, p, c)),
        ensures
            item_parents_transformed(*f, self@, r@, *self, part, chapter),
    {
        let new_content = f(self, part, chapter);
        Item {
            id: self.id.clone(),
            format: self.format,
            path: self.path.clone(),
            content: new_content,
        }
    }
}

/// The ancestor-passing transform relation for a whole chapter, seen
/// inside its part: id and files are kept, and the index and every
/// document are transformed with this part and chapter as ancestors.
pub open spec fn chapter_parents_transformed<I, O, F: Fn(&Item<I>, Option<&Part<I>>, Option<&Chapter<I>>) -> O>(
    f: F,
    part: &Part<I>,
    a: &Chapter<I>,
    r: ChapterModel<O>,
) -> bool {
    &&& r.id == a.id@
    &&& r.files == a@.files
    &&& item_parents_transformed(f, a@.index, r.index, a.index, Some(part), Some(a))
    &&& r.documents.len() == a.documents@.len()
    &&& forall|i: int|
        0 <= i < a.documents@.len() ==> #[trigger] item_parents_transformed(
            f,
            a@.documents[i],
            r.documents[i],
            a.documents@[i],
            Some(part),
            Some(a),
        )
}

/// The ancestor-passing transform relation for a whole part: the index
/// sees the part alone, every chapter its part and itself.
pub open spec fn part_parents_transformed<I, O, F: Fn(&Item<I>, Option<&Part<I>>, Option<&Chapter<I>>) -> O>(
    f: F,
    a: &Part<I>,
    r: PartModel<O>,
) -> bool {
    &&& r.id == a.id@
    &&& item_parents_transformed(f, a@.index, r.index, a.index, Some(a), None)
    &&& r.chapters.len() == a.chapters@.len()
    &&& forall|i: int|
        0 <= i < a.chapters@.len() ==> #[trigger] chapter_parents_transformed(
            f,
            a,
            &a.chapters@[i],
            r.chapters[i],
        )
}

impl<I> Chapter<I> {
    /// Apply `f` to the chapter's index and documents, handing it the
    /// enclosing part and this chapter.
    fn transform_parents_helper<O, F: Fn(&Item<I>, Option<&Part<I>>, Option<&Chapter<I>>) -> O>(
        &self,
        part: &Part<I>,
        f: &F,
    ) -> (r: Chapter<O>)
        requires
            forall|x: &Item<I>, p: Option<&Part<I>>, c: Option<&Chapter<I>>|
                #[trigger] call_requires(*f, (x, p, c)),
        ensures
            chapter_parents_transformed(*f, part, self, r@),
    {
        let index = self.index.transform_parents_helper(Some(part), Some(self), f);
        let mut documents: Vec<Item<O>> = Vec::new();
        let mut i: usize = 0;
        while i < self.documents.len()
            invariant
                forall|x: &Item<I>, p: Option<&Part<I>>, c: Option<&Chapter<I>>|
                    #[trigger] call_requires(*f, (x, p, c)),
                i <= self.documents@.len(),
                documents@.len() == i,
                forall|j: int|
                    0 <= j < i ==> #[trigger] item_parents_transformed(
                        *f,
                        self@.documents[j],
                        documents@[j]@,
                        self.documents@[j],
                        Some(part),
                        Some(self),
                    ),
            decreases self.documents@.len() - i,
        {
            documents.push(self.documents[i].transform_parents_helper(Some(part), Some(self), f));
            i += 1;
        }
        Chapter { id: self.id.clone(), index, documents, files: clone_strings(&self.files) }
    }
}

impl<I> Part<I> {
    /// Apply `f` to every document of the part, handing it this part and
    /// the enclosing chapter where there is one.
    pub fn transform_parents<O, F: Fn(&Item<I>, Option<&Part<I>>, Option<&Chapter<I>>) -> O>(
        &self,
        f: &F,
    ) -> (r: Part<O>)
        requires
            forall|x: &Item<I>, p: Option<&Part<I>>, c: Option<&Chapter<I>>|
                #[trigger] call_requires(*f, (x, p, c)),
        ensures
            part_parents_transformed(*f, self, r@),
    {
        let index = self.index.transform_parents_helper(Some(self), None, f);
        let mut chapters: Vec<Chapter<O>> = Vec::new();
        let mut i: usize = 0;
        while i < self.chapters.len()
            invariant
                forall|x: &Item<I>, p: Option<&Part<I>>, c: Option<&Chapter<I>>|
                    #[trigger] call_requires(*f, (x, p, c)),
                i <= self.chapters@.len(),
                chapters@.len() == i,
                forall|j: int|
                    0 <= j < i ==> #[trigger] chapter_parents_transformed(
                        *f,
                        self,
                        &self.chapters@[j],
                        chapters@[j]@,
                    ),
            decreases self.chapters@.len() - i,
        {
            chapters.push(self.chapters[i].transform_parents_helper(self, f));
            i += 1;
        }
        Part { id: self.id.clone(), index, chapters }
    }
}

impl<I> Project<I> {
    /// Apply `f` to every document of the tree, handing it the enclosing
    /// part and chapter where they exist; the root index has neither.
    pub fn transform_parents<O, F: Fn(&Item<I>, Option<&Part<I>>, Option<&Chapter<I>>) -> O>(
        &self,
        f: &F,
    ) -> (r: Project<O>)
        requires
            forall|x: &Item<I>, p: Option<&Part<I>>, c: Option<&Chapter<I>>|
                #[trigger] call_requires(*f, (x, p, c)),
        ensures
            r.project_path@ == self.project_path@,
            item_parents_transformed(*f, self@.index, r@.index, self.index, None, None),
            r@.parts.len() == self@.parts.len(),
            forall|i: int|
                0 <= i < self@.parts.len() ==> #[trigger] part_parents_transformed(
                    *f,
                    &self.content@[i],
                    r@.parts[i],
                ),
    {
        let index = self.index.transform_parents_helper(None, None, f);
        let mut parts: Vec<Part<O>> = Vec::new();
        let mut i: usize = 0;
        while i < self.content.len()
            invariant
                forall|x: &Item<I>, p: Option<&Part<I>>, c: Option<&Chapter<I>>|
                    #[trigger] call_requires(*f, (x, p, c)),
                i <= self.content@.len(),
                parts@.len() == i,
                forall|j: int|
                    0 <= j < i ==> #[trigger] part_parents_transformed(
                        *f,
                        &self.content@[j],
                        parts@[j]@,
                    ),
            decreases self.content@.len() - i,
        {
            parts.push(self.content[i].transform_parents(f));
            i += 1;
        }
        Project { project_path: self.project_path.clone(), index, content: parts }
    }
}

impl<C> ProjectItem<C> {
    /// Gather the tag fields and a document into one flattened entry.
    pub fn new(
        part_id: Option<String>,
        chapter_id: Option<String>,
        part_idx: Option<usize>,
        chapter_idx: Option<usize>,
        doc: Item<C>,
        files: Option<Vec<String>>,
    ) -> (r: ProjectItem<C>)
        ensures
            r == (ProjectItem {
                part_id,
                chapter_id,
                part_idx,
                chapter_idx,
                doc,
                files,
                project_path: None,
            }),
    {
        ProjectItem { part_id, chapter_id, part_idx, chapter_idx, doc, files, project_path: None }
    }

    /// Apply `f` to the entry's document content, keeping every tag; an
    /// error of `f` is handed back unchanged.
    pub fn map<O, E, F: Fn(&C) -> Result<O, E>>(self, f: F) -> (r: Result<ProjectItem<O>, E>)
        requires
            forall|x: C| #[trigger] call_requires(f, (&x,)),
        ensures
            r matches Ok(out) ==> {
                &&& out.part_id == self.part_id
                &&& out.chapter_id == self.chapter_id
                &&& out.part_idx == self.part_idx
                &&& out.chapter_idx == self.chapter_idx
                &&& out.files == self.files
                &&& out.doc.id@ == self.doc.id@
                &&& out.doc.format == self.doc.format
                &&& out.doc.path@ == self.doc.path@
                &&& call_ensures(f, (&self.doc.content,), Ok(out.doc.content))
            },
            r matches Err(e) ==> call_ensures(f, (&self.doc.content,), Err::<O, E>(e)),
    {
        let ProjectItem { part_id, chapter_id, part_idx, chapter_idx, doc, files, project_path } =
            self;
        let Item { id, format, path, content } = doc;
        match f(&content) {
            Ok(new_content) => Ok(
                ProjectItem {
                    part_id,
                    chapter_id,
                    part_idx,
                    chapter_idx,
                    doc: Item { id, format, path, content: new_content },
                    files,
                    project_path,
                },
            ),
            Err(e) => Err(e),
        }
    }

    /// Apply `f` to the whole document, keeping every tag; the documents
    /// id and path are kept for the result.
    pub fn map_doc<O, E, F: Fn(Item<C>) -> Result<O, E>>(self, f: F) -> (r: Result<
        ProjectItem<O>,
        E,
    >)
        requires
            forall|x: Item<C>| #[trigger] call_requires(f, (x,)),
        ensures
            r matches Ok(out) ==> {
                &&& out.part_id == self.part_id
                &&& out.chapter_id == self.chapter_id
                &&& out.part_idx == self.part_idx
                &&& out.chapter_idx == self.chapter_idx
                &&& out.files == self.files
                &&& out.doc.id@ == self.doc.id@
                &&& out.doc.format == self.doc.format
                &&& out.doc.path@ == self.doc.path@
                &&& call_ensures(f, (self.doc,), Ok(out.doc.content))
            },
            r matches Err(e) ==> call_ensures(f, (self.doc,), Err::<O, E>(e)),
    {
        let ProjectItem { part_id, chapter_id, part_idx, chapter_idx, doc, files, project_path } =
            self;
        let id = doc.id.clone();
        let format = doc.format;
        let path = doc.path.clone();
        match f(doc) {
            Ok(new_content) => Ok(
                ProjectItem {
                    part_id,
                    chapter_id,
                    part_idx,
                    chapter_idx,
                    doc: Item { id, format, path, content: new_content },
                    files,
                    project_path,
                },
            ),
            Err(e) => Err(e),
        }
    }
}

// ------------------------------------------------------------------
// Path helpers: ids and formats derived from path strings.
// ------------------------------------------------------------------

/// A path that a tree constructor cannot accept.
#[derive(Debug, Clone, Copy, PartialEq, Eq, Structural)]
pub enum ProjectError {
    /// The path has no file name.
    NoFileName,
    /// The file name's extension is not a document extension.
    InvalidExtension,
    /// The path does not lie under the content directory.
    OutsideContentDir,
}

/// Index of the first character of the file name: the position right
/// after the last `/`, or 0 when the path has no `/`.
pub closed spec fn file_start(s: Seq<char>) -> int
    decreases s.len(),
{
    if s.len() == 0 {
        0
    } else if s[s.len() - 1] == '/' {
        s.len() as int
    } else {
        file_start(s.drop_last())
    }
}

pub proof fn lemma_file_start(s: Seq<char>)
    ensures
        0 <= file_start(s) <= s.len(),
        forall|j: int| file_start(s) <= j < s.len() ==> s[j] != '/',
        file_start(s) > 0 ==> s[file_start(s) - 1] == '/',
    decreases s.len(),
{
    if s.len() > 0 && s[s.len() - 1] != '/' {
        lemma_file_start(s.drop_last());
        assert forall|j: int| file_start(s) <= j < s.len() implies s[j] != '/' by {
            if j < s.len() - 1 {
                assert(s.drop_last()[j] == s[j]);
            }
        }
        if file_start(s) > 0 {
            assert(s.drop_last()[file_start(s.drop_last()) - 1] == s[file_start(s) - 1]);
        }
    }
}

/// Number of `/` characters at the back of `s`; they do not count
/// toward the file name.
pub closed spec fn trailing_slashes(s: Seq<char>) -> int
    decreases s.len(),
{
    if s.len() == 0 || s[s.len() - 1] != '/' {
        0
    } else {
        1 + trailing_slashes(s.drop_last())
    }
}

pub proof fn lemma_trailing_slashes(s: Seq<char>)
    ensures
        0 <= trailing_slashes(s) <= s.len(),
        forall|j: int| s.len() - trailing_slashes(s) <= j < s.len() ==> s[j] == '/',
        trailing_slashes(s) < s.len() ==> s[s.len() - 1 - trailing_slashes(s)] != '/',
    decreases s.len(),
{
    if s.len() > 0 && s[s.len() - 1] == '/' {
        lemma_trailing_slashes(s.drop_last());
        assert forall|j: int| s.len() - trailing_slashes(s) <= j < s.len() implies s[j]
            == '/' by {
            if j < s.len() - 1 {
                assert(s.drop_last()[j] == '/');
            }
        }
        if trailing_slashes(s) < s.len() {
            assert(s[s.len() - 1 - trailing_slashes(s)] == s.drop_last()[s.drop_last().len() - 1
                - trailing_slashes(s.drop_last())]);
        }
    }
}

/// The path without its trailing separators.
pub open spec fn effective_path(s: Seq<char>) -> Seq<char> {
    s.take(s.len() - trailing_slashes(s))
}

/// The file name of a path: everything after the last `/`, trailing
/// separators ignored.
pub open spec fn file_name_spec(s: Seq<char>) -> Seq<char> {
    effective_path(s).subrange(file_start(effective_path(s)), effective_path(s).len() as int)
}

/// Number of characters of `s` before its first `.`.
pub closed spec fn stem_len(s: Seq<char>) -> int
    decreases s.len(),
{
    if s.len() == 0 || s[0] == '.' {
        0
    } else {
        1 + stem_len(s.drop_first())
    }
}

pub proof fn lemma_stem_len(s: Seq<char>)
    ensures
        0 <= stem_len(s) <= s.len(),
        forall|j: int| 0 <= j < stem_len(s) ==> s[j] != '.',
        stem_len(s) < s.len() ==> s[stem_len(s)] == '.',
    decreases s.len(),
{
    if s.len() > 0 && s[0] != '.' {
        lemma_stem_len(s.drop_first());
        assert forall|j: int| 0 <= j < stem_len(s) implies s[j] != '.' by {
            if j > 0 {
                assert(s.drop_first()[j - 1] == s[j]);
            }
        }
        if stem_len(s) < s.len() {
            assert(s.drop_first()[stem_len(s.drop_first())] == s[stem_len(s)]);
        }
    }
}

/// Position right after the last `.` of `s`, or 0 when `s` has no `.`.
pub closed spec fn after_last_dot(s: Seq<char>) -> int
    decreases s.len(),
{
    if s.len() == 0 {
        0
    } else if s[s.len() - 1] == '.' {
        s.len() as int
    } else {
        after_last_dot(s.drop_last())
    }
}

pub proof fn lemma_after_last_dot(s: Seq<char>)
    ensures
        0 <= after_last_dot(s) <= s.len(),
        forall|j: int| after_last_dot(s) <= j < s.len() ==> s[j] != '.',
        after_last_dot(s) > 0 ==> s[after_last_dot(s) - 1] == '.',
    decreases s.len(),
{
    if s.len() > 0 && s[s.len() - 1] != '.' {
        lemma_after_last_dot(s.drop_last());
        assert forall|j: int| after_last_dot(s) <= j < s.len() implies s[j] != '.' by {
            if j < s.len() - 1 {
                assert(s.drop_last()[j] == s[j]);
            }
        }
        if after_last_dot(s) > 0 {
            assert(s.drop_last()[after_last_dot(s.drop_last()) - 1] == s[after_last_dot(s) - 1]);
        }
    }
}

/// The file name has an extension: some `.` stands after its first
/// character.
pub open spec fn has_extension(path: Seq<char>) -> bool {
    after_last_dot(file_name_spec(path)) >= 2
}

/// The extension of the path: what follows the last `.` of the file name.
pub open spec fn extension_spec(path: Seq<char>) -> Seq<char> {
    file_name_spec(path).subrange(
        after_last_dot(file_name_spec(path)),
        file_name_spec(path).len() as int,
    )
}

/// Index of the first character of the file name of `path`.
fn find_file_start(path: &str) -> (r: usize)
    ensures
        r == file_start(path@),
{
    let n = path.unicode_len();
    proof {
        lemma_file_start(path@);
    }
    let mut i: usize = n;
    while i > 0
        invariant
            n == path@.len(),
            i <= n,
            forall|j: int| i <= j < n ==> path@[j] != '/',
            file_start(path@) <= i,
        decreases i,
    {
        if path.get_char(i - 1) == '/' {
            proof {
                lemma_file_start(path@);
                if file_start(path@) <= i - 1 {
                    assert(path@[i - 1] != '/');
                }
            }
            return i;
        }
        proof {
            lemma_file_start(path@);
            if file_start(path@) > i - 1 {
                assert(path@[file_start(path@) - 1] == '/');
            }
        }
        i -= 1;
    }
    0
}

/// The file name of `path`: everything after the last `/`, trailing
/// separators ignored.
pub fn file_name(path: &str) -> (r: String)
    ensures
        r@ == file_name_spec(path@),
{
    let n = path.unicode_len();
    proof {
        lemma_trailing_slashes(path@);
    }
    let mut ts: usize = 0;
    while ts < n && path.get_char(n - 1 - ts) == '/'
        invariant
            n == path@.len(),
            ts <= n,
            forall|j: int| n - ts <= j < n ==> path@[j] == '/',
            ts <= trailing_slashes(path@),
        decreases n - ts,
    {
        proof {
            lemma_trailing_slashes(path@);
            if ts + 1 > trailing_slashes(path@) {
                assert(path@[n - 1 - trailing_slashes(path@)] != '/');
            }
        }
        ts += 1;
    }
    proof {
        lemma_trailing_slashes(path@);
        if ts < trailing_slashes(path@) {
            assert(path@[n - 1 - ts] == '/');
        }
    }
    let eff = substring(path, 0, n - ts);
    proof {
        assert(eff@ =~= effective_path(path@));
    }
    let start = find_file_start(eff.as_str());
    proof {
        lemma_file_start(eff@);
    }
    substring(eff.as_str(), start, n - ts)
}

/// Extract a section id from a path: the file name without everything
/// from its first `.` on. A path whose file name is empty has no id.
pub fn section_id(path: &str) -> (r: Option<String>)
    ensures
        file_name_spec(path@).len() == 0 ==> r is None,
        file_name_spec(path@).len() > 0 ==> (r matches Some(id) && id@ == file_name_spec(
            path@,
        ).subrange(0, stem_len(file_name_spec(path@)))),
{
    let fname = file_name(path);
    let n = fname.as_str().unicode_len();
    if n == 0 {
        return None;
    }
    proof {
        lemma_stem_len(fname@);
    }
    let mut i: usize = 0;
    while i < n && fname.as_str().get_char(i) != '.'
        invariant
            n == fname@.len(),
            i <= n,
            forall|j: int| 0 <= j < i ==> fname@[j] != '.',
            i <= stem_len(fname@),
        decreases n - i,
    {
        proof {
            lemma_stem_len(fname@);
            if i + 1 > stem_len(fname@) {
                assert(fname@[stem_len(fname@)] == '.');
            }
        }
        i += 1;
    }
    proof {
        lemma_stem_len(fname@);
        if i < stem_len(fname@) {
            assert(fname@[i as int] != '.');
        }
    }
    Some(substring(fname.as_str(), 0, i))
}

/// Extract a chapter id from a path: its whole file name, when the file
/// name is not empty.
pub fn chapter_id(path: &str) -> (r: Option<String>)
    ensures
        file_name_spec(path@).len() == 0 ==> r is None,
        file_name_spec(path@).len() > 0 ==> (r matches Some(id) && id@ == file_name_spec(path@)),
{
    let fname = file_name(path);
    if fname.as_str().unicode_len() == 0 {
        None
    } else {
        Some(fname)
    }
}

/// The extension of `path`, which must have one.
pub fn extension_of(path: &str) -> (r: String)
    requires
        has_extension(path@),
    ensures
        r@ == extension_spec(path@),
{
    let fname = file_name(path);
    let n = fname.as_str().unicode_len();
    proof {
        lemma_after_last_dot(fname@);
    }
    let mut i: usize = n;
    while i > 0
        invariant
            n == fname@.len(),
            fname@ == file_name_spec(path@),
            i <= n,
            forall|j: int| i <= j < n ==> fname@[j] != '.',
            after_last_dot(fname@) <= i,
        decreases i,
    {
        if fname.as_str().get_char(i - 1) == '.' {
            proof {
                lemma_after_last_dot(fname@);
                if after_last_dot(fname@) <= i - 1 {
                    assert(fname@[i - 1] != '.');
                }
            }
            return substring(fname.as_str(), i, n);
        }
        proof {
            lemma_after_last_dot(fname@);
            if after_last_dot(fname@) > i - 1 {
                assert(fname@[after_last_dot(fname@) - 1] == '.');
            }
        }
        i -= 1;
    }
    proof {
        lemma_after_last_dot(fname@);
        assert(after_last_dot(fname@) == 0);
    }
    substring(fname.as_str(), 0, n)
}

/// Formats a document file may have, determined by its extension.
#[derive(Debug, Clone, Copy, PartialEq, Eq, Structural)]
pub enum DocFormat {
    Markdown,
    Notebook,
}

impl DocFormat {
    /// The format of the document at `path`, from its extension
    /// (`md` or `ipynb`).
    pub fn from_path(path: &str) -> (r: Result<DocFormat, ProjectError>)
        requires
            has_extension(path@),
        ensures
            extension_spec(path@) == "md"@ ==> r == Ok::<DocFormat, ProjectError>(
                DocFormat::Markdown,
            ),
            extension_spec(path@) == "ipynb"@ ==> r == Ok::<DocFormat, ProjectError>(
                DocFormat::Notebook,
            ),
            extension_spec(path@) != "md"@ && extension_spec(path@) != "ipynb"@ ==> r == Err::<
                DocFormat,
                ProjectError,
            >(ProjectError::InvalidExtension),
    {
        proof {
            reveal_strlit("md");
            reveal_strlit("ipynb");
            assert("md"@.len() == 2);
            assert("ipynb"@.len() == 5);
        }
        let ext = extension_of(path);
        if str_eq(ext.as_str(), "md") {
            Ok(DocFormat::Markdown)
        } else if str_eq(ext.as_str(), "ipynb") {
            Ok(DocFormat::Notebook)
        } else {
            Err(ProjectError::InvalidExtension)
        }
    }
}

/// The extensions that mark a document file.
pub fn extension_in(extension: &str) -> (r: bool)
    ensures
        r == (extension@ == "md"@ || extension@ == "ipynb"@),
{
    str_eq(extension, "md") || str_eq(extension, "ipynb")
}

impl Item<()> {
    /// The tree leaf for the document at `path`: its id is the file
    /// name's stem, its format follows from the extension, and it has no
    /// content yet.
    pub fn new(path: &str) -> (r: Result<Item<()>, ProjectError>)
        requires
            has_extension(path@),
        ensures
            extension_spec(path@) != "md"@ && extension_spec(path@) != "ipynb"@ ==> r == Err::<
                Item<()>,
                ProjectError,
            >(ProjectError::InvalidExtension),
            (extension_spec(path@) == "md"@ || extension_spec(path@) == "ipynb"@) ==> r is Ok,
            r matches Ok(item) ==> {
                &&& item.id@ == file_name_spec(path@).subrange(
                    0,
                    stem_len(file_name_spec(path@)),
                )
                &&& item.path@ == path@
                &&& (extension_spec(path@) == "md"@ ==> item.format == InputFormat::Markdown)
                &&& (extension_spec(path@) == "ipynb"@ ==> item.format == InputFormat::Notebook)
                &&& (extension_spec(path@) == "md"@ || extension_spec(path@) == "ipynb"@)
            },
    {
        proof {
            reveal_strlit("md");
            reveal_strlit("ipynb");
            assert("md"@.len() == 2);
            assert("ipynb"@.len() == 5);
            lemma_after_last_dot(file_name_spec(path@));
            lemma_stem_len(file_name_spec(path@));
        }
        let ext = extension_of(path);
        let format = if str_eq(ext.as_str(), "md") {
            InputFormat::Markdown
        } else if str_eq(ext.as_str(), "ipynb") {
            InputFormat::Notebook
        } else {
            return Err(ProjectError::InvalidExtension);
        };
        let id = match section_id(path) {
            Some(id) => id,
            None => {
                proof {
                    assert(file_name_spec(path@).len() >= 2);
                }
                vstd::pervasive::unreached()
            },
        };
        Ok(Item { id, format, path: path.to_owned(), content: () })
    }
}

/// Join a directory path and a name with a `/`; an empty directory path
/// stands for the current directory and adds no separator.
pub fn join_path(dir: &str, name: &str) -> (r: String)
    ensures
        dir@.len() == 0 ==> r@ == name@,
        dir@.len() > 0 ==> r@ == dir@ + "/"@ + name@,
{
    if dir.unicode_len() == 0 {
        return name.to_owned();
    }
    let mut r = dir.to_owned();
    r.append("/");
    r.append(name);
    r
}

/// Remove the leading directory `prefix` and its separator from `path`;
/// a path equal to the prefix becomes empty, and one that does not start
/// with the prefix is refused.
pub fn strip_prefix(path: &str, prefix: &str) -> (r: Result<String, ProjectError>)
    ensures
        prefix@.len() == 0 ==> (r matches Ok(s) && s@ == path@),
        r matches Ok(s) ==> (path@ == prefix@ && s@.len() == 0) || (path@ == prefix@ + "/"@
            + s@) || (prefix@.len() == 0 && s@ == path@),
        path@ == prefix@ ==> r is Ok,
        (path@.len() > prefix@.len() && path@.subrange(0, prefix@.len() as int) == prefix@
            && path@[prefix@.len() as int] == '/') ==> r is Ok,
{
    proof {
        reveal_strlit("/");
        assert("/"@.len() == 1);
    }
    let n = path.unicode_len();
    let pn = prefix.unicode_len();
    if pn == 0 {
        return Ok(path.to_owned());
    }
    if n < pn {
        return Err(ProjectError::OutsideContentDir);
    }
    if !crate::text::is_match_at(path, prefix, 0) {
        proof {
            if path@ == prefix@ {
                assert(path@.subrange(0, prefix@.len() as int) =~= prefix@);
            }
        }
        return Err(ProjectError::OutsideContentDir);
    }
    if n == pn {
        proof {
            assert(path@ =~= prefix@);
        }
        return Ok(String::new());
    }
    if path.get_char(pn) == '/' {
        let rest = substring(path, pn + 1, n);
        proof {
            assert(path@ =~= prefix@ + "/"@ + rest@);
        }
        Ok(rest)
    } else {
        Err(ProjectError::OutsideContentDir)
    }
}

/// Whether the file name of `path` has an extension.
pub fn path_has_extension(path: &str) -> (r: bool)
    ensures
        r == has_extension(path@),
{
    let fname = file_name(path);
    let n = fname.as_str().unicode_len();
    proof {
        lemma_after_last_dot(fname@);
    }
    let mut i: usize = n;
    while i > 0
        invariant
            n == fname@.len(),
            fname@ == file_name_spec(path@),
            i <= n,
            forall|j: int| i <= j < n ==> fname@[j] != '.',
            after_last_dot(fname@) <= i,
        decreases i,
    {
        if fname.as_str().get_char(i - 1) == '.' {
            proof {
                lemma_after_last_dot(fname@);
                if after_last_dot(fname@) <= i - 1 {
                    assert(fname@[i - 1] != '.');
                }
            }
            return i >= 2;
        }
        proof {
            lemma_after_last_dot(fname@);
            if after_last_dot(fname@) > i - 1 {
                assert(fname@[after_last_dot(fname@) - 1] == '.');
            }
        }
        i -= 1;
    }
    proof {
        lemma_after_last_dot(fname@);
        assert(after_last_dot(fname@) == 0);
    }
    false
}

/// The name of a directory's index file.
pub open spec fn index_name_spec(md: bool) -> Seq<char> {
    if md {
        "index.md"@
    } else {
        "index.ipynb"@
    }
}

/// The content-relative path of a directory's index file.
pub open spec fn index_path_spec(rel: Seq<char>, md: bool) -> Seq<char> {
    if rel.len() == 0 {
        index_name_spec(md)
    } else {
        rel + "/"@ + index_name_spec(md)
    }
}

/// An index path always carries the index file name: its file name is
/// `index.md` or `index.ipynb`, its stem `index`, and its extension the
/// one the flag picked.
proof fn lemma_index_path_shape(rel: Seq<char>, md: bool)
    ensures
        has_extension(index_path_spec(rel, md)),
        file_name_spec(index_path_spec(rel, md)) == index_name_spec(md),
        file_name_spec(index_path_spec(rel, md)).subrange(
            0,
            stem_len(file_name_spec(index_path_spec(rel, md))),
        ) == "index"@,
        extension_spec(index_path_spec(rel, md)) == (if md {
            "md"@
        } else {
            "ipynb"@
        }),
{
    reveal_strlit("index.md");
    reveal_strlit("index.ipynb");
    reveal_strlit("index");
    reveal_strlit("md");
    reveal_strlit("ipynb");
    reveal_strlit("/");
    assert("index.md"@.len() == 8);
    assert("index.ipynb"@.len() == 11);
    assert("index"@.len() == 5);
    assert("md"@.len() == 2);
    assert("ipynb"@.len() == 5);
    assert("/"@.len() == 1);
    let name = index_name_spec(md);
    let p = index_path_spec(rel, md);
    lemma_trailing_slashes(p);
    assert(trailing_slashes(p) == 0) by {
        assert(p[p.len() - 1] == name[name.len() - 1]);
        if trailing_slashes(p) > 0 {
            assert(p[p.len() - 1] == '/');
        }
    }
    assert(effective_path(p) =~= p);
    lemma_file_start(p);
    assert forall|j: int| p.len() - name.len() <= j < p.len() implies p[j] != '/' by {
        assert(p[j] == name[j - (p.len() - name.len())]);
    }
    assert(file_start(p) == p.len() - name.len()) by {
        if file_start(p) < p.len() - name.len() {
            assert(p[p.len() - name.len() - 1] == '/');
        }
    }
    let fname = file_name_spec(p);
    assert(fname =~= name);
    lemma_after_last_dot(fname);
    lemma_stem_len(fname);
    assert(after_last_dot(fname) == 6) by {
        assert(fname[5] == '.');
        if after_last_dot(fname) < 6 {
            assert(fname[5] != '.');
        }
        if after_last_dot(fname) > 6 {
            assert(fname[after_last_dot(fname) - 1] == '.');
        }
    }
    assert(stem_len(fname) == 5) by {
        if stem_len(fname) < 5 {
            assert(fname[stem_len(fname)] == '.');
        }
        if stem_len(fname) > 5 {
            assert(fname[5] != '.');
        }
    }
    assert(fname.subrange(0, 5) =~= "index"@);
    if md {
        assert(extension_spec(p) =~= "md"@);
    } else {
        assert(extension_spec(p) =~= "ipynb"@);
    }
}

/// Locate a directory's index document: `index.md` when the caller saw
/// one in the directory, else `index.ipynb`. The item's path is the
/// chapter directory made relative to the content directory with the
/// index file name joined on; a chapter directory that does not lie
/// under the content directory is refused, and one that does is always
/// accepted.
pub fn index_helper(chapter_dir: &str, content_path: &str, index_md_exists: bool) -> (r: Result<
    Item<()>,
    ProjectError,
>)
    ensures
        r matches Ok(item) ==> {
            &&& item.id@ == "index"@
            &&& item.format == (if index_md_exists {
                InputFormat::Markdown
            } else {
                InputFormat::Notebook
            })
            &&& file_name_spec(item.path@) == index_name_spec(index_md_exists)
            &&& (content_path@.len() == 0 ==> item.path@ == index_path_spec(
                chapter_dir@,
                index_md_exists,
            ))
            &&& (chapter_dir@ == content_path@ ==> item.path@ == index_name_spec(
                index_md_exists,
            ))
        },
        content_path@.len() == 0 ==> r is Ok,
        chapter_dir@ == content_path@ ==> r is Ok,
        (chapter_dir@.len() > content_path@.len() && chapter_dir@.subrange(
            0,
            content_path@.len() as int,
        ) == content_path@ && chapter_dir@[content_path@.len() as int] == '/') ==> r is Ok,
{
    let rel_dir = match strip_prefix(chapter_dir, content_path) {
        Ok(rel) => rel,
        Err(e) => {
            return Err(e);
        },
    };
    let index_name = if index_md_exists {
        "index.md"
    } else {
        "index.ipynb"
    };
    let path = join_path(rel_dir.as_str(), index_name);
    proof {
        reveal_strlit("/");
        assert("/"@.len() == 1);
        assert(path@ == index_path_spec(rel_dir@, index_md_exists));
        lemma_index_path_shape(rel_dir@, index_md_exists);
        reveal_strlit("md");
        reveal_strlit("ipynb");
        assert("md"@.len() == 2);
        assert("ipynb"@.len() == 5);
    }
    Item::new(path.as_str())
}

} // verus!
