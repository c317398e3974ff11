//! The flat chapter/section configuration: a lighter, chapter-oriented
//! view of a project's content, built by a directory scan that lives
//! with the caller, and the document-level front-matter record.

use vstd::prelude::*;
use vstd::string::*;
use crate::project::DocFormat;
use crate::project::ProjectError;
use crate::project::extension_spec;
use crate::project::file_name_spec;
use crate::project::has_extension;
use crate::project::section_id;
use crate::project::stem_len;

verus! {

broadcast use vstd::string::group_string_axioms;

/// Document-level metadata: an optional title and the document type,
/// which defaults to `text`.
#[derive(Debug, Clone, PartialEq, Eq)]
pub struct DocFrontMatter {
    pub title: Option<String>,
    pub doc_type: String,
}

/// The language of an embedded code file.
#[derive(Debug, Clone, Copy, PartialEq, Eq, Structural)]
pub enum Language {
    Python,
}

/// A code file of a chapter.
#[derive(Debug, Clone, PartialEq, Eq)]
pub struct CodeFile {
    pub path: String,
    pub language: Language,
}

/// A static resource of a chapter.
#[derive(Debug, Clone, PartialEq, Eq)]
pub struct ResourceFile {
    pub src_path: String,
    pub static_path: String,
}

/// A document of the configuration: its format, its path and its front
/// matter once known.
#[derive(Debug, Clone, PartialEq, Eq)]
pub struct Document {
    pub format: DocFormat,
    pub path: String,
    pub meta: Option<DocFrontMatter>,
}

/// A section: one document with its title and id.
#[derive(Debug, Clone, PartialEq, Eq)]
pub struct Section {
    pub title: String,
    pub id: String,
    pub doc: Document,
}

/// A chapter: its index document, its sections and its files.
#[derive(Debug, Clone, PartialEq, Eq)]
pub struct Chapter {
    pub title: String,
    pub id: String,
    pub doc: Document,
    pub sections: Vec<Section>,
    pub resources: Vec<ResourceFile>,
    pub code: Vec<CodeFile>,
}

/// A whole configuration.
#[derive(Debug, Clone, PartialEq, Eq)]
pub struct Config {
    pub title: String,
    pub version: String,
    pub build_path: String,
    pub chapters: Vec<Chapter>,
}

/// Extract a file name's stem from a path, as `section_id` does.
pub fn raw_file_name(path: &str) -> (r: Option<String>)
    ensures
        file_name_spec(path@).len() == 0 ==> r is None,
        file_name_spec(path@).len() > 0 ==> (r matches Some(id) && id@ == file_name_spec(
            path@,
        ).subrange(0, stem_len(file_name_spec(path@)))),
{
    section_id(path)
}

impl Document {
    /// The configuration record for the document at `path`, its format
    /// read off the extension; the front matter is not known yet.
    pub fn new(path: &str) -> (r: Result<Document, ProjectError>)
        requires
            has_extension(path@),
        ensures
            r matches Ok(d) ==> {
                &&& d.path@ == path@
                &&& d.meta is None
                &&& (extension_spec(path@) == "md"@ ==> d.format == DocFormat::Markdown)
                &&& (extension_spec(path@) == "ipynb"@ ==> d.format == DocFormat::Notebook)
            },
            extension_spec(path@) != "md"@ && extension_spec(path@) != "ipynb"@ ==> r
                == Err::<Document, ProjectError>(ProjectError::InvalidExtension),
            (extension_spec(path@) == "md"@ || extension_spec(path@) == "ipynb"@) ==> r is Ok,
    {
        let format = match DocFormat::from_path(path) {
            Ok(f) => f,
            Err(e) => {
                return Err(e);
            },
        };
        Ok(Document { format, path: path.to_owned(), meta: None })
    }
}

impl Section {
    /// The section for the document at `path`: its id is the file name's
    /// stem, its title empty until a build fills it.
    pub fn new(path: &str) -> (r: Result<Section, ProjectError>)
        requires
            has_extension(path@),
        ensures
            r matches Ok(sec) ==> {
                &&& sec.title@ == Seq::<char>::empty()
                &&& sec.id@ == file_name_spec(path@).subrange(
                    0,
                    stem_len(file_name_spec(path@)),
                )
                &&& sec.doc.path@ == path@
            },
            (extension_spec(path@) == "md"@ || extension_spec(path@) == "ipynb"@) ==> r is Ok,
            r is Err ==> (extension_spec(path@) != "md"@ && extension_spec(path@) != "ipynb"@
                && r == Err::<Section, ProjectError>(ProjectError::InvalidExtension)),
    {
        proof {
            crate::project::lemma_after_last_dot(file_name_spec(path@));
        }
        let doc = match Document::new(path) {
            Ok(d) => d,
            Err(e) => {
                return Err(e);
            },
        };
        let id = match raw_file_name(path) {
            Some(id) => id,
            None => {
                proof {
                    assert(file_name_spec(path@).len() >= 2);
                }
                vstd::pervasive::unreached()
            },
        };
        Ok(Section { title: String::new(), id, doc })
    }
}

} // verus!
