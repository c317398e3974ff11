//! Source and output formats of the pipeline, with the mappings between
//! format names, file extensions and renderers.

use vstd::prelude::*;
use crate::renderers::HtmlRenderer;
use crate::renderers::MarkdownRenderer;
use crate::renderers::NotebookRenderer;
use crate::renderers::RendererKind;
use crate::text::str_eq;

verus! {

broadcast use vstd::string::group_string_axioms;

/// Format of a source document.
#[derive(Debug, Clone, Copy, PartialEq, Eq, Structural)]
pub enum InputFormat {
    Markdown,
    Notebook,
}

/// Format of a produced artifact.
#[derive(Debug, Clone, Copy, PartialEq, Eq, Structural)]
pub enum OutputFormat {
    Markdown,
    Notebook,
    Html,
    Config,
}

/// An unrecognized file extension or format name.
#[derive(Debug, Clone, Copy, PartialEq, Eq, Structural)]
pub enum FormatError {
    UnknownInputExtension,
    UnknownInputName,
    UnknownOutputExtension,
    UnknownOutputName,
}

pub open spec fn input_extension_spec(f: InputFormat) -> Seq<char> {
    match f {
        InputFormat::Markdown => "md"@,
        InputFormat::Notebook => "ipynb"@,
    }
}

pub open spec fn input_name_spec(f: InputFormat) -> Seq<char> {
    match f {
        InputFormat::Markdown => "markdown"@,
        InputFormat::Notebook => "notebook"@,
    }
}

impl InputFormat {
    /// The file extension that marks the format.
    pub fn extension(&self) -> (r: &str)
        ensures
            r@ == input_extension_spec(*self),
    {
        match self {
            InputFormat::Markdown => "md",
            InputFormat::Notebook => "ipynb",
        }
    }

    /// The name of the format.
    pub fn name(&self) -> (r: &str)
        ensures
            r@ == input_name_spec(*self),
    {
        match self {
            InputFormat::Markdown => "markdown",
            InputFormat::Notebook => "notebook",
        }
    }

    /// The format whose extension is `ext`, if any.
    pub fn from_extension(ext: &str) -> (r: Result<InputFormat, FormatError>)
        ensures
            ext@ == "md"@ ==> r == Ok::<InputFormat, FormatError>(InputFormat::Markdown),
            ext@ == "ipynb"@ ==> r == Ok::<InputFormat, FormatError>(InputFormat::Notebook),
            ext@ != "md"@ && ext@ != "ipynb"@ ==> r == Err::<InputFormat, FormatError>(
                FormatError::UnknownInputExtension,
            ),
    {
        proof {
            reveal_strlit("md");
            reveal_strlit("ipynb");
            assert("md"@.len() == 2);
            assert("ipynb"@.len() == 5);
        }
        if str_eq(ext, "md") {
            Ok(InputFormat::Markdown)
        } else if str_eq(ext, "ipynb") {
            Ok(InputFormat::Notebook)
        } else {
            Err(FormatError::UnknownInputExtension)
        }
    }

    /// The format named `name`, if any.
    pub fn from_name(name: &str) -> (r: Result<InputFormat, FormatError>)
        ensures
            name@ == "markdown"@ ==> r == Ok::<InputFormat, FormatError>(InputFormat::Markdown),
            name@ == "notebook"@ ==> r == Ok::<InputFormat, FormatError>(InputFormat::Notebook),
            name@ != "markdown"@ && name@ != "notebook"@ ==> r == Err::<InputFormat, FormatError>(
                FormatError::UnknownInputName,
            ),
    {
        proof {
            reveal_strlit("markdown");
            reveal_strlit("notebook");
            assert("markdown"@[0] == 'm');
            assert("notebook"@[0] == 'n');
        }
        if str_eq(name, "markdown") {
            Ok(InputFormat::Markdown)
        } else if str_eq(name, "notebook") {
            Ok(InputFormat::Notebook)
        } else {
            Err(FormatError::UnknownInputName)
        }
    }
}

pub open spec fn output_extension_spec(f: OutputFormat) -> Seq<char> {
    match f {
        OutputFormat::Markdown => "md"@,
        OutputFormat::Notebook => "ipynb"@,
        OutputFormat::Html => "html"@,
        OutputFormat::Config => "yml"@,
    }
}

pub open spec fn output_template_extension_spec(f: OutputFormat) -> Seq<char> {
    match f {
        OutputFormat::Markdown => "md"@,
        OutputFormat::Notebook => "md"@,
        OutputFormat::Html => "html"@,
        OutputFormat::Config => "yml"@,
    }
}

pub open spec fn output_name_spec(f: OutputFormat) -> Seq<char> {
    match f {
        OutputFormat::Markdown => "markdown"@,
        OutputFormat::Notebook => "notebook"@,
        OutputFormat::Html => "html"@,
        OutputFormat::Config => "config"@,
    }
}

impl OutputFormat {
    /// The format whose extension is `ext`, if any. The configuration
    /// format has no extension of its own.
    pub fn from_extension(ext: &str) -> (r: Result<OutputFormat, FormatError>)
        ensures
            ext@ == "md"@ ==> r == Ok::<OutputFormat, FormatError>(OutputFormat::Markdown),
            ext@ == "ipynb"@ ==> r == Ok::<OutputFormat, FormatError>(OutputFormat::Notebook),
            ext@ == "html"@ ==> r == Ok::<OutputFormat, FormatError>(OutputFormat::Html),
            ext@ != "md"@ && ext@ != "ipynb"@ && ext@ != "html"@ ==> r == Err::<
                OutputFormat,
                FormatError,
            >(FormatError::UnknownOutputExtension),
    {
        proof {
            reveal_strlit("md");
            reveal_strlit("ipynb");
            reveal_strlit("html");
            assert("md"@.len() == 2);
            assert("ipynb"@.len() == 5);
            assert("html"@.len() == 4);
        }
        if str_eq(ext, "md") {
            Ok(OutputFormat::Markdown)
        } else if str_eq(ext, "ipynb") {
            Ok(OutputFormat::Notebook)
        } else if str_eq(ext, "html") {
            Ok(OutputFormat::Html)
        } else {
            Err(FormatError::UnknownOutputExtension)
        }
    }

    /// The format named `name`, if any.
    pub fn from_name(name: &str) -> (r: Result<OutputFormat, FormatError>)
        ensures
            name@ == "markdown"@ ==> r == Ok::<OutputFormat, FormatError>(OutputFormat::Markdown),
            name@ == "notebook"@ ==> r == Ok::<OutputFormat, FormatError>(OutputFormat::Notebook),
            name@ == "html"@ ==> r == Ok::<OutputFormat, FormatError>(OutputFormat::Html),
            name@ == "config"@ ==> r == Ok::<OutputFormat, FormatError>(OutputFormat::Config),
            name@ != "markdown"@ && name@ != "notebook"@ && name@ != "html"@ && name@ != "config"@
                ==> r == Err::<OutputFormat, FormatError>(FormatError::UnknownOutputName),
    {
        proof {
            reveal_strlit("markdown");
            reveal_strlit("notebook");
            reveal_strlit("html");
            reveal_strlit("config");
            assert("markdown"@[0] == 'm');
            assert("notebook"@[0] == 'n');
            assert("markdown"@.len() == 8);
            assert("notebook"@.len() == 8);
            assert("html"@.len() == 4);
            assert("config"@.len() == 6);
        }
        if str_eq(name, "markdown") {
            Ok(OutputFormat::Markdown)
        } else if str_eq(name, "notebook") {
            Ok(OutputFormat::Notebook)
        } else if str_eq(name, "html") {
            Ok(OutputFormat::Html)
        } else if str_eq(name, "config") {
            Ok(OutputFormat::Config)
        } else {
            Err(FormatError::UnknownOutputName)
        }
    }

    /// The file extension used for artifacts of the format.
    pub fn extension(&self) -> (r: &str)
        ensures
            r@ == output_extension_spec(*self),
    {
        match self {
            OutputFormat::Markdown => "md",
            OutputFormat::Notebook => "ipynb",
            OutputFormat::Html => "html",
            OutputFormat::Config => "yml",
        }
    }

    /// The extension of the template files used for the format; notebook
    /// output is templated as markdown.
    pub fn template_extension(&self) -> (r: &str)
        ensures
            r@ == output_template_extension_spec(*self),
    {
        match self {
            OutputFormat::Markdown => "md",
            OutputFormat::Notebook => "md",
            OutputFormat::Html => "html",
            OutputFormat::Config => "yml",
        }
    }

    /// The name of the format.
    pub fn name(&self) -> (r: &str)
        ensures
            r@ == output_name_spec(*self),
    {
        match self {
            OutputFormat::Markdown => "markdown",
            OutputFormat::Notebook => "notebook",
            OutputFormat::Html => "html",
            OutputFormat::Config => "config",
        }
    }

    /// The renderer that writes the format from the event sequence: the
    /// markdown and notebook writers of this crate, and the HTML writer
    /// over the markup collaborator; only the configuration format is
    /// never rendered.
    pub fn renderer(&self) -> (r: Option<RendererKind>)
        ensures
            *self is Markdown ==> (r matches Some(k) && k is Markdown),
            *self is Notebook ==> (r matches Some(k) && k is Notebook),
            *self is Html ==> (r matches Some(k) && k is Html),
            *self is Config ==> r is None,
    {
        match self {
            OutputFormat::Markdown => Some(RendererKind::Markdown(MarkdownRenderer)),
            OutputFormat::Notebook => Some(RendererKind::Notebook(NotebookRenderer)),
            OutputFormat::Html => Some(RendererKind::Html(HtmlRenderer)),
            OutputFormat::Config => None,
        }
    }
}

} // verus!
