//! A verified course-content pipeline: documents are normalized into an
//! event sequence, threaded through text preprocessors and event
//! processors, and written back out. The exercise code split, the
//! shortcode expansion, the front-matter rules and the project tree's
//! flatten/rebuild protocol are specified and proved here; reading
//! files, the markup grammar and the template engine are outside
//! collaborators reached through narrow trusted items.

use vstd::prelude::*;

pub mod chain;
pub mod config;
pub mod document;
pub mod events;
pub mod extensions;
pub mod formats;
pub mod math;
pub mod notebook;
pub mod parser;
pub mod processors;
pub mod project;
pub mod renderers;
pub mod shortcodes;
pub mod split;
pub mod text;
