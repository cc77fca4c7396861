//! Errors of rendering. Failures of outside work (JSON decoding, config
//! parsing, template engines) carry their message.

use vstd::prelude::*;

use crate::sparql::QjsonError;
use crate::text::{owned, push_str};

verus! {

#[derive(Debug)]
pub enum QRenderError {
    Fetch(QjsonError),
    Parse(String),
    Config(String),
    Template(String),
    Render(String),
    Factoid(String),
    UnknownRenderer(String),
    UnsupportedFormat(String),
}

impl QRenderError {
    pub open spec fn text(&self) -> Seq<char> {
        match self {
            QRenderError::Fetch(e) => "failed to fetch Wikidata item: "@ + e.text(),
            QRenderError::Parse(m) => "failed to parse response JSON: "@ + m@,
            QRenderError::Config(m) => "invalid grouping config: "@ + m@,
            QRenderError::Template(m) => "template error: "@ + m@,
            QRenderError::Render(m) => "render error: "@ + m@,
            QRenderError::Factoid(m) => "factoid template error: "@ + m@,
            QRenderError::UnknownRenderer(m) => "unknown renderer: "@ + m@,
            QRenderError::UnsupportedFormat(m) => "format not supported by this render path: "@ + m@,
        }
    }

    /// The error as a sentence.
    pub fn message(&self) -> (res: String)
        ensures
            res@ == self.text(),
    {
        let (head, tail) = match self {
            QRenderError::Fetch(e) => ("failed to fetch Wikidata item: ", e.message()),
            QRenderError::Parse(m) => ("failed to parse response JSON: ", m.clone()),
            QRenderError::Config(m) => ("invalid grouping config: ", m.clone()),
            QRenderError::Template(m) => ("template error: ", m.clone()),
            QRenderError::Render(m) => ("render error: ", m.clone()),
            QRenderError::Factoid(m) => ("factoid template error: ", m.clone()),
            QRenderError::UnknownRenderer(m) => ("unknown renderer: ", m.clone()),
            QRenderError::UnsupportedFormat(m) => ("format not supported by this render path: ", m.clone()),
        };
        let mut out = owned(head);
        push_str(&mut out, tail.as_str());
        out
    }
}

} // verus!
