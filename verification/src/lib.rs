//! A compiler for a line-oriented plain-text markup: headers, paragraphs,
//! comments, inline emphasis and nested bullet lists, rendered to HTML.
//!
//! The pipeline has three stages: a line-level front end
//! ([`parser::lir`]), a lowering engine that merges paragraph runs, nests
//! lists by indentation and pairs emphasis delimiters ([`parser::hir`]),
//! and a rendering backend ([`backend`]).

pub mod ast;
pub mod backend;
pub mod error;
pub mod gen;
pub mod parser;

pub use crate::backend::Backend;
pub use crate::backend::HtmlBackend;
pub use crate::backend::PdfBackend;
pub use crate::error::Error;
pub use crate::error::Result;

use vstd::prelude::*;

verus! {

/// Compile a source text to HTML: its headers, merged paragraphs and
/// nested lists inside one root element, literal text escaped.  The
/// pipeline is total, so this always succeeds.
pub fn compile_html(source_code: &str) -> (r: Result<String, HtmlBackend>)
    ensures
        r matches Ok(s) && s@ == backend::render_document(
            parser::hir::lower(parser::lir::spec_parse(source_code@)),
            "<div class=\"writer4-doc\">"@,
            "<br>"@,
        ),
{
    match HtmlBackend::compile(source_code) {
        Ok(s) => Ok(s),
        Err(e) => {
            proof {
                assert(false);
            }
            Err(e)
        },
    }
}

/// Compile a source text with the PDF backend, which has no rendering
/// yet: this always fails with the backend's error.
pub fn compile_pdf(source_code: &str) -> (r: Result<std::convert::Infallible, PdfBackend>)
    ensures
        r matches Err(e) && e matches Error::Backend(_),
{
    match PdfBackend::compile(source_code) {
        Ok(out) => {
            proof {
                assert(false);
            }
            Ok(out)
        },
        Err(e) => Err(e),
    }
}

} // verus!
