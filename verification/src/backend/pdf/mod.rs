//! The PDF backend: an acknowledged extension point.  It shares the HTML
//! backend's input contract but has no rendering yet, so compiling with
//! it always fails.

use crate::ast::hir;
use vstd::prelude::*;

verus! {

#[derive(Debug)]
pub struct PdfBackend;

/// The PDF backend's error: it has no rendering yet.
#[derive(Debug)]
pub enum Error {
    Unsupported,
}

impl super::Backend for PdfBackend {
    type Output = std::convert::Infallible;

    type Error = Error;

    open spec fn compile_hir_post(
        d: Seq<hir::StatementView>,
        r: Result<std::convert::Infallible, Error>,
    ) -> bool {
        r matches Err(Error::Unsupported)
    }

    fn compile_hir(document: &hir::Document) -> Result<std::convert::Infallible, Error> {
        Err(Error::Unsupported)
    }
}

} // verus!
