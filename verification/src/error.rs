//! The pipeline's error: a front-end error, a lowering error, or the
//! backend's own error.

use crate::backend::Backend;
use crate::parser;
use vstd::prelude::*;

verus! {

pub type Result<T, B> = std::result::Result<T, Error<<B as Backend>::Error>>;

#[derive(Debug)]
pub enum Error<E> {
    LirParser(parser::lir::Error),
    HirParser(parser::hir::Error),
    Backend(E),
}

} // verus!
