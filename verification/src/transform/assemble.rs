//! Assembly: the document, with all passes behind it, becomes the compiled
//! theme.

use crate::schema::ast::AstThemeConfig;
use crate::schema::ctx::ThemeContext;
use crate::schema::ir::{assembled_doc, document_identified, ThemeIr};
use vstd::prelude::*;

verus! {

/// Compiles the document: see `assembled_doc`. The document is consumed.
pub fn run(ast: AstThemeConfig, ctx: &mut ThemeContext) -> (ir: ThemeIr)
    requires
        document_identified(ast@),
    ensures
        ir@ == assembled_doc(ast@),
        *final(ctx) == *old(ctx),
        ast.wf() ==> ir.wf(),
{
    ThemeIr::from(ast)
}

} // verus!
