//! The core of a desktop application for a library of games.
//!
//! Its main part is a compiler for declarative theme documents: a layout
//! tree written by a theme author is resolved, normalised, styled, validated
//! and assembled into the tree that a renderer consumes. See [`load`] and
//! [`transform`].
//!
//! Around it stand the data of the application and the decisions that it
//! takes on them: the configuration and the changes it takes in, the profile
//! of the user, companions, shortcuts. Nothing here reads or writes outside
//! of memory; that is left to the application.

use crate::errors::{errors_view, ErrView, ThemeErr};
use crate::schema::ast::{
    document_wf, variables_view, AstThemeConfig, DocumentView, MetaView,
};
use crate::schema::ctx::ThemeContext;
use crate::schema::ir::ThemeIr;
use crate::schema::value::{members_wf, members_view, names_distinct, Value, ValueView};
use crate::transform::validate::document_errors;
use crate::transform::{compiled, prepared, run_fits};
use vstd::pervasive::unreached;
use vstd::prelude::*;

pub mod cmd;
pub mod companion;
pub mod config;
pub mod constant;
pub mod engine;
pub mod error;
pub mod errors;
pub mod game;
pub mod message;
pub mod processor;
pub mod schema;
pub mod screenshot;
pub mod shortcut;
pub mod state;
pub mod text;
pub mod theme;
pub mod transform;
pub mod user;
pub mod util;

verus! {

/// The variables of a document as the passes see them: each text is a
/// value.
pub open spec fn lifted(variables: Option<Seq<(Seq<char>, Seq<char>)>>) -> Seq<
    (Seq<char>, ValueView),
> {
    match variables {
        Some(list) => Seq::new(list.len(), |i: int| (list[i].0, ValueView::String(list[i].1))),
        None => Seq::empty(),
    }
}

/// The document without its variables.
pub open spec fn without_variables(d: DocumentView) -> DocumentView {
    DocumentView { config: MetaView { variables: None, ..d.config }, ..d }
}

/// The errors that compiling the document finds.
pub open spec fn load_errors(d: DocumentView) -> Seq<ErrView> {
    document_errors(prepared(without_variables(d), lifted(d.config.variables), 0))
}

/// Whether compiling the document stays within the machine's integers.
pub open spec fn load_fits(d: DocumentView) -> bool {
    run_fits(without_variables(d), lifted(d.config.variables), 0)
}

/// The variables of a document, where they are a mapping, are a mapping
/// as the passes see them.
pub proof fn lemma_lifted_wf(variables: Option<Seq<(Seq<char>, Seq<char>)>>)
    requires
        match variables {
            Some(list) => names_distinct(list),
            None => true,
        },
    ensures
        members_wf(lifted(variables)),
{
    match variables {
        Some(list) => {
            let out = lifted(variables);
            assert forall|i: int, j: int| 0 <= i < j < out.len() implies (#[trigger] out[i]).0 != (
            #[trigger] out[j]).0 by {
                assert(list[i].0 != list[j].0);
            }
        },
        None => {},
    }
}

fn lift(variables: Vec<(String, String)>) -> (out: Vec<(String, Value)>)
    ensures
        members_view(out@) == lifted(Some(variables_view(variables@))),
{
    let ghost wanted = lifted(Some(variables_view(variables@)));
    let mut out: Vec<(String, Value)> = Vec::new();
    for entry in iter: variables
        invariant
            iter.seq() == variables@,
            out@.len() == iter.index(),
            forall|j: int|
                0 <= j < iter.index() ==> (#[trigger] out@[j]).0@ == variables@[j].0@ && out@[j].1@
                    == ValueView::String(variables@[j].1@),
    {
        let (name, text) = entry;
        out.push((name, Value::String(text)));
    }
    assert(members_view(out@) =~= wanted);
    out
}

/// Whether `r` is what compiling the document `d` returns: the compiled
/// theme where no error is found, and the errors, all of them and in the
/// order in which they were found, where there is one.
pub open spec fn loads(d: DocumentView, r: Result<ThemeIr, Vec<ThemeErr>>) -> bool {
    match r {
        Ok(ir) => load_errors(d).len() == 0 && ir@ == compiled(
            without_variables(d),
            lifted(d.config.variables),
            0,
        ),
        Err(errors) => errors.len() > 0 && errors_view(errors@) == load_errors(d),
    }
}

/// Compiles a parsed theme document, in a context of its own: identities
/// count from 0, and the variables are those of the document.
///
/// Returns nothing where compiling does not stay within the machine's
/// integers; else the compiled theme where no error is found, and the
/// errors where there is one.
pub fn try_load(ast: AstThemeConfig) -> (r: Option<Result<ThemeIr, Vec<ThemeErr>>>)
    ensures
        r is Some == load_fits(ast@),
        r is Some ==> loads(ast@, r->0),
        ast.wf() ==> match r {
            Some(Ok(ir)) => ir.wf(),
            _ => true,
        },
{
    let mut ctx = ThemeContext::load();
    let mut ast = ast;
    let ghost source = ast@;
    match ast.config.variables.take() {
        Some(variables) => {
            ctx.variables = lift(variables);
        },
        None => {
            assert(members_view(ctx.variables@) =~= lifted(None));
        },
    }
    assert(ast@ == without_variables(source));
    proof {
        if document_wf(source) {
            lemma_lifted_wf(source.config.variables);
            assert(document_wf(ast@));
        }
    }
    assert(errors_view(ctx.err_list@) =~= Seq::<ErrView>::empty());
    match transform::try_run(ast, &mut ctx) {
        Some(built) => {
            assert(errors_view(ctx.err_list@) =~= load_errors(source));
            match built {
                Ok(ir) => {
                    if ctx.err_list.len() > 0 {
                        Some(Err(ctx.err_list))
                    } else {
                        Some(Ok(ir))
                    }
                },
                Err(errors) => Some(Err(errors)),
            }
        },
        None => None,
    }
}

/// Compiles a parsed theme document, in a context of its own: identities
/// count from 0, and the variables are those of the document.
///
/// Returns the compiled theme where no error is found, and the errors, all
/// of them and in the order in which they were found, where there is one.
pub fn load(ast: AstThemeConfig) -> (r: Result<ThemeIr, Vec<ThemeErr>>)
    requires
        load_fits(ast@),
    ensures
        loads(ast@, r),
        ast.wf() ==> match r {
            Ok(ir) => ir.wf(),
            _ => true,
        },
{
    match try_load(ast) {
        Some(r) => r,
        None => unreached(),
    }
}

} // verus!
