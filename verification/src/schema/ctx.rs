//! The state of one compilation.

use crate::errors::ThemeErr;
use crate::schema::value::{members_wf, members_view, Value};
use vstd::prelude::*;

verus! {

/// What one compilation carries from pass to pass: the next identity to
/// hand out, the errors found so far, and the variables of the document.
#[derive(Debug, PartialEq, Eq)]
pub struct ThemeContext {
    pub id_idx: u32,
    pub err_list: Vec<ThemeErr>,
    pub variables: Vec<(String, Value)>,
}

impl ThemeContext {
    /// Whether the context is well formed: its variables are a mapping, no
    /// name occurs twice, and their values are well formed.
    pub open spec fn wf(&self) -> bool {
        members_wf(members_view(self.variables@))
    }

    /// A fresh context: identities start at 0, no error, no variable.
    pub fn load() -> (ctx: ThemeContext)
        ensures
            ctx.id_idx == 0,
            ctx.err_list@ == Seq::<ThemeErr>::empty(),
            ctx.variables@ == Seq::<(String, Value)>::empty(),
            ctx.wf(),
    {
        ThemeContext { id_idx: 0, err_list: Vec::new(), variables: Vec::new() }
    }
}

} // verus!
