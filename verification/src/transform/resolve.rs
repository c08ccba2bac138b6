//! Variable resolution: references to the document's variables are
//! replaced by the values of the variables.

use crate::schema::ast::{
    lemma_children_view, strings_view, AstNode, AstThemeConfig, ContentView, DocumentView,
    NodeView,
};
use crate::schema::ctx::ThemeContext;
use crate::schema::value::{
    get, lemma_array_view, lemma_lookup_member, lemma_object_view, lemma_position_from,
    lemma_position_is, lookup, members_view, members_wf, number_text, position, value_wf, Value,
    ValueView,
};
use crate::text::{chars_of, matches_at, occurs_at, push_chars, string_of};
use crate::transform::identity::{
    ids_of, lemma_ids_alike, lemma_missing_alike, lemma_missing_pages_alike, missing_content,
    missing_doc, missing_ids,
};
use crate::transform::{
    lemma_walk_always_fits_doc, lemma_walked_doc_wf, walk_roots, walked, walked_all,
    walked_doc, LogicStep,
};
use vstd::prelude::*;

verus! {

/// The text that stands for a value inside a longer text: a text itself,
/// the numeral of a number, `true` or `false`; nothing for any other value.
pub open spec fn value_text(v: ValueView) -> Seq<char> {
    match v {
        ValueView::String(s) => s,
        ValueView::Number(n) => number_text(n),
        ValueView::Bool(b) => if b {
            "true"@
        } else {
            "false"@
        },
        _ => Seq::empty(),
    }
}

/// The token that refers to the variable `name`: a dollar sign and the
/// name.
pub open spec fn token(name: Seq<char>) -> Seq<char> {
    seq!['$'] + name
}

/// The place in the table of the longest name, among those of the first
/// `k` variables, that stands in `s` at `at`; of several variables of that
/// name, the first. It is -1 where no name stands there. The empty name
/// stands everywhere.
pub open spec fn longest_match(
    s: Seq<char>,
    vars: Seq<(Seq<char>, ValueView)>,
    at: int,
    k: int,
) -> int
    decreases k,
{
    if k <= 0 || k > vars.len() {
        -1
    } else {
        let before = longest_match(s, vars, at, k - 1);
        if occurs_at(s, at, vars[k - 1].0) && (before < 0 || vars[k - 1].0.len()
            > vars[before].0.len()) {
            k - 1
        } else {
            before
        }
    }
}

/// Whether `name` stands in `s` right behind the place `at`.
pub open spec fn stands_behind(s: Seq<char>, at: int, name: Seq<char>) -> bool {
    occurs_at(s, at + 1, name)
}

/// The place in the table of the variable that the dollar sign at `at`
/// refers to: of the longest name of the table that stands right behind
/// it. It is -1 where no name of the table stands there.
pub open spec fn referred(s: Seq<char>, vars: Seq<(Seq<char>, ValueView)>, at: int) -> int {
    longest_match(s, vars, at + 1, vars.len() as int)
}

/// What is left of `s` from `from` on, read once from left to right. At a
/// dollar sign right behind which one or more names of the table stand,
/// the text of the value of the longest of them stands for the dollar sign
/// and that name, and reading goes on behind the name; the text put in is
/// not read again. Every other character stays, a dollar sign behind which
/// no name of the table stands too.
pub open spec fn substituted_from(s: Seq<char>, vars: Seq<(Seq<char>, ValueView)>, from: int) -> Seq<
    char,
>
    decreases s.len() - from,
{
    let m = referred(s, vars, from);
    if from < 0 || from >= s.len() {
        Seq::empty()
    } else if s[from] == '$' && 0 <= m < vars.len() && from + 1 + vars[m].0.len() <= s.len() {
        value_text(vars[m].1) + substituted_from(s, vars, from + 1 + vars[m].0.len())
    } else {
        seq![s[from]] + substituted_from(s, vars, from + 1)
    }
}

/// `s` with the references to the variables of the table substituted: see
/// `substituted_from`.
pub open spec fn substituted(s: Seq<char>, vars: Seq<(Seq<char>, ValueView)>) -> Seq<char> {
    substituted_from(s, vars, 0)
}

/// Whether `s` is nothing but one reference: a dollar sign first, and no
/// blank anywhere.
pub open spec fn is_reference(s: Seq<char>) -> bool {
    s.len() > 0 && s[0] == '$' && !s.contains(' ')
}

/// What a text resolves to: the value of the variable, whatever its type,
/// where the text is nothing but a reference to a variable of the table;
/// else the text with its references substituted.
pub open spec fn resolved_text(s: Seq<char>, vars: Seq<(Seq<char>, ValueView)>) -> ValueView {
    if is_reference(s) && lookup(vars, s.skip(1)) is Some {
        lookup(vars, s.skip(1))->0
    } else {
        ValueView::String(substituted(s, vars))
    }
}

/// What a value resolves to: every text in it, at any depth of arrays and
/// objects, is resolved; names of members and all other values stay.
pub open spec fn resolved_value(v: ValueView, vars: Seq<(Seq<char>, ValueView)>) -> ValueView
    decreases v,
{
    match v {
        ValueView::String(s) => resolved_text(s, vars),
        ValueView::Array(items) => ValueView::Array(
            Seq::new(
                items.len(),
                |i: int|
                    if 0 <= i < items.len() {
                        resolved_value(items[i], vars)
                    } else {
                        arbitrary()
                    },
            ),
        ),
        ValueView::Object(members) => ValueView::Object(
            Seq::new(
                members.len(),
                |i: int|
                    if 0 <= i < members.len() {
                        (members[i].0, resolved_value(members[i].1, vars))
                    } else {
                        arbitrary()
                    },
            ),
        ),
        other => other,
    }
}

/// The members with each value resolved.
pub open spec fn resolved_members(
    members: Seq<(Seq<char>, ValueView)>,
    vars: Seq<(Seq<char>, ValueView)>,
) -> Seq<(Seq<char>, ValueView)> {
    Seq::new(members.len(), |i: int| (members[i].0, resolved_value(members[i].1, vars)))
}

/// The node with its own variables resolved: the references in each
/// presentation token are substituted, and each value of its style and of
/// its `props` is resolved.
pub open spec fn variables_replaced(n: NodeView, vars: Seq<(Seq<char>, ValueView)>) -> NodeView {
    NodeView {
        class_list: match n.class_list {
            Some(tokens) => Some(Seq::new(tokens.len(), |i: int| substituted(tokens[i], vars))),
            None => None,
        },
        inline_style: match n.inline_style {
            Some(members) => Some(resolved_members(members, vars)),
            None => None,
        },
        props: match n.props {
            Some(members) => Some(resolved_members(members, vars)),
            None => None,
        },
        ..n
    }
}

/// The characters that stand for `v` inside a longer text.
fn text_of(v: &Value) -> (out: Vec<char>)
    ensures
        out@ == value_text(v@),
{
    match v {
        Value::String(s) => chars_of(s.as_str()),
        Value::Number(n) => {
            let text = n.to_text();
            chars_of(text.as_str())
        },
        Value::Bool(b) => if *b {
            chars_of("true")
        } else {
            chars_of("false")
        },
        _ => Vec::new(),
    }
}

/// What `longest_match` returns: a variable whose name stands there, than
/// which no variable of the table has a longer name that stands there, and
/// before which none has one as long; or -1 where no name stands there.
pub proof fn lemma_longest_match(s: Seq<char>, vars: Seq<(Seq<char>, ValueView)>, at: int, k: int)
    requires
        0 <= k <= vars.len(),
    ensures
        -1 <= longest_match(s, vars, at, k) < k,
        longest_match(s, vars, at, k) >= 0 ==> occurs_at(
            s,
            at,
            vars[longest_match(s, vars, at, k)].0,
        ),
        forall|j: int|
            0 <= j < k && occurs_at(s, at, (#[trigger] vars[j]).0) ==> {
                let m = longest_match(s, vars, at, k);
                &&& m >= 0
                &&& vars[j].0.len() <= vars[m].0.len()
                &&& vars[j].0.len() == vars[m].0.len() ==> m <= j
            },
    decreases k,
{
    if k > 0 {
        lemma_longest_match(s, vars, at, k - 1);
    }
}

/// The characters of the names of the variables, in the order of the
/// table.
fn names_of(variables: &Vec<(String, Value)>) -> (names: Vec<Vec<char>>)
    ensures
        names@.len() == variables@.len(),
        forall|k: int| 0 <= k < names@.len() ==> (#[trigger] names@[k])@ == variables@[k].0@,
{
    let mut names: Vec<Vec<char>> = Vec::new();
    let mut k: usize = 0;
    while k < variables.len()
        invariant
            k <= variables.len(),
            names@.len() == k,
            forall|j: int| 0 <= j < k ==> (#[trigger] names@[j])@ == variables@[j].0@,
        decreases variables.len() - k,
    {
        names.push(chars_of(variables[k].0.as_str()));
        k = k + 1;
    }
    names
}

/// Substitutes the references to the variables in `s`: see `substituted`.
pub fn replace_inline_tokens(s: &str, ctx: &ThemeContext) -> (out: String)
    ensures
        out@ == substituted(s@, members_view(ctx.variables@)),
{
    let ghost vars = members_view(ctx.variables@);
    let chars = chars_of(s);
    let names = names_of(&ctx.variables);
    let mut out: Vec<char> = Vec::new();
    let mut i: usize = 0;
    assert(Seq::<char>::empty() + substituted_from(s@, vars, 0) =~= substituted(s@, vars));
    while i < chars.len()
        invariant
            i <= chars.len(),
            chars@ == s@,
            vars == members_view(ctx.variables@),
            names@.len() == ctx.variables@.len(),
            forall|k: int| 0 <= k < names@.len() ==> (#[trigger] names@[k])@ == vars[k].0,
            out@ + substituted_from(s@, vars, i as int) == substituted(s@, vars),
        decreases chars.len() - i,
    {
        let ghost before = out@;
        let mut best: Option<usize> = None;
        if chars[i] == '$' {
            let mut k: usize = 0;
            while k < names.len()
                invariant
                    k <= names.len(),
                    i < chars.len(),
                    chars@ == s@,
                    names@.len() == vars.len(),
                    forall|j: int| 0 <= j < names@.len() ==> (#[trigger] names@[j])@ == vars[j].0,
                    match best {
                        Some(m) => m < k && longest_match(s@, vars, i + 1, k as int) == m,
                        None => longest_match(s@, vars, i + 1, k as int) == -1,
                    },
                decreases names.len() - k,
            {
                if matches_at(&chars, i + 1, &names[k]) {
                    let longer = match best {
                        Some(m) => names[k].len() > names[m].len(),
                        None => true,
                    };
                    if longer {
                        best = Some(k);
                    }
                }
                k = k + 1;
            }
            proof {
                lemma_longest_match(s@, vars, i + 1, vars.len() as int);
            }
        }
        match best {
            Some(m) => {
                let text = text_of(&ctx.variables[m].1);
                push_chars(&mut out, &text);
                let next = i + 1 + names[m].len();
                assert(out@ + substituted_from(s@, vars, next as int) =~= before + (value_text(
                    vars[m as int].1,
                ) + substituted_from(s@, vars, next as int)));
                i = next;
            },
            None => {
                out.push(chars[i]);
                assert(out@ + substituted_from(s@, vars, i + 1) =~= before + (seq![s@[i as int]]
                    + substituted_from(s@, vars, i + 1)));
                i = i + 1;
            },
        }
    }
    assert(out@ + Seq::<char>::empty() =~= out@);
    string_of(&out)
}

/// Whether `c` occurs in `s`.
fn has_char(s: &Vec<char>, c: char) -> (found: bool)
    ensures
        found == s@.contains(c),
{
    let mut i: usize = 0;
    while i < s.len()
        invariant
            i <= s.len(),
            forall|j: int| 0 <= j < i ==> s@[j] != c,
        decreases s.len() - i,
    {
        if s[i] == c {
            return true;
        }
        i = i + 1;
    }
    false
}

/// Resolves one text: see `resolved_text`.
pub fn resolve_smart_value(s: &str, ctx: &ThemeContext) -> (out: Value)
    ensures
        out@ == resolved_text(s@, members_view(ctx.variables@)),
{
    let chars = chars_of(s);
    if chars.len() > 0 && chars[0] == '$' && !has_char(&chars, ' ') {
        let mut name: Vec<char> = Vec::new();
        let mut i: usize = 1;
        while i < chars.len()
            invariant
                1 <= i <= chars.len(),
                name@ == chars@.subrange(1, i as int),
            decreases chars.len() - i,
        {
            name.push(chars[i]);
            i = i + 1;
        }
        assert(name@ =~= s@.skip(1));
        let key = string_of(&name);
        match get(&ctx.variables, key.as_str()) {
            Some(actual) => {
                return actual.clone();
            },
            None => {},
        }
    }
    Value::String(replace_inline_tokens(s, ctx))
}

/// Resolves every text of a value in place: see `resolved_value`.
pub fn deep_resolve_value(v: &mut Value, ctx: &ThemeContext)
    ensures
        final(v)@ == resolved_value(old(v)@, members_view(ctx.variables@)),
    decreases *old(v),
{
    let ghost vars = members_view(ctx.variables@);
    match v {
        Value::String(s) => {
            let r = resolve_smart_value(s.as_str(), ctx);
            *v = r;
        },
        Value::Array(items) => {
            let ghost before = items@;
            let mut i: usize = 0;
            while i < items.len()
                invariant
                    i <= items.len(),
                    items@.len() == before.len(),
                    vars == members_view(ctx.variables@),
                    forall|j: int|
                        0 <= j < i ==> (#[trigger] items@[j])@ == resolved_value(before[j]@, vars),
                    forall|j: int| i <= j < before.len() ==> items@[j] == before[j],
                    forall|j: int|
                        0 <= j < before.len() ==> decreases_to!(*old(v) => #[trigger] before[j]),
                decreases items.len() - i,
            {
                deep_resolve_value(&mut items[i], ctx);
                i = i + 1;
            }
            proof {
                lemma_array_view(*items);
                lemma_array_view(old(v)->Array_0);
                assert(v@->Array_0 =~= resolved_value(old(v)@, vars)->Array_0);
            }
        },
        Value::Object(members) => {
            let ghost before = members@;
            resolve_members(members, ctx);
            proof {
                lemma_object_view(*members);
                lemma_object_view(old(v)->Object_0);
                assert(v@->Object_0 =~= resolved_value(old(v)@, vars)->Object_0);
            }
        },
        _ => {},
    }
}

/// Resolves the value of every member in place.
pub fn resolve_members(members: &mut Vec<(String, Value)>, ctx: &ThemeContext)
    ensures
        members_view(final(members)@) == resolved_members(
            members_view(old(members)@),
            members_view(ctx.variables@),
        ),
    decreases *old(members),
{
    let ghost vars = members_view(ctx.variables@);
    let ghost before = members@;
    let mut i: usize = 0;
    while i < members.len()
        invariant
            i <= members.len(),
            members@.len() == before.len(),
            before == old(members)@,
            vars == members_view(ctx.variables@),
            forall|j: int|
                0 <= j < i ==> (#[trigger] members@[j]).0 == before[j].0 && members@[j].1@
                    == resolved_value(before[j].1@, vars),
            forall|j: int| i <= j < before.len() ==> members@[j] == before[j],
            forall|j: int|
                0 <= j < before.len() ==> decreases_to!(*old(members) => (#[trigger] before[j]).1),
        decreases members.len() - i,
    {
        deep_resolve_value(&mut members[i].1, ctx);
        i = i + 1;
    }
    assert(members_view(members@) =~= resolved_members(members_view(before), vars));
}

/// Resolves the variables of one node in place: see `variables_replaced`.
pub fn replace_variables(node: &mut AstNode, ctx: &ThemeContext)
    ensures
        final(node)@ == variables_replaced(old(node)@, members_view(ctx.variables@)),
{
    let ghost vars = members_view(ctx.variables@);
    match &mut node.class_list {
        Some(class_list) => {
            let ghost before = class_list@;
            let mut i: usize = 0;
            while i < class_list.len()
                invariant
                    i <= class_list.len(),
                    class_list@.len() == before.len(),
                    vars == members_view(ctx.variables@),
                    forall|j: int|
                        0 <= j < i ==> (#[trigger] class_list@[j])@ == substituted(before[j]@, vars),
                    forall|j: int| i <= j < before.len() ==> class_list@[j] == before[j],
                decreases class_list.len() - i,
            {
                let fresh = replace_inline_tokens(class_list[i].as_str(), ctx);
                class_list[i] = fresh;
                i = i + 1;
            }
            assert(strings_view(class_list@) =~= variables_replaced(old(node)@, vars).class_list->0);
        },
        None => {},
    }
    match &mut node.inline_style {
        Some(style) => {
            resolve_members(style, ctx);
        },
        None => {},
    }
    match &mut node.props {
        Some(props) => {
            resolve_members(props, ctx);
        },
        None => {},
    }
    proof {
        lemma_children_view(*node);
        lemma_children_view(*old(node));
    }
}

/// The document with the variables of every node resolved.
pub open spec fn resolved_doc(d: DocumentView, vars: Seq<(Seq<char>, ValueView)>) -> DocumentView {
    walked_doc(LogicStep::ReplaceVariables, vars, d)
}

/// Resolves the variables of every node of the document, against the
/// variables of the context.
pub fn resolve_variables(ast: &mut AstThemeConfig, ctx: &ThemeContext)
    ensures
        final(ast)@ == resolved_doc(old(ast)@, members_view(ctx.variables@)),
        old(ast).wf() && ctx.wf() ==> final(ast).wf(),
{
    proof {
        if ast.wf() && ctx.wf() {
            lemma_walked_doc_wf(
                LogicStep::ReplaceVariables,
                members_view(ctx.variables@),
                ast@,
            );
        }
        lemma_walk_always_fits_doc(
            LogicStep::ReplaceVariables,
            members_view(ctx.variables@),
            ast@,
        );
    }
    let ok = walk_roots(ast, ctx, LogicStep::ReplaceVariables);
    assert(ok);
}

/// Resolving the variables of a tree changes nothing in the identities
/// that it misses.
pub proof fn lemma_resolved_misses(n: NodeView, vars: Seq<(Seq<char>, ValueView)>)
    ensures
        missing_ids(walked(LogicStep::ReplaceVariables, vars, n)) == missing_ids(n),
    decreases n,
{
    let step = LogicStep::ReplaceVariables;
    match n.children {
        Some(kids) => {
            let below = walked_all(step, vars, kids);
            assert forall|i: int| 0 <= i < kids.len() implies missing_ids(#[trigger] below[i])
                == missing_ids(kids[i]) by {
                lemma_resolved_misses(kids[i], vars);
            }
            lemma_missing_alike(below, kids, kids.len() as int);
        },
        None => {},
    }
}

/// Resolving the variables of a document changes nothing in the identities
/// that it misses.
pub proof fn lemma_resolved_doc_misses(d: DocumentView, vars: Seq<(Seq<char>, ValueView)>)
    ensures
        missing_doc(resolved_doc(d, vars)) == missing_doc(d),
{
    let out = resolved_doc(d, vars);
    match d.layout.global {
        Some(Some(node)) => {
            lemma_resolved_misses(node, vars);
        },
        _ => {},
    }
    let pages = d.layout.pages;
    assert forall|i: int| 0 <= i < pages.len() implies missing_content(
        (#[trigger] out.layout.pages[i]).1.content,
    ) == missing_content(pages[i].1.content) by {
        match pages[i].1.content {
            ContentView::One(node) => {
                lemma_resolved_misses(node, vars);
            },
            ContentView::Many(nodes) => {
                let resolved = out.layout.pages[i].1.content->Many_0;
                assert forall|j: int| 0 <= j < nodes.len() implies missing_ids(
                    #[trigger] resolved[j],
                ) == missing_ids(nodes[j]) by {
                    lemma_resolved_misses(nodes[j], vars);
                }
                lemma_missing_alike(resolved, nodes, nodes.len() as int);
            },
        }
    }
    lemma_missing_pages_alike(out.layout.pages, pages, pages.len() as int);
}

/// A text that is nothing but a reference to a variable of the table
/// resolves to the value of the variable itself, of whatever type it is: a
/// number stays a number, a boolean a boolean.
pub proof fn lemma_pure_reference(name: Seq<char>, vars: Seq<(Seq<char>, ValueView)>)
    requires
        !name.contains(' '),
        lookup(vars, name) is Some,
    ensures
        resolved_text(token(name), vars) == lookup(vars, name)->0,
{
    let s = token(name);
    assert(s.skip(1) =~= name);
    if s.contains(' ') {
        let i = choose|i: int| 0 <= i < s.len() && s[i] == ' ';
        assert(name[i - 1] == ' ');
    }
}

/// Any other text resolves to a text: to itself with the references to the
/// variables substituted.
pub proof fn lemma_mixed_is_text(s: Seq<char>, vars: Seq<(Seq<char>, ValueView)>)
    requires
        !is_reference(s) || lookup(vars, s.skip(1)) is None,
    ensures
        resolved_text(s, vars) == ValueView::String(substituted(s, vars)),
{
}

/// The variable that a dollar sign refers to is the one that the table
/// binds to its name: of several variables of that name, the first.
pub proof fn lemma_referred_is_lookup(s: Seq<char>, vars: Seq<(Seq<char>, ValueView)>, at: int)
    requires
        referred(s, vars, at) >= 0,
    ensures
        referred(s, vars, at) < vars.len(),
        occurs_at(s, at + 1, vars[referred(s, vars, at)].0),
        lookup(vars, vars[referred(s, vars, at)].0) == Some(vars[referred(s, vars, at)].1),
{
    let m = referred(s, vars, at);
    lemma_longest_match(s, vars, at + 1, vars.len() as int);
    assert forall|j: int| 0 <= j < m implies (#[trigger] vars[j]).0 != vars[m].0 by {
        if vars[j].0 == vars[m].0 {
            assert(occurs_at(s, at + 1, vars[j].0));
        }
    }
    lemma_position_is(vars, vars[m].0, m);
}

/// A text in which no name of the table stands right behind a dollar sign
/// stays as it is: references to unknown variables are left where they
/// stand.
pub proof fn lemma_unknown_stays(s: Seq<char>, vars: Seq<(Seq<char>, ValueView)>, from: int)
    requires
        0 <= from <= s.len(),
        forall|at: int, j: int|
            from <= at < s.len() && s[at] == '$' && 0 <= j < vars.len() ==> !#[trigger] stands_behind(
                s,
                at,
                vars[j].0,
            ),
    ensures
        substituted_from(s, vars, from) == s.skip(from),
    decreases s.len() - from,
{
    if from < s.len() {
        lemma_unknown_stays(s, vars, from + 1);
        if s[from] == '$' {
            lemma_longest_match(s, vars, from + 1, vars.len() as int);
            let m = referred(s, vars, from);
            if m >= 0 {
                assert(!stands_behind(s, from, vars[m].0));
            }
        }
        assert(seq![s[from]] + s.skip(from + 1) =~= s.skip(from));
    } else {
        assert(s.skip(from) =~= Seq::<char>::empty());
    }
}

/// Two tables that bind the same names to the same values refer a dollar
/// sign to the same name and the same value, or both to none.
pub proof fn lemma_referred_alike(
    s: Seq<char>,
    a: Seq<(Seq<char>, ValueView)>,
    b: Seq<(Seq<char>, ValueView)>,
    at: int,
)
    requires
        forall|name: Seq<char>| #[trigger] lookup(a, name) == lookup(b, name),
    ensures
        referred(s, a, at) < 0 <==> referred(s, b, at) < 0,
        referred(s, a, at) >= 0 ==> a[referred(s, a, at)] == b[referred(s, b, at)],
{
    let ma = referred(s, a, at);
    let mb = referred(s, b, at);
    lemma_longest_match(s, a, at + 1, a.len() as int);
    lemma_longest_match(s, b, at + 1, b.len() as int);
    if ma >= 0 {
        lemma_referred_is_lookup(s, a, at);
        let name = a[ma].0;
        assert(lookup(a, name) == lookup(b, name));
        lemma_position_from(b, name, 0);
        let p = position(b, name);
        assert(occurs_at(s, at + 1, b[p].0));
    }
    if mb >= 0 {
        lemma_referred_is_lookup(s, b, at);
        let name = b[mb].0;
        assert(lookup(a, name) == lookup(b, name));
        lemma_position_from(a, name, 0);
        let p = position(a, name);
        assert(occurs_at(s, at + 1, a[p].0));
    }
    if ma >= 0 {
        assert(a[ma].0.len() == b[mb].0.len());
        assert(a[ma].0 =~= b[mb].0);
        assert(lookup(a, a[ma].0) == lookup(b, a[ma].0));
    }
}

/// What a text becomes depends on the table only by what each name is
/// bound to, not by the order in which the table holds its variables.
pub proof fn lemma_substituted_by_lookup(
    s: Seq<char>,
    a: Seq<(Seq<char>, ValueView)>,
    b: Seq<(Seq<char>, ValueView)>,
    from: int,
)
    requires
        forall|name: Seq<char>| #[trigger] lookup(a, name) == lookup(b, name),
    ensures
        substituted_from(s, a, from) == substituted_from(s, b, from),
    decreases s.len() - from,
{
    if 0 <= from < s.len() {
        lemma_referred_alike(s, a, b, from);
        let m = referred(s, a, from);
        lemma_longest_match(s, a, from + 1, a.len() as int);
        lemma_longest_match(s, b, from + 1, b.len() as int);
        if s[from] == '$' && m >= 0 {
            lemma_substituted_by_lookup(s, a, b, from + 1 + a[m].0.len());
        } else {
            lemma_substituted_by_lookup(s, a, b, from + 1);
        }
    }
}

/// The reference to a variable of the table becomes the text of the
/// variable's value, where no longer name of the table stands in its place;
/// reading goes on behind the name.
pub proof fn lemma_token_substituted(
    s: Seq<char>,
    at: int,
    name: Seq<char>,
    vars: Seq<(Seq<char>, ValueView)>,
)
    requires
        0 <= at < s.len(),
        s[at] == '$',
        stands_behind(s, at, name),
        lookup(vars, name) is Some,
        forall|j: int|
            0 <= j < vars.len() && stands_behind(s, at, (#[trigger] vars[j]).0)
                ==> vars[j].0.len() <= name.len(),
    ensures
        substituted_from(s, vars, at) == value_text(lookup(vars, name)->0) + substituted_from(
            s,
            vars,
            at + 1 + name.len(),
        ),
{
    lemma_position_from(vars, name, 0);
    let p = position(vars, name);
    assert(occurs_at(s, at + 1, vars[p].0));
    lemma_longest_match(s, vars, at + 1, vars.len() as int);
    lemma_referred_is_lookup(s, vars, at);
    let m = referred(s, vars, at);
    assert(vars[m].0.len() == name.len());
    assert(vars[m].0 =~= name);
}

/// Where a name of the table stands behind every dollar sign of a text,
/// and the text of no value holds a dollar sign, no dollar sign is left:
/// every reference is resolved.
pub proof fn lemma_known_resolved(s: Seq<char>, vars: Seq<(Seq<char>, ValueView)>, from: int)
    requires
        0 <= from <= s.len(),
        forall|at: int| from <= at < s.len() && s[at] == '$' ==> #[trigger] referred(s, vars, at) >= 0,
        forall|j: int| 0 <= j < vars.len() ==> !value_text((#[trigger] vars[j]).1).contains('$'),
    ensures
        !substituted_from(s, vars, from).contains('$'),
    decreases s.len() - from,
{
    let out = substituted_from(s, vars, from);
    if from < s.len() {
        if s[from] == '$' {
            let m = referred(s, vars, from);
            assert(m >= 0);
            lemma_longest_match(s, vars, from + 1, vars.len() as int);
            let next = from + 1 + vars[m].0.len();
            lemma_known_resolved(s, vars, next);
            let text = value_text(vars[m].1);
            let rest = substituted_from(s, vars, next);
            if out.contains('$') {
                let i = choose|i: int| 0 <= i < out.len() && out[i] == '$';
                if i < text.len() {
                    assert(text[i] == '$');
                } else {
                    assert(rest[i - text.len()] == '$');
                }
            }
        } else {
            lemma_known_resolved(s, vars, from + 1);
            let rest = substituted_from(s, vars, from + 1);
            if out.contains('$') {
                let i = choose|i: int| 0 <= i < out.len() && out[i] == '$';
                if i > 0 {
                    assert(rest[i - 1] == '$');
                }
            }
        }
    }
}

/// Resolving the variables of a tree changes nothing in its shape: every
/// node keeps its identity, its kind, its place among the nodes, and what
/// it consumes, triggers and hooks; only presentation tokens, styles and
/// `props` can change.
pub proof fn lemma_resolved_keeps_shape(n: NodeView, vars: Seq<(Seq<char>, ValueView)>)
    ensures
        ids_of(walked(LogicStep::ReplaceVariables, vars, n)) == ids_of(n),
        walked(LogicStep::ReplaceVariables, vars, n).id == n.id,
        walked(LogicStep::ReplaceVariables, vars, n).nt == n.nt,
        walked(LogicStep::ReplaceVariables, vars, n).consume == n.consume,
        walked(LogicStep::ReplaceVariables, vars, n).actions == n.actions,
        walked(LogicStep::ReplaceVariables, vars, n).hooks == n.hooks,
        walked(LogicStep::ReplaceVariables, vars, n).children is Some <==> n.children is Some,
        n.children is Some ==> walked(LogicStep::ReplaceVariables, vars, n).children->0.len()
            == n.children->0.len(),
    decreases n,
{
    let step = LogicStep::ReplaceVariables;
    match n.children {
        Some(kids) => {
            let below = walked_all(step, vars, kids);
            assert forall|i: int| 0 <= i < kids.len() implies ids_of(#[trigger] below[i]) == ids_of(
                kids[i],
            ) by {
                lemma_resolved_keeps_shape(kids[i], vars);
            }
            lemma_ids_alike(below, kids, kids.len() as int);
        },
        None => {},
    }
}

/// Resolving a well-formed value against well-formed variables leaves it
/// well formed.
pub proof fn lemma_resolved_value_wf(v: ValueView, vars: Seq<(Seq<char>, ValueView)>)
    requires
        value_wf(v),
        members_wf(vars),
    ensures
        value_wf(resolved_value(v, vars)),
    decreases v,
{
    match v {
        ValueView::String(s) => {
            if is_reference(s) && lookup(vars, s.skip(1)) is Some {
                lemma_lookup_member(vars, s.skip(1));
            }
        },
        ValueView::Array(items) => {
            let out = resolved_value(v, vars)->Array_0;
            assert forall|i: int| 0 <= i < out.len() implies value_wf(#[trigger] out[i]) by {
                assert(value_wf(items[i]));
                lemma_resolved_value_wf(items[i], vars);
            }
        },
        ValueView::Object(members) => {
            let out = resolved_value(v, vars)->Object_0;
            assert forall|i: int| 0 <= i < out.len() implies value_wf(
                (#[trigger] out[i]).1,
            ) by {
                assert(value_wf(members[i].1));
                lemma_resolved_value_wf(members[i].1, vars);
            }
            assert forall|i: int, j: int| 0 <= i < j < out.len() implies (#[trigger] out[i]).0 != (
            #[trigger] out[j]).0 by {
                assert(members[i].0 != members[j].0);
            }
        },
        _ => {},
    }
}

/// Resolving the values of well-formed members against well-formed
/// variables leaves the members well formed.
pub proof fn lemma_resolved_members_wf(
    m: Seq<(Seq<char>, ValueView)>,
    vars: Seq<(Seq<char>, ValueView)>,
)
    requires
        members_wf(m),
        members_wf(vars),
    ensures
        members_wf(resolved_members(m, vars)),
{
    let out = resolved_members(m, vars);
    assert forall|i: int| 0 <= i < out.len() implies value_wf((#[trigger] out[i]).1) by {
        assert(value_wf(m[i].1));
        lemma_resolved_value_wf(m[i].1, vars);
    }
    assert forall|i: int, j: int| 0 <= i < j < out.len() implies (#[trigger] out[i]).0 != (
    #[trigger] out[j]).0 by {
        assert(m[i].0 != m[j].0);
    }
}

} // verus!
