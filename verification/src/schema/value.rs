//! Dynamic values: the free-form data that a theme document carries in its
//! `props`, styles and action parameters.

use crate::text::{chars_of, int_text, push_int, string_of};
use vstd::prelude::*;

verus! {

/// A number of a dynamic value. Integers are held exactly; any other number
/// is held as its decimal text. A well-formed number holds a negative
/// integer as `NegInt` and any other integer as `PosInt`: see `number_wf`.
#[derive(Debug, PartialEq, Eq)]
pub enum Number {
    PosInt(u64),
    NegInt(i64),
    Float(String),
}

/// What a [`Number`] stands for: the integer that it holds, in the form in
/// which it holds it, or the text of another number.
pub enum NumberView {
    PosInt(int),
    NegInt(int),
    Float(Seq<char>),
}

/// A dynamic value. An object is an ordered list of named members.
#[derive(Debug, PartialEq, Eq)]
pub enum Value {
    Null,
    Bool(bool),
    Number(Number),
    String(String),
    Array(Vec<Value>),
    Object(Vec<(String, Value)>),
}

/// What a [`Value`] stands for.
pub enum ValueView {
    Null,
    Bool(bool),
    Number(NumberView),
    String(Seq<char>),
    Array(Seq<ValueView>),
    Object(Seq<(Seq<char>, ValueView)>),
}

impl View for Number {
    type V = NumberView;

    open spec fn view(&self) -> NumberView {
        match self {
            Number::PosInt(n) => NumberView::PosInt(*n as int),
            Number::NegInt(n) => NumberView::NegInt(*n as int),
            Number::Float(text) => NumberView::Float(text@),
        }
    }
}

/// The value that `v` stands for.
pub open spec fn value_view(v: Value) -> ValueView
    decreases v,
{
    match v {
        Value::Null => ValueView::Null,
        Value::Bool(b) => ValueView::Bool(b),
        Value::Number(n) => ValueView::Number(n@),
        Value::String(s) => ValueView::String(s@),
        Value::Array(items) => ValueView::Array(
            Seq::new(
                items@.len(),
                |i: int|
                    if 0 <= i < items@.len() {
                        value_view(items@[i])
                    } else {
                        ValueView::Null
                    },
            ),
        ),
        Value::Object(members) => ValueView::Object(
            Seq::new(
                members@.len(),
                |i: int|
                    if 0 <= i < members@.len() {
                        (members@[i].0@, value_view(members@[i].1))
                    } else {
                        (Seq::empty(), ValueView::Null)
                    },
            ),
        ),
    }
}

impl View for Value {
    type V = ValueView;

    open spec fn view(&self) -> ValueView {
        value_view(*self)
    }
}

/// The members that a list of named values stands for.
pub open spec fn members_view(members: Seq<(String, Value)>) -> Seq<(Seq<char>, ValueView)> {
    Seq::new(members.len(), |i: int| (members[i].0@, members[i].1@))
}

/// The items that a list of values stands for.
pub open spec fn items_view(items: Seq<Value>) -> Seq<ValueView> {
    Seq::new(items.len(), |i: int| items[i]@)
}

/// Unfolds the view of an object.
pub proof fn lemma_object_view(members: Vec<(String, Value)>)
    ensures
        Value::Object(members)@ == ValueView::Object(members_view(members@)),
{
    assert(Value::Object(members)@->Object_0 =~= members_view(members@));
}

/// Unfolds the view of an array.
pub proof fn lemma_array_view(items: Vec<Value>)
    ensures
        Value::Array(items)@ == ValueView::Array(items_view(items@)),
{
    assert(Value::Array(items)@->Array_0 =~= items_view(items@));
}

/// The integer that a number holds, where it is one that fits in 64 bits
/// with a sign.
pub open spec fn number_int(n: NumberView) -> Option<i64> {
    match n {
        NumberView::PosInt(i) => if i64::MIN <= i <= i64::MAX {
            Some(i as i64)
        } else {
            None
        },
        NumberView::NegInt(i) => if i64::MIN <= i <= i64::MAX {
            Some(i as i64)
        } else {
            None
        },
        NumberView::Float(_) => None,
    }
}

/// The number that holds the integer `v` in the form that there is for it:
/// a negative integer as `NegInt`, any other integer as `PosInt`.
pub open spec fn int_number(v: int) -> NumberView {
    if v < 0 {
        NumberView::NegInt(v)
    } else {
        NumberView::PosInt(v)
    }
}

/// Whether a number is held in the one form that there is for it: no
/// `NegInt` holds an integer that is not negative, and no `PosInt` one that
/// is.
pub open spec fn number_wf(n: NumberView) -> bool {
    match n {
        NumberView::PosInt(i) => i >= 0,
        NumberView::NegInt(i) => i < 0,
        NumberView::Float(_) => true,
    }
}

/// The text of a number: the decimal numeral of an integer, and the text
/// held for any other number.
pub open spec fn number_text(n: NumberView) -> Seq<char> {
    match n {
        NumberView::PosInt(i) => int_text(i),
        NumberView::NegInt(i) => int_text(i),
        NumberView::Float(text) => text,
    }
}

impl Number {
    /// The number that holds the integer `v`.
    pub fn from_i64(v: i64) -> (n: Number)
        ensures
            n@ == int_number(v as int),
    {
        if v < 0 {
            Number::NegInt(v)
        } else {
            Number::PosInt(v as u64)
        }
    }

    /// The integer held, if it is one that fits in 64 bits with a sign.
    pub fn as_i64(&self) -> (r: Option<i64>)
        ensures
            r == number_int(self@),
    {
        match self {
            Number::PosInt(n) => if *n <= i64::MAX as u64 {
                Some(*n as i64)
            } else {
                None
            },
            Number::NegInt(n) => Some(*n),
            Number::Float(_) => None,
        }
    }

    /// The text of the number.
    pub fn to_text(&self) -> (s: String)
        ensures
            s@ == number_text(self@),
    {
        match self {
            Number::PosInt(n) => {
                let mut out: Vec<char> = Vec::new();
                push_int(&mut out, *n as i128);
                string_of(&out)
            },
            Number::NegInt(n) => {
                let mut out: Vec<char> = Vec::new();
                push_int(&mut out, *n as i128);
                string_of(&out)
            },
            Number::Float(text) => text.clone(),
        }
    }
}

impl Clone for Number {
    fn clone(&self) -> (r: Number)
        ensures
            r@ == self@,
    {
        match self {
            Number::PosInt(n) => Number::PosInt(*n),
            Number::NegInt(n) => Number::NegInt(*n),
            Number::Float(text) => Number::Float(text.clone()),
        }
    }
}

/// The integer that a value holds, if it is a number that holds one.
pub open spec fn value_int(v: ValueView) -> Option<i64> {
    match v {
        ValueView::Number(n) => number_int(n),
        _ => None,
    }
}

/// The value that holds the integer `v`.
pub open spec fn int_value(v: int) -> ValueView {
    ValueView::Number(int_number(v))
}

impl Value {
    /// The value that holds the integer `v`.
    pub fn from_i64(v: i64) -> (r: Value)
        ensures
            r@ == int_value(v as int),
    {
        Value::Number(Number::from_i64(v))
    }

    /// The value that holds the text `s`.
    pub fn from_str(s: &str) -> (r: Value)
        ensures
            r@ == ValueView::String(s@),
    {
        Value::String(string_of(&chars_of(s)))
    }

    /// The integer held, if the value is a number that holds one.
    pub fn as_i64(&self) -> (r: Option<i64>)
        ensures
            r == value_int(self@),
    {
        match self {
            Value::Number(n) => n.as_i64(),
            _ => None,
        }
    }
}

impl Clone for Value {
    fn clone(&self) -> (r: Value)
        ensures
            r@ == self@,
        decreases self,
    {
        match self {
            Value::Null => Value::Null,
            Value::Bool(b) => Value::Bool(*b),
            Value::Number(n) => Value::Number(n.clone()),
            Value::String(s) => Value::String(s.clone()),
            Value::Array(items) => {
                let mut out: Vec<Value> = Vec::new();
                let mut i: usize = 0;
                while i < items.len()
                    invariant
                        i <= items.len(),
                        out@.len() == i,
                        forall|j: int| 0 <= j < i ==> (#[trigger] out@[j])@ == items@[j]@,
                        forall|j: int|
                            0 <= j < items.len() ==> decreases_to!(self => #[trigger] items@[j]),
                    decreases items.len() - i,
                {
                    out.push(items[i].clone());
                    i = i + 1;
                }
                proof {
                    lemma_array_view(out);
                    lemma_array_view(*items);
                    assert(items_view(out@) =~= items_view(items@));
                }
                Value::Array(out)
            },
            Value::Object(members) => {
                let out = clone_members(members);
                proof {
                    lemma_object_view(out);
                    lemma_object_view(*members);
                }
                Value::Object(out)
            },
        }
    }
}

/// A copy of a list of named values.
pub fn clone_members(members: &Vec<(String, Value)>) -> (out: Vec<(String, Value)>)
    ensures
        members_view(out@) == members_view(members@),
    decreases members,
{
    let mut out: Vec<(String, Value)> = Vec::new();
    let mut i: usize = 0;
    while i < members.len()
        invariant
            i <= members.len(),
            out@.len() == i,
            forall|j: int|
                0 <= j < i ==> (#[trigger] out@[j]).0@ == members@[j].0@ && out@[j].1@
                    == members@[j].1@,
            forall|j: int|
                0 <= j < members.len() ==> decreases_to!(members => (#[trigger] members@[j]).1),
        decreases members.len() - i,
    {
        out.push((members[i].0.clone(), members[i].1.clone()));
        i = i + 1;
    }
    assert(members_view(out@) =~= members_view(members@));
    out
}

/// The position of the first member of `m` named `key` at or after `from`;
/// the length of `m` where there is none.
pub open spec fn position_from(m: Seq<(Seq<char>, ValueView)>, key: Seq<char>, from: int) -> int
    decreases m.len() - from,
{
    if from < 0 || from >= m.len() {
        m.len() as int
    } else if m[from].0 == key {
        from
    } else {
        position_from(m, key, from + 1)
    }
}

/// The position of the first member of `m` named `key`; the length of `m`
/// where there is none.
pub open spec fn position(m: Seq<(Seq<char>, ValueView)>, key: Seq<char>) -> int {
    position_from(m, key, 0)
}

/// The value of the first member of `m` named `key`.
pub open spec fn lookup(m: Seq<(Seq<char>, ValueView)>, key: Seq<char>) -> Option<ValueView> {
    let p = position(m, key);
    if p < m.len() {
        Some(m[p].1)
    } else {
        None
    }
}

/// `m` with `key` bound to `v`: in the place of the first member named
/// `key`, or at the end where there is none.
pub open spec fn put(m: Seq<(Seq<char>, ValueView)>, key: Seq<char>, v: ValueView) -> Seq<
    (Seq<char>, ValueView),
> {
    let p = position(m, key);
    if p < m.len() {
        m.update(p, (key, v))
    } else {
        m.push((key, v))
    }
}

/// What `position_from` returns: the first place at or after `from` where
/// the name is `key`.
pub proof fn lemma_position_from(m: Seq<(Seq<char>, ValueView)>, key: Seq<char>, from: int)
    requires
        0 <= from <= m.len(),
    ensures
        from <= position_from(m, key, from) <= m.len(),
        position_from(m, key, from) < m.len() ==> m[position_from(m, key, from)].0 == key,
        forall|j: int| from <= j < position_from(m, key, from) ==> (#[trigger] m[j]).0 != key,
    decreases m.len() - from,
{
    if from < m.len() && m[from].0 != key {
        lemma_position_from(m, key, from + 1);
    }
}

/// A first place where the name is `key` is what `position` returns.
pub proof fn lemma_position_is(m: Seq<(Seq<char>, ValueView)>, key: Seq<char>, p: int)
    requires
        0 <= p <= m.len(),
        p < m.len() ==> m[p].0 == key,
        forall|j: int| 0 <= j < p ==> (#[trigger] m[j]).0 != key,
    ensures
        position(m, key) == p,
{
    lemma_position_from(m, key, 0);
    let q = position(m, key);
    if q < p {
        assert(m[q].0 != key);
    } else if p < q {
        assert(m[p].0 != key);
    }
}

/// After `put`, the key is bound to the new value and every other key is
/// bound as before.
pub proof fn lemma_put_lookup(
    m: Seq<(Seq<char>, ValueView)>,
    key: Seq<char>,
    v: ValueView,
    other: Seq<char>,
)
    ensures
        lookup(put(m, key, v), key) == Some(v),
        other != key ==> lookup(put(m, key, v), other) == lookup(m, other),
{
    lemma_position_from(m, key, 0);
    lemma_position_from(m, other, 0);
    let p = position(m, key);
    let n = put(m, key, v);
    lemma_position_is(n, key, p);
    if other != key {
        let q = position(m, other);
        if q < m.len() {
            lemma_position_is(n, other, q);
        } else {
            lemma_position_is(n, other, n.len() as int);
        }
    }
}

/// The position of the first member named `key`; the length of `members`
/// where there is none.
pub fn find(members: &Vec<(String, Value)>, key: &str) -> (p: usize)
    ensures
        p == position(members_view(members@), key@),
        p <= members.len(),
{
    let wanted: String = key.to_owned();
    let mut i: usize = 0;
    while i < members.len()
        invariant
            i <= members.len(),
            wanted@ == key@,
            forall|j: int| 0 <= j < i ==> (#[trigger] members_view(members@)[j]).0 != key@,
        decreases members.len() - i,
    {
        if members[i].0 == wanted {
            proof {
                lemma_position_is(members_view(members@), key@, i as int);
            }
            return i;
        }
        i = i + 1;
    }
    proof {
        lemma_position_is(members_view(members@), key@, i as int);
    }
    i
}

/// The value of the first member named `key`.
pub fn get<'a>(members: &'a Vec<(String, Value)>, key: &str) -> (r: Option<&'a Value>)
    ensures
        match r {
            Some(v) => lookup(members_view(members@), key@) == Some(v@),
            None => lookup(members_view(members@), key@) is None,
        },
{
    let p = find(members, key);
    if p < members.len() {
        Some(&members[p].1)
    } else {
        None
    }
}

/// Binds `key` to `v`: in the place of the first member named `key`, or at
/// the end where there is none. Members of which no two have one name stay
/// so.
pub fn insert(members: &mut Vec<(String, Value)>, key: &str, v: Value)
    ensures
        members_view(final(members)@) == put(members_view(old(members)@), key@, v@),
        names_distinct(members_view(old(members)@)) ==> names_distinct(
            members_view(final(members)@),
        ),
{
    proof {
        if names_distinct(members_view(members@)) {
            lemma_put_distinct(members_view(members@), key@, v@);
        }
    }
    let p = find(members, key);
    let name: String = key.to_owned();
    if p < members.len() {
        members[p] = (name, v);
    } else {
        members.push((name, v));
    }
    assert(members_view(members@) =~= put(members_view(old(members)@), key@, v@));
}

/// Whether no two members have one name: whether the list is a mapping.
pub open spec fn names_distinct<V>(m: Seq<(Seq<char>, V)>) -> bool {
    forall|i: int, j: int| 0 <= i < j < m.len() ==> (#[trigger] m[i]).0 != (#[trigger] m[j]).0
}

/// Whether a value is well formed: every object in it, at any depth, is a
/// mapping, and every number is held in the one form that there is for it.
pub open spec fn value_wf(v: ValueView) -> bool
    decreases v,
{
    match v {
        ValueView::Number(n) => number_wf(n),
        ValueView::Array(items) => forall|i: int|
            0 <= i < items.len() ==> value_wf(#[trigger] items[i]),
        ValueView::Object(members) => names_distinct(members) && forall|i: int|
            0 <= i < members.len() ==> value_wf((#[trigger] members[i]).1),
        _ => true,
    }
}

/// Whether the members are a mapping, and their values are well formed.
pub open spec fn members_wf(m: Seq<(Seq<char>, ValueView)>) -> bool {
    names_distinct(m) && forall|i: int| 0 <= i < m.len() ==> value_wf((#[trigger] m[i]).1)
}

/// A mapping stays one when a name is bound in it, and well-formed members
/// stay so when the value bound is well formed.
pub proof fn lemma_put_distinct(m: Seq<(Seq<char>, ValueView)>, key: Seq<char>, v: ValueView)
    requires
        names_distinct(m),
    ensures
        names_distinct(put(m, key, v)),
        members_wf(m) && value_wf(v) ==> members_wf(put(m, key, v)),
{
    lemma_position_from(m, key, 0);
    let p = position(m, key);
    let out = put(m, key, v);
    assert forall|i: int, j: int| 0 <= i < j < out.len() implies (#[trigger] out[i]).0 != (
    #[trigger] out[j]).0 by {
        if p < m.len() {
            if i == p {
                assert(m[p].0 == key);
                assert(m[i].0 != m[j].0);
            } else if j == p {
                assert(m[p].0 == key);
                assert(m[i].0 != m[j].0);
            } else {
                assert(m[i].0 != m[j].0);
            }
        } else {
            if j == m.len() {
                assert(m[i].0 != key);
            } else {
                assert(m[i].0 != m[j].0);
            }
        }
    }
    if members_wf(m) && value_wf(v) {
        assert forall|i: int| 0 <= i < out.len() implies value_wf((#[trigger] out[i]).1) by {
            if i < m.len() && i != p {
                assert(value_wf(m[i].1));
            }
        }
    }
}

/// What is looked up in members is the value of one of them.
pub proof fn lemma_lookup_member(m: Seq<(Seq<char>, ValueView)>, key: Seq<char>)
    requires
        lookup(m, key) is Some,
    ensures
        exists|i: int| 0 <= i < m.len() && (#[trigger] m[i]).1 == lookup(m, key)->0,
{
    lemma_position_from(m, key, 0);
    let p = position(m, key);
    assert(m[p].1 == lookup(m, key)->0);
}

/// Two numbers of one view are of one form and hold the same: the view
/// tells numbers apart as `==` does.
pub proof fn lemma_number_view_decides(a: Number, b: Number)
    requires
        a@ == b@,
    ensures
        match (a, b) {
            (Number::PosInt(x), Number::PosInt(y)) => x == y,
            (Number::NegInt(x), Number::NegInt(y)) => x == y,
            (Number::Float(x), Number::Float(y)) => x@ == y@,
            _ => false,
        },
{
}

} // verus!
