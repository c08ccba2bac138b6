//! The errors that compiling a theme document can report.

use crate::text::{chars_of, push_chars, push_str, string_of};
use vstd::prelude::*;

verus! {

/// One defect found in a theme document.
#[derive(Debug, PartialEq, Eq)]
pub enum ThemeErr {
    /// The text is not a well-formed document; holds the parser's message.
    Syntax(String),
    /// A field that must be there is not; holds its name.
    FieldMissing(String),
    /// A field that is not known; holds its name.
    UnknownField(String),
    /// A node kind that does not exist; holds the kind.
    NonExistentNode(String),
    /// A kind and a field whose values contradict each other; holds the kind
    /// and the detail.
    TypeConflict(String, String),
    /// An id that occurs more than once; holds the id.
    IdRepeat(String),
    /// Reading or writing failed; holds the message.
    Io(String),
}

/// What a [`ThemeErr`] stands for.
pub enum ErrView {
    Syntax(Seq<char>),
    FieldMissing(Seq<char>),
    UnknownField(Seq<char>),
    NonExistentNode(Seq<char>),
    TypeConflict(Seq<char>, Seq<char>),
    IdRepeat(Seq<char>),
    Io(Seq<char>),
}

impl View for ThemeErr {
    type V = ErrView;

    open spec fn view(&self) -> ErrView {
        match self {
            ThemeErr::Syntax(at) => ErrView::Syntax(at@),
            ThemeErr::FieldMissing(field) => ErrView::FieldMissing(field@),
            ThemeErr::UnknownField(field) => ErrView::UnknownField(field@),
            ThemeErr::NonExistentNode(kind) => ErrView::NonExistentNode(kind@),
            ThemeErr::TypeConflict(kind, detail) => ErrView::TypeConflict(kind@, detail@),
            ThemeErr::IdRepeat(id) => ErrView::IdRepeat(id@),
            ThemeErr::Io(message) => ErrView::Io(message@),
        }
    }
}

/// The errors that a list of errors stands for.
pub open spec fn errors_view(errors: Seq<ThemeErr>) -> Seq<ErrView> {
    Seq::new(errors.len(), |i: int| errors[i]@)
}

/// The message of an error, as a reader sees it.
pub open spec fn message_text(e: ErrView) -> Seq<char> {
    match e {
        ErrView::Syntax(at) => "解析失败，配置文件中存在语法错误，位置:"@ + at,
        ErrView::FieldMissing(field) => "解析失败，必填字段缺失:"@ + field,
        ErrView::UnknownField(field) => "解析失败，未知字段:"@ + field,
        ErrView::NonExistentNode(kind) => "解析失败，不存在的节点类型:"@ + kind,
        ErrView::TypeConflict(kind, detail) => "解析失败，存在类型冲突: type-"@ + kind
            + ",field-"@ + detail,
        ErrView::IdRepeat(id) => "解析失败，存在重复的id: "@ + id,
        ErrView::Io(message) => "IO操作时发生错误: "@ + message,
    }
}

fn prefixed(prefix: &str, rest: &String) -> (s: String)
    ensures
        s@ == prefix@ + rest@,
{
    let mut out: Vec<char> = Vec::new();
    push_str(&mut out, prefix);
    push_str(&mut out, rest.as_str());
    string_of(&out)
}

impl ThemeErr {
    /// The message of the error, as a reader sees it.
    pub fn message(&self) -> (s: String)
        ensures
            s@ == message_text(self@),
    {
        match self {
            ThemeErr::Syntax(at) => prefixed("解析失败，配置文件中存在语法错误，位置:", at),
            ThemeErr::FieldMissing(field) => prefixed(
                "解析失败，必填字段缺失:",
                field,
            ),
            ThemeErr::UnknownField(field) => prefixed("解析失败，未知字段:", field),
            ThemeErr::NonExistentNode(kind) => prefixed(
                "解析失败，不存在的节点类型:",
                kind,
            ),
            ThemeErr::TypeConflict(kind, detail) => {
                let mut out: Vec<char> = Vec::new();
                push_str(&mut out, "解析失败，存在类型冲突: type-");
                push_str(&mut out, kind.as_str());
                push_str(&mut out, ",field-");
                let tail = chars_of(detail.as_str());
                push_chars(&mut out, &tail);
                string_of(&out)
            },
            ThemeErr::IdRepeat(id) => prefixed("解析失败，存在重复的id: ", id),
            ThemeErr::Io(message) => prefixed("IO操作时发生错误: ", message),
        }
    }
}

} // verus!
