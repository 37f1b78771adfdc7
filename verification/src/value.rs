//! Values and their kinds.

use vstd::prelude::*;

verus! {

/// How a value behaves when it is handed from one binding to another.
#[derive(Clone, Copy, Debug, PartialEq, Eq, Structural)]
pub enum Kind {
    /// Handing it on duplicates it; the source stays valid.
    Copyable,
    /// Handing it on transfers ownership; the source is invalidated.
    Movable,
}

/// What a [`Value`] stands for in contracts.
pub enum ValueView {
    Copyable(int),
    Movable(Seq<char>),
}

impl ValueView {
    pub open spec fn kind(self) -> Kind {
        match self {
            ValueView::Copyable(_) => Kind::Copyable,
            ValueView::Movable(_) => Kind::Movable,
        }
    }
}

/// A unit of data. A copyable value is a plain scalar; a movable value owns
/// a heap buffer and has exactly one owner at a time.
#[derive(Debug, PartialEq, Eq)]
pub enum Value {
    Copyable(i64),
    Movable(String),
}

impl View for Value {
    type V = ValueView;

    open spec fn view(&self) -> ValueView {
        match self {
            Value::Copyable(n) => ValueView::Copyable(*n as int),
            Value::Movable(s) => ValueView::Movable(s@),
        }
    }
}

impl DeepView for Value {
    type V = ValueView;

    open spec fn deep_view(&self) -> ValueView {
        self@
    }
}

impl Clone for Value {
    /// A clone is a deep copy: it has the contents of `self` and a buffer of
    /// its own.
    fn clone(&self) -> (copy: Value)
        ensures
            copy@ == self@,
    {
        self.duplicate()
    }
}

impl Value {
    /// The kind tag of this value.
    pub fn kind(&self) -> (k: Kind)
        ensures
            k == self@.kind(),
    {
        match self {
            Value::Copyable(_) => Kind::Copyable,
            Value::Movable(_) => Kind::Movable,
        }
    }

    /// An independent value with the same contents. For a movable value this
    /// allocates a new buffer; `self` keeps its own.
    pub fn duplicate(&self) -> (copy: Value)
        ensures
            copy@ == self@,
    {
        match self {
            Value::Copyable(n) => Value::Copyable(*n),
            Value::Movable(s) => Value::Movable(s.clone()),
        }
    }
}

} // verus!
