//! The mathematical model of the tracker: a stack of scopes, each a sequence
//! of bindings in declaration order, and what every operation makes of it.

use vstd::prelude::*;
use crate::error::TrackerError;
use crate::value::{Kind, ValueView};

verus! {

/// What a binding holds: its value while it is live, nothing once the value
/// has been moved out. Both states are left only when the binding's scope
/// ends; a moved-out binding never becomes live again.
pub enum SlotView {
    Live(ValueView),
    MovedOut,
}

/// A name bound to a value inside one scope.
pub struct BindingView {
    pub name: Seq<char>,
    pub slot: SlotView,
}

impl BindingView {
    /// The binding is live and holds a movable value: it is that value's
    /// owner, and the one that answers for its release.
    pub open spec fn owns_movable(self) -> bool {
        self.slot matches SlotView::Live(v) && v.kind() == Kind::Movable
    }

    /// The binding after its value was given away.
    pub open spec fn moved_out(self) -> BindingView {
        BindingView { name: self.name, slot: SlotView::MovedOut }
    }
}

/// The bindings of one scope, in declaration order.
pub type ScopeView = Seq<BindingView>;

/// The open scopes, outermost first.
pub type StackView = Seq<ScopeView>;

/// The index of the binding of `name` that was declared last in `scope`.
pub open spec fn last_named(scope: ScopeView, name: Seq<char>) -> Option<int>
    decreases scope.len(),
{
    if scope.len() == 0 {
        None
    } else if scope.last().name == name {
        Some(scope.len() - 1)
    } else {
        last_named(scope.drop_last(), name)
    }
}

/// Where `name` resolves to: the scope and the index in it of the nearest
/// binding of that name, looking from the innermost scope outwards and, in
/// a scope, from the last declaration back.
pub open spec fn lookup(stack: StackView, name: Seq<char>) -> Option<(int, int)>
    decreases stack.len(),
{
    if stack.len() == 0 {
        None
    } else {
        match last_named(stack.last(), name) {
            Some(j) => Some((stack.len() - 1, j)),
            None => lookup(stack.drop_last(), name),
        }
    }
}

/// What reading `name` yields.
pub open spec fn read_result(stack: StackView, name: Seq<char>) -> Result<ValueView, TrackerError> {
    match lookup(stack, name) {
        None => Err(TrackerError::UnknownName),
        Some((i, j)) => match stack[i][j].slot {
            SlotView::MovedOut => Err(TrackerError::UseAfterMove),
            SlotView::Live(v) => Ok(v),
        },
    }
}

/// The stack with a new, empty innermost scope.
pub open spec fn after_enter(stack: StackView) -> StackView {
    stack.push(Seq::empty())
}

/// The stack without its innermost scope; unchanged where no scope is open.
pub open spec fn after_exit(stack: StackView) -> StackView {
    if stack.len() == 0 {
        stack
    } else {
        stack.drop_last()
    }
}

/// The stack with `name` bound to `value` at the end of the innermost scope;
/// unchanged where no scope is open.
pub open spec fn after_bind(stack: StackView, name: Seq<char>, value: ValueView) -> StackView {
    if stack.len() == 0 {
        stack
    } else {
        stack.update(
            stack.len() - 1,
            stack.last().push(BindingView { name, slot: SlotView::Live(value) }),
        )
    }
}

/// The stack after the value of `name` was handed on: where `name` resolves
/// to the owner of a movable value, that binding is moved out; in every
/// other case nothing changes.
pub open spec fn after_move_out(stack: StackView, name: Seq<char>) -> StackView {
    match lookup(stack, name) {
        Some((i, j)) => if stack[i][j].owns_movable() {
            stack.update(i, stack[i].update(j, stack[i][j].moved_out()))
        } else {
            stack
        },
        None => stack,
    }
}

/// The movable values that the bindings of `scope` still own, in
/// declaration order.
pub open spec fn owned(scope: ScopeView) -> Seq<ValueView> {
    scope.filter(|b: BindingView| b.owns_movable()).map_values(|b: BindingView| b.slot->Live_0)
}

/// The values released when `scope` ends, in the order of their release:
/// last declared, first released.
pub open spec fn releases(scope: ScopeView) -> Seq<ValueView> {
    owned(scope).reverse()
}

/// A scope without bindings releases nothing.
pub proof fn lemma_no_bindings_no_releases()
    ensures
        releases(Seq::<BindingView>::empty()) == Seq::<ValueView>::empty(),
{
    reveal(Seq::filter);
    assert(releases(Seq::<BindingView>::empty()) =~= Seq::<ValueView>::empty());
}

/// Ending a scope releases what its last binding owns, then what the
/// bindings before it own.
pub proof fn lemma_releases_last(scope: ScopeView)
    requires
        scope.len() > 0,
    ensures
        releases(scope) == if scope.last().owns_movable() {
            seq![scope.last().slot->Live_0] + releases(scope.drop_last())
        } else {
            releases(scope.drop_last())
        },
{
    let keep = |b: BindingView| b.owns_movable();
    let held = |b: BindingView| b.slot->Live_0;
    let front = scope.drop_last().filter(keep);
    reveal(Seq::filter);
    if scope.last().owns_movable() {
        assert(scope.filter(keep) == front.push(scope.last()));
        assert(owned(scope) == owned(scope.drop_last()).push(held(scope.last())));
        assert(releases(scope) =~= seq![held(scope.last())] + releases(scope.drop_last()));
    } else {
        assert(scope.filter(keep) == front);
    }
}

} // verus!
