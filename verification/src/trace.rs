//! Runs of the tracker: sequences of operations, what they release, and the
//! account of movable values that every run keeps.

use vstd::prelude::*;
use crate::error::TrackerError;
use crate::laws::{
    lemma_bind_keeps_other_names, lemma_bind_then_read, lemma_lookup_is_nearest,
    lemma_use_after_move,
};
use crate::model::{
    after_bind, after_enter, after_exit, after_move_out, lemma_no_bindings_no_releases,
    lemma_releases_last, lookup, owned, read_result, releases, BindingView, ScopeView, SlotView,
    StackView,
};
use crate::value::{Kind, ValueView};

verus! {

/// One call on the tracker.
pub enum Op {
    EnterScope,
    ExitScope,
    Bind { name: Seq<char>, value: ValueView },
    Read { name: Seq<char> },
    MoveOut { name: Seq<char> },
    Duplicate { name: Seq<char> },
}

/// The stack after `op`. An operation that fails leaves it as it was.
pub open spec fn step(stack: StackView, op: Op) -> StackView {
    match op {
        Op::EnterScope => after_enter(stack),
        Op::ExitScope => after_exit(stack),
        Op::Bind { name, value } => after_bind(stack, name, value),
        Op::MoveOut { name } => after_move_out(stack, name),
        Op::Read { .. } | Op::Duplicate { .. } => stack,
    }
}

/// The values that `op` releases, in the order of their release.
pub open spec fn released_by(stack: StackView, op: Op) -> Seq<ValueView> {
    if op is ExitScope && stack.len() > 0 {
        releases(stack.last())
    } else {
        Seq::empty()
    }
}

/// `op` gives a movable value a new owner.
pub open spec fn binds_movable(stack: StackView, op: Op) -> bool {
    op matches Op::Bind { value, .. } && value.kind() == Kind::Movable && stack.len() > 0
}

/// `op` takes a movable value away from its owner.
pub open spec fn moves_movable(stack: StackView, op: Op) -> bool {
    op matches Op::MoveOut { name } && read_result(stack, name) matches Ok(v) && v.kind()
        == Kind::Movable
}

/// The stack after the operations of `ops`, made in turn.
pub open spec fn run(stack: StackView, ops: Seq<Op>) -> StackView
    decreases ops.len(),
{
    if ops.len() == 0 {
        stack
    } else {
        step(run(stack, ops.drop_last()), ops.last())
    }
}

/// Every value released in the course of `ops`, in the order of release.
pub open spec fn release_log(stack: StackView, ops: Seq<Op>) -> Seq<ValueView>
    decreases ops.len(),
{
    if ops.len() == 0 {
        Seq::empty()
    } else {
        release_log(stack, ops.drop_last()) + released_by(
            run(stack, ops.drop_last()),
            ops.last(),
        )
    }
}

/// How many bindings of a movable value were made in the course of `ops`.
pub open spec fn bound_count(stack: StackView, ops: Seq<Op>) -> nat
    decreases ops.len(),
{
    if ops.len() == 0 {
        0
    } else {
        bound_count(stack, ops.drop_last()) + if binds_movable(
            run(stack, ops.drop_last()),
            ops.last(),
        ) {
            1nat
        } else {
            0nat
        }
    }
}

/// How many movable values were moved out of their binding in the course of
/// `ops`.
pub open spec fn moved_count(stack: StackView, ops: Seq<Op>) -> nat
    decreases ops.len(),
{
    if ops.len() == 0 {
        0
    } else {
        moved_count(stack, ops.drop_last()) + if moves_movable(
            run(stack, ops.drop_last()),
            ops.last(),
        ) {
            1nat
        } else {
            0nat
        }
    }
}

/// How many movable values the bindings of the open scopes own.
pub open spec fn owned_count(stack: StackView) -> nat
    decreases stack.len(),
{
    if stack.len() == 0 {
        0
    } else {
        owned_count(stack.drop_last()) + owned(stack.last()).len()
    }
}

proof fn lemma_last_owner_counted(scope: ScopeView)
    requires
        scope.len() > 0,
    ensures
        owned(scope).len() == owned(scope.drop_last()).len() + (if scope.last().owns_movable() {
            1nat
        } else {
            0nat
        }),
{
    lemma_releases_last(scope);
    assert(releases(scope).len() == owned(scope).len());
    assert(releases(scope.drop_last()).len() == owned(scope.drop_last()).len());
}

proof fn lemma_owned_after_update(scope: ScopeView, j: int, binding: BindingView)
    requires
        0 <= j < scope.len(),
    ensures
        owned(scope.update(j, binding)).len() + (if scope[j].owns_movable() {
            1nat
        } else {
            0nat
        }) == owned(scope).len() + (if binding.owns_movable() {
            1nat
        } else {
            0nat
        }),
    decreases scope.len(),
{
    let changed = scope.update(j, binding);
    lemma_last_owner_counted(scope);
    lemma_last_owner_counted(changed);
    if j == scope.len() - 1 {
        assert(changed.drop_last() =~= scope.drop_last());
    } else {
        lemma_owned_after_update(scope.drop_last(), j, binding);
        assert(changed.drop_last() =~= scope.drop_last().update(j, binding));
    }
}

proof fn lemma_owned_count_after_update(stack: StackView, i: int, scope: ScopeView)
    requires
        0 <= i < stack.len(),
    ensures
        owned_count(stack.update(i, scope)) + owned(stack[i]).len() == owned_count(stack) + owned(
            scope,
        ).len(),
    decreases stack.len(),
{
    let changed = stack.update(i, scope);
    if i == stack.len() - 1 {
        assert(changed.drop_last() =~= stack.drop_last());
    } else {
        lemma_owned_count_after_update(stack.drop_last(), i, scope);
        assert(changed.drop_last() =~= stack.drop_last().update(i, scope));
    }
}

/// Every operation keeps the account: the movable values owned before it,
/// and the one it binds, are after it either still owned, or released by
/// it, or moved out by it.
pub proof fn lemma_step_accounting(stack: StackView, op: Op)
    ensures
        owned_count(stack) + (if binds_movable(stack, op) {
            1nat
        } else {
            0nat
        }) == owned_count(step(stack, op)) + released_by(stack, op).len() + (if moves_movable(
            stack,
            op,
        ) {
            1nat
        } else {
            0nat
        }),
{
    match op {
        Op::EnterScope => {
            lemma_no_bindings_no_releases();
            assert(owned(Seq::<BindingView>::empty()).len() == releases(
                Seq::<BindingView>::empty(),
            ).len());
            assert(after_enter(stack).drop_last() =~= stack);
        },
        Op::ExitScope => {
            if stack.len() > 0 {
                assert(releases(stack.last()).len() == owned(stack.last()).len());
            }
        },
        Op::Bind { name, value } => {
            if stack.len() > 0 {
                let top = stack.last().push(BindingView { name, slot: SlotView::Live(value) });
                lemma_owned_count_after_update(stack, stack.len() - 1, top);
                lemma_last_owner_counted(top);
                assert(top.drop_last() =~= stack.last());
            }
        },
        Op::MoveOut { name } => {
            lemma_lookup_is_nearest(stack, name);
            match lookup(stack, name) {
                Some((i, j)) => {
                    if stack[i][j].owns_movable() {
                        let scope = stack[i].update(j, stack[i][j].moved_out());
                        lemma_owned_after_update(stack[i], j, stack[i][j].moved_out());
                        lemma_owned_count_after_update(stack, i, scope);
                    }
                },
                None => {},
            }
        },
        Op::Read { .. } | Op::Duplicate { .. } => {},
    }
}

/// Every run keeps the account of movable values: those owned at its start
/// and those bound in its course are, at its end, each either still owned,
/// or released, or moved out, and none is counted twice.
pub proof fn lemma_run_accounting(stack: StackView, ops: Seq<Op>)
    ensures
        owned_count(stack) + bound_count(stack, ops) == owned_count(run(stack, ops))
            + release_log(stack, ops).len() + moved_count(stack, ops),
    decreases ops.len(),
{
    if ops.len() > 0 {
        lemma_run_accounting(stack, ops.drop_last());
        lemma_step_accounting(run(stack, ops.drop_last()), ops.last());
    }
}

/// The error with which `op` fails on `stack`, if it fails.
pub open spec fn error_of(stack: StackView, op: Op) -> Option<TrackerError> {
    match op {
        Op::EnterScope => None,
        Op::ExitScope | Op::Bind { .. } => if stack.len() == 0 {
            Some(TrackerError::ScopeUnderflow)
        } else {
            None
        },
        Op::Read { name } | Op::MoveOut { name } | Op::Duplicate { name } => match read_result(
            stack,
            name,
        ) {
            Ok(_) => None,
            Err(e) => Some(e),
        },
    }
}

/// Operations are atomic: one that fails changes nothing and releases
/// nothing.
pub proof fn lemma_failure_changes_nothing(stack: StackView, op: Op)
    requires
        error_of(stack, op) is Some,
    ensures
        step(stack, op) == stack,
        released_by(stack, op) == Seq::<ValueView>::empty(),
        !binds_movable(stack, op),
        !moves_movable(stack, op),
{
}

/// A move transfers ownership from one binding to another: where `from`
/// reads as a movable value, moving it out and binding it to `to` leaves
/// the number of owned values as it was, makes `to` read as that value, and
/// leaves `from`, where it is another name, failing with `UseAfterMove`.
pub proof fn lemma_move_transfers_ownership(stack: StackView, from: Seq<char>, to: Seq<char>)
    requires
        read_result(stack, from) matches Ok(v) && v.kind() == Kind::Movable,
    ensures
        ({
            let value = read_result(stack, from)->Ok_0;
            let after = after_bind(after_move_out(stack, from), to, value);
            &&& owned_count(after) == owned_count(stack)
            &&& read_result(after, to) == Ok::<ValueView, TrackerError>(value)
            &&& from != to ==> read_result(after, from) == Err::<ValueView, TrackerError>(
                TrackerError::UseAfterMove,
            )
        }),
{
    let value = read_result(stack, from)->Ok_0;
    let moved = after_move_out(stack, from);
    lemma_lookup_is_nearest(stack, from);
    lemma_step_accounting(stack, Op::MoveOut { name: from });
    lemma_step_accounting(moved, Op::Bind { name: to, value });
    lemma_bind_then_read(moved, to, value);
    lemma_use_after_move(stack, from);
    if from != to {
        lemma_bind_keeps_other_names(moved, to, value, from);
    }
}

/// The number of scopes that `ops` opens less the number that it closes.
pub open spec fn nesting(ops: Seq<Op>) -> int
    decreases ops.len(),
{
    if ops.len() == 0 {
        0
    } else {
        nesting(ops.drop_last()) + match ops.last() {
            Op::EnterScope => 1int,
            Op::ExitScope => -1int,
            _ => 0int,
        }
    }
}

/// Every scope that `ops` closes was opened by it before, and every scope
/// that it opens is closed by its end.
pub open spec fn properly_nested(ops: Seq<Op>) -> bool {
    &&& nesting(ops) == 0
    &&& forall|n: int| 0 <= n <= ops.len() ==> nesting(#[trigger] ops.take(n)) >= 0
}

/// While no scope is closed that was not opened, the depth of the stack
/// follows the nesting of the run.
pub proof fn lemma_depth_follows_nesting(ops: Seq<Op>)
    requires
        forall|n: int| 0 <= n <= ops.len() ==> nesting(#[trigger] ops.take(n)) >= 0,
    ensures
        run(Seq::empty(), ops).len() == nesting(ops),
    decreases ops.len(),
{
    if ops.len() > 0 {
        let front = ops.drop_last();
        assert forall|n: int| 0 <= n <= front.len() implies nesting(#[trigger] front.take(n))
            >= 0 by {
            assert(front.take(n) =~= ops.take(n));
        }
        lemma_depth_follows_nesting(front);
        assert(ops.take(ops.len() as int) =~= ops);
        assert(nesting(ops.take(ops.len() as int)) >= 0);
        lemma_scopes_end_innermost_first(run(Seq::empty(), front), ops.last());
    }
}

/// Over a properly nested run from an empty tracker, the number of release
/// events is the number of bindings of a movable value that were never
/// moved out: every such binding has its value released by the end of its
/// scope, once, and nothing else is released.
pub proof fn lemma_nested_run_releases_what_is_owned(ops: Seq<Op>)
    requires
        properly_nested(ops),
    ensures
        run(Seq::empty(), ops) == Seq::<ScopeView>::empty(),
        release_log(Seq::empty(), ops).len() + moved_count(Seq::empty(), ops) == bound_count(
            Seq::empty(),
            ops,
        ),
{
    lemma_depth_follows_nesting(ops);
    lemma_run_accounting(Seq::empty(), ops);
    assert(run(Seq::empty(), ops) =~= Seq::<ScopeView>::empty());
}

/// A binding changes in one way only while its scope is open: the owner of
/// a movable value becomes moved out. A moved-out binding stays moved out,
/// and no operation renames a binding, gives it another value, or removes
/// it from its scope.
pub proof fn lemma_binding_transitions(stack: StackView, op: Op, i: int, j: int)
    requires
        0 <= i < stack.len(),
        0 <= j < stack[i].len(),
        i < step(stack, op).len(),
    ensures
        j < step(stack, op)[i].len(),
        step(stack, op)[i][j] == stack[i][j] || (stack[i][j].owns_movable() && step(
            stack,
            op,
        )[i][j] == stack[i][j].moved_out() && moves_movable(stack, op)),
{
    match op {
        Op::MoveOut { name } => {
            lemma_lookup_is_nearest(stack, name);
        },
        _ => {},
    }
}

/// Only the innermost scope ends, and only by `exit_scope`: every other
/// operation keeps all open scopes, and `exit_scope` keeps all but the last.
pub proof fn lemma_scopes_end_innermost_first(stack: StackView, op: Op)
    ensures
        step(stack, op).len() == stack.len() + if op is EnterScope {
            1int
        } else if op is ExitScope && stack.len() > 0 {
            -1int
        } else {
            0int
        },
        op is ExitScope && stack.len() > 0 ==> step(stack, op) == stack.drop_last(),
{
    if let Op::MoveOut { name } = op {
        lemma_lookup_is_nearest(stack, name);
    }
}

} // verus!
