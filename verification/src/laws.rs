//! What holds of the model whatever the state: how names resolve, what a
//! move does to its source, what shadowing does, and in which order a
//! scope gives up its values.

use vstd::prelude::*;
use crate::error::TrackerError;
use crate::model::{
    after_bind, after_enter, after_exit, after_move_out, last_named,
    lemma_no_bindings_no_releases, lemma_releases_last, lookup, read_result, releases,
    BindingView, ScopeView, StackView,
};
use crate::value::{Kind, ValueView};

verus! {

/// Within a scope a name resolves to its last declaration: the index found
/// holds the name and no later index does; nothing is found only where no
/// binding of the scope has the name.
pub proof fn lemma_last_named_is_last(scope: ScopeView, name: Seq<char>)
    ensures
        match last_named(scope, name) {
            Some(j) => {
                &&& 0 <= j < scope.len()
                &&& scope[j].name == name
                &&& forall|k: int| j < k < scope.len() ==> (#[trigger] scope[k]).name != name
            },
            None => forall|k: int| 0 <= k < scope.len() ==> (#[trigger] scope[k]).name != name,
        },
    decreases scope.len(),
{
    if scope.len() > 0 && scope.last().name != name {
        let front = scope.drop_last();
        lemma_last_named_is_last(front, name);
        assert(forall|k: int| 0 <= k < front.len() ==> front[k] == scope[k]);
    }
}

/// A name resolves to the nearest binding that has it: no binding declared
/// later in the same scope, and no binding of a scope further in, has the
/// name. It resolves to nothing only where no binding of any open scope has
/// it.
pub proof fn lemma_lookup_is_nearest(stack: StackView, name: Seq<char>)
    ensures
        match lookup(stack, name) {
            Some((i, j)) => {
                &&& 0 <= i < stack.len()
                &&& 0 <= j < stack[i].len()
                &&& stack[i][j].name == name
                &&& forall|k: int| j < k < stack[i].len() ==> (#[trigger] stack[i][k]).name != name
                &&& forall|h: int, k: int|
                    i < h < stack.len() && 0 <= k < stack[h].len() ==> (#[trigger] stack[h][k]).name
                        != name
            },
            None => forall|h: int, k: int|
                0 <= h < stack.len() && 0 <= k < stack[h].len() ==> (#[trigger] stack[h][k]).name
                    != name,
        },
    decreases stack.len(),
{
    if stack.len() > 0 {
        lemma_last_named_is_last(stack.last(), name);
        if last_named(stack.last(), name) is None {
            let outer = stack.drop_last();
            lemma_lookup_is_nearest(outer, name);
            assert(forall|h: int| 0 <= h < outer.len() ==> outer[h] == stack[h]);
        }
    }
}

/// Two stacks of the same shape whose bindings carry the same names.
pub open spec fn same_names(a: StackView, b: StackView) -> bool {
    &&& a.len() == b.len()
    &&& forall|i: int| 0 <= i < a.len() ==> (#[trigger] a[i]).len() == b[i].len()
    &&& forall|i: int, j: int|
        0 <= i < a.len() && 0 <= j < a[i].len() ==> (#[trigger] a[i][j]).name == b[i][j].name
}

proof fn lemma_last_named_by_names(a: ScopeView, b: ScopeView, name: Seq<char>)
    requires
        a.len() == b.len(),
        forall|j: int| 0 <= j < a.len() ==> (#[trigger] a[j]).name == b[j].name,
    ensures
        last_named(a, name) == last_named(b, name),
    decreases a.len(),
{
    if a.len() > 0 {
        assert(a.last().name == b.last().name);
        lemma_last_named_by_names(a.drop_last(), b.drop_last(), name);
    }
}

/// Name resolution looks at names only: what the bindings hold, and whether
/// they still hold it, plays no part.
pub proof fn lemma_lookup_by_names(a: StackView, b: StackView, name: Seq<char>)
    requires
        same_names(a, b),
    ensures
        lookup(a, name) == lookup(b, name),
    decreases a.len(),
{
    if a.len() > 0 {
        assert(a.last().len() == b.last().len());
        assert forall|j: int| 0 <= j < a.last().len() implies (#[trigger] a.last()[j]).name
            == b.last()[j].name by {
            assert(a[a.len() - 1][j].name == b[a.len() - 1][j].name);
        }
        lemma_last_named_by_names(a.last(), b.last(), name);
        let (x, y) = (a.drop_last(), b.drop_last());
        assert forall|i: int, j: int| 0 <= i < x.len() && 0 <= j < x[i].len() implies (
        #[trigger] x[i][j]).name == y[i][j].name by {
            assert(a[i][j].name == b[i][j].name);
        }
        assert forall|i: int| 0 <= i < x.len() implies (#[trigger] x[i]).len() == y[i].len() by {
            assert(a[i].len() == b[i].len());
        }
        lemma_lookup_by_names(x, y, name);
    }
}

/// A move changes one slot at most and no name: afterwards every name
/// resolves to the binding it resolved to before.
pub proof fn lemma_move_out_keeps_resolution(stack: StackView, moved: Seq<char>, name: Seq<char>)
    ensures
        same_names(stack, after_move_out(stack, moved)),
        lookup(after_move_out(stack, moved), name) == lookup(stack, name),
{
    lemma_lookup_is_nearest(stack, moved);
    lemma_lookup_by_names(stack, after_move_out(stack, moved), name);
}

/// Copy semantics never invalidate the source: where `name` reads as a
/// copyable value, handing it on leaves the whole stack as it was, so the
/// name reads the same value afterwards, as often as it is read.
pub proof fn lemma_copy_keeps_source(stack: StackView, name: Seq<char>)
    requires
        read_result(stack, name) matches Ok(v) && v.kind() == Kind::Copyable,
    ensures
        after_move_out(stack, name) == stack,
        read_result(after_move_out(stack, name), name) == read_result(stack, name),
{
}

/// A copyable value that was just bound can be handed on and still be read.
pub proof fn lemma_bind_copyable_then_move(stack: StackView, name: Seq<char>, n: int)
    requires
        stack.len() > 0,
    ensures
        ({
            let bound = after_bind(stack, name, ValueView::Copyable(n));
            &&& read_result(bound, name) == Ok::<ValueView, TrackerError>(ValueView::Copyable(n))
            &&& after_move_out(bound, name) == bound
            &&& read_result(after_move_out(bound, name), name) == Ok::<ValueView, TrackerError>(
                ValueView::Copyable(n),
            )
        }),
{
    lemma_bind_then_read(stack, name, ValueView::Copyable(n));
}

/// A name reads as the value it was last bound to.
pub proof fn lemma_bind_then_read(stack: StackView, name: Seq<char>, value: ValueView)
    requires
        stack.len() > 0,
    ensures
        lookup(after_bind(stack, name, value), name) == Some(
            (stack.len() - 1, stack.last().len() as int),
        ),
        read_result(after_bind(stack, name, value), name) == Ok::<ValueView, TrackerError>(value),
{
}

/// Binding a name leaves every other name as it was: it resolves to the
/// same binding and reads the same.
pub proof fn lemma_bind_keeps_other_names(
    stack: StackView,
    name: Seq<char>,
    value: ValueView,
    other: Seq<char>,
)
    requires
        other != name,
    ensures
        lookup(after_bind(stack, name, value), other) == lookup(stack, other),
        read_result(after_bind(stack, name, value), other) == read_result(stack, other),
{
    if stack.len() > 0 {
        let bound = after_bind(stack, name, value);
        assert(bound.last().drop_last() =~= stack.last());
        assert(bound.drop_last() =~= stack.drop_last());
        lemma_lookup_is_nearest(stack, other);
    }
}

/// A new scope hides nothing: every name reads as it did before the scope
/// was entered. Ending the new scope at once gives the stack back.
pub proof fn lemma_enter_keeps_names(stack: StackView, name: Seq<char>)
    ensures
        lookup(after_enter(stack), name) == lookup(stack, name),
        read_result(after_enter(stack), name) == read_result(stack, name),
        after_exit(after_enter(stack)) == stack,
{
    assert(after_enter(stack).drop_last() =~= stack);
    lemma_lookup_is_nearest(stack, name);
}

/// Moving a movable value out invalidates its source: where `name` reads
/// as a movable value, after the move the same name fails with
/// `UseAfterMove`, for reading, duplicating and moving alike.
pub proof fn lemma_use_after_move(stack: StackView, name: Seq<char>)
    requires
        read_result(stack, name) matches Ok(v) && v.kind() == Kind::Movable,
    ensures
        read_result(after_move_out(stack, name), name) == Err::<ValueView, TrackerError>(
            TrackerError::UseAfterMove,
        ),
        after_move_out(after_move_out(stack, name), name) == after_move_out(stack, name),
{
    lemma_lookup_is_nearest(stack, name);
    lemma_move_out_keeps_resolution(stack, name, name);
}

/// A movable value that was just bound and then moved out can no longer be
/// read under its name.
pub proof fn lemma_bind_movable_then_move(stack: StackView, name: Seq<char>, text: Seq<char>)
    requires
        stack.len() > 0,
    ensures
        ({
            let bound = after_bind(stack, name, ValueView::Movable(text));
            &&& read_result(bound, name) == Ok::<ValueView, TrackerError>(ValueView::Movable(text))
            &&& read_result(after_move_out(bound, name), name) == Err::<ValueView, TrackerError>(
                TrackerError::UseAfterMove,
            )
        }),
{
    let bound = after_bind(stack, name, ValueView::Movable(text));
    lemma_bind_then_read(stack, name, ValueView::Movable(text));
    lemma_use_after_move(bound, name);
}

/// What the end of a scope releases of one live value: the value itself
/// where it is movable, nothing where it is copyable.
pub open spec fn release_of(value: ValueView) -> Seq<ValueView> {
    if value.kind() == Kind::Movable {
        seq![value]
    } else {
        Seq::empty()
    }
}

/// Binding adds the new value, where it is movable, to the front of what the
/// current scope will release.
pub proof fn lemma_bind_releases_first(stack: StackView, name: Seq<char>, value: ValueView)
    requires
        stack.len() > 0,
    ensures
        releases(after_bind(stack, name, value).last()) == release_of(value) + releases(
            stack.last(),
        ),
{
    let grown = after_bind(stack, name, value).last();
    lemma_releases_last(grown);
    assert(grown.drop_last() =~= stack.last());
    assert(Seq::<ValueView>::empty() + releases(stack.last()) =~= releases(stack.last()));
}

/// Shadowing is a rule of naming, not of lifetime: after a name was bound
/// twice in one scope it reads as the second value, and the scope still
/// releases both values where they are movable, the second before the first.
pub proof fn lemma_shadowing(
    stack: StackView,
    name: Seq<char>,
    first: ValueView,
    second: ValueView,
)
    requires
        stack.len() > 0,
    ensures
        ({
            let twice = after_bind(after_bind(stack, name, first), name, second);
            &&& twice.len() == stack.len()
            &&& read_result(twice, name) == Ok::<ValueView, TrackerError>(second)
            &&& releases(twice.last()) == release_of(second) + release_of(first) + releases(
                stack.last(),
            )
        }),
{
    let once = after_bind(stack, name, first);
    lemma_bind_then_read(once, name, second);
    lemma_bind_releases_first(stack, name, first);
    lemma_bind_releases_first(once, name, second);
    assert(release_of(second) + (release_of(first) + releases(stack.last())) =~= release_of(second)
        + release_of(first) + releases(stack.last()));
}

/// Ending a scope releases what the bindings after the first own, then what
/// the first binding owns.
pub proof fn lemma_releases_first(scope: ScopeView)
    requires
        scope.len() > 0,
    ensures
        releases(scope) == releases(scope.skip(1)) + if scope[0].owns_movable() {
            seq![scope[0].slot->Live_0]
        } else {
            Seq::empty()
        },
    decreases scope.len(),
{
    let first = if scope[0].owns_movable() {
        seq![scope[0].slot->Live_0]
    } else {
        Seq::empty()
    };
    lemma_releases_last(scope);
    if scope.len() == 1 {
        assert(scope.skip(1) =~= scope.drop_last());
        lemma_no_bindings_no_releases();
        assert(releases(scope) =~= releases(scope.skip(1)) + first);
    } else {
        let front = scope.drop_last();
        let tail = scope.skip(1);
        lemma_releases_first(front);
        lemma_releases_last(tail);
        assert(tail.drop_last() =~= front.skip(1));
        assert(releases(scope) =~= releases(tail) + first);
    }
}

/// The place in the release order at which binding `j` of `scope` gives up
/// its value: the number of owners declared after it.
pub open spec fn release_position(scope: ScopeView, j: int) -> int {
    releases(scope.skip(j + 1)).len() as int
}

proof fn lemma_released_at_position(scope: ScopeView, j: int)
    requires
        0 <= j < scope.len(),
        scope[j].owns_movable(),
    ensures
        0 <= release_position(scope, j) < releases(scope).len(),
        releases(scope)[release_position(scope, j)] == scope[j].slot->Live_0,
    decreases scope.len(),
{
    lemma_releases_last(scope);
    if j == scope.len() - 1 {
        assert(scope.skip(j + 1) =~= Seq::<BindingView>::empty());
        lemma_no_bindings_no_releases();
    } else {
        let front = scope.drop_last();
        let after = scope.skip(j + 1);
        lemma_released_at_position(front, j);
        lemma_releases_last(after);
        assert(after.drop_last() =~= front.skip(j + 1));
        assert(after.last() == scope.last());
    }
}

proof fn lemma_later_owners_counted(scope: ScopeView, a: int, b: int)
    requires
        0 <= a <= b <= scope.len(),
    ensures
        releases(scope.skip(a)).len() >= releases(scope.skip(b)).len(),
        a < b && scope[a].owns_movable() ==> releases(scope.skip(a)).len() > releases(
            scope.skip(b),
        ).len(),
    decreases b - a,
{
    if a < b {
        lemma_releases_first(scope.skip(a));
        assert(scope.skip(a).skip(1) =~= scope.skip(a + 1));
        lemma_later_owners_counted(scope, a + 1, b);
    }
}

/// The release order of a scope is exactly the reverse of its declaration
/// order. Every binding that still owns a movable value has that value
/// released at a place of its own; of two such bindings the one declared
/// later is released earlier; and nothing else is released, so each owned
/// value is released once.
pub proof fn lemma_release_order(scope: ScopeView)
    ensures
        releases(scope).len() == scope.filter(|b: BindingView| b.owns_movable()).len(),
        forall|j: int|
            0 <= j < scope.len() && (#[trigger] scope[j]).owns_movable() ==> {
                &&& 0 <= release_position(scope, j) < releases(scope).len()
                &&& releases(scope)[release_position(scope, j)] == scope[j].slot->Live_0
            },
        forall|a: int, b: int|
            0 <= a < b < scope.len() && (#[trigger] scope[a]).owns_movable() && (
            #[trigger] scope[b]).owns_movable() ==> release_position(scope, b) < release_position(
                scope,
                a,
            ),
{
    assert forall|j: int| 0 <= j < scope.len() && (#[trigger] scope[j]).owns_movable() implies {
        &&& 0 <= release_position(scope, j) < releases(scope).len()
        &&& releases(scope)[release_position(scope, j)] == scope[j].slot->Live_0
    } by {
        lemma_released_at_position(scope, j);
    }
    assert forall|a: int, b: int|
        0 <= a < b < scope.len() && (#[trigger] scope[a]).owns_movable() && (
        #[trigger] scope[b]).owns_movable() implies release_position(scope, b) < release_position(
        scope,
        a,
    ) by {
        lemma_later_owners_counted(scope, a + 1, b);
        lemma_later_owners_counted(scope, b, b + 1);
    }
}

} // verus!
