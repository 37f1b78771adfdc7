//! The ownership tracker: the scope stack and the operations on it.

use vstd::prelude::*;
use crate::error::TrackerError;
use crate::model::{
    after_bind, after_enter, after_exit, after_move_out, last_named,
    lemma_no_bindings_no_releases, lemma_releases_last, lookup, read_result, releases,
    BindingView, ScopeView, SlotView, StackView,
};
use crate::value::{Kind, Value, ValueView};

verus! {

#[derive(Debug)]
enum Slot {
    Live(Value),
    MovedOut,
}

#[derive(Debug)]
struct Binding {
    name: String,
    slot: Slot,
}

impl View for Slot {
    type V = SlotView;

    closed spec fn view(&self) -> SlotView {
        match self {
            Slot::Live(v) => SlotView::Live(v@),
            Slot::MovedOut => SlotView::MovedOut,
        }
    }
}

impl View for Binding {
    type V = BindingView;

    closed spec fn view(&self) -> BindingView {
        BindingView { name: self.name@, slot: self.slot@ }
    }
}

spec fn scope_view(scope: Seq<Binding>) -> ScopeView {
    scope.map_values(|b: Binding| b@)
}

spec fn stack_view(scopes: Seq<Vec<Binding>>) -> StackView {
    scopes.map_values(|s: Vec<Binding>| scope_view(s@))
}

/// Tracks, for one simulated run of a program, which binding owns which
/// value. Its view is the stack of open scopes, outermost first, each with
/// its bindings in declaration order.
///
/// A movable value has one owner at a time because the tracker holds it by
/// value: `bind` takes it from the caller, `move_out` and `exit_scope` give
/// it back, and nothing else hands it out but as a borrow or a deep copy.
#[derive(Debug)]
pub struct Tracker {
    scopes: Vec<Vec<Binding>>,
}

impl View for Tracker {
    type V = StackView;

    closed spec fn view(&self) -> StackView {
        stack_view(self.scopes@)
    }
}

impl Tracker {
    /// A tracker with no scope open.
    pub fn new() -> (t: Tracker)
        ensures
            t@ == Seq::<ScopeView>::empty(),
    {
        let t = Tracker { scopes: Vec::new() };
        assert(t@ =~= Seq::<ScopeView>::empty());
        t
    }

    /// The number of open scopes.
    pub fn depth(&self) -> (d: usize)
        ensures
            d == self@.len(),
    {
        self.scopes.len()
    }

    /// Opens a new, empty scope inside the current one. Never fails.
    pub fn enter_scope(&mut self)
        ensures
            final(self)@ == after_enter(old(self)@),
    {
        self.scopes.push(Vec::new());
        assert(self@ =~= after_enter(old(self)@)) by {
            assert(self@.last() =~= Seq::<BindingView>::empty());
        }
    }

    /// Ends the innermost scope and releases what it still owns: the value
    /// of every live binding in it that holds a movable value, each once,
    /// last declared first. The released values are handed to the caller in
    /// the order of their release.
    ///
    /// Fails with `ScopeUnderflow`, and changes nothing, where no scope is
    /// open.
    pub fn exit_scope(&mut self) -> (r: Result<Vec<Value>, TrackerError>)
        ensures
            final(self)@ == after_exit(old(self)@),
            match r {
                Ok(released) => old(self)@.len() > 0 && released.deep_view() == releases(
                    old(self)@.last(),
                ),
                Err(e) => old(self)@.len() == 0 && e == TrackerError::ScopeUnderflow,
            },
    {
        match self.scopes.pop() {
            None => Err(TrackerError::ScopeUnderflow),
            Some(mut scope) => {
                assert(self@ =~= after_exit(old(self)@));
                let ghost ended = scope_view(scope@);
                let mut released: Vec<Value> = Vec::new();
                assert(released.deep_view() =~= Seq::<ValueView>::empty());
                while scope.len() > 0
                    invariant
                        released.deep_view() + releases(scope_view(scope@)) == releases(ended),
                    decreases scope.len(),
                {
                    let ghost before = scope_view(scope@);
                    let ghost so_far = released.deep_view();
                    let binding = scope.pop().unwrap();
                    proof {
                        lemma_releases_last(before);
                        assert(scope_view(scope@) =~= before.drop_last());
                        assert(before.last() == binding@);
                    }
                    let ghost rest = releases(scope_view(scope@));
                    match binding.slot {
                        Slot::Live(value) => match value.kind() {
                            Kind::Movable => {
                                released.push(value);
                                assert(released.deep_view() =~= so_far.push(value@));
                                assert(so_far.push(value@) + rest =~= so_far + (seq![value@]
                                    + rest));
                            },
                            Kind::Copyable => {},
                        },
                        Slot::MovedOut => {},
                    }
                }
                proof {
                    assert(scope_view(scope@) =~= Seq::<BindingView>::empty());
                    lemma_no_bindings_no_releases();
                    assert(released.deep_view() + Seq::<ValueView>::empty()
                        =~= released.deep_view());
                }
                Ok(released)
            },
        }
    }

    /// Binds `name` to `value` in the current scope. An earlier binding of
    /// the same name in that scope is shadowed: it can no longer be reached
    /// by name, but it keeps its value until the scope ends.
    ///
    /// Fails with `ScopeUnderflow` where no scope is open: there is no scope
    /// to bind in, and the tracker stays as it was.
    pub fn bind(&mut self, name: &str, value: Value) -> (r: Result<(), TrackerError>)
        ensures
            final(self)@ == after_bind(old(self)@, name@, value@),
            old(self)@.len() > 0 ==> r == Ok::<(), TrackerError>(()),
            old(self)@.len() == 0 ==> r == Err::<(), TrackerError>(TrackerError::ScopeUnderflow),
    {
        match self.scopes.pop() {
            None => Err(TrackerError::ScopeUnderflow),
            Some(mut top) => {
                top.push(Binding { name: name.to_owned(), slot: Slot::Live(value) });
                self.scopes.push(top);
                assert(self@ =~= after_bind(old(self)@, name@, value@)) by {
                    assert(self@.last() =~= old(self)@.last().push(
                        BindingView { name: name@, slot: SlotView::Live(value@) },
                    ));
                }
                Ok(())
            },
        }
    }

    /// Reads `name`: the value of the nearest binding of that name, looking
    /// from the innermost scope outwards. Nothing changes hands.
    ///
    /// Fails with `UnknownName` where no binding of that name is visible, and
    /// with `UseAfterMove` where the nearest one has been moved out.
    pub fn read(&self, name: &str) -> (r: Result<&Value, TrackerError>)
        ensures
            match r {
                Ok(v) => read_result(self@, name@) == Ok::<ValueView, TrackerError>(v@),
                Err(e) => read_result(self@, name@) == Err::<ValueView, TrackerError>(e),
            },
    {
        let key = name.to_owned();
        match self.find(&key) {
            None => Err(TrackerError::UnknownName),
            Some((i, j)) => match &self.scopes[i][j].slot {
                Slot::MovedOut => Err(TrackerError::UseAfterMove),
                Slot::Live(v) => Ok(v),
            },
        }
    }

    /// Hands on the value of `name`. A movable value leaves its binding,
    /// which is moved out from then on; a copyable value is duplicated and
    /// its binding stays as it was.
    ///
    /// Fails as `read` does, and then changes nothing.
    pub fn move_out(&mut self, name: &str) -> (r: Result<Value, TrackerError>)
        ensures
            match r {
                Ok(v) => read_result(old(self)@, name@) == Ok::<ValueView, TrackerError>(v@),
                Err(e) => read_result(old(self)@, name@) == Err::<ValueView, TrackerError>(e),
            },
            final(self)@ == after_move_out(old(self)@, name@),
    {
        let key = name.to_owned();
        match self.find(&key) {
            None => Err(TrackerError::UnknownName),
            Some((i, j)) => {
                let owner = match &self.scopes[i][j].slot {
                    Slot::Live(Value::Movable(_)) => true,
                    _ => false,
                };
                if owner {
                    let mut slot = Slot::MovedOut;
                    std::mem::swap(&mut self.scopes[i][j].slot, &mut slot);
                    assert(self@ =~= after_move_out(old(self)@, name@)) by {
                        assert(self@[i as int] =~= old(self)@[i as int].update(
                            j as int,
                            old(self)@[i as int][j as int].moved_out(),
                        ));
                    }
                    match slot {
                        Slot::Live(v) => Ok(v),
                        Slot::MovedOut => unreached(),
                    }
                } else {
                    match &self.scopes[i][j].slot {
                        Slot::Live(v) => Ok(v.duplicate()),
                        Slot::MovedOut => Err(TrackerError::UseAfterMove),
                    }
                }
            },
        }
    }

    /// A deep copy of the value of `name`: an independent value with the
    /// same contents. The binding keeps its own value and stays valid.
    ///
    /// Fails as `read` does.
    pub fn duplicate(&self, name: &str) -> (r: Result<Value, TrackerError>)
        ensures
            match r {
                Ok(v) => read_result(self@, name@) == Ok::<ValueView, TrackerError>(v@),
                Err(e) => read_result(self@, name@) == Err::<ValueView, TrackerError>(e),
            },
    {
        match self.read(name) {
            Ok(v) => Ok(v.duplicate()),
            Err(e) => Err(e),
        }
    }

    /// Where `key` resolves to: the scope and the index in it.
    fn find(&self, key: &String) -> (r: Option<(usize, usize)>)
        ensures
            match r {
                Some((i, j)) => i < self.scopes.len() && j < self.scopes[i as int].len() && lookup(
                    self@,
                    key@,
                ) == Some((i as int, j as int)),
                None => lookup(self@, key@) is None,
            },
    {
        let mut i = self.scopes.len();
        assert(self@.take(i as int) =~= self@);
        while i > 0
            invariant
                i <= self.scopes.len(),
                lookup(self@, key@) == lookup(self@.take(i as int), key@),
            decreases i,
        {
            i -= 1;
            assert(self@.take(i + 1).drop_last() =~= self@.take(i as int));
            match find_in_scope(&self.scopes[i], key) {
                Some(j) => {
                    return Some((i, j));
                },
                None => {},
            }
        }
        None
    }
}

/// The index of the last binding of `key` in `scope`.
fn find_in_scope(scope: &Vec<Binding>, key: &String) -> (r: Option<usize>)
    ensures
        match r {
            Some(j) => j < scope.len() && last_named(scope_view(scope@), key@) == Some(j as int),
            None => last_named(scope_view(scope@), key@) is None,
        },
{
    let ghost whole = scope_view(scope@);
    let mut j = scope.len();
    assert(whole.take(j as int) =~= whole);
    while j > 0
        invariant
            j <= scope.len(),
            whole == scope_view(scope@),
            last_named(whole, key@) == last_named(whole.take(j as int), key@),
        decreases j,
    {
        j -= 1;
        assert(whole.take(j + 1).drop_last() =~= whole.take(j as int));
        if scope[j].name == *key {
            return Some(j);
        }
    }
    None
}

} // verus!
