//! The activation stack: call frames, each a stack of lexical frames.

use crate::value::{Value, ValueView};
use vstd::prelude::*;

verus! {

/// A name and the value bound to it.
#[derive(Debug)]
pub struct Binding {
    pub name: String,
    pub value: Value,
}

/// The mathematical value of a [`Binding`].
pub struct BindingView {
    pub name: Seq<char>,
    pub value: ValueView,
}

impl View for Binding {
    type V = BindingView;

    open spec fn view(&self) -> BindingView {
        BindingView { name: self.name@, value: self.value@ }
    }
}

/// The bindings of one scope. Where a name is bound twice, the later
/// binding counts.
pub type Frame = Seq<BindingView>;

/// The values of the bindings of a scope.
pub open spec fn frame_view(bs: Seq<Binding>) -> Frame {
    Seq::new(bs.len(), |i: int| bs[i]@)
}

/// The scopes of one call, the outermost first.
pub open spec fn call_view(fs: Seq<Vec<Binding>>) -> Seq<Frame> {
    Seq::new(fs.len(), |i: int| frame_view(fs[i]@))
}

/// The calls of a stack, the oldest first.
pub open spec fn calls_view(cs: Seq<Vec<Vec<Binding>>>) -> Seq<Seq<Frame>> {
    Seq::new(cs.len(), |i: int| call_view(cs[i]@))
}

/// The index of the binding of `name` that counts among the first `upto`
/// bindings of a scope: the last one.
pub open spec fn bound_at(frame: Frame, name: Seq<char>, upto: int) -> Option<int>
    decreases upto,
{
    if upto <= 0 {
        None
    } else if frame[upto - 1].name == name {
        Some(upto - 1)
    } else {
        bound_at(frame, name, upto - 1)
    }
}

/// The index of the innermost scope that binds `name`, among the first
/// `upto` scopes of a call.
pub open spec fn scope_of(call: Seq<Frame>, name: Seq<char>, upto: int) -> Option<int>
    decreases upto,
{
    if upto <= 0 {
        None
    } else if bound_at(call[upto - 1], name, call[upto - 1].len() as int) is Some {
        Some(upto - 1)
    } else {
        scope_of(call, name, upto - 1)
    }
}

/// The value of `name` in a call: that of the innermost scope that binds
/// it.
pub open spec fn value_in(call: Seq<Frame>, name: Seq<char>) -> Option<ValueView> {
    match scope_of(call, name, call.len() as int) {
        Some(s) => Some(call[s][bound_at(call[s], name, call[s].len() as int)->0].value),
        None => None,
    }
}

/// The call with `name` bound to `value` in its innermost scope (in a
/// first scope, where the call has none).
pub open spec fn declared(call: Seq<Frame>, name: Seq<char>, value: ValueView) -> Seq<Frame> {
    if call.len() == 0 {
        seq![seq![BindingView { name, value }]]
    } else {
        call.update(call.len() - 1, call[call.len() - 1].push(BindingView { name, value }))
    }
}

/// The scope that binds a name is one of the scopes looked at.
pub proof fn lemma_scope_in_range(call: Seq<Frame>, name: Seq<char>, upto: int)
    ensures
        scope_of(call, name, upto) matches Some(s) ==> 0 <= s < upto,
    decreases upto,
{
    if upto > 0 {
        lemma_scope_in_range(call, name, upto - 1);
    }
}

/// An assignment or a declaration keeps the number of scopes of a call
/// that has any.
pub proof fn lemma_scopes_kept(call: Seq<Frame>, name: Seq<char>, value: ValueView)
    requires
        call.len() > 0,
    ensures
        assigned(call, name, value).len() == call.len(),
        declared(call, name, value).len() == call.len(),
{
    lemma_scope_in_range(call, name, call.len() as int);
}

/// Every call has at least one scope.
pub open spec fn scoped(calls: Seq<Seq<Frame>>) -> bool {
    forall|i: int| 0 <= i < calls.len() ==> (#[trigger] calls[i]).len() > 0
}

/// The call after an assignment to `name`: the innermost scope that binds
/// the name gets the new value; where no scope binds it, the innermost
/// scope declares it.
pub open spec fn assigned(call: Seq<Frame>, name: Seq<char>, value: ValueView) -> Seq<Frame> {
    match scope_of(call, name, call.len() as int) {
        Some(s) => call.update(
            s,
            call[s].update(
                bound_at(call[s], name, call[s].len() as int)->0,
                BindingView { name, value },
            ),
        ),
        None => declared(call, name, value),
    }
}

/// The activation stack. Its operations keep at least one scope in every
/// call ([`scoped`]).
pub struct Stack {
    calls: Vec<Vec<Vec<Binding>>>,
}

impl View for Stack {
    type V = Seq<Seq<Frame>>;

    closed spec fn view(&self) -> Seq<Seq<Frame>> {
        calls_view(self.calls@)
    }
}

impl Stack {
    /// A stack without calls.
    pub fn new() -> (out: Stack)
        ensures
            out@.len() == 0,
            scoped(out@),
    {
        Stack { calls: Vec::new() }
    }

    /// The number of calls.
    pub fn depth(&self) -> (out: usize)
        ensures
            out == self@.len(),
    {
        self.calls.len()
    }

    /// The number of scopes of the current call; 0 without a call.
    pub fn scopes(&self) -> (out: usize)
        ensures
            self@.len() == 0 ==> out == 0,
            self@.len() > 0 ==> out == self@.last().len(),
    {
        let n = self.calls.len();
        if n == 0 {
            0
        } else {
            self.calls[n - 1].len()
        }
    }

    /// Enters a call: a new call with one empty scope.
    pub fn push_call(&mut self)
        ensures
            final(self)@ == old(self)@.push(seq![Seq::<BindingView>::empty()]),
            scoped(old(self)@) ==> scoped(final(self)@),
    {
        let mut call: Vec<Vec<Binding>> = Vec::new();
        call.push(Vec::new());
        proof {
            assert(frame_view(call@[0]@) =~= Seq::<BindingView>::empty());
            assert(call_view(call@) =~= seq![Seq::<BindingView>::empty()]);
            assert(calls_view(self.calls@.push(call)) =~= calls_view(self.calls@).push(
                call_view(call@),
            ));
        }
        self.calls.push(call);
    }

    /// Leaves the current call. Without a call nothing changes.
    pub fn pop_call(&mut self)
        ensures
            old(self)@.len() > 0 ==> final(self)@ == old(self)@.drop_last(),
            old(self)@.len() == 0 ==> final(self)@ == old(self)@,
            scoped(old(self)@) ==> scoped(final(self)@),
    {
        let ghost before = self.calls@;
        let _ = self.calls.pop();
        proof {
            if before.len() > 0 {
                assert(calls_view(before.drop_last()) =~= calls_view(before).drop_last());
            } else {
                assert(self.calls@ =~= before);
            }
        }
    }

    /// Enters a scope in the current call. Without a call nothing changes
    /// and the result is `false`.
    pub fn push_lex(&mut self) -> (done: bool)
        ensures
            done == (old(self)@.len() > 0),
            done ==> final(self)@ == old(self)@.update(
                old(self)@.len() - 1,
                old(self)@.last().push(Seq::<BindingView>::empty()),
            ),
            !done ==> final(self)@ == old(self)@,
            scoped(old(self)@) ==> scoped(final(self)@),
    {
        match self.calls.pop() {
            Some(mut call) => {
                let ghost rest = self.calls@;
                let ghost was = call;
                call.push(Vec::new());
                proof {
                    assert(old(self).calls@ =~= rest.push(was));
                    assert(frame_view(call@[was@.len() as int]@) =~= Seq::<BindingView>::empty());
                    assert(call_view(call@) =~= call_view(was@).push(Seq::<BindingView>::empty()));
                    assert(calls_view(rest.push(call)) =~= calls_view(rest.push(was)).update(
                        rest.len() as int,
                        call_view(call@),
                    ));
                }
                self.calls.push(call);
                true
            },
            None => false,
        }
    }

    /// Leaves the innermost scope of the current call, unless it is the
    /// only one. The result says whether a scope was left.
    pub fn pop_lex(&mut self) -> (done: bool)
        ensures
            done == (old(self)@.len() > 0 && old(self)@.last().len() > 1),
            done ==> final(self)@ == old(self)@.update(
                old(self)@.len() - 1,
                old(self)@.last().drop_last(),
            ),
            !done ==> final(self)@ == old(self)@,
            scoped(old(self)@) ==> scoped(final(self)@),
    {
        match self.calls.pop() {
            Some(mut call) => {
                let ghost rest = self.calls@;
                let ghost was = call;
                proof {
                    assert(old(self).calls@ =~= rest.push(was));
                    assert(old(self)@.last() == call_view(was@));
                }
                if call.len() > 1 {
                    let _ = call.pop();
                    proof {
                        assert(call_view(call@) =~= call_view(was@).drop_last());
                        assert(calls_view(rest.push(call)) =~= calls_view(rest.push(was)).update(
                            rest.len() as int,
                            call_view(call@),
                        ));
                    }
                    self.calls.push(call);
                    true
                } else {
                    self.calls.push(call);
                    assert(self.calls@ =~= old(self).calls@);
                    false
                }
            },
            None => false,
        }
    }

    /// The value of `name` in the current call.
    pub fn lookup(&self, name: &String) -> (out: Option<Value>)
        ensures
            self@.len() == 0 ==> out is None,
            self@.len() > 0 ==> match value_in(self@.last(), name@) {
                Some(v) => out is Some && out->Some_0@ == v,
                None => out is None,
            },
    {
        let n = self.calls.len();
        if n == 0 {
            return None;
        }
        match self.place_of(name) {
            Some((s, b)) => {
                proof {
                    assert(self@.last() == call_view(self.calls@[n - 1]@));
                    assert(self@.last()[s as int] == frame_view(self.calls@[n - 1]@[s as int]@));
                    assert(self@.last()[s as int][b as int] == self.calls@[n - 1]@[s as int]@[b as int]@);
                }
                Some(self.calls[n - 1][s][b].value.clone())
            },
            None => None,
        }
    }

    /// Binds `name` to `value` in the innermost scope of the current call.
    /// Without a call nothing changes and the result is `false`.
    pub fn declare(&mut self, name: String, value: Value) -> (done: bool)
        ensures
            done == (old(self)@.len() > 0),
            done ==> final(self)@ == old(self)@.update(
                old(self)@.len() - 1,
                declared(old(self)@.last(), name@, value@),
            ),
            !done ==> final(self)@ == old(self)@,
            scoped(old(self)@) ==> scoped(final(self)@),
    {
        match self.calls.pop() {
            Some(mut call) => {
                let ghost rest = self.calls@;
                let ghost was = call;
                proof {
                    assert(old(self).calls@ =~= rest.push(was));
                    assert(old(self)@.last() == call_view(was@));
                }
                match call.pop() {
                    Some(mut frame) => {
                        let ghost outer = call@;
                        let ghost fb = frame;
                        let binding = Binding { name, value };
                        let ghost bv = binding@;
                        frame.push(binding);
                        proof {
                            assert(was@ =~= outer.push(fb));
                            assert(frame_view(frame@) =~= frame_view(fb@).push(bv));
                            assert(call_view(outer.push(frame)) =~= declared(
                                call_view(was@),
                                name@,
                                value@,
                            ));
                        }
                        call.push(frame);
                        proof {
                            assert(calls_view(rest.push(call)) =~= calls_view(rest.push(was)).update(
                                rest.len() as int,
                                call_view(call@),
                            ));
                        }
                        self.calls.push(call);
                        true
                    },
                    None => {
                        let binding = Binding { name, value };
                        let ghost bv = binding@;
                        let mut frame: Vec<Binding> = Vec::new();
                        frame.push(binding);
                        call.push(frame);
                        proof {
                            assert(call_view(was@) =~= Seq::<Frame>::empty());
                            assert(frame_view(frame@) =~= seq![bv]);
                            assert(call_view(call@) =~= seq![seq![bv]]);
                            assert(calls_view(rest.push(call)) =~= calls_view(rest.push(was)).update(
                                rest.len() as int,
                                call_view(call@),
                            ));
                        }
                        self.calls.push(call);
                        true
                    },
                }
            },
            None => false,
        }
    }

    /// Where `name` is bound in the current call: the index of the
    /// innermost scope that binds it, and of the binding that counts there.
    fn place_of(&self, name: &String) -> (out: Option<(usize, usize)>)
        requires
            self@.len() > 0,
        ensures
            match out {
                Some((s, b)) => {
                    &&& scope_of(self@.last(), name@, self@.last().len() as int) == Some(s as int)
                    &&& bound_at(self@.last()[s as int], name@, self@.last()[s as int].len() as int)
                        == Some(b as int)
                    &&& s < self.calls@.last().len()
                    &&& b < self.calls@.last()[s as int].len()
                    &&& s < self@.last().len()
                    &&& b < self@.last()[s as int].len()
                },
                None => scope_of(self@.last(), name@, self@.last().len() as int) is None,
            },
    {
        let n = self.calls.len();
        let call = &self.calls[n - 1];
        let ghost cv = call_view(call@);
        assert(cv == self@.last());
        let mut s = call.len();
        while s > 0
            invariant
                s <= call.len(),
                call == self.calls@.last(),
                cv == self@.last(),
                cv == call_view(call@),
                cv.len() == call.len(),
                scope_of(cv, name@, cv.len() as int) == scope_of(cv, name@, s as int),
            decreases s,
        {
            s -= 1;
            let frame = &call[s];
            let ghost fv = frame_view(frame@);
            assert(cv[s as int] == fv);
            let mut b = frame.len();
            while b > 0
                invariant
                    b <= frame.len(),
                    s < call.len(),
                    frame == call@[s as int],
                    call == self.calls@.last(),
                    cv == self@.last(),
                    cv == call_view(call@),
                    cv.len() == call.len(),
                    cv[s as int] == fv,
                    fv == frame_view(frame@),
                    fv.len() == frame.len(),
                    scope_of(cv, name@, cv.len() as int) == scope_of(cv, name@, s + 1),
                    bound_at(fv, name@, fv.len() as int) == bound_at(fv, name@, b as int),
                decreases b,
            {
                b -= 1;
                if frame[b].name == *name {
                    assert(fv[b as int] == frame[b as int]@);
                    return Some((s, b));
                }
            }
        }
        None
    }

    /// Assigns `value` to `name` in the current call: in the innermost
    /// scope that binds the name, and where none does, as a new binding of
    /// the innermost scope. Without a call nothing changes and the result
    /// is `false`.
    pub fn assign(&mut self, name: String, value: Value) -> (done: bool)
        ensures
            done == (old(self)@.len() > 0),
            done ==> final(self)@ == old(self)@.update(
                old(self)@.len() - 1,
                assigned(old(self)@.last(), name@, value@),
            ),
            !done ==> final(self)@ == old(self)@,
            scoped(old(self)@) ==> scoped(final(self)@),
    {
        if self.calls.len() == 0 {
            return false;
        }
        match self.place_of(&name) {
            Some((s, b)) => {
                match self.calls.pop() {
                    Some(mut call) => {
                        let ghost rest = self.calls@;
                        let ghost was = call;
                        proof {
                            assert(old(self).calls@ =~= rest.push(was));
                            assert(old(self)@.last() == call_view(was@));
                            assert(call_view(was@)[s as int] == frame_view(was@[s as int]@));
                        }
                        let binding = Binding { name, value };
                        let ghost bv = binding@;
                        let mut frame = call.remove(s);
                        let ghost fb = frame;
                        let _ = frame.remove(b);
                        frame.insert(b, binding);
                        proof {
                            assert(frame_view(frame@) =~= frame_view(fb@).update(b as int, bv));
                        }
                        call.insert(s, frame);
                        proof {
                            assert(call_view(call@) =~= call_view(was@).update(
                                s as int,
                                frame_view(fb@).update(b as int, bv),
                            ));
                            assert(calls_view(rest.push(call)) =~= calls_view(rest.push(was)).update(
                                rest.len() as int,
                                call_view(call@),
                            ));
                        }
                        self.calls.push(call);
                        true
                    },
                    None => false,
                }
            },
            None => self.declare(name, value),
        }
    }
}

} // verus!
