use vstd::prelude::*;

use crate::eval_result::{value_wf, EvalResult, ValueV};
use crate::text::str_eq;
use vstd::string::StringExecFns;

verus! {

/// One variable binding inside a scope frame.
pub struct Binding {
    pub name: String,
    pub value: EvalResult,
}

impl View for Binding {
    type V = (Seq<char>, ValueV);

    open spec fn view(&self) -> (Seq<char>, ValueV) {
        (self.name@, self.value@)
    }
}

impl DeepView for Binding {
    type V = (Seq<char>, ValueV);

    open spec fn deep_view(&self) -> (Seq<char>, ValueV) {
        self.view()
    }
}

/// A scope frame, as a sequence of name-to-value bindings.
pub type FrameV = Seq<(Seq<char>, ValueV)>;

/// The index of the first binding for `name` at or after `i`, or the
/// frame's length when there is none.
pub open spec fn frame_find(f: FrameV, name: Seq<char>, i: int) -> int
    decreases f.len() - i,
{
    if i < 0 || i >= f.len() {
        f.len() as int
    } else if f[i].0 == name {
        i
    } else {
        frame_find(f, name, i + 1)
    }
}

/// The value bound to `name` in one frame, if any.
pub open spec fn frame_get(f: FrameV, name: Seq<char>) -> Option<ValueV> {
    let j = frame_find(f, name, 0);
    if j < f.len() {
        Some(f[j].1)
    } else {
        None
    }
}

/// The frame after binding `name` to `v`: the first existing binding is
/// replaced, or a new one is appended.
pub open spec fn frame_set(f: FrameV, name: Seq<char>, v: ValueV) -> FrameV {
    let j = frame_find(f, name, 0);
    if j < f.len() {
        f.update(j, (name, v))
    } else {
        f.push((name, v))
    }
}

/// The frame after removing the binding for `name`, if present.
pub open spec fn frame_remove(f: FrameV, name: Seq<char>) -> FrameV {
    let j = frame_find(f, name, 0);
    if j < f.len() {
        f.remove(j)
    } else {
        f
    }
}

/// A chain of scope frames, innermost last.
pub type EnvV = Seq<FrameV>;

/// The value bound to `name`, walking outward from the innermost frame.
pub open spec fn env_get(e: EnvV, name: Seq<char>) -> Option<ValueV>
    decreases e.len(),
{
    if e.len() == 0 {
        None
    } else {
        match frame_get(e.last(), name) {
            Some(v) => Some(v),
            None => env_get(e.drop_last(), name),
        }
    }
}

/// The environment after binding `name` to `v` in the innermost frame.
pub open spec fn env_set(e: EnvV, name: Seq<char>, v: ValueV) -> EnvV {
    e.update(e.len() - 1, frame_set(e.last(), name, v))
}

/// A well-formed environment: at least one frame, and every bound value
/// well formed.
pub open spec fn env_wf(e: EnvV) -> bool {
    &&& e.len() >= 1
    &&& forall|i: int, j: int|
        0 <= i < e.len() && 0 <= j < e[i].len() ==> value_wf(#[trigger] e[i][j].1)
}

/// The diagnostic text for a lookup of `name` that found nothing.
pub open spec fn undefined_text(name: Seq<char>) -> Seq<char> {
    "Undefined Identifier: '"@ + name + "' is unknown in this context."@
}

/// `frame_find` finds the first match: everything before it differs from
/// `name`, and it lands on a match when one exists.
pub proof fn lemma_frame_find_props(f: FrameV, name: Seq<char>, i: int)
    requires
        0 <= i <= f.len(),
    ensures
        i <= frame_find(f, name, i) <= f.len(),
        forall|k: int| i <= k < frame_find(f, name, i) ==> (#[trigger] f[k]).0 != name,
        frame_find(f, name, i) < f.len() ==> f[frame_find(f, name, i)].0 == name,
    decreases f.len() - i,
{
    if i < f.len() && f[i].0 != name {
        lemma_frame_find_props(f, name, i + 1);
    }
}

/// If everything in `[i, j)` differs from `name` and `j` is a match (or
/// the end), then `j` is the first match at or after `i`.
pub proof fn lemma_frame_find_exact(f: FrameV, name: Seq<char>, i: int, j: int)
    requires
        0 <= i <= j <= f.len(),
        forall|k: int| i <= k < j ==> (#[trigger] f[k]).0 != name,
        j == f.len() || f[j].0 == name,
    ensures
        frame_find(f, name, i) == j,
    decreases j - i,
{
    if i < j {
        lemma_frame_find_exact(f, name, i + 1, j);
    }
}

/// Law: a binding persists — after `name` is bound to `v` in the
/// innermost scope, looking `name` up yields `v`.
pub proof fn lemma_env_set_get(e: EnvV, name: Seq<char>, v: ValueV)
    requires
        e.len() >= 1,
    ensures
        env_get(env_set(e, name, v), name) == Some(v),
{
    let f = e.last();
    let j = frame_find(f, name, 0);
    lemma_frame_find_props(f, name, 0);
    let f2 = frame_set(f, name, v);
    if j < f.len() {
        assert(f2 =~= f.update(j, (name, v)));
        assert(forall|k: int| 0 <= k < j ==> (#[trigger] f2[k]).0 != name);
        lemma_frame_find_exact(f2, name, 0, j);
        assert(frame_get(f2, name) == Some(v));
    } else {
        assert(f2 =~= f.push((name, v)));
        assert(forall|k: int| 0 <= k < f.len() ==> (#[trigger] f2[k]).0 != name);
        lemma_frame_find_exact(f2, name, 0, f.len() as int);
        assert(frame_get(f2, name) == Some(v));
    }
    let e2 = env_set(e, name, v);
    assert(e2.last() == f2);
}

/// A chained mapping from variable names to values, supporting lexical
/// nesting: lookups walk outward from the innermost scope, writes go to
/// the innermost scope.
pub struct Environment {
    frames: Vec<Vec<Binding>>,
}

impl View for Environment {
    type V = EnvV;

    closed spec fn view(&self) -> EnvV {
        self.frames.deep_view()
    }
}

/// Finds `name` in one frame, from the front.
fn find_in_frame(frame: &Vec<Binding>, name: &str) -> (r: usize)
    ensures
        r == frame_find(frame.deep_view(), name@, 0),
        r <= frame.len(),
        frame.deep_view().len() == frame.len(),
{
    let n = frame.len();
    let mut i: usize = 0;
    proof {
        assert(frame.deep_view().len() == frame@.len());
    }
    while i < n
        invariant
            n == frame.len(),
            frame.deep_view().len() == n,
            i <= n,
            frame_find(frame.deep_view(), name@, 0) == frame_find(frame.deep_view(), name@, i as int),
        decreases n - i,
    {
        proof {
            assert(frame.deep_view()[i as int] == frame@[i as int].deep_view());
        }
        if str_eq(frame[i].name.as_str(), name) {
            return i;
        }
        i += 1;
    }
    i
}

impl Environment {
    /// A fresh environment with a single, empty global scope.
    pub fn new_root() -> (r: Environment)
        ensures
            r@ == seq![Seq::<(Seq<char>, ValueV)>::empty()],
            env_wf(r@),
    {
        let mut frames: Vec<Vec<Binding>> = Vec::new();
        frames.push(Vec::new());
        let r = Environment { frames };
        proof {
            assert(r@ =~~= seq![Seq::<(Seq<char>, ValueV)>::empty()]);
        }
        r
    }

    /// A child scope whose lookups fall back to `enclosing`.
    pub fn new_child(enclosing: Environment) -> (r: Environment)
        ensures
            r@ == enclosing@.push(Seq::<(Seq<char>, ValueV)>::empty()),
            env_wf(enclosing@) ==> env_wf(r@),
    {
        let ghost oldv = enclosing@;
        let mut frames = enclosing.frames;
        frames.push(Vec::new());
        let r = Environment { frames };
        proof {
            assert(r@ =~~= oldv.push(Seq::<(Seq<char>, ValueV)>::empty()));
        }
        r
    }

    /// Binds `name` to a copy of `value` in the innermost scope.
    pub fn set(&mut self, name: &str, value: &EvalResult)
        requires
            env_wf(old(self)@),
            value_wf(value@),
        ensures
            final(self)@ == env_set(old(self)@, name@, value@),
            env_wf(final(self)@),
    {
        let ghost oldenv = self@;
        let mut frame = match self.frames.pop() {
            Some(f) => f,
            None => {
                proof {
                    assert(false);
                }
                Vec::new()
            },
        };
        let ghost oldframe = frame.deep_view();
        let i = find_in_frame(&frame, name);
        if i < frame.len() {
            let slot = vstd::std_specs::vec::vec_index_mut(&mut frame, i);
            *slot = Binding { name: name.to_owned(), value: value.dup() };
            proof {
                assert(frame.deep_view() =~= frame_set(oldframe, name@, value@));
            }
        } else {
            frame.push(Binding { name: name.to_owned(), value: value.dup() });
            proof {
                assert(frame.deep_view() =~= frame_set(oldframe, name@, value@));
            }
        }
        self.frames.push(frame);
        proof {
            assert(oldenv.last() == oldframe);
            assert(final(self)@ =~~= env_set(oldenv, name@, value@));
            assert forall|a: int, b: int|
                0 <= a < final(self)@.len() && 0 <= b < final(self)@[a].len() implies value_wf(
                final(self)@[a][b].1) by {
                if a == final(self)@.len() - 1 {
                    let j = frame_find(oldframe, name@, 0);
                    if b != j || j >= oldframe.len() {
                        if b < oldframe.len() {
                            assert(value_wf(oldenv[a][b].1));
                        }
                    }
                } else {
                    assert(value_wf(oldenv[a][b].1));
                }
            }
        }
    }

    /// Looks `name` up, walking outward from the innermost scope; an
    /// unresolved name yields the diagnostic text naming it.
    pub fn get(&self, name: &str) -> (r: Result<EvalResult, String>)
        ensures
            match env_get(self@, name@) {
                Some(v) => r is Ok && r->Ok_0@ == v,
                None => r is Err && r->Err_0@ == undefined_text(name@),
            },
            env_wf(self@) && r is Ok ==> value_wf(r->Ok_0@),
    {
        let mut fi = self.frames.len();
        proof {
            assert(self@.subrange(0, self@.len() as int) =~~= self@);
        }
        while fi > 0
            invariant
                fi <= self.frames.len(),
                self@.len() == self.frames.len(),
                env_get(self@, name@) == env_get(self@.subrange(0, fi as int), name@),
            decreases fi,
        {
            fi -= 1;
            proof {
                assert(self@[fi as int] == self.frames@[fi as int].deep_view());
                assert(self@.subrange(0, fi + 1).last() == self@[fi as int]);
                assert(self@.subrange(0, fi + 1).drop_last() =~= self@.subrange(0, fi as int));
            }
            let frame = &self.frames[fi];
            let i = find_in_frame(frame, name);
            if i < frame.len() {
                proof {
                    assert(frame.deep_view()[i as int] == frame@[i as int].deep_view());
                    if env_wf(self@) {
                        assert(value_wf(self@[fi as int][i as int].1));
                    }
                }
                return Ok(frame[i].value.dup());
            }
        }
        proof {
            assert(self@.subrange(0, 0) =~= Seq::<FrameV>::empty());
        }
        let mut msg = String::from_str("Undefined Identifier: '");
        msg.append(name);
        msg.append("' is unknown in this context.");
        Err(msg)
    }

    /// Whether the innermost scope itself binds `name`.
    pub fn contains(&self, name: &str) -> (r: bool)
        requires
            env_wf(self@),
        ensures
            r == (frame_get(self@.last(), name@) is Some),
    {
        let fl = self.frames.len() - 1;
        let frame = &self.frames[fl];
        proof {
            assert(self@[fl as int] == self.frames@[fl as int].deep_view());
        }
        let i = find_in_frame(frame, name);
        i < frame.len()
    }

    /// Removes the binding for `name` from the innermost scope, if any.
    pub fn remove(&mut self, name: &str)
        requires
            env_wf(old(self)@),
        ensures
            final(self)@ == old(self)@.update(
                old(self)@.len() - 1,
                frame_remove(old(self)@.last(), name@),
            ),
            env_wf(final(self)@),
    {
        let ghost oldenv = self@;
        let mut frame = match self.frames.pop() {
            Some(f) => f,
            None => {
                proof {
                    assert(false);
                }
                Vec::new()
            },
        };
        let ghost oldframe = frame.deep_view();
        let i = find_in_frame(&frame, name);
        if i < frame.len() {
            frame.remove(i);
            proof {
                assert(frame.deep_view() =~= frame_remove(oldframe, name@));
            }
        } else {
            proof {
                assert(frame.deep_view() =~= frame_remove(oldframe, name@));
            }
        }
        self.frames.push(frame);
        proof {
            assert(oldenv.last() == oldframe);
            assert(final(self)@ =~~= oldenv.update(
                oldenv.len() - 1,
                frame_remove(oldframe, name@),
            ));
            assert forall|a: int, b: int|
                0 <= a < final(self)@.len() && 0 <= b < final(self)@[a].len() implies value_wf(
                final(self)@[a][b].1) by {
                if a == final(self)@.len() - 1 {
                    let j = frame_find(oldframe, name@, 0);
                    if j < oldframe.len() {
                        if b < j {
                            assert(final(self)@[a][b] == oldframe[b]);
                            assert(value_wf(oldenv[a][b].1));
                        } else {
                            assert(final(self)@[a][b] == oldframe[b + 1]);
                            assert(value_wf(oldenv[a][b + 1].1));
                        }
                    } else {
                        assert(value_wf(oldenv[a][b].1));
                    }
                } else {
                    assert(value_wf(oldenv[a][b].1));
                }
            }
        }
    }

    /// Empties the innermost scope.
    pub fn clear(&mut self)
        requires
            env_wf(old(self)@),
        ensures
            final(self)@ == old(self)@.update(
                old(self)@.len() - 1,
                Seq::<(Seq<char>, ValueV)>::empty(),
            ),
            env_wf(final(self)@),
    {
        let ghost oldenv = self@;
        let mut frame = match self.frames.pop() {
            Some(f) => f,
            None => {
                proof {
                    assert(false);
                }
                Vec::new()
            },
        };
        frame.clear();
        self.frames.push(frame);
        proof {
            assert(final(self)@ =~~= oldenv.update(
                oldenv.len() - 1,
                Seq::<(Seq<char>, ValueV)>::empty(),
            ));
        }
    }
}

} // verus!
