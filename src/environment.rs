//! The variable environment: a stack of frames of name/value bindings.
use vstd::prelude::*;
use vstd::string::StringExecFns;

use crate::parser::{LispVal, SExp};

verus! {

/// The bindings of one frame, earliest first.
pub type FrameView = Seq<(Seq<char>, SExp)>;

/// The frames of an environment, outermost first.
pub type EnvView = Seq<FrameView>;

/// The value of the most recent binding of `key` in a frame.
pub open spec fn lookup_frame(f: FrameView, key: Seq<char>) -> Option<SExp>
    decreases f.len(),
{
    if f.len() == 0 {
        None
    } else if f.last().0 == key {
        Some(f.last().1)
    } else {
        lookup_frame(f.drop_last(), key)
    }
}

/// The value of `key` in the innermost frame that binds it.
pub open spec fn lookup_env(e: EnvView, key: Seq<char>) -> Option<SExp>
    decreases e.len(),
{
    if e.len() == 0 {
        None
    } else {
        match lookup_frame(e.last(), key) {
            Some(v) => Some(v),
            None => lookup_env(e.drop_last(), key),
        }
    }
}

/// `e` with `key` bound to `value` at the end of its innermost frame.
pub open spec fn bind(e: EnvView, key: Seq<char>, value: SExp) -> EnvView {
    e.update(e.len() - 1, e.last().push((key, value)))
}

/// One frame: bindings in the order they were made.
#[derive(Debug)]
pub struct EnvFrame(Vec<(String, LispVal)>);

impl View for EnvFrame {
    type V = FrameView;

    closed spec fn view(&self) -> FrameView {
        self.0@.map_values(|b: (String, LispVal)| (b.0@, b.1@))
    }
}

impl EnvFrame {
    pub fn new() -> (r: EnvFrame)
        ensures
            r@ == Seq::<(Seq<char>, SExp)>::empty(),
    {
        let r = EnvFrame(Vec::new());
        proof {
            assert(r@ =~= Seq::<(Seq<char>, SExp)>::empty());
        }
        r
    }

    /// The value of the most recent binding of `key`.
    pub fn lookup(&self, key: &String) -> (r: Option<&LispVal>)
        ensures
            match r {
                Some(v) => lookup_frame(self@, key@) == Some(v@),
                None => lookup_frame(self@, key@) is None,
            },
    {
        let mut i: usize = self.0.len();
        proof {
            assert(self@.subrange(0, i as int) =~= self@);
        }
        while i > 0
            invariant
                i <= self.0.len(),
                lookup_frame(self@, key@) == lookup_frame(self@.subrange(0, i as int), key@),
            decreases i,
        {
            i = i - 1;
            proof {
                let s = self@.subrange(0, i + 1);
                assert(s.drop_last() =~= self@.subrange(0, i as int));
                assert(s.last() == (self.0@[i as int].0@, self.0@[i as int].1@));
            }
            if self.0[i].0 == *key {
                return Some(&self.0[i].1);
            }
        }
        proof {
            assert(self@.subrange(0, 0) =~= Seq::<(Seq<char>, SExp)>::empty());
        }
        None
    }

    /// Adds a binding after all others.
    pub fn push(&mut self, key: String, value: LispVal)
        ensures
            final(self)@ == old(self)@.push((key@, value@)),
    {
        self.0.push((key, value));
        proof {
            assert(final(self)@ =~= old(self)@.push((key@, value@)));
        }
    }
}

/// A stack of frames; the innermost frame is the last.
#[derive(Debug)]
pub struct Environment(Vec<EnvFrame>);

impl View for Environment {
    type V = EnvView;

    closed spec fn view(&self) -> EnvView {
        self.0@.map_values(|f: EnvFrame| f@)
    }
}

impl Environment {
    /// One empty root frame.
    pub fn new() -> (r: Environment)
        ensures
            r@ == seq![Seq::<(Seq<char>, SExp)>::empty()],
    {
        let mut env = Environment(Vec::new());
        env.new_frame();
        proof {
            assert(env@ =~= seq![Seq::<(Seq<char>, SExp)>::empty()]);
        }
        env
    }

    /// The value of `key` in the innermost frame that binds it.
    pub fn lookup(&self, key: &str) -> (r: Option<&LispVal>)
        ensures
            match r {
                Some(v) => lookup_env(self@, key@) == Some(v@),
                None => lookup_env(self@, key@) is None,
            },
    {
        let k = String::from_str(key);
        let mut i: usize = self.0.len();
        proof {
            assert(self@.subrange(0, i as int) =~= self@);
        }
        while i > 0
            invariant
                i <= self.0.len(),
                k@ == key@,
                lookup_env(self@, key@) == lookup_env(self@.subrange(0, i as int), key@),
            decreases i,
        {
            i = i - 1;
            proof {
                let s = self@.subrange(0, i + 1);
                assert(s.drop_last() =~= self@.subrange(0, i as int));
                assert(s.last() == self.0@[i as int]@);
            }
            match self.0[i].lookup(&k) {
                Some(v) => {
                    return Some(v);
                },
                None => {},
            }
        }
        proof {
            assert(self@.subrange(0, 0) =~= Seq::<FrameView>::empty());
        }
        None
    }

    /// Pushes an empty innermost frame.
    pub fn new_frame(&mut self)
        ensures
            final(self)@ == old(self)@.push(Seq::empty()),
    {
        self.0.push(EnvFrame::new());
        proof {
            assert(final(self)@ =~= old(self)@.push(Seq::empty()));
        }
    }

    /// Removes the innermost frame; the root frame always stays.
    pub fn pop_frame(&mut self)
        requires
            old(self)@.len() > 1,
        ensures
            final(self)@ == old(self)@.drop_last(),
    {
        self.0.pop();
        proof {
            assert(final(self)@ =~= old(self)@.drop_last());
        }
    }

    /// Binds `key` to `value` in the innermost frame, after its other
    /// bindings.
    pub fn new_binding(&mut self, key: String, value: LispVal)
        requires
            old(self)@.len() >= 1,
        ensures
            final(self)@ == bind(old(self)@, key@, value@),
    {
        let last = self.0.len() - 1;
        let mut frame = self.0.remove(last);
        frame.push(key, value);
        self.0.push(frame);
        proof {
            assert(final(self)@ =~= bind(old(self)@, key@, value@));
        }
    }
}

} // verus!
