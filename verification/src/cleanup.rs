//! Cleanup scopes: while a scope runs, cleanups registered go to the innermost running
//! scope; a scope keeps what it collected and hands it back, last registered first.

use vstd::prelude::*;

verus! {

/// The frames of the scopes that are running, innermost last, each with the cleanups
/// registered in it so far.
pub struct CleanupStack<T> {
    frames: Vec<Vec<T>>,
}

impl<T> CleanupStack<T> {
    /// The frames, innermost last.
    pub closed spec fn frames(&self) -> Seq<Seq<T>> {
        Seq::new(self.frames@.len(), |i: int| self.frames@[i]@)
    }

    /// No scope running.
    pub fn new() -> (r: Self)
        ensures
            r.frames() == Seq::<Seq<T>>::empty(),
    {
        CleanupStack { frames: Vec::new() }
    }

    /// Whether a scope is running.
    pub fn is_running(&self) -> (r: bool)
        ensures
            r == (self.frames().len() > 0),
    {
        self.frames.len() > 0
    }

    /// A scope starts running, with no cleanup yet.
    pub fn open_frame(&mut self)
        ensures
            final(self).frames() == old(self).frames().push(Seq::<T>::empty()),
    {
        self.frames.push(Vec::new());
        proof {
            assert(final(self).frames() =~= old(self).frames().push(Seq::<T>::empty()));
        }
    }

    /// Registers `cleanup` with the innermost running scope; with no scope running it is
    /// dropped. Returns whether it was kept.
    pub fn register(&mut self, cleanup: T) -> (r: bool)
        ensures
            r == (old(self).frames().len() > 0),
            final(self).frames() == with_registered(old(self).frames(), cleanup),
    {
        let n = self.frames.len();
        if n == 0 {
            return false;
        }
        let mut top = self.frames.pop().unwrap();
        top.push(cleanup);
        self.frames.push(top);
        proof {
            assert(final(self).frames() =~= old(self).frames().update(
                old(self).frames().len() - 1,
                old(self).frames().last().push(cleanup),
            ));
        }
        true
    }

    /// The innermost scope stops running: its cleanups, in the order registered (none
    /// when no scope was running).
    pub fn close_frame(&mut self) -> (r: Vec<T>)
        ensures
            old(self).frames().len() > 0 ==> r@ == old(self).frames().last() && final(self).frames()
                == old(self).frames().drop_last(),
            old(self).frames().len() == 0 ==> r@ == Seq::<T>::empty() && final(self).frames()
                == old(self).frames(),
    {
        match self.frames.pop() {
            Some(top) => {
                proof {
                    assert(final(self).frames() =~= old(self).frames().drop_last());
                }
                top
            },
            None => Vec::new(),
        }
    }
}

/// The cleanups a scope collected, in the order registered.
pub struct Scope<T> {
    cleanups: Vec<T>,
}

impl<T> Scope<T> {
    /// The cleanups collected, in the order registered.
    pub closed spec fn pending(&self) -> Seq<T> {
        self.cleanups@
    }

    /// A scope with nothing collected.
    pub fn new() -> (r: Self)
        ensures
            r.pending() == Seq::<T>::empty(),
    {
        Scope { cleanups: Vec::new() }
    }

    /// Keeps the cleanups of a frame after those already collected.
    pub fn absorb(&mut self, frame: Vec<T>)
        ensures
            final(self).pending() == old(self).pending() + frame@,
    {
        let mut frame = frame;
        self.cleanups.append(&mut frame);
    }

    /// The next cleanup to run, the last registered first; none when all have run.
    pub fn next_cleanup(&mut self) -> (r: Option<T>)
        ensures
            old(self).pending().len() > 0 ==> r == Some(old(self).pending().last())
                && final(self).pending() == old(self).pending().drop_last(),
            old(self).pending().len() == 0 ==> r is None
                && final(self).pending() == old(self).pending(),
    {
        self.cleanups.pop()
    }
}

/// The frames after registering `cleanup`: it joins the innermost frame, if any.
pub open spec fn with_registered<T>(frames: Seq<Seq<T>>, cleanup: T) -> Seq<Seq<T>> {
    if frames.len() > 0 {
        frames.update(frames.len() - 1, frames.last().push(cleanup))
    } else {
        frames
    }
}

/// The frames after registering each of `cleanups` in turn.
pub open spec fn with_all_registered<T>(frames: Seq<Seq<T>>, cleanups: Seq<T>) -> Seq<Seq<T>>
    decreases cleanups.len(),
{
    if cleanups.len() == 0 {
        frames
    } else {
        with_registered(with_all_registered(frames, cleanups.drop_last()), cleanups.last())
    }
}

/// A scope collects exactly what is registered while it runs: opening a frame,
/// registering cleanups and closing the frame gives back those cleanups, in the order
/// registered, and leaves the frames of the enclosing scopes as they were.
pub proof fn lemma_scope_collects_its_cleanups<T>(frames: Seq<Seq<T>>, cleanups: Seq<T>)
    ensures
        with_all_registered(frames.push(Seq::<T>::empty()), cleanups).len() == frames.len() + 1,
        with_all_registered(frames.push(Seq::<T>::empty()), cleanups).last() == cleanups,
        with_all_registered(frames.push(Seq::<T>::empty()), cleanups).drop_last() == frames,
    decreases cleanups.len(),
{
    if cleanups.len() > 0 {
        lemma_scope_collects_its_cleanups(frames, cleanups.drop_last());
        let before = with_all_registered(frames.push(Seq::<T>::empty()), cleanups.drop_last());
        assert(before.last().push(cleanups.last()) =~= cleanups);
        assert(with_registered(before, cleanups.last()).drop_last() =~= before.drop_last());
    } else {
        assert(frames.push(Seq::<T>::empty()).drop_last() =~= frames);
    }
}

} // verus!
