use vstd::prelude::*;

verus! {

/// Flag bit marking an exclusive hold.
pub const EXCLUSIVE: usize = 1;

/// Step of the shared-holder count; it leaves the flag bit alone.
pub const SHARED_ONE: usize = 4;

/// The exclusive flag of a lock word.
pub open spec fn is_exclusive(w: usize) -> bool {
    w % 2 == 1
}

/// The number of shared holders a lock word records.
pub open spec fn shared_count(w: usize) -> nat {
    (w / 4) as nat
}

/// A lock word in a reachable state: the spare bit is clear, and an
/// exclusive hold excludes every shared one.
pub open spec fn word_wf(w: usize) -> bool {
    &&& (w / 2) % 2 == 0
    &&& is_exclusive(w) ==> shared_count(w) == 0
}

/// Whether a lock word is in a reachable state.
pub fn is_word_wf(w: usize) -> (r: bool)
    ensures
        r == word_wf(w),
{
    (w / 2) % 2 == 0 && !(w % 2 == 1 && w / 4 > 0)
}

/// The word after one more shared acquisition, if one may be taken now:
/// never while the exclusive flag is set (nor when the count is full).
pub fn shared_acquired(w: usize) -> (r: Option<usize>)
    ensures
        r is Some <==> !is_exclusive(w) && w + SHARED_ONE <= usize::MAX,
        r matches Some(n) ==> n == w + SHARED_ONE && !is_exclusive(n)
            && shared_count(n) == shared_count(w) + 1,
        r matches Some(n) ==> (word_wf(w) ==> word_wf(n)),
{
    if w % 2 == 1 {
        None
    } else if w > usize::MAX - SHARED_ONE {
        None
    } else {
        Some(w + SHARED_ONE)
    }
}

/// The word after one shared holder lets go.
pub fn shared_released(w: usize) -> (r: usize)
    requires
        word_wf(w),
        shared_count(w) > 0,
    ensures
        r == w - SHARED_ONE,
        shared_count(r) + 1 == shared_count(w),
        !is_exclusive(r),
        word_wf(r),
{
    w - SHARED_ONE
}

/// The word after an exclusive acquisition, if one may be taken now: only
/// when nobody holds the lock in either way.
pub fn exclusive_acquired(w: usize) -> (r: Option<usize>)
    requires
        word_wf(w),
    ensures
        r is Some <==> !is_exclusive(w) && shared_count(w) == 0,
        r matches Some(n) ==> n == EXCLUSIVE && is_exclusive(n) && word_wf(n),
{
    if w == 0 {
        Some(EXCLUSIVE)
    } else {
        None
    }
}

/// The word after the exclusive holder lets go.
pub fn exclusive_released(w: usize) -> (r: usize)
    requires
        word_wf(w),
        is_exclusive(w),
    ensures
        r == 0,
        !is_exclusive(r) && shared_count(r) == 0 && word_wf(r),
{
    0
}

/// The coordinator: one lock word whose exclusive holder is the snapshot
/// and whose shared holders are the writers.
pub struct Coordinator {
    word: usize,
}

impl Coordinator {
    pub closed spec fn word(&self) -> usize {
        self.word
    }

    pub open spec fn wf(&self) -> bool {
        word_wf(self.word())
    }

    pub open spec fn exclusive(&self) -> bool {
        is_exclusive(self.word())
    }

    pub open spec fn shared(&self) -> nat {
        shared_count(self.word())
    }

    pub fn new() -> (r: Coordinator)
        ensures
            r.wf(),
            !r.exclusive(),
            r.shared() == 0,
    {
        Coordinator { word: 0 }
    }

    /// Whether the exclusive flag is set.
    pub fn is_exclusive(&self) -> (r: bool)
        ensures
            r == self.exclusive(),
    {
        self.word % 2 == 1
    }

    /// Takes a shared hold unless the exclusive flag is set.
    pub fn try_shared(&mut self) -> (r: bool)
        requires
            old(self).wf(),
        ensures
            final(self).wf(),
            r <==> !old(self).exclusive() && old(self).word() + SHARED_ONE <= usize::MAX,
            r ==> final(self).shared() == old(self).shared() + 1 && !final(self).exclusive(),
            !r ==> *final(self) == *old(self),
    {
        match shared_acquired(self.word) {
            Some(n) => {
                self.word = n;
                true
            },
            None => false,
        }
    }

    /// Takes a shared hold once the exclusive flag is clear; the caller
    /// waits for that moment, so it is asked for here. Other shared holds
    /// do not stand in the way.
    pub fn acquire_shared(&mut self)
        requires
            old(self).wf(),
            !old(self).exclusive(),
            old(self).word() + SHARED_ONE <= usize::MAX,
        ensures
            final(self).wf(),
            !final(self).exclusive(),
            final(self).shared() == old(self).shared() + 1,
    {
        let acquired = self.try_shared();
        assert(acquired);
    }

    /// Gives back a shared hold.
    pub fn release_shared(&mut self)
        requires
            old(self).wf(),
            old(self).shared() > 0,
        ensures
            final(self).wf(),
            !final(self).exclusive(),
            final(self).shared() + 1 == old(self).shared(),
    {
        self.word = shared_released(self.word);
    }

    /// Takes the exclusive hold when nobody holds the lock.
    pub fn try_exclusive(&mut self) -> (r: bool)
        requires
            old(self).wf(),
        ensures
            final(self).wf(),
            r <==> !old(self).exclusive() && old(self).shared() == 0,
            r ==> final(self).exclusive() && final(self).shared() == 0,
            !r ==> *final(self) == *old(self),
    {
        match exclusive_acquired(self.word) {
            Some(n) => {
                self.word = n;
                true
            },
            None => false,
        }
    }

    /// Takes the exclusive hold once nobody holds the lock; the caller waits
    /// for that moment, so it is asked for here.
    pub fn acquire_exclusive(&mut self)
        requires
            old(self).wf(),
            !old(self).exclusive(),
            old(self).shared() == 0,
        ensures
            final(self).wf(),
            final(self).exclusive(),
            final(self).shared() == 0,
    {
        let acquired = self.try_exclusive();
        assert(acquired);
    }

    /// Gives back the exclusive hold.
    pub fn release_exclusive(&mut self)
        requires
            old(self).wf(),
            old(self).exclusive(),
        ensures
            final(self).wf(),
            !final(self).exclusive(),
            final(self).shared() == 0,
    {
        self.word = exclusive_released(self.word);
    }
}

/// An exclusive hold and a shared hold never stand together in a reachable
/// lock word.
pub proof fn lemma_holds_exclude(w: usize)
    requires
        word_wf(w),
    ensures
        !(is_exclusive(w) && shared_count(w) > 0),
{
}

/// Shared holders never keep one another out: from a reachable word without
/// the exclusive flag, one more shared hold can be taken while the count has
/// room, and the word stays reachable.
pub proof fn lemma_shared_never_blocks_shared(w: usize)
    requires
        word_wf(w),
        !is_exclusive(w),
        w + SHARED_ONE <= usize::MAX,
    ensures
        word_wf((w + SHARED_ONE) as usize),
        !is_exclusive((w + SHARED_ONE) as usize),
        shared_count((w + SHARED_ONE) as usize) == shared_count(w) + 1,
{
}

} // verus!
