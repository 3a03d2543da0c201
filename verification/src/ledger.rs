//! The resource ledger of one commit record.
//!
//! Both possible states (old and new) stay owned until an outcome proves
//! which one is current. Resources leave the ledger only by value.
use vstd::prelude::*;

verus! {

/// Between dispatch and a typed outcome. Owns both possible states.
#[derive(Debug)]
pub struct Submitted<R> {
    old: Vec<R>,
    new: Vec<R>,
}

/// Accepted: both possible states stay owned until a later release rule.
#[derive(Debug)]
pub struct Accepted<R> {
    old: Vec<R>,
    new: Vec<R>,
}

/// An explicit rejection. The new state was never current and has left the
/// ledger; the old state is still current and is handed back by value.
#[derive(Debug)]
pub struct Rejected<R> {
    old: Vec<R>,
}

/// Acceptance neither established nor disproved. Both sets are held and
/// there is no method that yields a resource.
#[derive(Debug)]
pub struct Quarantined<R> {
    held: Vec<R>,
}

impl<R> Submitted<R> {
    pub closed spec fn old_state(&self) -> Seq<R> {
        self.old@
    }

    pub closed spec fn new_state(&self) -> Seq<R> {
        self.new@
    }

    pub fn new(old: Vec<R>, new: Vec<R>) -> (r: Self)
        ensures
            r.old_state() == old@,
            r.new_state() == new@,
    {
        Submitted { old, new }
    }

    /// Acceptance keeps both states.
    pub fn accepted(self) -> (r: Accepted<R>)
        ensures
            r.old_state() == self.old_state(),
            r.new_state() == self.new_state(),
    {
        Accepted { old: self.old, new: self.new }
    }

    /// The never-current new state leaves by value; the old state stays in
    /// `Rejected` until it is handed back.
    pub fn rejected(self) -> (r: (Rejected<R>, Vec<R>))
        ensures
            r.0.old_state() == self.old_state(),
            r.1@ == self.new_state(),
    {
        (Rejected { old: self.old }, self.new)
    }

    /// An unknown outcome quarantines both states, old then new.
    pub fn unknown(self) -> (r: Quarantined<R>)
        ensures
            r.held_state() == self.old_state() + self.new_state(),
    {
        let mut held = self.old;
        let mut new = self.new;
        held.append(&mut new);
        Quarantined { held }
    }
}

impl<R> Accepted<R> {
    pub closed spec fn old_state(&self) -> Seq<R> {
        self.old@
    }

    pub closed spec fn new_state(&self) -> Seq<R> {
        self.new@
    }

    /// An unknown outcome after acceptance quarantines both states.
    pub fn unknown(self) -> (r: Quarantined<R>)
        ensures
            r.held_state() == self.old_state() + self.new_state(),
    {
        let mut held = self.old;
        let mut new = self.new;
        held.append(&mut new);
        Quarantined { held }
    }
}

impl<R> Rejected<R> {
    pub closed spec fn old_state(&self) -> Seq<R> {
        self.old@
    }

    /// The old state, handed back as still current.
    pub fn into_current(self) -> (r: Vec<R>)
        ensures
            r@ == self.old_state(),
    {
        self.old
    }
}

impl<R> Quarantined<R> {
    pub closed spec fn held_state(&self) -> Seq<R> {
        self.held@
    }

    pub fn held(&self) -> (r: &[R])
        ensures
            r@ == self.held_state(),
    {
        self.held.as_slice()
    }
}

#[derive(Debug)]
pub enum LedgerState<R> {
    Submitted(Submitted<R>),
    Accepted(Accepted<R>),
    Rejected(Rejected<R>),
    Quarantined(Quarantined<R>),
    /// Only observable if a transition was interrupted mid-move. Every read
    /// treats it as quarantined.
    Poisoned,
}

impl<R> LedgerState<R> {
    /// True when nothing may be released from this state.
    pub fn releases_nothing(&self) -> (r: bool)
        ensures
            r == (self is Quarantined || self is Poisoned || self is Accepted),
    {
        matches!(self, Self::Quarantined(_) | Self::Poisoned | Self::Accepted(_))
    }
}

/// Law: no transition loses or duplicates a resource. Whatever the outcome,
/// the resources that leave plus those still held are exactly the old state
/// followed by the new state.
pub proof fn lemma_ledger_conserves_resources<R>(s: Submitted<R>, a: Accepted<R>, q: Quarantined<R>, rej: Rejected<R>, released: Seq<R>)
    requires
        a.old_state() == s.old_state() && a.new_state() == s.new_state(),
        q.held_state() == a.old_state() + a.new_state(),
        rej.old_state() == s.old_state() && released == s.new_state(),
    ensures
        q.held_state() == s.old_state() + s.new_state(),
        rej.old_state() + released == s.old_state() + s.new_state(),
{
}

} // verus!
