//! Typed, incarnation-scoped identities.
//!
//! Every identity is monotonic within its incarnation. The kernel echoes
//! `user_data` verbatim, so a zero token is never a valid live token.
use vstd::prelude::*;

verus! {

/// One process incarnation of the device owner.
#[derive(Debug, Clone, Copy, PartialEq, Eq, Structural, PartialOrd, Ord, Hash)]
pub struct IncarnationId(u64);

impl View for IncarnationId {
    type V = u64;

    closed spec fn view(&self) -> u64 {
        self.0
    }
}

impl IncarnationId {
    /// Two incarnations are the same exactly when their raw values are.
    pub proof fn lemma_view_injective(a: Self, b: Self)
        ensures
            (a@ == b@) <==> a == b,
    {
    }

    pub fn first() -> (r: Self)
        ensures
            r@ == 1,
    {
        IncarnationId(1)
    }

    /// `None` exactly when the raw value is already at its maximum.
    pub fn checked_next(self) -> (r: Option<Self>)
        ensures
            self@ < u64::MAX ==> (r matches Some(n) && n@ == self@ + 1),
            self@ == u64::MAX ==> r is None,
    {
        if self.0 < u64::MAX {
            Some(IncarnationId(self.0 + 1))
        } else {
            None
        }
    }

    pub fn next(self) -> (r: Self)
        requires
            self@ < u64::MAX,
        ensures
            r@ == self@ + 1,
    {
        IncarnationId(self.0 + 1)
    }

    pub fn get(self) -> (r: u64)
        ensures
            r == self@,
    {
        self.0
    }

    pub fn from_raw(raw: u64) -> (r: Self)
        ensures
            r@ == raw,
    {
        IncarnationId(raw)
    }
}

/// Identity of one owner commit.
#[derive(Debug, Clone, Copy, PartialEq, Eq, Structural, PartialOrd, Ord, Hash)]
pub struct CommitId(u64);

impl View for CommitId {
    type V = u64;

    closed spec fn view(&self) -> u64 {
        self.0
    }
}

impl CommitId {
    /// Two commit ids are the same exactly when their raw values are.
    pub proof fn lemma_view_injective(a: Self, b: Self)
        ensures
            (a@ == b@) <==> a == b,
    {
    }

    pub fn for_tests(raw: u64) -> (r: Self)
        ensures
            r@ == raw,
    {
        CommitId(raw)
    }

    pub fn get(self) -> (r: u64)
        ensures
            r == self@,
    {
        self.0
    }

    pub fn from_raw(raw: u64) -> (r: Self)
        ensures
            r@ == raw,
    {
        CommitId(raw)
    }
}

/// The `user_data` carried by one atomic commit's page events.
#[derive(Debug, Clone, Copy, PartialEq, Eq, Structural, PartialOrd, Ord, Hash)]
pub struct EventToken(u64);

impl View for EventToken {
    type V = u64;

    closed spec fn view(&self) -> u64 {
        self.0
    }
}

impl EventToken {
    /// Two event tokens are the same exactly when their raw values are.
    pub proof fn lemma_view_injective(a: Self, b: Self)
        ensures
            (a@ == b@) <==> a == b,
    {
    }

    pub fn as_user_data(self) -> (r: u64)
        ensures
            r == self@,
    {
        self.0
    }

    /// Rejects zero: a zero `user_data` is never a live token.
    pub fn from_user_data(raw: u64) -> (r: Option<Self>)
        ensures
            raw == 0 ==> r is None,
            raw != 0 ==> (r matches Some(t) && t@ == raw),
    {
        if raw == 0 {
            None
        } else {
            Some(EventToken(raw))
        }
    }

    pub fn for_tests(raw: u64) -> (r: Self)
        ensures
            r@ == raw,
    {
        EventToken(raw)
    }
}

/// The `user_data` carried by one sequence arm.
#[derive(Debug, Clone, Copy, PartialEq, Eq, Structural, PartialOrd, Ord, Hash)]
pub struct SequenceArmToken(u64);

impl View for SequenceArmToken {
    type V = u64;

    closed spec fn view(&self) -> u64 {
        self.0
    }
}

impl SequenceArmToken {
    /// Two arm tokens are the same exactly when their raw values are.
    pub proof fn lemma_view_injective(a: Self, b: Self)
        ensures
            (a@ == b@) <==> a == b,
    {
    }

    pub fn as_user_data(self) -> (r: u64)
        ensures
            r == self@,
    {
        self.0
    }

    /// Rejects zero: a zero `user_data` is never a live token.
    pub fn from_user_data(raw: u64) -> (r: Option<Self>)
        ensures
            raw == 0 ==> r is None,
            raw != 0 ==> (r matches Some(t) && t@ == raw),
    {
        if raw == 0 {
            None
        } else {
            Some(SequenceArmToken(raw))
        }
    }

    pub fn for_tests(raw: u64) -> (r: Self)
        ensures
            r@ == raw,
    {
        SequenceArmToken(raw)
    }
}

/// Identity of one per-CRTC clock epoch.
#[derive(Debug, Clone, Copy, PartialEq, Eq, Structural, PartialOrd, Ord, Hash)]
pub struct ClockEpochId(u64);

impl View for ClockEpochId {
    type V = u64;

    closed spec fn view(&self) -> u64 {
        self.0
    }
}

impl ClockEpochId {
    /// Two clock epochs are the same exactly when their raw values are.
    pub proof fn lemma_view_injective(a: Self, b: Self)
        ensures
            (a@ == b@) <==> a == b,
    {
    }

    pub fn first() -> (r: Self)
        ensures
            r@ == 1,
    {
        ClockEpochId(1)
    }

    /// `None` exactly when the raw value is already at its maximum.
    pub fn checked_next(self) -> (r: Option<Self>)
        ensures
            self@ < u64::MAX ==> (r matches Some(n) && n@ == self@ + 1),
            self@ == u64::MAX ==> r is None,
    {
        if self.0 < u64::MAX {
            Some(ClockEpochId(self.0 + 1))
        } else {
            None
        }
    }

    pub fn next(self) -> (r: Self)
        requires
            self@ < u64::MAX,
        ensures
            r@ == self@ + 1,
    {
        ClockEpochId(self.0 + 1)
    }

    pub fn get(self) -> (r: u64)
        ensures
            r == self@,
    {
        self.0
    }

    pub fn from_raw(raw: u64) -> (r: Self)
        ensures
            r@ == raw,
    {
        ClockEpochId(raw)
    }
}

/// Per-incarnation allocator of commit ids and `user_data` tokens.
///
/// Commit ids start at one. Event tokens and sequence-arm tokens share one
/// counter, so no raw value is ever handed out twice in an incarnation and
/// zero is never handed out at all.
#[derive(Debug)]
pub struct IdentityAllocator {
    incarnation: IncarnationId,
    next_commit: u64,
    next_token: u64,
}

impl IdentityAllocator {
    pub closed spec fn spec_incarnation(&self) -> IncarnationId {
        self.incarnation
    }

    /// The raw value the next commit id will carry.
    pub closed spec fn spec_next_commit(&self) -> u64 {
        self.next_commit
    }

    /// The raw value of the most recently issued token (zero before any).
    pub closed spec fn spec_last_token(&self) -> u64 {
        self.next_token
    }

    pub fn new(incarnation: IncarnationId) -> (r: Self)
        ensures
            r.spec_incarnation() == incarnation,
            r.spec_next_commit() == 1,
            r.spec_last_token() == 0,
    {
        IdentityAllocator { incarnation, next_commit: 1, next_token: 0 }
    }

    pub fn incarnation(&self) -> (r: IncarnationId)
        ensures
            r == self.spec_incarnation(),
    {
        self.incarnation
    }

    /// An allocator whose counters are already past their last usable value,
    /// so exhaustion is reachable without issuing 2^64 tokens.
    pub fn at_limit_for_tests() -> (r: Self)
        ensures
            r.spec_incarnation()@ == 1,
            r.spec_next_commit() == u64::MAX,
            r.spec_last_token() == u64::MAX,
    {
        IdentityAllocator { incarnation: IncarnationId(1), next_commit: u64::MAX, next_token: u64::MAX }
    }

    /// Issue the next commit id; `None` once the counter cannot advance.
    pub fn checked_next_commit(&mut self) -> (r: Option<CommitId>)
        ensures
            final(self).spec_incarnation() == old(self).spec_incarnation(),
            final(self).spec_last_token() == old(self).spec_last_token(),
            old(self).spec_next_commit() < u64::MAX ==> {
                &&& (r matches Some(c) && c@ == old(self).spec_next_commit())
                &&& final(self).spec_next_commit() == old(self).spec_next_commit() + 1
            },
            old(self).spec_next_commit() == u64::MAX ==> {
                &&& r is None
                &&& final(self).spec_next_commit() == old(self).spec_next_commit()
            },
    {
        if self.next_commit < u64::MAX {
            let id = self.next_commit;
            self.next_commit = self.next_commit + 1;
            Some(CommitId(id))
        } else {
            None
        }
    }

    pub fn next_commit(&mut self) -> (r: CommitId)
        requires
            old(self).spec_next_commit() < u64::MAX,
        ensures
            r@ == old(self).spec_next_commit(),
            final(self).spec_next_commit() == old(self).spec_next_commit() + 1,
            final(self).spec_incarnation() == old(self).spec_incarnation(),
            final(self).spec_last_token() == old(self).spec_last_token(),
    {
        let id = self.next_commit;
        self.next_commit = self.next_commit + 1;
        CommitId(id)
    }

    fn checked_next_token(&mut self) -> (r: Option<u64>)
        ensures
            final(self).spec_incarnation() == old(self).spec_incarnation(),
            final(self).spec_next_commit() == old(self).spec_next_commit(),
            old(self).spec_last_token() < u64::MAX ==> {
                &&& r == Some((old(self).spec_last_token() + 1) as u64)
                &&& final(self).spec_last_token() == old(self).spec_last_token() + 1
            },
            old(self).spec_last_token() == u64::MAX ==> {
                &&& r is None
                &&& final(self).spec_last_token() == old(self).spec_last_token()
            },
    {
        if self.next_token < u64::MAX {
            self.next_token = self.next_token + 1;
            Some(self.next_token)
        } else {
            None
        }
    }

    /// Issue the next event token; it is one past the last token issued.
    pub fn checked_next_event_token(&mut self) -> (r: Option<EventToken>)
        ensures
            final(self).spec_incarnation() == old(self).spec_incarnation(),
            final(self).spec_next_commit() == old(self).spec_next_commit(),
            old(self).spec_last_token() < u64::MAX ==> {
                &&& (r matches Some(t) && t@ == old(self).spec_last_token() + 1)
                &&& final(self).spec_last_token() == old(self).spec_last_token() + 1
            },
            old(self).spec_last_token() == u64::MAX ==> {
                &&& r is None
                &&& final(self).spec_last_token() == old(self).spec_last_token()
            },
    {
        match self.checked_next_token() {
            Some(raw) => Some(EventToken(raw)),
            None => None,
        }
    }

    /// Issue the next sequence-arm token from the shared token counter.
    pub fn checked_next_sequence_arm(&mut self) -> (r: Option<SequenceArmToken>)
        ensures
            final(self).spec_incarnation() == old(self).spec_incarnation(),
            final(self).spec_next_commit() == old(self).spec_next_commit(),
            old(self).spec_last_token() < u64::MAX ==> {
                &&& (r matches Some(t) && t@ == old(self).spec_last_token() + 1)
                &&& final(self).spec_last_token() == old(self).spec_last_token() + 1
            },
            old(self).spec_last_token() == u64::MAX ==> {
                &&& r is None
                &&& final(self).spec_last_token() == old(self).spec_last_token()
            },
    {
        match self.checked_next_token() {
            Some(raw) => Some(SequenceArmToken(raw)),
            None => None,
        }
    }

    pub fn next_event_token(&mut self) -> (r: EventToken)
        requires
            old(self).spec_last_token() < u64::MAX,
        ensures
            r@ == old(self).spec_last_token() + 1,
            final(self).spec_last_token() == old(self).spec_last_token() + 1,
            final(self).spec_incarnation() == old(self).spec_incarnation(),
            final(self).spec_next_commit() == old(self).spec_next_commit(),
    {
        self.next_token = self.next_token + 1;
        EventToken(self.next_token)
    }

    pub fn next_sequence_arm(&mut self) -> (r: SequenceArmToken)
        requires
            old(self).spec_last_token() < u64::MAX,
        ensures
            r@ == old(self).spec_last_token() + 1,
            final(self).spec_last_token() == old(self).spec_last_token() + 1,
            final(self).spec_incarnation() == old(self).spec_incarnation(),
            final(self).spec_next_commit() == old(self).spec_next_commit(),
    {
        self.next_token = self.next_token + 1;
        SequenceArmToken(self.next_token)
    }
}

} // verus!
