//! Per-caller cap on requests in flight.

use crate::number::{dec, decimal};
use crate::strmap::StrMap;
use vstd::prelude::*;

verus! {

/// Cap where the operator names none.
pub const DEFAULT_MAX_INFLIGHT_PER_CALLER: usize = 8;

/// How many requests each caller has in flight, and how many it may have
/// (`0` for any number).
pub struct Inflight {
    limit: usize,
    active: StrMap<usize>,
}

/// How many requests `caller` has in flight.
pub open spec fn in_flight(active: Map<Seq<char>, usize>, caller: Seq<char>) -> nat {
    if active.dom().contains(caller) {
        active[caller] as nat
    } else {
        0
    }
}

/// The complaint about a caller at its limit.
pub open spec fn over_limit(caller: Seq<char>, n: nat, limit: nat) -> Seq<char> {
    "caller "@ + caller + " already has "@ + decimal(n) + " requests in flight (limit "@
        + decimal(limit) + ")"@
}

impl Inflight {
    #[verifier::type_invariant]
    spec fn well_formed(&self) -> bool {
        forall|k: Seq<char>|
            self.active@.dom().contains(k) ==> 1 <= #[trigger] self.active@[k] <= self.limit
    }

    /// The limit per caller.
    pub closed spec fn limit(&self) -> usize {
        self.limit
    }

    /// Requests in flight by caller.
    pub closed spec fn active(&self) -> Map<Seq<char>, usize> {
        self.active@
    }

    /// Nothing in flight, `limit` requests per caller allowed.
    pub fn new(limit: usize) -> (r: Inflight)
        ensures
            r.limit() == limit,
            forall|c: Seq<char>| in_flight(r.active(), c) == 0,
    {
        Inflight { limit, active: StrMap::new() }
    }

    /// Reserves a slot for `caller`; refuses where it has `limit` already.
    /// No caller ever has more in flight than the limit.
    pub fn try_acquire(&mut self, caller: &str) -> (r: Result<(), String>)
        ensures
            final(self).limit() == old(self).limit(),
            final(self).limit() > 0 ==> forall|c: Seq<char>|
                in_flight(final(self).active(), c) <= final(self).limit(),
            forall|c: Seq<char>|
                c != caller@ ==> in_flight(final(self).active(), c) == in_flight(
                    old(self).active(),
                    c,
                ),
            match r {
                Ok(_) => if old(self).limit() == 0 {
                    final(self).active() == old(self).active()
                } else {
                    &&& in_flight(old(self).active(), caller@) < old(self).limit()
                    &&& in_flight(final(self).active(), caller@) == in_flight(
                        old(self).active(),
                        caller@,
                    ) + 1
                },
                Err(e) => {
                    &&& old(self).limit() > 0
                    &&& in_flight(old(self).active(), caller@) >= old(self).limit()
                    &&& final(self).active() == old(self).active()
                    &&& e@ == over_limit(
                        caller@,
                        in_flight(old(self).active(), caller@),
                        old(self).limit() as nat,
                    )
                },
            },
    {
        proof {
            use_type_invariant(&*self);
        }
        if self.limit == 0 {
            return Ok(());
        }
        let n: usize = match self.active.get(caller) {
            Some(n) => *n,
            None => 0,
        };
        if n >= self.limit {
            let mut e = "caller ".to_owned();
            e.append(caller);
            e.append(" already has ");
            e.append(dec(n as u64).as_str());
            e.append(" requests in flight (limit ");
            e.append(dec(self.limit as u64).as_str());
            e.append(")");
            return Err(e);
        }
        let mut active: StrMap<usize> = StrMap::new();
        std::mem::swap(&mut active, &mut self.active);
        active.insert(caller.to_owned(), n + 1);
        self.active = active;
        Ok(())
    }

    /// Frees the slot that a request of `caller` held; nothing where it held
    /// none.
    pub fn release(&mut self, caller: &str)
        ensures
            final(self).limit() == old(self).limit(),
            forall|c: Seq<char>|
                c != caller@ ==> in_flight(final(self).active(), c) == in_flight(
                    old(self).active(),
                    c,
                ),
            in_flight(final(self).active(), caller@) == if in_flight(old(self).active(), caller@)
                == 0 {
                0
            } else {
                (in_flight(old(self).active(), caller@) - 1) as nat
            },
    {
        proof {
            use_type_invariant(&*self);
        }
        if self.limit == 0 {
            proof {
                assert(!self.active@.dom().contains(caller@)) by {
                    if self.active@.dom().contains(caller@) {
                        assert(1 <= self.active@[caller@] <= self.limit);
                    }
                }
            }
            return;
        }
        let n: usize = match self.active.get(caller) {
            Some(n) => *n,
            None => {
                return;
            },
        };
        assert(1 <= self.active@[caller@] <= self.limit);
        let mut active: StrMap<usize> = StrMap::new();
        std::mem::swap(&mut active, &mut self.active);
        if n == 1 {
            active.remove(caller);
        } else {
            active.insert(caller.to_owned(), n - 1);
        }
        self.active = active;
    }
}

/// A caller that was never counted has nothing in flight, and counting one caller says
/// nothing about another. The complaint about a caller names it, what it has in flight
/// and how much it may have.
pub proof fn lemma_callers_are_counted_apart(
    active: Map<Seq<char>, usize>,
    caller: Seq<char>,
    other: Seq<char>,
    n: usize,
    limit: nat,
)
    ensures
        in_flight(Map::empty(), caller) == 0,
        in_flight(active.insert(caller, n), caller) == n,
        in_flight(active.remove(caller), caller) == 0,
        other != caller ==> in_flight(active.insert(caller, n), other) == in_flight(active, other),
        other != caller ==> in_flight(active.remove(caller), other) == in_flight(active, other),
        over_limit(caller, n as nat, limit) == "caller "@ + caller + " already has "@ + decimal(
            n as nat,
        ) + " requests in flight (limit "@ + decimal(limit) + ")"@,
{
}

} // verus!
