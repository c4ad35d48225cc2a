//! Exclusive leases of local ports.
//!
//! The operating system proposes a free port; the lease set makes sure no
//! port is lent twice at once, and decides whether to ask again. Proposals
//! are tried a bounded number of times.
use vstd::prelude::*;

verus! {

/// How many proposals are tried before giving up.
pub const MAX_PORT_ATTEMPTS: u32 = 100;

/// What became of one proposal.
#[derive(Debug, Clone, Copy, PartialEq, Eq, Structural)]
pub enum PortStep {
    /// The port is now leased.
    Leased(u16),
    /// Ask for another proposal.
    Retry,
    /// No port could be leased within the allowed attempts.
    GiveUp,
}

/// Whether a proposal names a port that is not leased.
pub open spec fn is_free_proposal(candidate: Option<u16>, leased: Set<u16>) -> bool {
    match candidate {
        Some(p) => !leased.contains(p),
        None => false,
    }
}

/// The ports currently leased.
pub struct Ports {
    used: Vec<u16>,
}

impl Ports {
    pub closed spec fn leased(&self) -> Set<u16> {
        self.used@.to_set()
    }

    pub closed spec fn wf(&self) -> bool {
        self.used@.no_duplicates()
    }

    pub fn new() -> (r: Ports)
        ensures
            r.wf(),
            r.leased() == Set::<u16>::empty(),
    {
        let r = Ports { used: Vec::new() };
        assert(r.leased() =~= Set::<u16>::empty());
        r
    }

    fn position(&self, port: u16) -> (r: Option<usize>)
        ensures
            r is None ==> !self.used@.contains(port),
            r matches Some(i) ==> i < self.used@.len() && self.used@[i as int] == port,
    {
        let mut i: usize = 0;
        while i < self.used.len()
            invariant
                i <= self.used@.len(),
                forall|k: int| 0 <= k < i ==> self.used@[k] != port,
            decreases self.used@.len() - i,
        {
            if self.used[i] == port {
                return Some(i);
            }
            i = i + 1;
        }
        None
    }

    pub fn is_leased(&self, port: u16) -> (r: bool)
        ensures
            r == self.leased().contains(port),
    {
        self.position(port).is_some()
    }

    /// Leases `port` if it is not leased already.
    pub fn claim(&mut self, port: u16) -> (r: bool)
        requires
            old(self).wf(),
        ensures
            final(self).wf(),
            r == !old(self).leased().contains(port),
            final(self).leased() == old(self).leased().insert(port),
    {
        if self.position(port).is_some() {
            assert(self.leased().insert(port) =~= self.leased());
            false
        } else {
            let ghost before = self.used@;
            self.used.push(port);
            proof {
                assert(self.used@.no_duplicates()) by {
                    assert forall|a: int, b: int| 0 <= a < b < self.used@.len() implies self.used@[a] != self.used@[b] by {
                        if b == before.len() {
                            assert(before.contains(before[a]));
                        }
                    }
                }
                assert forall|q: u16| self.leased().contains(q) <==> before.to_set().insert(port).contains(q) by {
                    if self.used@.contains(q) && q != port {
                        let k = choose|k: int| 0 <= k < self.used@.len() && self.used@[k] == q;
                        assert(k < before.len());
                        assert(before[k] == q);
                    }
                    if before.contains(q) {
                        let k = choose|k: int| 0 <= k < before.len() && before[k] == q;
                        assert(self.used@[k] == q);
                    }
                    if q == port {
                        assert(self.used@[before.len() as int] == q);
                    }
                }
                assert(self.leased() =~= before.to_set().insert(port));
            }
            true
        }
    }

    /// Ends the lease of `port`.
    pub fn free(&mut self, port: u16)
        requires
            old(self).wf(),
        ensures
            final(self).wf(),
            final(self).leased() == old(self).leased().remove(port),
    {
        match self.position(port) {
            Some(i) => {
                let ghost before = self.used@;
                self.used.remove(i);
                proof {
                        assert(self.used@ =~= before.remove(i as int));
                    assert forall|q: u16| self.leased().contains(q) <==> before.to_set().remove(port).contains(q) by {
                        if self.used@.contains(q) {
                            let k = choose|k: int| 0 <= k < self.used@.len() && self.used@[k] == q;
                            if k < i {
                                assert(before[k] == q);
                            } else {
                                assert(before[k + 1] == q);
                                assert(k + 1 != i);
                            }
                        }
                        if before.contains(q) && q != port {
                            let k = choose|k: int| 0 <= k < before.len() && before[k] == q;
                            if k < i {
                                assert(self.used@[k] == q);
                            } else {
                                assert(k != i);
                                assert(self.used@[k - 1] == q);
                            }
                        }
                    }
                    assert(self.leased() =~= before.to_set().remove(port));
                }
            },
            None => {
                assert(self.leased().remove(port) =~= self.leased());
            },
        }
    }

    /// Decides on one proposal from the operating system (none if it had
    /// none), made at attempt number `attempt`, counting from zero: a free
    /// proposal is leased; otherwise another is asked for while attempts
    /// remain.
    pub fn try_lease(&mut self, candidate: Option<u16>, attempt: u32) -> (r: PortStep)
        requires
            old(self).wf(),
        ensures
            final(self).wf(),
            candidate matches Some(p) ==> (!old(self).leased().contains(p) ==> r == PortStep::Leased(p)
                && final(self).leased() == old(self).leased().insert(p)),
            !is_free_proposal(candidate, old(self).leased()) ==> final(self).leased() == old(
                self,
            ).leased() && r == (if attempt as int + 1 >= MAX_PORT_ATTEMPTS {
                PortStep::GiveUp
            } else {
                PortStep::Retry
            }),
    {
        match candidate {
            Some(p) => {
                if self.claim(p) {
                    return PortStep::Leased(p);
                }
            },
            None => {},
        }
        if attempt >= MAX_PORT_ATTEMPTS - 1 {
            PortStep::GiveUp
        } else {
            PortStep::Retry
        }
    }
}

} // verus!
