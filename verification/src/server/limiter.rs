//! Caps on concurrent connections and host processes.

use crate::config::Caps;
use vstd::prelude::*;

verus! {

/// Increment a bounded counter without ever publishing a value above its limit.
fn try_acquire(counter: &mut usize, limit: usize) -> (r: bool)
    ensures
        r == (*old(counter) < limit),
        *final(counter) == (if r {
            *old(counter) + 1
        } else {
            *old(counter) as int
        }),
{
    if *counter >= limit {
        return false;
    }
    *counter = *counter + 1;
    true
}

/// Connection counters for the built-in caps.
#[derive(Debug)]
pub struct Limiter {
    caps: Caps,
    unauthenticated: usize,
    total: usize,
}

/// The contents of a [`Limiter`].
pub struct LimiterView {
    pub max_unauthenticated: nat,
    pub max_total: nat,
    pub unauthenticated: nat,
    pub total: nat,
}

impl View for Limiter {
    type V = LimiterView;

    closed spec fn view(&self) -> LimiterView {
        LimiterView {
            max_unauthenticated: self.caps.max_unauthenticated_connections as nat,
            max_total: self.caps.max_connections as nat,
            unauthenticated: self.unauthenticated as nat,
            total: self.total as nat,
        }
    }
}

impl LimiterView {
    /// Neither bucket is above its cap.
    pub open spec fn within_caps(self) -> bool {
        self.unauthenticated <= self.max_unauthenticated && self.total <= self.max_total
    }

    /// Whether a new connection fits under both caps.
    pub open spec fn has_room(self) -> bool {
        self.total < self.max_total && self.unauthenticated < self.max_unauthenticated
    }

    /// The counters after a new connection.
    pub open spec fn reserved(self) -> LimiterView {
        LimiterView {
            unauthenticated: self.unauthenticated + 1,
            total: self.total + 1,
            ..self
        }
    }

    /// The counters after a connection authenticated.
    pub open spec fn authenticated(self) -> LimiterView {
        LimiterView { unauthenticated: (self.unauthenticated - 1) as nat, ..self }
    }

    /// The counters after a connection ended.
    pub open spec fn released(self, unauthenticated: bool) -> LimiterView {
        LimiterView {
            unauthenticated: if unauthenticated {
                (self.unauthenticated - 1) as nat
            } else {
                self.unauthenticated
            },
            total: (self.total - 1) as nat,
            ..self
        }
    }

    /// The counters hold a connection of this kind.
    pub open spec fn holds(self, unauthenticated: bool) -> bool {
        self.total > 0 && (unauthenticated ==> self.unauthenticated > 0)
    }
}

/// One reserved connection slot; given back when the connection ends.
#[derive(Debug)]
pub struct LimiterSlot {
    unauthenticated: bool,
}

impl View for LimiterSlot {
    type V = bool;

    /// Whether the connection still counts as unauthenticated.
    closed spec fn view(&self) -> bool {
        self.unauthenticated
    }
}

impl Limiter {
    #[verifier::type_invariant]
    pub closed spec fn valid(&self) -> bool {
        self@.within_caps()
    }

    /// Counters without connections.
    pub fn new(caps: &Caps) -> (r: Limiter)
        ensures
            r@ == (LimiterView {
                max_unauthenticated: caps.max_unauthenticated_connections as nat,
                max_total: caps.max_connections as nat,
                unauthenticated: 0,
                total: 0,
            }),
    {
        Limiter { caps: *caps, unauthenticated: 0, total: 0 }
    }

    /// Reserve a connection slot: it is only granted under both caps, and a
    /// refusal leaves both counters as they were.
    pub fn reserve(&mut self) -> (r: Option<LimiterSlot>)
        ensures
            final(self)@.within_caps(),
            r is Some <==> old(self)@.has_room(),
            match r {
                Some(slot) => slot@ && final(self)@ == old(self)@.reserved(),
                None => final(self)@ == old(self)@,
            },
    {
        proof {
            use_type_invariant(&*self);
        }
        let mut total: usize = self.total;
        if !try_acquire(&mut total, self.caps.max_connections as usize) {
            return None;
        }
        let mut unauthenticated: usize = self.unauthenticated;
        if !try_acquire(
            &mut unauthenticated,
            self.caps.max_unauthenticated_connections as usize,
        ) {
            return None;
        }
        self.total = total;
        self.unauthenticated = unauthenticated;
        Some(LimiterSlot { unauthenticated: true })
    }

    /// Current bucket sizes: unauthenticated, total.
    pub fn in_flight(&self) -> (r: (usize, usize))
        ensures
            r.0 == self@.unauthenticated,
            r.1 == self@.total,
    {
        (self.unauthenticated, self.total)
    }
}

impl LimiterSlot {
    /// The connection authenticated: it leaves the unauthenticated bucket but
    /// keeps occupying the total connection cap. Only the first call counts.
    pub fn authenticated(&mut self, limiter: &mut Limiter)
        requires
            old(limiter)@.holds(old(self)@),
        ensures
            !final(self)@,
            final(limiter)@ == (if old(self)@ {
                old(limiter)@.authenticated()
            } else {
                old(limiter)@
            }),
    {
        proof {
            use_type_invariant(&*limiter);
        }
        if self.unauthenticated {
            self.unauthenticated = false;
            limiter.unauthenticated = limiter.unauthenticated - 1;
        }
    }

    /// The connection ended: it leaves every bucket it is in.
    pub fn release(self, limiter: &mut Limiter)
        requires
            old(limiter)@.holds(self@),
        ensures
            final(limiter)@ == old(limiter)@.released(self@),
    {
        proof {
            use_type_invariant(&*limiter);
        }
        if self.unauthenticated {
            limiter.unauthenticated = limiter.unauthenticated - 1;
        }
        limiter.total = limiter.total - 1;
    }
}

/// The counters of a limiter with this many outstanding slots of each kind.
pub open spec fn counting(limiter: LimiterView, waiting: nat, authenticated: nat) -> bool {
    limiter.unauthenticated == waiting && limiter.total == waiting + authenticated
}

/// The counters always count the outstanding slots: whatever slots are
/// reserved, authenticated, and released, the buckets say how many there are.
pub proof fn buckets_count_the_slots(limiter: LimiterView, waiting: nat, authenticated: nat)
    requires
        counting(limiter, waiting, authenticated),
    ensures
        counting(limiter.reserved(), waiting + 1, authenticated),
        waiting > 0 ==> counting(
            limiter.authenticated(),
            (waiting - 1) as nat,
            authenticated + 1,
        ),
        waiting > 0 ==> counting(limiter.released(true), (waiting - 1) as nat, authenticated),
        authenticated > 0 ==> counting(
            limiter.released(false),
            waiting,
            (authenticated - 1) as nat,
        ),
        waiting > 0 ==> limiter.holds(true),
        authenticated > 0 ==> limiter.holds(false),
{
}

/// A released slot is reusable: releasing undoes reserving, before and after
/// authentication.
pub proof fn releasing_undoes_reserving(limiter: LimiterView)
    ensures
        limiter.reserved().released(true) == limiter,
        limiter.reserved().authenticated().released(false) == limiter,
{
}

/// No operation takes a bucket above its cap.
pub proof fn caps_are_never_exceeded(limiter: LimiterView, unauthenticated: bool)
    requires
        limiter.within_caps(),
    ensures
        limiter.has_room() ==> limiter.reserved().within_caps(),
        limiter.holds(true) ==> limiter.authenticated().within_caps(),
        limiter.holds(unauthenticated) ==> limiter.released(unauthenticated).within_caps(),
{
}

/// Cap on host processes. A slot is held by exactly one host bridge, so a
/// connection can open several channels without exceeding the aggregate.
#[derive(Debug)]
pub struct HostProcessLimiter {
    cap: usize,
    in_flight: usize,
}

/// The contents of a [`HostProcessLimiter`].
pub struct HostView {
    pub cap: nat,
    pub in_flight: nat,
}

impl View for HostProcessLimiter {
    type V = HostView;

    closed spec fn view(&self) -> HostView {
        HostView { cap: self.cap as nat, in_flight: self.in_flight as nat }
    }
}

/// The slot of one running host process.
#[derive(Debug)]
pub struct HostProcessSlot(());

impl HostProcessLimiter {
    #[verifier::type_invariant]
    pub closed spec fn valid(&self) -> bool {
        self.in_flight <= self.cap
    }

    /// A counter without processes.
    pub fn new(caps: &Caps) -> (r: HostProcessLimiter)
        ensures
            r@ == (HostView { cap: caps.max_host_processes as nat, in_flight: 0 }),
    {
        HostProcessLimiter { cap: caps.max_host_processes as usize, in_flight: 0 }
    }

    /// Reserve a slot for one host process. A refusal evicts nothing.
    pub fn reserve(&mut self) -> (r: Option<HostProcessSlot>)
        ensures
            final(self)@.in_flight <= final(self)@.cap,
            r is Some <==> old(self)@.in_flight < old(self)@.cap,
            final(self)@ == (HostView {
                in_flight: if r is Some {
                    old(self)@.in_flight + 1
                } else {
                    old(self)@.in_flight
                },
                ..old(self)@
            }),
    {
        proof {
            use_type_invariant(&*self);
        }
        let mut in_flight: usize = self.in_flight;
        if !try_acquire(&mut in_flight, self.cap) {
            return None;
        }
        self.in_flight = in_flight;
        Some(HostProcessSlot(()))
    }

    /// The host process of a slot ended.
    pub fn release(&mut self, slot: HostProcessSlot)
        requires
            old(self)@.in_flight > 0,
        ensures
            final(self)@ == (HostView {
                in_flight: (old(self)@.in_flight - 1) as nat,
                ..old(self)@
            }),
    {
        proof {
            use_type_invariant(&*self);
        }
        self.in_flight = self.in_flight - 1;
    }

    /// How many host processes are running.
    pub fn in_flight(&self) -> (r: usize)
        ensures
            r == self@.in_flight,
    {
        self.in_flight
    }
}

/// There is room for a connection exactly when one more would still be within
/// both caps.
pub proof fn room_is_what_the_caps_leave(limiter: LimiterView)
    ensures
        limiter.has_room() <==> limiter.reserved().within_caps(),
        limiter.within_caps() <==> limiter.unauthenticated <= limiter.max_unauthenticated
            && limiter.total <= limiter.max_total,
        limiter.reserved().max_total == limiter.max_total,
        limiter.reserved().max_unauthenticated == limiter.max_unauthenticated,
        limiter.authenticated().total == limiter.total,
{
}

/// A connection gets a slot exactly while both caps leave room for one; it
/// counts as unauthenticated, and a refused one counts nowhere.
pub proof fn slots_are_given_while_there_is_room(limiter: &mut Limiter, r: Option<LimiterSlot>)
    requires
        call_ensures(Limiter::reserve, (limiter,), r),
    ensures
        r is Some <==> old(limiter)@.total < old(limiter)@.max_total && old(limiter)@.unauthenticated < old(limiter)@.max_unauthenticated,
        r matches Some(slot) ==> slot@ && final(limiter)@.total == old(limiter)@.total + 1
            && final(limiter)@.unauthenticated == old(limiter)@.unauthenticated + 1,
        r is None ==> final(limiter)@ == old(limiter)@,
        final(limiter)@.max_total == old(limiter)@.max_total,
        final(limiter)@.max_unauthenticated == old(limiter)@.max_unauthenticated,
{
}

/// A limiter starts empty, under the caps it was made with.
pub proof fn limiters_start_empty(caps: Caps, r: Limiter, host: HostProcessLimiter)
    requires
        call_ensures(Limiter::new, (&caps,), r),
        call_ensures(HostProcessLimiter::new, (&caps,), host),
    ensures
        r@.total == 0,
        r@.unauthenticated == 0,
        r@.max_total == caps.max_connections,
        r@.max_unauthenticated == caps.max_unauthenticated_connections,
        host@.in_flight == 0,
        host@.cap == caps.max_host_processes,
{
}

/// Authentication frees the unauthenticated place of a connection and nothing
/// else, once; releasing a slot frees what it still holds.
pub proof fn slots_free_what_they_hold(
    slot: &mut LimiterSlot,
    limiter: &mut Limiter,
    held: LimiterSlot,
    released: &mut Limiter,
)
    requires
        call_ensures(LimiterSlot::authenticated, (slot, limiter), ()),
        call_ensures(LimiterSlot::release, (held, released), ()),
        old(limiter)@.holds(old(slot)@),
        old(released)@.holds(held@),
    ensures
        !final(slot)@,
        final(limiter)@.total == old(limiter)@.total,
        old(slot)@ ==> final(limiter)@.unauthenticated == old(limiter)@.unauthenticated - 1,
        !old(slot)@ ==> final(limiter)@ == old(limiter)@,
        final(released)@.total == old(released)@.total - 1,
        held@ ==> final(released)@.unauthenticated == old(released)@.unauthenticated - 1,
        !held@ ==> final(released)@.unauthenticated == old(released)@.unauthenticated,
{
}

/// A host process gets a slot exactly below its cap, and gives it back.
pub proof fn host_processes_are_capped(
    limiter: &mut HostProcessLimiter,
    r: Option<HostProcessSlot>,
    later: &mut HostProcessLimiter,
    slot: HostProcessSlot,
)
    requires
        call_ensures(HostProcessLimiter::reserve, (limiter,), r),
        call_ensures(HostProcessLimiter::release, (later, slot), ()),
        final(limiter)@ == old(later)@,
    ensures
        r is Some <==> old(limiter)@.in_flight < old(limiter)@.cap,
        r is None ==> final(limiter)@ == old(limiter)@,
        r is Some ==> final(limiter)@.in_flight == old(limiter)@.in_flight + 1,
        r is Some ==> final(later)@ == old(limiter)@,
{
}

} // verus!
