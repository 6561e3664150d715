//! The handles of live engines.
//!
//! A handle is a non-zero 64-bit token that names one engine from the moment
//! it is created until it is destroyed. Zero is the value of a host object
//! that holds no engine. A token is made of a slot number and a generation of
//! that slot, counted from one, so that a token that has been destroyed is
//! never live again, even when its slot holds a later engine.

use vstd::prelude::*;
use nnnoiseless::DenoiseState;
use crate::engine::new_engine;
use crate::error::DenoiseError;
use crate::frames::{is_whole, frame_count, whole};
use crate::pass::Pass;
use crate::FRAME_SIZE;

verus! {

/// The handle value of a host object that holds no engine.
pub const CLOSED: i64 = 0;

/// Most slots a registry can have.
pub const MAX_SLOTS: usize = 0xFFFF_FFFF;

/// The last generation a slot can reach; after it the slot is retired.
pub const LAST_GENERATION: u32 = 0x7FFF_FFFF;

/// Slot number named by a handle.
pub open spec fn slot_of(handle: i64) -> int {
    handle % 0x1_0000_0000 - 1
}

/// Generation named by a handle.
pub open spec fn generation_of(handle: i64) -> int {
    handle / 0x1_0000_0000
}

/// One place in the registry: how many handles it has given out, and the
/// engine of the latest one while that is live.
struct Slot {
    generation: u32,
    engine: Option<Box<DenoiseState<'static>>>,
}

/// Whether slot `i` can give out another handle.
spec fn slot_is_free(slots: Seq<Slot>, i: int) -> bool {
    &&& 0 <= i < slots.len()
    &&& i < MAX_SLOTS
    &&& slots[i].engine is None
    &&& slots[i].generation < LAST_GENERATION
}

/// Number of slots below `n` that can give out another handle.
spec fn free_below(slots: Seq<Slot>, n: nat) -> nat
    decreases n,
{
    if n == 0 {
        0
    } else {
        free_below(slots, (n - 1) as nat) + if slot_is_free(slots, n - 1) {
            1nat
        } else {
            0nat
        }
    }
}

/// The engines that are live, each under its handle.
pub struct Denoisers {
    slots: Vec<Slot>,
    limit: usize,
}

impl Denoisers {
    /// Whether `handle` names a live engine.
    pub closed spec fn is_live(self, handle: i64) -> bool {
        &&& handle > 0
        &&& 0 <= slot_of(handle) < self.slots@.len()
        &&& generation_of(handle) >= 1
        &&& self.slots@[slot_of(handle)].generation == generation_of(handle)
        &&& self.slots@[slot_of(handle)].engine is Some
    }

    /// The engine that a live handle names.
    pub closed spec fn engine_of(self, handle: i64) -> DenoiseState<'static> {
        *self.slots@[slot_of(handle)].engine->Some_0
    }

    /// Whether every engine that is live here, but for that of `handle`, is
    /// in `next` the same engine in the same state.
    pub open spec fn others_untouched(self, handle: i64, next: Denoisers) -> bool {
        forall|k: i64|
            self.is_live(k) && k != handle ==> next.engine_of(k) == #[trigger] self.engine_of(k)
    }

    /// Whether `handle` has ever been handed out.
    pub closed spec fn was_issued(self, handle: i64) -> bool {
        &&& handle > 0
        &&& 0 <= slot_of(handle) < self.slots@.len()
        &&& 1 <= generation_of(handle) <= self.slots@[slot_of(handle)].generation
    }

    /// Number of slots by which the registry may still grow.
    spec fn growth(self) -> nat {
        if self.slots@.len() < self.limit && self.slots@.len() < MAX_SLOTS {
            if self.limit < MAX_SLOTS {
                (self.limit - self.slots@.len()) as nat
            } else {
                (MAX_SLOTS - self.slots@.len()) as nat
            }
        } else {
            0
        }
    }

    /// Number of engines that can still be given a handle before any is
    /// destroyed.
    pub closed spec fn room_left(self) -> nat {
        self.growth() + free_below(self.slots@, self.slots@.len())
    }

    /// Whether another engine can be given a handle.
    pub open spec fn has_room(self) -> bool {
        self.room_left() > 0
    }

    /// Whether `next` is this registry after `handle` was destroyed: the
    /// handle is no longer live, every other handle and its engine are as
    /// they were, the room the handle took is given back, and nothing at all
    /// has changed if the handle was not live.
    pub open spec fn destroyed(self, handle: i64, next: Denoisers) -> bool {
        &&& forall|k: i64| next.is_live(k) == (self.is_live(k) && k != handle)
        &&& forall|k: i64| next.was_issued(k) == self.was_issued(k)
        &&& self.others_untouched(handle, next)
        &&& next.room_left() == self.room_left() + self.room_freed_by(handle)
        &&& !self.is_live(handle) ==> next == self
    }

    /// Room that destroying `handle` gives back: one place if the handle is
    /// live, unless it is of its slot's last generation, after which the slot
    /// is retired.
    pub open spec fn room_freed_by(self, handle: i64) -> nat {
        if self.is_live(handle) && generation_of(handle) < LAST_GENERATION {
            1
        } else {
            0
        }
    }

    /// Whether `next` is this registry after `handle` was created: the handle
    /// is not zero, was never handed out before and is live now, every other
    /// handle and its engine are as they were, and one place less is left.
    pub open spec fn created(self, handle: i64, next: Denoisers) -> bool {
        &&& handle != CLOSED
        &&& !self.was_issued(handle)
        &&& forall|k: i64| next.is_live(k) == (self.is_live(k) || k == handle)
        &&& forall|k: i64| next.was_issued(k) == (self.was_issued(k) || k == handle)
        &&& self.others_untouched(handle, next)
        &&& next.room_left() + 1 == self.room_left()
    }

    /// What becomes of a request to denoise `len` samples on `handle`: it is
    /// refused with `InvalidState` unless the handle is live, then with
    /// `InvalidArgument` unless the samples make whole frames, and else
    /// accepted with the number of frames.
    pub open spec fn request_outcome(self, handle: i64, len: nat) -> Result<nat, DenoiseError> {
        if !self.is_live(handle) {
            Err(DenoiseError::InvalidState)
        } else if !is_whole(len) {
            Err(DenoiseError::InvalidArgument)
        } else {
            Ok(frame_count(len))
        }
    }

    /// A registry with no engine in it.
    pub fn new() -> (r: Denoisers)
        ensures
            forall|h: i64| !r.was_issued(h),
            forall|h: i64| !r.is_live(h),
            r.room_left() == MAX_SLOTS,
    {
        Denoisers { slots: Vec::new(), limit: MAX_SLOTS }
    }

    /// A registry with no engine in it, which will never hold more than
    /// `limit` engines at a time.
    pub fn with_limit(limit: usize) -> (r: Denoisers)
        ensures
            forall|h: i64| !r.was_issued(h),
            forall|h: i64| !r.is_live(h),
            limit < MAX_SLOTS ==> r.room_left() == limit,
            limit >= MAX_SLOTS ==> r.room_left() == MAX_SLOTS,
    {
        Denoisers { slots: Vec::new(), limit }
    }

    /// Finds the slot of a live handle.
    fn locate(&self, handle: i64) -> (r: Option<usize>)
        ensures
            r is Some <==> self.is_live(handle),
            r is Some ==> r.unwrap() == slot_of(handle) && r.unwrap() < self.slots@.len(),
    {
        if handle <= 0 {
            return None;
        }
        let low: i64 = handle % 0x1_0000_0000;
        let generation: i64 = handle / 0x1_0000_0000;
        if low == 0 || generation == 0 {
            return None;
        }
        let wide: u64 = (low - 1) as u64;
        if wide >= self.slots.len() as u64 {
            return None;
        }
        let index: usize = wide as usize;
        if self.slots[index].generation as i64 == generation && self.slots[index].engine.is_some() {
            Some(index)
        } else {
            None
        }
    }

    /// Whether `handle` names a live engine.
    pub fn is_open(&self, handle: i64) -> (r: bool)
        ensures
            r == self.is_live(handle),
    {
        self.locate(handle).is_some()
    }

    /// Destroys the engine that `handle` names, if it names one, and returns
    /// the handle value that the host object holds from now on.
    ///
    /// Destroying a handle that is not live, zero among them, changes
    /// nothing.
    pub fn destroy(&mut self, handle: i64) -> (field: i64)
        ensures
            field == CLOSED,
            old(self).destroyed(handle, *final(self)),
    {
        match self.locate(handle) {
            Some(index) => {
                self.slots[index].engine = None;
                proof {
                    free_below_differs_at(old(self).slots@, self.slots@, self.slots@.len(), index as int);
                }
            },
            None => {},
        }
        CLOSED
    }

    /// The engine that `handle` names, to run frames through. Whatever is
    /// done to it, the handles stay as they are, and so do the other engines
    /// and the room that is left.
    pub fn engine(&mut self, handle: i64) -> (r: Option<&mut DenoiseState<'static>>)
        ensures
            r is Some <==> old(self).is_live(handle),
            r matches Some(engine) ==> *engine == old(self).engine_of(handle),
            r matches Some(engine) ==> final(self).engine_of(handle) == *final(engine),
            r is None ==> *final(self) == *old(self),
            forall|k: i64| final(self).is_live(k) == old(self).is_live(k),
            forall|k: i64| final(self).was_issued(k) == old(self).was_issued(k),
            old(self).others_untouched(handle, *final(self)),
            final(self).room_left() == old(self).room_left(),
    {
        match self.locate(handle) {
            Some(index) => {
                match &mut self.slots[index].engine {
                    Some(engine) => {
                        proof {
                            let before = old(self).slots@;
                            let after = before.update(
                                index as int,
                                Slot {
                                    generation: before[index as int].generation,
                                    engine: Some(*final(engine)),
                                },
                            );
                            free_below_differs_at(before, after, before.len(), -1);
                        }
                        Some(&mut **engine)
                    },
                    None => None,
                }
            },
            None => None,
        }
    }

    /// Finds a slot that can give out another handle.
    fn free_slot(&self) -> (r: Option<usize>)
        ensures
            r matches Some(i) ==> slot_is_free(self.slots@, i as int),
            r is None ==> forall|i: int| !slot_is_free(self.slots@, i),
    {
        let mut i: usize = 0;
        while i < self.slots.len() && i < MAX_SLOTS
            invariant
                forall|j: int| 0 <= j < i ==> !slot_is_free(self.slots@, j),
            decreases self.slots@.len() - i,
        {
            if self.slots[i].engine.is_none() && self.slots[i].generation < LAST_GENERATION {
                return Some(i);
            }
            i = i + 1;
        }
        None
    }

    /// Whether another engine can be given a handle.
    pub fn room(&self) -> (r: bool)
        ensures
            r == self.has_room(),
    {
        let free = self.free_slot();
        proof {
            match free {
                Some(i) => free_below_counts(self.slots@, self.slots@.len(), i as int),
                None => free_below_none(self.slots@, self.slots@.len()),
            }
        }
        (self.slots.len() < self.limit && self.slots.len() < MAX_SLOTS) || free.is_some()
    }

    /// Gives `engine` a handle and takes it into the registry.
    ///
    /// Fails only when the registry has no room, with `AllocationFailure`;
    /// the registry is then unchanged and the engine is dropped.
    pub fn register(&mut self, engine: Box<DenoiseState<'static>>) -> (r: Result<
        i64,
        DenoiseError,
    >)
        ensures
            old(self).has_room() <==> r is Ok,
            r matches Ok(handle) ==> old(self).created(handle, *final(self)),
            r matches Ok(handle) ==> final(self).engine_of(handle) == *engine,
            r matches Err(e) ==> e == DenoiseError::AllocationFailure,
            r is Err ==> *final(self) == *old(self),
    {
        match self.free_slot() {
            Some(index) => {
                let generation: u32 = self.slots[index].generation + 1;
                self.slots[index].generation = generation;
                self.slots[index].engine = Some(engine);
                let handle: i64 = (generation as i64) * 0x1_0000_0000 + (index as i64) + 1;
                proof {
                    assert(slot_is_free(old(self).slots@, index as int));
                    assert(slot_of(handle) == index);
                    assert(generation_of(handle) == generation);
                    free_below_differs_at(old(self).slots@, self.slots@, self.slots@.len(), index as int);
                }
                Ok(handle)
            },
            None => {
                if self.slots.len() < self.limit && self.slots.len() < MAX_SLOTS {
                    let index: usize = self.slots.len();
                    self.slots.push(Slot { generation: 1, engine: Some(engine) });
                    let handle: i64 = 0x1_0000_0000 + (index as i64) + 1;
                    proof {
                        assert(slot_of(handle) == index);
                        assert(generation_of(handle) == 1);
                        free_below_differs_at(old(self).slots@, self.slots@, index as nat, -1);
                    }
                    Ok(handle)
                } else {
                    proof {
                        free_below_none(self.slots@, self.slots@.len());
                    }
                    Err(DenoiseError::AllocationFailure)
                }
            },
        }
    }

    /// Allocates a fresh engine and returns its handle.
    ///
    /// Fails only when the registry has no room, with `AllocationFailure`,
    /// and then changes nothing.
    pub fn create(&mut self) -> (r: Result<i64, DenoiseError>)
        ensures
            old(self).has_room() <==> r is Ok,
            r matches Ok(handle) ==> old(self).created(handle, *final(self)),
            r matches Err(e) ==> e == DenoiseError::AllocationFailure,
            r is Err ==> *final(self) == *old(self),
    {
        self.register(new_engine())
    }

    /// Opens a stream on a host object whose handle field holds `current`,
    /// and returns the handle to record in that field.
    ///
    /// A host object that already holds a handle is refused with
    /// `InvalidState`: it has to be closed first. Nothing is changed then.
    pub fn open(&mut self, current: i64) -> (r: Result<i64, DenoiseError>)
        ensures
            current != CLOSED ==> r == Err::<i64, DenoiseError>(DenoiseError::InvalidState),
            current == CLOSED ==> (old(self).has_room() <==> r is Ok),
            r matches Ok(handle) ==> old(self).created(handle, *final(self)),
            r matches Err(e) ==> *final(self) == *old(self) && (current == CLOSED ==> e
                == DenoiseError::AllocationFailure),
    {
        if current != CLOSED {
            Err(DenoiseError::InvalidState)
        } else {
            self.create()
        }
    }

    /// Decides whether `len` samples may be denoised on `handle`, before any
    /// of them is read, and returns the number of frames they make.
    pub fn check_request(&self, handle: i64, len: usize) -> (r: Result<usize, DenoiseError>)
        ensures
            r is Ok <==> self.request_outcome(handle, len as nat) is Ok,
            r matches Ok(frames) ==> self.request_outcome(handle, len as nat) == Ok::<
                nat,
                DenoiseError,
            >(frames as nat),
            r matches Err(e) ==> self.request_outcome(handle, len as nat) == Err::<
                nat,
                DenoiseError,
            >(e),
    {
        if !self.is_open(handle) {
            Err(DenoiseError::InvalidState)
        } else if !whole(len) {
            Err(DenoiseError::InvalidArgument)
        } else {
            Ok(len / FRAME_SIZE)
        }
    }

    /// Starts a pass of `samples` through the engine that `handle` names.
    ///
    /// Fails exactly as [`Denoisers::request_outcome`] says, and then no frame is
    /// ever handed to an engine.
    pub fn begin(&self, handle: i64, samples: Vec<i16>) -> (r: Result<Pass, DenoiseError>)
        ensures
            self.request_outcome(handle, samples@.len()) is Ok <==> r is Ok,
            r matches Ok(pass) ==> pass.stream() == handle && pass.input() == samples@
                && pass.output() == Seq::<u32>::empty(),
            r matches Err(e) ==> self.request_outcome(handle, samples@.len()) == Err::<
                nat,
                DenoiseError,
            >(e),
    {
        if !self.is_open(handle) {
            Err(DenoiseError::InvalidState)
        } else {
            Pass::new(handle, samples)
        }
    }
}

/// Two rows of slots that agree on which slots below `n` are free, but
/// perhaps for slot `j`, differ in their count of free slots by that slot
/// alone.
proof fn free_below_differs_at(a: Seq<Slot>, b: Seq<Slot>, n: nat, j: int)
    requires
        forall|i: int| 0 <= i < n && i != j ==> slot_is_free(a, i) == slot_is_free(b, i),
    ensures
        free_below(b, n) + (if 0 <= j < n && slot_is_free(a, j) {
            1nat
        } else {
            0nat
        }) == free_below(a, n) + (if 0 <= j < n && slot_is_free(b, j) {
            1nat
        } else {
            0nat
        }),
    decreases n,
{
    if n > 0 {
        free_below_differs_at(a, b, (n - 1) as nat, j);
    }
}

/// Where no slot below `n` is free, the count of free slots is zero.
proof fn free_below_none(a: Seq<Slot>, n: nat)
    requires
        forall|i: int| 0 <= i < n ==> !slot_is_free(a, i),
    ensures
        free_below(a, n) == 0,
    decreases n,
{
    if n > 0 {
        free_below_none(a, (n - 1) as nat);
    }
}

/// A free slot below `n` is counted.
proof fn free_below_counts(a: Seq<Slot>, n: nat, i: int)
    requires
        0 <= i < n,
        slot_is_free(a, i),
    ensures
        free_below(a, n) >= 1,
    decreases n,
{
    if i < n - 1 {
        free_below_counts(a, (n - 1) as nat, i);
    }
}

/// A live handle is one that was handed out.
pub proof fn live_was_issued(registry: Denoisers, handle: i64)
    requires
        registry.is_live(handle),
    ensures
        registry.was_issued(handle),
        handle != CLOSED,
{
}

/// Destroying a handle a second time changes nothing; neither does the first
/// time, if the handle was not live. Afterwards the handle is not live.
pub proof fn destroy_is_idempotent(before: Denoisers, once: Denoisers, twice: Denoisers, handle: i64)
    requires
        before.destroyed(handle, once),
        once.destroyed(handle, twice),
    ensures
        twice == once,
        !once.is_live(handle),
        !before.is_live(handle) ==> once == before,
{
}

/// A request on a handle that was never handed out, or that has been
/// destroyed, is refused with `InvalidState`, whatever the samples.
pub proof fn closed_handle_is_refused(registry: Denoisers, handle: i64, len: nat)
    requires
        !registry.was_issued(handle) || !registry.is_live(handle),
    ensures
        registry.request_outcome(handle, len) == Err::<nat, DenoiseError>(DenoiseError::InvalidState),
{
    if registry.is_live(handle) {
        live_was_issued(registry, handle);
    }
}

/// A handle that was destroyed stays closed when another handle is
/// destroyed.
pub proof fn destroyed_stays_closed_on_destroy(
    before: Denoisers,
    after: Denoisers,
    other: i64,
    handle: i64,
)
    requires
        before.was_issued(handle),
        !before.is_live(handle),
        before.destroyed(other, after),
    ensures
        after.was_issued(handle),
        !after.is_live(handle),
{
}

/// A handle that was destroyed stays closed when a handle is created: the
/// new handle is a different one.
pub proof fn destroyed_stays_closed_on_create(
    before: Denoisers,
    after: Denoisers,
    made: i64,
    handle: i64,
)
    requires
        before.was_issued(handle),
        !before.is_live(handle),
        before.created(made, after),
    ensures
        made != handle,
        after.was_issued(handle),
        !after.is_live(handle),
{
}

} // verus!
