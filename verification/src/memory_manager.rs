//! Bump arena with a bounded stack of checkpoints.
//!
//! Memory is only ever reclaimed in bulk: by rolling the cursor back to a
//! checkpoint or by resetting the whole arena.

use vstd::prelude::*;
use crate::util::text::{decimal, push_decimal, push_text};

verus! {

/// First address managed by the default arena.
pub const HEAP_START: usize = 0x8030_0000;

/// Number of bytes managed by the default arena.
pub const HEAP_SIZE: usize = crate::config::HEAP_SIZE_BYTES;

/// Depth of the checkpoint stack.
pub const MAX_CHECKPOINTS: usize = 8;

/// Mathematical state of an arena: the managed range, the cursor and the
/// saved cursors, oldest first.
pub struct ArenaModel {
    pub start: nat,
    pub end: nat,
    pub cursor: nat,
    pub stack: Seq<nat>,
}

/// Smallest multiple of `align` that is not below `addr`, for `align > 0`.
pub open spec fn align_up_spec(addr: nat, align: nat) -> nat {
    if addr % align == 0 {
        addr
    } else {
        (addr + (align - addr % align)) as nat
    }
}

impl ArenaModel {
    /// The cursor lies in the range, at most eight cursors are saved, and the
    /// saved cursors are ordered and not above the current one.
    pub open spec fn wf(self) -> bool {
        &&& self.start <= self.cursor <= self.end
        &&& self.stack.len() <= MAX_CHECKPOINTS
        &&& forall|i: int| 0 <= i < self.stack.len() ==> self.start <= #[trigger] self.stack[i] <= self.cursor
        &&& forall|i: int, j: int| 0 <= i <= j < self.stack.len() ==> self.stack[i] <= self.stack[j]
    }

    /// Whether a request for `size` bytes at alignment `align` can be served.
    pub open spec fn fits(self, size: nat, align: nat) -> bool {
        align > 0 && align_up_spec(self.cursor, align) + size <= self.end
    }

    /// Address handed out for a request, where it fits.
    pub open spec fn alloc_addr(self, align: nat) -> nat {
        align_up_spec(self.cursor, align)
    }

    /// State after a request: the cursor moves past the block where the
    /// request fits, and nothing changes where it does not.
    pub open spec fn allocate(self, size: nat, align: nat) -> ArenaModel {
        if self.fits(size, align) {
            ArenaModel { cursor: align_up_spec(self.cursor, align) + size, ..self }
        } else {
            self
        }
    }

    /// State after a run of requests, served in order.
    pub open spec fn alloc_all(self, requests: Seq<(nat, nat)>) -> ArenaModel
        decreases requests.len(),
    {
        if requests.len() == 0 {
            self
        } else {
            self.alloc_all(requests.drop_last()).allocate(requests.last().0, requests.last().1)
        }
    }

    /// Whether every request of a run can be served, one after the other.
    pub open spec fn fits_all(self, requests: Seq<(nat, nat)>) -> bool
        decreases requests.len(),
    {
        if requests.len() == 0 {
            true
        } else {
            self.fits_all(requests.drop_last()) && self.alloc_all(requests.drop_last()).fits(
                requests.last().0,
                requests.last().1,
            )
        }
    }

    /// Token returned by `checkpoint`: the depth before the push, or the
    /// deepest existing token where the stack is full.
    pub open spec fn checkpoint_token(self) -> nat {
        if self.stack.len() < MAX_CHECKPOINTS {
            self.stack.len()
        } else {
            (MAX_CHECKPOINTS - 1) as nat
        }
    }

    /// State after `checkpoint`: the cursor is pushed unless the stack is full.
    pub open spec fn checkpoint(self) -> ArenaModel {
        if self.stack.len() < MAX_CHECKPOINTS {
            ArenaModel { stack: self.stack.push(self.cursor), ..self }
        } else {
            self
        }
    }

    /// State after popping the newest checkpoint, if there is one.
    pub open spec fn pop(self) -> ArenaModel {
        if self.stack.len() == 0 {
            self
        } else {
            ArenaModel { cursor: self.stack.last(), stack: self.stack.drop_last(), ..self }
        }
    }

    /// Whether `token` names the newest checkpoint.
    pub open spec fn is_top(self, token: nat) -> bool {
        self.stack.len() == token + 1
    }

    /// State after `restore_to(token)`: a pop where `token` is the newest
    /// checkpoint, nothing otherwise.
    pub open spec fn restore_to(self, token: nat) -> ArenaModel {
        if self.is_top(token) {
            self.pop()
        } else {
            self
        }
    }

    /// State after `reset`.
    pub open spec fn reset(self) -> ArenaModel {
        ArenaModel { cursor: self.start, stack: Seq::empty(), ..self }
    }
}

/// `align_up_spec` yields the least multiple of `align` at or above `addr`.
pub proof fn lemma_align_up_is_least_multiple(addr: nat, align: nat)
    requires
        align > 0,
    ensures
        align_up_spec(addr, align) % align == 0,
        addr <= align_up_spec(addr, align) < addr + align,
        forall|m: nat| addr <= m && #[trigger] (m % align) == 0 ==> align_up_spec(addr, align) <= m,
{
    let r = addr % align;
    let up = align_up_spec(addr, align);
    assert(addr == align * (addr / align) + r) by {
        vstd::arithmetic::div_mod::lemma_fundamental_div_mod(addr as int, align as int);
    }
    if r != 0 {
        assert(up == align * (addr / align + 1)) by (nonlinear_arith)
            requires
                up == addr + (align - r),
                addr == align * (addr / align) + r,
        ;
        assert(up % align == 0) by {
            vstd::arithmetic::div_mod::lemma_mod_multiples_basic((addr / align + 1) as int, align as int);
            assert(align * (addr / align + 1) == (addr / align + 1) * align) by (nonlinear_arith);
        }
    }
    assert forall|m: nat| addr <= m && #[trigger] (m % align) == 0 implies up <= m by {
        if r != 0 {
            let q = addr / align;
            vstd::arithmetic::div_mod::lemma_fundamental_div_mod(m as int, align as int);
            let mq = m / align;
            assert(m == align * mq);
            assert(mq > q) by (nonlinear_arith)
                requires
                    m == align * mq,
                    addr == align * q + r,
                    0 < r < align,
                    addr <= m,
                    align > 0,
            ;
            assert(align * mq >= align * (q + 1)) by (nonlinear_arith)
                requires
                    mq >= q + 1,
                    align > 0,
            ;
        }
    }
}

/// Allocations never touch the saved cursors and never move the cursor back.
pub proof fn lemma_alloc_all_keeps_stack(a: ArenaModel, requests: Seq<(nat, nat)>)
    ensures
        a.alloc_all(requests).stack == a.stack,
        a.alloc_all(requests).start == a.start,
        a.alloc_all(requests).end == a.end,
        a.alloc_all(requests).cursor >= a.cursor,
        a.wf() ==> a.alloc_all(requests).wf(),
    decreases requests.len(),
{
    if requests.len() > 0 {
        lemma_alloc_all_keeps_stack(a, requests.drop_last());
        let before = a.alloc_all(requests.drop_last());
        let size = requests.last().0;
        let align = requests.last().1;
        if before.fits(size, align) {
            lemma_align_up_is_least_multiple(before.cursor, align);
        }
    }
}

/// Checkpoint law: a checkpoint that is pushed, any run of allocations, and a
/// restore to the token that the checkpoint returned bring the cursor back to
/// where it stood before the checkpoint, and leave the saved cursors as they
/// were.
pub proof fn lemma_checkpoint_restore_roundtrip(a: ArenaModel, requests: Seq<(nat, nat)>)
    requires
        a.wf(),
        a.stack.len() < MAX_CHECKPOINTS,
    ensures
        a.checkpoint().alloc_all(requests).is_top(a.checkpoint_token()),
        a.checkpoint().alloc_all(requests).restore_to(a.checkpoint_token()) == a,
{
    lemma_alloc_all_keeps_stack(a.checkpoint(), requests);
    let after = a.checkpoint().alloc_all(requests);
    assert(after.stack == a.stack.push(a.cursor));
    assert(after.stack.drop_last() =~= a.stack);
}

/// Exhaustion law: a request that does not fit changes nothing, however often
/// it is repeated.
pub proof fn lemma_failed_alloc_is_idempotent(a: ArenaModel, size: nat, align: nat)
    requires
        !a.fits(size, align),
    ensures
        a.allocate(size, align) == a,
        a.allocate(size, align).allocate(size, align) == a,
{
}

/// A request larger than what is left of the arena never fits.
pub proof fn lemma_oversized_request_does_not_fit(a: ArenaModel, size: nat, align: nat)
    requires
        a.wf(),
        size > a.end - a.cursor,
    ensures
        !a.fits(size, align),
{
    if align > 0 {
        lemma_align_up_is_least_multiple(a.cursor, align);
    }
}

/// Bump allocator over a fixed address range.
pub struct BumpArena {
    heap_start: usize,
    heap_end: usize,
    next_free: usize,
    checkpoints: [usize; 8],
    current_checkpoint: usize,
}

impl View for BumpArena {
    type V = ArenaModel;

    closed spec fn view(&self) -> ArenaModel {
        ArenaModel {
            start: self.heap_start as nat,
            end: self.heap_end as nat,
            cursor: self.next_free as nat,
            stack: Seq::new(
                if self.current_checkpoint <= MAX_CHECKPOINTS {
                    self.current_checkpoint as nat
                } else {
                    MAX_CHECKPOINTS as nat
                },
                |i: int| self.checkpoints@[i] as nat,
            ),
        }
    }
}

impl BumpArena {
    /// Holds of every arena that executable code can reach.
    #[verifier::type_invariant]
    pub closed spec fn inv(&self) -> bool {
        &&& self.current_checkpoint <= MAX_CHECKPOINTS
        &&& self.heap_start <= self.next_free <= self.heap_end
        &&& forall|i: int|
            0 <= i < self.current_checkpoint ==> self.heap_start <= #[trigger] self.checkpoints@[i]
                <= self.next_free
        &&& forall|i: int, j: int|
            0 <= i <= j < self.current_checkpoint ==> #[trigger] self.checkpoints@[i]
                <= #[trigger] self.checkpoints@[j]
    }

    /// The invariant makes the arena's model well formed.
    pub proof fn lemma_inv_gives_wf(&self)
        requires
            self.inv(),
        ensures
            self@.wf(),
            self@.end <= usize::MAX,
    {
    }

    /// Arena over the default heap range, empty and without checkpoints.
    pub fn new() -> (arena: Self)
        ensures
            arena@ == (ArenaModel {
                start: HEAP_START as nat,
                end: (HEAP_START + HEAP_SIZE) as nat,
                cursor: HEAP_START as nat,
                stack: Seq::empty(),
            }),
    {
        let arena = Self {
            heap_start: HEAP_START,
            heap_end: HEAP_START + HEAP_SIZE,
            next_free: HEAP_START,
            checkpoints: [0; 8],
            current_checkpoint: 0,
        };
        assert(arena@.stack =~= Seq::empty());
        arena
    }

    /// Arena over `[start, start + size)`, or `None` where that range does not
    /// fit in the address space.
    pub fn with_range(start: usize, size: usize) -> (r: Option<Self>)
        ensures
            r is Some <==> start + size <= usize::MAX,
            r matches Some(arena) ==> arena@ == (ArenaModel {
                start: start as nat,
                end: (start + size) as nat,
                cursor: start as nat,
                stack: Seq::empty(),
            }),
    {
        match start.checked_add(size) {
            None => None,
            Some(end) => {
                let arena = Self {
                    heap_start: start,
                    heap_end: end,
                    next_free: start,
                    checkpoints: [0; 8],
                    current_checkpoint: 0,
                };
                assert(arena@.stack =~= Seq::empty());
                Some(arena)
            },
        }
    }

    /// Carves `size` bytes at alignment `align` out of the arena.
    ///
    /// Returns the block's address and moves the cursor past it, or returns
    /// `None` and changes nothing where `align` is zero or the block would
    /// end beyond the arena.
    pub fn allocate(&mut self, size: usize, align: usize) -> (r: Option<usize>)
        ensures
            final(self)@ == old(self)@.allocate(size as nat, align as nat),
            r is Some <==> old(self)@.fits(size as nat, align as nat),
            r matches Some(addr) ==> addr == old(self)@.alloc_addr(align as nat),
            final(self).inv(),
        no_unwind
    {
        proof {
            use_type_invariant(&*self);
        }
        if align == 0 {
            return None;
        }
        let rem: usize = self.next_free % align;
        let pad: usize = if rem == 0 { 0 } else { align - rem };
        if pad > usize::MAX - self.next_free {
            return None;
        }
        let alloc_start: usize = self.next_free + pad;
        if size > usize::MAX - alloc_start {
            return None;
        }
        let alloc_end: usize = alloc_start + size;
        if alloc_end > self.heap_end {
            return None;
        }
        proof {
            lemma_align_up_is_least_multiple(self.next_free as nat, align as nat);
        }
        self.next_free = alloc_end;
        Some(alloc_start)
    }

    /// Saves the cursor and returns the token that names the saved value.
    ///
    /// With eight cursors already saved nothing is pushed and the token of
    /// the newest one is returned.
    pub fn checkpoint(&mut self) -> (token: usize)
        ensures
            final(self)@ == old(self)@.checkpoint(),
            token == old(self)@.checkpoint_token(),
            final(self).inv(),
        no_unwind
    {
        proof {
            use_type_invariant(&*self);
        }
        let idx: usize = self.current_checkpoint;
        if idx < MAX_CHECKPOINTS {
            let ghost before = self@;
            self.checkpoints[idx] = self.next_free;
            assert(self@.stack =~= before.stack);
            self.current_checkpoint = idx + 1;
            assert(self@.stack =~= before.stack.push(before.cursor));
            idx
        } else {
            MAX_CHECKPOINTS - 1
        }
    }

    /// Rolls the cursor back to the newest checkpoint and discards it.
    /// Returns `false`, changing nothing, where no checkpoint is saved.
    pub fn pop_checkpoint(&mut self) -> (popped: bool)
        ensures
            final(self)@ == old(self)@.pop(),
            popped == (old(self)@.stack.len() > 0),
            final(self).inv(),
        no_unwind
    {
        proof {
            use_type_invariant(&*self);
        }
        if self.current_checkpoint == 0 {
            return false;
        }
        let ghost before = self@;
        let top: usize = self.current_checkpoint - 1;
        let saved: usize = self.checkpoints[top];
        assert(saved == before.stack.last());
        self.current_checkpoint = top;
        assert(self@.stack =~= before.stack.drop_last());
        self.next_free = saved;
        assert(self@.stack =~= before.stack.drop_last());
        true
    }

    /// Rolls back to the checkpoint named by `token` where it is the newest
    /// one. Returns `false`, changing nothing, for any other token.
    pub fn restore_to(&mut self, token: usize) -> (restored: bool)
        ensures
            final(self)@ == old(self)@.restore_to(token as nat),
            restored == old(self)@.is_top(token as nat),
            final(self).inv(),
        no_unwind
    {
        proof {
            use_type_invariant(&*self);
        }
        if self.current_checkpoint > 0 && self.current_checkpoint - 1 == token {
            self.pop_checkpoint()
        } else {
            false
        }
    }

    /// Forgets every allocation and every checkpoint.
    pub fn reset(&mut self)
        ensures
            final(self)@ == old(self)@.reset(),
            final(self).inv(),
        no_unwind
    {
        proof {
            use_type_invariant(&*self);
        }
        self.current_checkpoint = 0;
        assert(self@.stack =~= Seq::empty());
        self.next_free = self.heap_start;
        assert(self@.stack =~= Seq::empty());
    }

    /// Bytes between the cursor and the end of the arena.
    pub fn available_memory(&self) -> (n: usize)
        ensures
            n == self@.end - self@.cursor,
    {
        proof {
            use_type_invariant(self);
        }
        self.heap_end - self.next_free
    }

    /// Size of the managed range.
    pub fn total_memory(&self) -> (n: usize)
        ensures
            n == self@.end - self@.start,
    {
        proof {
            use_type_invariant(self);
        }
        self.heap_end - self.heap_start
    }

    /// Bytes between the start of the arena and the cursor.
    pub fn used_memory(&self) -> (n: usize)
        ensures
            n == self@.cursor - self@.start,
    {
        proof {
            use_type_invariant(self);
        }
        self.next_free - self.heap_start
    }

    /// Number of checkpoints currently saved.
    pub fn checkpoint_depth(&self) -> (n: usize)
        ensures
            n == self@.stack.len(),
    {
        proof {
            use_type_invariant(self);
        }
        self.current_checkpoint
    }
}

/// Rounds `addr` up to the next multiple of `align`.
///
/// Returns `None` where `align` is zero or the rounded address does not fit
/// in the address space.
pub fn align_up(addr: usize, align: usize) -> (r: Option<usize>)
    ensures
        r is Some <==> align > 0 && align_up_spec(addr as nat, align as nat) <= usize::MAX,
        r matches Some(up) ==> up == align_up_spec(addr as nat, align as nat),
{
    if align == 0 {
        return None;
    }
    let rem: usize = addr % align;
    if rem == 0 {
        Some(addr)
    } else {
        addr.checked_add(align - rem)
    }
}

/// Owner of the arena that every component allocates from.
pub struct MemoryManager {
    arena: BumpArena,
}

impl View for MemoryManager {
    type V = ArenaModel;

    closed spec fn view(&self) -> ArenaModel {
        self.arena@
    }
}

impl MemoryManager {
    /// Holds of every manager that executable code can reach.
    #[verifier::type_invariant]
    pub closed spec fn inv(&self) -> bool {
        self.arena.inv()
    }

    /// The invariant makes the arena's model well formed.
    pub proof fn lemma_inv_gives_wf(&self)
        requires
            self.inv(),
        ensures
            self@.wf(),
            self@.end <= usize::MAX,
    {
        self.arena.lemma_inv_gives_wf();
    }

    /// Manager of a fresh arena over the default heap range.
    pub fn new() -> (mm: Self)
        ensures
            mm@ == (ArenaModel {
                start: HEAP_START as nat,
                end: (HEAP_START + HEAP_SIZE) as nat,
                cursor: HEAP_START as nat,
                stack: Seq::empty(),
            }),
    {
        let arena = BumpArena::new();
        proof {
            use_type_invariant(&arena);
        }
        MemoryManager { arena }
    }

    /// Manager of a fresh arena over `[start, start + size)`, or `None` where
    /// that range does not fit in the address space.
    pub fn with_range(start: usize, size: usize) -> (r: Option<Self>)
        ensures
            r is Some <==> start + size <= usize::MAX,
            r matches Some(mm) ==> mm@ == (ArenaModel {
                start: start as nat,
                end: (start + size) as nat,
                cursor: start as nat,
                stack: Seq::empty(),
            }),
    {
        match BumpArena::with_range(start, size) {
            None => None,
            Some(arena) => {
                proof {
                    use_type_invariant(&arena);
                }
                Some(MemoryManager { arena })
            },
        }
    }

    /// Carves `size` bytes at alignment `align` out of the arena; see
    /// [`BumpArena::allocate`].
    pub fn allocate(&mut self, size: usize, align: usize) -> (r: Option<usize>)
        ensures
            final(self)@ == old(self)@.allocate(size as nat, align as nat),
            r is Some <==> old(self)@.fits(size as nat, align as nat),
            r matches Some(addr) ==> addr == old(self)@.alloc_addr(align as nat),
    {
        self.arena.allocate(size, align)
    }

    /// Saves the cursor; see [`BumpArena::checkpoint`].
    pub fn checkpoint(&mut self) -> (token: usize)
        ensures
            final(self)@ == old(self)@.checkpoint(),
            token == old(self)@.checkpoint_token(),
    {
        self.arena.checkpoint()
    }

    /// Rolls back to the newest checkpoint; see [`BumpArena::pop_checkpoint`].
    pub fn pop_checkpoint(&mut self) -> (popped: bool)
        ensures
            final(self)@ == old(self)@.pop(),
            popped == (old(self)@.stack.len() > 0),
    {
        self.arena.pop_checkpoint()
    }

    /// Rolls back to the checkpoint named by `token`; see
    /// [`BumpArena::restore_to`].
    pub fn restore_to(&mut self, token: usize) -> (restored: bool)
        ensures
            final(self)@ == old(self)@.restore_to(token as nat),
            restored == old(self)@.is_top(token as nat),
    {
        self.arena.restore_to(token)
    }

    /// Forgets every allocation and every checkpoint.
    pub fn reset(&mut self)
        ensures
            final(self)@ == old(self)@.reset(),
    {
        self.arena.reset()
    }

    /// Bytes between the cursor and the end of the arena.
    pub fn available_memory(&self) -> (n: usize)
        ensures
            n == self@.end - self@.cursor,
    {
        self.arena.available_memory()
    }

    /// Size of the managed range.
    pub fn total_memory(&self) -> (n: usize)
        ensures
            n == self@.end - self@.start,
    {
        self.arena.total_memory()
    }

    /// Bytes between the start of the arena and the cursor.
    pub fn used_memory(&self) -> (n: usize)
        ensures
            n == self@.cursor - self@.start,
    {
        self.arena.used_memory()
    }

    /// Number of checkpoints currently saved.
    pub fn checkpoint_depth(&self) -> (n: usize)
        ensures
            n == self@.stack.len(),
    {
        self.arena.checkpoint_depth()
    }

    /// The line that reports the arena's usage under `label`:
    /// `[mem] <label>: used <used> / <total> bytes`.
    pub fn log_usage(&self, label: &str) -> (line: String)
        ensures
            line@ == usage_line_spec(
                label@,
                (self@.cursor - self@.start) as nat,
                (self@.end - self@.start) as nat,
            ),
    {
        proof {
            use_type_invariant(self);
            self.lemma_inv_gives_wf();
        }
        let mut line = String::new();
        push_text(&mut line, "[mem] ");
        push_text(&mut line, label);
        push_text(&mut line, ": used ");
        push_decimal(&mut line, self.used_memory() as u64);
        push_text(&mut line, " / ");
        push_decimal(&mut line, self.total_memory() as u64);
        push_text(&mut line, " bytes");
        proof {
            assert(Seq::<char>::empty() + "[mem] "@ =~= "[mem] "@);
        }
        line
    }
}

/// The text of a usage report.
pub open spec fn usage_line_spec(label: Seq<char>, used: nat, total: nat) -> Seq<char> {
    "[mem] "@ + label + ": used "@ + decimal(used) + " / "@ + decimal(total) + " bytes"@
}

/// Manager of the default arena, reset to empty.
pub fn init() -> (mm: MemoryManager)
    ensures
        mm@ == (ArenaModel {
            start: HEAP_START as nat,
            end: (HEAP_START + HEAP_SIZE) as nat,
            cursor: HEAP_START as nat,
            stack: Seq::empty(),
        }),
{
    let mut mm = MemoryManager::new();
    mm.reset();
    mm
}

/// Manager of a private arena over the default range, independent of any
/// other manager.
pub fn new_for_test() -> (mm: MemoryManager)
    ensures
        mm@ == (ArenaModel {
            start: HEAP_START as nat,
            end: (HEAP_START + HEAP_SIZE) as nat,
            cursor: HEAP_START as nat,
            stack: Seq::empty(),
        }),
{
    MemoryManager::new()
}

} // verus!
