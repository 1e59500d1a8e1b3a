//! Memory blocks that are kept alive by counted references.
//!
//! A block has a strong count, which keeps its value alive, and a weak count,
//! which keeps the block itself. The strong references together hold one weak
//! reference. A handle names its block by an address in a [`Heap`].
use vstd::prelude::*;

verus! {

/// More references than this are refused.
pub const MAX_REFCOUNT: usize = usize::MAX / 2;

/// The weak count while it is locked.
pub const LOCKED_WEAK: usize = usize::MAX;

/// The address of no block.
pub const DANGLING: usize = usize::MAX;

/// Whether `addr` is the address of no block.
#[inline]
pub fn is_dangling(addr: usize) -> (dangling: bool)
    ensures
        dangling == (addr == DANGLING),
{
    addr == usize::MAX
}

/// A block as callers see it.
#[verifier::ext_equal]
pub struct BlockView<B> {
    pub strong: usize,
    pub weak: usize,
    /// The value, while the strong count is not zero.
    pub val: Option<B>,
}

impl<B> BlockView<B> {
    /// The value lives exactly while there are strong references, and the block
    /// while there are references of any kind.
    pub open spec fn valid(self) -> bool {
        &&& self.val is Some == (self.strong > 0)
        &&& self.weak > 0
    }

    /// There is one strong reference, and no weak one.
    pub open spec fn sole(self) -> bool {
        self.strong == 1 && self.weak == 1
    }

    /// The block with one weak reference less.
    pub open spec fn weak_dropped(self) -> BlockView<B> {
        BlockView { weak: (self.weak - 1) as usize, ..self }
    }

    /// The block with one strong reference less; the last one takes the value
    /// and the weak reference of the strong ones with it.
    pub open spec fn strong_dropped(self) -> BlockView<B> {
        if self.strong == 1 {
            BlockView { strong: 0, weak: (self.weak - 1) as usize, val: None }
        } else {
            BlockView { strong: (self.strong - 1) as usize, ..self }
        }
    }
}

/// A block.
pub struct Block<B> {
    strong: usize,
    weak: usize,
    val: Option<B>,
}

impl<B> View for Block<B> {
    type V = BlockView<B>;

    closed spec fn view(&self) -> BlockView<B> {
        BlockView { strong: self.strong, weak: self.weak, val: self.val }
    }
}

impl<B> Block<B> {
    /// A block with one strong reference to `val`.
    pub fn new(val: B) -> (block: Self)
        ensures
            block@ == (BlockView { strong: 1, weak: 1, val: Some(val) }),
            block@.valid(),
    {
        Block { strong: 1, weak: 1, val: Some(val) }
    }

    /// The strong count.
    #[inline]
    pub fn strong(&self) -> (n: usize)
        ensures
            n == self@.strong,
    {
        self.strong
    }

    /// The weak count, with the one weak reference of the strong ones.
    #[inline]
    pub fn weak(&self) -> (n: usize)
        ensures
            n == self@.weak,
    {
        self.weak
    }

    /// The number of weak references, without the one of the strong ones. While
    /// the count is locked there are none.
    #[inline]
    pub fn weak_handles(&self) -> (n: usize)
        requires
            self@.weak > 0,
        ensures
            n == (if self@.weak == LOCKED_WEAK {
                0
            } else {
                self@.weak - 1
            }),
    {
        if self.weak == LOCKED_WEAK {
            0
        } else {
            self.weak - 1
        }
    }

    /// The value.
    #[inline]
    pub fn get(&self) -> (val: Option<&B>)
        ensures
            val is Some == self@.val is Some,
            val matches Some(v) ==> self@.val == Some(*v),
    {
        match &self.val {
            Some(v) => Some(v),
            None => None,
        }
    }

    /// Access to the value.
    #[inline]
    pub fn get_mut(&mut self) -> (val: &mut B)
        requires
            old(self)@.val is Some,
        ensures
            Some(*val) == old(self)@.val,
            final(self)@ == (BlockView { val: Some(*final(val)), ..old(self)@ }),
    {
        match &mut self.val {
            Some(v) => v,
            None => vstd::pervasive::unreached(),
        }
    }

    /// One more strong reference.
    #[inline]
    pub fn clone_strong(&mut self)
        requires
            old(self)@.strong <= MAX_REFCOUNT,
        ensures
            final(self)@ == (BlockView {
                strong: (old(self)@.strong + 1) as usize,
                ..old(self)@
            }),
    {
        self.strong = self.strong + 1;
    }

    /// One more weak reference.
    #[inline]
    pub fn clone_weak(&mut self)
        requires
            old(self)@.weak <= MAX_REFCOUNT,
        ensures
            final(self)@ == (BlockView { weak: (old(self)@.weak + 1) as usize, ..old(self)@ }),
    {
        self.weak = self.weak + 1;
    }

    /// One more weak reference, made from a strong one; not while the count is
    /// locked, in which case the caller tries again.
    pub fn downgrade(&mut self) -> (made: bool)
        requires
            old(self)@.weak <= MAX_REFCOUNT || old(self)@.weak == LOCKED_WEAK,
        ensures
            made == (old(self)@.weak != LOCKED_WEAK),
            final(self)@ == (if made {
                BlockView { weak: (old(self)@.weak + 1) as usize, ..old(self)@ }
            } else {
                old(self)@
            }),
    {
        if self.weak == LOCKED_WEAK {
            return false;
        }
        self.weak = self.weak + 1;
        true
    }

    /// One more strong reference, made from a weak one; none where the value is
    /// gone.
    pub fn upgrade(&mut self) -> (made: bool)
        requires
            old(self)@.strong <= MAX_REFCOUNT,
        ensures
            made == (old(self)@.strong > 0),
            final(self)@ == (if made {
                BlockView { strong: (old(self)@.strong + 1) as usize, ..old(self)@ }
            } else {
                old(self)@
            }),
    {
        if self.strong == 0 {
            return false;
        }
        self.strong = self.strong + 1;
        true
    }

    /// Locks the weak count if nobody but the strong references holds a weak
    /// one; tells whether it did.
    pub fn lock_weak(&mut self) -> (locked: bool)
        ensures
            locked == (old(self)@.weak == 1),
            final(self)@ == (if locked {
                BlockView { weak: LOCKED_WEAK, ..old(self)@ }
            } else {
                old(self)@
            }),
    {
        if self.weak == 1 {
            self.weak = LOCKED_WEAK;
            true
        } else {
            false
        }
    }

    /// Gives the weak count free.
    pub fn unlock_weak(&mut self)
        ensures
            final(self)@ == (BlockView { weak: 1, ..old(self)@ }),
    {
        self.weak = 1;
    }

    /// Whether there is one strong reference. The weak count is locked meanwhile,
    /// unless there are weak references.
    pub fn is_unique(&mut self) -> (unique: bool)
        ensures
            unique == (old(self)@.strong == 1),
            final(self)@ == old(self)@,
    {
        let locked: bool = self.lock_weak();
        let unique: bool = self.strong == 1;
        if locked {
            self.unlock_weak();
        }
        unique
    }

    /// One weak reference less; tells whether the block is to be freed.
    pub fn drop_weak(&mut self) -> (frees: bool)
        requires
            old(self)@.weak > 0,
        ensures
            frees == (old(self)@.weak == 1),
            final(self)@ == old(self)@.weak_dropped(),
    {
        self.weak = self.weak - 1;
        self.weak == 0
    }

    /// One strong reference less. The last one hands the value over to be
    /// dropped, and tells whether the block is to be freed.
    pub fn drop_strong(&mut self) -> (r: (Option<B>, bool))
        requires
            old(self)@.valid(),
            old(self)@.strong > 0,
        ensures
            final(self)@ == old(self)@.strong_dropped(),
            r.0 == (if old(self)@.strong == 1 {
                old(self)@.val
            } else {
                None
            }),
            r.1 == (old(self)@.strong == 1 && old(self)@.weak == 1),
    {
        self.strong = self.strong - 1;
        if self.strong != 0 {
            return (None, false);
        }
        let val: Option<B> = self.val.take();
        let frees: bool = self.drop_weak();
        (val, frees)
    }
}

/// The blocks, by their addresses. An address is never used for two blocks.
pub struct Heap<B> {
    blocks: Vec<Option<Block<B>>>,
}

impl<B> Heap<B> {
    /// The block at `addr`, if there is one that has not been freed.
    pub closed spec fn block(&self, addr: usize) -> Option<BlockView<B>> {
        if addr < self.blocks@.len() {
            match self.blocks@[addr as int] {
                Some(block) => Some(block@),
                None => None,
            }
        } else {
            None
        }
    }

    /// The address of the next block.
    pub closed spec fn next_addr(&self) -> usize {
        self.blocks.len()
    }

    /// Every block is valid, and no address is the dangling one.
    pub open spec fn wf(&self) -> bool {
        forall|addr: usize|
            (#[trigger] self.block(addr)) is Some ==> self.block(addr)->0.valid() && addr
                != DANGLING && addr < self.next_addr()
    }

    /// The value at `addr` lives.
    pub open spec fn alive(&self, addr: usize) -> bool {
        self.block(addr) is Some && self.block(addr)->0.strong > 0
    }

    /// The value at `addr`.
    pub open spec fn value(&self, addr: usize) -> B {
        self.block(addr)->0.val->0
    }

    /// No block but the one at `addr` differs, and that one is `block`.
    pub open spec fn with_block(
        &self,
        after: &Self,
        addr: usize,
        block: Option<BlockView<B>>,
    ) -> bool {
        &&& after.block(addr) == block
        &&& after.next_addr() == self.next_addr()
        &&& forall|other: usize|
            other != addr ==> #[trigger] after.block(other) == self.block(other)
    }

    /// A heap without blocks.
    pub fn new() -> (heap: Self)
        ensures
            heap.wf(),
            heap.next_addr() == 0,
            forall|addr: usize| (#[trigger] heap.block(addr)) is None,
    {
        Heap { blocks: Vec::new() }
    }

    /// A new block with one strong reference to `val`; returns its address,
    /// which no block had before. There is an address left.
    pub fn allocate(&mut self, val: B) -> (addr: usize)
        requires
            old(self).wf(),
            old(self).next_addr() < DANGLING,
        ensures
            final(self).wf(),
            addr == old(self).next_addr(),
            old(self).block(addr) is None,
            final(self).next_addr() == addr + 1,
            final(self).block(addr) == Some(BlockView { strong: 1, weak: 1, val: Some(val) }),
            forall|other: usize|
                other != addr ==> #[trigger] final(self).block(other) == old(self).block(other),
    {
        let addr: usize = self.blocks.len();
        self.blocks.push(Some(Block::new(val)));
        assert forall|other: usize| (#[trigger] self.block(other)) is Some implies self.block(
            other,
        )->0.valid() && other != DANGLING && other < self.next_addr() by {
            if other != addr {
                assert(self.block(other) == old(self).block(other));
            }
        }
        addr
    }

    /// The block at `addr`.
    pub fn look(&self, addr: usize) -> (block: &Block<B>)
        requires
            self.block(addr) is Some,
        ensures
            Some(block@) == self.block(addr),
    {
        match &self.blocks[addr] {
            Some(block) => block,
            None => vstd::pervasive::unreached(),
        }
    }

    /// Access to the block at `addr`.
    pub fn look_mut(&mut self, addr: usize) -> (block: &mut Block<B>)
        requires
            old(self).block(addr) is Some,
        ensures
            Some(block@) == old(self).block(addr),
            old(self).with_block(final(self), addr, Some(final(block)@)),
    {
        match &mut self.blocks[addr] {
            Some(block) => block,
            None => vstd::pervasive::unreached(),
        }
    }

    /// Frees the block at `addr`.
    pub fn free(&mut self, addr: usize)
        requires
            old(self).block(addr) is Some,
        ensures
            old(self).with_block(final(self), addr, None),
    {
        self.blocks.set(addr, None);
    }

    /// Gives a strong reference up. The last one hands the value over to be
    /// dropped; the last reference of any kind frees the block.
    pub fn drop_strong(&mut self, addr: usize) -> (val: Option<B>)
        requires
            old(self).wf(),
            old(self).alive(addr),
        ensures
            final(self).wf(),
            val == (if old(self).block(addr)->0.strong == 1 {
                old(self).block(addr)->0.val
            } else {
                None
            }),
            old(self).with_block(
                final(self),
                addr,
                if old(self).block(addr)->0.sole() {
                    None
                } else {
                    Some(old(self).block(addr)->0.strong_dropped())
                },
            ),
    {
        let (val, frees): (Option<B>, bool) = self.look_mut(addr).drop_strong();
        if frees {
            self.free(addr);
        }
        val
    }

    /// Gives a weak reference up; the last reference of any kind frees the
    /// block.
    pub fn drop_weak(&mut self, addr: usize)
        requires
            old(self).wf(),
            old(self).block(addr) is Some,
            old(self).block(addr)->0.weak > (if old(self).block(addr)->0.strong > 0 {
                1int
            } else {
                0
            }),
        ensures
            final(self).wf(),
            old(self).with_block(
                final(self),
                addr,
                if old(self).block(addr)->0.weak == 1 {
                    None
                } else {
                    Some(old(self).block(addr)->0.weak_dropped())
                },
            ),
    {
        let frees: bool = self.look_mut(addr).drop_weak();
        if frees {
            self.free(addr);
        }
    }
}

/// The value is dropped exactly once: giving strong references up keeps it until
/// the last one, and after that it is gone, whatever weak references are left.
pub proof fn law_value_lives_with_strong_references<B>(block: BlockView<B>)
    requires
        block.valid(),
        block.strong > 0,
    ensures
        block.strong > 1 ==> block.strong_dropped().val == block.val
            && block.strong_dropped().valid(),
        block.strong == 1 ==> block.strong_dropped().val is None
            && block.strong_dropped().strong == 0,
        block.strong == 1 && block.weak > 1 ==> block.strong_dropped().valid(),
        block.strong == 1 && block.weak == 1 ==> block.strong_dropped().weak == 0,
{
}

/// Making a reference and giving it up again leaves the block as it was.
pub proof fn law_drop_undoes_clone<B>(block: BlockView<B>)
    requires
        block.valid(),
        block.strong <= MAX_REFCOUNT,
        block.weak <= MAX_REFCOUNT,
    ensures
        block.strong > 0 ==> (BlockView {
            strong: (block.strong + 1) as usize,
            ..block
        }).strong_dropped() == block,
        (BlockView { weak: (block.weak + 1) as usize, ..block }).weak_dropped() == block,
{
}

/// A block together with the references to it that have been made and not given
/// up.
pub struct RefWorld<B> {
    /// The block, unless it has been freed.
    pub block: Option<BlockView<B>>,
    pub strong_refs: nat,
    pub weak_refs: nat,
}

impl<B> RefWorld<B> {
    /// The counts are those of the references: the value lives exactly while
    /// there is a strong one, and the block while there is one of any kind.
    pub open spec fn consistent(self) -> bool {
        &&& self.block is Some == (self.strong_refs + self.weak_refs > 0)
        &&& self.block matches Some(b) ==> {
            &&& b.valid()
            &&& b.strong == self.strong_refs
            &&& b.weak == self.weak_refs + (if self.strong_refs > 0 {
                1int
            } else {
                0
            })
        }
    }
}

/// However references are made and given up, the value is dropped with the last
/// strong one and never before, and the block is freed with the last one of any
/// kind and never before.
pub proof fn law_references_keep_value_and_block<B>(world: RefWorld<B>)
    requires
        world.consistent(),
        world.strong_refs < MAX_REFCOUNT,
        world.weak_refs < MAX_REFCOUNT,
    ensures
        world.block is None <==> world.strong_refs == 0 && world.weak_refs == 0,
        world.block matches Some(b) ==> (b.val is Some <==> world.strong_refs > 0),
        world.strong_refs > 0 ==> {
            let b = world.block->0;
            &&& (RefWorld {
                block: Some(BlockView { strong: (b.strong + 1) as usize, ..b }),
                strong_refs: world.strong_refs + 1,
                ..world
            }).consistent()
            &&& (RefWorld {
                block: Some(BlockView { weak: (b.weak + 1) as usize, ..b }),
                weak_refs: world.weak_refs + 1,
                ..world
            }).consistent()
            &&& (RefWorld {
                block: if b.sole() {
                    None
                } else {
                    Some(b.strong_dropped())
                },
                strong_refs: (world.strong_refs - 1) as nat,
                ..world
            }).consistent()
        },
        world.weak_refs > 0 ==> {
            let b = world.block->0;
            &&& (RefWorld {
                block: Some(BlockView { weak: (b.weak + 1) as usize, ..b }),
                weak_refs: world.weak_refs + 1,
                ..world
            }).consistent()
            &&& (RefWorld {
                block: if b.weak == 1 {
                    None
                } else {
                    Some(b.weak_dropped())
                },
                weak_refs: (world.weak_refs - 1) as nat,
                ..world
            }).consistent()
        },
{
}

/// A reference that is given up takes one off its own count, and the last strong
/// one takes the value and the weak reference of the strong ones with it.
pub proof fn law_giving_a_reference_up<B>(block: BlockView<B>)
    requires
        block.valid(),
    ensures
        block.weak_dropped().weak == block.weak - 1,
        block.weak_dropped().strong == block.strong,
        block.weak_dropped().val == block.val,
        block.strong > 1 ==> block.strong_dropped().strong == block.strong - 1
            && block.strong_dropped().weak == block.weak && block.strong_dropped().val
            == block.val,
        block.strong == 1 ==> block.strong_dropped().strong == 0
            && block.strong_dropped().weak == block.weak - 1 && block.strong_dropped().val is None,
        block.sole() <==> block.strong == 1 && block.weak == 1,
{
}

/// A change of one block leaves every other block, and the address of the next
/// one, as they are.
pub proof fn law_a_change_is_of_one_block<B>(
    before: Heap<B>,
    after: Heap<B>,
    addr: usize,
    block: Option<BlockView<B>>,
    other: usize,
)
    requires
        before.with_block(&after, addr, block),
    ensures
        after.block(addr) == block,
        other != addr ==> after.block(other) == before.block(other) && after.alive(other)
            == before.alive(other) && after.value(other) == before.value(other),
        after.next_addr() == before.next_addr(),
        after.alive(addr) <==> block is Some && block->0.strong > 0,
        block matches Some(b) ==> b.val matches Some(v) ==> after.value(addr) == v,
{
}

} // verus!
