//! The guest heap: blocks are handed out in ascending order and never taken back.

use vstd::prelude::*;

verus! {

/// A block that was handed out: its address and the size that was asked for.
#[derive(Clone, Copy, Debug, PartialEq, Eq)]
pub struct Block {
    pub address: u32,
    pub size: u32,
}

/// What a heap looks like: where it lies, how much of it is in use, and its blocks in the
/// order in which they were handed out.
#[verifier::ext_equal]
pub struct HeapState {
    pub base: u32,
    pub size: u32,
    pub used: u32,
    pub blocks: Seq<Block>,
}

/// A request rounded up to whole words.
pub open spec fn words(size: int) -> int {
    (size + 3) / 4 * 4
}

impl HeapState {
    /// The heap ends within the address space and does not start at zero, which stands for
    /// "no block"; its blocks lie one after the other in the part that is in use.
    pub open spec fn wf(self) -> bool {
        &&& self.base > 0
        &&& self.base + self.size <= 0x1_0000_0000
        &&& self.used <= self.size
        &&& forall|i: int|
            0 <= i < self.blocks.len() ==> {
                &&& (#[trigger] self.blocks[i]).size > 0
                &&& self.base <= self.blocks[i].address
                &&& self.blocks[i].address + self.blocks[i].size <= self.base + self.used
            }
        &&& forall|i: int, j: int|
            0 <= i < j < self.blocks.len() ==> (#[trigger] self.blocks[i]).address
                + self.blocks[i].size <= (#[trigger] self.blocks[j]).address
    }

    /// There is room for `size` more bytes; a request for none is never met.
    pub open spec fn has_room(self, size: u32) -> bool {
        size > 0 && self.used + words(size as int) <= self.size
    }

    /// The address that a request for `size` bytes gets; zero where there is no room.
    pub open spec fn next_block(self, size: u32) -> u32 {
        if self.has_room(size) {
            (self.base + self.used) as u32
        } else {
            0
        }
    }

    /// The heap after a request for `size` bytes.
    pub open spec fn after_request(self, size: u32) -> HeapState {
        if self.has_room(size) {
            HeapState {
                used: (self.used + words(size as int)) as u32,
                blocks: self.blocks.push(Block { address: self.next_block(size), size }),
                ..self
            }
        } else {
            self
        }
    }

    /// The size of the block that starts at `address`.
    pub open spec fn block_size(self, address: u32) -> Option<u32> {
        if exists|i: int|
            0 <= i < self.blocks.len() && (#[trigger] self.blocks[i]).address == address {
            Some(
                self.blocks[choose|i: int|
                    0 <= i < self.blocks.len() && (#[trigger] self.blocks[i]).address
                        == address].size,
            )
        } else {
            None
        }
    }
}

/// The heap from which guest memory is handed out.
#[derive(Debug)]
pub struct GuestHeap {
    base: u32,
    size: u32,
    used: u32,
    blocks: Vec<Block>,
}

impl View for GuestHeap {
    type V = HeapState;

    closed spec fn view(&self) -> HeapState {
        HeapState { base: self.base, size: self.size, used: self.used, blocks: self.blocks@ }
    }
}

impl GuestHeap {
    /// A heap of `size` bytes at `base`, all of it free.
    pub fn new(base: u32, size: u32) -> (heap: Self)
        requires
            base > 0,
            base + size <= 0x1_0000_0000,
        ensures
            heap@ == (HeapState { base, size, used: 0, blocks: Seq::empty() }),
            heap@.wf(),
    {
        GuestHeap { base, size, used: 0, blocks: Vec::new() }
    }

    /// The size of the whole heap.
    pub fn size(&self) -> (size: u32)
        ensures
            size == self@.size,
    {
        self.size
    }

    /// Tells whether a request for `size` bytes would be met.
    pub fn can_allocate(&self, size: u32) -> (room: bool)
        requires
            self@.wf(),
        ensures
            room == self@.has_room(size),
    {
        size != 0 && size <= 0xffff_fffc && (size + 3) / 4 * 4 <= self.size - self.used
    }

    /// Hands out `size` bytes; zero where there is no room.
    pub fn allocate(&mut self, size: u32) -> (address: u32)
        requires
            old(self)@.wf(),
        ensures
            final(self)@.wf(),
            address == old(self)@.next_block(size),
            final(self)@ == old(self)@.after_request(size),
    {
        if !self.can_allocate(size) {
            return 0;
        }
        let rounded: u32 = (size + 3) / 4 * 4;
        let address: u32 = self.base + self.used;
        self.blocks.push(Block { address, size });
        self.used = self.used + rounded;
        proof {
            assert(self@ =~= old(self)@.after_request(size));
            law_allocation_is_fresh(old(self)@, size);
        }
        address
    }

    /// The size that was asked for of the block at `address`.
    pub fn allocation_size(&self, address: u32) -> (size: Option<u32>)
        requires
            self@.wf(),
        ensures
            size == self@.block_size(address),
    {
        let mut i: usize = 0;
        while i < self.blocks.len()
            invariant
                i <= self.blocks@.len(),
                self@.wf(),
                forall|j: int| 0 <= j < i ==> (#[trigger] self.blocks@[j]).address != address,
            decreases self.blocks@.len() - i,
        {
            let block = self.blocks[i];
            if block.address == address {
                proof {
                    assert(self@.blocks[i as int].address == address);
                    law_block_size_is_unique(self@, i as int);
                }
                return Some(block.size);
            }
            i += 1;
        }
        None
    }
}

/// A block's size can be looked up by its address, and is the size that was asked for.
pub proof fn law_block_size_is_unique(heap: HeapState, i: int)
    requires
        heap.wf(),
        0 <= i < heap.blocks.len(),
    ensures
        heap.block_size(heap.blocks[i].address) == Some(heap.blocks[i].size),
{
    let address = heap.blocks[i].address;
    let k = choose|k: int|
        0 <= k < heap.blocks.len() && (#[trigger] heap.blocks[k]).address == address;
    assert(k == i) by {
        if k < i {
            assert(heap.blocks[k].address + heap.blocks[k].size <= heap.blocks[i].address);
        } else if i < k {
            assert(heap.blocks[i].address + heap.blocks[i].size <= heap.blocks[k].address);
        }
    }
}

/// A request that is met yields a block inside the heap that overlaps none handed out before,
/// and whose size can be looked up; every older block keeps its size.
pub proof fn law_allocation_is_fresh(heap: HeapState, size: u32)
    requires
        heap.wf(),
        heap.has_room(size),
    ensures
        ({
            let address = heap.next_block(size);
            let after = heap.after_request(size);
            &&& after.wf()
            &&& heap.base <= address && address + size <= heap.base + heap.size
            &&& after.block_size(address) == Some(size)
            &&& forall|i: int|
                0 <= i < heap.blocks.len() ==> {
                    let block = #[trigger] heap.blocks[i];
                    &&& block.address + block.size <= address
                    &&& after.block_size(block.address) == Some(block.size)
                }
        }),
{
    let after = heap.after_request(size);
    assert(after.blocks[heap.blocks.len() as int] == (Block {
        address: heap.next_block(size),
        size,
    }));
    law_block_size_is_unique(after, heap.blocks.len() as int);
    assert forall|i: int| 0 <= i < heap.blocks.len() implies {
        let block = #[trigger] heap.blocks[i];
        &&& block.address + block.size <= heap.next_block(size)
        &&& after.block_size(block.address) == Some(block.size)
    } by {
        assert(after.blocks[i] == heap.blocks[i]);
        law_block_size_is_unique(after, i);
    }
}

/// A request is met exactly if it asks for something and the free part of the heap is large
/// enough for it, rounded up to words. Its block starts where the part in use ends, and that part
/// grows by the rounded size alone.
pub proof fn law_request_takes_next_words(heap: HeapState, size: u32, rounded: int)
    requires
        heap.wf(),
        rounded % 4 == 0,
        size <= rounded < size + 4,
    ensures
        ({
            let after = heap.after_request(size);
            if size > 0 && rounded <= heap.size - heap.used {
                &&& heap.next_block(size) == heap.base + heap.used
                &&& after.used == heap.used + rounded
                &&& after.blocks == heap.blocks.push(
                    (Block { address: (heap.base + heap.used) as u32, size }),
                )
                &&& after.base == heap.base && after.size == heap.size
            } else {
                heap.next_block(size) == 0 && after == heap
            }
        }),
{
}

/// An address at which no block starts has no size.
pub proof fn law_no_block_no_size(heap: HeapState, address: u32)
    ensures
        heap.block_size(address) is None <==> forall|i: int|
            0 <= i < heap.blocks.len() ==> (#[trigger] heap.blocks[i]).address != address,
{
}

} // verus!
