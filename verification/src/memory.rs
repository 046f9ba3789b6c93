//! The guest's 32-bit address space.
//!
//! Memory is a set of disjoint regions. A byte that no region holds reads as
//! zero, and a write to it is dropped. Wider accesses are little-endian and are
//! made of byte accesses; addresses wrap around at the top of the space.

use vstd::prelude::*;

verus! {

/// The byte at `a`; zero where nothing is mapped.
pub open spec fn read8(m: Map<u32, u8>, a: u32) -> u8 {
    if m.dom().contains(a) {
        m[a]
    } else {
        0
    }
}

/// The little-endian halfword at `a`.
pub open spec fn read16(m: Map<u32, u8>, a: u32) -> u16 {
    (read8(m, a) + 256 * read8(m, a.wrapping_add(1))) as u16
}

/// The little-endian word at `a`.
pub open spec fn read32(m: Map<u32, u8>, a: u32) -> u32 {
    (read16(m, a) + 65536 * read16(m, a.wrapping_add(2))) as u32
}

/// Memory after the byte `v` went to `a`; unchanged where nothing is mapped.
pub open spec fn write8(m: Map<u32, u8>, a: u32, v: u8) -> Map<u32, u8> {
    if m.dom().contains(a) {
        m.insert(a, v)
    } else {
        m
    }
}

/// Memory after the halfword `v` went to `a`.
pub open spec fn write16(m: Map<u32, u8>, a: u32, v: u16) -> Map<u32, u8> {
    write8(write8(m, a, (v % 256) as u8), a.wrapping_add(1), (v / 256) as u8)
}

/// Memory after the word `v` went to `a`.
pub open spec fn write32(m: Map<u32, u8>, a: u32, v: u32) -> Map<u32, u8> {
    write16(write16(m, a, (v % 65536) as u16), a.wrapping_add(2), (v / 65536) as u16)
}

/// The bytes of the C string at `a`: up to the first zero, `limit` at most.
pub open spec fn c_bytes(m: Map<u32, u8>, a: u32, limit: nat) -> Seq<u8>
    decreases limit,
{
    if limit == 0 || read8(m, a) == 0 {
        Seq::empty()
    } else {
        seq![read8(m, a)] + c_bytes(m, a.wrapping_add(1), (limit - 1) as nat)
    }
}

/// The address `k` bytes after `a`.
pub open spec fn offset(a: u32, k: int) -> u32 {
    ((a + k) % 0x1_0000_0000) as u32
}

/// The address `k` bytes after `a`.
pub fn address_at(a: u32, k: u32) -> (at: u32)
    ensures
        at == offset(a, k as int),
{
    a.wrapping_add(k)
}

/// The `n` bytes from `a` on.
pub open spec fn bytes_from(m: Map<u32, u8>, a: u32, n: nat) -> Seq<u8> {
    Seq::new(n, |i: int| read8(m, offset(a, i)))
}

/// Where a region lies: its first address and its length.
pub struct Span {
    pub base: int,
    pub len: int,
}

/// One of the spans holds all of the `len` bytes from `a` on.
pub open spec fn span_holds(spans: Seq<Span>, a: u32, len: int) -> bool {
    exists|i: int| 0 <= i < spans.len() && (#[trigger] spans[i]).base <= a && a + len
        <= spans[i].base + spans[i].len
}

/// A run of bytes at consecutive guest addresses.
#[derive(Debug)]
pub struct Region {
    pub base: u32,
    pub data: Vec<u8>,
}

impl Region {
    pub open spec fn span(&self) -> Span {
        Span { base: self.base as int, len: self.data@.len() as int }
    }

    pub open spec fn holds(&self, a: u32) -> bool {
        self.base <= a < self.base + self.data@.len()
    }
}

/// The memory that the guest sees.
#[derive(Debug)]
pub struct GuestMemory {
    regions: Vec<Region>,
}

impl View for GuestMemory {
    type V = Map<u32, u8>;

    /// Every mapped byte by its address.
    closed spec fn view(&self) -> Map<u32, u8> {
        Map::new(
            |a: u32| self.mapped(a),
            |a: u32|
                {
                    let r = self.regions@[self.owner(a)];
                    r.data@[a - r.base]
                },
        )
    }
}

impl GuestMemory {
    spec fn mapped(&self, a: u32) -> bool {
        exists|i: int| 0 <= i < self.regions@.len() && (#[trigger] self.regions@[i]).holds(a)
    }

    spec fn owner(&self, a: u32) -> int {
        choose|i: int| 0 <= i < self.regions@.len() && (#[trigger] self.regions@[i]).holds(a)
    }

    /// Where the regions lie, in the order in which they were mapped.
    pub closed spec fn spans(&self) -> Seq<Span> {
        Seq::new(self.regions@.len(), |i: int| self.regions@[i].span())
    }

    /// Regions end within the address space and do not overlap.
    pub closed spec fn wf(&self) -> bool {
        &&& forall|i: int|
            0 <= i < self.regions@.len() ==> (#[trigger] self.regions@[i]).base
                + self.regions@[i].data@.len() <= 0x1_0000_0000
        &&& forall|i: int, j: int, a: u32|
            0 <= i < self.regions@.len() && 0 <= j < self.regions@.len()
                && #[trigger] self.regions@[i].holds(a) && #[trigger] self.regions@[j].holds(a)
                ==> i == j
    }

    proof fn lemma_owner(&self, i: int, a: u32)
        requires
            self.wf(),
            0 <= i < self.regions@.len(),
            self.regions@[i].holds(a),
        ensures
            self.owner(a) == i,
            self@.dom().contains(a),
            self@[a] == self.regions@[i].data@[a - self.regions@[i].base],
    {
    }

    /// Changing one byte of one region changes the view at that address alone.
    proof fn lemma_poke(&self, after: Self, i: int, a: u32, v: u8)
        requires
            self.wf(),
            0 <= i < self.regions@.len(),
            self.regions@[i].holds(a),
            after.regions@.len() == self.regions@.len(),
            forall|j: int|
                0 <= j < self.regions@.len() && j != i ==> after.regions@[j] == self.regions@[j],
            after.regions@[i].base == self.regions@[i].base,
            after.regions@[i].data@ == self.regions@[i].data@.update(
                a - self.regions@[i].base,
                v,
            ),
        ensures
            after.wf(),
            after.spans() == self.spans(),
            after@ == write8(self@, a, v),
    {
        assert forall|j: int, b: u32|
            0 <= j < self.regions@.len() implies #[trigger] after.regions@[j].holds(b)
            == self.regions@[j].holds(b) by {
            assert(j == i || after.regions@[j] == self.regions@[j]);
        }
        assert(after.spans() =~= self.spans());
        assert(after.wf());
        assert forall|b: u32| #[trigger] after@.dom().contains(b) == self@.dom().contains(b) by {
            if self.mapped(b) {
                let j = self.owner(b);
                assert(after.regions@[j].holds(b));
            }
            if after.mapped(b) {
                let j = after.owner(b);
                assert(self.regions@[j].holds(b));
            }
        }
        assert forall|b: u32| self@.dom().contains(b) implies #[trigger] after@[b] == write8(
            self@,
            a,
            v,
        )[b] by {
            let j = self.owner(b);
            assert(after.regions@[j].holds(b));
            self.lemma_owner(j, b);
            after.lemma_owner(j, b);
            self.lemma_owner(i, a);
        }
        self.lemma_owner(i, a);
        assert(after@ =~= write8(self@, a, v));
    }

    /// An address space in which nothing is mapped.
    pub fn new() -> (memory: Self)
        ensures
            memory.wf(),
            memory@ == Map::<u32, u8>::empty(),
            memory.spans() == Seq::<Span>::empty(),
    {
        let memory = GuestMemory { regions: Vec::new() };
        assert(memory@ =~= Map::<u32, u8>::empty());
        memory
    }

    /// The index of the region that holds `a`.
    fn find(&self, a: u32) -> (found: Option<usize>)
        requires
            self.wf(),
        ensures
            match found {
                Some(i) => i < self.regions@.len() && self.regions@[i as int].holds(a),
                None => !self.mapped(a),
            },
    {
        let mut i: usize = 0;
        while i < self.regions.len()
            invariant
                i <= self.regions@.len(),
                self.wf(),
                forall|j: int| 0 <= j < i ==> !(#[trigger] self.regions@[j]).holds(a),
            decreases self.regions@.len() - i,
        {
            let region = &self.regions[i];
            if a >= region.base && ((a - region.base) as usize) < region.data.len() {
                return Some(i);
            }
            i += 1;
        }
        None
    }

    /// Reads a byte.
    pub fn r8(&self, a: u32) -> (v: u8)
        requires
            self.wf(),
        ensures
            v == read8(self@, a),
    {
        match self.find(a) {
            Some(i) => {
                proof {
                    self.lemma_owner(i as int, a);
                }
                let region = &self.regions[i];
                region.data[(a - region.base) as usize]
            },
            None => 0,
        }
    }

    /// Writes a byte.
    pub fn w8(&mut self, a: u32, v: u8)
        requires
            old(self).wf(),
        ensures
            final(self).wf(),
            final(self).spans() == old(self).spans(),
            final(self)@ == write8(old(self)@, a, v),
    {
        match self.find(a) {
            Some(i) => {
                proof {
                    self.lemma_owner(i as int, a);
                }
                let k: usize = (a - self.regions[i].base) as usize;
                self.regions[i].data[k] = v;
                proof {
                    old(self).lemma_poke(*self, i as int, a, v);
                }
            },
            None => {},
        }
    }

    /// Reads a little-endian halfword.
    pub fn r16(&self, a: u32) -> (v: u16)
        requires
            self.wf(),
        ensures
            v == read16(self@, a),
    {
        let low: u8 = self.r8(a);
        let high: u8 = self.r8(a.wrapping_add(1));
        low as u16 + 256 * (high as u16)
    }

    /// Reads a little-endian word.
    pub fn r32(&self, a: u32) -> (v: u32)
        requires
            self.wf(),
        ensures
            v == read32(self@, a),
    {
        let low: u16 = self.r16(a);
        let high: u16 = self.r16(a.wrapping_add(2));
        low as u32 + 65536 * (high as u32)
    }

    /// Writes a little-endian halfword.
    pub fn w16(&mut self, a: u32, v: u16)
        requires
            old(self).wf(),
        ensures
            final(self).wf(),
            final(self).spans() == old(self).spans(),
            final(self)@ == write16(old(self)@, a, v),
    {
        self.w8(a, (v % 256) as u8);
        self.w8(a.wrapping_add(1), (v / 256) as u8);
    }

    /// Writes a little-endian word.
    pub fn w32(&mut self, a: u32, v: u32)
        requires
            old(self).wf(),
        ensures
            final(self).wf(),
            final(self).spans() == old(self).spans(),
            final(self)@ == write32(old(self)@, a, v),
    {
        self.w16(a, (v % 65536) as u16);
        self.w16(a.wrapping_add(2), (v / 65536) as u16);
    }

    /// The region that holds all of the `len` bytes from `a` on.
    pub fn region(&self, a: u32, len: usize) -> (found: Option<&Region>)
        requires
            self.wf(),
        ensures
            found is Some <==> span_holds(self.spans(), a, len as int),
            found matches Some(region) ==> region.base <= a && a + len <= region.base
                + region.data@.len() && forall|i: int|
                0 <= i < len ==> #[trigger] region.data@[a - region.base + i] == read8(
                    self@,
                    offset(a, i),
                ),
    {
        let mut i: usize = 0;
        while i < self.regions.len()
            invariant
                i <= self.regions@.len(),
                self.wf(),
                forall|j: int|
                    0 <= j < i ==> !((#[trigger] self.regions@[j]).base <= a && a + len
                        <= self.regions@[j].base + self.regions@[j].data@.len()),
            decreases self.regions@.len() - i,
        {
            let region = &self.regions[i];
            if a >= region.base && (a - region.base) as usize <= region.data.len() && len
                <= region.data.len() - (a - region.base) as usize {
                proof {
                    assert(self.spans()[i as int] == region.span());
                    assert forall|k: int| 0 <= k < len implies #[trigger] region.data@[a
                        - region.base + k] == read8(self@, offset(a, k)) by {
                        self.lemma_owner(i as int, offset(a, k));
                    }
                }
                return Some(region);
            }
            i += 1;
        }
        proof {
            assert forall|j: int| 0 <= j < self.spans().len() implies !((
            #[trigger] self.spans()[j]).base <= a && a + len <= self.spans()[j].base
                + self.spans()[j].len) by {
                assert(self.spans()[j] == self.regions@[j].span());
            }
        }
        None
    }

    /// Maps `data` at `base`. Refused, with nothing changed, where it would run past the
    /// end of the address space or overlap a region that is there already.
    pub fn map_region(&mut self, base: u32, data: Vec<u8>) -> (mapped: bool)
        requires
            old(self).wf(),
        ensures
            final(self).wf(),
            mapped <==> base + data@.len() <= 0x1_0000_0000 && forall|a: u32|
                base <= a < base + data@.len() ==> !#[trigger] old(self)@.dom().contains(a),
            !mapped ==> final(self)@ == old(self)@ && final(self).spans() == old(self).spans(),
            mapped ==> {
                &&& final(self).spans() == old(self).spans().push(
                    (Span { base: base as int, len: data@.len() as int }),
                )
                &&& final(self)@ == old(self)@.union_prefer_right(
                    Map::new(
                        |a: u32| base <= a < base + data@.len(),
                        |a: u32| data@[a - base],
                    ),
                )
            },
    {
        let fits = data.len() <= 0xffff_ffff && base as u64 + data.len() as u64 <= 0x1_0000_0000
            || data.len() as u64 == 0x1_0000_0000 && base == 0;
        if !fits {
            return false;
        }
        let mut i: usize = 0;
        while i < self.regions.len()
            invariant
                i <= self.regions@.len(),
                *self == *old(self),
                self.wf(),
                base + data@.len() <= 0x1_0000_0000,
                forall|j: int, a: u32|
                    0 <= j < i && base <= a < base + data@.len()
                        ==> !#[trigger] self.regions@[j].holds(a),
            decreases self.regions@.len() - i,
        {
            let region = &self.regions[i];
            let start: u32 = if base > region.base {
                base
            } else {
                region.base
            };
            let overlaps = ((start - base) as usize) < data.len() && ((start
                - region.base) as usize) < region.data.len();
            if overlaps {
                proof {
                    assert(region.holds(start));
                    self.lemma_owner(i as int, start);
                }
                return false;
            }
            proof {
                assert forall|a: u32| base <= a < base + data@.len() implies !(
                #[trigger] self.regions@[i as int].holds(a)) by {}
            }
            i += 1;
        }
        let region = Region { base, data };
        let ghost added = region;
        self.regions.push(region);
        proof {
            let n = old(self).regions@.len() as int;
            assert(self.spans() =~= old(self).spans().push(added.span()));
            assert forall|a: u32| base <= a < base + data@.len() implies !#[trigger] old(
                self,
            )@.dom().contains(a) by {
                if old(self).mapped(a) {
                    assert(old(self).regions@[old(self).owner(a)].holds(a));
                }
            }
            assert(self.wf());
            let extra = Map::new(
                |a: u32| base <= a < base + data@.len(),
                |a: u32| data@[a - base],
            );
            let joined = old(self)@.union_prefer_right(extra);
            assert forall|a: u32|
                #[trigger] self@.dom().contains(a) == joined.dom().contains(a) by {
                if old(self).mapped(a) {
                    assert(self.regions@[old(self).owner(a)].holds(a));
                }
                if extra.dom().contains(a) {
                    assert(self.regions@[n].holds(a));
                }
                if self.mapped(a) {
                    let j = self.owner(a);
                    if j < n {
                        assert(old(self).regions@[j].holds(a));
                    }
                }
            }
            assert forall|a: u32| joined.dom().contains(a) implies #[trigger] self@[a]
                == joined[a] by {
                if extra.dom().contains(a) {
                    self.lemma_owner(n, a);
                } else {
                    let j = old(self).owner(a);
                    old(self).lemma_owner(j, a);
                    self.lemma_owner(j, a);
                }
            }
            assert(self@ =~= joined);
        }
        true
    }

    /// Reads the C string at `a`: the bytes up to the first zero, `limit` at most.
    pub fn read_c_bytes(&self, a: u32, limit: usize) -> (bytes: Vec<u8>)
        requires
            self.wf(),
        ensures
            bytes@ == c_bytes(self@, a, limit as nat),
    {
        let mut bytes: Vec<u8> = Vec::new();
        let mut at: u32 = a;
        let mut left: usize = limit;
        while left > 0
            invariant_except_break
                bytes@ + c_bytes(self@, at, left as nat) == c_bytes(self@, a, limit as nat),
            invariant
                self.wf(),
            ensures
                bytes@ == c_bytes(self@, a, limit as nat),
            decreases left,
        {
            let byte: u8 = self.r8(at);
            if byte == 0 {
                break;
            }
            proof {
                assert(bytes@.push(byte) + c_bytes(
                    self@,
                    at.wrapping_add(1),
                    (left - 1) as nat,
                ) =~= bytes@ + c_bytes(self@, at, left as nat));
            }
            bytes.push(byte);
            at = at.wrapping_add(1);
            left -= 1;
        }
        bytes
    }
}

/// A byte that was written to mapped memory reads back; every other byte keeps its value.
pub proof fn law_byte_read_back(m: Map<u32, u8>, a: u32, v: u8, b: u32)
    ensures
        m.dom().contains(a) ==> read8(write8(m, a, v), a) == v,
        b != a ==> read8(write8(m, a, v), b) == read8(m, b),
        write8(m, a, v).dom() == m.dom(),
{
    assert(write8(m, a, v).dom() =~= m.dom());
}

/// A halfword that was written to mapped memory reads back; bytes outside it keep theirs.
pub proof fn law_halfword_read_back(m: Map<u32, u8>, a: u32, v: u16, b: u32)
    ensures
        m.dom().contains(a) && m.dom().contains(a.wrapping_add(1)) ==> read16(write16(m, a, v), a)
            == v,
        b != a && b != a.wrapping_add(1) ==> read8(write16(m, a, v), b) == read8(m, b),
        write16(m, a, v).dom() == m.dom(),
{
    assert(write16(m, a, v).dom() =~= m.dom());
}

/// A word that was written to mapped memory reads back; bytes outside it keep theirs.
pub proof fn law_word_read_back(m: Map<u32, u8>, a: u32, v: u32, b: u32)
    ensures
        m.dom().contains(a) && m.dom().contains(a.wrapping_add(1)) && m.dom().contains(
            a.wrapping_add(2),
        ) && m.dom().contains(a.wrapping_add(3)) ==> read32(write32(m, a, v), a) == v,
        b.wrapping_sub(a) >= 4 ==> read8(write32(m, a, v), b) == read8(m, b),
        write32(m, a, v).dom() == m.dom(),
{
    assert(write32(m, a, v).dom() =~= m.dom());
}

/// Reading a C string stops at the first zero byte: the result holds no zero, and where it is
/// shorter than the limit a zero follows it.
pub proof fn law_c_string(m: Map<u32, u8>, a: u32, limit: nat)
    ensures
        c_bytes(m, a, limit).len() <= limit,
        forall|i: int|
            0 <= i < c_bytes(m, a, limit).len() ==> #[trigger] c_bytes(m, a, limit)[i] == read8(
                m,
                offset(a, i),
            ) && c_bytes(m, a, limit)[i] != 0,
        c_bytes(m, a, limit).len() < limit ==> read8(
            m,
            offset(a, c_bytes(m, a, limit).len() as int),
        ) == 0,
    decreases limit,
{
    if limit > 0 && read8(m, a) != 0 {
        let next = a.wrapping_add(1);
        let rest = c_bytes(m, next, (limit - 1) as nat);
        law_c_string(m, next, (limit - 1) as nat);
        assert forall|i: int| 0 <= i < c_bytes(m, a, limit).len() implies #[trigger] c_bytes(
            m,
            a,
            limit,
        )[i] == read8(m, offset(a, i)) && c_bytes(m, a, limit)[i] != 0 by {
            if i > 0 {
                assert(c_bytes(m, a, limit)[i] == rest[i - 1]);
                assert((a + i) % 0x1_0000_0000 == (next + (i - 1)) % 0x1_0000_0000);
            }
        }
        assert((a + c_bytes(m, a, limit).len()) % 0x1_0000_0000 == (next + rest.len())
            % 0x1_0000_0000);
    }
}

/// Halfwords and words are little-endian: the byte at the lower address counts less, both in what
/// is read and in what is written.
pub proof fn law_little_endian(m: Map<u32, u8>, a: u32, half: u16, word: u32)
    ensures
        read16(m, a) % 256 == read8(m, a),
        read16(m, a) / 256 == read8(m, a.wrapping_add(1)),
        read32(m, a) % 65536 == read16(m, a),
        read32(m, a) / 65536 == read16(m, a.wrapping_add(2)),
        m.dom().contains(a) ==> {
            &&& read8(write16(m, a, half), a) == half % 256
            &&& read8(write32(m, a, word), a) == word % 256
        },
        m.dom().contains(a.wrapping_add(1)) ==> {
            &&& read8(write16(m, a, half), a.wrapping_add(1)) == half / 256
            &&& read8(write32(m, a, word), a.wrapping_add(1)) == word / 256 % 256
        },
        m.dom().contains(a.wrapping_add(2)) ==> read8(write32(m, a, word), a.wrapping_add(2))
            == word / 65536 % 256,
        m.dom().contains(a.wrapping_add(3)) ==> read8(write32(m, a, word), a.wrapping_add(3))
            == word / 0x100_0000,
{
}

/// Stepping on from an address adds to it, around the end of the address space.
pub proof fn law_offset_steps_on(a: u32, i: int, j: int)
    ensures
        offset(a, 0) == a,
        offset(a, 1) == a.wrapping_add(1),
        offset(offset(a, i), j) == offset(a, i + j),
        0 <= i && a + i < 0x1_0000_0000 ==> offset(a, i) == a + i,
        0 <= i < 0x1_0000_0000 ==> offset(a, i).wrapping_sub(a) == i,
{
}

/// The bytes from an address on are those that lie there one after the other.
pub proof fn law_bytes_from_lie_in_a_row(m: Map<u32, u8>, a: u32, n: nat, i: int)
    requires
        0 <= i < n,
    ensures
        bytes_from(m, a, n).len() == n,
        bytes_from(m, a, n)[i] == read8(m, offset(a, i)),
{
}

} // verus!
