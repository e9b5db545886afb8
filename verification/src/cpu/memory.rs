//! A dynamically growing addressable store of words, indexed by
//! non-negative word addresses.  Any address never explicitly written reads
//! as zero.  The store is kept as a dense array that grows on demand; its
//! length is the high-water mark of written addresses plus one.

use vstd::prelude::*;

use crate::cpu::fault::CpuFault;
use crate::cpu::word::Word;

verus! {

/// What a memory image holds at address `a`: the stored value inside the
/// written region, zero beyond it.
pub open spec fn mem_read(m: Seq<i64>, a: int) -> i64 {
    if 0 <= a < m.len() {
        m[a]
    } else {
        0
    }
}

/// The memory image after writing `v` at non-negative address `a`: the
/// written region is extended with zeros as needed to cover `a`.
pub open spec fn mem_write(m: Seq<i64>, a: int, v: i64) -> Seq<i64>
    recommends
        a >= 0,
{
    if a < m.len() {
        m.update(a, v)
    } else {
        m + Seq::new((a - m.len()) as nat, |i: int| 0i64) + seq![v]
    }
}

/// The memory image after writing the words of `block` contiguously,
/// starting at non-negative address `base`.
pub open spec fn mem_load_block(m: Seq<i64>, base: int, block: Seq<i64>) -> Seq<i64>
    recommends
        base >= 0,
    decreases block.len(),
{
    if block.len() == 0 {
        m
    } else {
        mem_load_block(mem_write(m, base, block[0]), base + 1, block.skip(1))
    }
}

/// Writing then reading: the written cell holds the new value and every
/// other cell is unchanged; the written region never shrinks.
pub broadcast proof fn lemma_mem_write_read(m: Seq<i64>, a: int, v: i64, i: int)
    requires
        a >= 0,
    ensures
        #[trigger] mem_read(mem_write(m, a, v), i) == if i == a {
            v
        } else {
            mem_read(m, i)
        },
        mem_write(m, a, v).len() == if a < m.len() {
            m.len() as int
        } else {
            a + 1
        },
{
}

/// What loading a block does, cell by cell: addresses covered by the block
/// take its words, all others keep their old values, and the written
/// region grows exactly far enough to cover the block.
pub proof fn lemma_mem_load_block_read(m: Seq<i64>, base: int, block: Seq<i64>, i: int)
    requires
        base >= 0,
    ensures
        mem_load_block(m, base, block).len() == if block.len() == 0 {
            m.len() as int
        } else if base + block.len() > m.len() {
            base + block.len()
        } else {
            m.len() as int
        },
        mem_read(mem_load_block(m, base, block), i) == if base <= i < base + block.len() {
            block[i - base]
        } else {
            mem_read(m, i)
        },
    decreases block.len(),
{
    if block.len() > 0 {
        let m1 = mem_write(m, base, block[0]);
        lemma_mem_write_read(m, base, block[0], i);
        lemma_mem_load_block_read(m1, base + 1, block.skip(1), i);
    }
}

/// Loading a program of length N at base zero into an empty memory and
/// dumping it back returns exactly the program: the round trip is the
/// identity on programs.
pub proof fn lemma_load_block_round_trip(program: Seq<i64>)
    ensures
        mem_load_block(Seq::<i64>::empty(), 0, program) == program,
{
    let loaded = mem_load_block(Seq::<i64>::empty(), 0, program);
    assert forall|i: int| 0 <= i < program.len() implies loaded[i] == program[i] by {
        lemma_mem_load_block_read(Seq::<i64>::empty(), 0, program, i);
    }
    lemma_mem_load_block_read(Seq::<i64>::empty(), 0, program, 0);
    assert(loaded =~= program);
}

/// The sparse, growable word store.
pub struct Memory {
    cells: Vec<i64>,
}

impl View for Memory {
    type V = Seq<i64>;

    closed spec fn view(&self) -> Seq<i64> {
        self.cells@
    }
}

impl Memory {
    /// A memory with nothing written: every address reads as zero and a
    /// dump of it is empty.
    pub fn new() -> (r: Memory)
        ensures
            r@ == Seq::<i64>::empty(),
    {
        Memory { cells: Vec::new() }
    }

    /// Read one word.  Fails exactly when the address is negative; an
    /// address beyond the written region reads as zero.
    pub fn fetch(&self, addr: Word) -> (r: Result<Word, CpuFault>)
        ensures
            addr.0 >= 0 ==> r == Ok::<Word, CpuFault>(Word(mem_read(self@, addr.0 as int))),
            addr.0 < 0 ==> r == Err::<Word, CpuFault>(CpuFault::MemoryFault),
    {
        if addr.0 < 0 {
            return Err(CpuFault::MemoryFault);
        }
        let a = addr.0 as u64;
        if a < self.cells.len() as u64 {
            Ok(Word(self.cells[a as usize]))
        } else {
            Ok(Word(0))
        }
    }

    /// Write one word.  Fails exactly when the address is negative, leaving
    /// the memory unchanged; otherwise the written region grows to cover
    /// the address.
    pub fn store(&mut self, addr: Word, value: Word) -> (r: Result<(), CpuFault>)
        ensures
            addr.0 >= 0 ==> r == Ok::<(), CpuFault>(()) && final(self)@ == mem_write(
                old(self)@,
                addr.0 as int,
                value.0,
            ),
            addr.0 < 0 ==> r == Err::<(), CpuFault>(CpuFault::MemoryFault) && final(self)@ == old(
                self,
            )@,
    {
        if addr.0 < 0 {
            return Err(CpuFault::MemoryFault);
        }
        let a = addr.0 as u64;
        if a < self.cells.len() as u64 {
            self.cells[a as usize] = value.0;
            assert(self@ =~= mem_write(old(self)@, addr.0 as int, value.0));
        } else {
            let ghost old_cells = self.cells@;
            while (self.cells.len() as u64) < a
                invariant
                    a == addr.0 as u64,
                    0 <= addr.0,
                    old_cells.len() <= self.cells.len(),
                    self.cells@.len() <= a,
                    forall|j: int|
                        0 <= j < old_cells.len() ==> #[trigger] self.cells@[j] == old_cells[j],
                    forall|j: int|
                        old_cells.len() <= j < self.cells@.len() ==> #[trigger] self.cells@[j]
                            == 0i64,
                decreases a - self.cells.len(),
            {
                self.cells.push(0);
            }
            self.cells.push(value.0);
            assert(self@ =~= mem_write(old(self)@, addr.0 as int, value.0));
        }
        Ok(())
    }

    /// Write a contiguous block starting at `base`.  Fails with a memory
    /// fault when `base` is negative and with an overflow fault when the
    /// address of some block word would not fit in a word; in both cases
    /// nothing is written.
    pub fn load(&mut self, base: Word, program: &[Word]) -> (r: Result<(), CpuFault>)
        ensures
            base.0 < 0 ==> r == Err::<(), CpuFault>(CpuFault::MemoryFault) && final(self)@ == old(
                self,
            )@,
            base.0 >= 0 && base.0 + program@.len() - 1 > i64::MAX ==> r == Err::<(), CpuFault>(
                CpuFault::Overflow,
            ) && final(self)@ == old(self)@,
            base.0 >= 0 && base.0 + program@.len() - 1 <= i64::MAX ==> r == Ok::<(), CpuFault>(())
                && final(self)@ == mem_load_block(
                old(self)@,
                base.0 as int,
                program@.map_values(|w: Word| w.0),
            ),
    {
        if base.0 < 0 {
            return Err(CpuFault::MemoryFault);
        }
        if program.len() > 0 {
            let last_offset = program.len() - 1;
            if last_offset as u64 > i64::MAX as u64
                || base.0.checked_add(last_offset as i64).is_none() {
                return Err(CpuFault::Overflow);
            }
        }
        let ghost words = program@.map_values(|w: Word| w.0);
        proof {
            assert(words.skip(0) =~= words);
        }
        let mut offset: usize = 0;
        while offset < program.len()
            invariant
                0 <= base.0,
                base.0 + program@.len() - 1 <= i64::MAX,
                offset <= program.len(),
                words == program@.map_values(|w: Word| w.0),
                mem_load_block(self@, base.0 + offset, words.skip(offset as int)) == mem_load_block(
                    old(self)@,
                    base.0 as int,
                    words,
                ),
            decreases program.len() - offset,
        {
            let addr = Word(base.0 + offset as i64);
            let value = program[offset];
            let ghost pre = self@;
            match self.store(addr, value) {
                Ok(()) => (),
                Err(f) => {
                    // unreachable: the address is non-negative
                    return Err(f);
                }
            }
            proof {
                assert(words.skip(offset as int)[0] == value.0);
                assert(words.skip(offset as int).skip(1) =~= words.skip(offset as int + 1));
            }
            offset = offset + 1;
        }
        proof {
            assert(words.skip(offset as int) =~= Seq::<i64>::empty());
        }
        Ok(())
    }

    /// Copy the whole written region, in address order from zero to the
    /// high-water mark, into `dest` (replacing its previous contents).
    pub fn dump(&self, dest: &mut Vec<Word>)
        ensures
            final(dest)@.len() == self@.len(),
            forall|i: int|
                0 <= i < self@.len() ==> #[trigger] final(dest)@[i] == Word(self@[i]),
    {
        dest.clear();
        let mut i: usize = 0;
        while i < self.cells.len()
            invariant
                i <= self.cells.len(),
                dest@.len() == i,
                self@ == self.cells@,
                forall|j: int| 0 <= j < i ==> #[trigger] dest@[j] == Word(self@[j]),
            decreases self.cells.len() - i,
        {
            dest.push(Word(self.cells[i]));
            i = i + 1;
        }
    }
}

} // verus!
