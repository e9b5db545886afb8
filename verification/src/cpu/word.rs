//! The machine's native value type: a signed 64-bit integer used uniformly
//! for addresses, packed opcode words and plain data.  All arithmetic on
//! words is overflow-checked and reports failure instead of wrapping.

use vstd::prelude::*;

use crate::cpu::fault::CpuFault;

verus! {

/// One machine word.  Ordering and equality are those of the underlying
/// integer.
#[derive(Clone, Copy, Debug, PartialEq, Eq, Structural, Hash)]
pub struct Word(pub i64);

/// Whether the mathematical sum of `a` and `b` is representable as an `i64`.
pub open spec fn add_in_range(a: int, b: int) -> bool {
    i64::MIN <= a + b <= i64::MAX
}

/// Whether the mathematical product of `a` and `b` is representable as an `i64`.
pub open spec fn mul_in_range(a: int, b: int) -> bool {
    i64::MIN <= a * b <= i64::MAX
}

impl Word {
    /// Overflow-checked addition of two words.
    pub fn checked_add(&self, other: &Word) -> (r: Result<Word, CpuFault>)
        ensures
            add_in_range(self.0 as int, other.0 as int) ==> r == Ok::<Word, CpuFault>(
                Word((self.0 + other.0) as i64),
            ),
            !add_in_range(self.0 as int, other.0 as int) ==> r == Err::<Word, CpuFault>(
                CpuFault::Overflow,
            ),
    {
        match self.0.checked_add(other.0) {
            Some(total) => Ok(Word(total)),
            None => Err(CpuFault::Overflow),
        }
    }

    /// Overflow-checked addition of a word and a non-negative displacement.
    /// Fails if the displacement itself does not fit in an `i64`.
    pub fn checked_add_usize(&self, other: &usize) -> (r: Result<Word, CpuFault>)
        ensures
            (*other <= i64::MAX && add_in_range(self.0 as int, *other as int)) ==> r == Ok::<
                Word,
                CpuFault,
            >(Word((self.0 + *other) as i64)),
            !(*other <= i64::MAX && add_in_range(self.0 as int, *other as int)) ==> r == Err::<
                Word,
                CpuFault,
            >(CpuFault::Overflow),
    {
        if *other as u64 > i64::MAX as u64 {
            return Err(CpuFault::Overflow);
        }
        let n: i64 = *other as i64;
        match self.0.checked_add(n) {
            Some(total) => Ok(Word(total)),
            None => Err(CpuFault::Overflow),
        }
    }

    /// Overflow-checked multiplication of two words.
    pub fn checked_mul(&self, other: &Word) -> (r: Result<Word, CpuFault>)
        ensures
            mul_in_range(self.0 as int, other.0 as int) ==> r == Ok::<Word, CpuFault>(
                Word((self.0 * other.0) as i64),
            ),
            !mul_in_range(self.0 as int, other.0 as int) ==> r == Err::<Word, CpuFault>(
                CpuFault::Overflow,
            ),
    {
        match self.0.checked_mul(other.0) {
            Some(product) => Ok(Word(product)),
            None => Err(CpuFault::Overflow),
        }
    }
}

/// Checked addition as a free function, convenient to pass by value.
pub fn add(a: Word, b: Word) -> (r: Result<Word, CpuFault>)
    ensures
        add_in_range(a.0 as int, b.0 as int) ==> r == Ok::<Word, CpuFault>(Word((a.0 + b.0) as i64)),
        !add_in_range(a.0 as int, b.0 as int) ==> r == Err::<Word, CpuFault>(CpuFault::Overflow),
{
    a.checked_add(&b)
}

/// Checked multiplication as a free function, convenient to pass by value.
pub fn mul(a: Word, b: Word) -> (r: Result<Word, CpuFault>)
    ensures
        mul_in_range(a.0 as int, b.0 as int) ==> r == Ok::<Word, CpuFault>(Word((a.0 * b.0) as i64)),
        !mul_in_range(a.0 as int, b.0 as int) ==> r == Err::<Word, CpuFault>(CpuFault::Overflow),
{
    a.checked_mul(&b)
}

} // verus!
