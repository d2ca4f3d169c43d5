//! The circular byte memory that programs run on.
use vstd::prelude::*;

verus! {

/// The number of cells of a tape unless another length is asked for.
pub const DEFAULT_TAPE_LEN: usize = 30000;

/// The position left of `p` on a circular tape of `n` cells.
pub open spec fn left_of(p: nat, n: nat) -> nat {
    if p == 0 {
        (n - 1) as nat
    } else {
        (p - 1) as nat
    }
}

/// The position right of `p` on a circular tape of `n` cells.
pub open spec fn right_of(p: nat, n: nat) -> nat {
    if p + 1 == n {
        0
    } else {
        p + 1
    }
}

/// `b + 1` modulo 256.
pub open spec fn wrapping_incr(b: u8) -> u8 {
    ((b + 1) % 256) as u8
}

/// `b - 1` modulo 256.
pub open spec fn wrapping_decr(b: u8) -> u8 {
    ((b + 255) % 256) as u8
}

/// A fixed-length circular tape of byte cells with one pointer.
pub struct Tape {
    cells: Vec<u8>,
    ptr: usize,
}

impl Tape {
    /// The cells' values.
    pub closed spec fn cells(&self) -> Seq<u8> {
        self.cells@
    }

    /// The pointer's position.
    pub closed spec fn pos(&self) -> nat {
        self.ptr as nat
    }

    /// The tape has a cell, and the pointer is on one.
    pub open spec fn wf(&self) -> bool {
        self.cells().len() > 0 && self.pos() < self.cells().len()
    }

    /// The value of the cell under the pointer.
    pub open spec fn cell(&self) -> u8 {
        self.cells()[self.pos() as int]
    }

    /// A tape of `len` zeroed cells with the pointer on the first.
    pub fn new(len: usize) -> (r: Tape)
        requires
            len > 0,
        ensures
            r.wf(),
            r.cells() == Seq::new(len as nat, |i: int| 0u8),
            r.pos() == 0,
    {
        let mut cells: Vec<u8> = Vec::new();
        let mut i: usize = 0;
        while i < len
            invariant
                i <= len,
                cells@ == Seq::new(i as nat, |j: int| 0u8),
            decreases len - i,
        {
            cells.push(0u8);
            i = i + 1;
            assert(cells@ =~= Seq::new(i as nat, |j: int| 0u8));
        }
        Tape { cells, ptr: 0 }
    }

    /// The number of cells.
    pub fn len(&self) -> (r: usize)
        ensures
            r == self.cells().len(),
    {
        self.cells.len()
    }

    /// The pointer's position.
    pub fn pointer(&self) -> (r: usize)
        ensures
            r == self.pos(),
    {
        self.ptr
    }

    /// The value of the cell at `i`.
    pub fn get(&self, i: usize) -> (r: u8)
        requires
            i < self.cells().len(),
        ensures
            r == self.cells()[i as int],
    {
        self.cells[i]
    }

    /// The value of the cell under the pointer.
    pub fn current(&self) -> (r: u8)
        requires
            self.wf(),
        ensures
            r == self.cell(),
    {
        self.cells[self.ptr]
    }

    /// Moves the pointer one cell left, from the first cell to the last.
    pub fn move_left(&mut self)
        requires
            old(self).wf(),
        ensures
            final(self).wf(),
            final(self).cells() == old(self).cells(),
            final(self).pos() == left_of(old(self).pos(), old(self).cells().len()),
    {
        if self.ptr == 0 {
            self.ptr = self.cells.len() - 1;
        } else {
            self.ptr = self.ptr - 1;
        }
    }

    /// Moves the pointer one cell right, from the last cell to the first.
    pub fn move_right(&mut self)
        requires
            old(self).wf(),
        ensures
            final(self).wf(),
            final(self).cells() == old(self).cells(),
            final(self).pos() == right_of(old(self).pos(), old(self).cells().len()),
    {
        if self.ptr == self.cells.len() - 1 {
            self.ptr = 0;
        } else {
            self.ptr = self.ptr + 1;
        }
    }

    /// Adds one to the cell under the pointer, wrapping 255 to 0.
    pub fn increment(&mut self)
        requires
            old(self).wf(),
        ensures
            final(self).wf(),
            final(self).pos() == old(self).pos(),
            final(self).cells() == old(self).cells().update(
                old(self).pos() as int,
                wrapping_incr(old(self).cell()),
            ),
    {
        let v = self.cells[self.ptr];
        self.cells[self.ptr] = v.wrapping_add(1);
    }

    /// Subtracts one from the cell under the pointer, wrapping 0 to 255.
    pub fn decrement(&mut self)
        requires
            old(self).wf(),
        ensures
            final(self).wf(),
            final(self).pos() == old(self).pos(),
            final(self).cells() == old(self).cells().update(
                old(self).pos() as int,
                wrapping_decr(old(self).cell()),
            ),
    {
        let v = self.cells[self.ptr];
        self.cells[self.ptr] = v.wrapping_sub(1);
    }

    /// Writes `b` into the cell under the pointer.
    pub fn store(&mut self, b: u8)
        requires
            old(self).wf(),
        ensures
            final(self).wf(),
            final(self).pos() == old(self).pos(),
            final(self).cells() == old(self).cells().update(old(self).pos() as int, b),
    {
        self.cells[self.ptr] = b;
    }
}

/// Cell arithmetic wraps at both ends of a byte, and the pointer wraps
/// across both ends of a tape of `n` cells.
pub proof fn lemma_wrapping_edges(n: nat)
    requires
        n > 0,
    ensures
        wrapping_incr(255) == 0,
        wrapping_decr(0) == 255,
        left_of(0, n) == n - 1,
        right_of((n - 1) as nat, n) == 0,
{
}

} // verus!
