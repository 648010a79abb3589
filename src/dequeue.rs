use std::collections::VecDeque;
use vstd::prelude::*;

use crate::mask::{marked, shifted, Mask};

verus! {

/// Relies on `VecDeque`'s `IndexMut`: writes the cell at index `i` in place.
#[verifier::external_body]
fn set_cell(cells: &mut VecDeque<bool>, i: usize, value: bool)
    requires
        i < old(cells)@.len(),
    ensures
        final(cells)@ == old(cells)@.update(i as int, value),
{
    cells[i] = value;
}

/// Appends `count` clear cells at the back of `cells`.
fn push_clear(cells: &mut VecDeque<bool>, count: usize)
    ensures
        final(cells)@ == old(cells)@ + Seq::new(count as nat, |k: int| false),
{
    let mut i: usize = 0;
    while i < count
        invariant
            i <= count,
            cells@ == old(cells)@ + Seq::new(i as nat, |k: int| false),
        decreases count - i,
    {
        cells.push_back(false);
        i += 1;
        assert(cells@ =~= old(cells)@ + Seq::new(i as nat, |k: int| false));
    }
}

/// A window kept as a sequence of single-flag cells, the newest at the
/// back: the flag at offset `k` is the `k`-th cell from the back.
///
/// A shift appends fresh cells and never drops the aged ones, so the
/// sequence grows with every shift by at most `size`: memory is not bounded
/// over a long-lived stream. A shift by more than `size` starts over from
/// `size + 1` clear cells.
pub struct Dequeue {
    vec: VecDeque<bool>,
    size: usize,
}

impl Dequeue {
    /// A window of width `size` with every flag clear, one cell for each
    /// offset in `0..=size`.
    pub fn new(size: usize) -> (r: Self)
        requires
            size < usize::MAX,
        ensures
            r.wf(),
            r.width() == size,
            r.flags() == Seq::new(size as nat + 1, |k: int| false),
    {
        let mut vec: VecDeque<bool> = VecDeque::with_capacity(size + 1);
        push_clear(&mut vec, size + 1);
        let r = Dequeue { vec, size };
        assert(r.flags() =~= Seq::new(size as nat + 1, |k: int| false));
        r
    }
}

impl Mask for Dequeue {
    closed spec fn width(&self) -> nat {
        self.size as nat
    }

    closed spec fn flags(&self) -> Seq<bool> {
        Seq::new(self.size as nat + 1, |k: int| self.vec@[self.vec@.len() - 1 - k])
    }

    closed spec fn wf(&self) -> bool {
        self.vec@.len() > self.size
    }

    proof fn lemma_flags_len(&self) {
    }

    fn with_width(width: usize) -> (r: Self) {
        Dequeue::new(width)
    }

    fn bit(&self, n: usize) -> (r: bool) {
        if n > self.size {
            return false;
        }
        self.vec[self.vec.len() - n - 1]
    }

    fn set_bit(&mut self, n: usize) {
        if n > self.size {
            assert(marked(old(self).flags(), n as int) == old(self).flags());
            return;
        }
        let i: usize = self.vec.len() - n - 1;
        set_cell(&mut self.vec, i, true);
        assert(self.flags() =~= marked(old(self).flags(), n as int));
    }

    fn shl(&mut self, n: usize) {
        if n > self.size {
            self.vec.clear();
            push_clear(&mut self.vec, self.size + 1);
            assert(self.flags() =~= shifted(old(self).flags(), n as int));
            return;
        }
        push_clear(&mut self.vec, n);
        assert(self.flags() =~= shifted(old(self).flags(), n as int));
    }
}

} // verus!
