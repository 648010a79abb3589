use vstd::prelude::*;

verus! {

/// `flags` after every flag has aged by `n`: what stood at offset `k` now
/// stands at `k + n`, and whatever would go past the end is dropped.
pub open spec fn shifted(flags: Seq<bool>, n: int) -> Seq<bool> {
    Seq::new(flags.len(), |k: int| k >= n && flags[k - n])
}

/// `flags` with the flag at offset `n` set, or unchanged when `n` is past
/// the end.
pub open spec fn marked(flags: Seq<bool>, n: int) -> Seq<bool> {
    if 0 <= n < flags.len() {
        flags.update(n, true)
    } else {
        flags
    }
}

/// A window of flags that are addressed by offset, offset 0 being the most
/// recent position. A window of width `w` tracks the offsets `0..=w`;
/// reading or setting an offset past `w` is a harmless no-op.
pub trait Mask: Sized {
    /// The declared width.
    spec fn width(&self) -> nat;

    /// The flag at each offset `0..=width()`.
    spec fn flags(&self) -> Seq<bool>;

    /// The representation invariant.
    spec fn wf(&self) -> bool;

    proof fn lemma_flags_len(&self)
        requires
            self.wf(),
        ensures
            self.flags().len() == self.width() + 1,
    ;

    /// A window of the given width with every flag clear.
    fn with_width(width: usize) -> (r: Self)
        requires
            0 < width < usize::MAX,
        ensures
            r.wf(),
            r.width() == width,
            r.flags() == Seq::new(width as nat + 1, |k: int| false),
    ;

    /// Whether the flag at offset `pos` is set; false past the width.
    fn bit(&self, pos: usize) -> (r: bool)
        requires
            self.wf(),
        ensures
            r == (pos <= self.width() && self.flags()[pos as int]),
    ;

    /// Sets the flag at offset `n`; nothing happens past the width.
    fn set_bit(&mut self, n: usize)
        requires
            old(self).wf(),
        ensures
            final(self).wf(),
            final(self).width() == old(self).width(),
            final(self).flags() == marked(old(self).flags(), n as int),
    ;

    /// Ages every flag by `n`: the flag at offset `k` moves to `k + n`, and
    /// is dropped once `k + n` is past the width.
    fn shl(&mut self, n: usize)
        requires
            old(self).wf(),
        ensures
            final(self).wf(),
            final(self).width() == old(self).width(),
            final(self).flags() == shifted(old(self).flags(), n as int),
    ;
}

} // verus!
