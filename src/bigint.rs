use vstd::prelude::*;

use crate::mask::{marked, shifted, Mask};

verus! {

/// Whether bit `b` of the word `w` is set.
pub open spec fn bit_of(w: u64, b: u64) -> bool {
    (w >> b) & 1u64 == 1u64
}

/// The word whose low `t` bits are set (`1 <= t <= 64`).
pub open spec fn low_mask(t: u64) -> u64 {
    if t >= 64 {
        0xFFFF_FFFF_FFFF_FFFFu64
    } else {
        ((1u64 << t) - 1) as u64
    }
}

/// The flag at offset `k` of a word array laid out most significant word
/// first: offset `k` lives in bit `k % 64` of the `k / 64`-th word from the
/// end.
pub open spec fn flag_at(segs: Seq<u64>, k: int) -> bool {
    bit_of(segs[segs.len() - 1 - k / 64], (k % 64) as u64)
}

/// Word `j` of `segs` after the whole array, read as one integer, is shifted
/// left by `64 * seg + pos` bits (`pos < 64`).
pub open spec fn shifted_word(segs: Seq<u64>, j: int, seg: int, pos: u64) -> u64 {
    let hi: u64 = if j + seg < segs.len() {
        segs[j + seg] << pos
    } else {
        0u64
    };
    let lo: u64 = if pos > 0 && j + seg + 1 < segs.len() {
        segs[j + seg + 1] >> ((64 - pos) as u64)
    } else {
        0u64
    };
    hi | lo
}

proof fn lemma_bit_or(x: u64, y: u64, b: u64)
    by (bit_vector)
    requires
        b < 64,
    ensures
        bit_of(x | y, b) == (bit_of(x, b) || bit_of(y, b)),
{
}

proof fn lemma_bit_zero(b: u64)
    by (bit_vector)
    requires
        b < 64,
    ensures
        !bit_of(0u64, b),
{
}

proof fn lemma_bit_shl(x: u64, pos: u64, b: u64)
    by (bit_vector)
    requires
        pos < 64,
        b < 64,
    ensures
        bit_of(x << pos, b) == (b >= pos && bit_of(x, (b - pos) as u64)),
{
}

proof fn lemma_bit_shr(y: u64, pos: u64, b: u64)
    by (bit_vector)
    requires
        0 < pos < 64,
        b < 64,
    ensures
        bit_of(y >> ((64 - pos) as u64), b) == (b < pos && bit_of(y, (b + 64 - pos) as u64)),
{
}

proof fn lemma_bit_set(w: u64, p: u64, b: u64)
    by (bit_vector)
    requires
        p < 64,
        b < 64,
    ensures
        bit_of(w | (1u64 << p), b) == (b == p || bit_of(w, b)),
{
}

proof fn lemma_low_mask(x: u64, t: u64, b: u64)
    by (bit_vector)
    requires
        1 <= t <= 64,
        b < t,
    ensures
        bit_of(x & low_mask(t), b) == bit_of(x, b),
        (x & low_mask(t)) & !low_mask(t) == 0,
{
}

proof fn lemma_low_mask_set(w: u64, p: u64, t: u64)
    by (bit_vector)
    requires
        1 <= t <= 64,
        p < t,
        w & !low_mask(t) == 0,
    ensures
        (w | (1u64 << p)) & !low_mask(t) == 0,
{
}

proof fn lemma_above_mask(w: u64, t: u64, b: u64)
    by (bit_vector)
    requires
        1 <= t <= 64,
        t <= b < 64,
        w & !low_mask(t) == 0,
    ensures
        !bit_of(w, b),
{
}

/// The flag at offset `k` after a shift by `n` is the flag that stood at
/// `k - n` before it.
proof fn lemma_shifted_flag(segs: Seq<u64>, n: int, k: int)
    requires
        segs.len() > 0,
        n > 0,
        0 <= k < 64 * segs.len(),
    ensures
        bit_of(shifted_word(segs, segs.len() - 1 - k / 64, n / 64, (n % 64) as u64), (k % 64) as u64)
            == (k >= n && flag_at(segs, k - n)),
{
    let len = segs.len();
    let seg = n / 64;
    let pos = (n % 64) as u64;
    let q = k / 64;
    let b = (k % 64) as u64;
    let j = len - 1 - q;
    vstd::arithmetic::div_mod::lemma_fundamental_div_mod(k, 64);
    vstd::arithmetic::div_mod::lemma_fundamental_div_mod(n, 64);
    let hi: u64 = if j + seg < len {
        segs[j + seg] << pos
    } else {
        0u64
    };
    let lo: u64 = if pos > 0 && j + seg + 1 < len {
        segs[j + seg + 1] >> ((64 - pos) as u64)
    } else {
        0u64
    };
    assert(shifted_word(segs, j, seg, pos) == hi | lo);
    lemma_bit_or(hi, lo, b);
    lemma_bit_zero(b);
    if j + seg < len {
        lemma_bit_shl(segs[j + seg], pos, b);
    }
    if pos > 0 && j + seg + 1 < len {
        lemma_bit_shr(segs[j + seg + 1], pos, b);
    }
    if b >= pos {
        if q >= seg {
            vstd::arithmetic::div_mod::lemma_fundamental_div_mod_converse(
                k - n,
                64,
                q - seg,
                b - pos,
            );
        }
    } else {
        if q >= seg + 1 {
            vstd::arithmetic::div_mod::lemma_fundamental_div_mod_converse(
                k - n,
                64,
                q - seg - 1,
                b + 64 - pos,
            );
        }
    }
}

/// A window of `sz + 1` flags packed into 64-bit words, most significant
/// word first, so that the last word holds offsets `0..64`.
pub struct Bigint {
    /// The declared width: offsets `0..=sz` are tracked.
    sz: usize,
    /// The words, most significant first.
    segments: Vec<u64>,
    /// Keeps, in the first word, only the bits of offsets up to `sz`.
    msb_mask: u64,
}

impl Bigint {
    /// A window of width `sz` with every flag clear. A width of 0 is a
    /// configuration error and is not allowed.
    ///
    /// It holds `sz / 64 + 1` words, so that offset `sz` itself has a place
    /// also when `sz` is a multiple of 64.
    pub fn new(sz: usize) -> (r: Self)
        requires
            sz > 0,
        ensures
            r.wf(),
            r.width() == sz,
            r.flags() == Seq::new(sz as nat + 1, |k: int| false),
    {
        let top_bits: u64 = (sz % 64) as u64 + 1;
        let msb_mask: u64 = if top_bits == 64 {
            0xFFFF_FFFF_FFFF_FFFFu64
        } else {
            assert((1u64 << top_bits) >= 1) by (bit_vector)
                requires
                    top_bits < 64,
            ;
            (1u64 << top_bits) - 1
        };
        let words: usize = sz / 64 + 1;
        let mut segments: Vec<u64> = Vec::with_capacity(words);
        let mut i: usize = 0;
        while i < words
            invariant
                i <= words,
                segments@.len() == i,
                forall|j: int| 0 <= j < i ==> segments@[j] == 0u64,
            decreases words - i,
        {
            segments.push(0u64);
            i += 1;
        }
        let r = Bigint { sz, segments, msb_mask };
        proof {
            assert(0u64 & !msb_mask == 0) by (bit_vector);
            assert forall|k: int| 0 <= k <= sz implies !flag_at(r.segments@, k) by {
                lemma_bit_zero((k % 64) as u64);
            }
            assert(r.flags() =~= Seq::new(sz as nat + 1, |k: int| false));
        }
        r
    }

    /// The words that hold the flags, most significant first: offset `k`
    /// is bit `k % 64` of the `k / 64`-th word from the end, and every bit
    /// past offset `width()` is clear.
    pub fn segments(&self) -> (r: Vec<u64>)
        requires
            self.wf(),
        ensures
            r@.len() == self.width() / 64 + 1,
            forall|k: int| 0 <= k <= self.width() ==> flag_at(r@, k) == self.flags()[k],
            forall|k: int| self.width() < k < 64 * r@.len() ==> !flag_at(r@, k),
    {
        let mut r: Vec<u64> = Vec::with_capacity(self.segments.len());
        let mut i: usize = 0;
        while i < self.segments.len()
            invariant
                i <= self.segments@.len(),
                r@ == self.segments@.subrange(0, i as int),
            decreases self.segments@.len() - i,
        {
            r.push(self.segments[i]);
            i += 1;
            assert(r@ =~= self.segments@.subrange(0, i as int));
        }
        proof {
            let sz = self.sz as int;
            assert(r@ =~= self.segments@);
            vstd::arithmetic::div_mod::lemma_fundamental_div_mod(sz, 64);
            assert forall|k: int| sz < k < 64 * r@.len() implies !flag_at(r@, k) by {
                vstd::arithmetic::div_mod::lemma_fundamental_div_mod(k, 64);
                lemma_above_mask(r@[0], (sz % 64 + 1) as u64, (k % 64) as u64);
            }
        }
        r
    }
}

impl Mask for Bigint {
    closed spec fn width(&self) -> nat {
        self.sz as nat
    }

    closed spec fn flags(&self) -> Seq<bool> {
        Seq::new(self.sz as nat + 1, |k: int| flag_at(self.segments@, k))
    }

    closed spec fn wf(&self) -> bool {
        &&& self.sz > 0
        &&& self.segments@.len() == self.sz / 64 + 1
        &&& self.msb_mask == low_mask((self.sz % 64 + 1) as u64)
        &&& self.segments@[0] & !self.msb_mask == 0
    }

    proof fn lemma_flags_len(&self) {
    }

    fn with_width(width: usize) -> (r: Self) {
        Bigint::new(width)
    }

    fn bit(&self, n: usize) -> (r: bool) {
        if n > self.sz {
            return false;
        }
        let segment: usize = self.segments.len() - (n / 64) - 1;
        let pos: u64 = (n % 64) as u64;
        (self.segments[segment] >> pos) & 1 == 1
    }

    fn set_bit(&mut self, n: usize) {
        if n > self.sz {
            proof {
                assert(marked(old(self).flags(), n as int) == old(self).flags());
            }
            return;
        }
        let ghost before = self.segments@;
        let i: usize = self.segments.len() - (n / 64) - 1;
        let pos: u64 = (n % 64) as u64;
        let w: u64 = self.segments[i] | (1u64 << pos);
        self.segments.set(i, w);
        proof {
            let sz = self.sz as int;
            vstd::arithmetic::div_mod::lemma_fundamental_div_mod(n as int, 64);
            vstd::arithmetic::div_mod::lemma_fundamental_div_mod(sz, 64);
            if i == 0 {
                lemma_low_mask_set(before[0], pos, (sz % 64 + 1) as u64);
            }
            assert forall|k: int| 0 <= k <= sz implies flag_at(self.segments@, k) == (k == n
                || flag_at(before, k)) by {
                vstd::arithmetic::div_mod::lemma_fundamental_div_mod(k, 64);
                if k / 64 == n / 64 {
                    lemma_bit_set(before[i as int], pos, (k % 64) as u64);
                }
            }
            assert(before == old(self).segments@);
            assert forall|k: int| 0 <= k <= sz implies #[trigger] self.flags()[k] == marked(
                old(self).flags(),
                n as int,
            )[k] by {
                assert(old(self).flags()[k] == flag_at(before, k));
            }
            assert(self.flags() =~= marked(old(self).flags(), n as int));
        }
    }

    fn shl(&mut self, n: usize) {
        if n == 0 {
            proof {
                assert(shifted(old(self).flags(), 0) =~= old(self).flags());
            }
            return;
        }
        let ghost before = self.segments@;
        let len: usize = self.segments.len();
        let pos: u64 = (n % 64) as u64;
        let seg: usize = n / 64;
        let mut i: usize = 0;
        while i < len
            invariant
                self.sz == old(self).sz,
                self.msb_mask == old(self).msb_mask,
                before == old(self).segments@,
                len == before.len(),
                self.segments@.len() == len,
                seg == n / 64,
                pos == n % 64,
                i <= len,
                forall|j: int| 0 <= j < i ==> self.segments@[j] == shifted_word(before, j, seg as int, pos),
                forall|j: int| i <= j < len ==> self.segments@[j] == before[j],
            decreases len - i,
        {
            let mut w: u64 = 0;
            if seg < len - i {
                w = self.segments[i + seg] << pos;
            }
            if pos > 0 && seg < len - i - 1 {
                w = w | (self.segments[i + seg + 1] >> (64 - pos));
            }
            proof {
                let x = w;
                assert(x | 0u64 == x) by (bit_vector);
            }
            assert(w == shifted_word(before, i as int, seg as int, pos));
            self.segments.set(i, w);
            i += 1;
        }
        let top: u64 = self.segments[0] & self.msb_mask;
        self.segments.set(0, top);
        proof {
            let sz = self.sz as int;
            let t = (sz % 64 + 1) as u64;
            let mid = self.segments@.update(0, shifted_word(before, 0, seg as int, pos));
            lemma_low_mask(shifted_word(before, 0, seg as int, pos), t, 0);
            vstd::arithmetic::div_mod::lemma_fundamental_div_mod(sz, 64);
            assert forall|k: int| 0 <= k <= sz implies flag_at(self.segments@, k) == (k >= n
                && flag_at(before, k - n)) by {
                vstd::arithmetic::div_mod::lemma_fundamental_div_mod(k, 64);
                lemma_shifted_flag(before, n as int, k);
                if k / 64 == sz / 64 {
                    lemma_low_mask(shifted_word(before, 0, seg as int, pos), t, (k % 64) as u64);
                }
            }
            assert(self.flags() =~= shifted(old(self).flags(), n as int));
        }
    }
}

} // verus!
