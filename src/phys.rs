//! Physical memory held in a store of 64-bit words, and the LIFO pool of
//! free 4 KiB frames that page tables and mappings are taken from.
//!
//! The pool is a stack of frame numbers kept beside the frames rather than
//! a list threaded through the free frames themselves, so a frame's contents
//! never decide what the pool hands out next. Callers that share a pool
//! between cores serialise `alloc_frame` and `free` with a lock of their own;
//! `&mut` access makes each call here atomic.
use vstd::prelude::*;

use crate::addr::PhysAddr;
use crate::pte::pa_limit;
use crate::span::Span;

verus! {

/// Number of 64-bit words in one frame.
pub const FRAME_WORDS: usize = 512;

/// What a `PhysMem` holds: the frame number of its first frame, its number of
/// frames, the words of all frames in order, and the stack of free frame
/// numbers, whose last element is the next one handed out.
pub struct MemState {
    pub base: nat,
    pub frames: nat,
    pub words: Seq<u64>,
    pub free: Seq<u64>,
}

impl MemState {
    /// Is frame `f` part of the backing store?
    pub open spec fn holds(self, f: int) -> bool {
        self.base <= f < self.base + self.frames
    }

    /// Position of word `i` of frame `f` in the store.
    pub open spec fn index(self, f: int, i: int) -> int {
        (f - self.base) * 512 + i
    }

    /// Word `i` of the table in frame `f`; outside the store every word reads
    /// as the unmapped entry.
    pub open spec fn entry(self, f: int, i: int) -> u64 {
        if self.holds(f) && 0 <= i < 512 {
            self.words[self.index(f, i)]
        } else {
            0
        }
    }

    /// The state after writing `v` to word `i` of frame `f`; a write outside
    /// the store changes nothing.
    pub open spec fn set_entry(self, f: int, i: int, v: u64) -> MemState {
        if self.holds(f) && 0 <= i < 512 {
            MemState { words: self.words.update(self.index(f, i), v), ..self }
        } else {
            self
        }
    }

    /// The state after filling frame `f` with zeroes.
    pub open spec fn zeroed(self, f: int) -> MemState {
        if self.holds(f) {
            MemState {
                words: Seq::new(
                    self.words.len(),
                    |j: int|
                        if self.index(f, 0) <= j < self.index(f, 0) + 512 {
                            0u64
                        } else {
                            self.words[j]
                        },
                ),
                ..self
            }
        } else {
            self
        }
    }

    /// The same memory with another pool of free frames.
    pub open spec fn with_free(self, free: Seq<u64>) -> MemState {
        MemState { free, ..self }
    }

    /// Is the frame at physical address `pa` waiting in the pool?
    pub open spec fn is_free(self, pa: int) -> bool {
        exists|k: int| 0 <= k < self.free.len() && self.free[k] as int * 4096 == pa
    }

    pub open spec fn wf(self) -> bool {
        &&& self.words.len() == self.frames * 512
        &&& (self.base + self.frames) * 4096 <= pa_limit()
        &&& (self.base + self.frames) * 4096 <= usize::MAX
        &&& forall|k: int| 0 <= k < self.free.len() ==> self.holds(#[trigger] self.free[k] as int)
        &&& forall|k1: int, k2: int|
            0 <= k1 < self.free.len() && 0 <= k2 < self.free.len() && k1 != k2 ==> #[trigger] self.free[k1]
                != #[trigger] self.free[k2]
    }
}

/// Writing a word changes no other word.
pub proof fn lemma_set_entry(m: MemState, f: int, i: int, v: u64, g: int, j: int)
    requires
        m.wf(),
    ensures
        m.set_entry(f, i, v).wf(),
        m.set_entry(f, i, v).free == m.free,
        m.set_entry(f, i, v).entry(g, j) == if g == f && i == j && m.holds(f) && 0 <= i < 512 {
            v
        } else {
            m.entry(g, j)
        },
{
}

/// Zeroing a frame changes no word of another frame.
pub proof fn lemma_zeroed(m: MemState, f: int, g: int, j: int)
    requires
        m.wf(),
    ensures
        m.zeroed(f).wf(),
        m.zeroed(f).free == m.free,
        m.zeroed(f).entry(g, j) == if g == f {
            0
        } else {
            m.entry(g, j)
        },
{
    if m.holds(f) && m.holds(g) && 0 <= j < 512 && g != f {
        assert(m.index(g, j) < m.index(f, 0) || m.index(g, j) >= m.index(f, 0) + 512) by (nonlinear_arith)
            requires
                g != f,
                0 <= j < 512,
                m.index(g, j) == (g - m.base) * 512 + j,
                m.index(f, 0) == (f - m.base) * 512,
        ;
    }
    if m.holds(g) && 0 <= j < 512 {
        assert(0 <= m.index(g, j) < m.words.len()) by (nonlinear_arith)
            requires
                m.holds(g),
                0 <= j < 512,
                m.index(g, j) == (g - m.base) * 512 + j,
                m.words.len() == m.frames * 512,
                m.base <= g < m.base + m.frames,
        ;
    }
}

/// Writing a word changes no other word, for every word at once.
pub proof fn lemma_set_entry_all(m: MemState, f: int, i: int, v: u64)
    requires
        m.wf(),
    ensures
        m.set_entry(f, i, v).wf(),
        m.set_entry(f, i, v).free == m.free,
        m.set_entry(f, i, v).base == m.base,
        m.set_entry(f, i, v).frames == m.frames,
        forall|g: int, j: int|
            #[trigger] m.set_entry(f, i, v).entry(g, j) == if g == f && i == j && m.holds(f) && 0 <= i
                < 512 {
                v
            } else {
                m.entry(g, j)
            },
{
    assert forall|g: int, j: int|
        #[trigger] m.set_entry(f, i, v).entry(g, j) == if g == f && i == j && m.holds(f) && 0 <= i
            < 512 {
            v
        } else {
            m.entry(g, j)
        } by {
        lemma_set_entry(m, f, i, v, g, j);
    }
}

/// Zeroing a frame changes no word of another frame, for every word at once.
pub proof fn lemma_zeroed_all(m: MemState, f: int)
    requires
        m.wf(),
    ensures
        m.zeroed(f).wf(),
        m.zeroed(f).free == m.free,
        m.zeroed(f).base == m.base,
        m.zeroed(f).frames == m.frames,
        forall|g: int, j: int|
            #[trigger] m.zeroed(f).entry(g, j) == if g == f {
                0
            } else {
                m.entry(g, j)
            },
{
    assert forall|g: int, j: int|
        #[trigger] m.zeroed(f).entry(g, j) == if g == f {
            0
        } else {
            m.entry(g, j)
        } by {
        lemma_zeroed(m, f, g, j);
    }
}

/// Taking frames off the top of the pool keeps the state well formed.
pub proof fn lemma_pool_prefix(m: MemState, n: int)
    requires
        m.wf(),
        0 <= n <= m.free.len(),
    ensures
        m.with_free(m.free.subrange(0, n)).wf(),
{
}

/// Does span `s` share an address with the frame numbered `f`?
pub open spec fn overlaps(s: Span, f: int) -> bool {
    (if s.lo() >= f * 4096 {
        s.lo() as int
    } else {
        f * 4096
    }) < (if s.hi() <= f * 4096 + 4096 {
        s.hi() as int
    } else {
        f * 4096 + 4096
    })
}

/// Does one of the spans share an address with frame `f`?
pub open spec fn overlaps_any(reserved: Seq<Span>, f: int) -> bool {
    exists|k: int| 0 <= k < reserved.len() && overlaps(#[trigger] reserved[k], f)
}

/// The frames numbered from `lo` up to `hi` that no span touches, lowest first.
pub open spec fn unreserved(reserved: Seq<Span>, lo: int, hi: int) -> Seq<u64>
    decreases hi - lo,
{
    if hi <= lo {
        Seq::empty()
    } else if overlaps_any(reserved, hi - 1) {
        unreserved(reserved, lo, hi - 1)
    } else {
        unreserved(reserved, lo, hi - 1).push((hi - 1) as u64)
    }
}

proof fn lemma_unreserved_below(reserved: Seq<Span>, lo: int, hi: int)
    requires
        0 <= lo,
        hi <= u64::MAX,
    ensures
        forall|k: int|
            0 <= k < unreserved(reserved, lo, hi).len() ==> lo <= #[trigger] unreserved(reserved, lo, hi)[k]
                < hi,
    decreases hi - lo,
{
    if hi > lo {
        lemma_unreserved_below(reserved, lo, hi - 1);
        let s = unreserved(reserved, lo, hi - 1);
        if !overlaps_any(reserved, hi - 1) {
            assert forall|k: int| 0 <= k < s.len() + 1 implies lo <= #[trigger] s.push((hi - 1) as u64)[k] < hi by {
                if k < s.len() {
                    assert(s.push((hi - 1) as u64)[k] == s[k]);
                }
            }
        }
    }
}

/// Physical memory: a run of 4 KiB frames kept as 64-bit words, and the pool
/// of the frames that are free.
pub struct PhysMem {
    base: u64,
    frames: u64,
    words: Vec<u64>,
    free: Vec<u64>,
}

impl View for PhysMem {
    type V = MemState;

    closed spec fn view(&self) -> MemState {
        MemState {
            base: self.base as nat,
            frames: self.frames as nat,
            words: self.words@,
            free: self.free@,
        }
    }
}

impl PhysMem {
    pub open spec fn inv(&self) -> bool {
        &&& self@.wf()
    }

    /// Makes a store of `frames` zeroed frames starting at physical address
    /// `base`, with an empty pool.
    pub fn new(base: PhysAddr, frames: usize) -> (r: PhysMem)
        requires
            base.0 % 4096 == 0,
            base.0 + frames * 4096 <= pa_limit(),
            base.0 + frames * 4096 <= usize::MAX,
        ensures
            r.inv(),
            r@.base == base.0 / 4096,
            r@.frames == frames,
            r@.free.len() == 0,
            forall|f: int, i: int| #[trigger] r@.entry(f, i) == 0,
    {
        let n: usize = frames * FRAME_WORDS;
        let mut words: Vec<u64> = Vec::with_capacity(n);
        let mut k: usize = 0;
        while k < n
            invariant
                k <= n,
                words@.len() == k,
                forall|j: int| 0 <= j < k ==> words@[j] == 0,
            decreases n - k,
        {
            words.push(0);
            k = k + 1;
        }
        let r = PhysMem { base: (base.0 / 4096) as u64, frames: frames as u64, words, free: Vec::new() };
        r
    }

    /// Number of frames of the store.
    pub fn frame_count(&self) -> (r: usize)
        requires
            self.inv(),
        ensures
            r == self@.frames,
    {
        self.frames as usize
    }

    /// Number of frames waiting in the pool.
    pub fn free_count(&self) -> (r: usize)
        ensures
            r == self@.free.len(),
    {
        self.free.len()
    }

    /// Reads word `idx` of the table in frame `table`.
    pub fn read_entry(&self, table: u64, idx: usize) -> (r: u64)
        requires
            self.inv(),
        ensures
            r == self@.entry(table as int, idx as int),
    {
        if self.base <= table && table - self.base < self.frames && idx < FRAME_WORDS {
            let i = ((table - self.base) as usize) * FRAME_WORDS + idx;
            proof {
                lemma_zeroed(self@, table as int, table as int, idx as int);
            }
            self.words[i]
        } else {
            0
        }
    }

    /// Writes word `idx` of the table in frame `table`.
    pub fn write_entry(&mut self, table: u64, idx: usize, v: u64)
        requires
            old(self).inv(),
        ensures
            final(self).inv(),
            final(self)@ == old(self)@.set_entry(table as int, idx as int, v),
    {
        if self.base <= table && table - self.base < self.frames && idx < FRAME_WORDS {
            let i = ((table - self.base) as usize) * FRAME_WORDS + idx;
            proof {
                lemma_zeroed(self@, table as int, table as int, idx as int);
            }
            self.words.set(i, v);
        }
    }

    /// Fills frame `frame` with zeroes.
    pub fn zero_frame(&mut self, frame: u64)
        requires
            old(self).inv(),
        ensures
            final(self).inv(),
            final(self)@ == old(self)@.zeroed(frame as int),
    {
        if self.base <= frame && frame - self.base < self.frames {
            let start = ((frame - self.base) as usize) * FRAME_WORDS;
            proof {
                lemma_zeroed(self@, frame as int, frame as int, 511);
            }
            let ghost before = self@;
            let mut k: usize = 0;
            while k < FRAME_WORDS
                invariant
                    k <= FRAME_WORDS,
                    start == before.index(frame as int, 0),
                    start + 512 <= self.words@.len(),
                    self.base == before.base,
                    self.frames == before.frames,
                    self.free@ == before.free,
                    self.words@.len() == before.words.len(),
                    forall|j: int|
                        0 <= j < self.words@.len() ==> #[trigger] self.words@[j] == if start <= j < start
                            + k {
                            0u64
                        } else {
                            before.words[j]
                        },
                decreases FRAME_WORDS - k,
            {
                self.words.set(start + k, 0);
                k = k + 1;
            }
            assert(self@.words =~= before.zeroed(frame as int).words);
        }
    }

    /// Takes the most recently freed frame out of the pool; `None` when the
    /// pool is empty. The frame's contents are whatever it last held.
    pub fn alloc_frame(&mut self) -> (r: Option<PhysAddr>)
        requires
            old(self).inv(),
        ensures
            final(self).inv(),
            old(self)@.free.len() == 0 ==> r is None && final(self)@ == old(self)@,
            old(self)@.free.len() > 0 ==> r == Some(PhysAddr((old(self)@.free.last() * 4096) as usize))
                && final(self)@ == old(self)@.with_free(old(self)@.free.drop_last()),
    {
        match self.free.pop() {
            None => None,
            Some(f) => {
                proof {
                    assert(self@.free =~= old(self)@.free.drop_last());
                    assert(old(self)@.holds(f as int));
                }
                Some(PhysAddr((f * 4096) as usize))
            },
        }
    }

    /// Puts the frame at `addr` back into the pool; it is the next one handed out.
    pub fn free(&mut self, addr: PhysAddr)
        requires
            old(self).inv(),
            addr.0 % 4096 == 0,
            old(self)@.holds(addr.0 as int / 4096),
            !old(self)@.is_free(addr.0 as int),
        ensures
            final(self).inv(),
            final(self)@ == old(self)@.with_free(old(self)@.free.push((addr.0 / 4096) as u64)),
    {
        let f = (addr.0 / 4096) as u64;
        self.free.push(f);
        proof {
            let m = old(self)@;
            assert forall|k: int| 0 <= k < m.free.len() implies m.free[k] != f by {
                if m.free[k] == f {
                    assert(m.free[k] as int * 4096 == addr.0);
                }
            }
            assert(self@ == m.with_free(m.free.push(f)));
        }
    }

    /// Fills an empty pool with every frame of the store from `first` on
    /// that overlaps none of the `reserved` spans (an image, a RAM disk).
    /// The highest such frame is handed out first.
    pub fn free_unreserved(&mut self, first: PhysAddr, reserved: &[Span])
        requires
            old(self).inv(),
            old(self)@.free.len() == 0,
            first.0 % 4096 == 0,
        ensures
            final(self).inv(),
            final(self)@ == old(self)@.with_free(
                unreserved(
                    reserved@,
                    if first.0 as int / 4096 >= old(self)@.base {
                        first.0 as int / 4096
                    } else {
                        old(self)@.base as int
                    },
                    (old(self)@.base + old(self)@.frames) as int,
                ),
            ),
    {
        let start: u64 = if (first.0 / 4096) as u64 >= self.base {
            (first.0 / 4096) as u64
        } else {
            self.base
        };
        let end = self.base + self.frames;
        let mut f = start;
        let ghost lo = start as int;
        let ghost m = self@;
        assert(m.free =~= Seq::<u64>::empty());
        assert(m.with_free(Seq::<u64>::empty()) == m);
        if f > end {
            return;
        }
        while f < end
            invariant
                lo <= f <= end,
                m.base <= lo,
                end == m.base + m.frames,
                self.inv(),
                self@ == m.with_free(unreserved(reserved@, lo, f as int)),
                m.wf(),
            decreases end - f,
        {
            assert(f * 4096 + 4096 <= usize::MAX) by (nonlinear_arith)
                requires
                    f < end,
                    end * 4096 <= usize::MAX,
            ;
            let page: usize = (f * 4096) as usize;
            let frame = Span::new(page, page + 4096);
            let mut hit = false;
            let mut j: usize = 0;
            while j < reserved.len()
                invariant
                    j <= reserved@.len(),
                    lo <= f < end,
                    m.base <= lo,
                    end == m.base + m.frames,
                    self.inv(),
                    self@ == m.with_free(unreserved(reserved@, lo, f as int)),
                    m.wf(),
                    page == f * 4096,
                    frame.lo() == f * 4096,
                    frame.hi() == f * 4096 + 4096,
                    hit == exists|k: int| 0 <= k < j && overlaps(#[trigger] reserved@[k], f as int),
                decreases reserved@.len() - j,
            {
                if frame.intersect(reserved[j]).is_some() {
                    hit = true;
                }
                j = j + 1;
            }
            if !hit {
                proof {
                    assert(page as int / 4096 == f);
                    assert(self@.holds(f as int));
                    lemma_unreserved_below(reserved@, lo, f as int);
                    if self@.is_free(page as int) {
                        let k = choose|k: int| 0 <= k < self@.free.len() && self@.free[k] as int * 4096 == page;
                        assert(self@.free == unreserved(reserved@, lo, f as int));
                        assert(unreserved(reserved@, lo, f as int)[k] < f);
                    }
                }
                self.free(PhysAddr(page));
            }
            f = f + 1;
        }
    }
}

} // verus!
