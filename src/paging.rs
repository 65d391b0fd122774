//! The Sv39 page-table walker: resolve, map and unmap over page tables kept
//! in a `PhysMem`.
use vstd::prelude::*;

use crate::addr::{vpn, Addr, PageSize, PhysAddr, VirtAddr, VirtSize, lemma_vpn_bound, lemma_canonical_vpn, spec_round_up};
use crate::phys::{MemState, PhysMem, lemma_set_entry_all, lemma_zeroed_all, lemma_pool_prefix};
use crate::pte::{pa_limit, pte_encode, pte_leaf, pte_pointer, pte_ppn, pte_valid, Pte, PteAttrs, ATTR_V, lemma_pte_roundtrip};

verus! {

/// The table visited at `level` by a walk for `va` from the root table in
/// frame `root`.
pub open spec fn table_at(m: MemState, root: int, va: usize, level: int) -> int {
    if level >= 2 {
        root
    } else if level == 1 {
        pte_ppn(m.entry(root, vpn(va, 2) as int)) as int
    } else {
        pte_ppn(m.entry(pte_ppn(m.entry(root, vpn(va, 2) as int)) as int, vpn(va, 1) as int)) as int
    }
}

/// The entry read at `level` by a walk for `va`.
pub open spec fn entry_on_path(m: MemState, root: int, va: usize, level: int) -> u64 {
    m.entry(table_at(m, root, va, level), vpn(va, level) as int)
}

/// Does the walk for `va` get down to `level`? It does when every entry above
/// points to a table.
pub open spec fn reaches(m: MemState, root: int, va: usize, level: int) -> bool {
    if level >= 2 {
        true
    } else if level == 1 {
        pte_pointer(entry_on_path(m, root, va, 2))
    } else {
        pte_pointer(entry_on_path(m, root, va, 2)) && pte_pointer(entry_on_path(m, root, va, 1))
    }
}

/// The level at which the walk for `va` ends at a leaf, if it does.
pub open spec fn leaf_level(m: MemState, root: int, va: usize) -> Option<int> {
    if pte_leaf(entry_on_path(m, root, va, 2)) {
        Some(2)
    } else if reaches(m, root, va, 1) && pte_leaf(entry_on_path(m, root, va, 1)) {
        Some(1)
    } else if reaches(m, root, va, 0) && pte_leaf(entry_on_path(m, root, va, 0)) {
        Some(0)
    } else {
        None
    }
}

/// The level of the entry that unmapping `va` clears, if any: a leaf met on
/// the walk, or any valid entry of the last-level table, which ends the walk
/// whatever its attributes.
pub open spec fn unmap_level(m: MemState, root: int, va: usize) -> Option<int> {
    if pte_leaf(entry_on_path(m, root, va, 2)) {
        Some(2)
    } else if reaches(m, root, va, 1) && pte_leaf(entry_on_path(m, root, va, 1)) {
        Some(1)
    } else if reaches(m, root, va, 0) && pte_valid(entry_on_path(m, root, va, 0)) {
        Some(0)
    } else {
        None
    }
}

/// The leaf entry that translates `va`, if any.
pub open spec fn walk_leaf(m: MemState, root: int, va: usize) -> Option<u64> {
    match leaf_level(m, root, va) {
        Some(l) => Some(entry_on_path(m, root, va, l)),
        None => None,
    }
}

/// A table that a walk may use and write: inside the store and not in the pool.
pub open spec fn table_ok(m: MemState, t: int) -> bool {
    m.holds(t) && !m.free.contains(t as u64)
}

/// The tables that the walk for `va` visits at `lo` and above lie in the
/// store, are not free, and are distinct.
pub open spec fn path_ok_from(m: MemState, root: int, va: usize, lo: int) -> bool {
    &&& table_ok(m, table_at(m, root, va, 2))
    &&& lo <= 1 ==> table_ok(m, table_at(m, root, va, 1)) && table_at(m, root, va, 1) != table_at(
        m,
        root,
        va,
        2,
    )
    &&& lo <= 0 ==> table_ok(m, table_at(m, root, va, 0)) && table_at(m, root, va, 0) != table_at(
        m,
        root,
        va,
        1,
    ) && table_at(m, root, va, 0) != table_at(m, root, va, 2)
}

/// Every table that the walk for `va` reaches lies in the store, is not free,
/// and is met only once.
pub open spec fn path_ok(m: MemState, root: int, va: usize) -> bool {
    path_ok_from(
        m,
        root,
        va,
        if reaches(m, root, va, 0) {
            0
        } else if reaches(m, root, va, 1) {
            1
        } else {
            2
        },
    )
}

/// The entry that links the table in frame `f` into the table above.
pub open spec fn pointer_to(f: int) -> u64 {
    pte_encode(f * 4096, 1)
}

/// Does the walk for `va` find something mapped at `l` that forbids a new
/// leaf at level `target`? A leaf does, and at `target` any valid entry does.
pub open spec fn occupied(m: MemState, root: int, va: usize, l: int, target: int) -> bool {
    &&& reaches(m, root, va, l)
    &&& pte_valid(entry_on_path(m, root, va, l))
    &&& pte_leaf(entry_on_path(m, root, va, l)) || l == target
}

/// Would mapping `va` at level `target` meet a mapping already there?
pub open spec fn map_conflict(m: MemState, root: int, va: usize, target: int) -> bool {
    ||| occupied(m, root, va, 2, target)
    ||| target <= 1 && occupied(m, root, va, 1, target)
    ||| target <= 0 && occupied(m, root, va, 0, target)
}

/// The lowest level at or above `target` that the walk for `va` reaches.
pub open spec fn stop_level(m: MemState, root: int, va: usize, target: int) -> int {
    if reaches(m, root, va, target) {
        target
    } else if target + 1 <= 2 && reaches(m, root, va, target + 1) {
        target + 1
    } else {
        2
    }
}

/// Number of tables that mapping `va` at level `target` has to add.
pub open spec fn tables_needed(m: MemState, root: int, va: usize, target: int) -> int {
    stop_level(m, root, va, target) - target
}

/// Starting at `table`, the table of `level`, add a fresh table for each
/// level down to `target`, taking each from the pool and linking it into the
/// table above, then write `leaf` at `target`. Stops with `OOM` when the pool
/// runs dry, keeping what was linked so far.
pub open spec fn install(m: MemState, table: int, level: int, target: int, va: usize, leaf: u64) -> (
    Result<(), MapError>,
    MemState,
)
    decreases level - target,
{
    if level <= target {
        (Ok(()), m.set_entry(table, vpn(va, target) as int, leaf))
    } else if m.free.len() == 0 {
        (Err(MapError::OOM), m)
    } else {
        let f = m.free.last() as int;
        let m1 = m.with_free(m.free.drop_last()).zeroed(f).set_entry(
            table,
            vpn(va, level) as int,
            pointer_to(f),
        );
        install(m1, f, level - 1, target, va, leaf)
    }
}

/// What mapping the frame at `pa` at `va` with a page of `size` and
/// attributes `attrs` does to memory `m`, and what it returns.
pub open spec fn map_one_spec(m: MemState, root: int, pa: int, va: usize, size: PageSize, attrs: u8) -> (
    Result<(), MapError>,
    MemState,
) {
    let target = size.spec_level() as int;
    if map_conflict(m, root, va, target) {
        (Err(MapError::AlreadyMapped), m)
    } else {
        let s = stop_level(m, root, va, target);
        install(m, table_at(m, root, va, s), s, target, va, pte_encode(pa, attrs | 1))
    }
}

/// Mapping `n` consecutive 4 KiB pages, one after the other, stopping at the
/// first failure.
pub open spec fn map_pages(m: MemState, root: int, pa: int, va: int, n: nat, attrs: u8) -> (
    Result<(), MapError>,
    MemState,
)
    decreases n,
{
    if n == 0 {
        (Ok(()), m)
    } else {
        let (r, m1) = map_one_spec(m, root, pa, va as usize, PageSize::Page4k, attrs);
        if r is Err {
            (r, m1)
        } else {
            map_pages(m1, root, pa + 4096, va + 4096, (n - 1) as nat, attrs)
        }
    }
}

/// What mapping `len` bytes at `va` to the frames from `pa` on does: the
/// checks on the arguments come first and change nothing, then each page is
/// mapped in turn.
pub open spec fn map_range_spec(m: MemState, root: int, pa: usize, va: usize, len: usize, attrs: u8) -> (
    Result<(), MapError>,
    MemState,
) {
    if pa % 4096 != 0 || va % 4096 != 0 {
        (Err(MapError::Unaligned), m)
    } else {
        match spec_round_up(len, PageSize::Page4k) {
            None => (Err(MapError::NoneError), m),
            Some(l) => if va + l > usize::MAX || pa + l > usize::MAX || pa + l > pa_limit() {
                (Err(MapError::NoneError), m)
            } else {
                map_pages(m, root, pa as int, va as int, (l / 4096) as nat, attrs)
            },
        }
    }
}

/// `install` fails exactly when the pool holds fewer frames than it needs,
/// and otherwise takes exactly that many off its top.
pub proof fn lemma_install_outcome(m: MemState, table: int, level: int, target: int, va: usize, leaf: u64)
    requires
        m.wf(),
        target <= level,
    ensures
        install(m, table, level, target, va, leaf).1.wf(),
        install(m, table, level, target, va, leaf).0 == if m.free.len() < level - target {
            Err::<(), MapError>(MapError::OOM)
        } else {
            Ok(())
        },
        m.free.len() < level - target ==> install(m, table, level, target, va, leaf).1.free.len() == 0,
        m.free.len() >= level - target ==> install(m, table, level, target, va, leaf).1.free
            == m.free.subrange(0, m.free.len() - (level - target)),
    decreases level - target,
{
    if level <= target {
        lemma_set_entry_all(m, table, vpn(va, target) as int, leaf);
        assert(m.free.subrange(0, m.free.len() as int) =~= m.free);
    } else if m.free.len() == 0 {
    } else {
        let f = m.free.last() as int;
        let mw = m.with_free(m.free.drop_last());
        lemma_pool_prefix(m, m.free.len() - 1);
        assert(mw == m.with_free(m.free.subrange(0, m.free.len() - 1)));
        lemma_zeroed_all(mw, f);
        lemma_set_entry_all(mw.zeroed(f), table, vpn(va, level) as int, pointer_to(f));
        let m1 = mw.zeroed(f).set_entry(table, vpn(va, level) as int, pointer_to(f));
        lemma_install_outcome(m1, f, level - 1, target, va, leaf);
        if m.free.len() >= level - target {
            assert(m1.free.subrange(0, m1.free.len() - (level - 1 - target)) =~= m.free.subrange(
                0,
                m.free.len() - (level - target),
            ));
        }
    }
}

/// On a walk whose tables are sound, `install` ends with `leaf` at `target`
/// on the walk for `va`.
pub proof fn lemma_install_path(
    m: MemState,
    root: int,
    va: usize,
    table: int,
    level: int,
    target: int,
    leaf: u64,
)
    requires
        m.wf(),
        0 <= target <= level <= 2,
        m.free.len() >= level - target,
        path_ok_from(m, root, va, level),
        reaches(m, root, va, level),
        table == table_at(m, root, va, level),
    ensures
        reaches(install(m, table, level, target, va, leaf).1, root, va, target),
        entry_on_path(install(m, table, level, target, va, leaf).1, root, va, target) == leaf,
        path_ok_from(install(m, table, level, target, va, leaf).1, root, va, target),
    decreases level - target,
{
    lemma_vpn_bound(va);
    if level <= target {
        lemma_set_entry_all(m, table, vpn(va, target) as int, leaf);
        let m1 = m.set_entry(table, vpn(va, target) as int, leaf);
        assert(table_at(m1, root, va, 2) == table_at(m, root, va, 2));
        if target <= 1 {
            assert(table_at(m1, root, va, 1) == table_at(m, root, va, 1));
        }
        if target <= 0 {
            assert(table_at(m1, root, va, 0) == table_at(m, root, va, 0));
        }
    } else {
        let f = m.free.last() as int;
        let mw = m.with_free(m.free.drop_last());
        lemma_pool_prefix(m, m.free.len() - 1);
        assert(mw == m.with_free(m.free.subrange(0, m.free.len() - 1)));
        lemma_zeroed_all(mw, f);
        lemma_set_entry_all(mw.zeroed(f), table, vpn(va, level) as int, pointer_to(f));
        let m1 = mw.zeroed(f).set_entry(table, vpn(va, level) as int, pointer_to(f));
        assert(m.free.contains(f as u64));
        assert(m.holds(f));
        lemma_pte_roundtrip(f * 4096, 1);
        assert(1u8 & 1 == 1 && 1u8 & 0xa == 0) by (bit_vector);
        assert((f * 4096) / 4096 == f);
        assert(pte_pointer(pointer_to(f)));
        assert(!m1.free.contains(f as u64)) by {
            if m1.free.contains(f as u64) {
                let k = choose|k: int| 0 <= k < m1.free.len() && m1.free[k] == f as u64;
                assert(m.free[k] == m.free[m.free.len() - 1]);
            }
        }
        assert forall|x: u64| m1.free.contains(x) implies m.free.contains(x) by {
            let k = choose|k: int| 0 <= k < m1.free.len() && m1.free[k] == x;
            assert(m.free[k] == x);
        }
        assert(table_at(m1, root, va, 2) == table_at(m, root, va, 2));
        if level <= 1 {
            assert(table_at(m1, root, va, 1) == table_at(m, root, va, 1));
        }
        assert(table_at(m1, root, va, level - 1) == f);
        assert(path_ok_from(m1, root, va, level - 1));
        assert(reaches(m1, root, va, level));
        assert(entry_on_path(m1, root, va, level) == pointer_to(f));
        assert(reaches(m1, root, va, level - 1));
        lemma_install_path(m1, root, va, f, level - 1, target, leaf);
    }
}

/// The result of walking the page table for some virtual address.
#[derive(Clone, Copy, Debug)]
pub struct PageWalkResult {
    /// The entries read on the walk, by level.
    pub parts: [Option<Pte>; 3],
    /// The leaf entry that ends the walk, if any.
    pub last_level: Option<Pte>,
}

/// Errors of mapping.
#[derive(Clone, Copy, Debug, PartialEq, Eq, Structural)]
pub enum MapError {
    /// An address computation overflowed.
    NoneError,
    /// The given addresses are unaligned.
    Unaligned,
    /// The address has been mapped already on some level of the page table.
    AlreadyMapped,
    /// The pool of free frames ran out.
    OOM,
}

/// Errors of unmapping.
#[derive(Clone, Copy, Debug, PartialEq, Eq, Structural)]
pub enum UnmapError {
    /// The address was not mapped.
    NotMapped,
}

/// A page table, named by the physical address of its frame.
#[derive(Clone, Copy, Debug, PartialEq, Eq, Structural)]
pub struct PageTable {
    pub base: PhysAddr,
}

impl PageTable {
    /// Frame number of the root table.
    pub open spec fn root(self) -> int {
        self.base.0 as int / 4096
    }

    /// The table whose frame starts at `base`.
    pub fn from_raw(base: PhysAddr) -> (r: PageTable)
        requires
            base.0 % 4096 == 0,
        ensures
            r.base == base,
    {
        PageTable { base }
    }

    /// Gets the base address.
    pub fn get_base(&self) -> (r: PhysAddr)
        ensures
            r == self.base,
    {
        self.base
    }

    fn root_frame(&self) -> (r: u64)
        ensures
            r == self.root(),
    {
        (self.base.0 / 4096) as u64
    }

    /// Gets entry `num` of the table.
    pub fn entry(&self, mem: &PhysMem, num: u16) -> (r: Pte)
        requires
            mem.inv(),
            num < 512,
        ensures
            r.0 == mem@.entry(self.root(), num as int),
    {
        Pte(mem.read_entry(self.root_frame(), num as usize))
    }

    /// Resolves a virtual address, returning the entries met on the walk.
    pub fn resolve(&self, mem: &PhysMem, va: VirtAddr) -> (r: Result<PageWalkResult, MapError>)
        requires
            mem.inv(),
        ensures
            r is Ok,
            forall|l: int|
                0 <= l <= 2 ==> #[trigger] r->Ok_0.parts@[l] == if reaches(mem@, self.root(), va.0, l) {
                    Some(Pte(entry_on_path(mem@, self.root(), va.0, l)))
                } else {
                    None
                },
            r->Ok_0.last_level == match walk_leaf(mem@, self.root(), va.0) {
                Some(e) => Some(Pte(e)),
                None => None,
            },
    {
        let ghost m = mem@;
        let ghost root = self.root();
        let mut table = self.root_frame();
        let mut level: usize = 2;
        let mut part2: Option<Pte> = None;
        let mut part1: Option<Pte> = None;
        let mut part0: Option<Pte> = None;
        let mut last: Option<Pte> = None;
        loop
            invariant_except_break
                last is None,
                part2 == if level < 2 {
                    Some(Pte(entry_on_path(m, root, va.0, 2)))
                } else {
                    None::<Pte>
                },
                part1 == if level < 1 {
                    Some(Pte(entry_on_path(m, root, va.0, 1)))
                } else {
                    None::<Pte>
                },
                part0 is None,
            invariant
                level <= 2,
                m == mem@,
                mem.inv(),
                root == self.root(),
                reaches(m, root, va.0, level as int),
                table == table_at(m, root, va.0, level as int),
            ensures
                level <= 2,
                reaches(m, root, va.0, level as int),
                pte_pointer(entry_on_path(m, root, va.0, level as int)) ==> level == 0,
                part2 == Some(Pte(entry_on_path(m, root, va.0, 2))),
                part1 == if level <= 1 {
                    Some(Pte(entry_on_path(m, root, va.0, 1)))
                } else {
                    None::<Pte>
                },
                part0 == if level == 0 {
                    Some(Pte(entry_on_path(m, root, va.0, 0)))
                } else {
                    None::<Pte>
                },
                last == if pte_leaf(entry_on_path(m, root, va.0, level as int)) {
                    Some(Pte(entry_on_path(m, root, va.0, level as int)))
                } else {
                    None::<Pte>
                },
            decreases level,
        {
            let pte = Pte(mem.read_entry(table, va.index(level)));
            if level == 2 {
                part2 = Some(pte);
            } else if level == 1 {
                part1 = Some(pte);
            } else {
                part0 = Some(pte);
            }
            if !pte.is_valid() {
                break;
            }
            if pte.is_leaf() {
                last = Some(pte);
                break;
            }
            if level == 0 {
                break;
            }
            table = pte.decompose().0;
            level = level - 1;
        }
        let r = PageWalkResult { parts: [part0, part1, part2], last_level: last };
        assert(r.parts@[0] == part0 && r.parts@[1] == part1 && r.parts@[2] == part2);
        Ok(r)
    }

    /// Removes the entry that translates `va`: a leaf met on the walk, or the
    /// valid entry of the last-level table that ends it. Fails with
    /// `NotMapped` when the walk meets an invalid entry first. The tables on
    /// the way are kept, and the translation cache is left to the caller.
    pub fn virt_unmap_one(&self, mem: &mut PhysMem, va: VirtAddr) -> (r: Result<(), UnmapError>)
        requires
            old(mem).inv(),
        ensures
            final(mem).inv(),
            r is Err <==> unmap_level(old(mem)@, self.root(), va.0) is None,
            r is Err ==> final(mem)@ == old(mem)@,
            r is Ok ==> final(mem)@ == old(mem)@.set_entry(
                table_at(old(mem)@, self.root(), va.0, unmap_level(old(mem)@, self.root(), va.0)->0),
                vpn(va.0, unmap_level(old(mem)@, self.root(), va.0)->0) as int,
                0,
            ),
    {
        let ghost m = mem@;
        let ghost root = self.root();
        let mut table = self.root_frame();
        let mut level: usize = 2;
        loop
            invariant
                level <= 2,
                m == mem@,
                m == old(mem)@,
                mem.inv(),
                root == self.root(),
                reaches(m, root, va.0, level as int),
                table == table_at(m, root, va.0, level as int),
                forall|l: int| level < l <= 2 ==> !pte_leaf(#[trigger] entry_on_path(m, root, va.0, l)),
            decreases level,
        {
            let idx = va.index(level);
            let pte = Pte(mem.read_entry(table, idx));
            if !pte.is_valid() {
                return Err(UnmapError::NotMapped);
            }
            if pte.is_leaf() || level == 0 {
                mem.write_entry(table, idx, 0);
                return Ok(());
            }
            table = pte.decompose().0;
            level = level - 1;
        }
    }

    /// Maps the page of `size` at virtual address `va` to the frame at
    /// physical address `pa`, adding `Valid` to `attrs`. Missing tables on the
    /// way are taken from the pool, zeroed and linked in; when the pool runs
    /// out the tables linked so far stay. The translation cache is left to
    /// the caller.
    pub fn virt_map_one(
        &self,
        mem: &mut PhysMem,
        pa: PhysAddr,
        va: VirtAddr,
        size: PageSize,
        attrs: PteAttrs,
    ) -> (r: Result<(), MapError>)
        requires
            old(mem).inv(),
            pa.0 as int % size.spec_size() == 0,
            va.0 as int % size.spec_size() == 0,
            pa.0 < pa_limit(),
        ensures
            final(mem).inv(),
            (r, final(mem)@) == map_one_spec(old(mem)@, self.root(), pa.0 as int, va.0, size, attrs.0),
            r == if map_conflict(old(mem)@, self.root(), va.0, size.spec_level() as int) {
                Err(MapError::AlreadyMapped)
            } else if old(mem)@.free.len() < tables_needed(
                old(mem)@,
                self.root(),
                va.0,
                size.spec_level() as int,
            ) {
                Err(MapError::OOM)
            } else {
                Ok(())
            },
            r == Err::<(), MapError>(MapError::AlreadyMapped) ==> final(mem)@ == old(mem)@,
            r is Ok ==> final(mem)@.free == old(mem)@.free.subrange(
                0,
                old(mem)@.free.len() - tables_needed(old(mem)@, self.root(), va.0, size.spec_level() as int),
            ),
            r is Ok && path_ok(old(mem)@, self.root(), va.0) ==> reaches(
                final(mem)@,
                self.root(),
                va.0,
                size.spec_level() as int,
            ) && entry_on_path(final(mem)@, self.root(), va.0, size.spec_level() as int) == pte_encode(
                pa.0 as int,
                attrs.0 | 1,
            ),
    {
        let leaf_attrs = attrs.union(PteAttrs(ATTR_V));
        let ghost va0 = va.0;
        let cva = va.canonicalize();
        proof {
            lemma_canonical_vpn(va0);
            assert(ATTR_V == 1);
        }
        let ghost m = mem@;
        let ghost root = self.root();
        let target = size.level();
        let mut table = self.root_frame();
        let mut level: usize = 2;
        loop
            invariant
                target == size.spec_level(),
                target <= level <= 2,
                m == mem@,
                m == old(mem)@,
                mem.inv(),
                root == self.root(),
                va0 == va.0,
                forall|l: int| 0 <= l <= 2 ==> #[trigger] vpn(cva.0, l) == vpn(va0, l),
                reaches(m, root, va0, level as int),
                table == table_at(m, root, va0, level as int),
                forall|l: int|
                    level < l <= 2 ==> !#[trigger] occupied(m, root, va0, l, target as int),
            ensures
                target <= level <= 2,
                reaches(m, root, va0, level as int),
                table == table_at(m, root, va0, level as int),
                !pte_valid(entry_on_path(m, root, va0, level as int)),
                forall|l: int|
                    level < l <= 2 ==> !#[trigger] occupied(m, root, va0, l, target as int),
            decreases level,
        {
            let pte = Pte(mem.read_entry(table, cva.index(level)));
            if !pte.is_valid() {
                break;
            }
            if pte.is_leaf() || level == target {
                assert(occupied(m, root, va0, level as int, target as int));
                return Err(MapError::AlreadyMapped);
            }
            table = pte.decompose().0;
            level = level - 1;
        }
        let ghost stop = level as int;
        let leaf = Pte::new(pa, leaf_attrs);
        assert(!map_conflict(m, root, va0, target as int));
        assert(stop_level(m, root, va0, target as int) == stop);
        while level > target
            invariant
                target == size.spec_level(),
                target <= level <= stop,
                stop <= 2,
                va0 == va.0,
                m == old(mem)@,
                root == self.root(),
                leaf.0 == pte_encode(pa.0 as int, attrs.0 | 1),
                m.wf(),
                !map_conflict(m, root, va0, target as int),
                stop_level(m, root, va0, target as int) == stop,
                mem.inv(),
                forall|l: int| 0 <= l <= 2 ==> #[trigger] vpn(cva.0, l) == vpn(va0, l),
                install(mem@, table as int, level as int, target as int, va0, leaf.0) == install(
                    m,
                    table_at(m, root, va0, stop),
                    stop,
                    target as int,
                    va0,
                    leaf.0,
                ),
            decreases level,
        {
            let ghost before = mem@;
            let f = match mem.alloc_frame() {
                None => {
                    proof {
                        lemma_install_outcome(m, table_at(m, root, va0, stop), stop, target as int, va0, leaf.0);
                    }
                    return Err(MapError::OOM);
                },
                Some(f) => f,
            };
            proof {
                let k = before.free.len() - 1;
                assert(before.holds(before.free[k] as int));
            }
            let fppn = (f.0 / 4096) as u64;
            mem.zero_frame(fppn);
            let p = Pte::new(f, PteAttrs(ATTR_V));
            mem.write_entry(table, cva.index(level), p.0);
            table = fppn;
            level = level - 1;
        }
        mem.write_entry(table, cva.index(target), leaf.0);
        proof {
            lemma_install_outcome(m, table_at(m, root, va0, stop), stop, target as int, va0, leaf.0);
            if path_ok(m, root, va0) && m.free.len() >= stop - target {
                lemma_install_path(m, root, va0, table_at(m, root, va0, stop), stop, target as int, leaf.0);
            }
        }
        Ok(())
    }

    /// Takes a frame from the pool and zeroes it, making an empty table.
    pub fn alloc_table(mem: &mut PhysMem) -> (r: Option<PageTable>)
        requires
            old(mem).inv(),
        ensures
            final(mem).inv(),
            old(mem)@.free.len() == 0 ==> r is None && final(mem)@ == old(mem)@,
            old(mem)@.free.len() > 0 ==> r == Some(PageTable { base: PhysAddr((old(mem)@.free.last() * 4096) as usize) })
                && final(mem)@ == old(mem)@.with_free(old(mem)@.free.drop_last()).zeroed(old(mem)@.free.last() as int),
            r is Some ==> forall|i: int| #[trigger] final(mem)@.entry(r->0.root(), i) == 0,
    {
        match mem.alloc_frame() {
            None => None,
            Some(f) => {
                proof {
                    lemma_zeroed_all(mem@, f.0 as int / 4096);
                }
                mem.zero_frame((f.0 / 4096) as u64);
                Some(PageTable { base: f })
            },
        }
    }

    /// Sets every entry of the table to the unmapped entry.
    pub fn clear(&self, mem: &mut PhysMem)
        requires
            old(mem).inv(),
        ensures
            final(mem).inv(),
            final(mem)@ == old(mem)@.zeroed(self.root()),
    {
        mem.zero_frame(self.root_frame());
    }

    /// Takes a frame from the pool and maps it as the 4 KiB page at `va`.
    pub fn virt_alloc_one(&self, mem: &mut PhysMem, va: VirtAddr, attrs: PteAttrs) -> (r: Result<(), MapError>)
        requires
            old(mem).inv(),
            va.0 % 4096 == 0,
        ensures
            final(mem).inv(),
            old(mem)@.free.len() == 0 ==> r == Err::<(), MapError>(MapError::OOM) && final(mem)@ == old(mem)@,
            old(mem)@.free.len() > 0 ==> (r, final(mem)@) == map_one_spec(
                old(mem)@.with_free(old(mem)@.free.drop_last()),
                self.root(),
                old(mem)@.free.last() * 4096,
                va.0,
                PageSize::Page4k,
                attrs.0,
            ),
    {
        let ghost before = mem@;
        match mem.alloc_frame() {
            None => Err(MapError::OOM),
            Some(page) => {
                proof {
                    let k = before.free.len() - 1;
                    assert(before.holds(before.free[k] as int));
                }
                self.virt_map_one(mem, page, va, PageSize::Page4k, attrs)
            },
        }
    }

    /// Maps `len` bytes at `va`, rounded up to whole 4 KiB pages, to the
    /// frames from `pa` on. The addresses must be page aligned and the range
    /// must fit the address space; after that each page is mapped in turn,
    /// and a failure leaves the pages before it mapped.
    pub fn virt_map(&self, mem: &mut PhysMem, pa: PhysAddr, va: VirtAddr, len: usize, attrs: PteAttrs) -> (r: Result<(), MapError>)
        requires
            old(mem).inv(),
        ensures
            final(mem).inv(),
            (r, final(mem)@) == map_range_spec(old(mem)@, self.root(), pa.0, va.0, len, attrs.0),
    {
        let ghost m = mem@;
        if pa.0 % 4096 != 0 || va.0 % 4096 != 0 {
            return Err(MapError::Unaligned);
        }
        let l = match VirtSize(len).round_up(PageSize::Page4k) {
            None => {
                return Err(MapError::NoneError);
            },
            Some(l) => l.0,
        };
        let va_end = match va.0.checked_add(l) {
            None => {
                return Err(MapError::NoneError);
            },
            Some(e) => e,
        };
        let pa_end = match pa.0.checked_add(l) {
            None => {
                return Err(MapError::NoneError);
            },
            Some(e) => e,
        };
        if pa_end as u64 > 0x100_0000_0000_0000u64 {
            return Err(MapError::NoneError);
        }
        assert(l as int % 4096 == 0);
        let mut remaining: usize = l / 4096;
        let mut cur_pa = pa.0;
        let mut cur_va = va.0;
        while remaining > 0
            invariant
                mem.inv(),
                m == old(mem)@,
                cur_pa + remaining * 4096 == pa_end,
                cur_va + remaining * 4096 == va_end,
                pa_end <= pa_limit(),
                va_end <= usize::MAX,
                cur_pa % 4096 == 0,
                cur_va % 4096 == 0,
                map_pages(mem@, self.root(), cur_pa as int, cur_va as int, remaining as nat, attrs.0)
                    == map_range_spec(m, self.root(), pa.0, va.0, len, attrs.0),
            decreases remaining,
        {
            let r = self.virt_map_one(mem, PhysAddr(cur_pa), VirtAddr(cur_va), PageSize::Page4k, attrs);
            match r {
                Err(e) => {
                    return Err(e);
                },
                Ok(()) => {},
            }
            remaining = remaining - 1;
            cur_pa = cur_pa + 4096;
            cur_va = cur_va + 4096;
        }
        Ok(())
    }
}

} // verus!
