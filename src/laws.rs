//! Laws that relate the operations of the address, pool and page-table
//! modules to each other.
use vstd::prelude::*;

use crate::addr::{lemma_mask, page_offset, spec_canonical, spec_round_up, vpn, PageSize};
use crate::paging::{
    entry_on_path, install, lemma_install_outcome, lemma_install_path, map_conflict, unmap_level,
    map_one_spec, map_range_spec, path_ok, pointer_to, reaches, stop_level, table_at, walk_leaf, MapError,
};
use crate::phys::{lemma_pool_prefix, lemma_set_entry_all, lemma_zeroed_all, MemState};
use crate::pte::{lemma_pte_roundtrip, pa_limit, pte_encode, pte_flags, pte_ppn, pte_valid};

verus! {

proof fn lemma_round_up_4k(a: usize)
    by (bit_vector)
    requires
        (a + 0xfff) as usize >= a,
    ensures
        ((a + 0xfff) as usize) & !0xfffusize >= a,
        (((((a + 0xfff) as usize) & !0xfffusize) + 0xfff) as usize) >= ((a + 0xfff) as usize) & !0xfffusize,
        ((((((a + 0xfff) as usize) & !0xfffusize) + 0xfff) as usize) & !0xfffusize) == ((a + 0xfff) as usize)
            & !0xfffusize,
{
}

proof fn lemma_round_up_2m(a: usize)
    by (bit_vector)
    requires
        (a + 0x1f_ffff) as usize >= a,
    ensures
        ((a + 0x1f_ffff) as usize) & !0x1f_ffffusize >= a,
        (((((a + 0x1f_ffff) as usize) & !0x1f_ffffusize) + 0x1f_ffff) as usize) >= ((a + 0x1f_ffff) as usize) & !0x1f_ffffusize,
        ((((((a + 0x1f_ffff) as usize) & !0x1f_ffffusize) + 0x1f_ffff) as usize) & !0x1f_ffffusize) == ((a
            + 0x1f_ffff) as usize) & !0x1f_ffffusize,
{
}

proof fn lemma_round_up_1g(a: usize)
    by (bit_vector)
    requires
        (a + 0x3fff_ffff) as usize >= a,
    ensures
        ((a + 0x3fff_ffff) as usize) & !0x3fff_ffffusize >= a,
        (((((a + 0x3fff_ffff) as usize) & !0x3fff_ffffusize) + 0x3fff_ffff) as usize) >= ((a + 0x3fff_ffff) as usize) & !0x3fff_ffffusize,
        ((((((a + 0x3fff_ffff) as usize) & !0x3fff_ffffusize) + 0x3fff_ffff) as usize)
            & !0x3fff_ffffusize) == ((a + 0x3fff_ffff) as usize) & !0x3fff_ffffusize,
{
}

/// Rounding up is idempotent, lands on a multiple of the page size, and
/// never goes below the address.
pub proof fn lemma_round_up_laws(a: usize, size: PageSize)
    requires
        spec_round_up(a, size) is Some,
    ensures
        spec_round_up(spec_round_up(a, size)->0, size) == spec_round_up(a, size),
        spec_round_up(a, size)->0 as int % size.spec_size() == 0,
        spec_round_up(a, size)->0 >= a,
{
    let m = size.spec_mask();
    let b = (a + m) as usize;
    let r = b & !m;
    lemma_mask(b, size);
    assert(spec_round_up(a, size) == Some(r));
    lemma_mask(r, size);
    match size {
        PageSize::Page4k => lemma_round_up_4k(a),
        PageSize::Page2m => lemma_round_up_2m(a),
        PageSize::Page1g => lemma_round_up_1g(a),
    }
    let c = (r + m) as usize;
    lemma_mask(c, size);
}

proof fn lemma_reassemble_bits(v: usize)
    by (bit_vector)
    ensures
        ((v >> 30usize) & 0x1ff) * 0x4000_0000 + ((v >> 21usize) & 0x1ff) * 0x20_0000 + ((v >> 12usize)
            & 0x1ff) * 0x1000 + (v & 0xfff) == v as int % 0x80_0000_0000,
{
}

/// The three page-table indices and the page offset of a virtual address put
/// back together give its low 39 bits.
pub proof fn lemma_va_reassemble(v: usize)
    ensures
        vpn(v, 2) * 0x4000_0000 + vpn(v, 1) * 0x20_0000 + vpn(v, 0) * 0x1000 + page_offset(v)
            == spec_canonical(v),
{
    lemma_reassemble_bits(v);
}

proof fn lemma_leaf_flags(a: u8)
    by (bit_vector)
    ensures
        (a | 1) & 1 == 1,
        (a | 1) & 0xa == a & 0xa,
{
}

/// After a successful map on a sound walk, the walk for `va` reaches the
/// level of the page size and finds there the entry that was written, and
/// the tables on the way are still sound.
proof fn lemma_map_installs(m: MemState, root: int, pa: int, va: usize, size: PageSize, attrs: u8)
    requires
        m.wf(),
        0 <= pa < pa_limit(),
        path_ok(m, root, va),
        map_one_spec(m, root, pa, va, size, attrs).0 is Ok,
    ensures
        reaches(map_one_spec(m, root, pa, va, size, attrs).1, root, va, size.spec_level() as int),
        entry_on_path(map_one_spec(m, root, pa, va, size, attrs).1, root, va, size.spec_level() as int)
            == pte_encode(pa, attrs | 1),
        crate::paging::path_ok_from(
            map_one_spec(m, root, pa, va, size, attrs).1,
            root,
            va,
            size.spec_level() as int,
        ),
{
    let target = size.spec_level() as int;
    let s = stop_level(m, root, va, target);
    let t = table_at(m, root, va, s);
    let leaf = pte_encode(pa, attrs | 1);
    lemma_install_outcome(m, t, s, target, va, leaf);
    lemma_install_path(m, root, va, t, s, target, leaf);
}

/// A table fresh from the pool, zeroed and no longer free, is a sound root
/// for the walk of every address.
pub proof fn lemma_fresh_root_path_ok(m: MemState, root: int, va: usize)
    requires
        m.holds(root),
        !m.free.contains(root as u64),
        forall|i: int| 0 <= i < 512 ==> #[trigger] m.entry(root, i) == 0,
    ensures
        path_ok(m, root, va),
{
    crate::addr::lemma_vpn_bound(va);
    crate::pte::lemma_unmapped_invalid();
    assert(m.entry(root, vpn(va, 2) as int) == 0);
}

/// Mapping a page and then resolving its address gives a leaf whose frame
/// is that of `pa` and whose attributes are `attrs` with `Valid`, when the
/// attributes make a leaf (Read or Execute). The walk must be sound: were the
/// root's own frame still in the pool, the map could take it as a new table
/// and overwrite it (`lemma_fresh_root_path_ok` shows a fresh root is sound).
pub proof fn lemma_map_then_resolve(m: MemState, root: int, pa: int, va: usize, size: PageSize, attrs: u8)
    requires
        m.wf(),
        0 <= pa < pa_limit(),
        path_ok(m, root, va),
        attrs & 0xa != 0,
        map_one_spec(m, root, pa, va, size, attrs).0 is Ok,
    ensures
        walk_leaf(map_one_spec(m, root, pa, va, size, attrs).1, root, va) == Some(pte_encode(pa, attrs | 1)),
        pte_ppn(pte_encode(pa, attrs | 1)) == pa / 4096,
        pte_flags(pte_encode(pa, attrs | 1)) == attrs | 1,
{
    lemma_map_installs(m, root, pa, va, size, attrs);
    lemma_leaf_flags(attrs);
    lemma_pte_roundtrip(pa, attrs | 1);
}

/// Mapping an address a second time fails with `AlreadyMapped` and changes
/// nothing, whatever frame and attributes the second call names.
pub proof fn lemma_map_twice(
    m: MemState,
    root: int,
    pa: int,
    va: usize,
    size: PageSize,
    attrs: u8,
    pa2: int,
    attrs2: u8,
)
    requires
        m.wf(),
        0 <= pa < pa_limit(),
        path_ok(m, root, va),
        map_one_spec(m, root, pa, va, size, attrs).0 is Ok,
    ensures
        map_one_spec(map_one_spec(m, root, pa, va, size, attrs).1, root, pa2, va, size, attrs2) == (
            Err::<(), MapError>(MapError::AlreadyMapped),
            map_one_spec(m, root, pa, va, size, attrs).1,
        ),
{
    lemma_map_installs(m, root, pa, va, size, attrs);
    lemma_leaf_flags(attrs);
    lemma_pte_roundtrip(pa, attrs | 1);
    let m2 = map_one_spec(m, root, pa, va, size, attrs).1;
    let target = size.spec_level() as int;
    assert(crate::paging::occupied(m2, root, va, target, target));
    assert(map_conflict(m2, root, va, target));
}

/// Unmapping a mapped page removes the entry that was written: a resolve
/// then finds no leaf, and a second unmap finds nothing to remove. A page
/// above the last level must make a leaf (Read or Execute) to be found again.
pub proof fn lemma_unmap_after_map(m: MemState, root: int, pa: int, va: usize, size: PageSize, attrs: u8)
    requires
        m.wf(),
        0 <= pa < pa_limit(),
        path_ok(m, root, va),
        attrs & 0xa != 0 || size == PageSize::Page4k,
        map_one_spec(m, root, pa, va, size, attrs).0 is Ok,
    ensures
        unmap_level(map_one_spec(m, root, pa, va, size, attrs).1, root, va) == Some(size.spec_level() as int),
        ({
            let m3 = map_one_spec(m, root, pa, va, size, attrs).1.set_entry(
                table_at(map_one_spec(m, root, pa, va, size, attrs).1, root, va, size.spec_level() as int),
                vpn(va, size.spec_level() as int) as int,
                0,
            );
            &&& walk_leaf(m3, root, va) is None
            &&& unmap_level(m3, root, va) is None
        }),
{
    lemma_map_installs(m, root, pa, va, size, attrs);
    lemma_leaf_flags(attrs);
    lemma_pte_roundtrip(pa, attrs | 1);
    let m2 = map_one_spec(m, root, pa, va, size, attrs).1;
    let target = size.spec_level() as int;
    let t = table_at(m2, root, va, target);
    assert(m2.wf()) by {
        let s = stop_level(m, root, va, target);
        lemma_install_outcome(m, table_at(m, root, va, s), s, target, va, pte_encode(pa, attrs | 1));
    }
    lemma_set_entry_all(m2, t, vpn(va, target) as int, 0);
    let m3 = m2.set_entry(t, vpn(va, target) as int, 0);
    crate::addr::lemma_vpn_bound(va);
    assert(table_at(m3, root, va, 2) == table_at(m2, root, va, 2));
    if target <= 1 {
        assert(table_at(m3, root, va, 1) == table_at(m2, root, va, 1));
    }
    if target <= 0 {
        assert(table_at(m3, root, va, 0) == table_at(m2, root, va, 0));
    }
    assert(entry_on_path(m3, root, va, target) == 0);
    crate::pte::lemma_unmapped_invalid();
}

/// Frames freed one after the other come back out of the pool in the
/// opposite order, and the pool is then as before.
pub proof fn lemma_pool_lifo(m: MemState, a: usize, b: usize)
    requires
        m.wf(),
        a % 4096 == 0,
        b % 4096 == 0,
        m.holds(a as int / 4096),
        m.holds(b as int / 4096),
        !m.is_free(a as int),
        !m.is_free(b as int),
        a != b,
    ensures
        !m.with_free(m.free.push((a / 4096) as u64)).is_free(b as int),
        ({
            let m1 = m.with_free(m.free.push((a / 4096) as u64));
            let m2 = m1.with_free(m1.free.push((b / 4096) as u64));
            &&& m2.free.len() > 0
            &&& m2.free.last() * 4096 == b
            &&& m2.free.drop_last().len() > 0
            &&& m2.free.drop_last().last() * 4096 == a
            &&& m2.free.drop_last().drop_last() == m.free
        }),
{
    let m1 = m.with_free(m.free.push((a / 4096) as u64));
    let m2 = m1.with_free(m1.free.push((b / 4096) as u64));
    assert(m2.free.drop_last() =~= m1.free);
    assert(m1.free.drop_last() =~= m.free);
    if m1.is_free(b as int) {
        let k = choose|k: int| 0 <= k < m1.free.len() && m1.free[k] as int * 4096 == b;
        if k < m.free.len() {
            assert(m.free[k] == m1.free[k]);
        }
    }
}

/// The results of `n` allocations in a row from the pool of `m`: the address
/// of the frame handed out, or `None` once the pool is empty.
pub open spec fn alloc_run(m: MemState, n: nat) -> Seq<Option<int>>
    decreases n,
{
    if n == 0 {
        Seq::empty()
    } else if m.free.len() == 0 {
        seq![None].add(alloc_run(m, (n - 1) as nat))
    } else {
        seq![Some(m.free.last() * 4096)].add(alloc_run(m.with_free(m.free.drop_last()), (n - 1) as nat))
    }
}

proof fn lemma_alloc_run_shape(m: MemState, n: nat)
    ensures
        alloc_run(m, n).len() == n,
        forall|i: int|
            0 <= i < n ==> #[trigger] alloc_run(m, n)[i] == if i < m.free.len() {
                Some(m.free[m.free.len() - 1 - i] * 4096)
            } else {
                None::<int>
            },
    decreases n,
{
    if n > 0 {
        if m.free.len() == 0 {
            lemma_alloc_run_shape(m, (n - 1) as nat);
            assert forall|i: int| 0 <= i < n implies #[trigger] alloc_run(m, n)[i] == None::<int> by {
                if i > 0 {
                    assert(alloc_run(m, n)[i] == alloc_run(m, (n - 1) as nat)[i - 1]);
                }
            }
        } else {
            let m1 = m.with_free(m.free.drop_last());
            lemma_alloc_run_shape(m1, (n - 1) as nat);
            assert forall|i: int|
                0 <= i < n implies #[trigger] alloc_run(m, n)[i] == if i < m.free.len() {
                Some(m.free[m.free.len() - 1 - i] * 4096)
            } else {
                None::<int>
            } by {
                if i > 0 {
                    assert(alloc_run(m, n)[i] == alloc_run(m1, (n - 1) as nat)[i - 1]);
                }
            }
        }
    }
}

/// Allocations from a pool never hand out the same frame twice, and no more
/// of them succeed than the pool had frames.
pub proof fn lemma_alloc_never_repeats(m: MemState, n: nat)
    requires
        m.wf(),
    ensures
        forall|i: int| 0 <= i < n && #[trigger] alloc_run(m, n)[i] is Some ==> i < m.free.len(),
        forall|i: int, j: int|
            0 <= i < j < n && (#[trigger] alloc_run(m, n)[i]) is Some && (#[trigger] alloc_run(m, n)[j]) is Some
                ==> alloc_run(m, n)[i] != alloc_run(m, n)[j],
{
    lemma_alloc_run_shape(m, n);
    assert forall|i: int, j: int|
        0 <= i < j < n && (#[trigger] alloc_run(m, n)[i]) is Some && (#[trigger] alloc_run(m, n)[j]) is Some
            implies alloc_run(m, n)[i] != alloc_run(m, n)[j] by {
        let k1 = m.free.len() - 1 - i;
        let k2 = m.free.len() - 1 - j;
        assert(m.free[k1] != m.free[k2]);
    }
}

/// Mapping a 1 GiB page under an empty root entry writes that one entry and
/// takes no table from the pool.
pub proof fn lemma_map_1g_single_entry(m: MemState, root: int, pa: int, va: usize, attrs: u8)
    requires
        m.wf(),
        !pte_valid(entry_on_path(m, root, va, 2)),
    ensures
        map_one_spec(m, root, pa, va, PageSize::Page1g, attrs) == (
            Ok::<(), MapError>(()),
            m.set_entry(root, vpn(va, 2) as int, pte_encode(pa, attrs | 1)),
        ),
{
}

/// Mapping a 4 KiB page under an empty root entry takes exactly two tables
/// from the pool, and succeeds when the pool has them.
pub proof fn lemma_map_4k_two_tables(m: MemState, root: int, pa: int, va: usize, attrs: u8)
    requires
        m.wf(),
        !pte_valid(entry_on_path(m, root, va, 2)),
    ensures
        map_one_spec(m, root, pa, va, PageSize::Page4k, attrs).0 == if m.free.len() >= 2 {
            Ok::<(), MapError>(())
        } else {
            Err(MapError::OOM)
        },
        m.free.len() >= 2 ==> map_one_spec(m, root, pa, va, PageSize::Page4k, attrs).1.free == m.free.subrange(
            0,
            m.free.len() - 2,
        ),
        m.free.len() >= 2 && crate::paging::table_ok(m, root) ==> ({
            let f1 = m.free.last() as int;
            let f2 = m.free[m.free.len() - 2] as int;
            let m2 = map_one_spec(m, root, pa, va, PageSize::Page4k, attrs).1;
            &&& m2.entry(root, vpn(va, 2) as int) == pointer_to(f1)
            &&& m2.entry(f1, vpn(va, 1) as int) == pointer_to(f2)
            &&& m2.entry(f2, vpn(va, 0) as int) == pte_encode(pa, attrs | 1)
            &&& forall|i: int| 0 <= i < 512 && i != vpn(va, 1) ==> #[trigger] m2.entry(f1, i) == 0
            &&& forall|i: int| 0 <= i < 512 && i != vpn(va, 0) ==> #[trigger] m2.entry(f2, i) == 0
            &&& forall|i: int| 0 <= i < 512 && i != vpn(va, 2) ==> #[trigger] m2.entry(root, i) == m.entry(root, i)
        }),
{
    let leaf = pte_encode(pa, attrs | 1);
    assert(stop_level(m, root, va, 0) == 2);
    lemma_install_outcome(m, root, 2, 0, va, leaf);
    if m.free.len() >= 2 && crate::paging::table_ok(m, root) {
        crate::addr::lemma_vpn_bound(va);
        let n = m.free.len();
        let f1 = m.free.last() as int;
        let f2 = m.free[n - 2] as int;
        assert(m.holds(f1) && m.holds(f2));
        assert(m.free[n - 1] != m.free[n - 2]);
        assert(m.free.contains(f1 as u64) && m.free.contains(f2 as u64));
        let mw = m.with_free(m.free.drop_last());
        lemma_pool_prefix(m, n - 1);
        assert(mw == m.with_free(m.free.subrange(0, n - 1)));
        lemma_zeroed_all(mw, f1);
        lemma_set_entry_all(mw.zeroed(f1), root, vpn(va, 2) as int, pointer_to(f1));
        let m1 = mw.zeroed(f1).set_entry(root, vpn(va, 2) as int, pointer_to(f1));
        assert(m1.free.last() == m.free[n - 2]);
        let mv = m1.with_free(m1.free.drop_last());
        lemma_pool_prefix(m1, n - 2);
        assert(mv == m1.with_free(m1.free.subrange(0, n - 2)));
        lemma_zeroed_all(mv, f2);
        lemma_set_entry_all(mv.zeroed(f2), f1, vpn(va, 1) as int, pointer_to(f2));
        let m2 = mv.zeroed(f2).set_entry(f1, vpn(va, 1) as int, pointer_to(f2));
        lemma_set_entry_all(m2, f2, vpn(va, 0) as int, leaf);
        assert(install(m, root, 2, 0, va, leaf) == install(m1, f1, 1, 0, va, leaf));
        assert(install(m1, f1, 1, 0, va, leaf) == install(m2, f2, 0, 0, va, leaf));
        assert(map_one_spec(m, root, pa, va, PageSize::Page4k, attrs).1 == m2.set_entry(f2, vpn(va, 0) as int, leaf));
    }
}

/// A range whose end lies past the end of the address space is refused with
/// an overflow error before anything is written.
pub proof fn lemma_range_overflow(m: MemState, root: int, pa: usize, va: usize, len: usize, attrs: u8)
    requires
        va + len > usize::MAX,
    ensures
        map_range_spec(m, root, pa, va, len, attrs).1 == m,
        map_range_spec(m, root, pa, va, len, attrs).0 is Err,
        pa % 4096 == 0 && va % 4096 == 0 ==> map_range_spec(m, root, pa, va, len, attrs).0 == Err::<(), MapError>(
            MapError::NoneError,
        ),
{
    if spec_round_up(len, PageSize::Page4k) is Some {
        lemma_round_up_laws(len, PageSize::Page4k);
    }
}

} // verus!
