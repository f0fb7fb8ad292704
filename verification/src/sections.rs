//! The address-space enumerator: turns the backend's raw, unordered
//! virtual-to-physical translation map into a compact list of contiguous
//! sections.
//!
//! The pipeline is: sort the entries ascending by base address, drop every
//! entry at or above the kernel-space boundary, then coalesce adjacent runs.

use vstd::prelude::*;
use vstd::relations::total_ordering;
use vstd::seq_lib::group_seq_properties;

verus! {

/// First virtual address of the kernel half of the address space.
/// Translation entries whose base lies at or above this boundary are never
/// reported as sections.
pub const KERNEL_SPACE_BOUNDARY: u64 = 0xFFFF_0000_0000_0000;

/// One record of the backend's virtual-to-physical translation map: a run of
/// `size` bytes mapped starting at virtual address `base`.
#[derive(Clone, Copy, Debug, PartialEq, Eq, Structural)]
#[verifier::ext_equal]
pub struct TranslationEntry {
    pub base: u64,
    pub size: u64,
}

/// A maximal run of contiguous translation entries, reported as one unit.
#[derive(Clone, Copy, Debug, PartialEq, Eq, Structural)]
pub struct Section {
    pub base: u64,
    pub size: u64,
}

/// Addition modulo 2^64, the arithmetic in which section adjacency is judged.
pub open spec fn wrap_add64(a: u64, b: u64) -> u64 {
    if a + b > u64::MAX {
        (a + b - 0x1_0000_0000_0000_0000) as u64
    } else {
        (a + b) as u64
    }
}

/// An entry lies below the kernel-space boundary and so may appear in a
/// section.
pub open spec fn below_kernel_boundary(e: TranslationEntry) -> bool {
    e.base < KERNEL_SPACE_BOUNDARY
}

/// Ordering of translation entries: by base address, ties broken by size.
/// The ordering is total, so sorting is a function of the entry multiset.
pub open spec fn entry_le(a: TranslationEntry, b: TranslationEntry) -> bool {
    a.base < b.base || (a.base == b.base && a.size <= b.size)
}

/// The entries appear in ascending `entry_le` order.
pub open spec fn sorted_entries(s: Seq<TranslationEntry>) -> bool {
    forall|i: int, j: int| 0 <= i < j < s.len() ==> #[trigger] entry_le(s[i], s[j])
}

/// The sections the coalescing pass emits from `entries`, starting from an
/// accumulator holding the run `(acc_base, acc_size)`.  An entry adjacent to
/// the accumulated run (its base equals the run's base plus size, modulo
/// 2^64) extends the run; any other entry restarts it, first emitting the run
/// as a section when its size is non-zero.  The run still pending when the
/// entries are exhausted is deliberately not emitted: the enumeration
/// reports only runs that a later, non-adjacent entry has closed, so the
/// last contiguous run of an address space goes unreported.  Callers of
/// this interface depend on the exact section list, so that choice is part
/// of the contract and pinned by the tests.
pub open spec fn coalesce_from(
    entries: Seq<TranslationEntry>,
    acc_base: u64,
    acc_size: u64,
) -> Seq<Section>
    decreases entries.len(),
{
    if entries.len() == 0 {
        Seq::empty()
    } else {
        let e = entries[0];
        if wrap_add64(acc_base, acc_size) == e.base {
            coalesce_from(entries.drop_first(), acc_base, wrap_add64(acc_size, e.size))
        } else if acc_size > 0 {
            seq![Section { base: acc_base, size: acc_size }] + coalesce_from(
                entries.drop_first(),
                e.base,
                e.size,
            )
        } else {
            coalesce_from(entries.drop_first(), e.base, e.size)
        }
    }
}

/// The coalescing pass as a whole: run over `entries` with an initially empty
/// accumulator based at address zero.
pub open spec fn coalesce_spec(entries: Seq<TranslationEntry>) -> Seq<Section> {
    coalesce_from(entries, 0, 0)
}

/// Emits the coalesced sections of `entries`, exactly as `coalesce_spec`
/// describes.  The caller is expected to hand in entries already sorted and
/// filtered; `build_sections` packages the whole pipeline.
pub fn coalesce_sections(entries: &Vec<TranslationEntry>) -> (r: Vec<Section>)
    ensures
        r@ == coalesce_spec(entries@),
{
    let mut out: Vec<Section> = Vec::new();
    let mut acc_base: u64 = 0;
    let mut acc_size: u64 = 0;
    let mut i: usize = 0;
    proof {
        assert(entries@.skip(0) =~= entries@);
    }
    while i < entries.len()
        invariant
            i <= entries.len(),
            out@ + coalesce_from(entries@.skip(i as int), acc_base, acc_size) == coalesce_spec(
                entries@,
            ),
        decreases entries.len() - i,
    {
        let e = entries[i];
        proof {
            assert(entries@.skip(i as int).drop_first() =~= entries@.skip(i as int + 1));
            assert(entries@.skip(i as int)[0] == entries@[i as int]);
        }
        if acc_base.wrapping_add(acc_size) == e.base {
            acc_size = acc_size.wrapping_add(e.size);
        } else {
            if acc_size > 0 {
                let emitted = Section { base: acc_base, size: acc_size };
                proof {
                    assert(out@ + (seq![emitted] + coalesce_from(
                        entries@.skip(i as int + 1),
                        e.base,
                        e.size,
                    )) =~= out@.push(emitted) + coalesce_from(
                        entries@.skip(i as int + 1),
                        e.base,
                        e.size,
                    ));
                }
                out.push(emitted);
            }
            acc_base = e.base;
            acc_size = e.size;
        }
        i += 1;
    }
    proof {
        assert(entries@.skip(entries@.len() as int) =~= Seq::<TranslationEntry>::empty());
        assert(out@ + Seq::<Section>::empty() =~= out@);
    }
    out
}

/// The comparison the sort goes by.
fn entry_le_exec(a: TranslationEntry, b: TranslationEntry) -> (r: bool)
    ensures
        r == entry_le(a, b),
{
    a.base < b.base || (a.base == b.base && a.size <= b.size)
}

/// `entry_le` is a total ordering, so a sorted arrangement of a multiset of
/// entries is unique.
pub proof fn lemma_entry_le_total_ordering()
    ensures
        total_ordering(|a: TranslationEntry, b: TranslationEntry| entry_le(a, b)),
{
    let leq = |a: TranslationEntry, b: TranslationEntry| entry_le(a, b);
    assert forall|x: TranslationEntry, y: TranslationEntry| #[trigger]
        leq(x, y) && #[trigger] leq(y, x) implies x == y by {
        assert(x =~= y);
    }
}

/// Two sorted sequences of the same entries are the same sequence.
pub proof fn lemma_sorted_multiset_unique(a: Seq<TranslationEntry>, b: Seq<TranslationEntry>)
    requires
        sorted_entries(a),
        sorted_entries(b),
        a.to_multiset() == b.to_multiset(),
    ensures
        a == b,
    decreases a.len(),
{
    broadcast use vstd::seq_lib::group_to_multiset_ensures;
    broadcast use vstd::multiset::group_multiset_axioms;

    a.to_multiset_ensures();
    b.to_multiset_ensures();
    if a.len() == 0 {
        assert(b.to_multiset().len() == 0);
        assert(a =~= b);
    } else {
        assert(b.len() == a.len());
        // The heads are equal: each is the least entry of the same multiset.
        assert(a.to_multiset().count(a[0]) > 0);
        assert(b.contains(a[0]));
        let ka = choose|k: int| 0 <= k < b.len() && b[k] == a[0];
        assert(ka == 0 || entry_le(b[0], b[ka]));
        assert(entry_le(b[0], a[0]));
        assert(b.to_multiset().count(b[0]) > 0);
        assert(a.contains(b[0]));
        let kb = choose|k: int| 0 <= k < a.len() && a[k] == b[0];
        assert(kb == 0 || entry_le(a[0], a[kb]));
        assert(entry_le(a[0], b[0]));
        assert(a[0] =~= b[0]);
        // The tails hold the same entries and are sorted, so they are equal.
        assert(a.remove(0) =~= a.drop_first());
        assert(b.remove(0) =~= b.drop_first());
        assert(a.drop_first().to_multiset() == a.to_multiset().remove(a[0]));
        assert(b.drop_first().to_multiset() == b.to_multiset().remove(b[0]));
        assert(sorted_entries(a.drop_first())) by {
            assert(forall|i: int, j: int|
                0 <= i < j < a.drop_first().len() ==> a.drop_first()[i] == a[i + 1]
                    && a.drop_first()[j] == a[j + 1]);
        }
        assert(sorted_entries(b.drop_first())) by {
            assert(forall|i: int, j: int|
                0 <= i < j < b.drop_first().len() ==> b.drop_first()[i] == b[i + 1]
                    && b.drop_first()[j] == b[j + 1]);
        }
        lemma_sorted_multiset_unique(a.drop_first(), b.drop_first());
        assert(a =~= b) by {
            assert(forall|i: int|
                0 < i < a.len() ==> a[i] == a.drop_first()[i - 1] && b[i] == b.drop_first()[i
                    - 1]);
        }
    }
}

/// Sorts the translation map ascending by base address (ties by size), in
/// place: the result holds the same entries, in sorted order.
pub fn sort_entries(v: &mut Vec<TranslationEntry>)
    ensures
        sorted_entries(final(v)@),
        final(v)@.to_multiset() == old(v)@.to_multiset(),
{
    broadcast use group_seq_properties;

    let n = v.len();
    if n <= 1 {
        return;
    }
    let mut i: usize = 1;
    while i < n
        invariant
            1 <= i <= n,
            n == v@.len(),
            sorted_entries(v@.take(i as int)),
            v@.to_multiset() == old(v)@.to_multiset(),
        decreases n - i,
    {
        let ghost pre = v@;
        let x = v.remove(i);
        proof {
            broadcast use vstd::seq_lib::group_to_multiset_ensures;

            assert(v@.to_multiset() == pre.to_multiset().remove(x));
            assert(v@.take(i as int) =~= pre.take(i as int));
        }
        let ghost mid = v@;
        let mut j: usize = 0;
        while j < i && entry_le_exec(v[j], x)
            invariant
                j <= i,
                i < n,
                n - 1 == v@.len(),
                v@ == mid,
                forall|m: int| 0 <= m < j ==> entry_le(v@[m], x),
            decreases i - j,
        {
            j += 1;
        }
        v.insert(j, x);
        proof {
            broadcast use vstd::seq_lib::group_to_multiset_ensures;
            broadcast use vstd::multiset::group_multiset_axioms;

            // Inserting the removed entry back restores the multiset.
            assert(v@ == mid.insert(j as int, x));
            mid.insert_ensures(j as int, x);
            assert(v@.remove(j as int) =~= mid);
            assert(v@[j as int] == x);
            assert(v@.remove(j as int).to_multiset() == v@.to_multiset().remove(x));
            assert(v@.contains(x));
            assert(v@.to_multiset().count(x) > 0);
            assert(pre.contains(x));
            assert(pre.to_multiset().count(x) > 0);
            assert(v@.to_multiset() =~= pre.to_multiset()) by {
                assert(forall|e: TranslationEntry|
                    #[trigger] v@.to_multiset().count(e) == pre.to_multiset().count(e)) by {
                    assert(forall|e: TranslationEntry|
                        e != x ==> #[trigger] v@.to_multiset().count(e) == mid.to_multiset().count(
                            e,
                        ) == pre.to_multiset().count(e));
                    assert(v@.to_multiset().count(x) - 1 == mid.to_multiset().count(x)
                        == pre.to_multiset().count(x) - 1);
                }
            }
            // The first `i + 1` entries are sorted: those before the slot
            // are at most `x`, those after were at least the entry the scan
            // stopped on.
            assert(sorted_entries(v@.take(i as int + 1))) by {
                let t = v@.take(i as int + 1);
                assert(forall|m: int| 0 <= m < j ==> t[m] == mid[m]);
                assert(t[j as int] == x);
                assert(forall|m: int| j < m < i + 1 ==> t[m] == mid[m - 1]);
                assert(forall|m: int| 0 <= m < i ==> mid[m] == pre.take(i as int)[m]);
                if (j as int) < i {
                    assert(entry_le(x, mid[j as int]));
                    assert(forall|m: int|
                        j <= m < i ==> entry_le(#[trigger] mid[j as int], mid[m]));
                }
                assert(forall|m1: int, m2: int|
                    0 <= m1 < m2 < i ==> entry_le(#[trigger] mid[m1], #[trigger] mid[m2]));
            }
        }
        i += 1;
    }
    proof {
        assert(v@.take(n as int) =~= v@);
    }
}

/// The sorted arrangement of a translation map: ascending by base address,
/// ties by size.
pub open spec fn sort_spec(s: Seq<TranslationEntry>) -> Seq<TranslationEntry> {
    s.sort_by(|a: TranslationEntry, b: TranslationEntry| entry_le(a, b))
}

/// Keeps the entries below the kernel-space boundary, in order.
fn filter_entries(v: &Vec<TranslationEntry>) -> (r: Vec<TranslationEntry>)
    ensures
        r@ == v@.filter(|e: TranslationEntry| below_kernel_boundary(e)),
{
    broadcast use vstd::seq_lib::group_filter_ensures;

    let mut r: Vec<TranslationEntry> = Vec::new();
    let mut i: usize = 0;
    proof {
        assert(v@.take(0).filter(|e: TranslationEntry| below_kernel_boundary(e)) =~= Seq::<
            TranslationEntry,
        >::empty());
    }
    while i < v.len()
        invariant
            i <= v@.len(),
            r@ == v@.take(i as int).filter(|e: TranslationEntry| below_kernel_boundary(e)),
        decreases v@.len() - i,
    {
        proof {
            let pred = |e: TranslationEntry| below_kernel_boundary(e);
            assert(v@.take(i as int + 1) =~= v@.take(i as int).push(v@[i as int]));
            v@.take(i as int).lemma_filter_push(v@[i as int], pred);
        }
        if v[i].base < KERNEL_SPACE_BOUNDARY {
            r.push(v[i]);
        }
        i += 1;
    }
    proof {
        assert(v@.take(v@.len() as int) =~= v@);
    }
    r
}

/// What the whole enumeration pipeline reports for a raw translation map:
/// the entries sorted, those at or above the kernel-space boundary dropped,
/// and the rest coalesced into maximal contiguous runs.
pub open spec fn build_sections_spec(s: Seq<TranslationEntry>) -> Seq<Section> {
    coalesce_spec(sort_spec(s).filter(|e: TranslationEntry| below_kernel_boundary(e)))
}

/// Builds the section list of a raw translation map, which may arrive in any
/// order and hold duplicate or overlapping coverage.
pub fn build_sections(entries: Vec<TranslationEntry>) -> (r: Vec<Section>)
    ensures
        r@ == build_sections_spec(entries@),
        forall|j: int| 0 <= j < r@.len() ==> (#[trigger] r@[j]).base < KERNEL_SPACE_BOUNDARY,
{
    let ghost input = entries@;
    let mut v = entries;
    sort_entries(&mut v);
    proof {
        let leq = |a: TranslationEntry, b: TranslationEntry| entry_le(a, b);
        lemma_entry_le_total_ordering();
        input.lemma_sort_by_ensures(leq);
        let sorted = input.sort_by(leq);
        assert forall|i: int, j: int| 0 <= i < j < sorted.len() implies #[trigger] entry_le(
            sorted[i],
            sorted[j],
        ) by {
            assert(leq(sorted[i], sorted[j]));
        }
        assert(sorted_entries(input.sort_by(leq)));
        lemma_sorted_multiset_unique(v@, input.sort_by(leq));
        assert(v@ == sort_spec(input));
    }
    let filtered = filter_entries(&v);
    let r = coalesce_sections(&filtered);
    proof {
        lemma_coalesce_bases_stay_below(filtered@, 0, 0);
        broadcast use vstd::seq_lib::group_filter_ensures;
    }
    r
}

/// Every section the coalescing pass emits has as base either the starting
/// accumulator base or the base of one of the entries; so when all of those
/// lie below the kernel-space boundary, every emitted section does too.
proof fn lemma_coalesce_bases_stay_below(s: Seq<TranslationEntry>, acc_base: u64, acc_size: u64)
    requires
        acc_base < KERNEL_SPACE_BOUNDARY,
        forall|i: int| 0 <= i < s.len() ==> (#[trigger] s[i]).base < KERNEL_SPACE_BOUNDARY,
    ensures
        forall|j: int|
            0 <= j < coalesce_from(s, acc_base, acc_size).len() ==> (#[trigger] coalesce_from(
                s,
                acc_base,
                acc_size,
            )[j]).base < KERNEL_SPACE_BOUNDARY,
    decreases s.len(),
{
    if s.len() == 0 {
    } else {
        let e = s[0];
        assert(forall|i: int|
            0 <= i < s.drop_first().len() ==> (#[trigger] s.drop_first()[i]).base
                < KERNEL_SPACE_BOUNDARY);
        let whole = coalesce_from(s, acc_base, acc_size);
        if wrap_add64(acc_base, acc_size) == e.base {
            let rest = coalesce_from(s.drop_first(), acc_base, wrap_add64(acc_size, e.size));
            lemma_coalesce_bases_stay_below(s.drop_first(), acc_base, wrap_add64(acc_size, e.size));
            assert(whole == rest);
            assert forall|j: int| 0 <= j < whole.len() implies (#[trigger] whole[j]).base
                < KERNEL_SPACE_BOUNDARY by {
                assert(whole[j] == rest[j]);
            }
        } else {
            let rest = coalesce_from(s.drop_first(), e.base, e.size);
            lemma_coalesce_bases_stay_below(s.drop_first(), e.base, e.size);
            if acc_size > 0 {
                assert(whole == seq![Section { base: acc_base, size: acc_size }] + rest);
                assert forall|j: int| 0 <= j < whole.len() implies (#[trigger] whole[j]).base
                    < KERNEL_SPACE_BOUNDARY by {
                    if j == 0 {
                        assert(whole[0].base == acc_base);
                    } else {
                        assert(whole[j] == rest[j - 1]);
                    }
                }
            } else {
                assert(whole == rest);
                assert forall|j: int| 0 <= j < whole.len() implies (#[trigger] whole[j]).base
                    < KERNEL_SPACE_BOUNDARY by {
                    assert(whole[j] == rest[j]);
                }
            }
        }
    }
}

/// Each entry ends at or before the next begins: the map covers disjoint
/// ranges in ascending order, with no range running past the top of the
/// address space.
pub open spec fn linearly_disjoint(s: Seq<TranslationEntry>) -> bool {
    &&& forall|i: int, j: int|
        #![trigger s[i], s[j]]
        0 <= i < j < s.len() ==> s[i].base + s[i].size <= s[j].base
    &&& forall|i: int| 0 <= i < s.len() ==> (#[trigger] s[i]).base + s[i].size <= u64::MAX
}

/// Over a linearly disjoint suffix, and an accumulated run that ends at or
/// before the first entry, the coalescing pass emits sections at or after
/// the accumulator's base, each ending at or before the next begins.
proof fn lemma_coalesce_disjoint_ordered(s: Seq<TranslationEntry>, acc_base: u64, acc_size: u64)
    requires
        linearly_disjoint(s),
        acc_base + acc_size <= u64::MAX,
        s.len() > 0 ==> acc_base + acc_size <= s[0].base,
    ensures
        forall|k: int|
            0 <= k < coalesce_from(s, acc_base, acc_size).len() ==> acc_base <= (
            #[trigger] coalesce_from(s, acc_base, acc_size)[k]).base && coalesce_from(
                s,
                acc_base,
                acc_size,
            )[k].base + coalesce_from(s, acc_base, acc_size)[k].size <= u64::MAX,
        forall|k: int, l: int|
            #![trigger coalesce_from(s, acc_base, acc_size)[k], coalesce_from(s, acc_base, acc_size)[l]]
            0 <= k < l < coalesce_from(s, acc_base, acc_size).len() ==> coalesce_from(
                s,
                acc_base,
                acc_size,
            )[k].base + coalesce_from(s, acc_base, acc_size)[k].size <= coalesce_from(
                s,
                acc_base,
                acc_size,
            )[l].base,
    decreases s.len(),
{
    if s.len() == 0 {
    } else {
        let e = s[0];
        let whole = coalesce_from(s, acc_base, acc_size);
        assert(linearly_disjoint(s.drop_first())) by {
            assert(forall|i: int|
                0 <= i < s.drop_first().len() ==> #[trigger] s.drop_first()[i] == s[i + 1]);
        }
        assert(s.drop_first().len() > 0 ==> e.base + e.size <= s.drop_first()[0].base);
        if wrap_add64(acc_base, acc_size) == e.base {
            // No wrap happened: the run really ends at the entry's base.
            assert(acc_base + acc_size == e.base);
            let grown = wrap_add64(acc_size, e.size);
            assert(acc_base + grown == e.base + e.size);
            lemma_coalesce_disjoint_ordered(s.drop_first(), acc_base, grown);
            let rest = coalesce_from(s.drop_first(), acc_base, grown);
            assert(whole == rest);
            assert(forall|k: int|
                0 <= k < whole.len() ==> acc_base <= (#[trigger] whole[k]).base && whole[k].base
                    + whole[k].size <= u64::MAX) by {
                assert(forall|k: int| 0 <= k < rest.len() ==> whole[k] == #[trigger] rest[k]);
            }
            assert(forall|k: int, l: int|
                #![trigger whole[k], whole[l]]
                0 <= k < l < whole.len() ==> whole[k].base + whole[k].size <= whole[l].base) by {
                assert(forall|k: int| 0 <= k < rest.len() ==> whole[k] == #[trigger] rest[k]);
            }
        } else {
            lemma_coalesce_disjoint_ordered(s.drop_first(), e.base, e.size);
            let rest = coalesce_from(s.drop_first(), e.base, e.size);
            if acc_size > 0 {
                let sec = Section { base: acc_base, size: acc_size };
                assert(whole == seq![sec] + rest);
                assert(acc_base + acc_size <= e.base);
                assert forall|k: int|
                    0 <= k < whole.len() implies acc_base <= (#[trigger] whole[k]).base
                    && whole[k].base + whole[k].size <= u64::MAX by {
                    if k == 0 {
                        assert(whole[0] == sec);
                    } else {
                        assert(whole[k] == rest[k - 1]);
                    }
                }
                assert forall|k: int, l: int|
                    #![trigger whole[k], whole[l]]
                    0 <= k < l < whole.len() implies whole[k].base + whole[k].size
                    <= whole[l].base by {
                    if k == 0 {
                        assert(whole[0] == sec);
                        assert(whole[l] == rest[l - 1]);
                        assert(e.base <= rest[l - 1].base);
                    } else {
                        assert(whole[k] == rest[k - 1]);
                        assert(whole[l] == rest[l - 1]);
                    }
                }
            } else {
                assert(whole == rest);
                assert(acc_base <= e.base);
                assert(forall|k: int|
                    0 <= k < whole.len() ==> acc_base <= (#[trigger] whole[k]).base && whole[k].base
                        + whole[k].size <= u64::MAX) by {
                    assert(forall|k: int| 0 <= k < rest.len() ==> whole[k] == #[trigger] rest[k]);
                }
                assert(forall|k: int, l: int|
                    #![trigger whole[k], whole[l]]
                    0 <= k < l < whole.len() ==> whole[k].base + whole[k].size <= whole[l].base) by {
                    assert(forall|k: int| 0 <= k < rest.len() ==> whole[k] == #[trigger] rest[k]);
                }
            }
        }
    }
}

/// The emitted section list of a linearly disjoint, sorted translation map
/// is ascending by base address and non-overlapping: each section ends at
/// or before the next begins.  A map with duplicate or overlapping coverage
/// can repeat a section; `coalesce_spec` pins the exact output either way.
pub proof fn lemma_sections_ordered_for_disjoint_map(s: Seq<TranslationEntry>)
    requires
        linearly_disjoint(s),
    ensures
        forall|k: int, l: int|
            #![trigger coalesce_spec(s)[k], coalesce_spec(s)[l]]
            0 <= k < l < coalesce_spec(s).len() ==> coalesce_spec(s)[k].base + coalesce_spec(
                s,
            )[k].size <= coalesce_spec(s)[l].base,
{
    lemma_coalesce_disjoint_ordered(s, 0, 0);
}

/// Entries at or above the kernel-space boundary never appear in any emitted
/// section: whatever the raw translation map holds, every section the
/// pipeline reports is based below the boundary.
pub proof fn lemma_sections_below_boundary(s: Seq<TranslationEntry>)
    ensures
        forall|j: int|
            0 <= j < build_sections_spec(s).len() ==> (#[trigger] build_sections_spec(s)[j]).base
                < KERNEL_SPACE_BOUNDARY,
{
    broadcast use vstd::seq_lib::group_filter_ensures;

    let filtered = sort_spec(s).filter(|e: TranslationEntry| below_kernel_boundary(e));
    assert(forall|i: int|
        0 <= i < filtered.len() ==> (#[trigger] filtered[i]).base < KERNEL_SPACE_BOUNDARY);
    lemma_coalesce_bases_stay_below(filtered, 0, 0);
}

} // verus!
