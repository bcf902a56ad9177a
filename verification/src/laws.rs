//! Properties of built levels, proved once for every level and every input:
//! coverage (a level's union of document sets is the base union), partition
//! and containment (group spans tile the base positions and never split a
//! lower group), and the group sizes.

use vstd::prelude::*;
use vstd::arithmetic::div_mod::lemma_div_is_ordered;
use vstd::arithmetic::div_mod::lemma_fundamental_div_mod;
use vstd::arithmetic::div_mod::lemma_fundamental_div_mod_converse_mod;
use vstd::arithmetic::div_mod::lemma_mod_bound;
use vstd::arithmetic::mul::lemma_mul_inequality;
use vstd::arithmetic::mul::lemma_mul_is_commutative;
use vstd::arithmetic::mul::lemma_mul_is_distributive_add_other_way;
use crate::bitmap::bitmap_set;
use crate::bitmap::union_range;
use crate::bitmap::lemma_union_range_split;
use crate::builder::FacetGroup;
use crate::builder::group_count;
use crate::builder::group_ok;
use crate::builder::level_ok;
use crate::entries::NumberLevelEntry;
use crate::entries::StringLevelEntry;
use crate::facets::FieldLevelZero;
use crate::facets::FieldLevels;
use crate::facets::field_output_ok;
use crate::field_levels::keys_sorted;
use crate::field_levels::number_entry_ok;
use crate::field_levels::number_level_rows_ok;
use crate::field_levels::string_entry_ok;
use crate::field_levels::string_level_rows_ok;

verus! {

/// Union of the document sets of a level's groups.
pub open spec fn union_groups(level: Seq<FacetGroup>) -> Set<u32>
    decreases level.len(),
{
    if level.len() == 0 {
        Set::empty()
    } else {
        union_groups(level.drop_last()).union(bitmap_set(level.last().docids))
    }
}

proof fn lemma_union_groups_push(s: Seq<FacetGroup>, e: FacetGroup)
    ensures
        union_groups(s.push(e)) == union_groups(s).union(bitmap_set(e.docids)),
{
    assert(s.push(e).drop_last() =~= s);
    assert(s.push(e).last() == e);
}

/// A group index below the group count starts strictly inside the base
/// entries.
proof fn lemma_start_in_bounds(n: int, gl: int, i: int)
    requires
        1 <= gl,
        0 <= i < group_count(n, gl),
    ensures
        i * gl <= n - 1,
{
    crate::builder::lemma_group_start_in_bounds(n, gl, i);
}

/// The last group of a level ends exactly at the last base entry.
proof fn lemma_count_covers(n: int, gl: int)
    requires
        1 <= gl,
        1 <= n,
    ensures
        group_count(n, gl) * gl >= n,
{
    let q = (n - 1) / gl;
    lemma_fundamental_div_mod(n - 1, gl);
    lemma_mod_bound(n - 1, gl);
    lemma_mul_is_distributive_add_other_way(gl, q, 1);
    lemma_mul_is_commutative(q, gl);
}

proof fn lemma_coverage_prefix(sets: Seq<Set<u32>>, gl: int, level: Seq<FacetGroup>, k: int)
    requires
        1 <= gl,
        level_ok(sets, gl, level),
        0 <= k <= level.len(),
    ensures
        union_groups(level.take(k)) == union_range(
            sets,
            0,
            if k * gl <= sets.len() {
                k * gl
            } else {
                sets.len() as int
            },
        ),
    decreases k,
{
    let n = sets.len() as int;
    if k == 0 {
        assert(level.take(0) =~= Seq::<FacetGroup>::empty());
    } else {
        lemma_coverage_prefix(sets, gl, level, k - 1);
        assert(level.take(k) =~= level.take(k - 1).push(level[k - 1]));
        lemma_union_groups_push(level.take(k - 1), level[k - 1]);
        assert(group_ok(sets, gl, k - 1, level[k - 1]));
        lemma_start_in_bounds(n, gl, k - 1);
        lemma_mul_inequality(k - 1, k, gl);
        let e = level[k - 1];
        assert((k - 1) * gl <= n - 1);
        let hi = if k * gl <= n {
            k * gl
        } else {
            n
        };
        assert(e.first == (k - 1) * gl);
        assert(e.last + 1 == hi);
        lemma_union_range_split(sets, 0, (k - 1) * gl, hi);
    }
}

/// Coverage: for every level, the union of the document sets of its groups
/// equals the union of the document sets of all base entries.
pub proof fn lemma_level_coverage(sets: Seq<Set<u32>>, gl: int, level: Seq<FacetGroup>)
    requires
        1 <= gl,
        level_ok(sets, gl, level),
    ensures
        union_groups(level) == union_range(sets, 0, sets.len() as int),
{
    let n = sets.len() as int;
    let count = group_count(n, gl);
    lemma_coverage_prefix(sets, gl, level, count);
    assert(level.take(count) =~= level);
    if n >= 1 {
        lemma_count_covers(n, gl);
    }
}

/// A finer-level group `e` with index `j` lies whole inside the coarser
/// group with index `j / g`, where `g` is the grouping factor between the
/// two levels.
pub open spec fn contained_in_parent(cur: Seq<FacetGroup>, g: int, j: int, e: FacetGroup) -> bool {
    &&& 0 <= j / g < cur.len()
    &&& cur[j / g].first <= e.first
    &&& e.last <= cur[j / g].last
}

/// Partition and containment: the groups of the coarser level tile the base
/// positions in order with no gaps and no overlaps, starting at the first
/// base entry and ending at the last, and every group of the finer level
/// lies whole inside the group of the coarser level with index `j / g` -
/// a coarser group never splits a finer one.
pub proof fn lemma_level_containment(
    sets: Seq<Set<u32>>,
    g: int,
    gl: int,
    prev: Seq<FacetGroup>,
    cur: Seq<FacetGroup>,
)
    requires
        1 <= g,
        1 <= gl,
        level_ok(sets, gl, prev),
        level_ok(sets, gl * g, cur),
    ensures
        forall|j: int|
            0 <= j < prev.len() ==> #[trigger] contained_in_parent(cur, g, j, prev[j]),
        forall|i1: int, i2: int|
            0 <= i1 < i2 < cur.len() ==> #[trigger] cur[i1].last < #[trigger] cur[i2].first,
        forall|i: int| 0 <= i < cur.len() - 1 ==> #[trigger] cur[i].last + 1 == cur[i + 1].first,
        cur.len() > 0 ==> cur[0].first == 0 && cur[cur.len() - 1].last + 1 == sets.len(),
{
    let n = sets.len() as int;
    let d = gl * g;
    vstd::arithmetic::mul::lemma_mul_strictly_positive(gl, g);
    assert forall|j: int| 0 <= j < prev.len() implies #[trigger] contained_in_parent(
        cur,
        g,
        j,
        prev[j],
    ) by {
        let i = j / g;
        lemma_fundamental_div_mod(j, g);
        lemma_mod_bound(j, g);
        vstd::arithmetic::div_mod::lemma_div_pos_is_pos(j, g);
        assert(group_ok(sets, gl, j, prev[j]));
        lemma_start_in_bounds(n, gl, j);
        // the coarser group starts at or before the finer one
        assert(i * d == (i * g) * gl) by {
            lemma_mul_is_commutative(gl, g);
            vstd::arithmetic::mul::lemma_mul_is_associative(i, g, gl);
        }
        assert(i * g <= j);
        lemma_mul_inequality(i * g, j, gl);
        assert(i * d <= j * gl);
        // the coarser group's index is within its level
        assert(i * d <= n - 1);
        vstd::arithmetic::div_mod::lemma_div_by_multiple(i, d);
        lemma_div_is_ordered(i * d, n - 1, d);
        assert(i < cur.len());
        assert(group_ok(sets, d, i, cur[i]));
        // the coarser group ends at or after the finer one
        assert((j + 1) * gl <= (i + 1) * d) by {
            assert(j + 1 <= (i + 1) * g) by {
                lemma_mul_is_distributive_add_other_way(g, i, 1);
            }
            lemma_mul_inequality(j + 1, (i + 1) * g, gl);
            assert(((i + 1) * g) * gl == (i + 1) * d) by {
                lemma_mul_is_commutative(gl, g);
                vstd::arithmetic::mul::lemma_mul_is_associative(i + 1, g, gl);
            }
            lemma_mul_is_commutative(j + 1, gl);
            lemma_mul_is_commutative(gl, j + 1);
        }
    }
    assert forall|i1: int, i2: int| 0 <= i1 < i2 < cur.len() implies #[trigger] cur[i1].last
        < #[trigger] cur[i2].first by {
        assert(group_ok(sets, d, i1, cur[i1]));
        assert(group_ok(sets, d, i2, cur[i2]));
        lemma_start_in_bounds(n, d, i2);
        lemma_mul_inequality(i1 + 1, i2, d);
    }
    assert forall|i: int| 0 <= i < cur.len() - 1 implies #[trigger] cur[i].last + 1 == cur[i
        + 1].first by {
        assert(group_ok(sets, d, i, cur[i]));
        assert(group_ok(sets, d, i + 1, cur[i + 1]));
        lemma_start_in_bounds(n, d, i + 1);
        lemma_mul_inequality(i + 1, cur.len() - 1, d);
    }
    if cur.len() > 0 {
        let last = cur.len() - 1;
        assert(group_ok(sets, d, 0, cur[0]));
        assert(group_ok(sets, d, last, cur[last]));
        lemma_count_covers(n, d);
        lemma_mul_is_distributive_add_other_way(d, last, 1);
    }
}

/// Group sizes: every group of a level with group size `gl` covers exactly
/// `gl` base entries, except possibly the last group, which covers
/// `sets.len() % gl` of them (`gl` when that remainder is zero).
pub proof fn lemma_group_sizes(sets: Seq<Set<u32>>, gl: int, level: Seq<FacetGroup>)
    requires
        1 <= gl,
        level_ok(sets, gl, level),
    ensures
        forall|i: int|
            0 <= i < level.len() - 1 ==> #[trigger] level[i].last + 1 - level[i].first == gl,
        level.len() > 0 ==> level[level.len() - 1].last + 1 - level[level.len() - 1].first == (
        if sets.len() as int % gl == 0 {
            gl
        } else {
            sets.len() as int % gl
        }),
{
    let n = sets.len() as int;
    assert forall|i: int| 0 <= i < level.len() - 1 implies #[trigger] level[i].last + 1
        - level[i].first == gl by {
        assert(group_ok(sets, gl, i, level[i]));
        lemma_start_in_bounds(n, gl, i + 1);
        lemma_mul_is_distributive_add_other_way(gl, i, 1);
    }
    if level.len() > 0 {
        let c = level.len() - 1;
        let q = (n - 1) / gl;
        assert(group_ok(sets, gl, c, level[c]));
        lemma_count_covers(n, gl);
        lemma_fundamental_div_mod(n - 1, gl);
        lemma_mod_bound(n - 1, gl);
        lemma_mul_is_distributive_add_other_way(gl, q, 1);
        lemma_mul_is_commutative(q, gl);
        let r = (n - 1) % gl;
        // the last group holds the remainder, one past the last full multiple
        assert(level[c].last + 1 == n);
        assert(level[c].first == q * gl);
        if r + 1 == gl {
            lemma_fundamental_div_mod_converse_mod(n, gl, q + 1, 0);
        } else {
            lemma_fundamental_div_mod_converse_mod(n, gl, q, r + 1);
        }
    }
}

/// Group sizes on persisted textual entries: every entry of a level with
/// group size `gl` spans exactly `gl` ordinals, except possibly the last
/// entry, which spans `sets.len() % gl` of them (`gl` when that remainder
/// is zero).
pub proof fn lemma_string_level_sizes(
    field_id: u16,
    texts: Seq<String>,
    sets: Seq<Set<u32>>,
    gl: int,
    level: int,
    rows: Seq<StringLevelEntry>,
)
    requires
        1 <= gl,
        string_level_rows_ok(field_id, texts, sets, gl, level, rows),
    ensures
        forall|i: int|
            0 <= i < rows.len() - 1 ==> (#[trigger] rows[i]).right_ord + 1 - rows[i].left_ord
                == gl,
        rows.len() > 0 ==> rows[rows.len() - 1].right_ord + 1 - rows[rows.len() - 1].left_ord == (
        if sets.len() as int % gl == 0 {
            gl
        } else {
            sets.len() as int % gl
        }),
{
    let n = sets.len() as int;
    assert forall|i: int| 0 <= i < rows.len() - 1 implies (#[trigger] rows[i]).right_ord + 1
        - rows[i].left_ord == gl by {
        assert(string_entry_ok(field_id, texts, sets, gl, level, i, rows[i]));
        lemma_start_in_bounds(n, gl, i + 1);
        lemma_mul_is_distributive_add_other_way(gl, i, 1);
    }
    if rows.len() > 0 {
        let c = rows.len() - 1;
        let q = (n - 1) / gl;
        assert(string_entry_ok(field_id, texts, sets, gl, level, c, rows[c]));
        lemma_count_covers(n, gl);
        lemma_fundamental_div_mod(n - 1, gl);
        lemma_mod_bound(n - 1, gl);
        lemma_mul_is_distributive_add_other_way(gl, q, 1);
        lemma_mul_is_commutative(q, gl);
        let r = (n - 1) % gl;
        assert(rows[c].right_ord + 1 == n);
        assert(rows[c].left_ord == q * gl);
        if r + 1 == gl {
            lemma_fundamental_div_mod_converse_mod(n, gl, q + 1, 0);
        } else {
            lemma_fundamental_div_mod_converse_mod(n, gl, q, r + 1);
        }
    }
}

/// Union of the document sets of a numeric level's persisted entries.
pub open spec fn union_number_rows(rows: Seq<NumberLevelEntry>) -> Set<u32>
    decreases rows.len(),
{
    if rows.len() == 0 {
        Set::empty()
    } else {
        union_number_rows(rows.drop_last()).union(bitmap_set(rows.last().docids))
    }
}

/// Union of the document sets of a textual level's persisted entries.
pub open spec fn union_string_rows(rows: Seq<StringLevelEntry>) -> Set<u32>
    decreases rows.len(),
{
    if rows.len() == 0 {
        Set::empty()
    } else {
        union_string_rows(rows.drop_last()).union(bitmap_set(rows.last().docids))
    }
}

proof fn lemma_number_coverage_prefix(
    field_id: u16,
    keys: Seq<u64>,
    sets: Seq<Set<u32>>,
    gl: int,
    level: int,
    rows: Seq<NumberLevelEntry>,
    k: int,
)
    requires
        1 <= gl,
        number_level_rows_ok(field_id, keys, sets, gl, level, rows),
        0 <= k <= rows.len(),
    ensures
        union_number_rows(rows.take(k)) == union_range(
            sets,
            0,
            if k * gl <= sets.len() {
                k * gl
            } else {
                sets.len() as int
            },
        ),
    decreases k,
{
    let n = sets.len() as int;
    if k == 0 {
        assert(rows.take(0) =~= Seq::<NumberLevelEntry>::empty());
    } else {
        lemma_number_coverage_prefix(field_id, keys, sets, gl, level, rows, k - 1);
        assert(rows.take(k) =~= rows.take(k - 1).push(rows[k - 1]));
        assert(rows.take(k).drop_last() =~= rows.take(k - 1));
        assert(number_entry_ok(field_id, keys, sets, gl, level, k - 1, rows[k - 1]));
        lemma_start_in_bounds(n, gl, k - 1);
        lemma_mul_inequality(k - 1, k, gl);
        let hi = if k * gl <= n {
            k * gl
        } else {
            n
        };
        lemma_union_range_split(sets, 0, (k - 1) * gl, hi);
    }
}

proof fn lemma_string_coverage_prefix(
    field_id: u16,
    texts: Seq<String>,
    sets: Seq<Set<u32>>,
    gl: int,
    level: int,
    rows: Seq<StringLevelEntry>,
    k: int,
)
    requires
        1 <= gl,
        string_level_rows_ok(field_id, texts, sets, gl, level, rows),
        0 <= k <= rows.len(),
    ensures
        union_string_rows(rows.take(k)) == union_range(
            sets,
            0,
            if k * gl <= sets.len() {
                k * gl
            } else {
                sets.len() as int
            },
        ),
    decreases k,
{
    let n = sets.len() as int;
    if k == 0 {
        assert(rows.take(0) =~= Seq::<StringLevelEntry>::empty());
    } else {
        lemma_string_coverage_prefix(field_id, texts, sets, gl, level, rows, k - 1);
        assert(rows.take(k) =~= rows.take(k - 1).push(rows[k - 1]));
        assert(rows.take(k).drop_last() =~= rows.take(k - 1));
        assert(string_entry_ok(field_id, texts, sets, gl, level, k - 1, rows[k - 1]));
        lemma_start_in_bounds(n, gl, k - 1);
        lemma_mul_inequality(k - 1, k, gl);
        let hi = if k * gl <= n {
            k * gl
        } else {
            n
        };
        lemma_union_range_split(sets, 0, (k - 1) * gl, hi);
    }
}

/// Coverage for persisted numeric levels: the union of the document sets
/// of a level's entries equals the union over every base entry of the
/// field, whatever the level.
pub proof fn lemma_number_level_coverage(
    field_id: u16,
    keys: Seq<u64>,
    sets: Seq<Set<u32>>,
    gl: int,
    level: int,
    rows: Seq<NumberLevelEntry>,
)
    requires
        1 <= gl,
        number_level_rows_ok(field_id, keys, sets, gl, level, rows),
    ensures
        union_number_rows(rows) == union_range(sets, 0, sets.len() as int),
{
    let n = sets.len() as int;
    let count = group_count(n, gl);
    lemma_number_coverage_prefix(field_id, keys, sets, gl, level, rows, count);
    assert(rows.take(count) =~= rows);
    if n >= 1 {
        lemma_count_covers(n, gl);
    }
}

/// A sorted key sequence is monotone over index order.
proof fn lemma_keys_monotone(keys: Seq<u64>, a: int, b: int)
    requires
        keys_sorted(keys),
        0 <= a <= b < keys.len(),
    ensures
        keys[a] <= keys[b],
        a < b ==> keys[a] < keys[b],
{
}

/// A persisted numeric entry `e` with index `j` of the finer level lies,
/// in bound space, whole inside the coarser entry with index `j / g`.
pub open spec fn number_entry_contained(
    coarse: Seq<NumberLevelEntry>,
    g: int,
    j: int,
    e: NumberLevelEntry,
) -> bool {
    &&& 0 <= j / g < coarse.len()
    &&& coarse[j / g].left <= e.left
    &&& e.right <= coarse[j / g].right
}

/// Containment for persisted numeric levels, in bound space: with the base
/// keys sorted ascending, every entry of the finer level lies whole inside
/// the bounds of the coarser entry with index `j / g`, and consecutive
/// coarser entries cover disjoint adjacent key ranges - their bounds are
/// consecutive base keys, so the partition has no gaps and no overlaps.
pub proof fn lemma_number_level_containment(
    field_id: u16,
    keys: Seq<u64>,
    sets: Seq<Set<u32>>,
    g: int,
    gl: int,
    level: int,
    fine: Seq<NumberLevelEntry>,
    coarse: Seq<NumberLevelEntry>,
)
    requires
        1 <= g,
        1 <= gl,
        keys.len() == sets.len(),
        keys_sorted(keys),
        number_level_rows_ok(field_id, keys, sets, gl, level, fine),
        number_level_rows_ok(field_id, keys, sets, gl * g, level + 1, coarse),
    ensures
        forall|j: int|
            0 <= j < fine.len() ==> #[trigger] number_entry_contained(coarse, g, j, fine[j]),
        forall|i: int|
            0 <= i < coarse.len() - 1 ==> (#[trigger] coarse[i]).right < coarse[i + 1].left,
{
    let n = sets.len() as int;
    let d = gl * g;
    vstd::arithmetic::mul::lemma_mul_strictly_positive(gl, g);
    assert forall|j: int| 0 <= j < fine.len() implies #[trigger] number_entry_contained(
        coarse,
        g,
        j,
        fine[j],
    ) by {
        let i = j / g;
        lemma_fundamental_div_mod(j, g);
        lemma_mod_bound(j, g);
        vstd::arithmetic::div_mod::lemma_div_pos_is_pos(j, g);
        assert(number_entry_ok(field_id, keys, sets, gl, level, j, fine[j]));
        lemma_start_in_bounds(n, gl, j);
        assert(i * d == (i * g) * gl) by {
            lemma_mul_is_commutative(gl, g);
            vstd::arithmetic::mul::lemma_mul_is_associative(i, g, gl);
        }
        assert(i * g <= j);
        lemma_mul_inequality(i * g, j, gl);
        assert(i * d <= j * gl);
        vstd::arithmetic::mul::lemma_mul_nonnegative(i, d);
        vstd::arithmetic::div_mod::lemma_div_by_multiple(i, d);
        lemma_div_is_ordered(i * d, n - 1, d);
        assert(i < coarse.len());
        assert(number_entry_ok(field_id, keys, sets, d, level + 1, i, coarse[i]));
        assert((j + 1) * gl <= (i + 1) * d) by {
            assert(j + 1 <= (i + 1) * g) by {
                lemma_mul_is_distributive_add_other_way(g, i, 1);
            }
            lemma_mul_inequality(j + 1, (i + 1) * g, gl);
            assert(((i + 1) * g) * gl == (i + 1) * d) by {
                lemma_mul_is_commutative(gl, g);
                vstd::arithmetic::mul::lemma_mul_is_associative(i + 1, g, gl);
            }
            lemma_mul_is_commutative(j + 1, gl);
            lemma_mul_is_commutative(gl, j + 1);
        }
        let end_f = if (j + 1) * gl <= n {
            (j + 1) * gl
        } else {
            n
        };
        let end_c = if (i + 1) * d <= n {
            (i + 1) * d
        } else {
            n
        };
        vstd::arithmetic::mul::lemma_mul_strict_inequality(j, j + 1, gl);
        lemma_start_in_bounds(n, d, i);
        // sorted keys carry the nested index spans to nested bounds
        lemma_keys_monotone(keys, i * d, j * gl);
        lemma_keys_monotone(keys, end_f - 1, end_c - 1);
    }
    assert forall|i: int| 0 <= i < coarse.len() - 1 implies (#[trigger] coarse[i]).right < coarse[i
        + 1].left by {
        assert(number_entry_ok(field_id, keys, sets, d, level + 1, i, coarse[i]));
        assert(number_entry_ok(field_id, keys, sets, d, level + 1, i + 1, coarse[i + 1]));
        lemma_start_in_bounds(n, d, i + 1);
        lemma_mul_inequality(i + 1, coarse.len() - 1, d);
        vstd::arithmetic::mul::lemma_mul_strictly_positive(i + 1, d);
        lemma_keys_monotone(keys, (i + 1) * d - 1, (i + 1) * d);
    }
}

/// Coverage for persisted textual levels, on the same terms.
pub proof fn lemma_string_level_coverage(
    field_id: u16,
    texts: Seq<String>,
    sets: Seq<Set<u32>>,
    gl: int,
    level: int,
    rows: Seq<StringLevelEntry>,
)
    requires
        1 <= gl,
        string_level_rows_ok(field_id, texts, sets, gl, level, rows),
    ensures
        union_string_rows(rows) == union_range(sets, 0, sets.len() as int),
{
    let n = sets.len() as int;
    let count = group_count(n, gl);
    lemma_string_coverage_prefix(field_id, texts, sets, gl, level, rows, count);
    assert(rows.take(count) =~= rows);
    if n >= 1 {
        lemma_count_covers(n, gl);
    }
}

/// Coverage through the orchestrator: in a rebuilt field, every level's
/// union of document sets - numeric or textual, whatever the level - equals
/// the field's aggregate document set, which is the union over its base
/// entries.
pub proof fn lemma_field_output_coverage(g: int, m: int, f: FieldLevelZero, o: FieldLevels)
    requires
        1 <= g,
        field_output_ok(g, m, f, o),
    ensures
        forall|l: int|
            0 <= l < o.number_levels@.len() ==> union_number_rows(
                (#[trigger] o.number_levels@[l])@,
            ) == bitmap_set(o.number_documents_ids),
        forall|l: int|
            0 <= l < o.string_levels@.len() ==> union_string_rows(
                (#[trigger] o.string_levels@[l])@,
            ) == bitmap_set(o.string_documents_ids),
{
    assert forall|l: int| 0 <= l < o.number_levels@.len() implies union_number_rows(
        (#[trigger] o.number_levels@[l])@,
    ) == bitmap_set(o.number_documents_ids) by {
        vstd::arithmetic::power::lemma_pow_positive(g, (l + 1) as nat);
        lemma_number_level_coverage(
            f.field_id,
            f.number_keys@,
            crate::bitmap::sets_of(f.number_docids@),
            vstd::arithmetic::power::pow(g, (l + 1) as nat),
            l + 1,
            o.number_levels@[l]@,
        );
    }
    assert forall|l: int| 0 <= l < o.string_levels@.len() implies union_string_rows(
        (#[trigger] o.string_levels@[l])@,
    ) == bitmap_set(o.string_documents_ids) by {
        vstd::arithmetic::power::lemma_pow_positive(g, (l + 1) as nat);
        lemma_string_level_coverage(
            f.field_id,
            f.string_texts@,
            crate::bitmap::sets_of(f.string_docids@),
            vstd::arithmetic::power::pow(g, (l + 1) as nat),
            l + 1,
            o.string_levels@[l]@,
        );
    }
}

} // verus!
