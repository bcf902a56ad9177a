//! Per-field level computation for the two facet kinds.
//!
//! Each function takes a field's base entries - bounds and document bitmaps
//! in ascending bound order - picks the top level with the planner, builds
//! every level with the builder, and maps the built groups onto persistable
//! entries; it also returns the union of every document bitmap of the
//! field, the field's aggregate document set.

use vstd::prelude::*;
use roaring::RoaringBitmap;
use vstd::arithmetic::power::pow;
use vstd::arithmetic::mul::lemma_mul_strict_inequality;
use crate::bitmap::bitmap_set;
use crate::bitmap::sets_of;
use crate::bitmap::union_range;
use crate::bitmap::union_of_bitmaps;
use crate::builder::FacetGroup;
use crate::builder::compute_levels;
use crate::builder::group_count;
use crate::builder::group_ok;
use crate::builder::level_ok;
use crate::builder::lemma_group_start_in_bounds;
use crate::entries::NumberLevelEntry;
use crate::entries::StringLevelEntry;
use crate::entries::write_number_entry;
use crate::entries::write_string_entry;
use crate::planner::is_highest_level;
use crate::planner::highest_level;

verus! {

/// Base bounds are handed in ascending order, one per distinct facet value.
pub open spec fn keys_sorted(keys: Seq<u64>) -> bool {
    forall|i: int, j: int| 0 <= i < j < keys.len() ==> keys[i] < keys[j]
}

/// Entry `i` of a numeric level with group size `gl`: it spans the base
/// keys of its group and unions their document sets.
pub open spec fn number_entry_ok(
    field_id: u16,
    keys: Seq<u64>,
    sets: Seq<Set<u32>>,
    gl: int,
    level: int,
    i: int,
    e: NumberLevelEntry,
) -> bool {
    let n = sets.len() as int;
    let end = if (i + 1) * gl <= n {
        (i + 1) * gl
    } else {
        n
    };
    &&& e.field_id == field_id
    &&& e.level == level
    &&& e.left == keys[i * gl]
    &&& e.right == keys[end - 1]
    &&& bitmap_set(e.docids) == union_range(sets, i * gl, end)
}

/// A whole numeric level: the right number of entries, each correct.
pub open spec fn number_level_rows_ok(
    field_id: u16,
    keys: Seq<u64>,
    sets: Seq<Set<u32>>,
    gl: int,
    level: int,
    rows: Seq<NumberLevelEntry>,
) -> bool {
    &&& rows.len() == group_count(sets.len() as int, gl)
    &&& forall|i: int|
        0 <= i < rows.len() ==> #[trigger] number_entry_ok(field_id, keys, sets, gl, level, i, rows[i])
}

/// Every numeric level from 1 to the planner's top, each over group size
/// `level_group_size^L`.
pub open spec fn number_levels_ok(
    field_id: u16,
    keys: Seq<u64>,
    sets: Seq<Set<u32>>,
    g: int,
    m: int,
    levels: Seq<Vec<NumberLevelEntry>>,
) -> bool {
    &&& is_highest_level(sets.len() as int, g, m, levels.len() as int)
    &&& forall|l: int|
        0 <= l < levels.len() ==> number_level_rows_ok(
            field_id,
            keys,
            sets,
            pow(g, (l + 1) as nat),
            l + 1,
            (#[trigger] levels[l])@,
        )
}

/// Entry `i` of a textual level with group size `gl`: its bounds are the
/// ordinals of its group's first and last base entries, the literal bound
/// strings ride along exactly at level 1, and it unions the group's sets.
pub open spec fn string_entry_ok(
    field_id: u16,
    texts: Seq<String>,
    sets: Seq<Set<u32>>,
    gl: int,
    level: int,
    i: int,
    e: StringLevelEntry,
) -> bool {
    let n = sets.len() as int;
    let end = if (i + 1) * gl <= n {
        (i + 1) * gl
    } else {
        n
    };
    &&& e.field_id == field_id
    &&& e.level == level
    &&& e.left_ord == i * gl
    &&& e.right_ord == end - 1
    &&& e.bounds_text == (if level == 1 {
        Some((texts[i * gl], texts[end - 1]))
    } else {
        None::<(String, String)>
    })
    &&& bitmap_set(e.docids) == union_range(sets, i * gl, end)
}

/// A whole textual level: the right number of entries, each correct.
pub open spec fn string_level_rows_ok(
    field_id: u16,
    texts: Seq<String>,
    sets: Seq<Set<u32>>,
    gl: int,
    level: int,
    rows: Seq<StringLevelEntry>,
) -> bool {
    &&& rows.len() == group_count(sets.len() as int, gl)
    &&& forall|i: int|
        0 <= i < rows.len() ==> #[trigger] string_entry_ok(field_id, texts, sets, gl, level, i, rows[i])
}

/// Every textual level from 1 to the planner's top.
pub open spec fn string_levels_ok(
    field_id: u16,
    texts: Seq<String>,
    sets: Seq<Set<u32>>,
    g: int,
    m: int,
    levels: Seq<Vec<StringLevelEntry>>,
) -> bool {
    &&& is_highest_level(sets.len() as int, g, m, levels.len() as int)
    &&& forall|l: int|
        0 <= l < levels.len() ==> string_level_rows_ok(
            field_id,
            texts,
            sets,
            pow(g, (l + 1) as nat),
            l + 1,
            (#[trigger] levels[l])@,
        )
}

/// A built group covers a non-empty span of base positions.
proof fn lemma_group_span(sets: Seq<Set<u32>>, gl: int, i: int, e: FacetGroup)
    requires
        1 <= gl,
        0 <= i < group_count(sets.len() as int, gl),
        group_ok(sets, gl, i, e),
    ensures
        e.first <= e.last < sets.len(),
{
    lemma_group_start_in_bounds(sets.len() as int, gl, i);
    lemma_mul_strict_inequality(i, i + 1, gl);
}

/// Turn one built numeric level into its persisted entries, mapping group
/// spans onto the base keys.
fn convert_number_level(
    field_id: u16,
    keys: &Vec<u64>,
    groups: Vec<FacetGroup>,
    level: u8,
    Ghost(sets): Ghost<Seq<Set<u32>>>,
    Ghost(gl): Ghost<int>,
) -> (r: Vec<NumberLevelEntry>)
    requires
        sets.len() == keys@.len(),
        1 <= gl,
        level >= 1,
        level_ok(sets, gl, groups@),
    ensures
        number_level_rows_ok(field_id, keys@, sets, gl, level as int, r@),
{
    let ghost groups0 = groups@;
    let mut groups = groups;
    let mut out: Vec<NumberLevelEntry> = Vec::new();
    while groups.len() > 0
        invariant
            sets.len() == keys@.len(),
            1 <= gl,
            level >= 1,
            level_ok(sets, gl, groups0),
            out@.len() + groups@.len() == groups0.len(),
            groups@ == groups0.subrange(out@.len() as int, groups0.len() as int),
            forall|i: int|
                0 <= i < out@.len() ==> #[trigger] number_entry_ok(
                    field_id,
                    keys@,
                    sets,
                    gl,
                    level as int,
                    i,
                    out@[i],
                ),
        decreases groups@.len(),
    {
        let ghost i = out@.len() as int;
        let e = groups.remove(0);
        proof {
            assert(e == groups0[i]);
            assert(group_ok(sets, gl, i, groups0[i]));
            lemma_group_span(sets, gl, i, e);
            assert(groups@ =~= groups0.subrange(i + 1, groups0.len() as int));
        }
        let FacetGroup { first, last, docids } = e;
        write_number_entry(&mut out, field_id, level, keys[first], keys[last], docids);
    }
    out
}

/// Turn one built textual level into its persisted entries, mapping group
/// spans onto ordinals and - at level 1 - the literal bound strings.
fn convert_string_level(
    field_id: u16,
    texts: &Vec<String>,
    groups: Vec<FacetGroup>,
    level: u8,
    Ghost(sets): Ghost<Seq<Set<u32>>>,
    Ghost(gl): Ghost<int>,
) -> (r: Vec<StringLevelEntry>)
    requires
        sets.len() == texts@.len(),
        texts@.len() <= 0xffff_ffff,
        1 <= gl,
        level >= 1,
        level_ok(sets, gl, groups@),
    ensures
        string_level_rows_ok(field_id, texts@, sets, gl, level as int, r@),
{
    let ghost groups0 = groups@;
    let mut groups = groups;
    let mut out: Vec<StringLevelEntry> = Vec::new();
    while groups.len() > 0
        invariant
            sets.len() == texts@.len(),
            texts@.len() <= 0xffff_ffff,
            1 <= gl,
            level >= 1,
            level_ok(sets, gl, groups0),
            out@.len() + groups@.len() == groups0.len(),
            groups@ == groups0.subrange(out@.len() as int, groups0.len() as int),
            forall|i: int|
                0 <= i < out@.len() ==> #[trigger] string_entry_ok(
                    field_id,
                    texts@,
                    sets,
                    gl,
                    level as int,
                    i,
                    out@[i],
                ),
        decreases groups@.len(),
    {
        let ghost i = out@.len() as int;
        let e = groups.remove(0);
        proof {
            assert(e == groups0[i]);
            assert(group_ok(sets, gl, i, groups0[i]));
            lemma_group_span(sets, gl, i, e);
            assert(groups@ =~= groups0.subrange(i + 1, groups0.len() as int));
        }
        let FacetGroup { first, last, docids } = e;
        write_string_entry(
            &mut out,
            field_id,
            level,
            first as u32,
            last as u32,
            &texts[first],
            &texts[last],
            docids,
        );
    }
    out
}

/// Compute a field's numeric levels: pick the top level from the base size,
/// build levels 1 up to it, and return them with the union of every base
/// document bitmap. With a base too small for even one level, no levels are
/// built and the union is taken directly from the base entries.
pub fn compute_facet_number_levels(
    field_id: u16,
    keys: &Vec<u64>,
    docids: &Vec<RoaringBitmap>,
    level_group_size: usize,
    min_level_size: usize,
) -> (r: (Vec<Vec<NumberLevelEntry>>, RoaringBitmap))
    requires
        keys@.len() == docids@.len(),
        keys_sorted(keys@),
        level_group_size >= 2,
        min_level_size >= 1,
    ensures
        number_levels_ok(
            field_id,
            keys@,
            sets_of(docids@),
            level_group_size as int,
            min_level_size as int,
            r.0@,
        ),
        bitmap_set(r.1) == union_range(sets_of(docids@), 0, docids@.len() as int),
{
    let n = docids.len();
    let aggregate = union_of_bitmaps(docids, n);
    let top = highest_level(n, level_group_size, min_level_size);
    if top == 0 {
        return (Vec::new(), aggregate);
    }
    let built = compute_levels(docids, level_group_size, top);
    let ghost built0 = built@;
    let mut built = built;
    let mut out: Vec<Vec<NumberLevelEntry>> = Vec::new();
    while built.len() > 0
        invariant
            keys@.len() == docids@.len(),
            level_group_size >= 2,
            out@.len() + built@.len() == built0.len(),
            built@ == built0.subrange(out@.len() as int, built0.len() as int),
            built0.len() == top,
            forall|l: int|
                0 <= l < built0.len() ==> level_ok(
                    sets_of(docids@),
                    pow(level_group_size as int, (l + 1) as nat),
                    (#[trigger] built0[l])@,
                ),
            forall|l: int|
                0 <= l < out@.len() ==> number_level_rows_ok(
                    field_id,
                    keys@,
                    sets_of(docids@),
                    pow(level_group_size as int, (l + 1) as nat),
                    l + 1,
                    (#[trigger] out@[l])@,
                ),
        decreases built@.len(),
    {
        let ghost l = out@.len() as int;
        let level_groups = built.remove(0);
        proof {
            assert(level_groups == built0[l]);
            assert(built@ =~= built0.subrange(l + 1, built0.len() as int));
            vstd::arithmetic::power::lemma_pow_positive(level_group_size as int, (l + 1) as nat);
        }
        let level_num: u8 = (out.len() as u8) + 1;
        let rows = convert_number_level(
            field_id,
            keys,
            level_groups,
            level_num,
            Ghost(sets_of(docids@)),
            Ghost(pow(level_group_size as int, (l + 1) as nat)),
        );
        out.push(rows);
    }
    (out, aggregate)
}

/// Compute a field's textual levels on the same terms as the numeric ones;
/// ordinals come from the sorted base order, so the base may hold at most
/// `u32::MAX` entries.
pub fn compute_facet_strings_levels(
    field_id: u16,
    texts: &Vec<String>,
    docids: &Vec<RoaringBitmap>,
    level_group_size: usize,
    min_level_size: usize,
) -> (r: (Vec<Vec<StringLevelEntry>>, RoaringBitmap))
    requires
        texts@.len() == docids@.len(),
        texts@.len() <= 0xffff_ffff,
        level_group_size >= 2,
        min_level_size >= 1,
    ensures
        string_levels_ok(
            field_id,
            texts@,
            sets_of(docids@),
            level_group_size as int,
            min_level_size as int,
            r.0@,
        ),
        bitmap_set(r.1) == union_range(sets_of(docids@), 0, docids@.len() as int),
{
    let n = docids.len();
    let aggregate = union_of_bitmaps(docids, n);
    let top = highest_level(n, level_group_size, min_level_size);
    if top == 0 {
        return (Vec::new(), aggregate);
    }
    let built = compute_levels(docids, level_group_size, top);
    let ghost built0 = built@;
    let mut built = built;
    let mut out: Vec<Vec<StringLevelEntry>> = Vec::new();
    while built.len() > 0
        invariant
            texts@.len() == docids@.len(),
            texts@.len() <= 0xffff_ffff,
            level_group_size >= 2,
            out@.len() + built@.len() == built0.len(),
            built@ == built0.subrange(out@.len() as int, built0.len() as int),
            built0.len() == top,
            forall|l: int|
                0 <= l < built0.len() ==> level_ok(
                    sets_of(docids@),
                    pow(level_group_size as int, (l + 1) as nat),
                    (#[trigger] built0[l])@,
                ),
            forall|l: int|
                0 <= l < out@.len() ==> string_level_rows_ok(
                    field_id,
                    texts@,
                    sets_of(docids@),
                    pow(level_group_size as int, (l + 1) as nat),
                    l + 1,
                    (#[trigger] out@[l])@,
                ),
        decreases built@.len(),
    {
        let ghost l = out@.len() as int;
        let level_groups = built.remove(0);
        proof {
            assert(level_groups == built0[l]);
            assert(built@ =~= built0.subrange(l + 1, built0.len() as int));
            vstd::arithmetic::power::lemma_pow_positive(level_group_size as int, (l + 1) as nat);
        }
        let level_num: u8 = (out.len() as u8) + 1;
        let rows = convert_string_level(
            field_id,
            texts,
            level_groups,
            level_num,
            Ghost(sets_of(docids@)),
            Ghost(pow(level_group_size as int, (l + 1) as nat)),
        );
        out.push(rows);
    }
    (out, aggregate)
}

} // verus!
