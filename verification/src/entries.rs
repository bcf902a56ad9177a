//! Persisted level entries, their construction, and range clearing.
//!
//! A numeric entry carries its bounds as order-preserving integer keys (the
//! store's total order over the facet's numeric values); a textual entry
//! carries the ordinals that the sorted base order assigns, and - only at
//! level 1 - the literal bound strings, so that range queries at the finest
//! aggregated level can recover the exact boundary text.
//!
//! A field's persisted level table is modelled as the sequence of its rows;
//! the clearer drops every row of the field at level 1 and above, leaving
//! level 0 and other fields untouched.

use vstd::prelude::*;
use roaring::RoaringBitmap;

verus! {

/// One persisted entry of a numeric facet level: the union of the document
/// bitmaps of the base values in `left ..= right`.
pub struct NumberLevelEntry {
    pub field_id: u16,
    pub level: u8,
    /// Left bound, as an order-preserving key for the numeric value.
    pub left: u64,
    /// Right bound (inclusive), as an order-preserving key.
    pub right: u64,
    pub docids: RoaringBitmap,
}

/// One persisted entry of a textual facet level: bounds are the ordinals of
/// the base entries, with the literal strings kept at level 1 only.
pub struct StringLevelEntry {
    pub field_id: u16,
    pub level: u8,
    /// Ordinal of the left bound in the sorted base order.
    pub left_ord: u32,
    /// Ordinal of the right bound (inclusive).
    pub right_ord: u32,
    /// The literal left and right bound strings, present exactly at level 1.
    pub bounds_text: Option<(String, String)>,
    pub docids: RoaringBitmap,
}

/// Append one numeric level entry to a level's output.
pub fn write_number_entry(
    out: &mut Vec<NumberLevelEntry>,
    field_id: u16,
    level: u8,
    left: u64,
    right: u64,
    docids: RoaringBitmap,
)
    requires
        level >= 1,
    ensures
        final(out)@ == old(out)@.push(
            (NumberLevelEntry { field_id, level, left, right, docids }),
        ),
{
    out.push(NumberLevelEntry { field_id, level, left, right, docids });
}

/// Append one textual level entry to a level's output, keeping the literal
/// bound strings exactly when the entry belongs to level 1.
pub fn write_string_entry(
    out: &mut Vec<StringLevelEntry>,
    field_id: u16,
    level: u8,
    left_ord: u32,
    right_ord: u32,
    left_text: &String,
    right_text: &String,
    docids: RoaringBitmap,
)
    requires
        level >= 1,
    ensures
        final(out)@ == old(out)@.push(
            (StringLevelEntry {
                field_id,
                level,
                left_ord,
                right_ord,
                bounds_text: if level == 1 {
                    Some((*left_text, *right_text))
                } else {
                    None
                },
                docids,
            }),
        ),
{
    let bounds_text = if level == 1 {
        Some((left_text.clone(), right_text.clone()))
    } else {
        None
    };
    out.push(StringLevelEntry { field_id, level, left_ord, right_ord, bounds_text, docids });
}

/// A numeric row survives clearing a field's levels when it belongs to
/// another field or to the untouched base level.
pub open spec fn number_row_kept(field_id: u16) -> spec_fn(NumberLevelEntry) -> bool {
    |e: NumberLevelEntry| e.field_id != field_id || e.level == 0
}

/// A textual row survives clearing on the same terms.
pub open spec fn string_row_kept(field_id: u16) -> spec_fn(StringLevelEntry) -> bool {
    |e: StringLevelEntry| e.field_id != field_id || e.level == 0
}

/// The field's table after clearing its levels above the base.
pub open spec fn spec_clear_number(table: Seq<NumberLevelEntry>, field_id: u16) -> Seq<
    NumberLevelEntry,
> {
    table.filter(number_row_kept(field_id))
}

/// The field's textual table after clearing its levels above the base.
pub open spec fn spec_clear_string(table: Seq<StringLevelEntry>, field_id: u16) -> Seq<
    StringLevelEntry,
> {
    table.filter(string_row_kept(field_id))
}

/// Appending one row to a table filters to the old result, extended by the
/// row exactly when the row is kept.
proof fn lemma_keep_push<A>(s: Seq<A>, pred: spec_fn(A) -> bool, e: A)
    ensures
        s.push(e).filter(pred) == (if pred(e) {
            s.filter(pred).push(e)
        } else {
            s.filter(pred)
        }),
{
    reveal(Seq::filter);
    assert(s.push(e).drop_last() =~= s);
    assert(s.push(e).last() == e);
}

/// A sequence every element of which is kept filters to itself.
proof fn lemma_keep_all<A>(s: Seq<A>, pred: spec_fn(A) -> bool)
    requires
        forall|i: int| 0 <= i < s.len() ==> pred(#[trigger] s[i]),
    ensures
        s.filter(pred) == s,
    decreases s.len(),
{
    reveal(Seq::filter);
    if s.len() == 0 {
        assert(s.filter(pred) =~= s);
    } else {
        lemma_keep_all(s.drop_last(), pred);
        assert(s.drop_last().push(s.last()) =~= s);
    }
}

/// A sequence no element of which is kept filters to nothing.
proof fn lemma_keep_none<A>(s: Seq<A>, pred: spec_fn(A) -> bool)
    requires
        forall|i: int| 0 <= i < s.len() ==> !pred(#[trigger] s[i]),
    ensures
        s.filter(pred) == Seq::<A>::empty(),
    decreases s.len(),
{
    reveal(Seq::filter);
    if s.len() > 0 {
        lemma_keep_none(s.drop_last(), pred);
    }
}

/// Filtering is idempotent: a second pass keeps everything the first kept.
proof fn lemma_keep_idempotent<A>(s: Seq<A>, pred: spec_fn(A) -> bool)
    ensures
        s.filter(pred).filter(pred) == s.filter(pred),
{
    broadcast use Seq::lemma_filter_pred;

    lemma_keep_all(s.filter(pred), pred);
}

/// Delete every entry of the field at level 1 and above, leaving the base
/// level and other fields untouched.
pub fn clear_field_number_levels(table: Vec<NumberLevelEntry>, field_id: u16) -> (r: Vec<
    NumberLevelEntry,
>)
    ensures
        r@ == spec_clear_number(table@, field_id),
{
    let ghost orig = table@;
    let mut rest = table;
    let mut r: Vec<NumberLevelEntry> = Vec::new();
    let ghost mut done: Seq<NumberLevelEntry> = Seq::empty();
    while rest.len() > 0
        invariant
            orig == done + rest@,
            r@ == spec_clear_number(done, field_id),
        decreases rest@.len(),
    {
        let e = rest.remove(0);
        proof {
            assert(done.push(e) + rest@ =~= orig);
            lemma_keep_push(done, number_row_kept(field_id), e);
        }
        if e.level == 0 || e.field_id != field_id {
            r.push(e);
        }
        proof {
            done = done.push(e);
        }
    }
    proof {
        assert(done =~= orig);
    }
    r
}

/// Delete every textual entry of the field at level 1 and above, leaving the
/// base level and other fields untouched.
pub fn clear_field_string_levels(table: Vec<StringLevelEntry>, field_id: u16) -> (r: Vec<
    StringLevelEntry,
>)
    ensures
        r@ == spec_clear_string(table@, field_id),
{
    let ghost orig = table@;
    let mut rest = table;
    let mut r: Vec<StringLevelEntry> = Vec::new();
    let ghost mut done: Seq<StringLevelEntry> = Seq::empty();
    while rest.len() > 0
        invariant
            orig == done + rest@,
            r@ == spec_clear_string(done, field_id),
        decreases rest@.len(),
    {
        let e = rest.remove(0);
        proof {
            assert(done.push(e) + rest@ =~= orig);
            lemma_keep_push(done, string_row_kept(field_id), e);
        }
        if e.level == 0 || e.field_id != field_id {
            r.push(e);
        }
        proof {
            done = done.push(e);
        }
    }
    proof {
        assert(done =~= orig);
    }
    r
}

/// Clearing a field's levels twice in a row changes nothing the second
/// time: the clearer is idempotent, and clearing an already-empty range is
/// a no-op, not an error.
pub proof fn lemma_clear_number_idempotent(table: Seq<NumberLevelEntry>, field_id: u16)
    ensures
        spec_clear_number(spec_clear_number(table, field_id), field_id) == spec_clear_number(
            table,
            field_id,
        ),
{
    lemma_keep_idempotent(table, number_row_kept(field_id));
}

/// The textual clearer is idempotent on the same terms.
pub proof fn lemma_clear_string_idempotent(table: Seq<StringLevelEntry>, field_id: u16)
    ensures
        spec_clear_string(spec_clear_string(table, field_id), field_id) == spec_clear_string(
            table,
            field_id,
        ),
{
    lemma_keep_idempotent(table, string_row_kept(field_id));
}

/// The field's table after a rebuild: its old levels above the base are
/// cleared and the freshly built rows are appended.
pub open spec fn spec_rebuild_number(
    table: Seq<NumberLevelEntry>,
    field_id: u16,
    new_rows: Seq<NumberLevelEntry>,
) -> Seq<NumberLevelEntry> {
    spec_clear_number(table, field_id) + new_rows
}

/// The textual table after a rebuild, on the same terms.
pub open spec fn spec_rebuild_string(
    table: Seq<StringLevelEntry>,
    field_id: u16,
    new_rows: Seq<StringLevelEntry>,
) -> Seq<StringLevelEntry> {
    spec_clear_string(table, field_id) + new_rows
}

/// Rebuilding with unchanged base data is idempotent: running the clear-and
/// -append cycle a second time with the same built rows leaves the table
/// byte for byte as the first run left it.
pub proof fn lemma_rebuild_number_idempotent(
    table: Seq<NumberLevelEntry>,
    field_id: u16,
    new_rows: Seq<NumberLevelEntry>,
)
    requires
        forall|i: int|
            0 <= i < new_rows.len() ==> (#[trigger] new_rows[i]).field_id == field_id
                && new_rows[i].level >= 1,
    ensures
        spec_rebuild_number(
            spec_rebuild_number(table, field_id, new_rows),
            field_id,
            new_rows,
        ) == spec_rebuild_number(table, field_id, new_rows),
{
    let pred = number_row_kept(field_id);
    Seq::filter_distributes_over_add(spec_clear_number(table, field_id), new_rows, pred);
    lemma_keep_idempotent(table, pred);
    lemma_keep_none(new_rows, pred);
    assert(spec_clear_number(table, field_id) + Seq::<NumberLevelEntry>::empty() =~= spec_clear_number(
        table,
        field_id,
    ));
}

/// The textual rebuild is idempotent on the same terms.
pub proof fn lemma_rebuild_string_idempotent(
    table: Seq<StringLevelEntry>,
    field_id: u16,
    new_rows: Seq<StringLevelEntry>,
)
    requires
        forall|i: int|
            0 <= i < new_rows.len() ==> (#[trigger] new_rows[i]).field_id == field_id
                && new_rows[i].level >= 1,
    ensures
        spec_rebuild_string(
            spec_rebuild_string(table, field_id, new_rows),
            field_id,
            new_rows,
        ) == spec_rebuild_string(table, field_id, new_rows),
{
    let pred = string_row_kept(field_id);
    Seq::filter_distributes_over_add(spec_clear_string(table, field_id), new_rows, pred);
    lemma_keep_idempotent(table, pred);
    lemma_keep_none(new_rows, pred);
    assert(spec_clear_string(table, field_id) + Seq::<StringLevelEntry>::empty() =~= spec_clear_string(
        table,
        field_id,
    ));
}

/// Clear a field's levels and append its freshly built rows.
pub fn rebuild_field_number_table(
    table: Vec<NumberLevelEntry>,
    field_id: u16,
    new_rows: Vec<NumberLevelEntry>,
) -> (r: Vec<NumberLevelEntry>)
    ensures
        r@ == spec_rebuild_number(table@, field_id, new_rows@),
{
    let mut r = clear_field_number_levels(table, field_id);
    let mut new_rows = new_rows;
    r.append(&mut new_rows);
    r
}

/// Clear a field's textual levels and append its freshly built rows.
pub fn rebuild_field_string_table(
    table: Vec<StringLevelEntry>,
    field_id: u16,
    new_rows: Vec<StringLevelEntry>,
) -> (r: Vec<StringLevelEntry>)
    ensures
        r@ == spec_rebuild_string(table@, field_id, new_rows@),
{
    let mut r = clear_field_string_levels(table, field_id);
    let mut new_rows = new_rows;
    r.append(&mut new_rows);
    r
}

} // verus!
