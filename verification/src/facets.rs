//! Facets orchestrator.
//!
//! `Facets` carries the two tunables and recomputes, for every faceted
//! field handed in, the numeric and the textual levels together with the
//! field's aggregate document sets. The caller owns the store: it reads
//! each field's base entries into a `FieldLevelZero`, and persists the
//! returned levels after clearing the old ones.

use vstd::prelude::*;
use roaring::RoaringBitmap;
use crate::bitmap::bitmap_set;
use crate::bitmap::sets_of;
use crate::bitmap::union_range;
use crate::entries::NumberLevelEntry;
use crate::entries::StringLevelEntry;
use crate::field_levels::compute_facet_number_levels;
use crate::field_levels::compute_facet_strings_levels;
use crate::field_levels::keys_sorted;
use crate::field_levels::number_levels_ok;
use crate::field_levels::string_levels_ok;

verus! {

/// One faceted field's base entries: distinct numeric values (as
/// order-preserving keys) and distinct strings, each in ascending order and
/// paired with the bitmap of documents holding that value.
pub struct FieldLevelZero {
    pub field_id: u16,
    pub number_keys: Vec<u64>,
    pub number_docids: Vec<RoaringBitmap>,
    pub string_texts: Vec<String>,
    pub string_docids: Vec<RoaringBitmap>,
}

/// One field's rebuilt levels and aggregate document sets, numeric and
/// textual tracked separately.
pub struct FieldLevels {
    pub field_id: u16,
    pub number_levels: Vec<Vec<NumberLevelEntry>>,
    pub number_documents_ids: RoaringBitmap,
    pub string_levels: Vec<Vec<StringLevelEntry>>,
    pub string_documents_ids: RoaringBitmap,
}

/// A field's base entries as the builder expects them: bounds aligned with
/// bitmaps, numeric keys ascending, and few enough strings for ordinals.
pub open spec fn field_input_wf(f: FieldLevelZero) -> bool {
    &&& f.number_keys@.len() == f.number_docids@.len()
    &&& keys_sorted(f.number_keys@)
    &&& f.string_texts@.len() == f.string_docids@.len()
    &&& f.string_texts@.len() <= 0xffff_ffff
}

/// The rebuilt output owed for one field: correct numeric and textual
/// levels for the planner's chosen top, and aggregate sets equal to the
/// union over the field's base bitmaps.
pub open spec fn field_output_ok(g: int, m: int, f: FieldLevelZero, o: FieldLevels) -> bool {
    &&& o.field_id == f.field_id
    &&& number_levels_ok(
        f.field_id,
        f.number_keys@,
        sets_of(f.number_docids@),
        g,
        m,
        o.number_levels@,
    )
    &&& bitmap_set(o.number_documents_ids) == union_range(
        sets_of(f.number_docids@),
        0,
        f.number_docids@.len() as int,
    )
    &&& string_levels_ok(
        f.field_id,
        f.string_texts@,
        sets_of(f.string_docids@),
        g,
        m,
        o.string_levels@,
    )
    &&& bitmap_set(o.string_documents_ids) == union_range(
        sets_of(f.string_docids@),
        0,
        f.string_docids@.len() as int,
    )
}

/// Rebuilds every faceted field's aggregation levels with two tunables: the
/// grouping factor and the minimum worthwhile level size.
pub struct Facets {
    pub level_group_size: usize,
    pub min_level_size: usize,
}

/// The tunables stay in the range the algorithms expect: a grouping factor
/// of at least 2 and a positive minimum level size.
pub open spec fn facets_wf(f: Facets) -> bool {
    &&& f.level_group_size >= 2
    &&& f.min_level_size >= 1
}

impl Facets {
    /// A rebuild with the default tunables.
    pub fn new() -> (r: Facets)
        ensures
            r.level_group_size == 4,
            r.min_level_size == 5,
            facets_wf(r),
    {
        Facets { level_group_size: 4, min_level_size: 5 }
    }

    /// Set the grouping factor; values below 2 are clamped up to 2, so a
    /// group always joins at least two lower entries.
    pub fn level_group_size(&mut self, value: usize) -> (r: &mut Facets)
        ensures
            *r == (Facets {
                level_group_size: if value >= 2 {
                    value
                } else {
                    2
                },
                min_level_size: old(self).min_level_size,
            }),
            *final(self) == *final(r),
            facets_wf(*old(self)) ==> facets_wf(*r),
    {
        self.level_group_size = if value >= 2 {
            value
        } else {
            2
        };
        self
    }

    /// Set the minimum worthwhile level size.
    pub fn min_level_size(&mut self, value: usize) -> (r: &mut Facets)
        requires
            value >= 1,
        ensures
            *r == (Facets {
                level_group_size: old(self).level_group_size,
                min_level_size: value,
            }),
            *final(self) == *final(r),
            facets_wf(*old(self)) ==> facets_wf(*r),
    {
        self.min_level_size = value;
        self
    }

    /// Recompute every field's facet levels: for each field, both the
    /// numeric and the textual levels are rebuilt from its base entries,
    /// and the field's aggregate document sets are returned with them.
    pub fn execute(self, fields: Vec<FieldLevelZero>) -> (r: Vec<FieldLevels>)
        requires
            facets_wf(self),
            forall|i: int| 0 <= i < fields@.len() ==> field_input_wf(#[trigger] fields@[i]),
        ensures
            r@.len() == fields@.len(),
            forall|i: int|
                0 <= i < fields@.len() ==> field_output_ok(
                    self.level_group_size as int,
                    self.min_level_size as int,
                    fields@[i],
                    #[trigger] r@[i],
                ),
    {
        let ghost fields0 = fields@;
        let mut fields = fields;
        let mut out: Vec<FieldLevels> = Vec::new();
        while fields.len() > 0
            invariant
                facets_wf(self),
                out@.len() + fields@.len() == fields0.len(),
                fields@ == fields0.subrange(out@.len() as int, fields0.len() as int),
                forall|i: int| 0 <= i < fields0.len() ==> field_input_wf(#[trigger] fields0[i]),
                forall|i: int|
                    0 <= i < out@.len() ==> field_output_ok(
                        self.level_group_size as int,
                        self.min_level_size as int,
                        fields0[i],
                        #[trigger] out@[i],
                    ),
            decreases fields@.len(),
        {
            let ghost i = out@.len() as int;
            let field = fields.remove(0);
            proof {
                assert(field == fields0[i]);
                assert(field_input_wf(fields0[i]));
                assert(fields@ =~= fields0.subrange(i + 1, fields0.len() as int));
            }
            let (string_levels, string_documents_ids) = compute_facet_strings_levels(
                field.field_id,
                &field.string_texts,
                &field.string_docids,
                self.level_group_size,
                self.min_level_size,
            );
            let (number_levels, number_documents_ids) = compute_facet_number_levels(
                field.field_id,
                &field.number_keys,
                &field.number_docids,
                self.level_group_size,
                self.min_level_size,
            );
            out.push(
                FieldLevels {
                    field_id: field.field_id,
                    number_levels,
                    number_documents_ids,
                    string_levels,
                    string_documents_ids,
                },
            );
        }
        out
    }
}

} // verus!
