use facet_levels::bitmap::union_of_bitmaps;
use facet_levels::builder::compute_levels;
use facet_levels::entries::clear_field_number_levels;
use facet_levels::entries::clear_field_string_levels;
use facet_levels::entries::rebuild_field_number_table;
use facet_levels::entries::NumberLevelEntry;
use facet_levels::entries::StringLevelEntry;
use facet_levels::facets::Facets;
use facet_levels::facets::FieldLevelZero;
use facet_levels::field_levels::compute_facet_number_levels;
use facet_levels::field_levels::compute_facet_strings_levels;
use facet_levels::planner::highest_level;
use roaring::RoaringBitmap;

fn bm(ids: &[u32]) -> RoaringBitmap {
    let mut b = RoaringBitmap::new();
    for &i in ids {
        b.insert(i);
    }
    b
}

fn singleton_bitmaps(n: u32) -> Vec<RoaringBitmap> {
    (0..n).map(|i| bm(&[i])).collect()
}

fn number_row(field_id: u16, level: u8, left: u64, right: u64, ids: &[u32]) -> NumberLevelEntry {
    NumberLevelEntry { field_id, level, left, right, docids: bm(ids) }
}

fn string_row(field_id: u16, level: u8, left_ord: u32, right_ord: u32) -> StringLevelEntry {
    StringLevelEntry {
        field_id,
        level,
        left_ord,
        right_ord,
        bounds_text: None,
        docids: bm(&[left_ord]),
    }
}

fn number_rows_equal(a: &NumberLevelEntry, b: &NumberLevelEntry) -> bool {
    a.field_id == b.field_id
        && a.level == b.level
        && a.left == b.left
        && a.right == b.right
        && a.docids == b.docids
}

#[test]
fn test_highest_level_thousand_entries() {
    // 1000 / 4 = 250, / 16 = 62, / 64 = 15 are all >= 5; 1000 / 256 = 3 is not
    assert_eq!(highest_level(1000, 4, 5), 3);
    // the degenerate threshold keeps building while one entry remains
    assert_eq!(highest_level(100, 10, 1), 2);
    // too small for even one level
    assert_eq!(highest_level(9, 2, 5), 0);
    assert_eq!(highest_level(0, 4, 5), 0);
}

#[test]
fn test_thousand_numeric_entries_level_counts() {
    let keys: Vec<u64> = (0..1000).collect();
    let docids = singleton_bitmaps(1000);
    let (levels, aggregate) = compute_facet_number_levels(7, &keys, &docids, 4, 5);
    assert_eq!(levels.len(), 3);
    assert_eq!(levels[0].len(), 250);
    assert_eq!(levels[1].len(), 63);
    assert_eq!(levels[2].len(), 16);
    // group sizes are 4^L, except the trailing remainder: 1000 = 15 * 64 + 40
    for e in &levels[2][..15] {
        assert_eq!(e.right - e.left + 1, 64);
        assert_eq!(e.docids.len(), 64);
    }
    let last = &levels[2][15];
    assert_eq!(last.left, 960);
    assert_eq!(last.right, 999);
    assert_eq!(last.docids.len(), 40);
    assert_eq!(aggregate.len(), 1000);
}

#[test]
fn test_small_numeric_levels_exact_contents() {
    let keys: Vec<u64> = vec![3, 5, 8, 13, 21, 34, 55, 89, 144, 233];
    let docids: Vec<RoaringBitmap> = (0..10u32).map(|i| bm(&[i, i + 100])).collect();
    let (levels, aggregate) = compute_facet_number_levels(2, &keys, &docids, 2, 1);
    // 10/2 = 5, 10/4 = 2, 10/8 = 1 are all >= 1; 10/16 = 0 is not
    assert_eq!(levels.len(), 3);
    assert_eq!(levels[0].len(), 5);
    assert_eq!(levels[1].len(), 3);
    assert_eq!(levels[2].len(), 2);
    let first = &levels[0][0];
    assert_eq!((first.field_id, first.level, first.left, first.right), (2, 1, 3, 5));
    assert_eq!(first.docids, bm(&[0, 1, 100, 101]));
    let l2_last = &levels[1][2];
    assert_eq!((l2_last.level, l2_last.left, l2_last.right), (2, 144, 233));
    assert_eq!(l2_last.docids, bm(&[8, 9, 108, 109]));
    let top_first = &levels[2][0];
    assert_eq!((top_first.level, top_first.left, top_first.right), (3, 3, 89));
    assert_eq!(top_first.docids.len(), 16);
    let top_last = &levels[2][1];
    assert_eq!((top_last.level, top_last.left, top_last.right), (3, 144, 233));
    // coverage: every level unions back to the full document set
    for level in &levels {
        let mut union = RoaringBitmap::new();
        for e in level {
            union |= &e.docids;
        }
        assert_eq!(union, aggregate);
    }
    // containment: each level-1 group lies inside one level-2 group
    for (j, fine) in levels[0].iter().enumerate() {
        let coarse = &levels[1][j / 2];
        assert!(coarse.left <= fine.left && fine.right <= coarse.right);
    }
}

#[test]
fn test_string_levels_keep_text_bounds_at_level_one() {
    let texts: Vec<String> = (0..8).map(|i| format!("w{i}")).collect();
    let docids = singleton_bitmaps(8);
    let (levels, aggregate) = compute_facet_strings_levels(3, &texts, &docids, 2, 1);
    // 8/2 = 4, 8/4 = 2, 8/8 = 1; 8/16 = 0 stops the planner
    assert_eq!(levels.len(), 3);
    assert_eq!(levels[0].len(), 4);
    for (i, e) in levels[0].iter().enumerate() {
        assert_eq!((e.field_id, e.level), (3, 1));
        assert_eq!((e.left_ord, e.right_ord), (2 * i as u32, 2 * i as u32 + 1));
        let (l, r) = e.bounds_text.as_ref().expect("level 1 keeps literal bounds");
        assert_eq!(l, &format!("w{}", 2 * i));
        assert_eq!(r, &format!("w{}", 2 * i + 1));
        assert_eq!(e.docids, bm(&[2 * i as u32, 2 * i as u32 + 1]));
    }
    for e in levels[1].iter().chain(levels[2].iter()) {
        assert!(e.bounds_text.is_none(), "levels above 1 omit literal bounds");
    }
    assert_eq!(levels[2][0].left_ord, 0);
    assert_eq!(levels[2][0].right_ord, 7);
    assert_eq!(aggregate, bm(&(0..8).collect::<Vec<u32>>()));
}

#[test]
fn test_group_size_one_collapses_every_level() {
    // a grouping factor of 1 copies the base on every level and must
    // neither crash nor loop
    let docids = singleton_bitmaps(100);
    let levels = compute_levels(&docids, 1, 3);
    assert_eq!(levels.len(), 3);
    for level in &levels {
        assert_eq!(level.len(), 100);
        for (i, g) in level.iter().enumerate() {
            assert_eq!((g.first, g.last), (i, i));
            assert_eq!(g.docids, docids[i]);
        }
    }
}

#[test]
fn test_empty_field_yields_no_levels_and_empty_aggregate() {
    let keys: Vec<u64> = vec![];
    let docids: Vec<RoaringBitmap> = vec![];
    let (levels, aggregate) = compute_facet_number_levels(9, &keys, &docids, 4, 5);
    assert!(levels.is_empty());
    assert!(aggregate.is_empty());
    // stale levels of the emptied field are still cleared
    let table = vec![
        number_row(9, 0, 10, 10, &[1]),
        number_row(9, 1, 10, 20, &[1, 2]),
        number_row(8, 1, 10, 20, &[3]),
    ];
    let cleared = clear_field_number_levels(table, 9);
    assert_eq!(cleared.len(), 2);
    assert!(number_rows_equal(&cleared[0], &number_row(9, 0, 10, 10, &[1])));
    assert!(number_rows_equal(&cleared[1], &number_row(8, 1, 10, 20, &[3])));
}

#[test]
fn test_clearing_twice_is_a_no_op() {
    let table = vec![
        number_row(1, 0, 5, 5, &[1]),
        number_row(1, 1, 5, 9, &[1, 2]),
        number_row(1, 2, 5, 17, &[1, 2, 3]),
        number_row(2, 1, 5, 9, &[4]),
    ];
    let once = clear_field_number_levels(table, 1);
    assert_eq!(once.len(), 2);
    let again = clear_field_number_levels(clone_number_rows(&once), 1);
    assert_eq!(again.len(), 2);
    for (a, b) in again.iter().zip(once.iter()) {
        assert!(number_rows_equal(a, b));
    }
    // clearing an empty table never errors either
    let empty = clear_field_number_levels(Vec::new(), 1);
    assert!(empty.is_empty());
    let empty_s = clear_field_string_levels(Vec::new(), 1);
    assert!(empty_s.is_empty());
}

#[test]
fn test_string_clearer_keeps_base_and_other_fields() {
    let table = vec![
        string_row(4, 0, 0, 0),
        string_row(4, 1, 0, 3),
        string_row(5, 2, 0, 7),
    ];
    let cleared = clear_field_string_levels(table, 4);
    assert_eq!(cleared.len(), 2);
    assert_eq!((cleared[0].field_id, cleared[0].level), (4, 0));
    assert_eq!((cleared[1].field_id, cleared[1].level), (5, 2));
}

#[test]
fn test_rebuild_twice_gives_identical_table() {
    let keys: Vec<u64> = (0..20).collect();
    let docids = singleton_bitmaps(20);
    let (levels, _) = compute_facet_number_levels(6, &keys, &docids, 2, 2);
    let new_rows: Vec<NumberLevelEntry> = levels
        .into_iter()
        .flatten()
        .collect();
    let base: Vec<NumberLevelEntry> =
        (0..20u32).map(|i| number_row(6, 0, i as u64, i as u64, &[i])).collect();
    let once = rebuild_field_number_table(base, 6, clone_number_rows(&new_rows));
    let twice = rebuild_field_number_table(clone_number_rows(&once), 6, clone_number_rows(&new_rows));
    assert_eq!(once.len(), twice.len());
    for (a, b) in once.iter().zip(twice.iter()) {
        assert!(number_rows_equal(a, b));
    }
}

fn clone_number_rows(rows: &[NumberLevelEntry]) -> Vec<NumberLevelEntry> {
    rows.iter()
        .map(|e| NumberLevelEntry {
            field_id: e.field_id,
            level: e.level,
            left: e.left,
            right: e.right,
            docids: e.docids.clone(),
        })
        .collect()
}

#[test]
fn test_rerun_is_deterministic() {
    let keys: Vec<u64> = (0..100).map(|i| i * 3).collect();
    let docids: Vec<RoaringBitmap> = (0..100u32).map(|i| bm(&[i, 1000 + i])).collect();
    let (a_levels, a_agg) = compute_facet_number_levels(1, &keys, &docids, 3, 2);
    let (b_levels, b_agg) = compute_facet_number_levels(1, &keys, &docids, 3, 2);
    assert_eq!(a_agg, b_agg);
    assert_eq!(a_levels.len(), b_levels.len());
    for (la, lb) in a_levels.iter().zip(b_levels.iter()) {
        assert_eq!(la.len(), lb.len());
        for (ea, eb) in la.iter().zip(lb.iter()) {
            assert!(number_rows_equal(ea, eb));
        }
    }
}

#[test]
fn test_union_of_bitmaps_combines_distinct_sets() {
    // would fail if the union handed one argument back unchanged
    let rows = vec![bm(&[1, 2]), bm(&[2, 3]), bm(&[50_000])];
    let union = union_of_bitmaps(&rows, 3);
    assert_eq!(union, bm(&[1, 2, 3, 50_000]));
    let prefix = union_of_bitmaps(&rows, 2);
    assert_eq!(prefix, bm(&[1, 2, 3]));
    let none = union_of_bitmaps(&rows, 0);
    assert!(none.is_empty());
}

#[test]
fn test_facets_execute_rebuilds_every_field() {
    let mut facets = Facets::new();
    assert_eq!(facets.level_group_size, 4);
    assert_eq!(facets.min_level_size, 5);
    facets.level_group_size(2);
    facets.min_level_size(1);
    let fields = vec![
        FieldLevelZero {
            field_id: 0,
            number_keys: (0..8).collect(),
            number_docids: singleton_bitmaps(8),
            string_texts: (0..4).map(|i| format!("s{i:X}")).collect(),
            string_docids: (0..4u32).map(|i| bm(&[100 + i])).collect(),
        },
        FieldLevelZero {
            field_id: 1,
            number_keys: vec![],
            number_docids: vec![],
            string_texts: vec!["only".to_string()],
            string_docids: vec![bm(&[7])],
        },
    ];
    let out = facets.execute(fields);
    assert_eq!(out.len(), 2);
    let f0 = &out[0];
    assert_eq!(f0.field_id, 0);
    // 8/2, 8/4, 8/8 all >= 1
    assert_eq!(f0.number_levels.len(), 3);
    assert_eq!(f0.number_documents_ids, bm(&(0..8).collect::<Vec<u32>>()));
    // 4/2, 4/4 >= 1
    assert_eq!(f0.string_levels.len(), 2);
    assert_eq!(f0.string_documents_ids, bm(&[100, 101, 102, 103]));
    let f1 = &out[1];
    assert_eq!(f1.field_id, 1);
    assert!(f1.number_levels.is_empty());
    assert!(f1.number_documents_ids.is_empty());
    // a single string is below every level size
    assert!(f1.string_levels.is_empty());
    assert_eq!(f1.string_documents_ids, bm(&[7]));
}

#[test]
fn test_level_group_size_clamps_to_two() {
    let mut facets = Facets::new();
    facets.level_group_size(1);
    assert_eq!(facets.level_group_size, 2);
    facets.level_group_size(0);
    assert_eq!(facets.level_group_size, 2);
    facets.level_group_size(16);
    assert_eq!(facets.level_group_size, 16);
    facets.min_level_size(256);
    assert_eq!(facets.min_level_size, 256);
}
