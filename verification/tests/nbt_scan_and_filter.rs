use schemsearch::filter::SchematicFilter;
use schemsearch::search::run_search;
use schemsearch::{Fraction, SearchBehavior};
use schemsearch::nbt_search::has_invalid_nbt;
use schemsearch::normalize_data;
use schemsearch::schematic::{BlockEntity, SpongeSchematic};

fn schem(
    dims: (u16, u16, u16),
    palette_max: i32,
    palette: Vec<(String, i32)>,
    block_data: Vec<i32>,
    block_entities: Vec<BlockEntity>,
) -> SpongeSchematic {
    SpongeSchematic {
        data_version: 1,
        width: dims.0,
        height: dims.1,
        length: dims.2,
        offset: [0, 0, 0],
        palette_max,
        palette,
        block_data,
        block_entities,
        entities: None,
    }
}

#[test]
fn test_has_invalid_nbt() {
    let s = schem(
        (0, 0, 0),
        1,
        vec![("minecraft:chest".to_owned(), 1)],
        vec![1],
        vec![],
    );
    assert_eq!(has_invalid_nbt(s), true);
}

#[test]
fn test_has_invalid_nbt_2() {
    let s = schem(
        (1, 1, 1),
        1,
        vec![("minecraft:chest".to_owned(), 1)],
        vec![1],
        vec![BlockEntity { id: "minecraft:chest".to_owned(), pos: [0, 0, 0] }],
    );
    assert_eq!(has_invalid_nbt(s), false);
}

#[test]
fn test_has_invalid_nbt_3() {
    let s = schem(
        (2, 1, 1),
        1,
        vec![("minecraft:chest".to_owned(), 1), ("minecraft:stone".to_owned(), 2)],
        vec![1, 2],
        vec![BlockEntity { id: "minecraft:chest".to_owned(), pos: [1, 0, 0] }],
    );
    assert_eq!(has_invalid_nbt(s), true);
}

#[test]
fn nbt_scan_accepts_plain_blocks() {
    let s = schem(
        (1, 1, 1),
        1,
        vec![("minecraft:stone".to_owned(), 0)],
        vec![0],
        vec![],
    );
    assert_eq!(has_invalid_nbt(s), false);
}

#[test]
fn normalize_strips_bracket_suffix() {
    assert_eq!(normalize_data("minecraft:lectern[facing=north]", true), "minecraft:lectern");
    assert_eq!(normalize_data("minecraft:lectern[facing=north]", false), "minecraft:lectern[facing=north]");
    assert_eq!(normalize_data("minecraft:stone", true), "minecraft:stone");
    assert_eq!(normalize_data("", true), "");
}

#[test]
fn filter_empty_builds_empty() {
    assert_eq!(SchematicFilter::new().build(), "");
}

#[test]
fn filter_owners_build() {
    let a = 17u32;
    let b = 1234567890u32;
    let f = SchematicFilter::new().user_id(vec![&a, &b]);
    assert_eq!(f.build(), "AND (SN.NodeOwner = 17 OR SN.NodeOwner = 1234567890)");
}

#[test]
fn filter_names_build() {
    let n1 = "castle".to_owned();
    let n2 = "ship".to_owned();
    let f = SchematicFilter::new().name(vec![&n1, &n2]);
    assert_eq!(
        f.build(),
        "AND (SN.NodeName LIKE '%castle%' OR SN.NodeName LIKE '%ship%')"
    );
}

#[test]
fn filter_owners_and_names_build() {
    let a = 7u32;
    let n1 = "tower".to_owned();
    let f = SchematicFilter::new().user_id(vec![&a]).name(vec![&n1]);
    assert_eq!(f.build(), "AND (SN.NodeOwner = 7) AND (SN.NodeName LIKE '%tower%')");
}

#[test]
fn run_search_flags_missing_auxiliary_data() {
    let behavior = SearchBehavior {
        ignore_block_data: false,
        ignore_block_entities: false,
        ignore_air: false,
        air_as_any: false,
        ignore_entities: false,
        threshold: Fraction::new(9, 10),
        invalid_nbt: true,
    };
    let bad = schem(
        (1, 1, 1),
        1,
        vec![("minecraft:chest".to_owned(), 0)],
        vec![0],
        vec![],
    );
    let flagged = run_search(bad, None, behavior);
    assert_eq!(flagged.len(), 1);
    assert_eq!((flagged[0].x, flagged[0].y, flagged[0].z), (0, 0, 0));
    assert_eq!(flagged[0].percent, Fraction::new(1, 1));

    let good = schem(
        (1, 1, 1),
        1,
        vec![("minecraft:stone".to_owned(), 0)],
        vec![0],
        vec![],
    );
    assert!(run_search(good, None, behavior).is_empty());
}
