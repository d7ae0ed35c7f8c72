use schemsearch::pattern_mapper::{match_palette, match_palette_adapt, strip_data};
use schemsearch::schematic::SpongeSchematic;
use schemsearch::search::search;
use schemsearch::search_space::{convert_to_search_space, unwrap_palette};
use schemsearch::{Fraction, Match, SearchBehavior};

fn behavior(ignore_block_data: bool, ignore_air: bool, air_as_any: bool, threshold: Fraction) -> SearchBehavior {
    SearchBehavior {
        ignore_block_data,
        ignore_block_entities: true,
        ignore_air,
        air_as_any,
        ignore_entities: true,
        threshold,
        invalid_nbt: false,
    }
}

fn schem(
    dims: (u16, u16, u16),
    palette: Vec<(&str, i32)>,
    block_data: Vec<i32>,
) -> SpongeSchematic {
    let palette_max = palette.iter().map(|e| e.1).max().map_or(0, |m| m + 1);
    SpongeSchematic {
        data_version: 1,
        width: dims.0,
        height: dims.1,
        length: dims.2,
        offset: [0, 0, 0],
        palette_max,
        palette: palette.into_iter().map(|(n, v)| (n.to_owned(), v)).collect(),
        block_data,
        block_entities: Vec::new(),
        entities: None,
    }
}

/// A 5x1x5 volume of stone with a distinctive 2x1x2 arrangement of
/// gold and diamond placed at (1, 0, 3).
fn target_volume() -> SpongeSchematic {
    let mut data = vec![1; 25];
    data[1 + 5 * 3] = 2;
    data[2 + 5 * 3] = 3;
    data[1 + 5 * 4] = 3;
    data[2 + 5 * 4] = 2;
    schem(
        (5, 1, 5),
        vec![
            ("minecraft:air", 0),
            ("minecraft:stone", 1),
            ("minecraft:gold_block", 2),
            ("minecraft:diamond_block", 3),
        ],
        data,
    )
}

fn target_pattern() -> SpongeSchematic {
    schem(
        (2, 1, 2),
        vec![("minecraft:gold_block[axis=x]", 0), ("minecraft:diamond_block", 1)],
        vec![0, 1, 1, 0],
    )
}

#[test]
fn search_finds_the_single_placement() {
    let matches = search(
        target_volume(),
        &target_pattern(),
        behavior(true, false, false, Fraction::new(9, 10)),
    );
    assert_eq!(matches.len(), 1);
    assert_eq!(matches[0].x, 1);
    assert_eq!(matches[0].y, 0);
    assert_eq!(matches[0].z, 3);
    assert_eq!(matches[0].percent, Fraction::new(4, 4));
    assert_eq!(matches[0].percent.num as f64 / matches[0].percent.den as f64, 1.0);
}

#[test]
fn search_self_match_at_origin() {
    let s = target_volume();
    let matches = search(s.clone(), &s, behavior(false, false, false, Fraction::new(1, 1)));
    assert_eq!(matches.len(), 1);
    assert_eq!((matches[0].x, matches[0].y, matches[0].z), (0, 0, 0));
    assert_eq!(matches[0].percent, Fraction::new(25, 25));
}

#[test]
fn search_oversize_pattern_is_empty() {
    let volume = schem((2, 1, 2), vec![("minecraft:stone", 0)], vec![0, 0, 0, 0]);
    let pattern = schem((3, 1, 1), vec![("minecraft:stone", 0)], vec![0, 0, 0]);
    for ignore_data in [false, true] {
        for ignore_air in [false, true] {
            for air_as_any in [false, true] {
                let matches = search(
                    volume.clone(),
                    &pattern,
                    behavior(ignore_data, ignore_air, air_as_any, Fraction::new(1, 2)),
                );
                assert!(matches.is_empty());
            }
        }
    }
}

#[test]
fn search_wider_palette_is_empty() {
    let volume = schem((2, 1, 2), vec![("minecraft:stone", 0)], vec![0, 0, 0, 0]);
    let pattern = schem(
        (1, 1, 1),
        vec![
            ("minecraft:stone", 0),
            ("minecraft:dirt", 1),
            ("minecraft:sand", 2),
        ],
        vec![0],
    );
    let matches = search(volume, &pattern, behavior(false, false, false, Fraction::new(1, 2)));
    assert!(matches.is_empty());
}

#[test]
fn search_empty_pattern_is_empty() {
    let volume = schem((2, 1, 2), vec![("minecraft:stone", 0)], vec![0, 0, 0, 0]);
    let pattern = schem((0, 0, 0), vec![("minecraft:stone", 0)], vec![]);
    let matches = search(volume, &pattern, behavior(false, false, false, Fraction::new(1, 2)));
    assert!(matches.is_empty());
}

#[test]
fn search_zero_threshold_accepts_every_window() {
    let volume = target_volume();
    let pattern = target_pattern();
    let matches = search(volume, &pattern, behavior(true, false, false, Fraction::new(0, 1)));
    // Window origins: x in 0..=3, z in 0..=3.
    assert_eq!(matches.len(), 16);
}

#[test]
fn search_partial_match_reports_exact_fraction() {
    // One of the four pattern cells disagrees at the best placement.
    let mut pattern = target_pattern();
    pattern.block_data[3] = 1;
    let matches = search(
        target_volume(),
        &pattern,
        behavior(true, false, false, Fraction::new(3, 4)),
    );
    assert_eq!(matches.len(), 1);
    assert_eq!((matches[0].x, matches[0].y, matches[0].z), (1, 0, 3));
    assert_eq!(matches[0].percent, Fraction::new(3, 4));
}

#[test]
fn search_threshold_monotonicity() {
    let volume = target_volume();
    let pattern = target_pattern();
    let strict = search(
        volume.clone(),
        &pattern,
        behavior(true, false, false, Fraction::new(9, 10)),
    );
    let loose = search(volume, &pattern, behavior(true, false, false, Fraction::new(1, 2)));
    let loose_coords: Vec<(u16, u16, u16)> = loose.iter().map(|m| (m.x, m.y, m.z)).collect();
    for m in &strict {
        assert!(loose_coords.contains(&(m.x, m.y, m.z)));
    }
}

#[test]
fn search_air_as_any_only_adds_matches() {
    let pattern = schem(
        (2, 1, 1),
        vec![("minecraft:air", 0), ("minecraft:gold_block", 1)],
        vec![1, 0],
    );
    let without = search(
        target_volume(),
        &pattern,
        behavior(false, false, false, Fraction::new(1, 1)),
    );
    let with = search(
        target_volume(),
        &pattern,
        behavior(false, false, true, Fraction::new(1, 1)),
    );
    let with_coords: Vec<(u16, u16, u16)> = with.iter().map(|m| (m.x, m.y, m.z)).collect();
    for m in &without {
        assert!(with_coords.contains(&(m.x, m.y, m.z)));
    }
    // The wildcard makes the gold cell at (1, 0, 3) a full match even
    // though a diamond follows it.
    assert!(without.is_empty());
    assert!(with_coords.contains(&(1, 0, 3)));
}

#[test]
fn search_ignore_air_matches_volume_air() {
    // The volume holds air where the pattern expects stone; ignoring
    // target-side air makes those cells count as matches.
    let volume = schem(
        (2, 1, 1),
        vec![("minecraft:air", 0), ("minecraft:stone", 1)],
        vec![0, 1],
    );
    let pattern = schem(
        (2, 1, 1),
        vec![("minecraft:air", 0), ("minecraft:stone", 1)],
        vec![1, 1],
    );
    let without = search(
        volume.clone(),
        &pattern,
        behavior(false, false, false, Fraction::new(1, 1)),
    );
    assert!(without.is_empty());
    let with = search(volume, &pattern, behavior(false, true, false, Fraction::new(1, 1)));
    assert_eq!(with.len(), 1);
    assert_eq!((with[0].x, with[0].y, with[0].z), (0, 0, 0));
}

#[test]
fn search_results_are_ordered() {
    let volume = target_volume();
    let pattern = target_pattern();
    let matches = search(volume, &pattern, behavior(true, false, false, Fraction::new(0, 1)));
    for w in matches.windows(2) {
        let a = &w[0];
        let b = &w[1];
        assert!(
            a.y < b.y || (a.y == b.y && (a.z < b.z || (a.z == b.z && a.x < b.x)))
        );
    }
}

#[test]
fn remap_into_own_palette_is_identity() {
    let s = target_volume();
    let remapped = match_palette_adapt(&s, &s.palette, false);
    assert_eq!(remapped, s.block_data);
}

#[test]
fn strip_collapses_state_suffixes() {
    let s = schem(
        (2, 1, 1),
        vec![("minecraft:lectern[facing=north]", 0), ("minecraft:lectern[facing=south]", 1)],
        vec![0, 1],
    );
    let stripped = strip_data(&s);
    assert!(!stripped.palette.iter().any(|e| e.0.contains('[')));
    assert_eq!(stripped.palette.len(), 1);
    assert_eq!(stripped.block_data, vec![0, 0]);
    assert_eq!(stripped.palette_max, 1);
}

#[test]
fn match_palette_aligns_identifier_spaces() {
    let volume = target_volume();
    let pattern = target_pattern();
    let aligned = match_palette(&volume, &pattern, true);
    assert_eq!(aligned.width, pattern.width);
    assert_eq!(aligned.height, pattern.height);
    assert_eq!(aligned.length, pattern.length);
    // The aligned cells now carry the volume's identifiers for gold
    // and diamond.
    let stripped_volume = strip_data(&volume);
    let gold = stripped_volume
        .palette
        .iter()
        .find(|e| e.0 == "minecraft:gold_block")
        .unwrap()
        .1;
    let diamond = stripped_volume
        .palette
        .iter()
        .find(|e| e.0 == "minecraft:diamond_block")
        .unwrap()
        .1;
    assert_eq!(aligned.block_data, vec![gold, diamond, diamond, gold]);
}

#[test]
fn absent_names_map_to_sentinel() {
    let volume = schem((1, 1, 1), vec![("minecraft:stone", 0)], vec![0]);
    let pattern = schem((1, 1, 1), vec![("minecraft:emerald_block", 0)], vec![0]);
    let aligned = match_palette(&volume, &pattern, false);
    assert_eq!(aligned.block_data, vec![-1]);
}

#[test]
fn search_space_planes_mark_presence() {
    let s = target_volume();
    let names = unwrap_palette(&s.palette);
    assert_eq!(names.len(), 4);
    assert_eq!(names[2], "minecraft:gold_block");
    let planes = convert_to_search_space(&s, &names);
    assert_eq!(planes.len(), 4);
    for (n, plane) in planes.iter().enumerate() {
        assert_eq!(plane.len(), s.block_data.len());
        for (c, bit) in plane.iter().enumerate() {
            let expected = if s.block_data[c] == n as i32 { 1 } else { 0 };
            assert_eq!(*bit, expected);
        }
    }
}

#[test]
fn fraction_comparison_is_exact() {
    assert!(Fraction::new(9, 10).ge(&Fraction::new(9, 10)));
    assert!(Fraction::new(1, 1).ge(&Fraction::new(9, 10)));
    assert!(!Fraction::new(8, 10).ge(&Fraction::new(9, 10)));
    assert!(Fraction::new(3, 4).ge(&Fraction::new(6, 8)));
}

#[test]
fn match_values_are_plain_data() {
    let m = Match { x: 1, y: 2, z: 3, percent: Fraction::new(4, 4) };
    let copy = m;
    assert_eq!(copy, m);
}
