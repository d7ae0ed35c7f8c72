use nbt::CompoundTag;
use nbt::encode::write_gzip_compound_tag;
use schemsearch::decode::DecodeError;
use schemsearch::schematic::SpongeSchematic;
use schemsearch::varint::write_varint_array;

fn gzip(root: &CompoundTag) -> Vec<u8> {
    let mut buf = Vec::new();
    write_gzip_compound_tag(&mut buf, root).unwrap();
    buf
}

fn palette_tag() -> CompoundTag {
    let mut p = CompoundTag::new();
    p.insert_i32("minecraft:air", 0);
    p.insert_i32("minecraft:stone", 1);
    p.insert_i32("minecraft:dirt", 2);
    p
}

fn block_bytes() -> Vec<i8> {
    write_varint_array(&vec![0, 1, 2, 1, 0, 2, 1, 1])
}

fn common_header(root: &mut CompoundTag) {
    root.insert_i16("Width", 2);
    root.insert_i16("Height", 2);
    root.insert_i16("Length", 2);
    root.insert_i32_vec("Offset", vec![1, -2, 3]);
}

fn v1_document() -> Vec<u8> {
    let mut root = CompoundTag::new();
    root.insert_i32("Version", 1);
    common_header(&mut root);
    root.insert_i32("PaletteMax", 3);
    root.insert_compound_tag("Palette", palette_tag());
    root.insert_i8_vec("BlockData", block_bytes());
    root.insert_compound_tag_vec("TileEntities", Vec::new());
    gzip(&root)
}

fn v2_document() -> Vec<u8> {
    let mut root = CompoundTag::new();
    root.insert_i32("Version", 2);
    root.insert_i32("DataVersion", 2230);
    common_header(&mut root);
    root.insert_i32("PaletteMax", 3);
    root.insert_compound_tag("Palette", palette_tag());
    root.insert_i8_vec("BlockData", block_bytes());
    root.insert_compound_tag_vec("BlockEntities", Vec::new());
    gzip(&root)
}

fn v3_document() -> Vec<u8> {
    let mut root = CompoundTag::new();
    root.insert_i32("Version", 3);
    root.insert_i32("DataVersion", 2230);
    common_header(&mut root);
    let mut blocks = CompoundTag::new();
    blocks.insert_compound_tag("Palette", palette_tag());
    blocks.insert_i8_vec("BlockData", block_bytes());
    blocks.insert_compound_tag_vec("BlockEntities", Vec::new());
    root.insert_compound_tag("Blocks", blocks);
    gzip(&root)
}

fn assert_expected_content(s: &SpongeSchematic) {
    assert_eq!(s.width, 2);
    assert_eq!(s.height, 2);
    assert_eq!(s.length, 2);
    assert_eq!(s.offset, [1, -2, 3]);
    assert_eq!(s.palette_max, 3);
    assert_eq!(s.block_data, vec![0, 1, 2, 1, 0, 2, 1, 1]);
    assert_eq!(s.palette.len(), 3);
    assert_eq!(
        s.width as usize * s.height as usize * s.length as usize,
        s.block_data.len()
    );
    assert_eq!(s.palette_max, s.palette.len() as i32);
    assert!(s.block_entities.is_empty());
    assert!(s.entities.is_none());
}

#[test]
fn decode_version_1() {
    let s = SpongeSchematic::load_data(&v1_document()).unwrap();
    assert_expected_content(&s);
    assert_eq!(s.data_version, 0);
}

#[test]
fn decode_version_2() {
    let s = SpongeSchematic::load_data(&v2_document()).unwrap();
    assert_expected_content(&s);
    assert_eq!(s.data_version, 2230);
}

#[test]
fn decode_version_3() {
    let s = SpongeSchematic::load_data(&v3_document()).unwrap();
    assert_expected_content(&s);
    assert_eq!(s.data_version, 2230);
}

#[test]
fn equivalent_documents_decode_alike() {
    // The same content declared as versions 1, 2 and 3 yields one
    // in-memory record, apart from the version-specific data version.
    let a = SpongeSchematic::load_data(&v1_document()).unwrap();
    let b = SpongeSchematic::load_data(&v2_document()).unwrap();
    let c = SpongeSchematic::load_data(&v3_document()).unwrap();
    for (x, y) in [(&a, &b), (&b, &c)] {
        assert_eq!(x.width, y.width);
        assert_eq!(x.height, y.height);
        assert_eq!(x.length, y.length);
        assert_eq!(x.block_data, y.block_data);
        assert_eq!(x.palette, y.palette);
        assert_eq!(x.palette_max, y.palette_max);
    }
}

#[test]
fn version_is_inferred_structurally() {
    // No explicit version: the block-entity list field implies
    // version 2.
    let mut root = CompoundTag::new();
    root.insert_i32("DataVersion", 2230);
    common_header(&mut root);
    root.insert_i32("PaletteMax", 3);
    root.insert_compound_tag("Palette", palette_tag());
    root.insert_i8_vec("BlockData", block_bytes());
    root.insert_compound_tag_vec("BlockEntities", Vec::new());
    let s = SpongeSchematic::load_data(&gzip(&root)).unwrap();
    assert_expected_content(&s);
}

#[test]
fn scalar_fields_accept_narrow_widths() {
    // Width stored as bytes and the version as a short still decode.
    let mut root = CompoundTag::new();
    root.insert_i16("Version", 1);
    root.insert_i8("Width", 2);
    root.insert_i8("Height", 2);
    root.insert_i8("Length", 2);
    root.insert_i32_vec("Offset", vec![1, -2, 3]);
    root.insert_i8("PaletteMax", 3);
    root.insert_compound_tag("Palette", palette_tag());
    root.insert_i8_vec("BlockData", block_bytes());
    let s = SpongeSchematic::load_data(&gzip(&root)).unwrap();
    assert_expected_content(&s);
}

#[test]
fn offset_accepts_byte_array_and_list() {
    let mut root = CompoundTag::new();
    root.insert_i32("Version", 1);
    root.insert_i16("Width", 2);
    root.insert_i16("Height", 2);
    root.insert_i16("Length", 2);
    root.insert_i8_vec("Offset", vec![1, -2, 3]);
    root.insert_i32("PaletteMax", 3);
    root.insert_compound_tag("Palette", palette_tag());
    root.insert_i8_vec("BlockData", block_bytes());
    let s = SpongeSchematic::load_data(&gzip(&root)).unwrap();
    assert_eq!(s.offset, [1, -2, 3]);

    let mut root2 = CompoundTag::new();
    root2.insert_i32("Version", 1);
    root2.insert_i16("Width", 2);
    root2.insert_i16("Height", 2);
    root2.insert_i16("Length", 2);
    root2.insert(
        "Offset",
        nbt::Tag::List(vec![nbt::Tag::Short(4), nbt::Tag::Short(5), nbt::Tag::Short(-6)]),
    );
    root2.insert_i32("PaletteMax", 3);
    root2.insert_compound_tag("Palette", palette_tag());
    root2.insert_i8_vec("BlockData", block_bytes());
    let s2 = SpongeSchematic::load_data(&gzip(&root2)).unwrap();
    assert_eq!(s2.offset, [4, 5, -6]);
}

#[test]
fn negative_extent_reads_as_unsigned() {
    let mut root = CompoundTag::new();
    root.insert_i32("Version", 1);
    root.insert_i16("Width", -32768);
    root.insert_i16("Height", 0);
    root.insert_i16("Length", 2);
    root.insert_i32_vec("Offset", vec![0, 0, 0]);
    root.insert_i32("PaletteMax", 1);
    root.insert_compound_tag("Palette", {
        let mut p = CompoundTag::new();
        p.insert_i32("minecraft:air", 0);
        p
    });
    root.insert_i8_vec("BlockData", Vec::new());
    let s = SpongeSchematic::load_data(&gzip(&root)).unwrap();
    assert_eq!(s.width, 32768);
    assert_eq!(s.height, 0);
}

#[test]
fn decode_reads_block_entities() {
    let mut root = CompoundTag::new();
    root.insert_i32("Version", 2);
    root.insert_i32("DataVersion", 2230);
    common_header(&mut root);
    root.insert_i32("PaletteMax", 3);
    root.insert_compound_tag("Palette", palette_tag());
    root.insert_i8_vec("BlockData", block_bytes());
    let mut e = CompoundTag::new();
    e.insert_str("Id", "minecraft:chest");
    e.insert_i32_vec("Pos", vec![1, 0, 1]);
    root.insert_compound_tag_vec("BlockEntities", vec![e]);
    let s = SpongeSchematic::load_data(&gzip(&root)).unwrap();
    assert_eq!(s.block_entities.len(), 1);
    assert_eq!(s.block_entities[0].id, "minecraft:chest");
    assert_eq!(s.block_entities[0].pos, [1, 0, 1]);
}

#[test]
fn decode_missing_field_is_reported() {
    let mut root = CompoundTag::new();
    root.insert_i32("Version", 1);
    root.insert_i16("Height", 2);
    let r = SpongeSchematic::load_data(&gzip(&root));
    assert_eq!(r.unwrap_err(), DecodeError::MissingField("Width".to_owned()));
}

#[test]
fn decode_unknown_version_is_reported() {
    let mut root = CompoundTag::new();
    root.insert_i32("Version", 9);
    let r = SpongeSchematic::load_data(&gzip(&root));
    assert_eq!(r.unwrap_err(), DecodeError::UnknownVersion);
}

#[test]
fn decode_without_any_version_hint_is_reported() {
    let root = CompoundTag::new();
    let r = SpongeSchematic::load_data(&gzip(&root));
    assert_eq!(r.unwrap_err(), DecodeError::UnknownVersion);
}

#[test]
fn decode_rejects_non_document_bytes() {
    let r = SpongeSchematic::load_data(&[1, 2, 3, 4]);
    assert!(matches!(r.unwrap_err(), DecodeError::Io(_)));
}

#[test]
fn decode_rejects_out_of_palette_cell() {
    let mut root = CompoundTag::new();
    root.insert_i32("Version", 1);
    root.insert_i16("Width", 1);
    root.insert_i16("Height", 1);
    root.insert_i16("Length", 1);
    root.insert_i32_vec("Offset", vec![0, 0, 0]);
    root.insert_i32("PaletteMax", 1);
    root.insert_compound_tag("Palette", {
        let mut p = CompoundTag::new();
        p.insert_i32("minecraft:air", 0);
        p
    });
    root.insert_i8_vec("BlockData", write_varint_array(&vec![5]));
    let r = SpongeSchematic::load_data(&gzip(&root));
    assert_eq!(r.unwrap_err(), DecodeError::Invalid("BlockData".to_owned()));
}

#[test]
fn decode_rejects_wrong_grid_size() {
    let mut root = CompoundTag::new();
    root.insert_i32("Version", 1);
    root.insert_i16("Width", 2);
    root.insert_i16("Height", 2);
    root.insert_i16("Length", 2);
    root.insert_i32_vec("Offset", vec![0, 0, 0]);
    root.insert_i32("PaletteMax", 1);
    root.insert_compound_tag("Palette", {
        let mut p = CompoundTag::new();
        p.insert_i32("minecraft:air", 0);
        p
    });
    root.insert_i8_vec("BlockData", write_varint_array(&vec![0, 0, 0]));
    let r = SpongeSchematic::load_data(&gzip(&root));
    assert_eq!(r.unwrap_err(), DecodeError::Invalid("BlockData".to_owned()));
}

#[test]
fn decode_rejects_malformed_varint_stream() {
    let mut root = CompoundTag::new();
    root.insert_i32("Version", 1);
    root.insert_i16("Width", 1);
    root.insert_i16("Height", 1);
    root.insert_i16("Length", 1);
    root.insert_i32_vec("Offset", vec![0, 0, 0]);
    root.insert_i32("PaletteMax", 1);
    root.insert_compound_tag("Palette", {
        let mut p = CompoundTag::new();
        p.insert_i32("minecraft:air", 0);
        p
    });
    root.insert_i8_vec("BlockData", vec![-128, -128, -128, -128, -128, 1]);
    let r = SpongeSchematic::load_data(&gzip(&root));
    assert_eq!(r.unwrap_err(), DecodeError::MalformedVarint);
}

#[test]
fn palette_skips_non_integer_entries() {
    let mut root = CompoundTag::new();
    root.insert_i32("Version", 1);
    root.insert_i16("Width", 1);
    root.insert_i16("Height", 1);
    root.insert_i16("Length", 1);
    root.insert_i32_vec("Offset", vec![0, 0, 0]);
    root.insert_i32("PaletteMax", 1);
    let mut p = CompoundTag::new();
    p.insert_i32("minecraft:air", 0);
    p.insert_str("comment", "not a palette entry");
    root.insert_compound_tag("Palette", p);
    root.insert_i8_vec("BlockData", write_varint_array(&vec![0]));
    let s = SpongeSchematic::load_data(&gzip(&root)).unwrap();
    assert_eq!(s.palette, vec![("minecraft:air".to_owned(), 0)]);
}

#[test]
fn decode_wrong_field_type_is_reported() {
    let mut root = CompoundTag::new();
    root.insert_i32("Version", 1);
    root.insert_str("Width", "wide");
    let r = SpongeSchematic::load_data(&gzip(&root));
    assert_eq!(r.unwrap_err(), DecodeError::WrongFieldType("Width".to_owned()));
}

#[test]
fn decode_rejects_out_of_range_palette_id() {
    let mut root = CompoundTag::new();
    root.insert_i32("Version", 1);
    root.insert_i16("Width", 1);
    root.insert_i16("Height", 1);
    root.insert_i16("Length", 1);
    root.insert_i32_vec("Offset", vec![0, 0, 0]);
    root.insert_i32("PaletteMax", 1);
    root.insert_compound_tag("Palette", {
        let mut p = CompoundTag::new();
        p.insert_i32("minecraft:air", 5);
        p
    });
    root.insert_i8_vec("BlockData", write_varint_array(&vec![0]));
    let r = SpongeSchematic::load_data(&gzip(&root));
    assert_eq!(r.unwrap_err(), DecodeError::Invalid("Palette".to_owned()));
}
