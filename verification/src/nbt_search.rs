//! The auxiliary-data scan.
//!
//! Some blocks carry auxiliary structured data beyond their palette
//! identifier — containers, signs and the like. A schematic is flagged
//! where such a block occurs without a block-entity record at its
//! exact coordinate; the coarse early case flags a schematic whose
//! palette names such a block while its block-entity list is empty.
//! This is a single pass over the cells, not a sliding-window search.

use vstd::prelude::*;

verus! {

use crate::str_eq;
use crate::schematic::SpongeSchematic;
use crate::schematic::pal_view;

/// Whether a block name is known to require auxiliary structured data.
pub open spec fn is_nbt_block(name: Seq<char>) -> bool {
    ||| name == "minecraft:chest"@
    ||| name == "minecraft:trapped_chest"@
    ||| name == "minecraft:ender_chest"@
    ||| name == "minecraft:furnace"@
    ||| name == "minecraft:blast_furnace"@
    ||| name == "minecraft:smoker"@
    ||| name == "minecraft:dispenser"@
    ||| name == "minecraft:dropper"@
    ||| name == "minecraft:hopper"@
    ||| name == "minecraft:barrel"@
    ||| name == "minecraft:brewing_stand"@
    ||| name == "minecraft:beacon"@
    ||| name == "minecraft:jukebox"@
    ||| name == "minecraft:lectern"@
    ||| name == "minecraft:shulker_box"@
}

/// Decides `is_nbt_block` for a block name.
fn is_nbt_block_name(name: &str) -> (r: bool)
    ensures
        r == is_nbt_block(name@),
{
    str_eq(name, "minecraft:chest") || str_eq(name, "minecraft:trapped_chest") || str_eq(
        name,
        "minecraft:ender_chest",
    ) || str_eq(name, "minecraft:furnace") || str_eq(name, "minecraft:blast_furnace") || str_eq(
        name,
        "minecraft:smoker",
    ) || str_eq(name, "minecraft:dispenser") || str_eq(name, "minecraft:dropper") || str_eq(
        name,
        "minecraft:hopper",
    ) || str_eq(name, "minecraft:barrel") || str_eq(name, "minecraft:brewing_stand") || str_eq(
        name,
        "minecraft:beacon",
    ) || str_eq(name, "minecraft:jukebox") || str_eq(name, "minecraft:lectern") || str_eq(
        name,
        "minecraft:shulker_box",
    )
}

/// Some palette entry carrying this identifier names a block that
/// requires auxiliary data.
pub open spec fn spec_is_nbt_id(s: SpongeSchematic, v: i32) -> bool {
    exists|k: int|
        0 <= k < s.palette@.len() && (#[trigger] pal_view(s.palette@)[k]).1 == v && is_nbt_block(
            pal_view(s.palette@)[k].0,
        )
}

/// A block entity sits at exactly the coordinate (x, y, z).
pub open spec fn spec_entity_at(s: SpongeSchematic, x: int, y: int, z: int) -> bool {
    exists|e: int|
        0 <= e < s.block_entities@.len() && (#[trigger] s.block_entities@[e]).pos@[0] == x
            && s.block_entities@[e].pos@[1] == y && s.block_entities@[e].pos@[2] == z
}

/// The palette names an auxiliary-data block while the block-entity
/// list is empty.
pub open spec fn spec_coarse_invalid(s: SpongeSchematic) -> bool {
    s.block_entities@.len() == 0 && exists|k: int|
        0 <= k < s.palette@.len() && is_nbt_block((#[trigger] pal_view(s.palette@)[k]).0)
}

/// Cell `i` holds an auxiliary-data block with no block-entity record
/// at its coordinate. A grid with a zero extent can place no record at
/// all, so any such cell counts.
pub open spec fn spec_cell_invalid(s: SpongeSchematic, i: int) -> bool {
    let w = s.width as int;
    let l = s.length as int;
    spec_is_nbt_id(s, s.block_data@[i]) && (w == 0 || l == 0 || !spec_entity_at(
        s,
        i % w,
        i / (w * l),
        (i / w) % l,
    ))
}

/// The schematic lacks auxiliary data somewhere: the coarse palette
/// case, or some cell of an auxiliary-data block without its record.
pub open spec fn spec_has_invalid_nbt(s: SpongeSchematic) -> bool {
    spec_coarse_invalid(s) || exists|i: int|
        0 <= i < s.block_data@.len() && #[trigger] spec_cell_invalid(s, i)
}

/// Some palette entry names an auxiliary-data block.
fn palette_names_nbt(p: &Vec<(String, i32)>) -> (r: bool)
    ensures
        r == exists|k: int|
            0 <= k < p@.len() && is_nbt_block((#[trigger] pal_view(p@)[k]).0),
{
    let mut k: usize = 0;
    while k < p.len()
        invariant
            k <= p.len(),
            forall|j: int| 0 <= j < k ==> !is_nbt_block((#[trigger] pal_view(p@)[j]).0),
        decreases p.len() - k,
    {
        proof {
            assert(pal_view(p@)[k as int] == (p@[k as int].0@, p@[k as int].1));
        }
        if is_nbt_block_name(p[k].0.as_str()) {
            return true;
        }
        k = k + 1;
    }
    proof {
        assert(pal_view(p@).len() == p@.len());
    }
    false
}

/// Whether the identifier is carried by some auxiliary-data palette
/// entry.
fn id_is_nbt(p: &Vec<(String, i32)>, v: i32) -> (r: bool)
    ensures
        r == exists|k: int|
            0 <= k < p@.len() && (#[trigger] pal_view(p@)[k]).1 == v && is_nbt_block(
                pal_view(p@)[k].0,
            ),
{
    let mut k: usize = 0;
    while k < p.len()
        invariant
            k <= p.len(),
            forall|j: int|
                0 <= j < k ==> !((#[trigger] pal_view(p@)[j]).1 == v && is_nbt_block(
                    pal_view(p@)[j].0,
                )),
        decreases p.len() - k,
    {
        proof {
            assert(pal_view(p@)[k as int] == (p@[k as int].0@, p@[k as int].1));
        }
        if p[k].1 == v && is_nbt_block_name(p[k].0.as_str()) {
            return true;
        }
        k = k + 1;
    }
    proof {
        assert(pal_view(p@).len() == p@.len());
    }
    false
}

/// Whether some block entity sits at exactly (x, y, z).
fn entity_at(v: &Vec<crate::schematic::BlockEntity>, x: i32, y: i32, z: i32) -> (r: bool)
    ensures
        r == exists|e: int|
            0 <= e < v@.len() && (#[trigger] v@[e]).pos@[0] == x && v@[e].pos@[1] == y
                && v@[e].pos@[2] == z,
{
    let mut e: usize = 0;
    while e < v.len()
        invariant
            e <= v.len(),
            forall|j: int|
                0 <= j < e ==> !((#[trigger] v@[j]).pos@[0] == x && v@[j].pos@[1] == y
                    && v@[j].pos@[2] == z),
        decreases v.len() - e,
    {
        if v[e].pos[0] == x && v[e].pos[1] == y && v[e].pos[2] == z {
            return true;
        }
        e = e + 1;
    }
    false
}

/// Flags a schematic whose auxiliary-data blocks lack their records:
/// true where the palette names such a block while the block-entity
/// list is empty, or where some cell holding such a block has no
/// block-entity record at its exact coordinate.
pub fn has_invalid_nbt(schem: SpongeSchematic) -> (r: bool)
    ensures
        r == spec_has_invalid_nbt(schem),
{
    if schem.block_entities.len() == 0 && palette_names_nbt(&schem.palette) {
        return true;
    }
    let w: u64 = schem.width as u64;
    let l: u64 = schem.length as u64;
    let mut i: usize = 0;
    while i < schem.block_data.len()
        invariant
            i <= schem.block_data.len(),
            w == schem.width && l == schem.length,
            !spec_coarse_invalid(schem),
            forall|j: int| 0 <= j < i ==> !(#[trigger] spec_cell_invalid(schem, j)),
        decreases schem.block_data.len() - i,
    {
        let v = schem.block_data[i];
        let ghost gi = i as int;
        if id_is_nbt(&schem.palette, v) {
            proof {
                assert(spec_is_nbt_id(schem, schem.block_data@[gi]));
            }
            if w == 0 || l == 0 {
                proof {
                    assert(spec_cell_invalid(schem, gi));
                }
                return true;
            }
            proof {
                assert(w * l >= 1 && w * l <= 0xFFFFFFFF) by (nonlinear_arith)
                    requires
                        1 <= w <= 0xFFFF,
                        1 <= l <= 0xFFFF,
                ;
            }
            let x: u64 = (i as u64) % w;
            let z: u64 = ((i as u64) / w) % l;
            let y: u64 = (i as u64) / (w * l);
            proof {
                assert(x as int == gi % (w as int));
                assert(z as int == (gi / (w as int)) % (l as int));
                assert(y as int == gi / ((w as int) * (l as int)));
            }
            if y > 0x7FFFFFFF {
                proof {
                    assert forall|e: int| 0 <= e < schem.block_entities@.len() implies !((
                    #[trigger] schem.block_entities@[e]).pos@[1] == y as int) by {}
                    assert(!spec_entity_at(schem, x as int, y as int, z as int));
                    assert(spec_cell_invalid(schem, gi));
                }
                return true;
            }
            if !entity_at(&schem.block_entities, x as i32, y as i32, z as i32) {
                proof {
                    assert(!spec_entity_at(schem, x as int, y as int, z as int));
                    assert(spec_cell_invalid(schem, gi));
                }
                return true;
            }
            proof {
                assert(spec_entity_at(schem, x as int, y as int, z as int));
                assert(!spec_cell_invalid(schem, gi));
            }
        } else {
            proof {
                assert(!spec_is_nbt_id(schem, schem.block_data@[gi]));
                assert(!spec_cell_invalid(schem, gi));
            }
        }
        i = i + 1;
    }
    false
}

} // verus!
