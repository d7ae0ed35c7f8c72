//! Bit-plane preparation for block-presence scans.
//!
//! For a chosen ordering of block names, the voxel grid is unfolded
//! into one 0/1 plane per name: a cell of a plane is 1 exactly where
//! the grid holds that name's identifier. Names absent from the
//! schematic's palette take the sentinel `-1`, which no cell carries.

use vstd::prelude::*;

verus! {

use crate::schematic::pal_view;
use crate::schematic::palette_get;
use crate::schematic::palette_ids_in_range;
use crate::schematic::spec_lookup;
use crate::schematic::SpongeSchematic;
use crate::pattern_mapper::lemma_reverse_len;
use crate::pattern_mapper::spec_reverse;

/// The identifier a name selects in a schematic's palette: its entry's
/// identifier, or the sentinel `-1` where the palette lacks the name.
pub open spec fn spec_selected_id(s: SpongeSchematic, name: Seq<char>) -> i32 {
    match spec_lookup(pal_view(s.palette@), name) {
        Some(id) => id,
        None => -1i32,
    }
}

/// One 0/1 plane per palette name, each cell holding 1 exactly where
/// the grid holds that name's identifier.
pub fn convert_to_search_space(schem: &SpongeSchematic, palette: &Vec<String>) -> (r: Vec<Vec<u8>>)
    ensures
        r@.len() == palette@.len(),
        forall|n: int| 0 <= n < r@.len() ==> (#[trigger] r@[n])@.len() == schem.block_data@.len(),
        forall|n: int, c: int|
            0 <= n < r@.len() && 0 <= c < schem.block_data@.len() ==> (#[trigger] r@[n]@[c]) == (
            if spec_selected_id(*schem, palette@[n]@) == schem.block_data@[c] {
                1u8
            } else {
                0u8
            }),
{
    let mut data: Vec<Vec<u8>> = Vec::new();
    let mut n: usize = 0;
    while n < palette.len()
        invariant
            n <= palette.len(),
            data@.len() == n,
            forall|m: int| 0 <= m < n ==> (#[trigger] data@[m])@.len() == schem.block_data@.len(),
            forall|m: int, c: int|
                0 <= m < n && 0 <= c < schem.block_data@.len() ==> (#[trigger] data@[m]@[c]) == (
                if spec_selected_id(*schem, palette@[m]@) == schem.block_data@[c] {
                    1u8
                } else {
                    0u8
                }),
        decreases palette.len() - n,
    {
        let id: i32 = match palette_get(&schem.palette, palette[n].as_str()) {
            Some(x) => x,
            None => -1,
        };
        let mut output: Vec<u8> = Vec::new();
        let mut c: usize = 0;
        while c < schem.block_data.len()
            invariant
                c <= schem.block_data.len(),
                id == spec_selected_id(*schem, palette@[n as int]@),
                n < palette@.len(),
                output@.len() == c,
                forall|j: int|
                    0 <= j < c ==> (#[trigger] output@[j]) == (if spec_selected_id(
                        *schem,
                        palette@[n as int]@,
                    ) == schem.block_data@[j] {
                        1u8
                    } else {
                        0u8
                    }),
            decreases schem.block_data.len() - c,
        {
            if id == schem.block_data[c] {
                output.push(1);
            } else {
                output.push(0);
            }
            c = c + 1;
        }
        data.push(output);
        n = n + 1;
    }
    data
}

/// Unfolds a palette into the name-by-identifier table it encodes:
/// slot `id` holds the name of the last entry carrying `id`.
pub fn unwrap_palette(palette: &Vec<(String, i32)>) -> (r: Vec<String>)
    requires
        palette_ids_in_range(pal_view(palette@), palette@.len() as int),
    ensures
        r@.len() == palette@.len(),
        forall|i: int|
            0 <= i < r@.len() ==> (#[trigger] r@[i])@ == spec_reverse(
                pal_view(palette@),
                palette@.len() as nat,
            )[i],
{
    let ghost pv = pal_view(palette@);
    let ghost max = palette@.len() as nat;
    let mut r: Vec<String> = Vec::new();
    let mut i: usize = 0;
    while i < palette.len()
        invariant
            i <= palette.len(),
            r@.len() == i,
            forall|j: int| 0 <= j < i ==> (#[trigger] r@[j])@ == Seq::<char>::empty(),
        decreases palette.len() - i,
    {
        r.push(String::new());
        i = i + 1;
    }
    proof {
        assert(pv.take(0) =~= Seq::<(Seq<char>, i32)>::empty());
    }
    let mut t: usize = 0;
    while t < palette.len()
        invariant
            t <= palette.len(),
            pv == pal_view(palette@),
            max == palette@.len() as nat,
            pv.len() == palette@.len(),
            palette_ids_in_range(pv, palette@.len() as int),
            r@.len() == palette@.len(),
            forall|j: int|
                0 <= j < r@.len() ==> (#[trigger] r@[j])@ == spec_reverse(pv.take(t as int), max)[j],
        decreases palette.len() - t,
    {
        let id = palette[t].1;
        let ghost old_r = r@;
        proof {
            lemma_reverse_len(pv.take(t as int), max);
            lemma_reverse_len(pv.take(t as int + 1), max);
            assert(pv[t as int] == (palette@[t as int].0@, palette@[t as int].1));
            assert(0 <= pv[t as int].1 < palette@.len());
            assert(pv.take(t as int + 1).drop_last() =~= pv.take(t as int));
            assert(pv.take(t as int + 1).last() == pv[t as int]);
            assert(spec_reverse(pv.take(t as int + 1), max) == spec_reverse(
                pv.take(t as int),
                max,
            ).update(pv[t as int].1 as int, pv[t as int].0));
        }
        let name = palette[t].0.clone();
        proof {
            assert(name@ == pv[t as int].0);
        }
        r[id as usize] = name;
        proof {
            assert(r@ == old_r.update(id as int, r@[id as int]));
            assert forall|j: int| 0 <= j < r@.len() implies (#[trigger] r@[j])@ == spec_reverse(
                pv.take(t as int + 1),
                max,
            )[j] by {
                if j != id {
                    assert(r@[j] == old_r[j]);
                }
            }
        }
        t = t + 1;
    }
    proof {
        assert(pv.take(pv.len() as int) =~= pv);
    }
    r
}

} // verus!
