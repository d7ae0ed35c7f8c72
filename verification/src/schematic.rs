//! The in-memory schematic record and its well-formedness.

use vstd::prelude::*;

verus! {

use crate::str_eq;

/// Auxiliary structured data attached to one voxel coordinate.
#[derive(Debug, Clone)]
pub struct BlockEntity {
    pub id: String,
    pub pos: [i32; 3],
}

/// A non-block object of the schematic; carried through the record but
/// never read by the search.
#[derive(Debug, Clone)]
pub struct Entity {
    pub id: String,
    pub pos: [i32; 3],
}

/// The voxel fields that a version-3 document nests inside one
/// "Blocks" compound: palette, block data and block entities.
#[derive(Debug, Clone)]
pub struct BlockContainer {
    pub palette: Vec<(String, i32)>,
    pub block_data: Vec<i32>,
    pub block_entities: Vec<BlockEntity>,
}

/// One decoded schematic: a width x height x length voxel grid whose
/// cells hold small palette identifiers, the palette mapping each block
/// name to its identifier, and the block entities. The version
/// differences of the on-disk format are fully resolved by the decoder,
/// so every consumer is version-agnostic.
#[derive(Debug, Clone)]
pub struct SpongeSchematic {
    pub data_version: i32,
    pub width: u16,
    pub height: u16,
    pub length: u16,
    pub offset: [i32; 3],
    pub palette_max: i32,
    pub palette: Vec<(String, i32)>,
    pub block_data: Vec<i32>,
    pub block_entities: Vec<BlockEntity>,
    pub entities: Option<Vec<Entity>>,
}

/// A palette at the level of character sequences: the view of each
/// entry's name with its identifier.
pub open spec fn pal_view(p: Seq<(String, i32)>) -> Seq<(Seq<char>, i32)> {
    p.map_values(|e: (String, i32)| (e.0@, e.1))
}

/// The identifier of the first palette entry carrying the given name,
/// if any.
pub open spec fn spec_lookup(p: Seq<(Seq<char>, i32)>, name: Seq<char>) -> Option<i32>
    decreases p.len(),
{
    if p.len() == 0 {
        None
    } else if p[0].0 == name {
        Some(p[0].1)
    } else {
        spec_lookup(p.drop_first(), name)
    }
}

/// Every palette identifier lies in `0..max`.
pub open spec fn palette_ids_in_range(p: Seq<(Seq<char>, i32)>, max: int) -> bool {
    forall|i: int| 0 <= i < p.len() ==> 0 <= (#[trigger] p[i]).1 < max
}

/// No block name appears twice in the palette.
pub open spec fn palette_keys_unique(p: Seq<(Seq<char>, i32)>) -> bool {
    forall|i: int, j: int| 0 <= i < j < p.len() ==> (#[trigger] p[i]).0 != (#[trigger] p[j]).0
}

/// Every identifier lies in `0..max` and no block name appears twice.
pub open spec fn palette_wf(p: Seq<(Seq<char>, i32)>, max: int) -> bool {
    palette_ids_in_range(p, max) && palette_keys_unique(p)
}

/// Every cell value lies in `0..max`.
pub open spec fn cells_in_range(cells: Seq<i32>, max: int) -> bool {
    forall|i: int| 0 <= i < cells.len() ==> 0 <= (#[trigger] cells[i]) < max
}

/// Some palette entry carries the given identifier.
pub open spec fn id_in_palette(p: Seq<(Seq<char>, i32)>, id: i32) -> bool {
    exists|i: int| 0 <= i < p.len() && (#[trigger] p[i]).1 == id
}

/// The linear cell index of coordinate (x, y, z) in a grid of width `w`
/// and length `l`: `x + w * (z + y * l)`.
pub open spec fn spec_index(w: int, l: int, x: int, y: int, z: int) -> int {
    x + w * (z + y * l)
}

impl SpongeSchematic {
    /// The number of cells the grid extents call for.
    pub open spec fn spec_cells(self) -> int {
        self.width * self.height * self.length
    }

    /// The record invariant: the block data covers the grid exactly,
    /// the palette is well-formed under `palette_max`, and every cell
    /// holds the identifier of some palette entry.
    pub open spec fn wf(self) -> bool {
        &&& self.palette_max >= 0
        &&& self.block_data@.len() == self.spec_cells()
        &&& palette_wf(pal_view(self.palette@), self.palette_max as int)
        &&& forall|i: int|
            0 <= i < self.block_data@.len() ==> 0 <= (#[trigger] self.block_data@[i])
                < self.palette_max && id_in_palette(pal_view(self.palette@), self.block_data@[i])
    }
}

proof fn lemma_lookup_skip(p: Seq<(Seq<char>, i32)>, name: Seq<char>, i: int)
    requires
        0 <= i <= p.len(),
        forall|j: int| 0 <= j < i ==> (#[trigger] p[j]).0 != name,
    ensures
        spec_lookup(p, name) == spec_lookup(p.skip(i), name),
    decreases i,
{
    if i > 0 {
        assert(p[0].0 != name);
        let t = p.drop_first();
        assert(forall|j: int| 0 <= j < i - 1 ==> (#[trigger] t[j]).0 != name);
        lemma_lookup_skip(t, name, i - 1);
        assert(t.skip(i - 1) =~= p.skip(i));
    } else {
        assert(p.skip(0) =~= p);
    }
}

/// Where an entry carries the name and no earlier entry does, the
/// lookup returns that entry's identifier.
pub proof fn lemma_lookup_found(p: Seq<(Seq<char>, i32)>, name: Seq<char>, i: int)
    requires
        0 <= i < p.len(),
        forall|j: int| 0 <= j < i ==> (#[trigger] p[j]).0 != name,
        p[i].0 == name,
    ensures
        spec_lookup(p, name) == Some(p[i].1),
{
    lemma_lookup_skip(p, name, i);
    assert(p.skip(i)[0] == p[i]);
}

/// Where no entry carries the name, the lookup fails.
pub proof fn lemma_lookup_absent(p: Seq<(Seq<char>, i32)>, name: Seq<char>)
    requires
        forall|j: int| 0 <= j < p.len() ==> (#[trigger] p[j]).0 != name,
    ensures
        spec_lookup(p, name) is None,
{
    lemma_lookup_skip(p, name, p.len() as int);
    assert(p.skip(p.len() as int) =~= Seq::<(Seq<char>, i32)>::empty());
}

/// A successful lookup names an entry that holds the name and the
/// returned identifier.
pub proof fn lemma_lookup_some_exists(p: Seq<(Seq<char>, i32)>, name: Seq<char>)
    ensures
        spec_lookup(p, name) matches Some(id) ==> exists|i: int|
            0 <= i < p.len() && (#[trigger] p[i]).0 == name && p[i].1 == id,
    decreases p.len(),
{
    if p.len() > 0 && p[0].0 != name {
        lemma_lookup_some_exists(p.drop_first(), name);
        if let Some(id) = spec_lookup(p.drop_first(), name) {
            let i = choose|i: int|
                0 <= i < p.drop_first().len() && (#[trigger] p.drop_first()[i]).0 == name
                    && p.drop_first()[i].1 == id;
            assert(p[i + 1].0 == name && p[i + 1].1 == id);
        }
    }
}

/// Where the lookup fails, no entry carries the name.
pub proof fn lemma_lookup_none_absent(p: Seq<(Seq<char>, i32)>, name: Seq<char>)
    ensures
        spec_lookup(p, name) is None ==> forall|j: int|
            0 <= j < p.len() ==> (#[trigger] p[j]).0 != name,
    decreases p.len(),
{
    if p.len() > 0 && p[0].0 != name {
        lemma_lookup_none_absent(p.drop_first(), name);
        if spec_lookup(p, name) is None {
            assert(forall|j: int|
                1 <= j < p.len() ==> (#[trigger] p[j]).0 == p.drop_first()[j - 1].0);
        }
    }
}

/// Finds the identifier of a block name in a palette: the executable
/// counterpart of `spec_lookup`.
pub fn palette_get(p: &Vec<(String, i32)>, name: &str) -> (r: Option<i32>)
    ensures
        r == spec_lookup(pal_view(p@), name@),
{
    let ghost pv = pal_view(p@);
    let mut i: usize = 0;
    while i < p.len()
        invariant
            i <= p.len(),
            pv == pal_view(p@),
            pv.len() == p@.len(),
            forall|j: int| 0 <= j < i ==> (#[trigger] pv[j]).0 != name@,
        decreases p.len() - i,
    {
        proof {
            assert(pv[i as int] == (p@[i as int].0@, p@[i as int].1));
        }
        if str_eq(p[i].0.as_str(), name) {
            proof {
                lemma_lookup_found(pv, name@, i as int);
            }
            return Some(p[i].1);
        }
        i = i + 1;
    }
    proof {
        lemma_lookup_absent(pv, name@);
    }
    None
}

/// Copies a palette entry by entry, keeping every name and identifier.
pub fn clone_palette(p: &Vec<(String, i32)>) -> (r: Vec<(String, i32)>)
    ensures
        r@ == p@,
{
    let mut r: Vec<(String, i32)> = Vec::new();
    let mut i: usize = 0;
    while i < p.len()
        invariant
            i <= p.len(),
            r@ =~= p@.take(i as int),
        decreases p.len() - i,
    {
        r.push((p[i].0.clone(), p[i].1));
        proof {
            assert(r@ =~= p@.take(i as int + 1));
        }
        i = i + 1;
    }
    proof {
        assert(p@.take(p@.len() as int) =~= p@);
    }
    r
}

/// Copies a block-entity list element by element, keeping every value.
pub fn clone_block_entities(v: &Vec<BlockEntity>) -> (r: Vec<BlockEntity>)
    ensures
        r@ == v@,
{
    let mut r: Vec<BlockEntity> = Vec::new();
    let mut i: usize = 0;
    while i < v.len()
        invariant
            i <= v.len(),
            r@ =~= v@.take(i as int),
        decreases v.len() - i,
    {
        r.push(BlockEntity { id: v[i].id.clone(), pos: v[i].pos });
        proof {
            assert(v@[i as int] == (BlockEntity { id: v@[i as int].id, pos: v@[i as int].pos }));
            assert(r@ =~= v@.take(i as int + 1));
        }
        i = i + 1;
    }
    proof {
        assert(v@.take(v@.len() as int) =~= v@);
    }
    r
}

/// Copies a cell vector value by value.
pub fn clone_cells(v: &Vec<i32>) -> (r: Vec<i32>)
    ensures
        r@ == v@,
{
    let mut r: Vec<i32> = Vec::new();
    let mut i: usize = 0;
    while i < v.len()
        invariant
            i <= v.len(),
            r@ =~= v@.take(i as int),
        decreases v.len() - i,
    {
        r.push(v[i]);
        proof {
            assert(r@ =~= v@.take(i as int + 1));
        }
        i = i + 1;
    }
    proof {
        assert(v@.take(v@.len() as int) =~= v@);
    }
    r
}

} // verus!
