//! The palette aligner.
//!
//! Two schematics are authored independently and almost never agree on
//! the numbering of their palettes, even for identical block names. The
//! functions here rewrite block data so that two grids share one
//! identifier space: `strip_data` collapses names that only differ in
//! their bracketed block-state suffix, and `match_palette_adapt` remaps
//! a grid into a target palette, with `-1` for names the target does not
//! know — a sentinel that never equals a valid identifier, so such a
//! cell never matches.

use vstd::prelude::*;

verus! {

use crate::normalize_data;
use crate::spec_normalize;
use crate::spec_strip_state;
use crate::schematic::SpongeSchematic;
use crate::schematic::cells_in_range;
use crate::schematic::clone_block_entities;
use crate::schematic::clone_palette;
use crate::schematic::id_in_palette;
use crate::schematic::lemma_lookup_found;
use crate::schematic::lemma_lookup_none_absent;
use crate::schematic::pal_view;
use crate::schematic::palette_get;
use crate::schematic::palette_ids_in_range;
use crate::schematic::palette_keys_unique;
use crate::schematic::spec_lookup;

/// The reverse lookup table of a palette: slot `id` holds the name of
/// the last entry carrying `id`, or the empty name where no entry does.
pub open spec fn spec_reverse(p: Seq<(Seq<char>, i32)>, max: nat) -> Seq<Seq<char>>
    decreases p.len(),
{
    if p.len() == 0 {
        Seq::new(max, |i: int| Seq::<char>::empty())
    } else {
        let prev = spec_reverse(p.drop_last(), max);
        let e = p.last();
        if 0 <= e.1 < max {
            prev.update(e.1 as int, e.0)
        } else {
            prev
        }
    }
}

/// The reverse table always has one slot per identifier in `0..max`.
pub proof fn lemma_reverse_len(p: Seq<(Seq<char>, i32)>, max: nat)
    ensures
        spec_reverse(p, max).len() == max,
    decreases p.len(),
{
    if p.len() > 0 {
        lemma_reverse_len(p.drop_last(), max);
    }
}

/// Each filled slot of the reverse table holds the name of an entry
/// that carries that slot's identifier.
proof fn lemma_reverse_entry(p: Seq<(Seq<char>, i32)>, max: nat, c: i32)
    requires
        0 <= c < max,
        id_in_palette(p, c),
    ensures
        exists|i: int|
            0 <= i < p.len() && (#[trigger] p[i]).1 == c && spec_reverse(p, max)[c as int]
                == p[i].0,
    decreases p.len(),
{
    let w = choose|i: int| 0 <= i < p.len() && (#[trigger] p[i]).1 == c;
    assert(p.len() > 0);
    let e = p.last();
    let q = p.drop_last();
    lemma_reverse_len(p, max);
    lemma_reverse_len(q, max);
    if e.1 == c {
        assert(spec_reverse(p, max) == spec_reverse(q, max).update(c as int, e.0));
        assert(p[p.len() - 1].1 == c && spec_reverse(p, max)[c as int] == p[p.len() - 1].0);
    } else {
        assert(w < p.len() - 1);
        assert(q[w] == p[w]);
        assert(id_in_palette(q, c));
        lemma_reverse_entry(q, max, c);
        let i = choose|i: int|
            0 <= i < q.len() && (#[trigger] q[i]).1 == c && spec_reverse(q, max)[c as int]
                == q[i].0;
        assert(q[i] == p[i]);
        if 0 <= e.1 < max {
            assert(spec_reverse(p, max) == spec_reverse(q, max).update(e.1 as int, e.0));
            assert(spec_reverse(p, max)[c as int] == spec_reverse(q, max)[c as int]);
        } else {
            assert(spec_reverse(p, max) == spec_reverse(q, max));
        }
        assert(p[i].1 == c && spec_reverse(p, max)[c as int] == p[i].0);
    }
}

/// Builds the reverse lookup table of a schematic's palette, so that a
/// name is found from an identifier without scanning the palette per
/// cell.
fn create_reverse_palette(schem: &SpongeSchematic) -> (r: Vec<String>)
    requires
        schem.palette_max >= 0,
        palette_ids_in_range(pal_view(schem.palette@), schem.palette_max as int),
    ensures
        r@.len() == schem.palette_max,
        forall|i: int|
            0 <= i < r@.len() ==> (#[trigger] r@[i])@ == spec_reverse(
                pal_view(schem.palette@),
                schem.palette_max as nat,
            )[i],
{
    let ghost pv = pal_view(schem.palette@);
    let ghost max = schem.palette_max as nat;
    let mut r: Vec<String> = Vec::new();
    let mut i: usize = 0;
    while i < schem.palette_max as usize
        invariant
            i <= schem.palette_max,
            r@.len() == i,
            forall|j: int| 0 <= j < i ==> (#[trigger] r@[j])@ == Seq::<char>::empty(),
        decreases schem.palette_max - i,
    {
        r.push(String::new());
        i = i + 1;
    }
    let mut t: usize = 0;
    while t < schem.palette.len()
        invariant
            t <= schem.palette.len(),
            pv == pal_view(schem.palette@),
            max == schem.palette_max as nat,
            pv.len() == schem.palette@.len(),
            palette_ids_in_range(pv, schem.palette_max as int),
            r@.len() == schem.palette_max,
            forall|j: int|
                0 <= j < r@.len() ==> (#[trigger] r@[j])@
                    == spec_reverse(pv.take(t as int), max)[j],
        decreases schem.palette.len() - t,
    {
        let id = schem.palette[t].1;
        let ghost old_r = r@;
        proof {
            lemma_reverse_len(pv.take(t as int), max);
            lemma_reverse_len(pv.take(t as int + 1), max);
            assert(pv[t as int] == (schem.palette@[t as int].0@, schem.palette@[t as int].1));
            assert(0 <= pv[t as int].1 < schem.palette_max);
            assert(pv.take(t as int + 1).drop_last() =~= pv.take(t as int));
            assert(pv.take(t as int + 1).last() == pv[t as int]);
            assert(spec_reverse(pv.take(t as int + 1), max) == spec_reverse(
                pv.take(t as int),
                max,
            ).update(pv[t as int].1 as int, pv[t as int].0));
        }
        let name = schem.palette[t].0.clone();
        proof {
            assert(name@ == pv[t as int].0);
        }
        r[id as usize] = name;
        proof {
            assert(r@ == old_r.update(id as int, r@[id as int]));
            assert(r@[id as int]@ == pv[t as int].0);
            assert forall|j: int| 0 <= j < r@.len() implies (#[trigger] r@[j])@ == spec_reverse(
                pv.take(t as int + 1),
                max,
            )[j] by {
                if j != id {
                    assert(r@[j] == old_r[j]);
                }
            }
        }
        t = t + 1;
    }
    proof {
        assert(pv.take(pv.len() as int) =~= pv);
    }
    r
}

/// The remap of a cell sequence: each cell's name is read in the
/// reverse table, normalized where asked, and looked up in the target
/// palette; absent names map to the sentinel `-1`.
pub open spec fn spec_adapt(
    cells: Seq<i32>,
    rev: Seq<Seq<char>>,
    target: Seq<(Seq<char>, i32)>,
    ignore_data: bool,
) -> Seq<i32> {
    cells.map_values(
        |c: i32|
            match spec_lookup(target, spec_normalize(rev[c as int], ignore_data)) {
                Some(id) => id,
                None => -1i32,
            },
    )
}

/// Rewrites a schematic's block data into the identifier space of the
/// given palette, cell by cell. Cells whose (optionally normalized)
/// name the target palette does not hold become `-1`.
pub fn match_palette_adapt(
    schem: &SpongeSchematic,
    matching_palette: &Vec<(String, i32)>,
    ignore_data: bool,
) -> (r: Vec<i32>)
    requires
        schem.palette_max >= 0,
        palette_ids_in_range(pal_view(schem.palette@), schem.palette_max as int),
        cells_in_range(schem.block_data@, schem.palette_max as int),
    ensures
        r@ == spec_adapt(
            schem.block_data@,
            spec_reverse(pal_view(schem.palette@), schem.palette_max as nat),
            pal_view(matching_palette@),
            ignore_data,
        ),
{
    let ghost rev = spec_reverse(pal_view(schem.palette@), schem.palette_max as nat);
    let ghost target = pal_view(matching_palette@);
    let ghost cells = schem.block_data@;
    let reverse_palette = create_reverse_palette(schem);
    let mut data: Vec<i32> = Vec::new();
    let mut i: usize = 0;
    while i < schem.block_data.len()
        invariant
            i <= schem.block_data.len(),
            cells == schem.block_data@,
            rev == spec_reverse(pal_view(schem.palette@), schem.palette_max as nat),
            target == pal_view(matching_palette@),
            cells_in_range(cells, schem.palette_max as int),
            reverse_palette@.len() == schem.palette_max,
            forall|j: int|
                0 <= j < reverse_palette@.len() ==> (#[trigger] reverse_palette@[j])@ == rev[j],
            data@.len() == i,
            forall|j: int| 0 <= j < i ==> data@[j] == spec_adapt(cells, rev, target, ignore_data)[j],
        decreases schem.block_data.len() - i,
    {
        let c = schem.block_data[i];
        let blockname = normalize_data(reverse_palette[c as usize].as_str(), ignore_data);
        let block_id = match palette_get(matching_palette, blockname) {
            None => -1,
            Some(x) => x,
        };
        data.push(block_id);
        i = i + 1;
    }
    proof {
        assert(data@ =~= spec_adapt(cells, rev, target, ignore_data));
    }
    data
}

/// Palette alignment is the identity on a schematic's own palette: the
/// remap of a well-formed schematic into its own palette, without name
/// normalization, returns its block data unchanged.
pub proof fn lemma_remap_identity(s: SpongeSchematic)
    requires
        s.wf(),
    ensures
        spec_adapt(
            s.block_data@,
            spec_reverse(pal_view(s.palette@), s.palette_max as nat),
            pal_view(s.palette@),
            false,
        ) == s.block_data@,
{
    let p = pal_view(s.palette@);
    let max = s.palette_max as nat;
    let rev = spec_reverse(p, max);
    let out = spec_adapt(s.block_data@, rev, p, false);
    assert forall|j: int| 0 <= j < s.block_data@.len() implies out[j] == s.block_data@[j] by {
        let c = s.block_data@[j];
        lemma_reverse_entry(p, max, c);
        let i = choose|i: int|
            0 <= i < p.len() && (#[trigger] p[i]).1 == c && rev[c as int] == p[i].0;
        let name = p[i].0;
        let first = choose|f: int| 0 <= f < p.len() && (#[trigger] p[f]).0 == name && forall|g: int|
            0 <= g < f ==> (#[trigger] p[g]).0 != name;
        assert(exists|f: int|
            0 <= f < p.len() && (#[trigger] p[f]).0 == name && (forall|g: int|
                0 <= g < f ==> (#[trigger] p[g]).0 != name)) by {
            lemma_first_occurrence(p, name, i);
        }
        lemma_lookup_found(p, name, first);
        assert(palette_keys_unique(p));
        assert(first == i || first < i);
        if first < i {
            assert(p[first].0 != p[i].0);
            assert(false);
        }
        assert(spec_lookup(p, name) == Some(c));
    }
    assert(out =~= s.block_data@);
}

/// Appending a palette entry leaves earlier lookups alone and serves
/// the new name only where it was absent.
proof fn lemma_lookup_push(p: Seq<(Seq<char>, i32)>, e: (Seq<char>, i32), name: Seq<char>)
    ensures
        spec_lookup(p.push(e), name) == if spec_lookup(p, name) is Some {
            spec_lookup(p, name)
        } else if e.0 == name {
            Some(e.1)
        } else {
            None
        },
    decreases p.len(),
{
    if p.len() == 0 {
        assert(p.push(e)[0] == e);
        assert(p.push(e).drop_first() =~= Seq::<(Seq<char>, i32)>::empty());
    } else {
        assert(p.push(e)[0] == p[0]);
        assert(p.push(e).drop_first() =~= p.drop_first().push(e));
        lemma_lookup_push(p.drop_first(), e, name);
    }
}

/// How many slots of a marker sequence are set.
spec fn count_true(s: Seq<bool>) -> nat
    decreases s.len(),
{
    if s.len() == 0 {
        0
    } else {
        count_true(s.drop_last()) + if s.last() {
            1nat
        } else {
            0nat
        }
    }
}

proof fn lemma_count_true_le_len(s: Seq<bool>)
    ensures
        count_true(s) <= s.len(),
    decreases s.len(),
{
    if s.len() > 0 {
        lemma_count_true_le_len(s.drop_last());
    }
}

proof fn lemma_count_true_set(s: Seq<bool>, i: int)
    requires
        0 <= i < s.len(),
        !s[i],
    ensures
        count_true(s.update(i, true)) == count_true(s) + 1,
    decreases s.len(),
{
    let u = s.update(i, true);
    if i == s.len() - 1 {
        assert(u.drop_last() =~= s.drop_last());
    } else {
        assert(u.drop_last() =~= s.drop_last().update(i, true));
        lemma_count_true_set(s.drop_last(), i);
    }
}

/// One folding step of `strip_data`: a cell whose normalized name the
/// palette under construction already holds reuses its identifier; a
/// new name is appended with the next dense identifier.
pub open spec fn spec_strip_step(
    acc: (Seq<(Seq<char>, i32)>, Seq<i32>),
    name: Seq<char>,
) -> (Seq<(Seq<char>, i32)>, Seq<i32>) {
    match spec_lookup(acc.0, name) {
        Some(id) => (acc.0, acc.1.push(id)),
        None => (acc.0.push((name, acc.0.len() as i32)), acc.1.push(acc.0.len() as i32)),
    }
}

/// The stripped palette and block data of a cell sequence: cells are
/// folded in grid order, each contributing its normalized name, so the
/// fresh palette is dense in first-seen order.
pub open spec fn spec_strip_build(cells: Seq<i32>, rev: Seq<Seq<char>>) -> (
    Seq<(Seq<char>, i32)>,
    Seq<i32>,
)
    decreases cells.len(),
{
    if cells.len() == 0 {
        (Seq::<(Seq<char>, i32)>::empty(), Seq::<i32>::empty())
    } else {
        spec_strip_step(
            spec_strip_build(cells.drop_last(), rev),
            spec_strip_state(rev[cells.last() as int]),
        )
    }
}

/// The stripped block data has one cell per input cell.
pub proof fn lemma_strip_build_len(cells: Seq<i32>, rev: Seq<Seq<char>>)
    ensures
        spec_strip_build(cells, rev).1.len() == cells.len(),
    decreases cells.len(),
{
    if cells.len() > 0 {
        lemma_strip_build_len(cells.drop_last(), rev);
    }
}

/// The stripped palette and block data of a schematic.
pub open spec fn spec_stripped(s: SpongeSchematic) -> (Seq<(Seq<char>, i32)>, Seq<i32>) {
    spec_strip_build(s.block_data@, spec_reverse(pal_view(s.palette@), s.palette_max as nat))
}

/// Rewrites the block data so that any two identifiers whose names
/// agree after dropping the bracketed suffix collapse into one, and
/// builds the fresh dense palette of the remaining names in first-seen
/// order. Dimensions and block entities are kept.
pub fn strip_data(schem: &SpongeSchematic) -> (r: SpongeSchematic)
    requires
        schem.palette_max >= 0,
        palette_ids_in_range(pal_view(schem.palette@), schem.palette_max as int),
        cells_in_range(schem.block_data@, schem.palette_max as int),
    ensures
        pal_view(r.palette@) == spec_stripped(*schem).0,
        r.block_data@ == spec_stripped(*schem).1,
        r.block_data@.len() == schem.block_data@.len(),
        r.width == schem.width && r.height == schem.height && r.length == schem.length,
        r.block_entities@ == schem.block_entities@,
        r.palette_max == r.palette@.len(),
        r.palette_max <= schem.palette_max,
        r.data_version == 1,
        r.entities is None,
        palette_ids_in_range(pal_view(r.palette@), r.palette_max as int),
        palette_keys_unique(pal_view(r.palette@)),
        cells_in_range(r.block_data@, r.palette_max as int),
        forall|k: int| 0 <= k < r.palette@.len() ==> (#[trigger] pal_view(r.palette@)[k]).1 == k,
        schem.block_data@.len() == schem.spec_cells() ==> r.wf(),
{
    let ghost rev = spec_reverse(pal_view(schem.palette@), schem.palette_max as nat);
    let ghost cells = schem.block_data@;
    let ghost max = schem.palette_max as nat;
    let reverse_palette = create_reverse_palette(schem);
    let mut palette: Vec<(String, i32)> = Vec::new();
    let mut data: Vec<i32> = Vec::new();
    let ghost mut used = Seq::new(max, |s: int| false);
    proof {
        lemma_count_true_le_len(used);
        lemma_reverse_len(pal_view(schem.palette@), max);
        assert(pal_view(palette@) =~= spec_strip_build(cells.take(0), rev).0);
        assert(data@ =~= spec_strip_build(cells.take(0), rev).1);
        assert forall|s: int| 0 <= s < max && used[s] implies spec_lookup(
            pal_view(palette@),
            spec_strip_state(rev[s]),
        ) is Some by {}
    }
    let mut i: usize = 0;
    while i < schem.block_data.len()
        invariant
            i <= schem.block_data.len(),
            cells == schem.block_data@,
            max == schem.palette_max as nat,
            rev == spec_reverse(pal_view(schem.palette@), schem.palette_max as nat),
            rev.len() == max,
            cells_in_range(cells, schem.palette_max as int),
            reverse_palette@.len() == max,
            forall|j: int|
                0 <= j < reverse_palette@.len() ==> (#[trigger] reverse_palette@[j])@ == rev[j],
            pal_view(palette@) == spec_strip_build(cells.take(i as int), rev).0,
            data@ == spec_strip_build(cells.take(i as int), rev).1,
            data@.len() == i,
            used.len() == max,
            palette@.len() <= count_true(used),
            forall|s: int|
                0 <= s < max && used[s] ==> spec_lookup(
                    pal_view(palette@),
                    spec_strip_state(rev[s]),
                ) is Some,
            forall|k: int| 0 <= k < palette@.len() ==> (#[trigger] pal_view(palette@)[k]).1 == k,
            palette_keys_unique(pal_view(palette@)),
            cells_in_range(data@, palette@.len() as int),
        decreases schem.block_data.len() - i,
    {
        let c = schem.block_data[i];
        proof {
            lemma_count_true_le_len(used);
            assert(cells.take(i as int + 1).drop_last() =~= cells.take(i as int));
            assert(cells.take(i as int + 1).last() == cells[i as int]);
        }
        let block_name = normalize_data(reverse_palette[c as usize].as_str(), true);
        let ghost pv = pal_view(palette@);
        let ghost name = spec_strip_state(rev[c as int]);
        match palette_get(&palette, block_name) {
            Some(id) => {
                proof {
                    crate::schematic::lemma_lookup_some_exists(pv, name);
                }
                data.push(id);
            },
            None => {
                proof {
                    lemma_lookup_none_absent(pv, name);
                    assert(!used[c as int]);
                    lemma_count_true_set(used, c as int);
                }
                let new_id: i32 = palette.len() as i32;
                let owned = block_name.to_owned();
                let ghost old_pal = palette@;
                palette.push((owned, new_id));
                data.push(new_id);
                proof {
                    used = used.update(c as int, true);
                    assert(pal_view(palette@) =~= pv.push((name, new_id)));
                    assert forall|s: int| 0 <= s < max && used[s] implies spec_lookup(
                        pal_view(palette@),
                        spec_strip_state(rev[s]),
                    ) is Some by {
                        lemma_lookup_push(pv, (name, new_id), spec_strip_state(rev[s]));
                    }
                    assert forall|k: int| 0 <= k < palette@.len() implies (#[trigger] pal_view(
                        palette@,
                    )[k]).1 == k by {
                        if k < old_pal.len() {
                            assert(pal_view(palette@)[k] == pv[k]);
                        }
                    }
                }
            },
        }
        proof {
            assert(pal_view(palette@) == spec_strip_build(cells.take(i as int + 1), rev).0);
            assert(data@ == spec_strip_build(cells.take(i as int + 1), rev).1);
        }
        i = i + 1;
    }
    proof {
        assert(cells.take(cells.len() as int) =~= cells);
        lemma_count_true_le_len(used);
    }
    let palette_max: i32 = palette.len() as i32;
    let r = SpongeSchematic {
        data_version: 1,
        width: schem.width,
        height: schem.height,
        length: schem.length,
        offset: [0, 0, 0],
        palette_max,
        palette,
        block_data: data,
        block_entities: clone_block_entities(&schem.block_entities),
        entities: None,
    };
    proof {
        assert forall|j: int| 0 <= j < r.block_data@.len() implies 0 <= (
        #[trigger] r.block_data@[j]) < r.palette_max && id_in_palette(
            pal_view(r.palette@),
            r.block_data@[j],
        ) by {
            let id = r.block_data@[j];
            assert(pal_view(r.palette@)[id as int].1 == id);
        }
    }
    r
}

/// Expresses a pattern in a volume's identifier space: the pattern's
/// dimensions and block entities with the volume's palette, its cells
/// remapped through `match_palette_adapt`.
fn match_palette_internal(
    schem: &SpongeSchematic,
    pattern: &SpongeSchematic,
    ignore_data: bool,
) -> (r: SpongeSchematic)
    requires
        pattern.palette_max >= 0,
        palette_ids_in_range(pal_view(pattern.palette@), pattern.palette_max as int),
        cells_in_range(pattern.block_data@, pattern.palette_max as int),
    ensures
        r.block_data@ == spec_adapt(
            pattern.block_data@,
            spec_reverse(pal_view(pattern.palette@), pattern.palette_max as nat),
            pal_view(schem.palette@),
            ignore_data,
        ),
        r.palette@ == schem.palette@,
        r.palette_max == schem.palette_max,
        r.width == pattern.width && r.height == pattern.height && r.length == pattern.length,
        r.block_entities@ == pattern.block_entities@,
        r.data_version == 0,
        r.entities is None,
{
    let data_pattern = match_palette_adapt(pattern, &schem.palette, ignore_data);
    SpongeSchematic {
        data_version: 0,
        width: pattern.width,
        height: pattern.height,
        length: pattern.length,
        offset: [0, 0, 0],
        palette_max: schem.palette_max,
        palette: clone_palette(&schem.palette),
        block_data: data_pattern,
        block_entities: clone_block_entities(&pattern.block_entities),
        entities: None,
    }
}

/// The palette a pattern is aligned into: the volume's own palette, or
/// its stripped palette when block-state data is ignored.
pub open spec fn spec_aligned_palette(schem: SpongeSchematic, ignore_data: bool) -> Seq<
    (Seq<char>, i32),
> {
    if ignore_data {
        spec_stripped(schem).0
    } else {
        pal_view(schem.palette@)
    }
}

/// The pattern's cells after alignment into the volume's identifier
/// space.
pub open spec fn spec_aligned_pattern_data(
    schem: SpongeSchematic,
    pattern: SpongeSchematic,
    ignore_data: bool,
) -> Seq<i32> {
    if ignore_data {
        spec_adapt(
            spec_stripped(pattern).1,
            spec_reverse(spec_stripped(pattern).0, spec_stripped(pattern).0.len()),
            spec_stripped(schem).0,
            true,
        )
    } else {
        spec_adapt(
            pattern.block_data@,
            spec_reverse(pal_view(pattern.palette@), pattern.palette_max as nat),
            pal_view(schem.palette@),
            false,
        )
    }
}

/// Aligns a pattern with a volume so both grids speak one identifier
/// space: with `ignore_data` both sides are stripped first, then the
/// pattern is remapped into the (possibly stripped) volume palette.
/// The result carries the pattern's dimensions and block entities and
/// the volume's palette.
pub fn match_palette(
    schem: &SpongeSchematic,
    pattern: &SpongeSchematic,
    ignore_data: bool,
) -> (r: SpongeSchematic)
    requires
        schem.wf(),
        pattern.wf(),
    ensures
        pal_view(r.palette@) == spec_aligned_palette(*schem, ignore_data),
        ignore_data ==> r.palette_max as int == spec_aligned_palette(*schem, ignore_data).len(),
        !ignore_data ==> r.palette_max == schem.palette_max,
        r.block_data@ == spec_aligned_pattern_data(*schem, *pattern, ignore_data),
        r.block_data@.len() == pattern.block_data@.len(),
        r.width == pattern.width && r.height == pattern.height && r.length == pattern.length,
        r.block_entities@ == pattern.block_entities@,
        r.entities is None,
{
    if ignore_data {
        let stripped_schem = strip_data(schem);
        let stripped_pattern = strip_data(pattern);
        proof {
            lemma_strip_build_len(
                pattern.block_data@,
                spec_reverse(pal_view(pattern.palette@), pattern.palette_max as nat),
            );
        }
        match_palette_internal(&stripped_schem, &stripped_pattern, true)
    } else {
        match_palette_internal(schem, pattern, false)
    }
}

/// Ahead of any index holding a name there is a first index holding it.
proof fn lemma_first_occurrence(p: Seq<(Seq<char>, i32)>, name: Seq<char>, i: int)
    requires
        0 <= i < p.len(),
        p[i].0 == name,
    ensures
        exists|f: int|
            0 <= f < p.len() && (#[trigger] p[f]).0 == name && (forall|g: int|
                0 <= g < f ==> (#[trigger] p[g]).0 != name),
    decreases i,
{
    if forall|g: int| 0 <= g < i ==> (#[trigger] p[g]).0 != name {
        assert(p[i].0 == name && (forall|g: int| 0 <= g < i ==> (#[trigger] p[g]).0 != name));
    } else {
        let e = choose|e: int| 0 <= e < i && (#[trigger] p[e]).0 == name;
        lemma_first_occurrence(p, name, e);
    }
}

} // verus!
