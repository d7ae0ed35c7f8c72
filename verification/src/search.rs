//! The sliding-window search engine.
//!
//! After palette alignment both grids speak one identifier space, so a
//! cell comparison is one integer equality. The pattern's bounding box
//! is slid over every placement inside the volume, in ascending
//! (y, z, x) order; per window the mismatching cells are counted with an
//! early abort once the mismatch budget is spent. A window is accepted
//! exactly where its fraction of matching cells reaches the threshold
//! (inclusively).

use vstd::prelude::*;

verus! {

use crate::Fraction;
use crate::Match;
use crate::SearchBehavior;
use crate::schematic::SpongeSchematic;
use crate::schematic::pal_view;
use crate::schematic::palette_get;
use crate::schematic::spec_index;
use crate::schematic::spec_lookup;
use crate::pattern_mapper::match_palette;
use crate::pattern_mapper::match_palette_adapt;
use crate::pattern_mapper::spec_adapt;
use crate::pattern_mapper::spec_aligned_palette;
use crate::pattern_mapper::spec_aligned_pattern_data;
use crate::pattern_mapper::spec_reverse;
use crate::pattern_mapper::spec_stripped;

/// Everything one window comparison depends on: the aligned volume and
/// pattern grids, their extents, and the air policy.
pub ghost struct SearchGrid {
    pub vol: Seq<i32>,
    pub vw: int,
    pub vl: int,
    pub pat: Seq<i32>,
    pub pw: int,
    pub ph: int,
    pub pl: int,
    pub air: i32,
    pub ignore_air: bool,
    pub air_as_any: bool,
}

impl SearchGrid {
    /// The number of cells of one pattern placement.
    pub open spec fn total(self) -> int {
        self.pw * self.ph * self.pl
    }

    /// Whether pattern cell (i, j, k) disagrees with the volume under
    /// the window at (x, y, z). A volume cell holding air is never a
    /// mismatch under `ignore_air`; a pattern cell holding air is never
    /// a mismatch under `air_as_any`.
    pub open spec fn mismatch_at(self, x: int, y: int, z: int, i: int, j: int, k: int) -> bool {
        let v = self.vol[spec_index(self.vw, self.vl, x + i, y + j, z + k)];
        let p = self.pat[spec_index(self.pw, self.pl, i, j, k)];
        &&& !(self.ignore_air && v == self.air)
        &&& !(self.air_as_any && p == self.air)
        &&& v != p
    }

    /// The mismatches among the first `n` pattern cells, in the linear
    /// cell order of the grid.
    pub open spec fn mismatches_upto(self, x: int, y: int, z: int, n: int) -> nat
        decreases n,
    {
        if n <= 0 {
            0
        } else {
            let m = n - 1;
            self.mismatches_upto(x, y, z, m) + if self.mismatch_at(
                x,
                y,
                z,
                m % self.pw,
                m / (self.pw * self.pl),
                (m / self.pw) % self.pl,
            ) {
                1nat
            } else {
                0nat
            }
        }
    }

    /// The mismatches of the whole window at (x, y, z).
    pub open spec fn mismatches(self, x: int, y: int, z: int) -> nat {
        self.mismatches_upto(x, y, z, self.total())
    }
}

/// Counting mismatches over a longer prefix never counts fewer.
proof fn lemma_upto_mono(g: SearchGrid, x: int, y: int, z: int, n1: int, n2: int)
    requires
        n1 <= n2,
    ensures
        g.mismatches_upto(x, y, z, n1) <= g.mismatches_upto(x, y, z, n2),
    decreases n2 - n1,
{
    if n1 < n2 {
        lemma_upto_mono(g, x, y, z, n1, n2 - 1);
    }
}

/// The linear cell index decomposes back into its three coordinates.
proof fn lemma_lin_decompose(pw: int, pl: int, i: int, j: int, k: int)
    requires
        pw > 0,
        pl > 0,
        0 <= i < pw,
        0 <= k < pl,
        0 <= j,
    ensures
        (i + pw * (k + j * pl)) % pw == i,
        ((i + pw * (k + j * pl)) / pw) % pl == k,
        (i + pw * (k + j * pl)) / (pw * pl) == j,
{
    let n = i + pw * (k + j * pl);
    assert(i + pw * (k + j * pl) == (k + j * pl) * pw + i) by (nonlinear_arith);
    vstd::arithmetic::div_mod::lemma_fundamental_div_mod_converse(n, pw, k + j * pl, i);
    vstd::arithmetic::div_mod::lemma_fundamental_div_mod_converse(k + j * pl, pl, j, k);
    assert(n % pw == i && n / pw == k + j * pl);
    assert((n / pw) % pl == k);
    assert(i + pw * (k + j * pl) == j * (pw * pl) + (k * pw + i)) by (nonlinear_arith);
    assert(0 <= k * pw + i < pw * pl) by (nonlinear_arith)
        requires
            pw > 0,
            pl > 0,
            0 <= i < pw,
            0 <= k < pl,
    ;
    vstd::arithmetic::div_mod::lemma_fundamental_div_mod_converse(n, pw * pl, j, k * pw + i);
}

/// A coordinate inside the volume has its linear index inside the
/// volume's data.
proof fn lemma_index_in_grid(w: int, h: int, l: int, cx: int, cy: int, cz: int)
    requires
        0 <= cx < w,
        0 <= cy < h,
        0 <= cz < l,
    ensures
        0 <= spec_index(w, l, cx, cy, cz) < w * h * l,
{
    assert(0 <= cx + w * (cz + cy * l) < w * h * l) by (nonlinear_arith)
        requires
            0 <= cx < w,
            0 <= cy < h,
            0 <= cz < l,
    ;
}

/// The grid of one window count, assembled from plain values.
pub open spec fn mk_grid(
    vol: Seq<i32>,
    vw: int,
    vl: int,
    pat: Seq<i32>,
    pw: int,
    ph: int,
    pl: int,
    air: i32,
    ignore_air: bool,
    air_as_any: bool,
) -> SearchGrid {
    SearchGrid { vol, vw, vl, pat, pw, ph, pl, air, ignore_air, air_as_any }
}

/// Counts the mismatching cells of the window at (x, y, z), giving up
/// once `cap` mismatches are reached: the result is the exact count
/// where it stays below `cap`, and `cap` itself where the window has at
/// least `cap` mismatches.
#[verifier::rlimit(30)]
fn count_window_mismatches(
    vol: &Vec<i32>,
    vw: u64,
    vh: u64,
    vl: u64,
    pat: &Vec<i32>,
    pw: u64,
    ph: u64,
    pl: u64,
    x: u64,
    y: u64,
    z: u64,
    air: i32,
    ignore_air: bool,
    air_as_any: bool,
    cap: u64,
) -> (r: u64)
    requires
        vw <= 0xFFFF && vh <= 0xFFFF && vl <= 0xFFFF,
        pw <= 0xFFFF && ph <= 0xFFFF && pl <= 0xFFFF,
        pw > 0 && ph > 0 && pl > 0,
        vol@.len() == vw * vh * vl,
        pat@.len() == pw * ph * pl,
        x + pw <= vw && y + ph <= vh && z + pl <= vl,
        cap >= 1,
    ensures
        ({
            let g = mk_grid(
                vol@,
                vw as int,
                vl as int,
                pat@,
                pw as int,
                ph as int,
                pl as int,
                air,
                ignore_air,
                air_as_any,
            );
            &&& r <= cap
            &&& r < cap ==> r == g.mismatches(x as int, y as int, z as int)
            &&& r == cap ==> g.mismatches(x as int, y as int, z as int) >= cap
        }),
{
    let ghost g = mk_grid(
        vol@,
        vw as int,
        vl as int,
        pat@,
        pw as int,
        ph as int,
        pl as int,
        air,
        ignore_air,
        air_as_any,
    );
    let ghost gx = x as int;
    let ghost gy = y as int;
    let ghost gz = z as int;
    let mut mm: u64 = 0;
    let mut j: u64 = 0;
    proof {
        assert(pw * ph * pl <= 0x1000000000000) by (nonlinear_arith)
            requires
                pw <= 0xFFFF && ph <= 0xFFFF && pl <= 0xFFFF,
        ;
    }
    while j < ph
        invariant
            g == mk_grid(
                vol@,
                vw as int,
                vl as int,
                pat@,
                pw as int,
                ph as int,
                pl as int,
                air,
                ignore_air,
                air_as_any,
            ),
            gx == x as int && gy == y as int && gz == z as int,
            vw <= 0xFFFF && vh <= 0xFFFF && vl <= 0xFFFF,
            pw <= 0xFFFF && ph <= 0xFFFF && pl <= 0xFFFF,
            pw > 0 && ph > 0 && pl > 0,
            vol@.len() == vw * vh * vl,
            pat@.len() == pw * ph * pl,
            x + pw <= vw && y + ph <= vh && z + pl <= vl,
            cap >= 1,
            j <= ph,
            mm < cap,
            mm == g.mismatches_upto(gx, gy, gz, pw * (j * pl)),
        decreases ph - j,
    {
        let mut k: u64 = 0;
        while k < pl
            invariant
                g == mk_grid(
                    vol@,
                    vw as int,
                    vl as int,
                    pat@,
                    pw as int,
                    ph as int,
                    pl as int,
                    air,
                    ignore_air,
                    air_as_any,
                ),
                gx == x as int && gy == y as int && gz == z as int,
                vw <= 0xFFFF && vh <= 0xFFFF && vl <= 0xFFFF,
                pw <= 0xFFFF && ph <= 0xFFFF && pl <= 0xFFFF,
                pw > 0 && ph > 0 && pl > 0,
                vol@.len() == vw * vh * vl,
                pat@.len() == pw * ph * pl,
                x + pw <= vw && y + ph <= vh && z + pl <= vl,
                cap >= 1,
                j < ph,
                k <= pl,
                mm < cap,
                mm == g.mismatches_upto(gx, gy, gz, pw * (k + j * pl)),
            decreases pl - k,
        {
            let mut i: u64 = 0;
            while i < pw
                invariant
                    g == mk_grid(
                        vol@,
                        vw as int,
                        vl as int,
                        pat@,
                        pw as int,
                        ph as int,
                        pl as int,
                        air,
                        ignore_air,
                        air_as_any,
                    ),
                    gx == x as int && gy == y as int && gz == z as int,
                    vw <= 0xFFFF && vh <= 0xFFFF && vl <= 0xFFFF,
                    pw <= 0xFFFF && ph <= 0xFFFF && pl <= 0xFFFF,
                    pw > 0 && ph > 0 && pl > 0,
                    vol@.len() == vw * vh * vl,
                    pat@.len() == pw * ph * pl,
                    x + pw <= vw && y + ph <= vh && z + pl <= vl,
                    cap >= 1,
                    j < ph,
                    k < pl,
                    i <= pw,
                    mm < cap,
                    mm == g.mismatches_upto(gx, gy, gz, i + pw * (k + j * pl)),
                decreases pw - i,
            {
                let ghost n = i + pw * (k + j * pl);
                proof {
                    assert(n < pw * ph * pl) by (nonlinear_arith)
                        requires
                            n == i + pw * (k + j * pl),
                            0 <= i < pw,
                            0 <= k < pl,
                            0 <= j < ph,
                            pw <= 0xFFFF && ph <= 0xFFFF && pl <= 0xFFFF,
                    ;
                    lemma_lin_decompose(pw as int, pl as int, i as int, j as int, k as int);
                    lemma_index_in_grid(
                        vw as int,
                        vh as int,
                        vl as int,
                        gx + i,
                        gy + j,
                        gz + k,
                    );
                    lemma_index_in_grid(
                        pw as int,
                        ph as int,
                        pl as int,
                        i as int,
                        j as int,
                        k as int,
                    );
                }
                proof {
                    assert((y + j) * vl <= 0xFFFF * 0xFFFF) by (nonlinear_arith)
                        requires
                            0 <= y + j <= 0xFFFF,
                            0 <= vl <= 0xFFFF,
                    ;
                    assert(vw * ((z + k) + (y + j) * vl) <= 0xFFFF * 0x100000000)
                        by (nonlinear_arith)
                        requires
                            0 <= vw <= 0xFFFF,
                            0 <= (z + k) + (y + j) * vl <= 0x100000000,
                    ;
                    assert((j as int) * pl <= 0xFFFF * 0xFFFF) by (nonlinear_arith)
                        requires
                            0 <= j <= 0xFFFF,
                            0 <= pl <= 0xFFFF,
                    ;
                    assert(pw * ((k as int) + (j as int) * pl) <= 0xFFFF * 0x100000000)
                        by (nonlinear_arith)
                        requires
                            0 <= pw <= 0xFFFF,
                            0 <= (k as int) + (j as int) * pl <= 0x100000000,
                    ;
                }
                let vidx: u64 = (x + i) + vw * ((z + k) + (y + j) * vl);
                let pidx: u64 = i + pw * (k + j * pl);
                proof {
                    assert(vidx == spec_index(g.vw, g.vl, gx + i, gy + j, gz + k));
                    assert(vidx < vol.len());
                    assert(pidx == spec_index(g.pw, g.pl, i as int, j as int, k as int));
                    assert(pidx < pat.len());
                }
                let v: i32 = vol[vidx as usize];
                let p: i32 = pat[pidx as usize];
                proof {
                    assert(v == g.vol[spec_index(g.vw, g.vl, gx + i, gy + j, gz + k)]);
                    assert(p == g.pat[spec_index(g.pw, g.pl, i as int, j as int, k as int)]);
                }
                let skip_cell = (ignore_air && v == air) || (air_as_any && p == air);
                if !skip_cell && v != p {
                    proof {
                        assert(g.mismatches_upto(gx, gy, gz, n + 1) == mm + 1);
                    }
                    mm = mm + 1;
                    if mm >= cap {
                        proof {
                            lemma_upto_mono(g, gx, gy, gz, n + 1, g.total());
                        }
                        return cap;
                    }
                } else {
                    proof {
                        assert(g.mismatches_upto(gx, gy, gz, n + 1) == mm);
                    }
                }
                i = i + 1;
            }
            proof {
                assert(pw + pw * (k + j * pl) == pw * ((k + 1) + j * pl)) by (nonlinear_arith);
            }
            k = k + 1;
        }
        proof {
            assert(pw * (pl + j * pl) == pw * ((j + 1) * pl)) by (nonlinear_arith);
        }
        j = j + 1;
    }
    proof {
        assert(pw * ((ph as int) * pl) == ((pw as int) * ph) * pl) by (nonlinear_arith);
    }
    mm
}

/// The pattern's box fits inside the volume on every axis, and the
/// pattern does not use more distinct block kinds than the volume
/// offers.
pub open spec fn spec_feasible(schem: SpongeSchematic, pattern: SpongeSchematic) -> bool {
    &&& pattern.width <= schem.width
    &&& pattern.height <= schem.height
    &&& pattern.length <= schem.length
    &&& pattern.palette@.len() <= schem.palette@.len()
}

/// The volume grid the scan runs on: the raw cells, or the cells
/// renamed into the volume's stripped palette when block-state data is
/// ignored.
pub open spec fn spec_search_volume(schem: SpongeSchematic, ignore_data: bool) -> Seq<i32> {
    if ignore_data {
        spec_adapt(
            schem.block_data@,
            spec_reverse(pal_view(schem.palette@), schem.palette_max as nat),
            spec_stripped(schem).0,
            true,
        )
    } else {
        schem.block_data@
    }
}

/// The identifier the air policies compare against: the identifier of
/// the block named "minecraft:air" in the aligned palette, or the
/// sentinel -1 where neither policy is on or the name is absent.
pub open spec fn spec_air_id(schem: SpongeSchematic, b: SearchBehavior) -> i32 {
    if b.ignore_air || b.air_as_any {
        match spec_lookup(spec_aligned_palette(schem, b.ignore_block_data), "minecraft:air"@) {
            Some(id) => id,
            None => -1i32,
        }
    } else {
        -1i32
    }
}

/// The grid one search call scans.
pub open spec fn spec_search_grid(
    schem: SpongeSchematic,
    pattern: SpongeSchematic,
    b: SearchBehavior,
) -> SearchGrid {
    SearchGrid {
        vol: spec_search_volume(schem, b.ignore_block_data),
        vw: schem.width as int,
        vl: schem.length as int,
        pat: spec_aligned_pattern_data(schem, pattern, b.ignore_block_data),
        pw: pattern.width as int,
        ph: pattern.height as int,
        pl: pattern.length as int,
        air: spec_air_id(schem, b),
        ignore_air: b.ignore_air,
        air_as_any: b.air_as_any,
    }
}

/// The mismatch budget: the largest mismatch count whose matching
/// fraction still reaches the threshold, `total * (den - num) / den`.
/// A window is accepted exactly where its mismatches stay within this
/// budget, which is the same as its matching fraction reaching the
/// threshold inclusively.
pub open spec fn spec_max_mismatches(threshold: Fraction, total: int) -> int {
    total * (threshold.den - threshold.num) / (threshold.den as int)
}

/// The mismatch budget names exactly the windows whose matching
/// fraction reaches the threshold: staying within the budget and the
/// inclusive fraction comparison agree on every mismatch count.
pub proof fn lemma_budget_is_threshold(t: Fraction, total: int, mm: int)
    requires
        t.spec_valid(),
        0 < total <= 0xFFFFFFFFFFFFFFFF,
        0 <= mm <= total,
    ensures
        mm <= spec_max_mismatches(t, total) <==> (Fraction {
            num: (total - mm) as u64,
            den: total as u64,
        }).spec_ge(t),
{
    let d = t.den as int;
    let n = t.num as int;
    let x = total * (d - n);
    if mm <= spec_max_mismatches(t, total) {
        vstd::arithmetic::div_mod::lemma_fundamental_div_mod(x, d);
        assert(d * (x / d) <= x);
        assert(mm * d <= (x / d) * d) by (nonlinear_arith)
            requires
                mm <= x / d,
                d > 0,
        ;
        assert((x / d) * d == d * (x / d)) by (nonlinear_arith);
        assert(mm * d <= x);
        assert((total - mm) * d >= n * total) by (nonlinear_arith)
            requires
                mm * d <= total * (d - n),
        ;
    }
    if (Fraction { num: (total - mm) as u64, den: total as u64 }).spec_ge(t) {
        assert((total - mm) * d >= n * total);
        assert(mm * d <= x) by (nonlinear_arith)
            requires
                (total - mm) * d >= n * total,
                x == total * (d - n),
        ;
        vstd::arithmetic::div_mod::lemma_div_multiples_vanish(mm, d);
        assert((d * mm) / d == mm);
        assert(d * mm == mm * d) by (nonlinear_arith);
        vstd::arithmetic::div_mod::lemma_div_is_ordered(mm * d, x, d);
        assert(mm <= x / d);
    }
}

/// The window at (x, y, z) lies inside the volume.
pub open spec fn spec_in_window(
    schem: SpongeSchematic,
    pattern: SpongeSchematic,
    x: int,
    y: int,
    z: int,
) -> bool {
    &&& 0 <= x <= schem.width - pattern.width
    &&& 0 <= y <= schem.height - pattern.height
    &&& 0 <= z <= schem.length - pattern.length
}

/// The window at (x, y, z) is accepted: its mismatches stay within the
/// budget of the threshold.
pub open spec fn spec_accepts(
    schem: SpongeSchematic,
    pattern: SpongeSchematic,
    b: SearchBehavior,
    x: int,
    y: int,
    z: int,
) -> bool {
    spec_search_grid(schem, pattern, b).mismatches(x, y, z) <= spec_max_mismatches(
        b.threshold,
        spec_search_grid(schem, pattern, b).total(),
    )
}

/// The exact matching fraction of the window at (x, y, z).
pub open spec fn spec_percent(
    schem: SpongeSchematic,
    pattern: SpongeSchematic,
    b: SearchBehavior,
    x: int,
    y: int,
    z: int,
) -> Fraction {
    let g = spec_search_grid(schem, pattern, b);
    Fraction {
        num: (g.total() - g.mismatches(x, y, z)) as u64,
        den: g.total() as u64,
    }
}

/// The match the window at (x, y, z) reports.
pub open spec fn spec_match_at(
    schem: SpongeSchematic,
    pattern: SpongeSchematic,
    b: SearchBehavior,
    x: int,
    y: int,
    z: int,
) -> Match {
    Match {
        x: x as u16,
        y: y as u16,
        z: z as u16,
        percent: spec_percent(schem, pattern, b, x, y, z),
    }
}

/// A reported match names a valid, accepted window and carries its
/// exact matching fraction.
pub open spec fn spec_match_ok(
    schem: SpongeSchematic,
    pattern: SpongeSchematic,
    b: SearchBehavior,
    m: Match,
) -> bool {
    &&& spec_in_window(schem, pattern, m.x as int, m.y as int, m.z as int)
    &&& spec_accepts(schem, pattern, b, m.x as int, m.y as int, m.z as int)
    &&& m == spec_match_at(schem, pattern, b, m.x as int, m.y as int, m.z as int)
}

/// Strict (y, z, x) ordering of two matches.
pub open spec fn spec_lex_lt(m1: Match, m2: Match) -> bool {
    ||| m1.y < m2.y
    ||| (m1.y == m2.y && m1.z < m2.z)
    ||| (m1.y == m2.y && m1.z == m2.z && m1.x < m2.x)
}

/// The window (x, y, z) is scanned before the position (cx, cy, cz).
pub open spec fn spec_before(x: int, y: int, z: int, cx: int, cy: int, cz: int) -> bool {
    ||| y < cy
    ||| (y == cy && z < cz)
    ||| (y == cy && z == cz && x < cx)
}

/// Slides the pattern over every placement inside the volume, in
/// ascending (y, z, x) order, and reports each placement whose
/// fraction of matching cells reaches the threshold, with that exact
/// fraction.
///
/// An infeasible pair — the pattern exceeds the volume on some axis,
/// or its palette holds more entries than the volume's — yields no
/// matches, and neither does an empty pattern.
pub fn search(
    schem: SpongeSchematic,
    pattern_schem: &SpongeSchematic,
    search_behavior: SearchBehavior,
) -> (r: Vec<Match>)
    requires
        schem.wf(),
        pattern_schem.wf(),
        search_behavior.threshold.spec_valid(),
    ensures
        forall|t: int|
            0 <= t < r@.len() ==> spec_match_ok(
                schem,
                *pattern_schem,
                search_behavior,
                #[trigger] r@[t],
            ),
        forall|x: int, y: int, z: int|
            spec_feasible(schem, *pattern_schem) && spec_search_grid(
                schem,
                *pattern_schem,
                search_behavior,
            ).total() > 0 && spec_in_window(schem, *pattern_schem, x, y, z)
                && #[trigger] spec_accepts(schem, *pattern_schem, search_behavior, x, y, z)
                ==> r@.contains(spec_match_at(schem, *pattern_schem, search_behavior, x, y, z)),
        forall|t1: int, t2: int|
            0 <= t1 < t2 < r@.len() ==> spec_lex_lt(#[trigger] r@[t1], #[trigger] r@[t2]),
        !spec_feasible(schem, *pattern_schem) ==> r@ == Seq::<Match>::empty(),
        spec_search_grid(schem, *pattern_schem, search_behavior).total() == 0 ==> r@ == Seq::<
            Match,
        >::empty(),
{
    let ghost pat_in = *pattern_schem;
    let ghost b = search_behavior;
    if schem.width < pattern_schem.width || schem.height < pattern_schem.height || schem.length
        < pattern_schem.length {
        return Vec::new();
    }
    if pattern_schem.palette.len() > schem.palette.len() {
        return Vec::new();
    }
    let pattern_aligned = match_palette(&schem, pattern_schem, search_behavior.ignore_block_data);
    let schem_data: Vec<i32> = if search_behavior.ignore_block_data {
        match_palette_adapt(&schem, &pattern_aligned.palette, true)
    } else {
        crate::schematic::clone_cells(&schem.block_data)
    };
    let air_id: i32 = if search_behavior.ignore_air || search_behavior.air_as_any {
        match palette_get(&pattern_aligned.palette, "minecraft:air") {
            Some(id) => id,
            None => -1,
        }
    } else {
        -1
    };
    let ghost g = spec_search_grid(schem, pat_in, b);
    proof {
        assert(g.vol == schem_data@);
        assert(g.pat == pattern_aligned.block_data@);
        assert(g.air == air_id);
    }
    let vw: u64 = schem.width as u64;
    let vh: u64 = schem.height as u64;
    let vl: u64 = schem.length as u64;
    let pw: u64 = pattern_schem.width as u64;
    let ph: u64 = pattern_schem.height as u64;
    let pl: u64 = pattern_schem.length as u64;
    proof {
        assert(pw * ph <= 0xFFFFFFFF && pw * ph * pl <= 0x1000000000000 && pw * ph * pl == (
        pw as int) * (ph as int) * (pl as int)) by (nonlinear_arith)
            requires
                pw <= 0xFFFF && ph <= 0xFFFF && pl <= 0xFFFF,
        ;
        assert(vw * vh <= 0xFFFFFFFF && vw * vh * vl <= 0x1000000000000 && vw * vh * vl == (
        vw as int) * (vh as int) * (vl as int)) by (nonlinear_arith)
            requires
                vw <= 0xFFFF && vh <= 0xFFFF && vl <= 0xFFFF,
        ;
    }
    let total: u64 = pw * ph * pl;
    proof {
        assert(g.total() == total);
        assert(g.vol.len() == vw * vh * vl);
        assert(g.pat.len() == total);
    }
    if total == 0 {
        return Vec::new();
    }
    proof {
        assert(pw > 0 && ph > 0 && pl > 0) by (nonlinear_arith)
            requires
                pw * ph * pl > 0,
        ;
    }
    let th = search_behavior.threshold;
    if th.num > th.den {
        proof {
            let diff = th.den - th.num;
            assert((total as int) * diff < 0) by (nonlinear_arith)
                requires
                    total > 0,
                    diff < 0,
            ;
            let prod = (total as int) * diff;
            vstd::arithmetic::div_mod::lemma_fundamental_div_mod(prod, th.den as int);
            let q = prod / (th.den as int);
            assert(q < 0) by (nonlinear_arith)
                requires
                    prod == (th.den as int) * q + prod % (th.den as int),
                    prod < 0,
                    0 <= prod % (th.den as int),
                    th.den > 0,
            ;
            assert(spec_max_mismatches(b.threshold, g.total()) < 0);
        }
        return Vec::new();
    }
    let diff: u64 = th.den - th.num;
    proof {
        assert((total as u128) * (diff as u128) <= 0xFFFFFFFFFFFFFFFFFFFFFFFFFFFFFFFF)
            by (nonlinear_arith)
            requires
                total < 0x10000000000000000,
                diff < 0x10000000000000000,
        ;
    }
    let max128: u128 = (total as u128) * (diff as u128) / (th.den as u128);
    proof {
        assert((total as u128) * (diff as u128) == (total as int) * (diff as int))
            by (nonlinear_arith)
            requires
                total <= 0x1000000000000,
                diff <= 0xFFFFFFFFFFFFFFFF,
        ;
        assert(max128 == spec_max_mismatches(b.threshold, g.total()));
        assert((total as int) * (diff as int) <= (total as int) * (th.den as int))
            by (nonlinear_arith)
            requires
                diff <= th.den,
                total >= 0,
        ;
        vstd::arithmetic::div_mod::lemma_div_is_ordered(
            (total as int) * (diff as int),
            (total as int) * (th.den as int),
            th.den as int,
        );
        vstd::arithmetic::div_mod::lemma_div_multiples_vanish(total as int, th.den as int);
        assert(((th.den as int) * (total as int)) / (th.den as int) == total as int);
        assert((total as int) * (th.den as int) == (th.den as int) * (total as int))
            by (nonlinear_arith);
        assert(max128 <= total);
    }
    let max_mm: u64 = max128 as u64;
    let cap: u64 = max_mm + 1;
    let xlim: u64 = vw - pw;
    let ylim: u64 = vh - ph;
    let zlim: u64 = vl - pl;
    let mut matches: Vec<Match> = Vec::with_capacity(4);
    let mut y: u64 = 0;
    while y <= ylim
        invariant
            g == spec_search_grid(schem, pat_in, b),
            b == search_behavior,
            schem.wf(),
            pat_in.wf(),
            pat_in == *pattern_schem,
            vw == schem.width && vh == schem.height && vl == schem.length,
            pw == pat_in.width && ph == pat_in.height && pl == pat_in.length,
            pw > 0 && ph > 0 && pl > 0,
            pw <= vw && ph <= vh && pl <= vl,
            spec_feasible(schem, pat_in),
            g.vol == schem_data@,
            g.pat == pattern_aligned.block_data@,
            g.air == air_id,
            schem_data@.len() == vw * vh * vl,
            pattern_aligned.block_data@.len() == pw * ph * pl,
            total == pw * ph * pl,
            total > 0,
            g.total() == total,
            max_mm as int == spec_max_mismatches(b.threshold, g.total()),
            max_mm <= total,
            cap == max_mm + 1,
            xlim == vw - pw && ylim == vh - ph && zlim == vl - pl,
            y <= ylim + 1,
            forall|t: int|
                0 <= t < matches@.len() ==> spec_match_ok(schem, pat_in, b, #[trigger] matches@[t]),
            forall|t: int|
                0 <= t < matches@.len() ==> spec_before(
                    (#[trigger] matches@[t]).x as int,
                    matches@[t].y as int,
                    matches@[t].z as int,
                    0,
                    y as int,
                    0,
                ),
            forall|x2: int, y2: int, z2: int|
                spec_in_window(schem, pat_in, x2, y2, z2) && #[trigger] spec_accepts(
                    schem,
                    pat_in,
                    b,
                    x2,
                    y2,
                    z2,
                ) && spec_before(x2, y2, z2, 0, y as int, 0) ==> matches@.contains(
                    spec_match_at(schem, pat_in, b, x2, y2, z2),
                ),
            forall|t1: int, t2: int|
                0 <= t1 < t2 < matches@.len() ==> spec_lex_lt(
                    #[trigger] matches@[t1],
                    #[trigger] matches@[t2],
                ),
        decreases ylim + 1 - y,
    {
        let mut z: u64 = 0;
        while z <= zlim
            invariant
                g == spec_search_grid(schem, pat_in, b),
                b == search_behavior,
                schem.wf(),
                pat_in.wf(),
                pat_in == *pattern_schem,
                vw == schem.width && vh == schem.height && vl == schem.length,
                pw == pat_in.width && ph == pat_in.height && pl == pat_in.length,
                pw > 0 && ph > 0 && pl > 0,
                pw <= vw && ph <= vh && pl <= vl,
                spec_feasible(schem, pat_in),
                g.vol == schem_data@,
                g.pat == pattern_aligned.block_data@,
                g.air == air_id,
                schem_data@.len() == vw * vh * vl,
                pattern_aligned.block_data@.len() == pw * ph * pl,
                total == pw * ph * pl,
                total > 0,
                g.total() == total,
                max_mm as int == spec_max_mismatches(b.threshold, g.total()),
                max_mm <= total,
                cap == max_mm + 1,
                xlim == vw - pw && ylim == vh - ph && zlim == vl - pl,
                y <= ylim,
                z <= zlim + 1,
                forall|t: int|
                    0 <= t < matches@.len() ==> spec_match_ok(schem, pat_in, b, #[trigger] matches@[t]),
                forall|t: int|
                    0 <= t < matches@.len() ==> spec_before(
                        (#[trigger] matches@[t]).x as int,
                        matches@[t].y as int,
                        matches@[t].z as int,
                        0,
                        y as int,
                        z as int,
                    ),
                forall|x2: int, y2: int, z2: int|
                    spec_in_window(schem, pat_in, x2, y2, z2) && #[trigger] spec_accepts(
                        schem,
                        pat_in,
                        b,
                        x2,
                        y2,
                        z2,
                    ) && spec_before(x2, y2, z2, 0, y as int, z as int) ==> matches@.contains(
                        spec_match_at(schem, pat_in, b, x2, y2, z2),
                    ),
                forall|t1: int, t2: int|
                    0 <= t1 < t2 < matches@.len() ==> spec_lex_lt(
                        #[trigger] matches@[t1],
                        #[trigger] matches@[t2],
                    ),
            decreases zlim + 1 - z,
        {
            let mut x: u64 = 0;
            while x <= xlim
                invariant
                    g == spec_search_grid(schem, pat_in, b),
                    b == search_behavior,
                    schem.wf(),
                    pat_in.wf(),
                    pat_in == *pattern_schem,
                    vw == schem.width && vh == schem.height && vl == schem.length,
                    pw == pat_in.width && ph == pat_in.height && pl == pat_in.length,
                    pw > 0 && ph > 0 && pl > 0,
                    pw <= vw && ph <= vh && pl <= vl,
                    spec_feasible(schem, pat_in),
                    g.vol == schem_data@,
                    g.pat == pattern_aligned.block_data@,
                    g.air == air_id,
                    schem_data@.len() == vw * vh * vl,
                    pattern_aligned.block_data@.len() == pw * ph * pl,
                    total == pw * ph * pl,
                    total > 0,
                    g.total() == total,
                    max_mm as int == spec_max_mismatches(b.threshold, g.total()),
                    max_mm <= total,
                    cap == max_mm + 1,
                    xlim == vw - pw && ylim == vh - ph && zlim == vl - pl,
                    y <= ylim,
                    z <= zlim,
                    x <= xlim + 1,
                    forall|t: int|
                        0 <= t < matches@.len() ==> spec_match_ok(
                            schem,
                            pat_in,
                            b,
                            #[trigger] matches@[t],
                        ),
                    forall|t: int|
                        0 <= t < matches@.len() ==> spec_before(
                            (#[trigger] matches@[t]).x as int,
                            matches@[t].y as int,
                            matches@[t].z as int,
                            x as int,
                            y as int,
                            z as int,
                        ),
                    forall|x2: int, y2: int, z2: int|
                        spec_in_window(schem, pat_in, x2, y2, z2) && #[trigger] spec_accepts(
                            schem,
                            pat_in,
                            b,
                            x2,
                            y2,
                            z2,
                        ) && spec_before(x2, y2, z2, x as int, y as int, z as int)
                            ==> matches@.contains(spec_match_at(schem, pat_in, b, x2, y2, z2)),
                    forall|t1: int, t2: int|
                        0 <= t1 < t2 < matches@.len() ==> spec_lex_lt(
                            #[trigger] matches@[t1],
                            #[trigger] matches@[t2],
                        ),
                decreases xlim + 1 - x,
            {
                let mm = count_window_mismatches(
                    &schem_data,
                    vw,
                    vh,
                    vl,
                    &pattern_aligned.block_data,
                    pw,
                    ph,
                    pl,
                    x,
                    y,
                    z,
                    air_id,
                    search_behavior.ignore_air,
                    search_behavior.air_as_any,
                    cap,
                );
                proof {
                    assert(mk_grid(
                        schem_data@,
                        vw as int,
                        vl as int,
                        pattern_aligned.block_data@,
                        pw as int,
                        ph as int,
                        pl as int,
                        air_id,
                        search_behavior.ignore_air,
                        search_behavior.air_as_any,
                    ) == g);
                }
                let ghost old_matches = matches@;
                if mm < cap {
                    proof {
                        assert(mm == g.mismatches(x as int, y as int, z as int));
                        assert(spec_accepts(schem, pat_in, b, x as int, y as int, z as int));
                    }
                    matches.push(
                        Match {
                            x: x as u16,
                            y: y as u16,
                            z: z as u16,
                            percent: Fraction { num: total - mm, den: total },
                        },
                    );
                    proof {
                        let m = spec_match_at(schem, pat_in, b, x as int, y as int, z as int);
                        assert(g.mismatches(x as int, y as int, z as int) <= total);
                        assert(matches@[matches@.len() - 1] == m);
                        assert(spec_match_ok(schem, pat_in, b, m));
                    }
                } else {
                    proof {
                        assert(g.mismatches(x as int, y as int, z as int) > max_mm);
                        assert(!spec_accepts(schem, pat_in, b, x as int, y as int, z as int));
                    }
                }
                proof {
                    assert forall|x2: int, y2: int, z2: int|
                        spec_in_window(schem, pat_in, x2, y2, z2) && #[trigger] spec_accepts(
                            schem,
                            pat_in,
                            b,
                            x2,
                            y2,
                            z2,
                        ) && spec_before(
                            x2,
                            y2,
                            z2,
                            x as int + 1,
                            y as int,
                            z as int,
                        ) implies matches@.contains(
                        spec_match_at(schem, pat_in, b, x2, y2, z2),
                    ) by {
                        if spec_before(x2, y2, z2, x as int, y as int, z as int) {
                            let t = choose|t: int|
                                0 <= t < old_matches.len() && old_matches[t] == spec_match_at(
                                    schem,
                                    pat_in,
                                    b,
                                    x2,
                                    y2,
                                    z2,
                                );
                            assert(matches@[t] == spec_match_at(schem, pat_in, b, x2, y2, z2));
                        } else {
                            assert(x2 == x as int && y2 == y as int && z2 == z as int);
                            assert(matches@[matches@.len() - 1] == spec_match_at(
                                schem,
                                pat_in,
                                b,
                                x2,
                                y2,
                                z2,
                            ));
                        }
                    }
                }
                x = x + 1;
            }
            proof {
                assert forall|x2: int, y2: int, z2: int|
                    spec_in_window(schem, pat_in, x2, y2, z2) && #[trigger] spec_accepts(
                        schem,
                        pat_in,
                        b,
                        x2,
                        y2,
                        z2,
                    ) && spec_before(x2, y2, z2, 0, y as int, z as int + 1) implies spec_before(
                    x2,
                    y2,
                    z2,
                    x as int,
                    y as int,
                    z as int,
                ) by {
                    assert(x2 <= schem.width - pat_in.width);
                }
            }
            z = z + 1;
        }
        proof {
            assert forall|x2: int, y2: int, z2: int|
                spec_in_window(schem, pat_in, x2, y2, z2) && #[trigger] spec_accepts(
                    schem,
                    pat_in,
                    b,
                    x2,
                    y2,
                    z2,
                ) && spec_before(x2, y2, z2, 0, y as int + 1, 0) implies spec_before(
                x2,
                y2,
                z2,
                0,
                y as int,
                z as int,
            ) by {
                assert(z2 <= schem.length - pat_in.length);
                assert(x2 >= 0);
            }
        }
        y = y + 1;
    }
    proof {
        assert forall|x2: int, y2: int, z2: int|
            spec_in_window(schem, pat_in, x2, y2, z2) && #[trigger] spec_accepts(
                schem,
                pat_in,
                b,
                x2,
                y2,
                z2,
            ) implies spec_before(x2, y2, z2, 0, y as int, 0) by {
            assert(y2 <= schem.height - pat_in.height);
        }
    }
    matches
}

/// Runs one search call as an orchestrator sees it: under the
/// `invalid_nbt` behavior the schematic is scanned for blocks whose
/// auxiliary data is missing and, where some is, flagged with a single
/// synthetic full match at the origin; otherwise the pattern is
/// searched for. The pattern may only be absent under `invalid_nbt`.
pub fn run_search(
    schem: SpongeSchematic,
    pattern_schem: Option<&SpongeSchematic>,
    search_behavior: SearchBehavior,
) -> (r: Vec<Match>)
    requires
        !search_behavior.invalid_nbt ==> (pattern_schem matches Some(p) && schem.wf() && p.wf()
            && search_behavior.threshold.spec_valid()),
    ensures
        search_behavior.invalid_nbt ==> r@ == if crate::nbt_search::spec_has_invalid_nbt(schem) {
            seq![(Match { x: 0, y: 0, z: 0, percent: Fraction { num: 1, den: 1 } })]
        } else {
            Seq::<Match>::empty()
        },
        pattern_schem matches Some(p) ==> !search_behavior.invalid_nbt ==> {
            &&& forall|t: int|
                0 <= t < r@.len() ==> spec_match_ok(schem, *p, search_behavior, #[trigger] r@[t])
            &&& forall|x: int, y: int, z: int|
                spec_feasible(schem, *p) && spec_search_grid(schem, *p, search_behavior).total()
                    > 0 && spec_in_window(schem, *p, x, y, z) && #[trigger] spec_accepts(
                    schem,
                    *p,
                    search_behavior,
                    x,
                    y,
                    z,
                ) ==> r@.contains(spec_match_at(schem, *p, search_behavior, x, y, z))
            &&& forall|t1: int, t2: int|
                0 <= t1 < t2 < r@.len() ==> spec_lex_lt(#[trigger] r@[t1], #[trigger] r@[t2])
            &&& (!spec_feasible(schem, *p) ==> r@ == Seq::<Match>::empty())
            &&& (spec_search_grid(schem, *p, search_behavior).total() == 0 ==> r@ == Seq::<
                Match,
            >::empty())
        },
{
    if search_behavior.invalid_nbt {
        if crate::nbt_search::has_invalid_nbt(schem) {
            let mut v: Vec<Match> = Vec::new();
            v.push(Match { x: 0, y: 0, z: 0, percent: Fraction { num: 1, den: 1 } });
            proof {
                assert(v@ =~= seq![(Match { x: 0, y: 0, z: 0, percent: Fraction { num: 1, den: 1 } })]);
            }
            v
        } else {
            Vec::new()
        }
    } else {
        search(schem, pattern_schem.unwrap(), search_behavior)
    }
}

/// A window of a grid compared against itself never mismatches.
proof fn lemma_self_upto(g: SearchGrid, n: int)
    requires
        g.vol == g.pat,
        g.vw == g.pw,
        g.vl == g.pl,
    ensures
        g.mismatches_upto(0, 0, 0, n) == 0,
    decreases n,
{
    if n > 0 {
        lemma_self_upto(g, n - 1);
    }
}

/// Self match: with the full threshold and every policy off, a
/// non-empty volume searched for itself is accepted at the origin with
/// every cell matching — and the origin is the only window at all,
/// since the pattern fills the volume exactly.
pub proof fn lemma_self_match(s: SpongeSchematic, b: SearchBehavior)
    requires
        s.wf(),
        s.spec_cells() > 0,
        b.threshold == (Fraction { num: 1, den: 1 }),
        !b.ignore_block_data,
        !b.ignore_air,
        !b.air_as_any,
    ensures
        spec_feasible(s, s),
        spec_search_grid(s, s, b).total() > 0,
        spec_in_window(s, s, 0, 0, 0),
        spec_accepts(s, s, b, 0, 0, 0),
        spec_search_grid(s, s, b).mismatches(0, 0, 0) == 0,
        spec_percent(s, s, b, 0, 0, 0).num == spec_percent(s, s, b, 0, 0, 0).den,
        forall|x: int, y: int, z: int| spec_in_window(s, s, x, y, z) ==> x == 0 && y == 0 && z == 0,
{
    let g = spec_search_grid(s, s, b);
    crate::pattern_mapper::lemma_remap_identity(s);
    assert(g.pat == s.block_data@);
    assert(g.vol == s.block_data@);
    lemma_self_upto(g, g.total());
    assert(g.total() == s.spec_cells());
    let d = b.threshold.den as int;
    assert(g.total() * (b.threshold.den - b.threshold.num) == 0) by (nonlinear_arith)
        requires
            b.threshold.den == b.threshold.num,
    ;
    vstd::arithmetic::div_mod::lemma_div_of0(d);
    assert(spec_max_mismatches(b.threshold, g.total()) == 0);
}

/// The mismatch budget never shrinks when the threshold drops.
proof fn lemma_budget_monotonic(t1: Fraction, t2: Fraction, total: int)
    requires
        t1.spec_valid(),
        t2.spec_valid(),
        t1.num <= t1.den,
        t2.num <= t2.den,
        t2.spec_ge(t1),
        total >= 0,
    ensures
        spec_max_mismatches(t1, total) >= spec_max_mismatches(t2, total),
{
    let d1 = t1.den as int;
    let d2 = t2.den as int;
    let a = total * (t1.den - t1.num);
    let c = total * (t2.den - t2.num);
    assert((total * (t1.den - t1.num)) * (t2.den as int) >= (total * (t2.den - t2.num)) * (
    t1.den as int)) by (nonlinear_arith)
        requires
            total >= 0,
            t2.num * t1.den >= t1.num * t2.den,
    ;
    assert(total * (t1.den - t1.num) >= 0 && total * (t2.den - t2.num) >= 0) by (nonlinear_arith)
        requires
            total >= 0,
            t1.num <= t1.den,
            t2.num <= t2.den,
    ;
    vstd::arithmetic::div_mod::lemma_div_denominator(a * d2, d2, d1);
    vstd::arithmetic::div_mod::lemma_div_denominator(c * d1, d1, d2);
    vstd::arithmetic::div_mod::lemma_div_multiples_vanish(a, d2);
    vstd::arithmetic::div_mod::lemma_div_multiples_vanish(c, d1);
    assert(a * d2 == d2 * a && c * d1 == d1 * c) by (nonlinear_arith);
    assert((a * d2) / d2 == a && (c * d1) / d1 == c);
    assert((a * d2) / (d2 * d1) == a / d1);
    assert((c * d1) / (d1 * d2) == c / d2);
    assert(d2 * d1 == d1 * d2) by (nonlinear_arith);
    assert(d1 * d2 > 0) by (nonlinear_arith)
        requires
            d1 > 0,
            d2 > 0,
    ;
    vstd::arithmetic::div_mod::lemma_div_is_ordered(c * d1, a * d2, d1 * d2);
    assert(a / d1 >= c / d2);
}

/// Threshold monotonicity: a window accepted under a threshold is also
/// accepted under any lower (or equal) threshold, all other behavior
/// equal.
pub proof fn lemma_threshold_monotonic(
    schem: SpongeSchematic,
    pattern: SpongeSchematic,
    b1: SearchBehavior,
    b2: SearchBehavior,
    x: int,
    y: int,
    z: int,
)
    requires
        b1.threshold.spec_valid(),
        b2.threshold.spec_valid(),
        b1.threshold.num <= b1.threshold.den,
        b2.threshold.num <= b2.threshold.den,
        b2.threshold.spec_ge(b1.threshold),
        b1.ignore_block_data == b2.ignore_block_data,
        b1.ignore_air == b2.ignore_air,
        b1.air_as_any == b2.air_as_any,
        spec_accepts(schem, pattern, b2, x, y, z),
    ensures
        spec_accepts(schem, pattern, b1, x, y, z),
{
    let g1 = spec_search_grid(schem, pattern, b1);
    let g2 = spec_search_grid(schem, pattern, b2);
    assert(spec_air_id(schem, b1) == spec_air_id(schem, b2));
    assert(g1 == g2);
    assert(g1.total() >= 0) by {
        if g1.total() < 0 {
            assert((pattern.width as int) * (pattern.height as int) >= 0) by (nonlinear_arith);
            assert(((pattern.width as int) * (pattern.height as int)) * (pattern.length as int)
                >= 0) by (nonlinear_arith);
        }
    }
    lemma_budget_monotonic(b1.threshold, b2.threshold, g1.total());
}

/// Counting mismatches of a grid whose per-cell mismatches imply those
/// of another grid counts no more than the other.
proof fn lemma_upto_le(g1: SearchGrid, g2: SearchGrid, x: int, y: int, z: int, n: int)
    requires
        g1.pw == g2.pw,
        g1.pl == g2.pl,
        forall|i: int, j: int, k: int|
            #[trigger] g2.mismatch_at(x, y, z, i, j, k) ==> g1.mismatch_at(x, y, z, i, j, k),
    ensures
        g2.mismatches_upto(x, y, z, n) <= g1.mismatches_upto(x, y, z, n),
    decreases n,
{
    if n > 0 {
        lemma_upto_le(g1, g2, x, y, z, n - 1);
    }
}

/// Treating pattern-side air as a wildcard only ever adds matches: a
/// window accepted without `air_as_any` is still accepted with it, all
/// other behavior equal.
pub proof fn lemma_air_as_any_superset(
    schem: SpongeSchematic,
    pattern: SpongeSchematic,
    b1: SearchBehavior,
    b2: SearchBehavior,
    x: int,
    y: int,
    z: int,
)
    requires
        !b1.air_as_any,
        b2.air_as_any,
        b1.ignore_block_data == b2.ignore_block_data,
        b1.ignore_air == b2.ignore_air,
        b1.threshold == b2.threshold,
        spec_accepts(schem, pattern, b1, x, y, z),
    ensures
        spec_accepts(schem, pattern, b2, x, y, z),
{
    let g1 = spec_search_grid(schem, pattern, b1);
    let g2 = spec_search_grid(schem, pattern, b2);
    assert(g1.vol == g2.vol && g1.pat == g2.pat);
    assert forall|i: int, j: int, k: int| #[trigger] g2.mismatch_at(x, y, z, i, j, k) implies g1
        .mismatch_at(x, y, z, i, j, k) by {
        if b1.ignore_air {
            assert(g1.air == g2.air);
        }
    }
    lemma_upto_le(g1, g2, x, y, z, g1.total());
    assert(g1.total() == g2.total());
}

} // verus!
