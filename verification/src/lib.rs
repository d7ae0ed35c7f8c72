//! Fuzzy 3D pattern search in voxel schematics.
//!
//! The library decodes versioned, gzip-compressed, tag-based schematic
//! documents into an in-memory voxel-plus-palette record, aligns the
//! palettes of two independently encoded schematics so that their grids
//! become comparable by plain integer equality, and slides the pattern
//! grid over the volume grid to collect fuzzy matches whose score reaches
//! a threshold.

use vstd::prelude::*;

pub mod decode;
pub mod filter;
pub mod nbt_search;
pub mod pattern_mapper;
pub mod schematic;
pub mod search;
pub mod search_space;
pub mod varint;

verus! {

use vstd::string::StrSliceExecFns;

/// An exact non-negative rational, used both for the acceptance threshold
/// of a search and for the score of a match. The value is `num / den`;
/// `den` must not be zero.
#[derive(Debug, Clone, Copy, PartialEq, Eq, Structural)]
pub struct Fraction {
    pub num: u64,
    pub den: u64,
}

impl Fraction {
    /// A meaningful fraction has a non-zero denominator.
    pub open spec fn spec_valid(self) -> bool {
        self.den > 0
    }

    /// `self >= other` as rationals (assuming both denominators are positive).
    pub open spec fn spec_ge(self, other: Fraction) -> bool {
        self.num * other.den >= other.num * self.den
    }

    /// Builds the fraction `num / den`.
    pub fn new(num: u64, den: u64) -> (r: Fraction)
        ensures
            r == (Fraction { num, den }),
    {
        Fraction { num, den }
    }

    /// Compares two fractions exactly: returns `self >= other`.
    pub fn ge(&self, other: &Fraction) -> (r: bool)
        ensures
            r == self.spec_ge(*other),
    {
        let a = self.num as u128;
        let b = other.den as u128;
        let c = other.num as u128;
        let d = self.den as u128;
        proof {
            assert(a * b <= u128::MAX && c * d <= u128::MAX) by (nonlinear_arith)
                requires
                    a < 0x10000000000000000,
                    b < 0x10000000000000000,
                    c < 0x10000000000000000,
                    d < 0x10000000000000000,
            ;
        }
        a * b >= c * d
    }
}

/// Configuration of one search call.
///
/// `threshold` is the inclusive lower bound on the fraction of matching
/// cells for a window to be reported. `ignore_block_entities` and
/// `ignore_entities` are reserved and not enforced by the matcher.
#[derive(Debug, Clone, Copy)]
pub struct SearchBehavior {
    pub ignore_block_data: bool,
    pub ignore_block_entities: bool,
    pub ignore_air: bool,
    pub air_as_any: bool,
    pub ignore_entities: bool,
    pub threshold: Fraction,
    pub invalid_nbt: bool,
}

/// One reported placement of the pattern inside the volume:
/// the offset of the pattern's lower corner and the exact fraction of
/// matching cells.
#[derive(Debug, Clone, Copy, PartialEq, Eq, Structural)]
pub struct Match {
    pub x: u16,
    pub y: u16,
    pub z: u16,
    pub percent: Fraction,
}

/// The block name up to, but not including, the first `'['`:
/// `"id[face=up]"` becomes `"id"`, a name without brackets stays itself.
pub open spec fn spec_strip_state(s: Seq<char>) -> Seq<char>
    decreases s.len(),
{
    if s.len() == 0 {
        s
    } else if s[0] == '[' {
        Seq::<char>::empty()
    } else {
        seq![s[0]] + spec_strip_state(s.drop_first())
    }
}

/// `spec_strip_state` applied only when `ignore_data` is set.
pub open spec fn spec_normalize(s: Seq<char>, ignore_data: bool) -> Seq<char> {
    if ignore_data {
        spec_strip_state(s)
    } else {
        s
    }
}

proof fn lemma_strip_state_is_prefix(s: Seq<char>, i: int)
    requires
        0 <= i <= s.len(),
        forall|j: int| 0 <= j < i ==> s[j] != '[',
        i == s.len() || s[i] == '[',
    ensures
        spec_strip_state(s) == s.subrange(0, i),
    decreases i,
{
    if i == 0 {
        if s.len() == 0 {
            assert(spec_strip_state(s) == s);
            assert(s.subrange(0, 0) =~= s);
        } else {
            assert(s[0] == '[');
            assert(spec_strip_state(s) =~= s.subrange(0, 0));
        }
    } else {
        let t = s.drop_first();
        assert(forall|j: int| 0 <= j < i - 1 ==> t[j] != '[');
        lemma_strip_state_is_prefix(t, i - 1);
        assert(spec_strip_state(s) == seq![s[0]] + spec_strip_state(t));
        assert(seq![s[0]] + t.subrange(0, i - 1) =~= s.subrange(0, i));
    }
}

/// Strips the bracketed block-state suffix from a block name when
/// `ignore_data` is set; otherwise hands the name back unchanged.
pub fn normalize_data(data: &str, ignore_data: bool) -> (r: &str)
    ensures
        r@ == spec_normalize(data@, ignore_data),
{
    if !ignore_data {
        return data;
    }
    let len = data.unicode_len();
    let mut i: usize = 0;
    while i < len
        invariant_except_break
            i <= len,
            len == data@.len(),
            forall|j: int| 0 <= j < i ==> data@[j] != '[',
        ensures
            i <= len,
            len == data@.len(),
            forall|j: int| 0 <= j < i ==> data@[j] != '[',
            i == len || data@[i as int] == '[',
        decreases len - i,
    {
        if data.get_char(i) == '[' {
            break;
        }
        i = i + 1;
    }
    proof {
        lemma_strip_state_is_prefix(data@, i as int);
    }
    data.substring_char(0, i)
}

/// Character-by-character string comparison, proved to decide equality
/// of the two views.
pub fn str_eq(a: &str, b: &str) -> (r: bool)
    ensures
        r == (a@ == b@),
{
    let la = a.unicode_len();
    let lb = b.unicode_len();
    if la != lb {
        return false;
    }
    let mut i: usize = 0;
    while i < la
        invariant
            i <= la,
            la == a@.len(),
            la == b@.len(),
            forall|j: int| 0 <= j < i ==> a@[j] == b@[j],
        decreases la - i,
    {
        if a.get_char(i) != b.get_char(i) {
            return false;
        }
        i = i + 1;
    }
    proof {
        assert(a@ =~= b@);
    }
    true
}

} // verus!
