//! Decoding of the on-disk schematic format.
//!
//! A schematic arrives as a gzip-compressed tagged binary document.
//! Gunzipping the envelope and parsing the tag tree is the work of the
//! `nbt` crate, behind the trusted declarations below; everything the
//! format *means* — version detection, field widths, offset encodings,
//! the palette policy, the varint block stream and the record
//! invariant — is decoded here in verified code over a shallow,
//! plain-value classification of the tags.
//!
//! Documented policy choices, where the format leaves room:
//! - The schema version is the explicit integer-valued `Version` field
//!   where one is present (accepting byte, short and int widths);
//!   otherwise it is inferred structurally, in the fixed priority
//!   order `Blocks` (3), then `BlockEntities` (2), then
//!   `TileEntities` (1).
//! - Non-integer palette entries are silently skipped, not rejected.
//! - A 16-bit extent stored negative is reinterpreted as the unsigned
//!   extent with the same 16 low bits.
//! - A `Metadata` compound may be present but is never read; the
//!   record carries none.

use vstd::prelude::*;

verus! {

use nbt::Tag;

use crate::str_eq;
use crate::schematic::BlockEntity;
use crate::schematic::SpongeSchematic;
use crate::schematic::cells_in_range;
use crate::schematic::id_in_palette;
use crate::schematic::pal_view;
use crate::schematic::palette_ids_in_range;
use crate::varint::bytes_of;
use crate::varint::read_varint_array;
use crate::varint::spec_decode_varints;

/// Why a byte stream failed to decode into a schematic record.
///
/// Every failure is returned, never panicked; the `String` payloads
/// name the offending field so a caller can report per-file failures.
#[derive(Debug, Clone, PartialEq, Eq)]
pub enum DecodeError {
    /// A required field is absent.
    MissingField(String),
    /// A field is present but holds a tag of the wrong kind, or a
    /// value outside the range its field allows.
    WrongFieldType(String),
    /// The version field holds a number this library does not know,
    /// or no version can be inferred at all.
    UnknownVersion,
    /// The block-data stream holds a value of more than five varint
    /// groups.
    MalformedVarint,
    /// The decoded fields do not form a well-formed record: the block
    /// data does not cover the grid exactly, or an identifier falls
    /// outside the palette.
    Invalid(String),
    /// The byte stream could not be read as a gzip-compressed tagged
    /// binary document, or the source could not be read at all.
    Io(String),
}

/// `DecodeError` at the level of character sequences, for contracts.
pub ghost enum DecodeFailure {
    MissingField(Seq<char>),
    WrongFieldType(Seq<char>),
    UnknownVersion,
    MalformedVarint,
    Invalid(Seq<char>),
    Io(Seq<char>),
}

/// The view of a returned error.
pub open spec fn err_model(e: DecodeError) -> DecodeFailure {
    match e {
        DecodeError::MissingField(s) => DecodeFailure::MissingField(s@),
        DecodeError::WrongFieldType(s) => DecodeFailure::WrongFieldType(s@),
        DecodeError::UnknownVersion => DecodeFailure::UnknownVersion,
        DecodeError::MalformedVarint => DecodeFailure::MalformedVarint,
        DecodeError::Invalid(s) => DecodeFailure::Invalid(s@),
        DecodeError::Io(s) => DecodeFailure::Io(s@),
    }
}

#[verifier::external_type_specification]
#[verifier::external_body]
pub struct ExCompoundTag(nbt::CompoundTag);

#[verifier::external_type_specification]
#[verifier::external_body]
pub struct ExTag(nbt::Tag);

/// One tag of the document, classified shallowly into the plain forms
/// the format reads. Nested compounds and raw list elements stay
/// opaque until they are classified in turn.
pub enum FieldValue {
    /// A byte, short or int, widened to 64 bits.
    Int(i64),
    /// A long integer.
    Long(i64),
    /// A string.
    Str(String),
    /// A byte array.
    Bytes(Vec<i8>),
    /// An int array.
    Ints(Vec<i32>),
    /// A list of raw tags.
    List(Vec<nbt::Tag>),
    /// A nested compound.
    Compound(nbt::CompoundTag),
    /// A float, double or long array: carried by the format but read
    /// by none of its fields.
    Other,
}

/// The shallow classification of one tag value: what `tag_field`
/// returns for it.
pub uninterp spec fn tag_field_model(t: nbt::Tag) -> FieldValue;

/// Relies on the `Tag` enum of the `nbt` crate: each variant is told
/// apart and its payload moved over, with byte, short and int widened
/// to 64 bits — so an `Int` classification always lies in 32-bit
/// range.
#[verifier::external_body]
fn tag_field(t: &nbt::Tag) -> (r: FieldValue)
    ensures
        r == tag_field_model(*t),
        r matches FieldValue::Int(v) ==> -0x80000000 <= v <= 0x7FFFFFFF,
{
    match t {
        Tag::Byte(v) => FieldValue::Int(*v as i64),
        Tag::Short(v) => FieldValue::Int(*v as i64),
        Tag::Int(v) => FieldValue::Int(*v as i64),
        Tag::Long(v) => FieldValue::Long(*v),
        Tag::Float(_) => FieldValue::Other,
        Tag::Double(_) => FieldValue::Other,
        Tag::ByteArray(v) => FieldValue::Bytes(v.clone()),
        Tag::String(v) => FieldValue::Str(v.clone()),
        Tag::List(v) => FieldValue::List(v.clone()),
        Tag::Compound(v) => FieldValue::Compound(v.clone()),
        Tag::IntArray(v) => FieldValue::Ints(v.clone()),
        Tag::LongArray(_) => FieldValue::Other,
    }
}

/// The entries a compound holds, in document order, each classified:
/// what `compound_fields` returns for it.
pub uninterp spec fn compound_model(t: nbt::CompoundTag) -> Seq<(String, FieldValue)>;

/// Relies on `CompoundTag::iter` of the `nbt` crate: the entries of
/// the compound's insertion-ordered map, each name with its classified
/// tag. Being a map, the compound holds each name at most once.
#[verifier::external_body]
fn compound_fields(ct: &nbt::CompoundTag) -> (r: Vec<(String, FieldValue)>)
    ensures
        r@ == compound_model(*ct),
        forall|i: int, j: int|
            0 <= i < j < r@.len() ==> (#[trigger] r@[i]).0@ != (#[trigger] r@[j]).0@,
{
    let mut r = Vec::new();
    for (k, t) in ct.iter() {
        r.push((k.clone(), tag_field(t)));
    }
    r
}

/// The root compound of a gzip-compressed tagged binary document, or
/// nothing where the bytes hold no such document: what
/// `parse_gzip_root` returns.
pub uninterp spec fn root_fields_model(bytes: Seq<u8>) -> Option<Seq<(String, FieldValue)>>;

/// Relies on `nbt::decode::read_gzip_compound_tag`: gunzips the stream
/// and parses the tag tree, requiring a compound at the root. The
/// parse is a function of the bytes alone.
#[verifier::external_body]
fn parse_gzip_root(bytes: &[u8]) -> (r: Option<(nbt::CompoundTag, Vec<(String, FieldValue)>)>)
    ensures
        r is Some <==> root_fields_model(bytes@) is Some,
        r matches Some(p) ==> root_fields_model(bytes@) == Some(compound_model(p.0)) && p.1@
            == compound_model(p.0) && (forall|i: int, j: int|
            0 <= i < j < p.1@.len() ==> (#[trigger] p.1@[i]).0@ != (#[trigger] p.1@[j]).0@),
{
    match nbt::decode::read_gzip_compound_tag(&mut &*bytes) {
        Ok(ct) => {
            let fields = compound_fields(&ct);
            Some((ct, fields))
        },
        Err(_) => None,
    }
}

/// The first field carrying the given name, if any.
pub open spec fn spec_field(fs: Seq<(String, FieldValue)>, name: Seq<char>) -> Option<FieldValue>
    decreases fs.len(),
{
    if fs.len() == 0 {
        None
    } else if fs[0].0@ == name {
        Some(fs[0].1)
    } else {
        spec_field(fs.drop_first(), name)
    }
}

proof fn lemma_field_skip(fs: Seq<(String, FieldValue)>, name: Seq<char>, i: int)
    requires
        0 <= i <= fs.len(),
        forall|j: int| 0 <= j < i ==> (#[trigger] fs[j]).0@ != name,
    ensures
        spec_field(fs, name) == spec_field(fs.skip(i), name),
    decreases i,
{
    if i > 0 {
        let t = fs.drop_first();
        assert(forall|j: int| 0 <= j < i - 1 ==> (#[trigger] t[j]).0@ != name);
        lemma_field_skip(t, name, i - 1);
        assert(t.skip(i - 1) =~= fs.skip(i));
    } else {
        assert(fs.skip(0) =~= fs);
    }
}

/// Finds a field by name: the executable counterpart of `spec_field`.
fn find_field<'a>(fs: &'a Vec<(String, FieldValue)>, name: &str) -> (r: Option<&'a FieldValue>)
    ensures
        match r {
            Some(f) => spec_field(fs@, name@) == Some(*f),
            None => spec_field(fs@, name@) is None,
        },
{
    let mut i: usize = 0;
    while i < fs.len()
        invariant
            i <= fs.len(),
            forall|j: int| 0 <= j < i ==> (#[trigger] fs@[j]).0@ != name@,
        decreases fs.len() - i,
    {
        if str_eq(fs[i].0.as_str(), name) {
            proof {
                lemma_field_skip(fs@, name@, i as int);
                assert(fs@.skip(i as int)[0] == fs@[i as int]);
            }
            return Some(&fs[i].1);
        }
        i = i + 1;
    }
    proof {
        lemma_field_skip(fs@, name@, fs@.len() as int);
        assert(fs@.skip(fs@.len() as int) =~= Seq::<(String, FieldValue)>::empty());
    }
    None
}

/// A 16-bit extent field: an integer-valued tag whose value fits 16
/// bits, a negative value standing for the unsigned extent with the
/// same low bits.
pub open spec fn spec_u16_field(fs: Seq<(String, FieldValue)>, name: Seq<char>) -> Result<
    int,
    DecodeFailure,
> {
    match spec_field(fs, name) {
        None => Err(DecodeFailure::MissingField(name)),
        Some(FieldValue::Int(v)) => if -0x8000 <= v <= 0xFFFF {
            if v < 0 {
                Ok(v + 0x10000)
            } else {
                Ok(v as int)
            }
        } else {
            Err(DecodeFailure::WrongFieldType(name))
        },
        Some(_) => Err(DecodeFailure::WrongFieldType(name)),
    }
}

/// Reads a 16-bit extent field.
fn read_u16_field(fs: &Vec<(String, FieldValue)>, name: &str) -> (r: Result<u16, DecodeError>)
    ensures
        match r {
            Ok(v) => spec_u16_field(fs@, name@) == Ok::<int, DecodeFailure>(v as int),
            Err(e) => spec_u16_field(fs@, name@) == Err::<int, DecodeFailure>(err_model(e)),
        },
{
    match find_field(fs, name) {
        None => Err(DecodeError::MissingField(name.to_owned())),
        Some(FieldValue::Int(v)) => {
            let v = *v;
            if -0x8000 <= v && v <= 0xFFFF {
                if v < 0 {
                    Ok((v + 0x10000) as u16)
                } else {
                    Ok(v as u16)
                }
            } else {
                Err(DecodeError::WrongFieldType(name.to_owned()))
            }
        },
        Some(_) => Err(DecodeError::WrongFieldType(name.to_owned())),
    }
}

/// A 32-bit integer field: an integer-valued tag within 32-bit range.
pub open spec fn spec_i32_field(fs: Seq<(String, FieldValue)>, name: Seq<char>) -> Result<
    int,
    DecodeFailure,
> {
    match spec_field(fs, name) {
        None => Err(DecodeFailure::MissingField(name)),
        Some(FieldValue::Int(v)) => if -0x80000000 <= v <= 0x7FFFFFFF {
            Ok(v as int)
        } else {
            Err(DecodeFailure::WrongFieldType(name))
        },
        Some(_) => Err(DecodeFailure::WrongFieldType(name)),
    }
}

/// Reads a 32-bit integer field.
fn read_i32_field(fs: &Vec<(String, FieldValue)>, name: &str) -> (r: Result<i32, DecodeError>)
    ensures
        match r {
            Ok(v) => spec_i32_field(fs@, name@) == Ok::<int, DecodeFailure>(v as int),
            Err(e) => spec_i32_field(fs@, name@) == Err::<int, DecodeFailure>(err_model(e)),
        },
{
    match find_field(fs, name) {
        None => Err(DecodeError::MissingField(name.to_owned())),
        Some(FieldValue::Int(v)) => {
            let v = *v;
            if -0x80000000 <= v && v <= 0x7FFFFFFF {
                Ok(v as i32)
            } else {
                Err(DecodeError::WrongFieldType(name.to_owned()))
            }
        },
        Some(_) => Err(DecodeError::WrongFieldType(name.to_owned())),
    }
}

/// Normalizes a vector of three integers into a position triple; any
/// other length is a malformed position or offset.
pub open spec fn spec_read_offset(v: Seq<i32>) -> Result<Seq<i32>, DecodeFailure> {
    if v.len() == 3 {
        Ok(v)
    } else {
        Err(DecodeFailure::Invalid("read_offset wrong length"@))
    }
}

/// Checks that a decoded integer vector holds exactly three values, as
/// a position or offset must.
pub fn read_offset(offset: &Vec<i32>) -> (r: Result<[i32; 3], DecodeError>)
    ensures
        match r {
            Ok(v) => spec_read_offset(offset@) == Ok::<Seq<i32>, DecodeFailure>(v@),
            Err(e) => spec_read_offset(offset@) == Err::<Seq<i32>, DecodeFailure>(err_model(e)),
        },
{
    if offset.len() == 3 {
        let r = [offset[0], offset[1], offset[2]];
        proof {
            assert(r@ =~= offset@);
        }
        Ok(r)
    } else {
        Err(DecodeError::Invalid("read_offset wrong length".to_owned()))
    }
}

/// The widened values of a list of integer-valued tags, or nothing
/// where some element is not an integer tag.
pub open spec fn spec_int_list(tags: Seq<nbt::Tag>) -> Option<Seq<i32>>
    decreases tags.len(),
{
    if tags.len() == 0 {
        Some(Seq::<i32>::empty())
    } else {
        match spec_int_list(tags.drop_last()) {
            None => None,
            Some(rest) => match tag_field_model(tags.last()) {
                FieldValue::Int(v) => if -0x80000000 <= v <= 0x7FFFFFFF {
                    Some(rest.push(v as i32))
                } else {
                    None
                },
                _ => None,
            },
        }
    }
}

/// Converts a list of numeric tags to their 32-bit values, failing on
/// any non-numeric element.
fn read_int_list(tags: &Vec<nbt::Tag>) -> (r: Option<Vec<i32>>)
    ensures
        match r {
            Some(v) => spec_int_list(tags@) == Some(v@),
            None => spec_int_list(tags@) is None,
        },
{
    let mut out: Vec<i32> = Vec::new();
    let mut i: usize = 0;
    while i < tags.len()
        invariant
            i <= tags.len(),
            spec_int_list(tags@.take(i as int)) == Some(out@),
        decreases tags.len() - i,
    {
        proof {
            assert(tags@.take(i as int + 1).drop_last() =~= tags@.take(i as int));
            assert(tags@.take(i as int + 1).last() == tags@[i as int]);
        }
        match tag_field(&tags[i]) {
            FieldValue::Int(v) => {
                out.push(v as i32);
            },
            _ => {
                proof {
                    assert(spec_int_list(tags@.take(i as int + 1)) is None);
                    lemma_int_list_prefix_none(tags@, i as int + 1);
                }
                return None;
            },
        }
        i = i + 1;
    }
    proof {
        assert(tags@.take(tags@.len() as int) =~= tags@);
    }
    Some(out)
}

/// Once a prefix of the list fails to be numeric, the whole list does.
proof fn lemma_int_list_prefix_none(tags: Seq<nbt::Tag>, n: int)
    requires
        0 <= n <= tags.len(),
        spec_int_list(tags.take(n)) is None,
    ensures
        spec_int_list(tags) is None,
    decreases tags.len() - n,
{
    if n < tags.len() {
        assert(tags.take(n + 1).drop_last() =~= tags.take(n));
        lemma_int_list_prefix_none(tags, n + 1);
    } else {
        assert(tags.take(n) =~= tags);
    }
}

/// A position or offset field: three 32-bit values stored as an int
/// array, a byte array (widened), or a list of numeric tags.
pub open spec fn spec_offset_field(fs: Seq<(String, FieldValue)>, name: Seq<char>) -> Result<
    Seq<i32>,
    DecodeFailure,
> {
    match spec_field(fs, name) {
        None => Err(DecodeFailure::MissingField(name)),
        Some(FieldValue::Ints(v)) => spec_read_offset(v@),
        Some(FieldValue::Bytes(v)) => spec_read_offset(v@.map_values(|b: i8| b as i32)),
        Some(FieldValue::List(tags)) => match spec_int_list(tags@) {
            Some(v) => spec_read_offset(v),
            None => Err(DecodeFailure::WrongFieldType(name)),
        },
        Some(_) => Err(DecodeFailure::WrongFieldType(name)),
    }
}

/// Reads a position or offset field in any of its three encodings.
fn read_offset_field(fs: &Vec<(String, FieldValue)>, name: &str) -> (r: Result<
    [i32; 3],
    DecodeError,
>)
    ensures
        match r {
            Ok(v) => spec_offset_field(fs@, name@) == Ok::<Seq<i32>, DecodeFailure>(v@),
            Err(e) => spec_offset_field(fs@, name@) == Err::<Seq<i32>, DecodeFailure>(
                err_model(e),
            ),
        },
{
    match find_field(fs, name) {
        None => Err(DecodeError::MissingField(name.to_owned())),
        Some(FieldValue::Ints(v)) => read_offset(v),
        Some(FieldValue::Bytes(v)) => {
            let mut widened: Vec<i32> = Vec::new();
            let mut i: usize = 0;
            while i < v.len()
                invariant
                    i <= v.len(),
                    widened@ =~= v@.take(i as int).map_values(|b: i8| b as i32),
                decreases v.len() - i,
            {
                widened.push(v[i] as i32);
                proof {
                    assert(widened@ =~= v@.take(i as int + 1).map_values(|b: i8| b as i32));
                }
                i = i + 1;
            }
            proof {
                assert(v@.take(v@.len() as int) =~= v@);
            }
            read_offset(&widened)
        },
        Some(FieldValue::List(tags)) => match read_int_list(tags) {
            Some(v) => read_offset(&v),
            None => Err(DecodeError::WrongFieldType(name.to_owned())),
        },
        Some(_) => Err(DecodeError::WrongFieldType(name.to_owned())),
    }
}

/// The palette a compound holds: its integer-valued entries in
/// document order, each name with its identifier; entries of any other
/// kind are silently skipped.
pub open spec fn spec_palette_entries(fs: Seq<(String, FieldValue)>) -> Seq<(Seq<char>, i32)>
    decreases fs.len(),
{
    if fs.len() == 0 {
        Seq::<(Seq<char>, i32)>::empty()
    } else {
        let rest = spec_palette_entries(fs.drop_last());
        match fs.last().1 {
            FieldValue::Int(v) => if -0x80000000 <= v <= 0x7FFFFFFF {
                rest.push((fs.last().0@, v as i32))
            } else {
                rest
            },
            _ => rest,
        }
    }
}

/// Reads a palette compound: every integer-valued entry becomes a
/// (name, identifier) pair, in document order; other entries are
/// silently skipped. The names are distinct because the compound is a
/// map.
pub fn read_palette(p: &nbt::CompoundTag) -> (r: Vec<(String, i32)>)
    ensures
        pal_view(r@) == spec_palette_entries(compound_model(*p)),
        crate::schematic::palette_keys_unique(pal_view(r@)),
{
    let fields = compound_fields(p);
    let mut out: Vec<(String, i32)> = Vec::new();
    let mut i: usize = 0;
    proof {
        assert(pal_view(out@) =~= spec_palette_entries(fields@.take(0)));
    }
    while i < fields.len()
        invariant
            i <= fields.len(),
            fields@ == compound_model(*p),
            forall|a: int, c: int|
                0 <= a < c < fields@.len() ==> (#[trigger] fields@[a]).0@ != (
                #[trigger] fields@[c]).0@,
            pal_view(out@) == spec_palette_entries(fields@.take(i as int)),
            out@.len() == pal_view(out@).len(),
            crate::schematic::palette_keys_unique(pal_view(out@)),
            forall|k: int|
                0 <= k < out@.len() ==> exists|j: int|
                    0 <= j < i && (#[trigger] pal_view(out@)[k]).0 == fields@[j].0@,
        decreases fields.len() - i,
    {
        proof {
            assert(fields@.take(i as int + 1).drop_last() =~= fields@.take(i as int));
            assert(fields@.take(i as int + 1).last() == fields@[i as int]);
        }
        let ghost old_out = out@;
        match &fields[i].1 {
            FieldValue::Int(v) => {
                let v = *v;
                if -0x80000000 <= v && v <= 0x7FFFFFFF {
                    out.push((fields[i].0.clone(), v as i32));
                    proof {
                        assert(pal_view(out@) =~= pal_view(old_out).push(
                            (fields@[i as int].0@, v as i32),
                        ));
                        assert forall|k: int| 0 <= k < out@.len() implies exists|j: int|
                            0 <= j < i + 1 && (#[trigger] pal_view(out@)[k]).0 == fields@[j].0@ by {
                            if k < old_out.len() {
                                assert(pal_view(out@)[k] == pal_view(old_out)[k]);
                                let j = choose|j: int|
                                    0 <= j < i && (#[trigger] pal_view(old_out)[k]).0
                                        == fields@[j].0@;
                                assert(0 <= j < i + 1 && pal_view(out@)[k].0 == fields@[j].0@);
                            } else {
                                assert(pal_view(out@)[k].0 == fields@[i as int].0@);
                            }
                        }
                        assert forall|a: int, c: int|
                            0 <= a < c < pal_view(out@).len() implies (#[trigger] pal_view(
                            out@,
                        )[a]).0 != (#[trigger] pal_view(out@)[c]).0 by {
                            if c == pal_view(out@).len() - 1 {
                                assert(pal_view(out@)[a] == pal_view(old_out)[a]);
                                assert(exists|j: int|
                                    0 <= j < i && (#[trigger] pal_view(old_out)[a]).0 == fields@[j].0@);
                                let j = choose|j: int|
                                    0 <= j < i && (#[trigger] pal_view(old_out)[a]).0
                                        == fields@[j].0@;
                                assert(fields@[j].0@ != fields@[i as int].0@);
                            } else {
                                assert(pal_view(out@)[a] == pal_view(old_out)[a]);
                                assert(pal_view(out@)[c] == pal_view(old_out)[c]);
                            }
                        }
                    }
                }
            },
            _ => {},
        }
        i = i + 1;
    }
    proof {
        assert(fields@.take(fields@.len() as int) =~= fields@);
    }
    out
}

/// The compounds of a tag list, or nothing where some element is not a
/// compound.
pub open spec fn spec_compound_list(tags: Seq<nbt::Tag>) -> Option<Seq<nbt::CompoundTag>>
    decreases tags.len(),
{
    if tags.len() == 0 {
        Some(Seq::<nbt::CompoundTag>::empty())
    } else {
        match spec_compound_list(tags.drop_last()) {
            None => None,
            Some(rest) => match tag_field_model(tags.last()) {
                FieldValue::Compound(ct) => Some(rest.push(ct)),
                _ => None,
            },
        }
    }
}

proof fn lemma_compound_list_prefix_none(tags: Seq<nbt::Tag>, n: int)
    requires
        0 <= n <= tags.len(),
        spec_compound_list(tags.take(n)) is None,
    ensures
        spec_compound_list(tags) is None,
    decreases tags.len() - n,
{
    if n < tags.len() {
        assert(tags.take(n + 1).drop_last() =~= tags.take(n));
        lemma_compound_list_prefix_none(tags, n + 1);
    } else {
        assert(tags.take(n) =~= tags);
    }
}

/// One block entity: its identifier string from `Id` and its position
/// triple from `Pos`.
pub open spec fn spec_entity_of(ct: nbt::CompoundTag) -> Result<(Seq<char>, Seq<i32>), DecodeFailure> {
    let fs = compound_model(ct);
    match spec_field(fs, "Id"@) {
        None => Err(DecodeFailure::MissingField("Id"@)),
        Some(FieldValue::Str(s)) => match spec_offset_field(fs, "Pos"@) {
            Ok(pos) => Ok((s@, pos)),
            Err(e) => Err(e),
        },
        Some(_) => Err(DecodeFailure::WrongFieldType("Id"@)),
    }
}

/// The block entities of a compound list, or the first element's
/// failure.
pub open spec fn spec_entities_of(cts: Seq<nbt::CompoundTag>) -> Result<
    Seq<(Seq<char>, Seq<i32>)>,
    DecodeFailure,
>
    decreases cts.len(),
{
    if cts.len() == 0 {
        Ok(Seq::<(Seq<char>, Seq<i32>)>::empty())
    } else {
        match spec_entities_of(cts.drop_last()) {
            Err(e) => Err(e),
            Ok(rest) => match spec_entity_of(cts.last()) {
                Ok(ent) => Ok(rest.push(ent)),
                Err(e) => Err(e),
            },
        }
    }
}

proof fn lemma_entities_prefix_err(cts: Seq<nbt::CompoundTag>, n: int, e: DecodeFailure)
    requires
        0 <= n <= cts.len(),
        spec_entities_of(cts.take(n)) == Err::<Seq<(Seq<char>, Seq<i32>)>, DecodeFailure>(e),
    ensures
        spec_entities_of(cts) == Err::<Seq<(Seq<char>, Seq<i32>)>, DecodeFailure>(e),
    decreases cts.len() - n,
{
    if n < cts.len() {
        assert(cts.take(n + 1).drop_last() =~= cts.take(n));
        lemma_entities_prefix_err(cts, n + 1, e);
    } else {
        assert(cts.take(n) =~= cts);
    }
}

/// The block-entity list a field holds: absent fields, fields of any
/// other kind and lists with a non-compound element all decode to an
/// empty list; element fields that fail to decode are the only errors.
pub open spec fn spec_block_entities_field(
    fs: Seq<(String, FieldValue)>,
    name: Seq<char>,
) -> Result<Seq<(Seq<char>, Seq<i32>)>, DecodeFailure> {
    match spec_field(fs, name) {
        Some(FieldValue::List(tags)) => match spec_compound_list(tags@) {
            None => Ok(Seq::<(Seq<char>, Seq<i32>)>::empty()),
            Some(cts) => spec_entities_of(cts),
        },
        _ => Ok(Seq::<(Seq<char>, Seq<i32>)>::empty()),
    }
}

/// The view of a block-entity list.
pub open spec fn entities_model(v: Seq<BlockEntity>) -> Seq<(Seq<char>, Seq<i32>)> {
    v.map_values(|e: BlockEntity| (e.id@, e.pos@))
}

/// Decodes the elements of a block-entity list: each element must be a
/// compound holding an `Id` string and a `Pos` triple. A non-compound
/// element makes the whole list empty, as the format's readers have
/// always treated such lists.
fn read_tile_entities(tags: &Vec<nbt::Tag>) -> (r: Result<Vec<BlockEntity>, DecodeError>)
    ensures
        ({
            let m = match spec_compound_list(tags@) {
                None => Ok(Seq::<(Seq<char>, Seq<i32>)>::empty()),
                Some(cts) => spec_entities_of(cts),
            };
            match r {
                Ok(v) => m == Ok::<Seq<(Seq<char>, Seq<i32>)>, DecodeFailure>(entities_model(v@)),
                Err(e) => m == Err::<Seq<(Seq<char>, Seq<i32>)>, DecodeFailure>(err_model(e)),
            }
        }),
{
    let mut cts: Vec<nbt::CompoundTag> = Vec::new();
    let mut i: usize = 0;
    while i < tags.len()
        invariant
            i <= tags.len(),
            spec_compound_list(tags@.take(i as int)) == Some(cts@),
        decreases tags.len() - i,
    {
        proof {
            assert(tags@.take(i as int + 1).drop_last() =~= tags@.take(i as int));
            assert(tags@.take(i as int + 1).last() == tags@[i as int]);
        }
        match tag_field(&tags[i]) {
            FieldValue::Compound(ct) => {
                cts.push(ct);
            },
            _ => {
                proof {
                    assert(spec_compound_list(tags@.take(i as int + 1)) is None);
                    lemma_compound_list_prefix_none(tags@, i as int + 1);
                    assert(entities_model(Seq::<BlockEntity>::empty()) =~= Seq::<
                        (Seq<char>, Seq<i32>),
                    >::empty());
                }
                return Ok(Vec::new());
            },
        }
        i = i + 1;
    }
    proof {
        assert(tags@.take(tags@.len() as int) =~= tags@);
    }
    let mut out: Vec<BlockEntity> = Vec::new();
    let mut t: usize = 0;
    proof {
        assert(entities_model(out@) =~= Seq::<(Seq<char>, Seq<i32>)>::empty());
        assert(cts@.take(0) =~= Seq::<nbt::CompoundTag>::empty());
    }
    while t < cts.len()
        invariant
            t <= cts.len(),
            spec_compound_list(tags@) == Some(cts@),
            spec_entities_of(cts@.take(t as int)) == Ok::<Seq<(Seq<char>, Seq<i32>)>, DecodeFailure>(
                entities_model(out@),
            ),
        decreases cts.len() - t,
    {
        proof {
            assert(cts@.take(t as int + 1).drop_last() =~= cts@.take(t as int));
            assert(cts@.take(t as int + 1).last() == cts@[t as int]);
        }
        let fields = compound_fields(&cts[t]);
        let id: String = match find_field(&fields, "Id") {
            None => {
                proof {
                    lemma_entities_prefix_err(
                        cts@,
                        t as int + 1,
                        DecodeFailure::MissingField("Id"@),
                    );
                }
                return Err(DecodeError::MissingField("Id".to_owned()));
            },
            Some(FieldValue::Str(s)) => s.clone(),
            Some(_) => {
                proof {
                    lemma_entities_prefix_err(
                        cts@,
                        t as int + 1,
                        DecodeFailure::WrongFieldType("Id"@),
                    );
                }
                return Err(DecodeError::WrongFieldType("Id".to_owned()));
            },
        };
        let pos = match read_offset_field(&fields, "Pos") {
            Ok(p) => p,
            Err(e) => {
                proof {
                    lemma_entities_prefix_err(cts@, t as int + 1, err_model(e));
                }
                return Err(e);
            },
        };
        let ghost old_out = out@;
        out.push(BlockEntity { id, pos });
        proof {
            assert(out@.drop_last() =~= old_out);
            assert(entities_model(out@) =~= entities_model(old_out).push(
                (out@.last().id@, out@.last().pos@),
            ));
            assert(spec_entity_of(cts@[t as int]) == Ok::<(Seq<char>, Seq<i32>), DecodeFailure>(
                (out@.last().id@, out@.last().pos@),
            ));
        }
        t = t + 1;
    }
    proof {
        assert(cts@.take(cts@.len() as int) =~= cts@);
    }
    Ok(out)
}

/// The decoded record at the level of views, for contracts.
pub ghost struct SchematicModel {
    pub data_version: int,
    pub width: int,
    pub height: int,
    pub length: int,
    pub offset: Seq<i32>,
    pub palette_max: int,
    pub palette: Seq<(Seq<char>, i32)>,
    pub block_data: Seq<i32>,
    pub block_entities: Seq<(Seq<char>, Seq<i32>)>,
}

/// The view of a decoded record.
pub open spec fn schematic_model(s: SpongeSchematic) -> SchematicModel {
    SchematicModel {
        data_version: s.data_version as int,
        width: s.width as int,
        height: s.height as int,
        length: s.length as int,
        offset: s.offset@,
        palette_max: s.palette_max as int,
        palette: pal_view(s.palette@),
        block_data: s.block_data@,
        block_entities: entities_model(s.block_entities@),
    }
}

/// The record invariant, checked after the fields are read: the
/// palette size is non-negative, every palette identifier is in range,
/// the block data covers the grid exactly, and every cell holds the
/// identifier of some palette entry.
pub open spec fn spec_validate(m: SchematicModel) -> Result<SchematicModel, DecodeFailure> {
    if m.palette_max < 0 {
        Err(DecodeFailure::Invalid("PaletteMax"@))
    } else if !palette_ids_in_range(m.palette, m.palette_max) {
        Err(DecodeFailure::Invalid("Palette"@))
    } else if m.block_data.len() != m.width * m.height * m.length {
        Err(DecodeFailure::Invalid("BlockData"@))
    } else if !(forall|i: int|
        0 <= i < m.block_data.len() ==> 0 <= (#[trigger] m.block_data[i]) < m.palette_max
            && id_in_palette(m.palette, m.block_data[i])) {
        Err(DecodeFailure::Invalid("BlockData"@))
    } else {
        Ok(m)
    }
}

/// Whether some palette entry carries the identifier.
fn palette_has_id(p: &Vec<(String, i32)>, id: i32) -> (r: bool)
    ensures
        r == id_in_palette(pal_view(p@), id),
{
    let mut i: usize = 0;
    while i < p.len()
        invariant
            i <= p.len(),
            forall|j: int| 0 <= j < i ==> (#[trigger] pal_view(p@)[j]).1 != id,
        decreases p.len() - i,
    {
        proof {
            assert(pal_view(p@)[i as int] == (p@[i as int].0@, p@[i as int].1));
        }
        if p[i].1 == id {
            return true;
        }
        i = i + 1;
    }
    proof {
        assert(pal_view(p@).len() == p@.len());
    }
    false
}

/// Checks the record invariant of a freshly assembled schematic and
/// hands it back well-formed, or reports what is broken.
fn validate_schematic(s: SpongeSchematic) -> (r: Result<SpongeSchematic, DecodeError>)
    requires
        crate::schematic::palette_keys_unique(pal_view(s.palette@)),
        s.entities is None,
    ensures
        match r {
            Ok(out) => out == s && spec_validate(schematic_model(s)) == Ok::<
                SchematicModel,
                DecodeFailure,
            >(schematic_model(s)) && out.wf(),
            Err(e) => spec_validate(schematic_model(s)) == Err::<SchematicModel, DecodeFailure>(
                err_model(e),
            ),
        },
{
    proof {
        reveal_strlit("PaletteMax");
        reveal_strlit("Palette");
        reveal_strlit("BlockData");
    }
    if s.palette_max < 0 {
        return Err(DecodeError::Invalid("PaletteMax".to_owned()));
    }
    let mut i: usize = 0;
    while i < s.palette.len()
        invariant
            i <= s.palette.len(),
            s.palette_max >= 0,
            forall|j: int|
                0 <= j < i ==> 0 <= (#[trigger] pal_view(s.palette@)[j]).1 < s.palette_max,
        decreases s.palette.len() - i,
    {
        proof {
            assert(pal_view(s.palette@)[i as int] == (s.palette@[i as int].0@, s.palette@[i as int].1));
        }
        if !(0 <= s.palette[i].1 && s.palette[i].1 < s.palette_max) {
            proof {
                assert(pal_view(s.palette@).len() == s.palette@.len());
                assert(!palette_ids_in_range(pal_view(s.palette@), s.palette_max as int));
            }
            return Err(DecodeError::Invalid("Palette".to_owned()));
        }
        i = i + 1;
    }
    proof {
        assert(pal_view(s.palette@).len() == s.palette@.len());
        assert(palette_ids_in_range(pal_view(s.palette@), s.palette_max as int));
    }
    let w = s.width as u64;
    let h = s.height as u64;
    let l = s.length as u64;
    proof {
        assert(w * h <= 0xFFFFFFFF && w * h * l <= 0x1000000000000 && w * h * l == (w as int) * (
        h as int) * (l as int)) by (nonlinear_arith)
            requires
                w <= 0xFFFF && h <= 0xFFFF && l <= 0xFFFF,
        ;
    }
    let cells = w * h * l;
    if s.block_data.len() as u64 != cells {
        proof {
            assert(schematic_model(s).block_data.len() != schematic_model(s).width
                * schematic_model(s).height * schematic_model(s).length);
        }
        return Err(DecodeError::Invalid("BlockData".to_owned()));
    }
    let mut c: usize = 0;
    while c < s.block_data.len()
        invariant
            c <= s.block_data.len(),
            s.palette_max >= 0,
            palette_ids_in_range(pal_view(s.palette@), s.palette_max as int),
            s.block_data@.len() == s.width * s.height * s.length,
            forall|j: int|
                0 <= j < c ==> 0 <= (#[trigger] s.block_data@[j]) < s.palette_max && id_in_palette(
                    pal_view(s.palette@),
                    s.block_data@[j],
                ),
        decreases s.block_data.len() - c,
    {
        let v = s.block_data[c];
        if !(0 <= v && v < s.palette_max) || !palette_has_id(&s.palette, v) {
            proof {
                assert(!(0 <= s.block_data@[c as int] < s.palette_max && id_in_palette(
                    pal_view(s.palette@),
                    s.block_data@[c as int],
                )));
            }
            return Err(DecodeError::Invalid("BlockData".to_owned()));
        }
        c = c + 1;
    }
    proof {
        assert(s.block_data@.len() == s.spec_cells());
        assert(cells_in_range(s.block_data@, s.palette_max as int));
        assert(s.wf());
    }
    Ok(s)
}

/// The voxel fields read out of their container, assembled and
/// validated: palette size, palette, block data, block entities, in
/// that order. For version 3 the palette size is the palette's own
/// entry count; versions 1 and 2 read the explicit `PaletteMax` field.
pub open spec fn spec_finish(
    cfs: Seq<(String, FieldValue)>,
    data_version: int,
    width: int,
    height: int,
    length: int,
    offset: Seq<i32>,
    version: int,
) -> Result<SchematicModel, DecodeFailure> {
    let pm = if version == 3 {
        match spec_field(cfs, "Palette"@) {
            None => Err(DecodeFailure::MissingField("Palette"@)),
            Some(FieldValue::Compound(p)) => if spec_palette_entries(compound_model(p)).len()
                <= 0x7FFFFFFF {
                Ok(spec_palette_entries(compound_model(p)).len() as int)
            } else {
                Err(DecodeFailure::Invalid("Palette"@))
            },
            Some(_) => Err(DecodeFailure::WrongFieldType("Palette"@)),
        }
    } else {
        spec_i32_field(cfs, "PaletteMax"@)
    };
    match pm {
        Err(e) => Err(e),
        Ok(palette_max) => match spec_field(cfs, "Palette"@) {
            None => Err(DecodeFailure::MissingField("Palette"@)),
            Some(FieldValue::Compound(p)) => {
                let palette = spec_palette_entries(compound_model(p));
                match spec_field(cfs, "BlockData"@) {
                    None => Err(DecodeFailure::MissingField("BlockData"@)),
                    Some(FieldValue::Bytes(bd)) => match spec_decode_varints(bytes_of(bd@)) {
                        None => Err(DecodeFailure::MalformedVarint),
                        Some(block_data) => {
                            let ename = if version == 1 {
                                "TileEntities"@
                            } else {
                                "BlockEntities"@
                            };
                            match spec_block_entities_field(cfs, ename) {
                                Err(e) => Err(e),
                                Ok(block_entities) => spec_validate(
                                    SchematicModel {
                                        data_version,
                                        width,
                                        height,
                                        length,
                                        offset,
                                        palette_max,
                                        palette,
                                        block_data,
                                        block_entities,
                                    },
                                ),
                            }
                        },
                    },
                    Some(_) => Err(DecodeFailure::WrongFieldType("BlockData"@)),
                }
            },
            Some(_) => Err(DecodeFailure::WrongFieldType("Palette"@)),
        },
    }
}

/// Reads the voxel fields out of their container compound and builds
/// the validated record.
fn read_container(
    cfs: &Vec<(String, FieldValue)>,
    data_version: i32,
    width: u16,
    height: u16,
    length: u16,
    offset: [i32; 3],
    version: i32,
) -> (r: Result<SpongeSchematic, DecodeError>)
    requires
        version == 1 || version == 2 || version == 3,
    ensures
        match r {
            Ok(s) => spec_finish(
                cfs@,
                data_version as int,
                width as int,
                height as int,
                length as int,
                offset@,
                version as int,
            ) == Ok::<SchematicModel, DecodeFailure>(schematic_model(s)) && s.wf() && s.entities
                is None,
            Err(e) => spec_finish(
                cfs@,
                data_version as int,
                width as int,
                height as int,
                length as int,
                offset@,
                version as int,
            ) == Err::<SchematicModel, DecodeFailure>(err_model(e)),
        },
{
    let explicit_max: i32 = if version == 3 {
        0
    } else {
        match read_i32_field(cfs, "PaletteMax") {
            Ok(v) => v,
            Err(e) => {
                return Err(e);
            },
        }
    };
    let palette: Vec<(String, i32)> = match find_field(cfs, "Palette") {
        None => {
            return Err(DecodeError::MissingField("Palette".to_owned()));
        },
        Some(FieldValue::Compound(p)) => read_palette(p),
        Some(_) => {
            return Err(DecodeError::WrongFieldType("Palette".to_owned()));
        },
    };
    let palette_max: i32 = if version == 3 {
        if palette.len() <= 0x7FFFFFFF {
            palette.len() as i32
        } else {
            return Err(DecodeError::Invalid("Palette".to_owned()));
        }
    } else {
        explicit_max
    };
    let block_data: Vec<i32> = match find_field(cfs, "BlockData") {
        None => {
            return Err(DecodeError::MissingField("BlockData".to_owned()));
        },
        Some(FieldValue::Bytes(bd)) => match read_varint_array(bd) {
            Ok(d) => d,
            Err(e) => {
                return Err(e);
            },
        },
        Some(_) => {
            return Err(DecodeError::WrongFieldType("BlockData".to_owned()));
        },
    };
    let ename: &str = if version == 1 {
        "TileEntities"
    } else {
        "BlockEntities"
    };
    let block_entities: Vec<BlockEntity> = match find_field(cfs, ename) {
        Some(FieldValue::List(tags)) => match read_tile_entities(tags) {
            Ok(v) => v,
            Err(e) => {
                return Err(e);
            },
        },
        _ => Vec::new(),
    };
    proof {
        if version == 1 {
            assert(ename@ == "TileEntities"@);
        } else {
            assert(ename@ == "BlockEntities"@);
        }
        assert(entities_model(Seq::<BlockEntity>::empty()) =~= Seq::<
            (Seq<char>, Seq<i32>),
        >::empty());
    }
    validate_schematic(
        SpongeSchematic {
            data_version,
            width,
            height,
            length,
            offset,
            palette_max,
            palette,
            block_data,
            block_entities,
            entities: None,
        },
    )
}

/// The record a root compound decodes to under an established version:
/// the common scalar fields, then the voxel fields from their
/// container — nested in the `Blocks` compound for version 3, at the
/// top level otherwise.
pub open spec fn spec_from_nbt(fs: Seq<(String, FieldValue)>, version: int) -> Result<
    SchematicModel,
    DecodeFailure,
> {
    let dv = if version == 1 {
        Ok(0int)
    } else {
        spec_i32_field(fs, "DataVersion"@)
    };
    match dv {
        Err(e) => Err(e),
        Ok(data_version) => match spec_u16_field(fs, "Width"@) {
            Err(e) => Err(e),
            Ok(width) => match spec_u16_field(fs, "Height"@) {
                Err(e) => Err(e),
                Ok(height) => match spec_u16_field(fs, "Length"@) {
                    Err(e) => Err(e),
                    Ok(length) => match spec_offset_field(fs, "Offset"@) {
                        Err(e) => Err(e),
                        Ok(offset) => {
                            if version == 3 {
                                match spec_field(fs, "Blocks"@) {
                                    None => Err(DecodeFailure::MissingField("Blocks"@)),
                                    Some(FieldValue::Compound(ct)) => spec_finish(
                                        compound_model(ct),
                                        data_version,
                                        width,
                                        height,
                                        length,
                                        offset,
                                        3,
                                    ),
                                    Some(_) => Err(DecodeFailure::WrongFieldType("Blocks"@)),
                                }
                            } else {
                                spec_finish(
                                    fs,
                                    data_version,
                                    width,
                                    height,
                                    length,
                                    offset,
                                    version,
                                )
                            }
                        },
                    },
                },
            },
        },
    }
}

/// The schema version of a document: the explicit integer `Version`
/// field where present, else inferred structurally in the priority
/// order `Blocks`, `BlockEntities`, `TileEntities`.
pub open spec fn spec_version_of(fs: Seq<(String, FieldValue)>) -> Option<int> {
    match spec_field(fs, "Version"@) {
        Some(FieldValue::Int(v)) => Some(v as int),
        _ => if spec_field(fs, "Blocks"@) is Some {
            Some(3)
        } else if spec_field(fs, "BlockEntities"@) is Some {
            Some(2)
        } else if spec_field(fs, "TileEntities"@) is Some {
            Some(1)
        } else {
            None
        },
    }
}

/// The record a root compound decodes to: version detection, then the
/// version's reader.
pub open spec fn spec_load_fields(fs: Seq<(String, FieldValue)>) -> Result<
    SchematicModel,
    DecodeFailure,
> {
    match spec_version_of(fs) {
        None => Err(DecodeFailure::UnknownVersion),
        Some(v) => if v == 1 || v == 2 || v == 3 {
            spec_from_nbt(fs, v)
        } else {
            Err(DecodeFailure::UnknownVersion)
        },
    }
}

/// The record a byte stream decodes to: gunzip and parse the tag
/// tree, then decode the root compound.
pub open spec fn spec_load_data(bytes: Seq<u8>) -> Result<SchematicModel, DecodeFailure> {
    match root_fields_model(bytes) {
        None => Err(DecodeFailure::Io("not a gzip-compressed tagged binary document"@)),
        Some(fs) => spec_load_fields(fs),
    }
}

impl SpongeSchematic {
    /// Decodes a version-1 document from its root compound.
    pub fn from_nbt_1(nbt: nbt::CompoundTag) -> (r: Result<SpongeSchematic, DecodeError>)
        ensures
            match r {
                Ok(s) => spec_from_nbt(compound_model(nbt), 1) == Ok::<
                    SchematicModel,
                    DecodeFailure,
                >(schematic_model(s)) && s.wf() && s.entities is None,
                Err(e) => spec_from_nbt(compound_model(nbt), 1) == Err::<
                    SchematicModel,
                    DecodeFailure,
                >(err_model(e)),
            },
    {
        Self::from_nbt_versioned(nbt, 1)
    }

    /// Decodes a version-2 document from its root compound.
    pub fn from_nbt_2(nbt: nbt::CompoundTag) -> (r: Result<SpongeSchematic, DecodeError>)
        ensures
            match r {
                Ok(s) => spec_from_nbt(compound_model(nbt), 2) == Ok::<
                    SchematicModel,
                    DecodeFailure,
                >(schematic_model(s)) && s.wf() && s.entities is None,
                Err(e) => spec_from_nbt(compound_model(nbt), 2) == Err::<
                    SchematicModel,
                    DecodeFailure,
                >(err_model(e)),
            },
    {
        Self::from_nbt_versioned(nbt, 2)
    }

    /// Decodes a version-3 document from its root compound: the voxel
    /// fields sit nested inside its `Blocks` compound.
    pub fn from_nbt_3(nbt: nbt::CompoundTag) -> (r: Result<SpongeSchematic, DecodeError>)
        ensures
            match r {
                Ok(s) => spec_from_nbt(compound_model(nbt), 3) == Ok::<
                    SchematicModel,
                    DecodeFailure,
                >(schematic_model(s)) && s.wf() && s.entities is None,
                Err(e) => spec_from_nbt(compound_model(nbt), 3) == Err::<
                    SchematicModel,
                    DecodeFailure,
                >(err_model(e)),
            },
    {
        Self::from_nbt_versioned(nbt, 3)
    }

    /// Decodes a document of a known version from its root compound.
    fn from_nbt_versioned(nbt: nbt::CompoundTag, version: i32) -> (r: Result<
        SpongeSchematic,
        DecodeError,
    >)
        requires
            version == 1 || version == 2 || version == 3,
        ensures
            match r {
                Ok(s) => spec_from_nbt(compound_model(nbt), version as int) == Ok::<
                    SchematicModel,
                    DecodeFailure,
                >(schematic_model(s)) && s.wf() && s.entities is None,
                Err(e) => spec_from_nbt(compound_model(nbt), version as int) == Err::<
                    SchematicModel,
                    DecodeFailure,
                >(err_model(e)),
            },
    {
        let fs = compound_fields(&nbt);
        let data_version: i32 = if version == 1 {
            0
        } else {
            match read_i32_field(&fs, "DataVersion") {
                Ok(v) => v,
                Err(e) => {
                    return Err(e);
                },
            }
        };
        let width = match read_u16_field(&fs, "Width") {
            Ok(v) => v,
            Err(e) => {
                return Err(e);
            },
        };
        let height = match read_u16_field(&fs, "Height") {
            Ok(v) => v,
            Err(e) => {
                return Err(e);
            },
        };
        let length = match read_u16_field(&fs, "Length") {
            Ok(v) => v,
            Err(e) => {
                return Err(e);
            },
        };
        let offset = match read_offset_field(&fs, "Offset") {
            Ok(v) => v,
            Err(e) => {
                return Err(e);
            },
        };
        if version == 3 {
            match find_field(&fs, "Blocks") {
                None => Err(DecodeError::MissingField("Blocks".to_owned())),
                Some(FieldValue::Compound(ct)) => {
                    let cfs = compound_fields(ct);
                    read_container(&cfs, data_version, width, height, length, offset, 3)
                },
                Some(_) => Err(DecodeError::WrongFieldType("Blocks".to_owned())),
            }
        } else {
            read_container(&fs, data_version, width, height, length, offset, version)
        }
    }

    /// Decodes a schematic from the bytes of a gzip-compressed tagged
    /// binary document, across all three schema versions.
    pub fn load_data(data: &[u8]) -> (r: Result<SpongeSchematic, DecodeError>)
        ensures
            match r {
                Ok(s) => spec_load_data(data@) == Ok::<SchematicModel, DecodeFailure>(
                    schematic_model(s),
                ) && s.wf() && s.entities is None,
                Err(e) => spec_load_data(data@) == Err::<SchematicModel, DecodeFailure>(
                    err_model(e),
                ),
            },
    {
        let (root, fields) = match parse_gzip_root(data) {
            Some(p) => p,
            None => {
                return Err(
                    DecodeError::Io("not a gzip-compressed tagged binary document".to_owned()),
                );
            },
        };
        let version: i64 = match find_field(&fields, "Version") {
            Some(FieldValue::Int(v)) => *v,
            _ => {
                if find_field(&fields, "Blocks").is_some() {
                    3
                } else if find_field(&fields, "BlockEntities").is_some() {
                    2
                } else if find_field(&fields, "TileEntities").is_some() {
                    1
                } else {
                    return Err(DecodeError::UnknownVersion);
                }
            },
        };
        if version == 1 {
            Self::from_nbt_1(root)
        } else if version == 2 {
            Self::from_nbt_2(root)
        } else if version == 3 {
            Self::from_nbt_3(root)
        } else {
            Err(DecodeError::UnknownVersion)
        }
    }
}

} // verus!
