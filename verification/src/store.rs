//! Reads `den-<version>.store`: format version 2, and the version 1 stores published before it.
//!
//! The decoder takes a byte slice and returns borrowed views of it. It never opens a file, maps memory,
//! or copies the data. Mapping belongs to whoever owns the bytes.
//!
//! A store is a header of 64 bytes, a table of sections of 32 bytes each, and the sections:
//!
//! | bytes    | header                                             |
//! |----------|----------------------------------------------------|
//! | 0 .. 8   | `DENSTOR1`                                         |
//! | 8 .. 12  | format version                                     |
//! | 12 .. 16 | endianness marker                                  |
//! | 16 .. 24 | content hash of everything after the header        |
//! | 24 .. 28 | number of sections                                 |
//! | 28 .. 32 | number of rows                                     |
//! | 32 .. 48 | dataset version, as text up to the first zero byte |
//!
//! | bytes    | section                                 |
//! |----------|-----------------------------------------|
//! | 0 .. 16  | name, as text up to the first zero byte |
//! | 16 .. 24 | offset in the file                      |
//! | 24 .. 28 | length                                  |
//! | 28 .. 32 | bytes in an element                     |
//!
//! The hash is checked before any section is addressed: checking structure is not checking integrity.

use crate::blake2;
use crate::element;
use crate::element::Element;
use crate::endian;
use crate::text;
use vstd::prelude::*;

verus! {

/// The newest layout this decoder understands. A store that declares anything outside
/// `OLDEST_FORMAT_VERSION..=FORMAT_VERSION` is refused: a format change is a new version, never a
/// reinterpretation of the same bytes.
///
/// Version 2 made `franchise` a list (`franchise_v`/`franchise_o`). Version 1 differs in that column
/// alone, so it is still read, and [`Store::franchises`] answers the same question for both.
pub const FORMAT_VERSION: u32 = 2;

/// The oldest layout still read, so that a reader can ship before the writer does.
pub const OLDEST_FORMAT_VERSION: u32 = 1;

/// What a store starts with.
pub const MAGIC: [u8; 8] = [0x44, 0x45, 0x4e, 0x53, 0x54, 0x4f, 0x52, 0x31];

/// What the endianness marker must read as.
pub const ENDIAN_CHECK: u32 = 0x0102_0304;

/// Bytes in the header.
pub const HEADER_BYTES: usize = 64;

/// Bytes in an entry of the section table.
pub const ENTRY_BYTES: usize = 32;

/// Bytes in the name of a section.
pub const NAME_BYTES: usize = 16;

/// Absent, for a `u32` id column.
pub const NONE_U32: u32 = 0xffff_ffff;

/// Absent, for the `card_year` column.
pub const NONE_I16: i16 = -0x8000;

/// The 12 facet axes, in the order `facet_v` and `facet_c` store them.
pub const FACET_AXES: [&'static str; 12] = [
    "era",
    "setting",
    "scope",
    "ending",
    "pacing",
    "chronology",
    "continuity",
    "conflict",
    "ensemble",
    "tone",
    "timespan",
    "archetype",
];

/// Why a store, or a part of one, was refused.
#[derive(Debug, PartialEq, Eq)]
#[allow(inconsistent_fields)]
pub enum StoreError {
    TooSmall { need: usize, got: usize },
    BadMagic,
    /// A store written by a build that does not share this one's layout.
    Version { found: u32, expected: u32 },
    /// The writer's endianness marker did not survive the round trip.
    Endianness { found: u32 },
    /// The content hash did not match. The file is corrupt or truncated; nothing was read from it.
    Corrupt { found: u64, computed: u64 },
    SectionTable,
    /// A section's declared extent is not inside the file.
    SectionBounds { name: [u8; 16] },
    MissingSection(&'static str),
    /// A section exists but is not a whole number of its own elements, or is misaligned for them.
    BadSection { name: &'static str },
    /// A column was asked for at a different element width than the writer declared. A `u32` column
    /// read as `u16` is aligned and whole, so nothing else catches it.
    WidthMismatch { name: &'static str, declared: u32, requested: u32 },
    /// A row count that does not agree with a section's length.
    RowMismatch { name: &'static str, rows: usize, found: usize },
}

/// One title, as a row number. Every column is addressed by it.
#[derive(Clone, Copy, PartialEq, Eq, PartialOrd, Ord, Debug)]
pub struct Row(pub usize);

// ---------------------------------------------------------------------------------------------------
// The model.

/// A section as the table describes it.
pub struct Section {
    pub name: Seq<u8>,
    pub offset: nat,
    pub length: nat,
    pub width: nat,
}

/// What a store says: its bytes, read through its header and its section table.
pub struct Contents {
    pub bytes: Seq<u8>,
    pub sections: Seq<Section>,
    pub rows: nat,
    pub dataset_version: Seq<char>,
    pub format_version: nat,
}

/// The position of the first zero byte, or the length if there is none.
pub open spec fn nul_at(bytes: Seq<u8>) -> nat
    decreases bytes.len(),
{
    if bytes.len() == 0 || bytes[0] == 0 {
        0
    } else {
        1 + nul_at(bytes.drop_first())
    }
}

/// The text of a fixed-size field up to its first zero byte, or `otherwise` if that is not UTF-8.
pub open spec fn field_text(field: Seq<u8>, otherwise: Seq<char>) -> Seq<char> {
    let used = field.take(nul_at(field) as int);
    if vstd::utf8::valid_utf8(used) {
        vstd::utf8::decode_utf8(used)
    } else {
        otherwise
    }
}

/// How a section's name reads.
pub open spec fn shown(name: Seq<u8>) -> Seq<char> {
    field_text(name, "?"@)
}

/// Entry `i` of a section table.
pub open spec fn section_in(table: Seq<u8>, i: int) -> Section {
    Section {
        name: table.subrange(32 * i, 32 * i + 16),
        offset: endian::le(table.subrange(32 * i + 16, 32 * i + 24)),
        length: endian::le(table.subrange(32 * i + 24, 32 * i + 28)),
        width: endian::le(table.subrange(32 * i + 28, 32 * i + 32)),
    }
}

/// The entries of a section table.
pub open spec fn sections_in(table: Seq<u8>) -> Seq<Section> {
    Seq::new(table.len() / 32, |i: int| section_in(table, i))
}

/// Whether a section ends inside a file of `len` bytes.
pub open spec fn inside(section: Section, len: nat) -> bool {
    section.offset + section.length <= len
}

/// The first of `sections` that reaches past `len`, if any does.
pub open spec fn first_outside(sections: Seq<Section>, len: nat) -> Option<Section>
    decreases sections.len(),
{
    if sections.len() == 0 {
        None
    } else if !inside(sections[0], len) {
        Some(sections[0])
    } else {
        first_outside(sections.drop_first(), len)
    }
}

/// The header's format version.
pub open spec fn version_of(bytes: Seq<u8>) -> nat {
    endian::le(bytes.subrange(8, 12))
}

/// The header's endianness marker.
pub open spec fn marker_of(bytes: Seq<u8>) -> nat {
    endian::le(bytes.subrange(12, 16))
}

/// The header's content hash.
pub open spec fn declared_hash(bytes: Seq<u8>) -> nat {
    endian::le(bytes.subrange(16, 24))
}

/// Where the section table ends.
pub open spec fn table_end(bytes: Seq<u8>) -> nat {
    64 + 32 * endian::le(bytes.subrange(24, 28))
}

/// The section table.
pub open spec fn table_of(bytes: Seq<u8>) -> Seq<u8> {
    bytes.subrange(64, table_end(bytes) as int)
}

/// The array of a section's name.
pub open spec fn name_array(name: Seq<u8>) -> [u8; 16] {
    choose|a: [u8; 16]| a@ == name
}

/// What opening `bytes` gives. `readable` says whether the machine can read the section table in place:
/// that is a matter of where the bytes are in memory and of the machine's byte order, not of what they
/// hold.
pub open spec fn opened(bytes: Seq<u8>, readable: bool) -> Result<Contents, StoreError> {
    let version = version_of(bytes);
    let hash = blake2::digest(bytes.skip(64));
    if bytes.len() < HEADER_BYTES {
        Err(StoreError::TooSmall { need: HEADER_BYTES, got: bytes.len() as usize })
    } else if bytes.take(8) != MAGIC@ {
        Err(StoreError::BadMagic)
    } else if !(OLDEST_FORMAT_VERSION <= version <= FORMAT_VERSION) {
        Err(StoreError::Version { found: version as u32, expected: FORMAT_VERSION })
    } else if marker_of(bytes) != ENDIAN_CHECK {
        Err(StoreError::Endianness { found: marker_of(bytes) as u32 })
    } else if declared_hash(bytes) != hash {
        Err(StoreError::Corrupt { found: declared_hash(bytes) as u64, computed: hash })
    } else if table_end(bytes) > bytes.len() || !readable {
        Err(StoreError::SectionTable)
    } else {
        let sections = sections_in(table_of(bytes));
        match first_outside(sections, bytes.len()) {
            Some(section) => Err(StoreError::SectionBounds { name: name_array(section.name) }),
            None => Ok(
                Contents {
                    bytes,
                    sections,
                    rows: endian::le(bytes.subrange(28, 32)),
                    dataset_version: field_text(bytes.subrange(32, 48), ""@),
                    format_version: version,
                },
            ),
        }
    }
}

/// The first section that goes by a name.
pub open spec fn find(sections: Seq<Section>, name: Seq<char>) -> Option<Section>
    decreases sections.len(),
{
    if sections.len() == 0 {
        None
    } else if shown(sections[0].name) == name {
        Some(sections[0])
    } else {
        find(sections.drop_first(), name)
    }
}

/// The bytes of a section.
pub open spec fn bytes_of(c: Contents, section: Section) -> Seq<u8> {
    c.bytes.subrange(section.offset as int, (section.offset + section.length) as int)
}

/// The bytes of the section that goes by a name.
pub open spec fn section_of(c: Contents, name: &'static str) -> Result<Seq<u8>, StoreError> {
    match find(c.sections, name@) {
        None => Err(StoreError::MissingSection(name)),
        Some(section) => Ok(bytes_of(c, section)),
    }
}

/// A section as a column of `T`. `readable` says whether the machine can read its elements in place: they
/// lie at an address where they may, and it has the store's byte order. One-byte elements it always can.
pub open spec fn column_of<T: Element>(
    c: Contents,
    name: &'static str,
    readable: bool,
) -> Result<Seq<T>, StoreError> {
    match find(c.sections, name@) {
        None => Err(StoreError::MissingSection(name)),
        Some(section) => if section.width != T::width() {
            Err(
                StoreError::WidthMismatch {
                    name,
                    declared: section.width as u32,
                    requested: T::width() as u32,
                },
            )
        } else if section.length % T::width() != 0 || (!readable && T::width() != 1) {
            Err(StoreError::BadSection { name })
        } else {
            Ok(element::elements::<T>(bytes_of(c, section)))
        },
    }
}

/// A column that must have `rows` elements.
pub open spec fn counted<T>(
    column: Result<Seq<T>, StoreError>,
    name: &'static str,
    rows: nat,
) -> Result<Seq<T>, StoreError> {
    match column {
        Err(e) => Err(e),
        Ok(c) => if c.len() != rows {
            Err(StoreError::RowMismatch { name, rows: at_most_usize(rows), found: c.len() as usize })
        } else {
            Ok(c)
        },
    }
}

/// A number of rows, or the largest that there can be.
pub open spec fn at_most_usize(n: nat) -> usize {
    if n <= usize::MAX {
        n as usize
    } else {
        usize::MAX
    }
}

/// A variable-length column: row *i* owns `values[offsets[i]..offsets[i + 1]]`.
pub struct Spans<T> {
    pub values: Seq<T>,
    pub offsets: Seq<u32>,
}

/// A list over what its two columns read as: the offsets' error, or that they are not one more than `n`,
/// before the values' error.
pub open spec fn spans_over<T>(
    values: Result<Seq<T>, StoreError>,
    offsets: Result<Seq<u32>, StoreError>,
    name: &'static str,
    n: nat,
) -> Result<Spans<T>, StoreError> {
    match counted(offsets, name, n + 1) {
        Err(e) => Err(e),
        Ok(o) => match values {
            Err(e) => Err(e),
            Ok(v) => Ok(Spans { values: v, offsets: o }),
        },
    }
}

/// A `values`/`offsets` pair over `n` rows.
pub open spec fn spans_of<T: Element>(
    c: Contents,
    values: &'static str,
    offsets: &'static str,
    n: nat,
    values_readable: bool,
    offsets_readable: bool,
) -> Result<Spans<T>, StoreError> {
    spans_over(
        column_of::<T>(c, values, values_readable),
        column_of::<u32>(c, offsets, offsets_readable),
        offsets,
        n,
    )
}

/// Row `i`'s span, or nothing if the offsets do not describe one.
pub open spec fn span<T>(s: Spans<T>, i: int) -> Seq<T> {
    if 0 <= i && i + 1 < s.offsets.len() && s.offsets[i] <= s.offsets[i + 1] <= s.values.len() {
        s.values.subrange(s.offsets[i] as int, s.offsets[i + 1] as int)
    } else {
        seq![]
    }
}

/// What a result holds, in place of the slice that holds it.
pub open spec fn seen<T>(r: Result<&[T], StoreError>) -> Result<Seq<T>, StoreError> {
    match r {
        Ok(s) => Ok(s@),
        Err(e) => Err(e),
    }
}

// ---------------------------------------------------------------------------------------------------
// The section table.

/// Two arrays with the same bytes are the same, so a name has one array.
proof fn name_array_is(a: [u8; 16])
    ensures
        name_array(a@) == a,
{
    let b = name_array(a@);
    assert(b@ == a@);
    assert forall|i: int| 0 <= i < 16 implies b[i] == a[i] by {
        assert(b@[i] == a@[i]);
    }
    assert(b =~= a);
}

/// If every section ends inside the file, none is the first that does not.
pub proof fn all_inside(sections: Seq<Section>, len: nat)
    ensures
        first_outside(sections, len) is None <==> forall|i: int|
            0 <= i < sections.len() ==> inside(#[trigger] sections[i], len),
    decreases sections.len(),
{
    if sections.len() > 0 {
        let rest = sections.drop_first();
        all_inside(rest, len);
        if first_outside(sections, len) is None {
            assert forall|i: int| 0 <= i < sections.len() implies inside(
                #[trigger] sections[i],
                len,
            ) by {
                if i > 0 {
                    assert(rest[i - 1] == sections[i]);
                }
            }
        } else if inside(sections[0], len) {
            let i = choose|i: int| 0 <= i < rest.len() && !inside(#[trigger] rest[i], len);
            assert(sections[i + 1] == rest[i]);
        }
    }
}

/// The search for the first section outside passes over those inside.
proof fn skip_inside(sections: Seq<Section>, len: nat, k: int)
    requires
        0 <= k <= sections.len(),
        forall|i: int| 0 <= i < k ==> inside(#[trigger] sections[i], len),
    ensures
        first_outside(sections, len) == first_outside(sections.skip(k), len),
    decreases k,
{
    if k == 0 {
        assert(sections.skip(0) =~= sections);
    } else {
        skip_inside(sections, len, k - 1);
        assert(inside(sections[k - 1], len));
        assert(sections.skip(k - 1).drop_first() =~= sections.skip(k));
    }
}

/// The search by name passes over sections that go by other names.
proof fn skip_others(sections: Seq<Section>, name: Seq<char>, k: int)
    requires
        0 <= k <= sections.len(),
        forall|i: int| 0 <= i < k ==> shown((#[trigger] sections[i]).name) != name,
    ensures
        find(sections, name) == find(sections.skip(k), name),
    decreases k,
{
    if k == 0 {
        assert(sections.skip(0) =~= sections);
    } else {
        skip_others(sections, name, k - 1);
        assert(shown(sections[k - 1].name) != name);
        assert(sections.skip(k - 1).drop_first() =~= sections.skip(k));
    }
}

/// What is found by name is one of the sections, and goes by the name.
pub proof fn found_is_there(sections: Seq<Section>, name: Seq<char>)
    ensures
        find(sections, name) matches Some(s) ==> shown(s.name) == name && exists|i: int|
            0 <= i < sections.len() && sections[i] == s,
    decreases sections.len(),
{
    if sections.len() > 0 {
        let rest = sections.drop_first();
        found_is_there(rest, name);
        if shown(sections[0].name) == name {
            assert(sections[0] == find(sections, name)->0);
        } else if let Some(s) = find(rest, name) {
            let i = choose|i: int| 0 <= i < rest.len() && rest[i] == s;
            assert(sections[i + 1] == s);
        }
    }
}

/// The position of the first zero byte.
fn nul_position(field: &[u8]) -> (end: usize)
    ensures
        end == nul_at(field@),
        end <= field.len(),
{
    let mut i: usize = 0;
    assert(field@.skip(0) =~= field@);
    while i < field.len() && field[i] != 0
        invariant
            i <= field.len(),
            nul_at(field@) == i + nul_at(field@.skip(i as int)),
        decreases field@.len() - i,
    {
        assert(field@.skip(i as int).drop_first() =~= field@.skip(i + 1));
        i += 1;
    }
    i
}

/// The text of a fixed-size field up to its first zero byte.
fn text_of_field<'a>(field: &'a [u8], otherwise: &'static str) -> (t: &'a str)
    ensures
        t@ == field_text(field@, otherwise@),
{
    let end: usize = nul_position(field);
    let used: &[u8] = &field[0..end];
    assert(used@ =~= field@.take(end as int));
    match text::from_utf8(used) {
        Some(t) => t,
        None => otherwise,
    }
}

/// How a section's name reads.
pub(crate) fn show(name: &[u8]) -> (t: &str)
    ensures
        t@ == shown(name@),
{
    text_of_field(name, "?")
}

/// Copies a section's name out of the table.
fn name_at(table: &[u8], at: usize) -> (name: [u8; 16])
    requires
        at + 16 <= table.len(),
    ensures
        name@ == table@.subrange(at as int, at + 16),
{
    let mut name: [u8; 16] = [0u8; 16];
    for i in 0..16usize
        invariant
            at + 16 <= table.len(),
            forall|j: int| 0 <= j < i ==> name[j] == table@[at + j],
    {
        name[i] = table[at + i];
    }
    assert(name@ =~= table@.subrange(at as int, at + 16));
    name
}

/// The name of the first section of a table that reaches past the end of the file.
fn outside_name(table: &[u8], len: usize) -> (name: Option<[u8; 16]>)
    requires
        table@.len() % 32 == 0,
    ensures
        match first_outside(sections_in(table@), len as nat) {
            Some(section) => name == Some(name_array(section.name)),
            None => name is None,
        },
{
    let ghost sections = sections_in(table@);
    let count: usize = table.len() / ENTRY_BYTES;
    let mut i: usize = 0;
    while i < count
        invariant
            table@.len() % 32 == 0,
            count == table.len() / 32,
            sections == sections_in(table@),
            i <= count,
            forall|j: int| 0 <= j < i ==> inside(#[trigger] sections[j], len as nat),
        decreases count - i,
    {
        let at: usize = ENTRY_BYTES * i;
        let offset: u64 = endian::read_u64(table, at + 16);
        let length: u32 = endian::read_u32(table, at + 24);
        let end: Option<u64> = offset.checked_add(length as u64);
        let fits: bool = match end {
            Some(e) => e <= len as u64,
            None => false,
        };
        assert(sections[i as int] == section_in(table@, i as int));
        if !fits {
            let name: [u8; 16] = name_at(table, at);
            proof {
                skip_inside(sections, len as nat, i as int);
                name_array_is(name);
            }
            return Some(name);
        }
        i += 1;
    }
    proof {
        all_inside(sections, len as nat);
    }
    None
}

// ---------------------------------------------------------------------------------------------------
// The store.

/// A decoded store. Holds only the borrowed bytes and their section table: opening one copies nothing.
pub struct Store<'a> {
    bytes: &'a [u8],
    table: &'a [u8],
    rows: usize,
    dataset_version: &'a str,
    format_version: u32,
}

impl<'a> View for Store<'a> {
    type V = Contents;

    closed spec fn view(&self) -> Contents {
        Contents {
            bytes: self.bytes@,
            sections: sections_in(self.table@),
            rows: self.rows as nat,
            dataset_version: self.dataset_version@,
            format_version: self.format_version as nat,
        }
    }
}

/// Whether a section table describes a file of `len` bytes.
pub open spec fn table_fits(table: Seq<u8>, len: nat) -> bool {
    &&& table.len() % 32 == 0
    &&& forall|i: int|
        0 <= i < sections_in(table).len() ==> inside(#[trigger] sections_in(table)[i], len)
}

/// What opening a store gives, in place of the store.
pub open spec fn store_seen(r: Result<Store<'_>, StoreError>) -> Result<Contents, StoreError> {
    match r {
        Ok(store) => Ok(store@),
        Err(e) => Err(e),
    }
}

/// A column at the width that the writer declared for it. `cast` is the section's bytes as elements, or
/// `None` if they are no whole number of them or cannot be read in place.
pub fn checked_column<'a, T: Element>(
    name: &'static str,
    declared: u32,
    cast: Option<&'a [T]>,
) -> (column: Result<&'a [T], StoreError>)
    ensures
        column == (if declared != T::width() {
            Err(
                StoreError::WidthMismatch { name, declared, requested: T::width() as u32 },
            )
        } else {
            match cast {
                Some(c) => Ok(c),
                None => Err(StoreError::BadSection { name }),
            }
        }),
{
    let want: u32 = T::size();
    if declared != want {
        return Err(StoreError::WidthMismatch { name, declared, requested: want });
    }
    match cast {
        Some(c) => Ok(c),
        None => Err(StoreError::BadSection { name }),
    }
}

/// A column that must have an element for every row.
pub fn counted_column<'a, T>(column: &'a [T], name: &'static str, rows: usize) -> (r: Result<
    &'a [T],
    StoreError,
>)
    ensures
        r == (if column@.len() == rows {
            Ok(column)
        } else {
            Err(StoreError::RowMismatch { name, rows, found: column@.len() as usize })
        }),
{
    if column.len() != rows {
        return Err(StoreError::RowMismatch { name, rows, found: column.len() });
    }
    Ok(column)
}

/// A list over what reading its two columns gave. The offsets, which go by `name`, come first: they must be
/// readable and one more than `n` before the values matter.
pub fn list_over<'a, T>(
    values: Result<&'a [T], StoreError>,
    offsets: Result<&'a [u32], StoreError>,
    name: &'static str,
    n: usize,
) -> (r: Result<List<'a, T>, StoreError>)
    ensures
        list_seen(r) == spans_over(seen(values), seen(offsets), name, n as nat),
{
    let o: &'a [u32] = match offsets {
        Ok(o) => o,
        Err(e) => return Err(e),
    };
    if o.len() == 0 || o.len() - 1 != n {
        let rows: usize = match n.checked_add(1) {
            Some(rows) => rows,
            None => usize::MAX,
        };
        return Err(StoreError::RowMismatch { name, rows, found: o.len() });
    }
    match values {
        Ok(v) => Ok(List { values: v, offsets: o }),
        Err(e) => Err(e),
    }
}

/// The section table, if the file holds all of it.
fn table_in(bytes: &[u8]) -> (table: Option<&[u8]>)
    ensures
        match table {
            Some(t) => bytes@.len() >= 64 && table_end(bytes@) <= bytes@.len() && t@ == table_of(
                bytes@,
            ),
            None => bytes@.len() < 64 || table_end(bytes@) > bytes@.len(),
        },
{
    if bytes.len() < HEADER_BYTES {
        return None;
    }
    let count: u32 = endian::read_u32(bytes, 24);
    let end: u64 = HEADER_BYTES as u64 + ENTRY_BYTES as u64 * count as u64;
    if end > bytes.len() as u64 {
        return None;
    }
    Some(&bytes[HEADER_BYTES..end as usize])
}

/// Opens a store whose section table the machine can read in place, or cannot.
pub fn open_with(bytes: &[u8], readable: bool) -> (store: Result<Store<'_>, StoreError>)
    ensures
        store_seen(store) == opened(bytes@, readable),
{
    if bytes.len() < HEADER_BYTES {
        return Err(StoreError::TooSmall { need: HEADER_BYTES, got: bytes.len() });
    }
    let magic: [u8; 8] = MAGIC;
    assert(bytes@.subrange(0, 8) =~= bytes@.take(8));
    if !text::same_bytes(&bytes[0..8], magic.as_slice()) {
        return Err(StoreError::BadMagic);
    }
    let version: u32 = endian::read_u32(bytes, 8);
    if version < OLDEST_FORMAT_VERSION || version > FORMAT_VERSION {
        return Err(StoreError::Version { found: version, expected: FORMAT_VERSION });
    }
    let marker: u32 = endian::read_u32(bytes, 12);
    if marker != ENDIAN_CHECK {
        return Err(StoreError::Endianness { found: marker });
    }
    let declared: u64 = endian::read_u64(bytes, 16);
    let rows: u32 = endian::read_u32(bytes, 28);

    assert(bytes@.subrange(64, bytes@.len() as int) =~= bytes@.skip(64));
    let computed: u64 = blake2::blake2b64(&bytes[HEADER_BYTES..bytes.len()]);
    if computed != declared {
        return Err(StoreError::Corrupt { found: declared, computed });
    }
    if !readable {
        return Err(StoreError::SectionTable);
    }
    let table: &[u8] = match table_in(bytes) {
        Some(table) => table,
        None => return Err(StoreError::SectionTable),
    };
    assert(table@.len() % 32 == 0);
    if let Some(name) = outside_name(table, bytes.len()) {
        return Err(StoreError::SectionBounds { name });
    }
    proof {
        all_inside(sections_in(table@), bytes@.len());
    }
    let dataset_version: &str = text_of_field(&bytes[32..48], "");
    Ok(Store { bytes, table, rows: rows as usize, dataset_version, format_version: version })
}

impl<'a> Store<'a> {
    #[verifier::type_invariant]
    spec fn wf(self) -> bool {
        &&& table_fits(self.table@, self.bytes@.len())
        &&& self.rows <= u32::MAX
        &&& OLDEST_FORMAT_VERSION <= self.format_version <= FORMAT_VERSION
    }

    /// Verifies and opens. The content hash is checked here, before any section is addressed, so a
    /// caller that gets a `Store` back is holding bytes that have already been proven whole.
    ///
    /// The one thing about the outcome that the bytes do not settle is whether the machine can read the
    /// section table in place; [`open_with`] says what comes of either.
    pub fn open(bytes: &'a [u8]) -> (store: Result<Store<'a>, StoreError>)
        ensures
            store_seen(store) == opened(bytes@, true) || store_seen(store) == opened(bytes@, false),
    {
        let readable: bool = match table_in(bytes) {
            Some(table) => <u64 as Element>::cast(table).is_some(),
            None => false,
        };
        open_with(bytes, readable)
    }

    /// Titles in the store.
    pub fn rows(&self) -> (n: usize)
        ensures
            n == self@.rows,
    {
        self.rows
    }

    /// The layout the writer declared: 1 or 2.
    pub fn format_version(&self) -> (n: u32)
        ensures
            n == self@.format_version,
            n == 1 || n == 2,
    {
        proof {
            use_type_invariant(self);
        }
        self.format_version
    }

    /// The dataset version the writer stamped, so a caller can check the store against a manifest.
    pub fn dataset_version(&self) -> (t: &'a str)
        ensures
            t@ == self@.dataset_version,
    {
        self.dataset_version
    }

    /// Sections in the store.
    pub fn section_count(&self) -> (n: usize)
        ensures
            n == self@.sections.len(),
    {
        self.table.len() / ENTRY_BYTES
    }

    /// Bytes in the store.
    pub fn size(&self) -> (n: usize)
        ensures
            n == self@.bytes.len(),
    {
        self.bytes.len()
    }

    /// The bytes of a section.
    pub fn section(&self, name: &'static str) -> (bytes: Result<&'a [u8], StoreError>)
        ensures
            seen(bytes) == section_of(self@, name),
    {
        match self.entry(name) {
            Ok((bytes, width)) => Ok(bytes),
            Err(e) => Err(e),
        }
    }

    /// A section's bytes and the element width the writer declared for it.
    fn entry(&self, name: &'static str) -> (found: Result<(&'a [u8], u32), StoreError>)
        ensures
            match find(self@.sections, name@) {
                None => found == Err::<(&'a [u8], u32), StoreError>(StoreError::MissingSection(name)),
                Some(section) => found matches Ok((bytes, width)) && bytes@ == bytes_of(self@, section)
                    && bytes@.len() == section.length && width == section.width,
            },
    {
        proof {
            use_type_invariant(self);
        }
        let ghost sections = sections_in(self.table@);
        let table: &[u8] = self.table;
        let count: usize = table.len() / ENTRY_BYTES;
        let mut i: usize = 0;
        while i < count
            invariant
                table@ == self.table@,
                table_fits(table@, self.bytes@.len()),
                count == table.len() / 32,
                sections == sections_in(table@),
                i <= count,
                forall|j: int| 0 <= j < i ==> shown((#[trigger] sections[j]).name) != name@,
            decreases count - i,
        {
            let at: usize = ENTRY_BYTES * i;
            assert(sections[i as int] == section_in(table@, i as int));
            if text::same(show(&table[at..at + NAME_BYTES]), name) {
                let offset: u64 = endian::read_u64(table, at + 16);
                let length: u32 = endian::read_u32(table, at + 24);
                let width: u32 = endian::read_u32(table, at + 28);
                proof {
                    skip_others(sections, name@, i as int);
                    assert(sections.skip(i as int)[0] == sections[i as int]);
                    assert(inside(sections[i as int], self.bytes@.len()));
                    assert(self.bytes.len() == self.bytes@.len());
                }
                let start: usize = offset as usize;
                return Ok((&self.bytes[start..start + length as usize], width));
            }
            i += 1;
        }
        proof {
            skip_others(sections, name@, count as int);
        }
        Err(StoreError::MissingSection(name))
    }

    /// A typed column, at the width the writer declared for it.
    ///
    /// The one thing about the outcome that the store's contents do not settle is whether the machine can
    /// read the section in place; [`checked_column`] says what comes of either.
    pub fn column<T: Element>(&self, name: &'static str) -> (column: Result<&'a [T], StoreError>)
        ensures
            seen(column) == column_of::<T>(self@, name, true) || seen(column) == column_of::<T>(
                self@,
                name,
                false,
            ),
    {
        match self.entry(name) {
            Ok((bytes, width)) => {
                let cast: Option<&'a [T]> = T::cast(bytes);
                checked_column(name, width, cast)
            },
            Err(e) => Err(e),
        }
    }

    /// A column with one element per title, refused if it does not have exactly that.
    pub fn per_row<T: Element>(&self, name: &'static str) -> (column: Result<&'a [T], StoreError>)
        ensures
            exists|a: bool|
                seen(column) == counted(
                    #[trigger] column_of::<T>(self@, name, a),
                    name,
                    self@.rows,
                ),
    {
        let column: Result<&'a [T], StoreError> = self.column::<T>(name);
        let ghost a = seen(column) == column_of::<T>(self@, name, true);
        assert(seen(column) == column_of::<T>(self@, name, a));
        match column {
            Ok(c) => counted_column(c, name, self.rows),
            Err(e) => Err(e),
        }
    }

    /// A `values`/`offsets` pair indexed by something other than a title row.
    ///
    /// [`Store::list`] requires one offset more than there are titles, which is right for a per-title
    /// list and wrong for a list keyed by anything else. `n` is what the caller expects, so the length
    /// is still checked rather than trusted.
    pub fn list_of<T: Element>(
        &self,
        values: &'static str,
        offsets: &'static str,
        n: usize,
    ) -> (list: Result<List<'a, T>, StoreError>)
        ensures
            exists|va: bool, oa: bool|
                list_seen(list) == #[trigger] spans_of::<T>(
                    self@,
                    values,
                    offsets,
                    n as nat,
                    va,
                    oa,
                ),
    {
        let o: Result<&'a [u32], StoreError> = self.column::<u32>(offsets);
        let ghost oa = seen(o) == column_of::<u32>(self@, offsets, true);
        let v: Result<&'a [T], StoreError> = self.column::<T>(values);
        let ghost va = seen(v) == column_of::<T>(self@, values, true);
        assert(seen(o) == column_of::<u32>(self@, offsets, oa));
        assert(seen(v) == column_of::<T>(self@, values, va));
        let list: Result<List<'a, T>, StoreError> = list_over(v, o, offsets, n);
        assert(list_seen(list) == spans_of::<T>(self@, values, offsets, n as nat, va, oa));
        list
    }

    /// A `values`/`offsets` pair with one span per title.
    pub fn list<T: Element>(
        &self,
        values: &'static str,
        offsets: &'static str,
    ) -> (list: Result<List<'a, T>, StoreError>)
        ensures
            exists|va: bool, oa: bool|
                list_seen(list) == #[trigger] spans_of::<T>(
                    self@,
                    values,
                    offsets,
                    self@.rows,
                    va,
                    oa,
                ),
    {
        let list: Result<List<'a, T>, StoreError> = self.list_of::<T>(values, offsets, self.rows);
        assert(self.rows as nat == self@.rows);
        list
    }
}

/// A variable-length column.
pub struct List<'a, T> {
    values: &'a [T],
    offsets: &'a [u32],
}

impl<'a, T> View for List<'a, T> {
    type V = Spans<T>;

    closed spec fn view(&self) -> Spans<T> {
        Spans { values: self.values@, offsets: self.offsets@ }
    }
}

/// What reading a list gives, in place of the list.
pub open spec fn list_seen<T>(r: Result<List<'_, T>, StoreError>) -> Result<Spans<T>, StoreError> {
    match r {
        Ok(list) => Ok(list@),
        Err(e) => Err(e),
    }
}

impl<'a, T> Default for List<'a, T> {
    /// A list without rows.
    fn default() -> (list: Self)
        ensures
            list@ == (Spans { values: Seq::<T>::empty(), offsets: Seq::<u32>::empty() }),
    {
        let list: List<'a, T> = List { values: &[], offsets: &[] };
        assert(list.values@ =~= Seq::<T>::empty());
        assert(list.offsets@ =~= Seq::<u32>::empty());
        list
    }
}

impl<'a, T> List<'a, T> {
    /// Row *i*'s span, or empty if the offsets do not describe one.
    pub fn get(&self, row: Row) -> (s: &'a [T])
        ensures
            s@ == span(self@, row.0 as int),
    {
        let offsets: &'a [u32] = self.offsets;
        let values: &'a [T] = self.values;
        if offsets.len() < 2 || row.0 > offsets.len() - 2 {
            let none: &'a [T] = &[];
            assert(none@ =~= Seq::<T>::empty());
            return none;
        }
        let from: usize = offsets[row.0] as usize;
        let to: usize = offsets[row.0 + 1] as usize;
        if from > to || to > values.len() {
            let none: &'a [T] = &[];
            assert(none@ =~= Seq::<T>::empty());
            return none;
        }
        &values[from..to]
    }
}

/// The one string table.
pub struct Strings<'a> {
    blob: &'a [u8],
    offsets: &'a [u32],
}

impl<'a> View for Strings<'a> {
    type V = Spans<u8>;

    closed spec fn view(&self) -> Spans<u8> {
        Spans { values: self.blob@, offsets: self.offsets@ }
    }
}

/// What reading the string table gives, in place of the table.
pub open spec fn strings_seen(r: Result<Strings<'_>, StoreError>) -> Result<Spans<u8>, StoreError> {
    match r {
        Ok(strings) => Ok(strings@),
        Err(e) => Err(e),
    }
}

/// The string table of a store.
pub open spec fn strings_of(c: Contents, readable: bool) -> Result<Spans<u8>, StoreError> {
    match section_of(c, "strings") {
        Err(e) => Err(e),
        Ok(blob) => match column_of::<u32>(c, "str_off", readable) {
            Err(e) => Err(e),
            Ok(offsets) => Ok(Spans { values: blob, offsets }),
        },
    }
}

/// The string for an id: the UTF-8 text between its offset and the next. `None` for [`NONE_U32`], an id
/// out of range, offsets that describe no span, or other bytes.
pub open spec fn string_of(s: Spans<u8>, id: u32) -> Option<Seq<char>> {
    let i = id as int;
    if id == NONE_U32 || i + 1 >= s.offsets.len() || !(s.offsets[i] <= s.offsets[i + 1]
        <= s.values.len()) {
        None
    } else {
        let bytes = s.values.subrange(s.offsets[i] as int, s.offsets[i + 1] as int);
        if vstd::utf8::valid_utf8(bytes) {
            Some(vstd::utf8::decode_utf8(bytes))
        } else {
            None
        }
    }
}

impl<'a> Strings<'a> {
    /// The string for an id. `None` for [`NONE_U32`], an out-of-range id, or non-UTF-8 bytes: a reader
    /// that cannot resolve an id must say so rather than substitute something plausible.
    pub fn get(&self, id: u32) -> (t: Option<&'a str>)
        ensures
            match t {
                Some(t) => string_of(self@, id) == Some(t@),
                None => string_of(self@, id) is None,
            },
    {
        if id == NONE_U32 {
            return None;
        }
        let i: usize = id as usize;
        let offsets: &'a [u32] = self.offsets;
        let blob: &'a [u8] = self.blob;
        if i >= offsets.len() || i + 1 >= offsets.len() {
            return None;
        }
        let from: usize = offsets[i] as usize;
        let to: usize = offsets[i + 1] as usize;
        if from > to || to > blob.len() {
            return None;
        }
        text::from_utf8(&blob[from..to])
    }

    /// Strings in the table.
    pub fn len(&self) -> (n: usize)
        ensures
            n == (if self@.offsets.len() == 0 {
                0
            } else {
                self@.offsets.len() - 1
            }),
    {
        self.offsets.len().saturating_sub(1)
    }

    /// Whether the table holds no string.
    pub fn is_empty(&self) -> (empty: bool)
        ensures
            empty == (self@.offsets.len() <= 1),
    {
        self.len() == 0
    }
}

/// A store's title, by what it is and its id: titles are sorted by it, movies before series.
pub open spec fn title_key(media: u8, tmdb_id: u32) -> int {
    media * 0x1_0000_0000 + tmdb_id
}

/// Whether a column of keys is sorted, as a writer leaves it.
pub open spec fn sorted(keys: Seq<u64>) -> bool {
    forall|i: int, j: int| 0 <= i < j < keys.len() ==> keys[i] <= keys[j]
}

/// Binary search: a place where `want` stands. A key that is there is found if the keys are sorted.
fn search(keys: &[u64], want: u64) -> (at: Option<usize>)
    ensures
        match at {
            Some(i) => i < keys@.len() && keys@[i as int] == want,
            None => sorted(keys@) ==> !keys@.contains(want),
        },
{
    let mut low: usize = 0;
    let mut high: usize = keys.len();
    while low < high
        invariant
            low <= high <= keys.len(),
            sorted(keys@) ==> forall|i: int| 0 <= i < low ==> keys@[i] < want,
            sorted(keys@) ==> forall|i: int| high <= i < keys@.len() ==> keys@[i] > want,
        decreases high - low,
    {
        let middle: usize = low + (high - low) / 2;
        if keys[middle] == want {
            return Some(middle);
        }
        if keys[middle] < want {
            low = middle + 1;
        } else {
            high = middle;
        }
    }
    None
}

/// The row that a key column has for a title: one whose key is the title's, or none if no key is, which
/// is only owed where the keys are sorted.
pub open spec fn row_found(keys: Seq<u64>, media: u8, tmdb_id: u32, row: Option<Row>) -> bool {
    match row {
        Some(r) => r.0 < keys.len() && keys[r.0 as int] == title_key(media, tmdb_id),
        None => sorted(keys) ==> forall|i: int|
            0 <= i < keys.len() ==> keys[i] != title_key(media, tmdb_id),
    }
}

/// The row for a title in a column of keys.
pub fn row_in(keys: &[u64], media: u8, tmdb_id: u32) -> (row: Option<Row>)
    ensures
        row_found(keys@, media, tmdb_id, row),
{
    let want: u64 = media as u64 * 0x1_0000_0000 + tmdb_id as u64;
    match search(keys, want) {
        Some(i) => Some(Row(i)),
        None => {
            assert(forall|i: int| 0 <= i < keys@.len() && keys@[i] == want ==> keys@.contains(want));
            None
        },
    }
}

/// The iconic studios of a store: their Wikidata items, names and entities, row by row.
pub struct Studios {
    pub qids: Seq<u32>,
    pub names: Seq<u32>,
    pub entities: Spans<u32>,
}

/// The iconic studios over what their sections read as. Without the first there are none; after it, each
/// error comes in turn.
pub open spec fn studios_made(
    qids: Result<Seq<u32>, StoreError>,
    names: Result<Seq<u32>, StoreError>,
    entities: Result<Spans<u32>, StoreError>,
) -> Result<Studios, StoreError> {
    match qids {
        Err(StoreError::MissingSection(_)) => Ok(
            Studios {
                qids: seq![],
                names: seq![],
                entities: Spans { values: seq![], offsets: seq![] },
            },
        ),
        Err(e) => Err(e),
        Ok(q) => match counted(names, "studio_name", q.len()) {
            Err(e) => Err(e),
            Ok(n) => match entities {
                Err(e) => Err(e),
                Ok(s) => Ok(Studios { qids: q, names: n, entities: s }),
            },
        },
    }
}

/// The iconic studios of a store. The sections are optional: without `studio_qid` there are none. The
/// flags say whether the machine can read each section in place.
pub open spec fn studios_of(
    c: Contents,
    qids_readable: bool,
    names_readable: bool,
    values_readable: bool,
    offsets_readable: bool,
) -> Result<Studios, StoreError> {
    let qids = column_of::<u32>(c, "studio_qid", qids_readable);
    studios_made(
        qids,
        column_of::<u32>(c, "studio_name", names_readable),
        spans_of::<u32>(
            c,
            "studio_ent_v",
            "studio_ent_o",
            qids->Ok_0.len(),
            values_readable,
            offsets_readable,
        ),
    )
}

/// What reading the iconic studios gives, in place of them.
pub open spec fn studios_seen(r: Result<IconicStudios<'_>, StoreError>) -> Result<Studios, StoreError> {
    match r {
        Ok(studios) => Ok(studios@),
        Err(e) => Err(e),
    }
}

/// [`Store::iconic_studios`], sorted by the studio's own Wikidata item.
pub struct IconicStudios<'a> {
    qids: &'a [u32],
    names: &'a [u32],
    entities: List<'a, u32>,
}

impl<'a> View for IconicStudios<'a> {
    type V = Studios;

    closed spec fn view(&self) -> Studios {
        Studios { qids: self.qids@, names: self.names@, entities: self.entities@ }
    }
}

impl<'a> Default for IconicStudios<'a> {
    /// No iconic studio.
    fn default() -> (studios: Self)
        ensures
            studios@ == (Studios {
                qids: Seq::<u32>::empty(),
                names: Seq::<u32>::empty(),
                entities: Spans { values: Seq::<u32>::empty(), offsets: Seq::<u32>::empty() },
            }),
    {
        let studios: IconicStudios<'a> = IconicStudios {
            qids: &[],
            names: &[],
            entities: List::default(),
        };
        assert(studios.qids@ =~= Seq::<u32>::empty());
        assert(studios.names@ =~= Seq::<u32>::empty());
        studios
    }
}

/// The iconic studios over what reading their sections gave. Without the first section there are none.
pub fn studios_over<'a>(
    qids: Result<&'a [u32], StoreError>,
    names: Result<&'a [u32], StoreError>,
    entities: Result<List<'a, u32>, StoreError>,
) -> (r: Result<IconicStudios<'a>, StoreError>)
    ensures
        studios_seen(r) == studios_made(seen(qids), seen(names), list_seen(entities)),
{
    let qids: &'a [u32] = match qids {
        Ok(qids) => qids,
        Err(StoreError::MissingSection(_)) => return Ok(IconicStudios::default()),
        Err(e) => return Err(e),
    };
    let names: &'a [u32] = match names {
        Ok(names) => match counted_column(names, "studio_name", qids.len()) {
            Ok(names) => names,
            Err(e) => return Err(e),
        },
        Err(e) => return Err(e),
    };
    match entities {
        Ok(entities) => Ok(IconicStudios { qids, names, entities }),
        Err(e) => Err(e),
    }
}

/// One iconic studio.
#[derive(Debug, PartialEq, Eq)]
pub struct IconicStudio<'a> {
    /// The studio's own Wikidata item as a raw Q-id number: the id a studio page is addressed by.
    pub qid: u32,
    /// String id of what a viewer calls it.
    pub name: u32,
    /// Entity ids of every credited item that is this studio.
    pub entities: &'a [u32],
}

/// Whether `studio` is studio *i*.
pub open spec fn is_studio(s: Studios, i: int, studio: IconicStudio<'_>) -> bool {
    &&& studio.qid == s.qids[i]
    &&& studio.name == s.names[i]
    &&& studio.entities@ == span(s.entities, i)
}

impl<'a> IconicStudios<'a> {
    #[verifier::type_invariant]
    spec fn wf(self) -> bool {
        self.names@.len() == self.qids@.len()
    }

    /// Iconic studios in the store.
    pub fn len(&self) -> (n: usize)
        ensures
            n == self@.qids.len(),
    {
        self.qids.len()
    }

    /// Whether the store has none.
    pub fn is_empty(&self) -> (empty: bool)
        ensures
            empty == (self@.qids.len() == 0),
    {
        self.qids.len() == 0
    }

    /// Studio *i*, or `None` past the end.
    pub fn get(&self, i: usize) -> (studio: Option<IconicStudio<'a>>)
        ensures
            match studio {
                Some(studio) => i < self@.qids.len() && is_studio(self@, i as int, studio),
                None => i >= self@.qids.len(),
            },
    {
        proof {
            use_type_invariant(self);
        }
        if i >= self.qids.len() {
            return None;
        }
        Some(
            IconicStudio {
                qid: self.qids[i],
                name: self.names[i],
                entities: self.entities.get(Row(i)),
            },
        )
    }

    /// Every studio, in order.
    pub fn iter(&self) -> (all: Vec<IconicStudio<'a>>)
        ensures
            all@.len() == self@.qids.len(),
            forall|i: int| 0 <= i < all@.len() ==> is_studio(self@, i, #[trigger] all@[i]),
    {
        let mut all: Vec<IconicStudio<'a>> = Vec::new();
        let n: usize = self.len();
        for i in 0..n
            invariant
                n == self@.qids.len(),
                all@.len() == i,
                forall|j: int| 0 <= j < i ==> is_studio(self@, j, #[trigger] all@[j]),
        {
            if let Some(studio) = self.get(i) {
                all.push(studio);
            }
        }
        all
    }
}

/// [`Store::franchises`]: a title's series, whichever layout the store has.
pub enum Franchises<'a> {
    /// Version 2 and later.
    List(List<'a, u32>),
    /// Version 1: one Q-id per row, [`NONE_U32`] for none.
    Single(&'a [u32]),
}

/// The series of every title, whichever layout the store has.
pub enum Series {
    List(Spans<u32>),
    Single(Seq<u32>),
}

impl<'a> View for Franchises<'a> {
    type V = Series;

    open spec fn view(&self) -> Series {
        match self {
            Franchises::List(list) => Series::List(list@),
            Franchises::Single(column) => Series::Single(column@),
        }
    }
}

/// What reading the franchises gives, in place of them.
pub open spec fn franchises_seen(r: Result<Franchises<'_>, StoreError>) -> Result<Series, StoreError> {
    match r {
        Ok(franchises) => Ok(franchises@),
        Err(e) => Err(e),
    }
}

/// The series of every title: a list from version 2 on, one column before. The flags say whether the
/// machine can read each section in place.
pub open spec fn franchises_of(
    c: Contents,
    values_readable: bool,
    offsets_readable: bool,
) -> Result<Series, StoreError> {
    if c.format_version >= 2 {
        match spans_of::<u32>(
            c,
            "franchise_v",
            "franchise_o",
            c.rows,
            values_readable,
            offsets_readable,
        ) {
            Ok(spans) => Ok(Series::List(spans)),
            Err(e) => Err(e),
        }
    } else {
        match counted(column_of::<u32>(c, "franchise", values_readable), "franchise", c.rows) {
            Ok(column) => Ok(Series::Single(column)),
            Err(e) => Err(e),
        }
    }
}

/// The series of row *i*, most specific first.
pub open spec fn series_of(s: Series, i: int) -> Seq<u32> {
    match s {
        Series::List(spans) => span(spans, i),
        Series::Single(column) => if i < column.len() && column[i] != NONE_U32 {
            seq![column[i]]
        } else {
            seq![]
        },
    }
}

impl<'a> Franchises<'a> {
    /// Row *i*'s series, most specific first. Empty for a title in none, or a row out of range.
    pub fn get(&self, row: Row) -> (s: &'a [u32])
        ensures
            s@ == series_of(self@, row.0 as int),
    {
        match self {
            Franchises::List(list) => list.get(row),
            Franchises::Single(column) => {
                let column: &'a [u32] = *column;
                if row.0 < column.len() && column[row.0] != NONE_U32 {
                    assert(column@.subrange(row.0 as int, row.0 + 1) =~= seq![column@[row.0 as int]]);
                    &column[row.0..row.0 + 1]
                } else {
                    let none: &'a [u32] = &[];
                    assert(none@ =~= Seq::<u32>::empty());
                    none
                }
            },
        }
    }
}

impl<'a> Store<'a> {
    /// The string dictionary. There is exactly one: every id in the store indexes this table. A second
    /// id space would make a mismatched lookup return a wrong but valid string, silently.
    pub fn strings(&self) -> (strings: Result<Strings<'a>, StoreError>)
        ensures
            strings_seen(strings) == strings_of(self@, true) || strings_seen(strings) == strings_of(
                self@,
                false,
            ),
    {
        match self.section("strings") {
            Ok(blob) => match self.column::<u32>("str_off") {
                Ok(offsets) => Ok(Strings { blob, offsets }),
                Err(e) => Err(e),
            },
            Err(e) => Err(e),
        }
    }

    /// The row for a title, by binary search over `keys`. `media`: 0 = movie, 1 = tv.
    pub fn row_of(&self, media: u8, tmdb_id: u32) -> (row: Result<Option<Row>, StoreError>)
        ensures
            exists|a: bool|
                match counted(#[trigger] column_of::<u64>(self@, "keys", a), "keys", self@.rows) {
                    Ok(keys) => row matches Ok(r) && row_found(keys, media, tmdb_id, r),
                    Err(e) => row == Err::<Option<Row>, StoreError>(e),
                },
    {
        match self.per_row::<u64>("keys") {
            Ok(keys) => Ok(row_in(keys, media, tmdb_id)),
            Err(e) => Err(e),
        }
    }

    /// Every series (Wikidata P179) each title is part of, most specific first, as raw Q-id numbers, not
    /// entity indices: the entity table holds almost no franchises.
    ///
    /// The one column that versions 1 and 2 lay out differently, so this is where the difference is
    /// absorbed and nowhere else. Either way a row's answer is a borrowed slice.
    pub fn franchises(&self) -> (franchises: Result<Franchises<'a>, StoreError>)
        ensures
            exists|va: bool, oa: bool|
                franchises_seen(franchises) == #[trigger] franchises_of(self@, va, oa),
    {
        if self.format_version >= 2 {
            let list: Result<List<'a, u32>, StoreError> = self.list::<u32>(
                "franchise_v",
                "franchise_o",
            );
            let ghost (va, oa) = choose|va: bool, oa: bool|
                list_seen(list) == #[trigger] spans_of::<u32>(
                    self@,
                    "franchise_v",
                    "franchise_o",
                    self@.rows,
                    va,
                    oa,
                );
            let franchises: Result<Franchises<'a>, StoreError> = match list {
                Ok(list) => Ok(Franchises::List(list)),
                Err(e) => Err(e),
            };
            assert(franchises_seen(franchises) == franchises_of(self@, va, oa));
            franchises
        } else {
            let column: Result<&'a [u32], StoreError> = self.per_row::<u32>("franchise");
            let ghost va = choose|a: bool|
                seen(column) == counted(
                    #[trigger] column_of::<u32>(self@, "franchise", a),
                    "franchise",
                    self@.rows,
                );
            let franchises: Result<Franchises<'a>, StoreError> = match column {
                Ok(column) => Ok(Franchises::Single(column)),
                Err(e) => Err(e),
            };
            assert(franchises_seen(franchises) == franchises_of(self@, va, true));
            franchises
        }
    }

    /// The iconic studios: production companies a viewer browses by, each with the entity ids of every
    /// credited Wikidata item that is the same studio. A title's studios are its `companies_v` entries
    /// found here.
    ///
    /// The `studio_*` sections are optional: a store without them has no iconic studios, which is an
    /// empty answer and not an error. Present but malformed is still an error.
    pub fn iconic_studios(&self) -> (studios: Result<IconicStudios<'a>, StoreError>)
        ensures
            exists|qa: bool, na: bool, va: bool, oa: bool|
                studios_seen(studios) == #[trigger] studios_of(self@, qa, na, va, oa),
    {
        let q: Result<&'a [u32], StoreError> = self.column::<u32>("studio_qid");
        let ghost qa = seen(q) == column_of::<u32>(self@, "studio_qid", true);
        assert(seen(q) == column_of::<u32>(self@, "studio_qid", qa));
        let rows: usize = match &q {
            Ok(qids) => qids.len(),
            Err(_) => 0,
        };
        let names: Result<&'a [u32], StoreError> = self.column::<u32>("studio_name");
        let ghost na = seen(names) == column_of::<u32>(self@, "studio_name", true);
        assert(seen(names) == column_of::<u32>(self@, "studio_name", na));
        let list: Result<List<'a, u32>, StoreError> = self.list_of::<u32>(
            "studio_ent_v",
            "studio_ent_o",
            rows,
        );
        let ghost (va, oa) = choose|va: bool, oa: bool|
            list_seen(list) == #[trigger] spans_of::<u32>(
                self@,
                "studio_ent_v",
                "studio_ent_o",
                rows as nat,
                va,
                oa,
            );
        let studios: Result<IconicStudios<'a>, StoreError> = studios_over(q, names, list);
        assert(studios_seen(studios) == studios_of(self@, qa, na, va, oa));
        studios
    }
}

// ---------------------------------------------------------------------------------------------------
// The table, kept apart from the bytes.

/// The section table, owned, so the bytes can be borrowed separately.
///
/// [`Store::open`] verifies the content hash: fine once at load, far too much per query. A consumer that
/// owns the mapping holds one of these instead: built once, by verifying, and thereafter
/// [`view`](StoreTable::view) hands out a `Store` for free.
///
/// The only constructor verifies, so a `StoreTable` cannot exist for bytes that were never checked.
pub struct StoreTable {
    table: Vec<u8>,
    rows: usize,
    dataset_version: String,
    format_version: u32,
    len: usize,
}

/// What a store says apart from its bytes, and how many bytes it has.
pub struct Description {
    pub sections: Seq<Section>,
    pub rows: nat,
    pub dataset_version: Seq<char>,
    pub format_version: nat,
    pub len: nat,
}

/// The description of a store.
pub open spec fn described(c: Contents) -> Description {
    Description {
        sections: c.sections,
        rows: c.rows,
        dataset_version: c.dataset_version,
        format_version: c.format_version,
        len: c.bytes.len(),
    }
}

/// The store that a description and bytes make.
pub open spec fn described_by(d: Description, bytes: Seq<u8>) -> Contents {
    Contents {
        bytes,
        sections: d.sections,
        rows: d.rows,
        dataset_version: d.dataset_version,
        format_version: d.format_version,
    }
}

impl StoreTable {
    /// What the table says of the store it was built from.
    pub closed spec fn description(&self) -> Description {
        Description {
            sections: sections_in(self.table@),
            rows: self.rows as nat,
            dataset_version: self.dataset_version@,
            format_version: self.format_version as nat,
            len: self.len as nat,
        }
    }
}

/// What building a table from what opening gave must give.
pub open spec fn table_built(
    opening: Result<Contents, StoreError>,
    r: Result<StoreTable, StoreError>,
) -> bool {
    match opening {
        Ok(c) => r matches Ok(table) && table.description() == described(c),
        Err(e) => r matches Err(refusal) && refusal == e,
    }
}

/// The table of a store, apart from its bytes.
pub fn table_from(store: &Store<'_>) -> (table: StoreTable)
    ensures
        table.description() == described(store@),
{
    proof {
        use_type_invariant(store);
    }
    StoreTable {
        table: vstd::slice::slice_to_vec(store.table),
        rows: store.rows,
        dataset_version: store.dataset_version.to_owned(),
        format_version: store.format_version,
        len: store.bytes.len(),
    }
}

impl StoreTable {
    #[verifier::type_invariant]
    spec fn wf(self) -> bool {
        &&& table_fits(self.table@, self.len as nat)
        &&& self.rows <= u32::MAX
        &&& OLDEST_FORMAT_VERSION <= self.format_version <= FORMAT_VERSION
    }

    /// Verifies the store and keeps its table. Does not retain the bytes.
    pub fn open(bytes: &[u8]) -> (table: Result<StoreTable, StoreError>)
        ensures
            table_built(opened(bytes@, true), table) || table_built(opened(bytes@, false), table),
    {
        match Store::open(bytes) {
            Ok(store) => Ok(table_from(&store)),
            Err(e) => Err(e),
        }
    }

    /// Whether bytes are as many as those this table was built from, as [`view`](StoreTable::view) asks.
    pub fn describes(&self, bytes: &[u8]) -> (r: bool)
        ensures
            r == (bytes@.len() == self.description().len),
    {
        bytes.len() == self.len
    }

    /// A `Store` over bytes this table was built from. Cheap: no hash, no parse.
    ///
    /// A slice of another length would mean that the caller swapped the file under the table.
    pub fn view<'a>(&'a self, bytes: &'a [u8]) -> (store: Store<'a>)
        requires
            bytes@.len() == self.description().len,
        ensures
            store@ == described_by(self.description(), bytes@),
    {
        proof {
            use_type_invariant(self);
        }
        Store {
            bytes,
            table: self.table.as_slice(),
            rows: self.rows,
            dataset_version: self.dataset_version.as_str(),
            format_version: self.format_version,
        }
    }

    /// Titles in the store.
    pub fn rows(&self) -> (n: usize)
        ensures
            n == self.description().rows,
    {
        self.rows
    }

    /// The dataset version the writer stamped.
    pub fn dataset_version(&self) -> (t: &str)
        ensures
            t@ == self.description().dataset_version,
    {
        self.dataset_version.as_str()
    }
}

} // verus!
