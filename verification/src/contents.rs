//! What a store's bytes say, in the plainest words: byte by byte, what the header, the section table and the
//! columns are, and when they are refused.

use crate::blake2;
use crate::element;
use crate::endian;
use crate::store;
use crate::store::{Contents, Row, Section, Series, Spans, StoreError, Studios};
use vstd::prelude::*;

verus! {

/// The number that two bytes spell, the lesser one first.
pub open spec fn half(bytes: Seq<u8>, at: int) -> int {
    bytes[at] + 0x100 * bytes[at + 1]
}

/// The number that four bytes spell, the least one first.
pub open spec fn word(bytes: Seq<u8>, at: int) -> int {
    bytes[at] + 0x100 * bytes[at + 1] + 0x1_0000 * bytes[at + 2] + 0x100_0000 * bytes[at + 3]
}

/// The number that eight bytes spell, the least one first.
pub open spec fn long(bytes: Seq<u8>, at: int) -> int {
    word(bytes, at) + 0x1_0000_0000 * word(bytes, at + 4)
}

/// Bytes spell numbers, the least one first.
pub proof fn how_numbers_are_spelled(bytes: Seq<u8>, at: int)
    requires
        0 <= at,
    ensures
        at + 2 <= bytes.len() ==> endian::le(bytes.subrange(at, at + 2)) == half(bytes, at),
        at + 4 <= bytes.len() ==> endian::le(bytes.subrange(at, at + 4)) == word(bytes, at),
        at + 8 <= bytes.len() ==> endian::le(bytes.subrange(at, at + 8)) == long(bytes, at),
{
    reveal_with_fuel(endian::le, 9);
}

/// Whether `n` bytes of a field come before its first zero byte, or are all of it.
pub open spec fn ends_at(field: Seq<u8>, n: int) -> bool {
    &&& 0 <= n <= field.len()
    &&& forall|j: int| 0 <= j < n ==> #[trigger] field[j] != 0
    &&& n < field.len() ==> field[n] == 0
}

/// A field has one end.
proof fn the_end_of_a_field(field: Seq<u8>)
    ensures
        ends_at(field, store::nul_at(field) as int),
    decreases field.len(),
{
    if field.len() > 0 && field[0] != 0 {
        let rest = field.drop_first();
        the_end_of_a_field(rest);
        let n = store::nul_at(rest) as int;
        assert forall|j: int| 0 <= j < n + 1 implies #[trigger] field[j] != 0 by {
            if j > 0 {
                assert(rest[j - 1] == field[j]);
            }
        }
        if n + 1 < field.len() {
            assert(rest[n] == field[n + 1]);
        }
    }
}

/// A field of text is read up to its first zero byte, as UTF-8. What is no UTF-8 is replaced as a whole.
pub proof fn how_fields_are_read(field: Seq<u8>, otherwise: Seq<char>, n: int)
    requires
        ends_at(field, n),
    ensures
        vstd::utf8::valid_utf8(field.take(n)) ==> store::field_text(field, otherwise)
            == vstd::utf8::decode_utf8(field.take(n)),
        !vstd::utf8::valid_utf8(field.take(n)) ==> store::field_text(field, otherwise) == otherwise,
        store::shown(field) == store::field_text(field, "?"@),
{
    the_end_of_a_field(field);
    let m = store::nul_at(field) as int;
    if m < n {
        assert(field[m] != 0);
    }
    if n < m {
        assert(field[n] != 0);
    }
}

/// Whether bytes start as a store's do: with the letters `DENSTOR1`.
pub open spec fn has_magic(bytes: Seq<u8>) -> bool {
    &&& bytes[0] == 0x44
    &&& bytes[1] == 0x45
    &&& bytes[2] == 0x4e
    &&& bytes[3] == 0x53
    &&& bytes[4] == 0x54
    &&& bytes[5] == 0x4f
    &&& bytes[6] == 0x52
    &&& bytes[7] == 0x31
}

/// Whether section `i` ends inside the file.
pub open spec fn ends_inside(bytes: Seq<u8>, i: int) -> bool {
    long(bytes, 64 + 32 * i + 16) + word(bytes, 64 + 32 * i + 24) <= bytes.len()
}

/// The header of a store, as it is read.
proof fn the_header_is_read(bytes: Seq<u8>)
    requires
        bytes.len() >= 64,
    ensures
        bytes.take(8) == store::MAGIC@ <==> has_magic(bytes),
        store::version_of(bytes) == word(bytes, 8),
        store::marker_of(bytes) == word(bytes, 12),
        store::declared_hash(bytes) == long(bytes, 16),
        store::table_end(bytes) == 64 + 32 * word(bytes, 24),
        endian::le(bytes.subrange(28, 32)) == word(bytes, 28),
{
    how_numbers_are_spelled(bytes, 8);
    how_numbers_are_spelled(bytes, 12);
    how_numbers_are_spelled(bytes, 16);
    how_numbers_are_spelled(bytes, 24);
    how_numbers_are_spelled(bytes, 28);
    let m = store::MAGIC@;
    assert(m.len() == 8);
    assert(m[0] == 0x44 && m[1] == 0x45 && m[2] == 0x4e && m[3] == 0x53);
    assert(m[4] == 0x54 && m[5] == 0x4f && m[6] == 0x52 && m[7] == 0x31);
    let t = bytes.take(8);
    if t == m {
        assert(t[0] == bytes[0] && t[1] == bytes[1] && t[2] == bytes[2] && t[3] == bytes[3]);
        assert(t[4] == bytes[4] && t[5] == bytes[5] && t[6] == bytes[6] && t[7] == bytes[7]);
    }
    if has_magic(bytes) {
        assert(t =~= m);
    }
}

/// The section table, as it is read: 32 bytes an entry, of which 16 are the name, and then the offset, the
/// length and the width.
pub proof fn the_table_is_read(bytes: Seq<u8>, i: int)
    requires
        bytes.len() >= 64 + 32 * word(bytes, 24),
        0 <= i < word(bytes, 24),
    ensures
        ({
            let sections = store::sections_in(store::table_of(bytes));
            let at = 64 + 32 * i;
            &&& sections.len() == word(bytes, 24)
            &&& sections[i].name == bytes.subrange(at, at + 16)
            &&& sections[i].offset == long(bytes, at + 16)
            &&& sections[i].length == word(bytes, at + 24)
            &&& sections[i].width == word(bytes, at + 28)
            &&& store::inside(sections[i], bytes.len()) <==> ends_inside(bytes, i)
        }),
{
    the_header_is_read(bytes);
    let table = store::table_of(bytes);
    let at = 64 + 32 * i;
    assert(table.subrange(32 * i, 32 * i + 16) =~= bytes.subrange(at, at + 16));
    assert(table.subrange(32 * i + 16, 32 * i + 24) =~= bytes.subrange(at + 16, at + 24));
    assert(table.subrange(32 * i + 24, 32 * i + 28) =~= bytes.subrange(at + 24, at + 28));
    assert(table.subrange(32 * i + 28, 32 * i + 32) =~= bytes.subrange(at + 28, at + 32));
    how_numbers_are_spelled(bytes, at + 16);
    how_numbers_are_spelled(bytes, at + 24);
    how_numbers_are_spelled(bytes, at + 28);
}

/// When a store opens, and what it says then. It has a header, with the letters, a version of 1 or 2 and the
/// marker; its content hash is that of all that follows the header; and its section table and all sections
/// lie inside the file.
pub proof fn when_a_store_opens(bytes: Seq<u8>)
    ensures
        store::opened(bytes, true) is Ok <==> {
            &&& bytes.len() >= 64
            &&& has_magic(bytes)
            &&& word(bytes, 8) == 1 || word(bytes, 8) == 2
            &&& word(bytes, 12) == 0x0102_0304
            &&& long(bytes, 16) == blake2::digest(bytes.skip(64))
            &&& 64 + 32 * word(bytes, 24) <= bytes.len()
            &&& forall|i: int| 0 <= i < word(bytes, 24) ==> #[trigger] ends_inside(bytes, i)
        },
        store::opened(bytes, true) matches Ok(c) ==> {
            &&& c.bytes == bytes
            &&& c.format_version == word(bytes, 8)
            &&& c.sections.len() == word(bytes, 24)
            &&& c.rows == word(bytes, 28)
            &&& c.dataset_version == store::field_text(bytes.subrange(32, 48), ""@)
            &&& c.sections == store::sections_in(store::table_of(bytes))
        },
        !(store::opened(bytes, false) is Ok),
{
    if bytes.len() >= 64 {
        the_header_is_read(bytes);
        if 64 + 32 * word(bytes, 24) <= bytes.len() {
            let sections = store::sections_in(store::table_of(bytes));
            store::all_inside(sections, bytes.len());
            assert(sections.len() == word(bytes, 24));
            assert forall|i: int| 0 <= i < word(bytes, 24) implies (#[trigger] ends_inside(bytes, i)
                <==> store::inside(sections[i], bytes.len())) by {
                the_table_is_read(bytes, i);
            }
            if store::first_outside(sections, bytes.len()) is None {
                assert forall|i: int| 0 <= i < word(bytes, 24) implies #[trigger] ends_inside(
                    bytes,
                    i,
                ) by {
                    assert(store::inside(sections[i], bytes.len()));
                }
            } else {
                let i = choose|i: int|
                    0 <= i < sections.len() && !store::inside(#[trigger] sections[i], bytes.len());
                assert(!ends_inside(bytes, i));
            }
        }
    }
}

/// Why a store does not open: the first of these that applies, with what was found.
pub proof fn why_a_store_does_not_open(bytes: Seq<u8>, readable: bool)
    requires
        bytes.len() <= usize::MAX,
    ensures
        store::opened(bytes, readable) matches Err(e) ==> {
            let version = word(bytes, 8);
            let marker = word(bytes, 12);
            let hash = long(bytes, 16);
            if bytes.len() < 64 {
                e == (StoreError::TooSmall { need: 64, got: bytes.len() as usize })
            } else if !has_magic(bytes) {
                e == StoreError::BadMagic
            } else if version != 1 && version != 2 {
                e == (StoreError::Version { found: version as u32, expected: 2 })
            } else if marker != 0x0102_0304 {
                e == (StoreError::Endianness { found: marker as u32 })
            } else if hash != blake2::digest(bytes.skip(64)) {
                e == (StoreError::Corrupt {
                    found: hash as u64,
                    computed: blake2::digest(bytes.skip(64)),
                })
            } else if !readable || 64 + 32 * word(bytes, 24) > bytes.len() {
                e == StoreError::SectionTable
            } else {
                e matches StoreError::SectionBounds { name } && exists|i: int|
                    {
                        &&& 0 <= i < word(bytes, 24)
                        &&& !#[trigger] ends_inside(bytes, i)
                        &&& name@ == bytes.subrange(64 + 32 * i, 64 + 32 * i + 16)
                        &&& forall|j: int| 0 <= j < i ==> #[trigger] ends_inside(bytes, j)
                    }
            }
        },
{
    if bytes.len() >= 64 {
        the_header_is_read(bytes);
        if 64 + 32 * word(bytes, 24) <= bytes.len() {
            let sections = store::sections_in(store::table_of(bytes));
            assert(sections.len() == word(bytes, 24));
            if store::first_outside(sections, bytes.len()) is Some {
                let i = the_first_outside(sections, bytes.len());
                the_table_is_read(bytes, i);
                assert(!ends_inside(bytes, i));
                assert forall|j: int| 0 <= j < i implies #[trigger] ends_inside(bytes, j) by {
                    the_table_is_read(bytes, j);
                    assert(store::inside(sections[j], bytes.len()));
                }
                sixteen_bytes_are_an_array(sections[i].name);
            }
        }
    }
}

/// Sixteen bytes fill an array.
proof fn sixteen_bytes_are_an_array(name: Seq<u8>)
    requires
        name.len() == 16,
    ensures
        store::name_array(name)@ == name,
{
    let a: [u8; 16] = [
        name[0], name[1], name[2], name[3], name[4], name[5], name[6], name[7],
        name[8], name[9], name[10], name[11], name[12], name[13], name[14], name[15],
    ];
    assert(a@ =~= name);
}

/// The first section outside is the one of which all before are inside.
proof fn the_first_outside(sections: Seq<Section>, len: nat) -> (i: int)
    requires
        store::first_outside(sections, len) is Some,
    ensures
        0 <= i < sections.len(),
        store::first_outside(sections, len) == Some(sections[i]),
        !store::inside(sections[i], len),
        forall|j: int| 0 <= j < i ==> store::inside(#[trigger] sections[j], len),
    decreases sections.len(),
{
    if !store::inside(sections[0], len) {
        0
    } else {
        let rest = sections.drop_first();
        let k = the_first_outside(rest, len);
        assert forall|j: int| 0 <= j < k + 1 implies store::inside(#[trigger] sections[j], len) by {
            if j > 0 {
                assert(rest[j - 1] == sections[j]);
            }
        }
        k + 1
    }
}

/// A section is found by name: the first that goes by it, and none exactly if none does. What is read of it is
/// as many bytes as the table says, from where it says.
pub proof fn how_sections_are_found(c: Contents, name: &'static str, i: int)
    ensures
        (forall|j: int|
            0 <= j < c.sections.len() ==> store::shown((#[trigger] c.sections[j]).name) != name@)
            ==> store::find(c.sections, name@) is None && store::section_of(c, name) == Err::<
            Seq<u8>,
            StoreError,
        >(StoreError::MissingSection(name)),
        0 <= i < c.sections.len() && store::shown(c.sections[i].name) == name@ && (forall|j: int|
            0 <= j < i ==> store::shown((#[trigger] c.sections[j]).name) != name@) ==> {
            let s = c.sections[i];
            &&& store::find(c.sections, name@) == Some(s)
            &&& s.offset + s.length <= c.bytes.len() ==> {
                &&& store::section_of(c, name) matches Ok(b) && b.len() == s.length && forall|k: int|
                    0 <= k < s.length ==> #[trigger] b[k] == c.bytes[s.offset + k]
            }
        },
{
    if forall|j: int|
        0 <= j < c.sections.len() ==> store::shown((#[trigger] c.sections[j]).name) != name@ {
        store::found_is_there(c.sections, name@);
    }
    if 0 <= i < c.sections.len() && store::shown(c.sections[i].name) == name@ && (forall|j: int|
        0 <= j < i ==> store::shown((#[trigger] c.sections[j]).name) != name@) {
        the_first_is_found(c.sections, name@, i);
    }
}

/// The first section of a name is found.
proof fn the_first_is_found(sections: Seq<Section>, name: Seq<char>, i: int)
    requires
        0 <= i < sections.len(),
        store::shown(sections[i].name) == name,
        forall|j: int| 0 <= j < i ==> store::shown((#[trigger] sections[j]).name) != name,
    ensures
        store::find(sections, name) == Some(sections[i]),
    decreases i,
{
    if i > 0 {
        let rest = sections.drop_first();
        assert(store::shown(sections[0].name) != name);
        assert forall|j: int| 0 <= j < i - 1 implies store::shown((#[trigger] rest[j]).name)
            != name by {
            assert(rest[j] == sections[j + 1]);
        }
        the_first_is_found(rest, name, i - 1);
    }
}

/// Whole numbers of one byte, as a column reads them.
pub proof fn columns_of_bytes(bytes: Seq<u8>, k: int)
    ensures
        element::elements::<u8>(bytes).len() == bytes.len(),
        element::elements::<i8>(bytes).len() == bytes.len(),
        0 <= k < bytes.len() ==> element::elements::<u8>(bytes)[k] == bytes[k],
        0 <= k < bytes.len() ==> element::elements::<i8>(bytes)[k] == if bytes[k] < 0x80 {
            bytes[k] as int
        } else {
            bytes[k] - 0x100
        },
{
}

/// Whole numbers of two bytes, as a column reads them.
pub proof fn columns_of_halves(bytes: Seq<u8>, k: int)
    ensures
        element::elements::<u16>(bytes).len() == bytes.len() / 2,
        element::elements::<i16>(bytes).len() == bytes.len() / 2,
        0 <= k < bytes.len() / 2 ==> element::elements::<u16>(bytes)[k] == half(bytes, 2 * k),
        0 <= k < bytes.len() / 2 ==> element::elements::<i16>(bytes)[k] == if half(bytes, 2 * k)
            < 0x8000 {
            half(bytes, 2 * k)
        } else {
            half(bytes, 2 * k) - 0x1_0000
        },
{
    if 0 <= k < bytes.len() / 2 {
        assert(k * 2 == 2 * k);
        how_numbers_are_spelled(bytes, 2 * k);
        endian::le_is_bounded(bytes.subrange(2 * k, 2 * k + 2));
        assert(element::element_bytes(bytes, 2, k) =~= bytes.subrange(2 * k, 2 * k + 2));
    }
}

/// Whole numbers of four bytes, as a column reads them.
pub proof fn columns_of_words(bytes: Seq<u8>, k: int)
    ensures
        element::elements::<u32>(bytes).len() == bytes.len() / 4,
        element::elements::<i32>(bytes).len() == bytes.len() / 4,
        0 <= k < bytes.len() / 4 ==> element::elements::<u32>(bytes)[k] == word(bytes, 4 * k),
        0 <= k < bytes.len() / 4 ==> element::elements::<i32>(bytes)[k] == if word(bytes, 4 * k)
            < 0x8000_0000 {
            word(bytes, 4 * k)
        } else {
            word(bytes, 4 * k) - 0x1_0000_0000
        },
{
    if 0 <= k < bytes.len() / 4 {
        assert(k * 4 == 4 * k);
        how_numbers_are_spelled(bytes, 4 * k);
        endian::le_is_bounded(bytes.subrange(4 * k, 4 * k + 4));
        assert(element::element_bytes(bytes, 4, k) =~= bytes.subrange(4 * k, 4 * k + 4));
    }
}

/// Whole numbers of eight bytes, as a column reads them.
pub proof fn columns_of_longs(bytes: Seq<u8>, k: int)
    ensures
        element::elements::<u64>(bytes).len() == bytes.len() / 8,
        element::elements::<i64>(bytes).len() == bytes.len() / 8,
        0 <= k < bytes.len() / 8 ==> element::elements::<u64>(bytes)[k] == long(bytes, 8 * k),
        0 <= k < bytes.len() / 8 ==> element::elements::<i64>(bytes)[k] == if long(bytes, 8 * k)
            < 0x8000_0000_0000_0000 {
            long(bytes, 8 * k)
        } else {
            long(bytes, 8 * k) - 0x1_0000_0000_0000_0000
        },
{
    if 0 <= k < bytes.len() / 8 {
        assert(k * 8 == 8 * k);
        how_numbers_are_spelled(bytes, 8 * k);
        endian::le_is_bounded(bytes.subrange(8 * k, 8 * k + 8));
        assert(element::element_bytes(bytes, 8, k) =~= bytes.subrange(8 * k, 8 * k + 8));
    }
}

/// What a column of a section is: its elements, where the writer declared their width and they are whole, and
/// the machine can read them in place, as it always can single bytes. Otherwise the section is told, and why.
pub proof fn how_columns_are_read<T: element::Element>(
    c: Contents,
    name: &'static str,
    readable: bool,
)
    ensures
        ({
            let r = store::column_of::<T>(c, name, readable);
            let s = store::find(c.sections, name@);
            &&& s is None ==> r == Err::<Seq<T>, StoreError>(StoreError::MissingSection(name))
            &&& s is Some ==> {
                let s = s->0;
                &&& s.width != T::width() ==> r == Err::<Seq<T>, StoreError>(
                    StoreError::WidthMismatch {
                        name,
                        declared: s.width as u32,
                        requested: T::width() as u32,
                    },
                )
                &&& s.width == T::width() && (s.length % T::width() != 0 || !readable && T::width()
                    != 1) ==> r == Err::<Seq<T>, StoreError>(StoreError::BadSection { name })
                &&& s.width == T::width() && s.length % T::width() == 0 && (readable || T::width()
                    == 1) ==> r == Ok::<Seq<T>, StoreError>(
                    element::elements::<T>(
                        c.bytes.subrange(s.offset as int, (s.offset + s.length) as int),
                    ),
                )
            }
        }),
{
}

/// How wide the elements are.
pub proof fn how_wide_elements_are()
    ensures
        <u8 as element::Number>::width() == 1,
        <i8 as element::Number>::width() == 1,
        <u16 as element::Number>::width() == 2,
        <i16 as element::Number>::width() == 2,
        <u32 as element::Number>::width() == 4,
        <i32 as element::Number>::width() == 4,
        <u64 as element::Number>::width() == 8,
        <i64 as element::Number>::width() == 8,
{
}

/// A column that must have an element for every row is handed on if it has, and refused with both numbers if
/// not; what was refused before stays refused.
pub proof fn how_columns_are_counted<T>(
    column: Result<Seq<T>, StoreError>,
    name: &'static str,
    rows: nat,
)
    requires
        rows <= usize::MAX,
        column is Ok ==> column->Ok_0.len() <= usize::MAX,
    ensures
        column is Err ==> store::counted(column, name, rows) == column,
        column matches Ok(c) ==> {
            &&& c.len() == rows ==> store::counted(column, name, rows) == column
            &&& c.len() != rows ==> (store::counted(column, name, rows) matches Err(
                StoreError::RowMismatch { name: told, rows: wanted, found },
            ) && told == name && wanted == rows && found == c.len())
        },
{
}

/// A list has one offset more than rows. Its offsets are looked at first, and then its values.
pub proof fn how_lists_are_read<T>(
    values: Result<Seq<T>, StoreError>,
    offsets: Result<Seq<u32>, StoreError>,
    name: &'static str,
    n: nat,
)
    requires
        n <= usize::MAX,
        offsets is Ok ==> offsets->Ok_0.len() <= usize::MAX,
    ensures
        ({
            let r = store::spans_over(values, offsets, name, n);
            &&& r is Ok <==> values is Ok && offsets is Ok && offsets->Ok_0.len() == n + 1
            &&& r matches Ok(s) ==> s.values == values->Ok_0 && s.offsets == offsets->Ok_0
            &&& offsets is Err ==> r == Err::<Spans<T>, StoreError>(offsets->Err_0)
            &&& offsets is Ok && offsets->Ok_0.len() != n + 1 ==> (r matches Err(
                StoreError::RowMismatch { name: told, rows: wanted, found },
            ) && told == name && wanted == (if n < usize::MAX {
                n + 1
            } else {
                usize::MAX as nat
            }) && found == offsets->Ok_0.len())
            &&& offsets is Ok && offsets->Ok_0.len() == n + 1 && values is Err ==> r == Err::<
                Spans<T>,
                StoreError,
            >(values->Err_0)
        }),
{
}

/// What a row of a list owns: the values from its offset up to the next one. A row that there is not, and one
/// whose offsets go down or past the values, owns nothing.
pub proof fn what_a_row_owns<T>(s: Spans<T>, i: int, k: int)
    ensures
        ({
            let own = store::span(s, i);
            let told = 0 <= i && i + 1 < s.offsets.len() && s.offsets[i] <= s.offsets[i + 1]
                && s.offsets[i + 1] <= s.values.len();
            &&& told ==> own.len() == s.offsets[i + 1] - s.offsets[i]
            &&& told && 0 <= k < own.len() ==> own[k] == s.values[s.offsets[i] + k]
            &&& !told ==> own.len() == 0
        }),
{
}

/// What string an id stands for: the text of the bytes from its offset up to the next one, empty or not. The
/// id of nothing stands for none; nor does one past the end, one whose offsets go down or past the bytes, or
/// one whose bytes are no UTF-8.
pub proof fn what_string_an_id_stands_for(s: Spans<u8>, id: u32)
    ensures
        ({
            let told = id != 0xffff_ffff && id + 1 < s.offsets.len() && s.offsets[id as int]
                <= s.offsets[id + 1] && s.offsets[id + 1] <= s.values.len();
            let bytes = s.values.subrange(s.offsets[id as int] as int, s.offsets[id + 1] as int);
            &&& store::string_of(s, id) is Some <==> told && vstd::utf8::valid_utf8(bytes)
            &&& store::string_of(s, id) is Some ==> store::string_of(s, id)->0
                == vstd::utf8::decode_utf8(bytes)
        }),
{
}

/// The strings of a store are the bytes of its section `strings` and the offsets of its column `str_off`.
pub proof fn where_strings_are(c: Contents, readable: bool)
    ensures
        ({
            let r = store::strings_of(c, readable);
            let blob = store::section_of(c, "strings");
            let offsets = store::column_of::<u32>(c, "str_off", readable);
            &&& r is Ok <==> blob is Ok && offsets is Ok
            &&& r matches Ok(s) ==> s.values == blob->Ok_0 && s.offsets == offsets->Ok_0
            &&& blob is Err ==> r == Err::<Spans<u8>, StoreError>(blob->Err_0)
            &&& blob is Ok && offsets is Err ==> r == Err::<Spans<u8>, StoreError>(offsets->Err_0)
        }),
{
}

/// The row of a title is one whose key has what the title is in its upper half and its id in the lower. None
/// is told of keys that go up only if no key is the title's.
pub proof fn which_row_is_a_titles(keys: Seq<u64>, media: u8, id: u32, row: Option<Row>)
    requires
        store::row_found(keys, media, id, row),
    ensures
        row matches Some(r) ==> r.0 < keys.len() && keys[r.0 as int] / 0x1_0000_0000 == media && keys[
            r.0 as int] % 0x1_0000_0000 == id,
        row is None && (forall|i: int, j: int|
            #![trigger keys[i], keys[j]]
            0 <= i < j < keys.len() ==> keys[i] <= keys[j]) ==> forall|i: int|
            0 <= i < keys.len() ==> !((#[trigger] keys[i]) / 0x1_0000_0000 == media && keys[i]
                % 0x1_0000_0000 == id),
{
    if row is None && (forall|i: int, j: int|
        #![trigger keys[i], keys[j]]
        0 <= i < j < keys.len() ==> keys[i] <= keys[j]) {
        assert(store::sorted(keys));
        assert forall|i: int| 0 <= i < keys.len() implies !((#[trigger] keys[i]) / 0x1_0000_0000
            == media && keys[i] % 0x1_0000_0000 == id) by {
            assert(keys[i] != store::title_key(media, id));
        }
    }
}

/// The iconic studios are read from `studio_qid`, `studio_name`, `studio_ent_v` and `studio_ent_o`, one row a
/// studio. A store without the first section has none; with it, whatever is wrong with one of them is told,
/// in that order, the offsets before the values.
pub proof fn where_studios_are(c: Contents, qa: bool, na: bool, va: bool, oa: bool)
    ensures
        ({
            let r = store::studios_of(c, qa, na, va, oa);
            let qids = store::column_of::<u32>(c, "studio_qid", qa);
            let names = store::column_of::<u32>(c, "studio_name", na);
            let n = qids->Ok_0.len();
            let entities = store::spans_over(
                store::column_of::<u32>(c, "studio_ent_v", va),
                store::column_of::<u32>(c, "studio_ent_o", oa),
                "studio_ent_o",
                n,
            );
            let counted = store::counted(names, "studio_name", n);
            &&& store::find(c.sections, "studio_qid"@) is None ==> (r matches Ok(s)
                && s.qids.len() == 0 && s.names.len() == 0 && s.entities.values.len() == 0
                && s.entities.offsets.len() == 0)
            &&& store::find(c.sections, "studio_qid"@) is Some && qids is Err ==> r == Err::<
                Studios,
                StoreError,
            >(qids->Err_0)
            &&& qids is Ok && counted is Err ==> r == Err::<Studios, StoreError>(counted->Err_0)
            &&& qids is Ok && counted is Ok && entities is Err ==> r == Err::<Studios, StoreError>(
                entities->Err_0,
            )
            &&& qids is Ok && counted is Ok && entities is Ok ==> (r matches Ok(s) && s.qids
                == qids->Ok_0 && s.names == counted->Ok_0 && s.entities == entities->Ok_0)
        }),
{
}

/// The series of titles are a list in `franchise_v` and `franchise_o` from version 2 on, and a column
/// `franchise` before.
pub proof fn where_franchises_are(c: Contents, va: bool, oa: bool)
    ensures
        ({
            let r = store::franchises_of(c, va, oa);
            let list = store::spans_over(
                store::column_of::<u32>(c, "franchise_v", va),
                store::column_of::<u32>(c, "franchise_o", oa),
                "franchise_o",
                c.rows,
            );
            let column = store::counted(
                store::column_of::<u32>(c, "franchise", va),
                "franchise",
                c.rows,
            );
            &&& c.format_version >= 2 ==> (r is Ok <==> list is Ok)
            &&& c.format_version >= 2 && list is Ok ==> r == Ok::<Series, StoreError>(
                Series::List(list->Ok_0),
            )
            &&& c.format_version >= 2 && list is Err ==> r == Err::<Series, StoreError>(list->Err_0)
            &&& c.format_version < 2 && column is Ok ==> r == Ok::<Series, StoreError>(
                Series::Single(column->Ok_0),
            )
            &&& c.format_version < 2 && column is Err ==> r == Err::<Series, StoreError>(
                column->Err_0,
            )
        }),
{
}

/// The series of a title: all that its row owns in a list; in a column the one that stands there, unless that
/// is the id of nothing. A row past the end has none.
pub proof fn which_series_a_title_is_in(spans: Spans<u32>, column: Seq<u32>, i: int)
    requires
        0 <= i,
    ensures
        store::series_of(Series::List(spans), i) == store::span(spans, i),
        store::series_of(Series::Single(column), i).len() == 1 <==> i < column.len() && column[i]
            != 0xffff_ffff,
        i < column.len() && column[i] != 0xffff_ffff ==> store::series_of(
            Series::Single(column),
            i,
        )[0] == column[i],
        !(i < column.len() && column[i] != 0xffff_ffff) ==> store::series_of(
            Series::Single(column),
            i,
        ).len() == 0,
{
}

/// A description keeps of a store all but its bytes, of which it keeps the number; over bytes it makes a store
/// of them that says the same.
pub proof fn what_a_description_keeps(c: Contents, bytes: Seq<u8>)
    ensures
        ({
            let d = store::described(c);
            let made = store::described_by(d, bytes);
            &&& d.sections == c.sections
            &&& d.rows == c.rows
            &&& d.dataset_version == c.dataset_version
            &&& d.format_version == c.format_version
            &&& d.len == c.bytes.len()
            &&& made.bytes == bytes
            &&& made.sections == c.sections
            &&& made.rows == c.rows
            &&& made.dataset_version == c.dataset_version
            &&& made.format_version == c.format_version
        }),
{
}

/// A studio is told by its own row of each column.
pub proof fn what_is_told_of_a_studio(s: Studios, i: int, studio: store::IconicStudio<'_>)
    ensures
        store::is_studio(s, i, studio) <==> studio.qid == s.qids[i] && studio.name == s.names[i]
            && studio.entities@ == store::span(s.entities, i),
{
}

/// What is read is told as it is: a slice by its elements, the rest by what it says, and a refusal as itself.
pub proof fn what_is_read_is_told<'a, T>(
    slice: &'a [T],
    list: store::List<'a, T>,
    opened: store::Store<'a>,
    strings: store::Strings<'a>,
    studios: store::IconicStudios<'a>,
    e: StoreError,
)
    ensures
        store::seen(Ok(slice)) == Ok::<Seq<T>, StoreError>(slice@),
        store::seen(Err::<&'a [T], StoreError>(e)) == Err::<Seq<T>, StoreError>(e),
        store::list_seen(Ok(list)) == Ok::<Spans<T>, StoreError>(list@),
        store::list_seen(Err::<store::List<'a, T>, StoreError>(e)) == Err::<Spans<T>, StoreError>(e),
        store::store_seen(Ok(opened)) == Ok::<Contents, StoreError>(opened@),
        store::store_seen(Err(e)) == Err::<Contents, StoreError>(e),
        store::strings_seen(Ok(strings)) == Ok::<Spans<u8>, StoreError>(strings@),
        store::strings_seen(Err(e)) == Err::<Spans<u8>, StoreError>(e),
        store::studios_seen(Ok(studios)) == Ok::<Studios, StoreError>(studios@),
        store::studios_seen(Err(e)) == Err::<Studios, StoreError>(e),
{
}

/// The series of titles are told by the list or the column that they are read from.
pub proof fn what_franchises_are_told<'a>(
    list: store::List<'a, u32>,
    column: &'a [u32],
    e: StoreError,
)
    ensures
        store::franchises_seen(Ok(store::Franchises::List(list))) == Ok::<Series, StoreError>(
            Series::List(list@),
        ),
        store::franchises_seen(Ok(store::Franchises::Single(column))) == Ok::<Series, StoreError>(
            Series::Single(column@),
        ),
        store::franchises_seen(Err(e)) == Err::<Series, StoreError>(e),
{
}

/// A table is built of a store that opens and describes it, and of no other: what is refused stays refused.
pub proof fn of_what_a_table_is_built(
    c: Contents,
    e: StoreError,
    table: store::StoreTable,
    other: StoreError,
)
    ensures
        store::table_built(Ok(c), Ok(table)) <==> {
            &&& table.description().sections == c.sections
            &&& table.description().rows == c.rows
            &&& table.description().dataset_version == c.dataset_version
            &&& table.description().format_version == c.format_version
            &&& table.description().len == c.bytes.len()
        },
        !store::table_built(Ok(c), Err(other)),
        !store::table_built(Err(e), Ok(table)),
        store::table_built(Err(e), Err(other)) <==> e == other,
{
}

/// How a machine has a column in memory: as many elements as there are bytes for, each read from its own
/// bytes, from the front or from the back.
pub proof fn how_columns_lie<T: element::Number>(column: Seq<T>, bytes: Seq<u8>)
    ensures
        element::laid_out::<T>(column, bytes, true) <==> bytes.len() == column.len() * T::width()
            && forall|i: int|
            0 <= i < column.len() ==> #[trigger] column[i] == T::decode(
                bytes.subrange(i * T::width(), i * T::width() + T::width()),
            ),
        element::laid_out::<T>(column, bytes, false) <==> bytes.len() == column.len() * T::width()
            && forall|i: int|
            0 <= i < column.len() ==> #[trigger] column[i] == T::decode(
                bytes.subrange(i * T::width(), i * T::width() + T::width()).reverse(),
            ),
{
}

/// What stands for nothing, and the facet axes in their order.
pub proof fn what_is_fixed()
    ensures
        store::NONE_U32 == 0xffff_ffff,
        store::NONE_I16 == -32_768,
        store::FACET_AXES@.len() == 12,
        store::FACET_AXES@[0]@ == "era"@,
        store::FACET_AXES@[1]@ == "setting"@,
        store::FACET_AXES@[2]@ == "scope"@,
        store::FACET_AXES@[3]@ == "ending"@,
        store::FACET_AXES@[4]@ == "pacing"@,
        store::FACET_AXES@[5]@ == "chronology"@,
        store::FACET_AXES@[6]@ == "continuity"@,
        store::FACET_AXES@[7]@ == "conflict"@,
        store::FACET_AXES@[8]@ == "ensemble"@,
        store::FACET_AXES@[9]@ == "tone"@,
        store::FACET_AXES@[10]@ == "timespan"@,
        store::FACET_AXES@[11]@ == "archetype"@,
{
}

} // verus!
