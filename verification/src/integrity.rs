//! What can be relied on in a store that was opened.

use crate::blake2;
use crate::element::Element;
use crate::store;
use crate::store::{
    Contents, Row, Series, Spans, Store, StoreError, StoreTable, NONE_U32,
};
use vstd::prelude::*;

verus! {

/// A store that opens is whole: its bytes hash to what its header declares, its layout is one that is
/// read, and every section lies inside the file.
pub proof fn opened_stores_are_whole(bytes: Seq<u8>, readable: bool)
    requires
        store::opened(bytes, readable) is Ok,
    ensures
        ({
            let c = store::opened(bytes, readable)->Ok_0;
            &&& c.bytes == bytes
            &&& store::declared_hash(bytes) == blake2::digest(bytes.skip(64))
            &&& c.format_version == 1 || c.format_version == 2
            &&& forall|i: int|
                0 <= i < c.sections.len() ==> store::inside(#[trigger] c.sections[i], bytes.len())
        }),
{
    store::all_inside(store::sections_in(store::table_of(bytes)), bytes.len());
}

/// Bytes past the header that hash to something else than those of a store that opens are refused as
/// corrupt, whatever the change, wherever they lie: nothing is read from them.
pub proof fn changed_bodies_are_refused(good: Seq<u8>, changed: Seq<u8>, readable: bool, other: bool)
    requires
        store::opened(good, readable) is Ok,
        changed.len() >= 64,
        changed.take(64) == good.take(64),
        blake2::digest(changed.skip(64)) != blake2::digest(good.skip(64)),
    ensures
        store::opened(changed, other) == Err::<Contents, StoreError>(
            StoreError::Corrupt {
                found: blake2::digest(good.skip(64)),
                computed: blake2::digest(changed.skip(64)),
            },
        ),
{
    let head = good.take(64);
    assert(changed.take(8) =~= head.take(8));
    assert(good.take(8) =~= head.take(8));
    assert(changed.subrange(8, 12) =~= head.subrange(8, 12));
    assert(good.subrange(8, 12) =~= head.subrange(8, 12));
    assert(changed.subrange(12, 16) =~= head.subrange(12, 16));
    assert(good.subrange(12, 16) =~= head.subrange(12, 16));
    assert(changed.subrange(16, 24) =~= head.subrange(16, 24));
    assert(good.subrange(16, 24) =~= head.subrange(16, 24));
}

/// A section of a store that opens has the bytes that the table says, and goes by the name it was asked
/// for by.
pub proof fn sections_are_what_the_table_says(bytes: Seq<u8>, readable: bool, name: Seq<char>)
    requires
        store::opened(bytes, readable) is Ok,
    ensures
        store::find(store::opened(bytes, readable)->Ok_0.sections, name) matches Some(section) ==> {
            &&& store::shown(section.name) == name
            &&& section.offset + section.length <= bytes.len()
            &&& store::bytes_of(store::opened(bytes, readable)->Ok_0, section).len()
                == section.length
        },
{
    let c = store::opened(bytes, readable)->Ok_0;
    opened_stores_are_whole(bytes, readable);
    store::found_is_there(c.sections, name);
    if let Some(section) = store::find(c.sections, name) {
        let i = choose|i: int| 0 <= i < c.sections.len() && c.sections[i] == section;
        assert(store::inside(c.sections[i], bytes.len()));
    }
}

/// A table that was built from a store gives the store back over the bytes it was built from.
pub proof fn tables_give_back_their_store(c: Contents)
    ensures
        store::described_by(store::described(c), c.bytes) == c,
        store::described(c).len == c.bytes.len(),
{
}

/// A column is read at the width that the writer declared for it, or refused: never reinterpreted.
pub proof fn columns_are_read_at_their_width<T: Element>(
    c: Contents,
    name: &'static str,
    readable: bool,
)
    requires
        store::find(c.sections, name@) is Some,
    ensures
        ({
            let section = store::find(c.sections, name@)->0;
            &&& section.width != T::width() ==> (store::column_of::<T>(c, name, readable) matches Err(
                StoreError::WidthMismatch { .. },
            ))
            &&& store::column_of::<T>(c, name, readable) matches Ok(column) ==> section.width
                == T::width()
        }),
{
}

/// A key tells what a title is and its id, and movies come before series.
pub proof fn keys_tell_titles_apart(media: u8, id: u32, other: u8, other_id: u32)
    ensures
        store::title_key(media, id) == store::title_key(other, other_id) <==> media == other && id
            == other_id,
        media < other ==> store::title_key(media, id) < store::title_key(other, other_id),
{
}

/// Where keys ascend, a title that is there is found, at its only row.
pub proof fn titles_are_found_at_their_row(
    keys: Seq<u64>,
    media: u8,
    id: u32,
    found: Option<Row>,
    i: int,
)
    requires
        forall|a: int, b: int|
            #![trigger keys[a], keys[b]]
            0 <= a < b < keys.len() ==> keys[a] < keys[b],
        store::row_found(keys, media, id, found),
        0 <= i < keys.len(),
        keys[i] == store::title_key(media, id),
    ensures
        found matches Some(row) && row.0 == i,
{
    assert(store::sorted(keys));
    if let Some(row) = found {
        assert(keys[row.0 as int] == keys[i]);
    }
}

/// The absent id resolves to nothing, in any table.
pub proof fn absent_never_resolves(s: Spans<u8>)
    ensures
        store::string_of(s, NONE_U32) is None,
{
}

/// A row that the offsets cannot describe owns nothing.
pub proof fn impossible_rows_are_empty<T>(s: Spans<T>, i: int)
    requires
        i + 1 >= s.offsets.len(),
    ensures
        store::span(s, i) == Seq::<T>::empty(),
{
}

/// A title of a version 1 store is in one series or in none.
pub proof fn single_franchises_are_lists_of_one(column: Seq<u32>, i: int)
    requires
        0 <= i,
    ensures
        i < column.len() && column[i] != NONE_U32 ==> store::series_of(Series::Single(column), i)
            == seq![column[i]],
        i >= column.len() || column[i] == NONE_U32 ==> store::series_of(Series::Single(column), i)
            == Seq::<u32>::empty(),
{
}

/// A store without the optional studio sections has no iconic studios, which is no error.
pub proof fn missing_studios_are_none(c: Contents, qa: bool, na: bool, va: bool, oa: bool)
    requires
        store::find(c.sections, "studio_qid"@) is None,
    ensures
        store::studios_of(c, qa, na, va, oa) matches Ok(studios) && studios.qids.len() == 0,
{
}

// ---------------------------------------------------------------------------------------------------
// Two calls.
//
// Whether the machine can read bytes in place is settled anew by each call, so each call has a flag of its
// own for it. Two calls that got the same answer from the machine agree; if they did not, one of them was
// refused for that alone.

/// Two openings of the same bytes agree, unless the machine could not read the table in place for one.
pub proof fn openings_agree(bytes: Seq<u8>, a: bool, b: bool)
    ensures
        a == b ==> store::opened(bytes, a) == store::opened(bytes, b),
        store::opened(bytes, a) == store::opened(bytes, b) || store::opened(bytes, a) == Err::<
            Contents,
            StoreError,
        >(StoreError::SectionTable) || store::opened(bytes, b) == Err::<Contents, StoreError>(
            StoreError::SectionTable,
        ),
        store::opened(bytes, a) is Ok && store::opened(bytes, b) is Ok ==> store::opened(bytes, a)
            == store::opened(bytes, b),
{
}

/// Two reads of one column agree, unless the machine could not read it in place for one. One-byte elements
/// it always can.
pub proof fn column_reads_agree<T: Element>(c: Contents, name: &'static str, a: bool, b: bool)
    ensures
        a == b || T::width() == 1 ==> store::column_of::<T>(c, name, a) == store::column_of::<T>(
            c,
            name,
            b,
        ),
        store::column_of::<T>(c, name, a) == store::column_of::<T>(c, name, b) || refused(
            store::column_of::<T>(c, name, a),
            name,
        ) || refused(store::column_of::<T>(c, name, b), name),
{
}

/// Whether a section was refused as one that cannot be read in place.
pub open spec fn refused<T>(r: Result<T, StoreError>, name: &'static str) -> bool {
    r == Err::<T, StoreError>(StoreError::BadSection { name })
}

/// A column with one element per title is the column with its length checked: it reads exactly where the
/// column does and has that length, a column of another length is a mismatch that says both, and the
/// column's own error is handed on. `a` is what the machine answered the one call, `b` the other; where
/// they differ, one of the two was refused for it.
pub proof fn per_row_is_the_column_counted<T: Element>(
    c: Contents,
    name: &'static str,
    a: bool,
    b: bool,
)
    ensures
        ({
            let per_row = store::counted(store::column_of::<T>(c, name, a), name, c.rows);
            let column = store::column_of::<T>(c, name, b);
            &&& a == b || !(refused(per_row, name) || refused(column, name)) ==> {
                &&& per_row is Ok <==> column is Ok && column->Ok_0.len() == c.rows
                &&& per_row is Ok ==> per_row == column
                &&& column matches Ok(s) ==> s.len() != c.rows ==> per_row == Err::<
                    Seq<T>,
                    StoreError,
                >(
                    StoreError::RowMismatch {
                        name,
                        rows: store::at_most_usize(c.rows),
                        found: s.len() as usize,
                    },
                )
                &&& column matches Err(e) ==> per_row == Err::<Seq<T>, StoreError>(e)
            }
        }),
{
    column_reads_agree::<T>(c, name, a, b);
}

/// A list is its two columns. The offsets' error comes first, then that they are not one more than the
/// rows, even if the values are missing or bad, then the values' error. `va` and `oa` are what the machine
/// answered the list's own reads, `vb` and `ob` those of the columns by themselves.
pub proof fn lists_are_their_columns<T: Element>(
    c: Contents,
    values: &'static str,
    offsets: &'static str,
    n: nat,
    va: bool,
    oa: bool,
    vb: bool,
    ob: bool,
)
    ensures
        ({
            let list = store::spans_of::<T>(c, values, offsets, n, va, oa);
            let v = store::column_of::<T>(c, values, vb);
            let o = store::column_of::<u32>(c, offsets, ob);
            let same_answers = (oa == ob || !(refused(list, offsets) || refused(o, offsets))) && (va
                == vb || !(refused(list, values) || refused(v, values)));
            &&& same_answers ==> {
                &&& o matches Err(e) ==> list == Err::<Spans<T>, StoreError>(e)
                &&& o matches Ok(off) ==> off.len() != n + 1 ==> list == Err::<Spans<T>, StoreError>(
                    StoreError::RowMismatch {
                        name: offsets,
                        rows: store::at_most_usize(n + 1),
                        found: off.len() as usize,
                    },
                )
                &&& o matches Ok(off) ==> off.len() == n + 1 ==> (v matches Err(e) ==> list
                    == Err::<Spans<T>, StoreError>(e))
                &&& o matches Ok(off) ==> off.len() == n + 1 ==> (v matches Ok(val) ==> list
                    == Ok::<Spans<T>, StoreError>(Spans { values: val, offsets: off }))
            }
        }),
{
    column_reads_agree::<T>(c, values, va, vb);
    column_reads_agree::<u32>(c, offsets, oa, ob);
}

/// The franchises are what the store's own layout says, and the other layout's sections are never
/// consulted: in version 1 the per-title column or its error, in version 2 the list or its error. `va` and
/// `oa` are what the machine answered the one call, `vb` and `ob` the other.
pub proof fn franchises_go_by_the_layout(c: Contents, va: bool, oa: bool, vb: bool, ob: bool)
    ensures
        ({
            let franchises = store::franchises_of(c, va, oa);
            let single = store::counted(
                store::column_of::<u32>(c, "franchise", vb),
                "franchise",
                c.rows,
            );
            let list = store::spans_of::<u32>(c, "franchise_v", "franchise_o", c.rows, vb, ob);
            &&& c.format_version == 1 && (va == vb || !(refused(franchises, "franchise") || refused(
                single,
                "franchise",
            ))) ==> franchises == (match single {
                Ok(column) => Ok(Series::Single(column)),
                Err(e) => Err(e),
            })
            &&& c.format_version == 2 && (va == vb || !(refused(franchises, "franchise_v")
                || refused(list, "franchise_v"))) && (oa == ob || !(refused(
                franchises,
                "franchise_o",
            ) || refused(list, "franchise_o"))) ==> franchises == (match list {
                Ok(spans) => Ok(Series::List(spans)),
                Err(e) => Err(e),
            })
        }),
{
    column_reads_agree::<u32>(c, "franchise", va, vb);
    column_reads_agree::<u32>(c, "franchise_v", va, vb);
    column_reads_agree::<u32>(c, "franchise_o", oa, ob);
}

/// A table exists exactly for bytes that open, and says what their store does: no table exists for bytes
/// that fail the check. `a` is what the machine answered when the table was built, `b` when the store was
/// opened; where they differ, one of the two was refused for it.
pub proof fn tables_exist_for_what_opens(
    bytes: Seq<u8>,
    a: bool,
    b: bool,
    table: Result<StoreTable, StoreError>,
    store: Result<Store<'_>, StoreError>,
)
    requires
        store::table_built(store::opened(bytes, a), table),
        store::store_seen(store) == store::opened(bytes, b),
    ensures
        a == b || !(table matches Err(StoreError::SectionTable)) && !(store matches Err(
            StoreError::SectionTable,
        )) ==> {
            &&& table is Err <==> store is Err
            &&& table matches Err(e) ==> store->Err_0 == e
        },
        table matches Ok(t) ==> (store matches Ok(s) ==> t.description() == store::described(s@)),
        table matches Ok(t) ==> (store matches Ok(s) ==> t.description().rows == s@.rows
            && t.description().dataset_version == s@.dataset_version),
        table is Ok ==> store::declared_hash(bytes) == blake2::digest(bytes.skip(64)),
{
    openings_agree(bytes, a, b);
}

/// A view over the bytes that a table was built from cannot be told from their store: it says the same, its
/// sections are the same bytes, and its columns the same elements, widths and errors included. `x` is what
/// the machine answered the view's read of a column, `y` the store's.
pub proof fn views_are_their_store<T: Element>(
    bytes: Seq<u8>,
    a: bool,
    b: bool,
    table: StoreTable,
    store: Store<'_>,
    view: Store<'_>,
    name: &'static str,
    x: bool,
    y: bool,
)
    requires
        store::table_built(store::opened(bytes, a), Ok(table)),
        store::store_seen(Ok(store)) == store::opened(bytes, b),
        view@ == store::described_by(table.description(), bytes),
    ensures
        view@ == store@,
        store::section_of(view@, name) == store::section_of(store@, name),
        x == y ==> store::column_of::<T>(view@, name, x) == store::column_of::<T>(store@, name, y),
        store::column_of::<T>(view@, name, x) == store::column_of::<T>(store@, name, y) || refused(
            store::column_of::<T>(view@, name, x),
            name,
        ) || refused(store::column_of::<T>(store@, name, y), name),
{
    openings_agree(bytes, a, b);
    column_reads_agree::<T>(store@, name, x, y);
}

// ---------------------------------------------------------------------------------------------------
// Lists.

/// Whether offsets describe a span for every row, from the first value to the last.
pub open spec fn sound<T>(s: Spans<T>) -> bool {
    &&& s.offsets.len() > 0
    &&& s.offsets[0] == 0
    &&& s.offsets.last() == s.values.len()
    &&& forall|i: int, j: int|
        #![trigger s.offsets[i], s.offsets[j]]
        0 <= i <= j < s.offsets.len() ==> s.offsets[i] <= s.offsets[j]
}

/// The spans of the first `n` rows, one after the other.
pub open spec fn joined<T>(s: Spans<T>, n: nat) -> Seq<T>
    decreases n,
{
    if n == 0 {
        seq![]
    } else {
        joined(s, (n - 1) as nat) + store::span(s, n - 1)
    }
}

/// The first rows own the first values.
proof fn first_rows_own_the_first_values<T>(s: Spans<T>, n: nat)
    requires
        sound(s),
        n < s.offsets.len(),
    ensures
        joined(s, n) == s.values.take(s.offsets[n as int] as int),
    decreases n,
{
    let last = s.offsets[s.offsets.len() - 1];
    assert(s.offsets[n as int] <= last);
    if n == 0 {
        assert(joined(s, n) =~= s.values.take(0));
    } else {
        first_rows_own_the_first_values(s, (n - 1) as nat);
        assert(s.offsets[n - 1] <= s.offsets[n as int]);
        assert(joined(s, n) =~= s.values.take(s.offsets[n as int] as int));
    }
}

/// The rows of a list with sound offsets are together its values: every value belongs to one row, in order.
pub proof fn rows_share_out_the_values<T>(s: Spans<T>)
    requires
        sound(s),
    ensures
        joined(s, (s.offsets.len() - 1) as nat) == s.values,
{
    first_rows_own_the_first_values(s, (s.offsets.len() - 1) as nat);
    assert(s.values.take(s.values.len() as int) =~= s.values);
}

} // verus!
