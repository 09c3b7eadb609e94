//! What a refused store says for itself.

use crate::store;
use crate::store::StoreError;
use crate::text;
use vstd::prelude::*;
use vstd::string::StringExecFns;

verus! {

/// A number in decimal.
pub open spec fn number(n: int) -> Seq<char> {
    text::decimal(n as nat)
}

/// The message of a refusal.
pub open spec fn message(e: StoreError) -> Seq<char> {
    match e {
        StoreError::TooSmall { need, got } => "store is "@ + number(got as int)
            + " bytes, needs at least "@ + number(need as int),
        StoreError::BadMagic => "not a den store (bad magic)"@,
        StoreError::Version { found, expected } => "store format version "@ + number(found as int)
            + ", this build reads "@ + number(store::OLDEST_FORMAT_VERSION as int) + " to "@ + number(
            expected as int,
        ),
        StoreError::Endianness { found } => "endianness marker "@ + ("0x"@ + text::hexadecimal(
            found as nat,
        )) + " — foreign writer"@,
        StoreError::Corrupt { found, computed } => "content hash "@ + ("0x"@ + text::zero_padded(
            text::hexadecimal(found as nat),
            16,
        )) + " but the bytes hash to "@ + ("0x"@ + text::zero_padded(
            text::hexadecimal(computed as nat),
            16,
        )),
        StoreError::SectionTable => "section table does not fit in the file"@,
        StoreError::SectionBounds { name } => "section "@ + store::shown(name@)
            + " extends past the end of the file"@,
        StoreError::MissingSection(name) => "store has no "@ + name@ + " section"@,
        StoreError::BadSection { name } => "section "@ + name@
            + " is misaligned or a partial element"@,
        StoreError::WidthMismatch { name, declared, requested } => "section "@ + name@ + " holds "@
            + number(declared as int) + "-byte elements, read as "@ + number(requested as int)
            + "-byte"@,
        StoreError::RowMismatch { name, rows, found } => "section "@ + name@ + " holds "@ + number(
            found as int,
        ) + " elements for "@ + number(rows as int) + " rows"@,
    }
}

/// Appends a number in decimal.
fn append_number(t: &mut String, n: u64)
    ensures
        final(t)@ == old(t)@ + number(n as int),
{
    let digits: String = text::decimal_of(n);
    t.append(digits.as_str());
}

impl StoreError {
    /// The message of the refusal.
    pub fn to_string(&self) -> (t: String)
        ensures
            t@ == message(*self),
    {
        match self {
            StoreError::TooSmall { need, got } => {
                let mut t: String = "store is ".to_owned();
                append_number(&mut t, *got as u64);
                t.append(" bytes, needs at least ");
                append_number(&mut t, *need as u64);
                t
            },
            StoreError::BadMagic => "not a den store (bad magic)".to_owned(),
            StoreError::Version { found, expected } => {
                let mut t: String = "store format version ".to_owned();
                append_number(&mut t, *found as u64);
                t.append(", this build reads ");
                append_number(&mut t, store::OLDEST_FORMAT_VERSION as u64);
                t.append(" to ");
                append_number(&mut t, *expected as u64);
                t
            },
            StoreError::Endianness { found } => {
                let mut t: String = "endianness marker ".to_owned();
                let digits: String = text::prefixed_hexadecimal(*found as u64, 0);
                t.append(digits.as_str());
                t.append(" — foreign writer");
                t
            },
            StoreError::Corrupt { found, computed } => {
                let mut t: String = "content hash ".to_owned();
                let one: String = text::prefixed_hexadecimal(*found, 16);
                t.append(one.as_str());
                t.append(" but the bytes hash to ");
                let other: String = text::prefixed_hexadecimal(*computed, 16);
                t.append(other.as_str());
                t
            },
            StoreError::SectionTable => "section table does not fit in the file".to_owned(),
            StoreError::SectionBounds { name } => {
                let mut t: String = "section ".to_owned();
                t.append(store::show(name.as_slice()));
                t.append(" extends past the end of the file");
                t
            },
            StoreError::MissingSection(name) => {
                let mut t: String = "store has no ".to_owned();
                t.append(name);
                t.append(" section");
                t
            },
            StoreError::BadSection { name } => {
                let mut t: String = "section ".to_owned();
                t.append(name);
                t.append(" is misaligned or a partial element");
                t
            },
            StoreError::WidthMismatch { name, declared, requested } => {
                let mut t: String = "section ".to_owned();
                t.append(name);
                t.append(" holds ");
                append_number(&mut t, *declared as u64);
                t.append("-byte elements, read as ");
                append_number(&mut t, *requested as u64);
                t.append("-byte");
                t
            },
            StoreError::RowMismatch { name, rows, found } => {
                let mut t: String = "section ".to_owned();
                t.append(name);
                t.append(" holds ");
                append_number(&mut t, *found as u64);
                t.append(" elements for ");
                append_number(&mut t, *rows as u64);
                t.append(" rows");
                t
            },
        }
    }
}

/// What a refusal says: what was found and what was wanted, each number in its place.
pub proof fn what_a_refusal_says(
    name: &'static str,
    field: [u8; 16],
    a: usize,
    b: usize,
    m: u32,
    n: u32,
    x: u64,
    y: u64,
)
    ensures
        message(StoreError::TooSmall { need: a, got: b }) == "store is "@ + text::decimal(b as nat)
            + " bytes, needs at least "@ + text::decimal(a as nat),
        message(StoreError::BadMagic) == "not a den store (bad magic)"@,
        message(StoreError::Version { found: m, expected: n }) == "store format version "@
            + text::decimal(m as nat) + ", this build reads "@ + text::decimal(1) + " to "@
            + text::decimal(n as nat),
        message(StoreError::Endianness { found: m }) == "endianness marker "@ + ("0x"@
            + text::hexadecimal(m as nat)) + " — foreign writer"@,
        message(StoreError::Corrupt { found: x, computed: y }) == "content hash "@ + ("0x"@
            + text::zero_padded(text::hexadecimal(x as nat), 16)) + " but the bytes hash to "@ + (
        "0x"@ + text::zero_padded(text::hexadecimal(y as nat), 16)),
        message(StoreError::SectionTable) == "section table does not fit in the file"@,
        message(StoreError::SectionBounds { name: field }) == "section "@ + store::field_text(
            field@,
            "?"@,
        ) + " extends past the end of the file"@,
        message(StoreError::MissingSection(name)) == "store has no "@ + name@ + " section"@,
        message(StoreError::BadSection { name }) == "section "@ + name@
            + " is misaligned or a partial element"@,
        message(StoreError::WidthMismatch { name, declared: m, requested: n }) == "section "@ + name@
            + " holds "@ + text::decimal(m as nat) + "-byte elements, read as "@ + text::decimal(
            n as nat,
        ) + "-byte"@,
        message(StoreError::RowMismatch { name, rows: a, found: b }) == "section "@ + name@
            + " holds "@ + text::decimal(b as nat) + " elements for "@ + text::decimal(a as nat)
            + " rows"@,
{
}

} // verus!
