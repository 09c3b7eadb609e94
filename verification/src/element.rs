//! The element types of a column, and the view of a section's bytes as a slice of them.
//!
//! A section is reached through `zerocopy`, which checks length and alignment before it hands back a
//! typed slice. It reads numbers in the machine's byte order. A store is little-endian: what a machine of
//! the other order reads in place are not the numbers that were written. A reader that cannot read a
//! section must say so rather than substitute something plausible, so such a column is refused like one
//! that is misaligned.

use crate::endian;
use vstd::prelude::*;
use zerocopy::FromBytes;

verus! {

/// A number of a fixed width, as a store spells it.
pub trait Number: Sized + Copy {
    /// Bytes in a number.
    spec fn width() -> nat;

    /// The number that `width` bytes spell, least significant byte first.
    spec fn decode(bytes: Seq<u8>) -> Self;

    /// Bytes in a number.
    fn size() -> (n: u32)
        ensures
            n == Self::width(),
            n > 0,
    ;

    /// The number at `at`.
    fn read(bytes: &[u8], at: usize) -> (n: Self)
        requires
            at + Self::width() <= bytes.len(),
        ensures
            n == Self::decode(bytes@.subrange(at as int, at + Self::width())),
    ;

    /// Whether two numbers are the same.
    fn same(self, other: Self) -> (r: bool)
        ensures
            r == (self == other),
    ;

    /// Different bytes spell different numbers.
    proof fn spells_once(a: Seq<u8>, b: Seq<u8>)
        requires
            a.len() == Self::width(),
            b.len() == Self::width(),
            Self::decode(a) == Self::decode(b),
        ensures
            a == b,
    ;
}

/// A number that a column can hold.
pub trait Element: Number {
    /// `bytes` as a slice of elements, without a copy.
    ///
    /// A part of an element at the end is refused. So is a slice that does not lie at an address where
    /// an element may, and one on a machine that reads its elements in another byte order: only one-byte
    /// elements may lie anywhere and read the same everywhere, and of the others nothing is said about
    /// when that happens. [`in_store_order`] says what comes of whatever the machine reads.
    fn cast<'a>(bytes: &'a [u8]) -> (column: Option<&'a [Self]>)
        ensures
            match column {
                Some(c) => bytes@.len() % Self::width() == 0 && c@ == elements::<Self>(bytes@),
                None => bytes@.len() % Self::width() != 0 || Self::width() != 1,
            },
    ;
}

/// The bytes of element `i`.
pub open spec fn element_bytes(bytes: Seq<u8>, width: nat, i: int) -> Seq<u8> {
    bytes.subrange(i * width, i * width + width)
}

/// The elements that a section's bytes spell.
pub open spec fn elements<T: Number>(bytes: Seq<u8>) -> Seq<T> {
    Seq::new(
        bytes.len() / T::width(),
        |i: int| T::decode(element_bytes(bytes, T::width(), i)),
    )
}

/// Bytes as a machine takes them: as they are if it has the least significant byte first, and backwards if
/// it has it last.
pub open spec fn taken(bytes: Seq<u8>, little: bool) -> Seq<u8> {
    if little {
        bytes
    } else {
        bytes.reverse()
    }
}

/// Whether a column is the numbers that bytes spell on a machine of one byte order.
pub open spec fn laid_out<T: Number>(column: Seq<T>, bytes: Seq<u8>, little: bool) -> bool {
    &&& bytes.len() == column.len() * T::width()
    &&& forall|i: int|
        0 <= i < column.len() ==> #[trigger] column[i] == T::decode(
            taken(element_bytes(bytes, T::width(), i), little),
        )
}

/// Two's complement: the signed number that `n` spells, if `half` is the first number whose sign bit is
/// set.
pub open spec fn signed(n: nat, half: nat) -> int {
    if n < half {
        n as int
    } else {
        n - 2 * half
    }
}

/// Where element `i` of `n` lies.
proof fn element_lies_inside(i: int, n: int, width: nat)
    requires
        0 <= i < n,
    ensures
        0 <= i * width,
        i * width + width <= n * width,
{
    assert(0 <= i * width && i * width + width <= n * width) by (nonlinear_arith)
        requires
            0 <= i < n,
            0 <= width,
    ;
}

/// A whole number of elements divides into as many.
proof fn elements_divide(n: nat, width: nat)
    requires
        width > 0,
    ensures
        (n * width) % width == 0,
        (n * width) / width == n,
{
    vstd::arithmetic::div_mod::lemma_mod_multiples_basic(n as int, width as int);
    vstd::arithmetic::div_mod::lemma_div_multiples_vanish(n as int, width as int);
    assert(n * width == width * n) by (nonlinear_arith);
}

/// A column in the store's byte order is the elements that its bytes spell.
proof fn little_is_the_store<T: Number>(column: Seq<T>, bytes: Seq<u8>)
    requires
        T::width() > 0,
        laid_out::<T>(column, bytes, true),
    ensures
        bytes.len() % T::width() == 0,
        column == elements::<T>(bytes),
{
    elements_divide(column.len(), T::width());
    assert(column =~= elements::<T>(bytes));
}

/// Whether the bytes of an element read the same from either end.
fn is_palindrome(bytes: &[u8], at: usize, width: usize) -> (r: bool)
    requires
        at + width <= bytes.len(),
    ensures
        r == (bytes@.subrange(at as int, at + width) == bytes@.subrange(
            at as int,
            at + width,
        ).reverse()),
{
    let ghost own = bytes@.subrange(at as int, at + width);
    for i in 0..width
        invariant
            at + width <= bytes.len(),
            own == bytes@.subrange(at as int, at + width),
            forall|j: int| 0 <= j < i ==> own[j] == own.reverse()[j],
    {
        assert(own[i as int] == bytes@[at + i]);
        assert(own.reverse()[i as int] == bytes@[at + (width - 1 - i)]);
        if bytes[at + i] != bytes[at + (width - 1 - i)] {
            return false;
        }
    }
    assert(own =~= own.reverse());
    true
}

/// Whether a column holds the numbers of the store, and not those numbers with their bytes backwards. The
/// first element that does not read the same from either end settles it.
fn is_in_store_order<T: Number>(column: &[T], bytes: &[u8]) -> (r: bool)
    requires
        laid_out::<T>(column@, bytes@, true) || laid_out::<T>(column@, bytes@, false),
    ensures
        r == laid_out::<T>(column@, bytes@, true),
{
    let width: usize = T::size() as usize;
    let n: usize = column.len();
    for i in 0..n
        invariant
            n == column@.len(),
            width == T::width(),
            bytes.len() == bytes@.len(),
            bytes@.len() == column@.len() * T::width(),
            laid_out::<T>(column@, bytes@, true) || laid_out::<T>(column@, bytes@, false),
            forall|j: int|
                0 <= j < i ==> #[trigger] column@[j] == T::decode(
                    element_bytes(bytes@, T::width(), j),
                ),
    {
        let ghost own = element_bytes(bytes@, T::width(), i as int);
        proof {
            element_lies_inside(i as int, n as int, T::width());
            assert(i * width == i * T::width());
        }
        let at: usize = i * width;
        if !column[i].same(T::read(bytes, at)) {
            return false;
        }
        if !is_palindrome(bytes, at, width) {
            proof {
                if laid_out::<T>(column@, bytes@, false) {
                    assert(column@[i as int] == T::decode(own.reverse()));
                    T::spells_once(own, own.reverse());
                }
            }
            return true;
        }
    }
    true
}

/// A column, if it holds the numbers of the store. `column` is the bytes as the machine reads them in place,
/// or `None` if it cannot: handed on if the machine has the store's byte order, and refused if not.
pub fn in_store_order<'a, T: Number>(column: Option<&'a [T]>, bytes: &[u8]) -> (r: Option<&'a [T]>)
    requires
        column matches Some(c) ==> laid_out::<T>(c@, bytes@, true) || laid_out::<T>(
            c@,
            bytes@,
            false,
        ),
    ensures
        r == (match column {
            Some(c) => if laid_out::<T>(c@, bytes@, true) {
                Some(c)
            } else {
                None
            },
            None => None,
        }),
        r matches Some(c) ==> bytes@.len() % T::width() == 0 && c@ == elements::<T>(bytes@),
{
    let size: u32 = T::size();
    match column {
        Some(c) => if is_in_store_order(c, bytes) {
            proof {
                little_is_the_store::<T>(c@, bytes@);
            }
            Some(c)
        } else {
            None
        },
        None => None,
    }
}

impl Number for u8 {
    open spec fn width() -> nat {
        1
    }

    open spec fn decode(bytes: Seq<u8>) -> u8 {
        bytes[0]
    }

    fn size() -> (n: u32) {
        1
    }

    fn read(bytes: &[u8], at: usize) -> (n: u8) {
        bytes[at]
    }

    fn same(self, other: u8) -> (r: bool) {
        self == other
    }

    proof fn spells_once(a: Seq<u8>, b: Seq<u8>) {
        assert(a =~= b);
    }
}

impl Element for u8 {
    fn cast<'a>(bytes: &'a [u8]) -> (column: Option<&'a [u8]>) {
        let column: Option<&'a [u8]> = cast_u8(bytes);
        proof {
            little_is_the_store::<u8>(column->0@, bytes@);
        }
        column
    }
}

/// `<[u8]>::ref_from_bytes` of `zerocopy`: the same bytes as a slice of one-byte numbers. It never
/// refuses: one-byte numbers divide every length and may lie anywhere.
#[verifier::external_body]
fn cast_u8(bytes: &[u8]) -> (column: Option<&[u8]>)
    ensures
        column is Some,
        laid_out::<u8>(column->0@, bytes@, true),
{
    <[u8]>::ref_from_bytes(bytes).ok()
}

impl Number for i8 {
    open spec fn width() -> nat {
        1
    }

    open spec fn decode(bytes: Seq<u8>) -> i8 {
        signed(bytes[0] as nat, 0x80) as i8
    }

    fn size() -> (n: u32) {
        1
    }

    fn read(bytes: &[u8], at: usize) -> (n: i8) {
        let n: u8 = bytes[at];
        if n < 0x80 {
            n as i8
        } else {
            (n as i64 - 0x100) as i8
        }
    }

    fn same(self, other: i8) -> (r: bool) {
        self == other
    }

    proof fn spells_once(a: Seq<u8>, b: Seq<u8>) {
        assert(a =~= b);
    }
}

impl Element for i8 {
    fn cast<'a>(bytes: &'a [u8]) -> (column: Option<&'a [i8]>) {
        let column: Option<&'a [i8]> = cast_i8(bytes);
        proof {
            little_is_the_store::<i8>(column->0@, bytes@);
        }
        column
    }
}

/// `<[i8]>::ref_from_bytes` of `zerocopy`: the same bytes as a slice of one-byte numbers. It never
/// refuses: one-byte numbers divide every length and may lie anywhere.
#[verifier::external_body]
fn cast_i8(bytes: &[u8]) -> (column: Option<&[i8]>)
    ensures
        column is Some,
        laid_out::<i8>(column->0@, bytes@, true),
{
    <[i8]>::ref_from_bytes(bytes).ok()
}

impl Number for u16 {
    open spec fn width() -> nat {
        2
    }

    open spec fn decode(bytes: Seq<u8>) -> u16 {
        endian::le(bytes) as u16
    }

    fn size() -> (n: u32) {
        2
    }

    fn read(bytes: &[u8], at: usize) -> (n: u16) {
        endian::read_u16(bytes, at)
    }

    fn same(self, other: u16) -> (r: bool) {
        self == other
    }

    proof fn spells_once(a: Seq<u8>, b: Seq<u8>) {
        endian::le_is_bounded(a);
        endian::le_is_bounded(b);
        endian::le_is_injective(a, b);
    }
}

impl Element for u16 {
    fn cast<'a>(bytes: &'a [u8]) -> (column: Option<&'a [u16]>) {
        in_store_order::<u16>(cast_u16(bytes), bytes)
    }
}

/// `<[u16]>::ref_from_bytes` of `zerocopy`: the same bytes as a slice of 2-byte numbers, in the machine's
/// byte order. It refuses if a part of a number is left over, or if the slice is not aligned for the
/// numbers. Which byte order the machine has, and when the address is at fault, is not stated.
#[verifier::external_body]
fn cast_u16(bytes: &[u8]) -> (column: Option<&[u16]>)
    ensures
        column matches Some(c) ==> laid_out::<u16>(c@, bytes@, true) || laid_out::<u16>(
            c@,
            bytes@,
            false,
        ),
{
    <[u16]>::ref_from_bytes(bytes).ok()
}

impl Number for i16 {
    open spec fn width() -> nat {
        2
    }

    open spec fn decode(bytes: Seq<u8>) -> i16 {
        signed(endian::le(bytes), 0x8000) as i16
    }

    fn size() -> (n: u32) {
        2
    }

    fn read(bytes: &[u8], at: usize) -> (n: i16) {
        let n: u16 = endian::read_u16(bytes, at);
        if n < 0x8000 {
            n as i16
        } else {
            (n as i64 - 0x10000) as i16
        }
    }

    fn same(self, other: i16) -> (r: bool) {
        self == other
    }

    proof fn spells_once(a: Seq<u8>, b: Seq<u8>) {
        endian::le_is_bounded(a);
        endian::le_is_bounded(b);
        endian::le_is_injective(a, b);
    }
}

impl Element for i16 {
    fn cast<'a>(bytes: &'a [u8]) -> (column: Option<&'a [i16]>) {
        in_store_order::<i16>(cast_i16(bytes), bytes)
    }
}

/// `<[i16]>::ref_from_bytes` of `zerocopy`: the same bytes as a slice of 2-byte numbers, in the machine's
/// byte order. It refuses if a part of a number is left over, or if the slice is not aligned for the
/// numbers. Which byte order the machine has, and when the address is at fault, is not stated.
#[verifier::external_body]
fn cast_i16(bytes: &[u8]) -> (column: Option<&[i16]>)
    ensures
        column matches Some(c) ==> laid_out::<i16>(c@, bytes@, true) || laid_out::<i16>(
            c@,
            bytes@,
            false,
        ),
{
    <[i16]>::ref_from_bytes(bytes).ok()
}

impl Number for u32 {
    open spec fn width() -> nat {
        4
    }

    open spec fn decode(bytes: Seq<u8>) -> u32 {
        endian::le(bytes) as u32
    }

    fn size() -> (n: u32) {
        4
    }

    fn read(bytes: &[u8], at: usize) -> (n: u32) {
        endian::read_u32(bytes, at)
    }

    fn same(self, other: u32) -> (r: bool) {
        self == other
    }

    proof fn spells_once(a: Seq<u8>, b: Seq<u8>) {
        endian::le_is_bounded(a);
        endian::le_is_bounded(b);
        endian::le_is_injective(a, b);
    }
}

impl Element for u32 {
    fn cast<'a>(bytes: &'a [u8]) -> (column: Option<&'a [u32]>) {
        in_store_order::<u32>(cast_u32(bytes), bytes)
    }
}

/// `<[u32]>::ref_from_bytes` of `zerocopy`: the same bytes as a slice of 4-byte numbers, in the machine's
/// byte order. It refuses if a part of a number is left over, or if the slice is not aligned for the
/// numbers. Which byte order the machine has, and when the address is at fault, is not stated.
#[verifier::external_body]
fn cast_u32(bytes: &[u8]) -> (column: Option<&[u32]>)
    ensures
        column matches Some(c) ==> laid_out::<u32>(c@, bytes@, true) || laid_out::<u32>(
            c@,
            bytes@,
            false,
        ),
{
    <[u32]>::ref_from_bytes(bytes).ok()
}

impl Number for i32 {
    open spec fn width() -> nat {
        4
    }

    open spec fn decode(bytes: Seq<u8>) -> i32 {
        signed(endian::le(bytes), 0x8000_0000) as i32
    }

    fn size() -> (n: u32) {
        4
    }

    fn read(bytes: &[u8], at: usize) -> (n: i32) {
        let n: u32 = endian::read_u32(bytes, at);
        if n < 0x8000_0000 {
            n as i32
        } else {
            (n as i64 - 0x100000000) as i32
        }
    }

    fn same(self, other: i32) -> (r: bool) {
        self == other
    }

    proof fn spells_once(a: Seq<u8>, b: Seq<u8>) {
        endian::le_is_bounded(a);
        endian::le_is_bounded(b);
        endian::le_is_injective(a, b);
    }
}

impl Element for i32 {
    fn cast<'a>(bytes: &'a [u8]) -> (column: Option<&'a [i32]>) {
        in_store_order::<i32>(cast_i32(bytes), bytes)
    }
}

/// `<[i32]>::ref_from_bytes` of `zerocopy`: the same bytes as a slice of 4-byte numbers, in the machine's
/// byte order. It refuses if a part of a number is left over, or if the slice is not aligned for the
/// numbers. Which byte order the machine has, and when the address is at fault, is not stated.
#[verifier::external_body]
fn cast_i32(bytes: &[u8]) -> (column: Option<&[i32]>)
    ensures
        column matches Some(c) ==> laid_out::<i32>(c@, bytes@, true) || laid_out::<i32>(
            c@,
            bytes@,
            false,
        ),
{
    <[i32]>::ref_from_bytes(bytes).ok()
}

impl Number for u64 {
    open spec fn width() -> nat {
        8
    }

    open spec fn decode(bytes: Seq<u8>) -> u64 {
        endian::le(bytes) as u64
    }

    fn size() -> (n: u32) {
        8
    }

    fn read(bytes: &[u8], at: usize) -> (n: u64) {
        endian::read_u64(bytes, at)
    }

    fn same(self, other: u64) -> (r: bool) {
        self == other
    }

    proof fn spells_once(a: Seq<u8>, b: Seq<u8>) {
        endian::le_is_bounded(a);
        endian::le_is_bounded(b);
        endian::le_is_injective(a, b);
    }
}

impl Element for u64 {
    fn cast<'a>(bytes: &'a [u8]) -> (column: Option<&'a [u64]>) {
        in_store_order::<u64>(cast_u64(bytes), bytes)
    }
}

/// `<[u64]>::ref_from_bytes` of `zerocopy`: the same bytes as a slice of 8-byte numbers, in the machine's
/// byte order. It refuses if a part of a number is left over, or if the slice is not aligned for the
/// numbers. Which byte order the machine has, and when the address is at fault, is not stated.
#[verifier::external_body]
fn cast_u64(bytes: &[u8]) -> (column: Option<&[u64]>)
    ensures
        column matches Some(c) ==> laid_out::<u64>(c@, bytes@, true) || laid_out::<u64>(
            c@,
            bytes@,
            false,
        ),
{
    <[u64]>::ref_from_bytes(bytes).ok()
}

impl Number for i64 {
    open spec fn width() -> nat {
        8
    }

    open spec fn decode(bytes: Seq<u8>) -> i64 {
        signed(endian::le(bytes), 0x8000_0000_0000_0000) as i64
    }

    fn size() -> (n: u32) {
        8
    }

    fn read(bytes: &[u8], at: usize) -> (n: i64) {
        let n: u64 = endian::read_u64(bytes, at);
        if n < 0x8000_0000_0000_0000 {
            n as i64
        } else {
            -((0xffff_ffff_ffff_ffff - n) as i64) - 1
        }
    }

    fn same(self, other: i64) -> (r: bool) {
        self == other
    }

    proof fn spells_once(a: Seq<u8>, b: Seq<u8>) {
        endian::le_is_bounded(a);
        endian::le_is_bounded(b);
        endian::le_is_injective(a, b);
    }
}

impl Element for i64 {
    fn cast<'a>(bytes: &'a [u8]) -> (column: Option<&'a [i64]>) {
        in_store_order::<i64>(cast_i64(bytes), bytes)
    }
}

/// `<[i64]>::ref_from_bytes` of `zerocopy`: the same bytes as a slice of 8-byte numbers, in the machine's
/// byte order. It refuses if a part of a number is left over, or if the slice is not aligned for the
/// numbers. Which byte order the machine has, and when the address is at fault, is not stated.
#[verifier::external_body]
fn cast_i64(bytes: &[u8]) -> (column: Option<&[i64]>)
    ensures
        column matches Some(c) ==> laid_out::<i64>(c@, bytes@, true) || laid_out::<i64>(
            c@,
            bytes@,
            false,
        ),
{
    <[i64]>::ref_from_bytes(bytes).ok()
}

} // verus!
