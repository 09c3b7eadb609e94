//! Text: comparing it, reading it out of bytes, and writing numbers into it.

use vstd::prelude::*;
use vstd::string::{StrSliceExecFns, StringExecFns};

verus! {

/// Whether `a` comes before `b`, byte by byte, a prefix before what it starts.
pub open spec fn bytes_less(a: Seq<u8>, b: Seq<u8>) -> bool
    decreases a.len(),
{
    if b.len() == 0 {
        false
    } else if a.len() == 0 {
        true
    } else if a[0] != b[0] {
        a[0] < b[0]
    } else {
        bytes_less(a.drop_first(), b.drop_first())
    }
}

/// Whether `a` comes before `b` in the order of their UTF-8 bytes.
pub open spec fn less(a: Seq<char>, b: Seq<char>) -> bool {
    bytes_less(vstd::utf8::encode_utf8(a), vstd::utf8::encode_utf8(b))
}

/// No byte string comes before itself.
proof fn bytes_less_irreflexive(a: Seq<u8>)
    ensures
        !bytes_less(a, a),
    decreases a.len(),
{
    if a.len() > 0 {
        bytes_less_irreflexive(a.drop_first());
    }
}

/// Of two different byte strings exactly one comes before the other.
proof fn bytes_less_total(a: Seq<u8>, b: Seq<u8>)
    ensures
        a != b ==> (bytes_less(a, b) <==> !bytes_less(b, a)),
    decreases a.len(),
{
    if a.len() > 0 && b.len() > 0 {
        if a[0] == b[0] {
            bytes_less_total(a.drop_first(), b.drop_first());
            if a.drop_first() == b.drop_first() {
                assert(a =~= seq![a[0]] + a.drop_first());
                assert(b =~= seq![b[0]] + b.drop_first());
            }
        }
    } else if a.len() == 0 && b.len() == 0 {
        assert(a =~= b);
    }
}

/// The order of byte strings is transitive.
proof fn bytes_less_transitive(a: Seq<u8>, b: Seq<u8>, c: Seq<u8>)
    requires
        bytes_less(a, b),
        bytes_less(b, c),
    ensures
        bytes_less(a, c),
    decreases a.len(),
{
    if a.len() > 0 && a[0] == b[0] && b[0] == c[0] {
        bytes_less_transitive(a.drop_first(), b.drop_first(), c.drop_first());
    }
}

/// Texts with the same bytes are the same text.
pub proof fn encoding_is_injective(a: Seq<char>, b: Seq<char>)
    ensures
        vstd::utf8::encode_utf8(a) == vstd::utf8::encode_utf8(b) ==> a == b,
{
    vstd::utf8::encode_utf8_decode_utf8(a);
    vstd::utf8::encode_utf8_decode_utf8(b);
}

/// The order of texts is a strict total order.
pub proof fn less_is_a_strict_total_order(a: Seq<char>, b: Seq<char>, c: Seq<char>)
    ensures
        !less(a, a),
        a != b ==> (less(a, b) <==> !less(b, a)),
        less(a, b) && less(b, c) ==> less(a, c),
{
    let x = vstd::utf8::encode_utf8(a);
    let y = vstd::utf8::encode_utf8(b);
    let z = vstd::utf8::encode_utf8(c);
    bytes_less_irreflexive(x);
    bytes_less_total(x, y);
    encoding_is_injective(a, b);
    if less(a, b) && less(b, c) {
        bytes_less_transitive(x, y, z);
    }
}

/// Whether two byte strings are the same.
pub fn same_bytes(a: &[u8], b: &[u8]) -> (same: bool)
    ensures
        same == (a@ == b@),
{
    if a.len() != b.len() {
        return false;
    }
    for i in 0..a.len()
        invariant
            a@.len() == b@.len(),
            forall|j: int| 0 <= j < i ==> a@[j] == b@[j],
    {
        if a[i] != b[i] {
            return false;
        }
    }
    assert(a@ =~= b@);
    true
}

/// Whether two texts are the same.
pub fn same(a: &str, b: &str) -> (same: bool)
    ensures
        same == (a@ == b@),
{
    proof {
        encoding_is_injective(a@, b@);
    }
    same_bytes(a.as_bytes(), b.as_bytes())
}

/// Whether `a` comes before `b` in the order of their UTF-8 bytes.
pub fn precedes(a: &str, b: &str) -> (r: bool)
    ensures
        r == less(a@, b@),
{
    let x: &[u8] = a.as_bytes();
    let y: &[u8] = b.as_bytes();
    let mut i: usize = 0;
    assert(x@.skip(0) =~= x@);
    assert(y@.skip(0) =~= y@);
    while i < x.len() && i < y.len()
        invariant
            i <= x@.len(),
            i <= y@.len(),
            x@ == vstd::utf8::encode_utf8(a@),
            y@ == vstd::utf8::encode_utf8(b@),
            bytes_less(x@, y@) == bytes_less(x@.skip(i as int), y@.skip(i as int)),
        decreases x@.len() - i,
    {
        if x[i] != y[i] {
            assert(x@.skip(i as int)[0] == x@[i as int]);
            assert(y@.skip(i as int)[0] == y@[i as int]);
            return x[i] < y[i];
        }
        assert(x@.skip(i as int).drop_first() =~= x@.skip(i + 1));
        assert(y@.skip(i as int).drop_first() =~= y@.skip(i + 1));
        i += 1;
    }
    i < y.len()
}

/// The text that `bytes` hold, if they are UTF-8.
///
/// Calls `core::str::from_utf8`, which is trusted to accept exactly the valid UTF-8 and to hand back the
/// characters that it encodes.
#[verifier::external_body]
pub(crate) fn from_utf8(bytes: &[u8]) -> (text: Option<&str>)
    ensures
        match text {
            Some(t) => vstd::utf8::valid_utf8(bytes@) && t@ == vstd::utf8::decode_utf8(bytes@),
            None => !vstd::utf8::valid_utf8(bytes@),
        },
{
    core::str::from_utf8(bytes).ok()
}

/// The digit of a value below sixteen, in lower case.
pub open spec fn digit(d: nat) -> char {
    if d < 10 {
        ('0' as u32 + d) as char
    } else {
        ('a' as u32 + (d - 10)) as char
    }
}

/// A number in a base, without leading zeros.
pub open spec fn in_base(n: nat, base: nat) -> Seq<char>
    decreases n,
{
    if base < 2 {
        seq![]
    } else if n < base {
        seq![digit(n)]
    } else {
        proof {
            assert(n / base < n) by (nonlinear_arith)
                requires
                    base >= 2,
                    n >= base,
            ;
        }
        in_base(n / base, base).push(digit(n % base))
    }
}

/// A number in decimal.
pub open spec fn decimal(n: nat) -> Seq<char> {
    in_base(n, 10)
}

/// A number in hexadecimal, without a prefix.
pub open spec fn hexadecimal(n: nat) -> Seq<char> {
    in_base(n, 16)
}

/// `text` after as many zeros as bring it to `width` characters.
pub open spec fn zero_padded(text: Seq<char>, width: nat) -> Seq<char> {
    if text.len() >= width {
        text
    } else {
        Seq::new((width - text.len()) as nat, |i: int| '0') + text
    }
}

/// The digit of a value below sixteen, as text.
fn digit_text(d: u64) -> (t: &'static str)
    requires
        d < 16,
    ensures
        t@ == seq![digit(d as nat)],
{
    proof {
        reveal_strlit("0");
        reveal_strlit("1");
        reveal_strlit("2");
        reveal_strlit("3");
        reveal_strlit("4");
        reveal_strlit("5");
        reveal_strlit("6");
        reveal_strlit("7");
        reveal_strlit("8");
        reveal_strlit("9");
        reveal_strlit("a");
        reveal_strlit("b");
        reveal_strlit("c");
        reveal_strlit("d");
        reveal_strlit("e");
        reveal_strlit("f");
    }
    match d {
        0 => "0",
        1 => "1",
        2 => "2",
        3 => "3",
        4 => "4",
        5 => "5",
        6 => "6",
        7 => "7",
        8 => "8",
        9 => "9",
        10 => "a",
        11 => "b",
        12 => "c",
        13 => "d",
        14 => "e",
        _ => "f",
    }
}

/// Writes a number in a base.
pub fn number_in(n: u64, base: u64) -> (t: String)
    requires
        2 <= base <= 16,
    ensures
        t@ == in_base(n as nat, base as nat),
    decreases n,
{
    if n < base {
        digit_text(n).to_owned()
    } else {
        proof {
            assert(n / base < n) by (nonlinear_arith)
                requires
                    base >= 2,
                    n >= base,
            ;
        }
        let mut t: String = number_in(n / base, base);
        let d: &'static str = digit_text(n % base);
        proof {
            let t0 = t@;
            assert(t0 + d@ =~= t0.push(digit((n % base) as nat)));
        }
        t.append(d);
        t
    }
}

/// Writes a number in decimal.
pub fn decimal_of(n: u64) -> (t: String)
    ensures
        t@ == decimal(n as nat),
{
    number_in(n, 10)
}

/// Writes a number in hexadecimal, at least `width` digits of it, after `0x`.
pub fn prefixed_hexadecimal(n: u64, width: usize) -> (t: String)
    ensures
        t@ == "0x"@ + zero_padded(hexadecimal(n as nat), width as nat),
{
    let digits: String = number_in(n, 16);
    let mut t: String = "0x".to_owned();
    let mut length: usize = digits.as_str().unicode_len();
    while length < width
        invariant
            digits@.len() <= length,
            digits@.len() < width ==> length <= width,
            digits@.len() >= width ==> length == digits@.len(),
            t@ == "0x"@ + Seq::new((length - digits@.len()) as nat, |i: int| '0'),
        decreases width - length,
    {
        t.append(digit_text(0));
        proof {
            assert(t@ =~= "0x"@ + Seq::new((length + 1 - digits@.len()) as nat, |i: int| '0'));
        }
        length += 1;
    }
    t.append(digits.as_str());
    assert(t@ =~= "0x"@ + zero_padded(digits@, width as nat));
    t
}

/// What a digit is worth: those after nine are letters.
pub open spec fn digit_worth(c: char) -> int {
    if '0' <= c <= '9' {
        c as int - '0' as int
    } else {
        c as int - 'a' as int + 10
    }
}

/// What digits are worth, the last one counting ones.
pub open spec fn worth(digits: Seq<char>, base: int) -> int
    decreases digits.len(),
{
    if digits.len() == 0 {
        0
    } else {
        worth(digits.drop_last(), base) * base + digit_worth(digits.last())
    }
}

/// A number in a base has digits of the base that are worth it, at least one, and none too many: the first is
/// zero only if it is the only one.
pub proof fn how_numbers_are_written(n: nat, base: nat)
    requires
        2 <= base <= 16,
    ensures
        worth(in_base(n, base), base as int) == n,
        in_base(n, base).len() >= 1,
        in_base(n, base)[0] == '0' <==> n == 0,
        n < base ==> in_base(n, base).len() == 1,
        forall|i: int|
            0 <= i < in_base(n, base).len() ==> digit_worth(#[trigger] in_base(n, base)[i]) < base && (
            '0' <= in_base(n, base)[i] <= '9' || 'a' <= in_base(n, base)[i] <= 'f'),
    decreases n,
{
    let t = in_base(n, base);
    if n < base {
        assert(t.drop_last() =~= seq![]);
        assert(worth(t.drop_last(), base as int) == 0);
        assert(digit_worth(t.last()) == n);
    } else {
        assert(n / base < n) by (nonlinear_arith)
            requires
                base >= 2,
                n >= base,
        ;
        how_numbers_are_written(n / base, base);
        let front = in_base(n / base, base);
        assert(n % base < base) by (nonlinear_arith)
            requires
                base >= 2,
        ;
        assert(t == front.push(digit(n % base)));
        assert(t.drop_last() =~= front);
        assert(digit_worth(digit(n % base)) == n % base);
        assert((n / base) * base + n % base == n) by (nonlinear_arith)
            requires
                base >= 2,
        ;
        assert(n / base != 0) by (nonlinear_arith)
            requires
                base >= 2,
                n >= base,
        ;
        assert(t[0] == front[0]);
        assert forall|i: int| 0 <= i < t.len() implies digit_worth(#[trigger] t[i]) < base && ('0'
            <= t[i] <= '9' || 'a' <= t[i] <= 'f') by {
            if i < front.len() {
                assert(t[i] == front[i]);
            }
        }
    }
}

/// Numbers in decimal have digits from 0 to 9 that are worth the number, and no zero before them.
pub proof fn how_decimals_are_written(n: nat)
    ensures
        worth(decimal(n), 10) == n,
        decimal(n).len() >= 1,
        decimal(n)[0] == '0' ==> decimal(n).len() == 1 && n == 0,
        forall|i: int| 0 <= i < decimal(n).len() ==> '0' <= #[trigger] decimal(n)[i] <= '9',
{
    how_numbers_are_written(n, 10);
    assert forall|i: int| 0 <= i < decimal(n).len() implies '0' <= #[trigger] decimal(n)[i] <= '9' by {
        assert(digit_worth(in_base(n, 10)[i]) < 10);
    }
}

/// Numbers in hexadecimal have digits from 0 to 9 and from a to f that are worth the number, and no zero
/// before them.
pub proof fn how_hexadecimals_are_written(n: nat)
    ensures
        worth(hexadecimal(n), 16) == n,
        hexadecimal(n).len() >= 1,
        hexadecimal(n)[0] == '0' ==> hexadecimal(n).len() == 1 && n == 0,
        forall|i: int|
            0 <= i < hexadecimal(n).len() ==> '0' <= #[trigger] hexadecimal(n)[i] <= '9' || 'a'
                <= hexadecimal(n)[i] <= 'f',
{
    how_numbers_are_written(n, 16);
}

/// Padding brings a text to a width by zeros before it, and leaves a text of the width or more alone.
pub proof fn how_texts_are_padded(text: Seq<char>, width: nat, i: int)
    ensures
        text.len() >= width ==> zero_padded(text, width) == text,
        text.len() < width ==> {
            &&& zero_padded(text, width).len() == width
            &&& zero_padded(text, width).skip(width - text.len()) == text
            &&& 0 <= i < width - text.len() ==> zero_padded(text, width)[i] == '0'
        },
{
    if text.len() < width {
        assert(zero_padded(text, width).skip(width - text.len()) =~= text);
    }
}

} // verus!
