//! Sample-type and byte-order configuration of the binary codec.
//!
//! A byte buffer is decoded in fixed-width chunks; the chunk width and the
//! interpretation of each chunk are chosen by a `DataType`, and the byte
//! order within a chunk by an `Endianness`.  Both enums are cyclable so the
//! input layer can step through them.

use vstd::prelude::*;
use vstd::string::is_ascii;
use vstd::string::StrSliceExecFns;
use crate::codec::elem_width;
use crate::codec::pow256;
use crate::textfmt::all_digits;
use crate::textfmt::ascii_chars;
use crate::textfmt::ascii_string;
use crate::textfmt::digits_val;
use crate::textfmt::hex_pad;
use crate::textfmt::push_hex_pad;

verus! {

/// How a byte buffer is interpreted when it is decoded into samples.
///
/// `Text` and `Blob` have no fixed element width; they decode per byte so
/// that any buffer stays plottable.
#[derive(Debug, Clone, Copy, PartialEq, Eq, Structural)]
pub enum DataType {
    Int8,
    Int16,
    Int32,
    UInt8,
    UInt16,
    UInt32,
    Float32,
    Float64,
    Text,
    Blob,
}

/// Byte order of a multi-byte element.
#[derive(Debug, Clone, Copy, PartialEq, Eq, Structural)]
pub enum Endianness {
    Little,
    Big,
}

/// Position of a `DataType` in the fixed cycling order.
pub open spec fn type_index(t: DataType) -> int {
    match t {
        DataType::Int8 => 0,
        DataType::Int16 => 1,
        DataType::Int32 => 2,
        DataType::UInt8 => 3,
        DataType::UInt16 => 4,
        DataType::UInt32 => 5,
        DataType::Float32 => 6,
        DataType::Float64 => 7,
        DataType::Text => 8,
        DataType::Blob => 9,
    }
}

/// The `DataType` at a given position of the cycling order.
pub open spec fn type_at(i: int) -> DataType {
    if i == 0 {
        DataType::Int8
    } else if i == 1 {
        DataType::Int16
    } else if i == 2 {
        DataType::Int32
    } else if i == 3 {
        DataType::UInt8
    } else if i == 4 {
        DataType::UInt16
    } else if i == 5 {
        DataType::UInt32
    } else if i == 6 {
        DataType::Float32
    } else if i == 7 {
        DataType::Float64
    } else if i == 8 {
        DataType::Text
    } else {
        DataType::Blob
    }
}

/// Number of sample types in the cycling order.
pub open spec fn type_count() -> int {
    10
}

impl DataType {
    /// Fixed element width in bytes, or `None` for the variable-width kinds.
    pub fn byte_size(&self) -> (r: Option<usize>)
        ensures
            r == match *self {
                DataType::Int8 | DataType::UInt8 => Some(1usize),
                DataType::Int16 | DataType::UInt16 => Some(2usize),
                DataType::Int32 | DataType::UInt32 | DataType::Float32 => Some(4usize),
                DataType::Float64 => Some(8usize),
                DataType::Text | DataType::Blob => None::<usize>,
            },
    {
        match self {
            DataType::Int8 | DataType::UInt8 => Some(1),
            DataType::Int16 | DataType::UInt16 => Some(2),
            DataType::Int32 | DataType::UInt32 | DataType::Float32 => Some(4),
            DataType::Float64 => Some(8),
            DataType::Text | DataType::Blob => None,
        }
    }

    /// Every sample type, in cycling order.
    pub fn all() -> (r: Vec<DataType>)
        ensures
            r@.len() == type_count(),
            forall|i: int| 0 <= i < type_count() ==> r@[i] == type_at(i),
    {
        let mut v: Vec<DataType> = Vec::new();
        v.push(DataType::Int8);
        v.push(DataType::Int16);
        v.push(DataType::Int32);
        v.push(DataType::UInt8);
        v.push(DataType::UInt16);
        v.push(DataType::UInt32);
        v.push(DataType::Float32);
        v.push(DataType::Float64);
        v.push(DataType::Text);
        v.push(DataType::Blob);
        proof {
            assert(forall|i: int| 0 <= i < type_count() ==> v@[i] == type_at(i)) by {
                assert(v@[0] == type_at(0));
                assert(v@[1] == type_at(1));
                assert(v@[2] == type_at(2));
                assert(v@[3] == type_at(3));
                assert(v@[4] == type_at(4));
                assert(v@[5] == type_at(5));
                assert(v@[6] == type_at(6));
                assert(v@[7] == type_at(7));
                assert(v@[8] == type_at(8));
                assert(v@[9] == type_at(9));
            }
        }
        v
    }

    /// The next sample type in cycling order, wrapping at the end.
    pub fn next(&self) -> (r: DataType)
        ensures
            r == type_at((type_index(*self) + 1) % type_count()),
    {
        match self {
            DataType::Int8 => DataType::Int16,
            DataType::Int16 => DataType::Int32,
            DataType::Int32 => DataType::UInt8,
            DataType::UInt8 => DataType::UInt16,
            DataType::UInt16 => DataType::UInt32,
            DataType::UInt32 => DataType::Float32,
            DataType::Float32 => DataType::Float64,
            DataType::Float64 => DataType::Text,
            DataType::Text => DataType::Blob,
            DataType::Blob => DataType::Int8,
        }
    }

    /// The previous sample type in cycling order, wrapping at the start.
    pub fn prev(&self) -> (r: DataType)
        ensures
            r == type_at((type_index(*self) + type_count() - 1) % type_count()),
    {
        match self {
            DataType::Int8 => DataType::Blob,
            DataType::Int16 => DataType::Int8,
            DataType::Int32 => DataType::Int16,
            DataType::UInt8 => DataType::Int32,
            DataType::UInt16 => DataType::UInt8,
            DataType::UInt32 => DataType::UInt16,
            DataType::Float32 => DataType::UInt32,
            DataType::Float64 => DataType::Float32,
            DataType::Text => DataType::Float64,
            DataType::Blob => DataType::Text,
        }
    }
}

/// `type_at` and `type_index` are inverse to each other, so the cycling
/// order visits every sample type exactly once.
pub proof fn lemma_type_order_bijective(t: DataType, i: int)
    requires
        0 <= i < type_count(),
    ensures
        type_at(type_index(t)) == t,
        type_index(type_at(i)) == i,
{
}

/// Stepping forward and then back (or back and then forward) through the
/// sample-type cycle returns to the starting type.
pub proof fn lemma_type_cycle_roundtrip(t: DataType)
    ensures
        type_at(((type_index(t) + 1) % type_count() + type_count() - 1) % type_count()) == t,
        type_at(((type_index(t) + type_count() - 1) % type_count() + 1) % type_count()) == t,
{
}

/// The display label of a sample type.
pub open spec fn label_chars(t: DataType) -> Seq<char> {
    match t {
        DataType::Int8 => "int8"@,
        DataType::Int16 => "int16"@,
        DataType::Int32 => "int32"@,
        DataType::UInt8 => "uint8"@,
        DataType::UInt16 => "uint16"@,
        DataType::UInt32 => "uint32"@,
        DataType::Float32 => "float32"@,
        DataType::Float64 => "float64"@,
        DataType::Text => "string"@,
        DataType::Blob => "blob/hex"@,
    }
}

impl DataType {
    /// The display label of this sample type.
    pub fn label(&self) -> (r: &'static str)
        ensures
            r@ == label_chars(*self),
            is_ascii(r),
    {
        proof {
            reveal_strlit("int8");
            reveal_strlit("int16");
            reveal_strlit("int32");
            reveal_strlit("uint8");
            reveal_strlit("uint16");
            reveal_strlit("uint32");
            reveal_strlit("float32");
            reveal_strlit("float64");
            reveal_strlit("string");
            reveal_strlit("blob/hex");
        }
        match self {
            DataType::Int8 => "int8",
            DataType::Int16 => "int16",
            DataType::Int32 => "int32",
            DataType::UInt8 => "uint8",
            DataType::UInt16 => "uint16",
            DataType::UInt32 => "uint32",
            DataType::Float32 => "float32",
            DataType::Float64 => "float64",
            DataType::Text => "string",
            DataType::Blob => "blob/hex",
        }
    }
}

/// The display label of a byte order.
pub open spec fn endian_chars(e: Endianness) -> Seq<char> {
    match e {
        Endianness::Little => "LE"@,
        Endianness::Big => "BE"@,
    }
}

impl Endianness {
    /// The other byte order.
    pub fn toggle(&self) -> (r: Endianness)
        ensures
            r != *self,
            r.toggle_spec() == *self,
    {
        match self {
            Endianness::Little => Endianness::Big,
            Endianness::Big => Endianness::Little,
        }
    }

    /// What `toggle` returns.
    pub open spec fn toggle_spec(self) -> Endianness {
        match self {
            Endianness::Little => Endianness::Big,
            Endianness::Big => Endianness::Little,
        }
    }

    /// The display label of this byte order.
    pub fn label(&self) -> (r: &'static str)
        ensures
            r@ == endian_chars(*self),
            is_ascii(r),
    {
        proof {
            reveal_strlit("LE");
            reveal_strlit("BE");
        }
        match self {
            Endianness::Little => "LE",
            Endianness::Big => "BE",
        }
    }
}

/// Whether a buffer looks binary rather than displayable text: it holds a
/// control byte other than tab, newline or carriage return.
pub open spec fn spec_is_binary(b: Seq<u8>) -> bool {
    exists|i: int| 0 <= i < b.len()
        && b[i] < 0x20 && b[i] != 0x0a && b[i] != 0x0d && b[i] != 0x09
}

/// Whether a buffer looks binary rather than displayable text.  This gates
/// whether the value view shows a hex dump and whether a plot is attempted.
pub fn is_binary(bytes: &Vec<u8>) -> (r: bool)
    ensures
        r == spec_is_binary(bytes@),
{
    let mut i: usize = 0;
    while i < bytes.len()
        invariant
            i <= bytes@.len(),
            forall|k: int| 0 <= k < i ==> !(bytes@[k] < 0x20
                && bytes@[k] != 0x0a && bytes@[k] != 0x0d && bytes@[k] != 0x09),
        decreases bytes@.len() - i,
    {
        let b = bytes[i];
        if b < 0x20 && b != 0x0a && b != 0x0d && b != 0x09 {
            return true;
        }
        i += 1;
    }
    false
}

/// Whether a character separates tokens in user-entered value text.
pub open spec fn is_sep(c: char) -> bool {
    c == ',' || c == ' '
}

/// Whether a character is trimmed from a token's edges.
pub open spec fn is_ws(c: char) -> bool {
    c == ' ' || c == '\t' || c == '\n' || c == '\r'
}

/// A token with leading whitespace removed.
pub open spec fn trim_start_chars(t: Seq<char>) -> Seq<char>
    decreases t.len(),
{
    if t.len() > 0 && is_ws(t[0]) {
        trim_start_chars(t.drop_first())
    } else {
        t
    }
}

/// A token with trailing whitespace removed.
pub open spec fn trim_end_chars(t: Seq<char>) -> Seq<char>
    decreases t.len(),
{
    if t.len() > 0 && is_ws(t.last()) {
        trim_end_chars(t.drop_last())
    } else {
        t
    }
}

/// A token with whitespace removed from both edges.
pub open spec fn trim_chars(t: Seq<char>) -> Seq<char> {
    trim_end_chars(trim_start_chars(t))
}

/// Trim whitespace from both edges of a text.
pub fn trim_text(s: &str) -> (r: String)
    ensures
        r@ == trim_chars(s@),
{
    let n = s.unicode_len();
    proof {
        assert(s@.subrange(0, n as int) =~= s@);
    }
    let mut a: usize = 0;
    while a < n && is_ws_exec(s.get_char(a))
        invariant
            a <= n,
            n == s@.len(),
            trim_start_chars(s@) == trim_start_chars(s@.subrange(a as int, n as int)),
        decreases n - a,
    {
        proof {
            assert(s@.subrange(a as int, n as int).drop_first()
                =~= s@.subrange(a + 1, n as int));
        }
        a += 1;
    }
    proof {
        assert(s@.subrange(0, n as int) =~= s@);
        assert(trim_start_chars(s@.subrange(a as int, n as int))
            == s@.subrange(a as int, n as int));
    }
    let mut b: usize = n;
    while b > a && is_ws_exec(s.get_char(b - 1))
        invariant
            a <= b <= n,
            n == s@.len(),
            trim_end_chars(s@.subrange(a as int, n as int))
                == trim_end_chars(s@.subrange(a as int, b as int)),
        decreases b,
    {
        proof {
            assert(s@.subrange(a as int, b as int).drop_last()
                =~= s@.subrange(a as int, b - 1));
        }
        b -= 1;
    }
    proof {
        assert(trim_end_chars(s@.subrange(a as int, b as int))
            == s@.subrange(a as int, b as int));
    }
    let piece = s.substring_char(a, b);
    piece.to_owned()
}

/// Position of the first separator, or the length when there is none.
pub open spec fn first_sep(s: Seq<char>) -> nat
    decreases s.len(),
{
    if s.len() == 0 {
        0
    } else if is_sep(s[0]) {
        0
    } else {
        1 + first_sep(s.drop_first())
    }
}

/// `first_sep` finds the first separator.
pub proof fn lemma_first_sep(s: Seq<char>)
    ensures
        first_sep(s) <= s.len(),
        first_sep(s) < s.len() ==> is_sep(s[first_sep(s) as int]),
        forall|k: int| 0 <= k < first_sep(s) ==> !is_sep(s[k]),
    decreases s.len(),
{
    if s.len() > 0 && !is_sep(s[0]) {
        lemma_first_sep(s.drop_first());
        assert forall|k: int| 0 <= k < first_sep(s) implies !is_sep(s[k]) by {
            if k > 0 {
                assert(s.drop_first()[k - 1] == s[k]);
            }
        }
    }
}

/// A position before which no separator stands, and which holds one or is
/// the end, is the first separator position.
pub proof fn lemma_first_sep_at(s: Seq<char>, j: int)
    requires
        0 <= j <= s.len(),
        forall|k: int| 0 <= k < j ==> !is_sep(s[k]),
        j < s.len() ==> is_sep(s[j]),
    ensures
        first_sep(s) == j,
    decreases s.len(),
{
    if j == 0 {
    } else {
        assert(!is_sep(s[0]));
        lemma_first_sep_at(s.drop_first(), j - 1);
    }
}

/// A token sequence holding `t` when it is non-empty, and nothing when it
/// is empty.
pub open spec fn maybe_token(t: Seq<char>) -> Seq<Seq<char>> {
    if t.len() == 0 {
        Seq::empty()
    } else {
        seq![t]
    }
}

/// The tokens of user-entered value text: split on comma and space, each
/// piece trimmed, empty pieces dropped.
pub open spec fn spec_tokens(s: Seq<char>) -> Seq<Seq<char>>
    decreases s.len(),
{
    let i = first_sep(s);
    if i >= s.len() {
        maybe_token(trim_chars(s))
    } else {
        maybe_token(trim_chars(s.take(i as int))) + spec_tokens(s.skip(i as int + 1))
    }
}

/// Whether a character is a token separator, as executable code.
fn is_sep_exec(c: char) -> (r: bool)
    ensures
        r == is_sep(c),
{
    c == ',' || c == ' '
}

/// Whether a character is trimmed whitespace, as executable code.
fn is_ws_exec(c: char) -> (r: bool)
    ensures
        r == is_ws(c),
{
    c == ' ' || c == '\t' || c == '\n' || c == '\r'
}

/// Append the trimmed piece `s[p .. q]` to the token list when it is not
/// empty after trimming.
fn push_token(out: &mut Vec<String>, s: &str, p: usize, q: usize)
    requires
        p <= q <= s@.len(),
    ensures
        final(out)@.map_values(|x: String| x@)
            == old(out)@.map_values(|x: String| x@)
                + maybe_token(trim_chars(s@.subrange(p as int, q as int))),
{
    let ghost piece = s@.subrange(p as int, q as int);
    let mut a: usize = p;
    while a < q && is_ws_exec(s.get_char(a))
        invariant
            p <= a <= q <= s@.len(),
            piece == s@.subrange(p as int, q as int),
            trim_start_chars(piece) == trim_start_chars(s@.subrange(a as int, q as int)),
        decreases q - a,
    {
        proof {
            assert(s@.subrange(a as int, q as int).drop_first()
                =~= s@.subrange(a + 1, q as int));
        }
        a += 1;
    }
    proof {
        assert(trim_start_chars(s@.subrange(a as int, q as int))
            == s@.subrange(a as int, q as int));
    }
    let mut b: usize = q;
    while b > a && is_ws_exec(s.get_char(b - 1))
        invariant
            a <= b <= q <= s@.len(),
            trim_end_chars(s@.subrange(a as int, q as int))
                == trim_end_chars(s@.subrange(a as int, b as int)),
        decreases b,
    {
        proof {
            assert(s@.subrange(a as int, b as int).drop_last()
                =~= s@.subrange(a as int, b - 1));
        }
        b -= 1;
    }
    proof {
        assert(trim_end_chars(s@.subrange(a as int, b as int))
            == s@.subrange(a as int, b as int));
        assert(trim_chars(piece) == s@.subrange(a as int, b as int));
    }
    if a < b {
        let tok = s.substring_char(a, b);
        let owned: String = tok.to_owned();
        out.push(owned);
        proof {
            assert(final(out)@.map_values(|x: String| x@)
                =~= old(out)@.map_values(|x: String| x@).push(s@.subrange(a as int, b as int)));
            assert(old(out)@.map_values(|x: String| x@)
                + maybe_token(trim_chars(piece))
                =~= old(out)@.map_values(|x: String| x@).push(s@.subrange(a as int, b as int)));
        }
    } else {
        proof {
            assert(final(out)@.map_values(|x: String| x@)
                =~= old(out)@.map_values(|x: String| x@)
                    + maybe_token(trim_chars(piece)));
        }
    }
}

/// Split user-entered value text into tokens: pieces between commas and
/// spaces, trimmed, with empty pieces dropped.
pub fn tokenize(s: &str) -> (r: Vec<String>)
    ensures
        r@.map_values(|x: String| x@) == spec_tokens(s@),
{
    let n = s.unicode_len();
    let mut out: Vec<String> = Vec::new();
    let mut p: usize = 0;
    proof {
        assert(s@.skip(0) =~= s@);
        assert(out@.map_values(|x: String| x@) + spec_tokens(s@) =~= spec_tokens(s@));
    }
    while p < n
        invariant
            p <= n,
            n == s@.len(),
            out@.map_values(|x: String| x@) + spec_tokens(s@.skip(p as int)) == spec_tokens(s@),
        decreases n - p,
    {
        let mut q: usize = p;
        while q < n && !is_sep_exec(s.get_char(q))
            invariant
                p <= q <= n,
                n == s@.len(),
                forall|k: int| p <= k < q ==> !is_sep(s@[k]),
            decreases n - q,
        {
            q += 1;
        }
        let ghost rest = s@.skip(p as int);
        proof {
            assert(forall|k: int| 0 <= k < q - p ==> rest[k] == s@[k + p]);
            if q < n {
                assert(rest[q - p] == s@[q as int]);
            }
            lemma_first_sep_at(rest, q - p);
            assert(rest.take(q - p) =~= s@.subrange(p as int, q as int));
        }
        let ghost before = out@.map_values(|x: String| x@);
        push_token(&mut out, s, p, q);
        if q < n {
            proof {
                assert(rest.skip(q - p + 1) =~= s@.skip(q + 1));
                assert(spec_tokens(rest) == maybe_token(trim_chars(s@.subrange(p as int, q as int)))
                    + spec_tokens(s@.skip(q + 1)));
                assert(out@.map_values(|x: String| x@) + spec_tokens(s@.skip(q + 1))
                    =~= before + spec_tokens(rest));
            }
            p = q + 1;
        } else {
            proof {
                assert(rest =~= s@.subrange(p as int, q as int));
                assert(spec_tokens(rest) == maybe_token(trim_chars(rest)));
                assert(s@.skip(n as int) =~= Seq::<char>::empty());
                assert(spec_tokens(Seq::<char>::empty()) =~= Seq::<Seq<char>>::empty());
                assert(out@.map_values(|x: String| x@) + spec_tokens(s@.skip(n as int))
                    =~= before + spec_tokens(rest));
            }
            p = n;
        }
    }
    proof {
        assert(s@.skip(n as int) =~= Seq::<char>::empty());
        assert(spec_tokens(Seq::<char>::empty()) =~= Seq::<Seq<char>>::empty());
        assert(out@.map_values(|x: String| x@) + Seq::<Seq<char>>::empty()
            =~= out@.map_values(|x: String| x@));
    }
    out
}

/// Why a value edit was rejected.
#[derive(Debug, Clone, Copy, PartialEq, Eq, Structural)]
pub enum EncodeError {
    /// The input held no tokens.
    EmptyInput,
    /// A token did not parse as the element type, or fell out of its range.
    InvalidToken,
    /// The element type has no numeric encoding here: the per-byte kinds
    /// never have one, and the float kinds are encoded by the shell, which
    /// owns all floating-point arithmetic.
    UnsupportedType,
}

/// The sample types whose tokens this crate encodes itself.
pub open spec fn integer_type(t: DataType) -> bool {
    match t {
        DataType::Int8 | DataType::Int16 | DataType::Int32
            | DataType::UInt8 | DataType::UInt16 | DataType::UInt32 => true,
        _ => false,
    }
}

/// The raw chunk pattern a token denotes for a signed element type whose
/// values span `[-half, half)`, or `None` when it does not parse or does
/// not fit.  Mirrors the standard signed integer parser: an optional sign
/// followed by decimal digits.
pub open spec fn spec_signed_raw(tok: Seq<char>, half: int) -> Option<nat> {
    if tok.len() == 0 {
        None
    } else {
        let neg = tok[0] == '-';
        let digits = if tok[0] == '-' || tok[0] == '+' { tok.drop_first() } else { tok };
        if digits.len() == 0 || !all_digits(digits) {
            None
        } else {
            let v = digits_val(digits);
            if neg {
                if v <= half {
                    Some(((2 * half - v) % (2 * half)) as nat)
                } else {
                    None
                }
            } else {
                if v < half {
                    Some(v as nat)
                } else {
                    None
                }
            }
        }
    }
}

/// The raw chunk pattern a token denotes for an unsigned element type whose
/// values span `[0, full)`, or `None` when it does not parse or does not
/// fit.  Mirrors the standard unsigned integer parser: an optional plus
/// sign followed by decimal digits.
pub open spec fn spec_unsigned_raw(tok: Seq<char>, full: int) -> Option<nat> {
    if tok.len() == 0 {
        None
    } else {
        let digits = if tok[0] == '+' { tok.drop_first() } else { tok };
        if digits.len() == 0 || !all_digits(digits) {
            None
        } else if digits_val(digits) < full {
            Some(digits_val(digits) as nat)
        } else {
            None
        }
    }
}

/// The raw chunk pattern a token denotes under an element type, or `None`
/// when the token is rejected.
pub open spec fn spec_token_raw(tok: Seq<char>, t: DataType) -> Option<nat> {
    match t {
        DataType::Int8 => spec_signed_raw(tok, 0x80),
        DataType::Int16 => spec_signed_raw(tok, 0x8000),
        DataType::Int32 => spec_signed_raw(tok, 0x80000000),
        DataType::UInt8 => spec_unsigned_raw(tok, 0x100),
        DataType::UInt16 => spec_unsigned_raw(tok, 0x10000),
        DataType::UInt32 => spec_unsigned_raw(tok, 0x100000000),
        _ => None,
    }
}

/// An accepted signed token's raw pattern fits the chunk range.
proof fn lemma_signed_raw_fits(tok: Seq<char>, half: int)
    requires
        half > 0,
        spec_signed_raw(tok, half) is Some,
    ensures
        spec_signed_raw(tok, half).unwrap() < 2 * half,
{
    let digits = if tok[0] == '-' || tok[0] == '+' { tok.drop_first() } else { tok };
    crate::textfmt::lemma_digits_val_nonneg(digits);
    vstd::arithmetic::div_mod::lemma_mod_division_less_than_divisor(
        2 * half - digits_val(digits), 2 * half);
}

/// An accepted unsigned token's raw pattern fits the chunk range.
proof fn lemma_unsigned_raw_fits(tok: Seq<char>, full: int)
    requires
        full > 0,
        spec_unsigned_raw(tok, full) is Some,
    ensures
        spec_unsigned_raw(tok, full).unwrap() < full,
{
    let digits = if tok[0] == '+' { tok.drop_first() } else { tok };
    crate::textfmt::lemma_digits_val_nonneg(digits);
}

/// An accepted token's raw pattern fits its element width.
pub proof fn lemma_token_raw_fits(tok: Seq<char>, t: DataType)
    requires
        spec_token_raw(tok, t) is Some,
    ensures
        spec_token_raw(tok, t).unwrap() < pow256(elem_width(t)),
{
    crate::codec::lemma_pow256_widths();
    match t {
        DataType::Int8 => lemma_signed_raw_fits(tok, 0x80),
        DataType::Int16 => lemma_signed_raw_fits(tok, 0x8000),
        DataType::Int32 => lemma_signed_raw_fits(tok, 0x80000000),
        DataType::UInt8 => lemma_unsigned_raw_fits(tok, 0x100),
        DataType::UInt16 => lemma_unsigned_raw_fits(tok, 0x10000),
        DataType::UInt32 => lemma_unsigned_raw_fits(tok, 0x100000000),
        _ => {}
    }
}

/// Parse one token as a signed value spanning `[-half, half)` and return
/// its raw two's-complement chunk pattern.
fn parse_signed_raw(tok: &str, half: u64) -> (r: Option<u64>)
    requires
        2 <= half <= 0x80000000,
    ensures
        r is Some <==> spec_signed_raw(tok@, half as int) is Some,
        r is Some ==> r.unwrap() == spec_signed_raw(tok@, half as int).unwrap(),
{
    let n = tok.unicode_len();
    if n == 0 {
        return None;
    }
    let c0 = tok.get_char(0);
    let neg = c0 == '-';
    let start: usize = if c0 == '-' || c0 == '+' { 1 } else { 0 };
    proof {
        if start == 1 {
            assert(tok@.skip(1) =~= tok@.drop_first());
        } else {
            assert(tok@.skip(0) =~= tok@);
        }
    }
    let cap: u128 = if neg { half as u128 + 1 } else { half as u128 };
    match crate::textfmt::parse_digits(tok, start, cap) {
        None => None,
        Some(v) => {
            if neg {
                if v == 0 {
                    proof {
                        vstd::arithmetic::div_mod::lemma_mod_self_0(2 * half as int);
                    }
                    Some(0)
                } else {
                    proof {
                        vstd::arithmetic::div_mod::lemma_small_mod(
                            (2 * half - v) as nat, (2 * half) as nat);
                    }
                    Some(2 * half - v)
                }
            } else {
                Some(v)
            }
        }
    }
}

/// Parse one token as an unsigned value below `full` and return it.
fn parse_unsigned_raw(tok: &str, full: u64) -> (r: Option<u64>)
    requires
        2 <= full,
    ensures
        r is Some <==> spec_unsigned_raw(tok@, full as int) is Some,
        r is Some ==> r.unwrap() == spec_unsigned_raw(tok@, full as int).unwrap(),
{
    let n = tok.unicode_len();
    if n == 0 {
        return None;
    }
    let c0 = tok.get_char(0);
    let start: usize = if c0 == '+' { 1 } else { 0 };
    proof {
        if start == 1 {
            assert(tok@.skip(1) =~= tok@.drop_first());
        } else {
            assert(tok@.skip(0) =~= tok@);
        }
    }
    crate::textfmt::parse_digits(tok, start, full as u128)
}

/// Parse one token under an element type and return its raw chunk pattern.
fn parse_token_raw(tok: &str, t: DataType) -> (r: Option<u64>)
    ensures
        r is Some <==> spec_token_raw(tok@, t) is Some,
        r is Some ==> r.unwrap() == spec_token_raw(tok@, t).unwrap(),
{
    match t {
        DataType::Int8 => parse_signed_raw(tok, 0x80),
        DataType::Int16 => parse_signed_raw(tok, 0x8000),
        DataType::Int32 => parse_signed_raw(tok, 0x80000000),
        DataType::UInt8 => parse_unsigned_raw(tok, 0x100),
        DataType::UInt16 => parse_unsigned_raw(tok, 0x10000),
        DataType::UInt32 => parse_unsigned_raw(tok, 0x100000000),
        _ => None,
    }
}

/// Whether every token denotes a value of the element type.
pub open spec fn all_tokens_valid(toks: Seq<Seq<char>>, t: DataType) -> bool {
    forall|i: int| 0 <= i < toks.len() ==> (#[trigger] spec_token_raw(toks[i], t)) is Some
}

/// The raw chunk patterns all tokens denote.
pub open spec fn tokens_raw(toks: Seq<Seq<char>>, t: DataType) -> Seq<nat> {
    toks.map_values(|tok: Seq<char>| spec_token_raw(tok, t).unwrap())
}

/// Encode user-entered value text into a byte buffer: split it into
/// tokens, parse each one as the element type, and concatenate the
/// elements' chunks under the byte order.
///
/// Fails with `EmptyInput` when no token is left after splitting, with
/// `UnsupportedType` when the element type has no numeric encoding here,
/// and with `InvalidToken` when a token does not parse or does not fit.
pub fn encode_values(input: &str, data_type: DataType, endianness: Endianness)
    -> (r: Result<Vec<u8>, EncodeError>)
    ensures
        spec_tokens(input@).len() == 0 ==> r == Err::<Vec<u8>, EncodeError>(EncodeError::EmptyInput),
        spec_tokens(input@).len() > 0 && !integer_type(data_type)
            ==> r == Err::<Vec<u8>, EncodeError>(EncodeError::UnsupportedType),
        spec_tokens(input@).len() > 0 && integer_type(data_type)
            && !all_tokens_valid(spec_tokens(input@), data_type)
            ==> r == Err::<Vec<u8>, EncodeError>(EncodeError::InvalidToken),
        spec_tokens(input@).len() > 0 && integer_type(data_type)
            && all_tokens_valid(spec_tokens(input@), data_type)
            ==> (r matches Ok(bytes) && bytes@ == crate::codec::encoded_bytes(
                tokens_raw(spec_tokens(input@), data_type),
                elem_width(data_type),
                endianness)),
{
    let toks = tokenize(input);
    let ghost stoks = spec_tokens(input@);
    if toks.len() == 0 {
        return Err(EncodeError::EmptyInput);
    }
    let is_int = match data_type {
        DataType::Int8 | DataType::Int16 | DataType::Int32
            | DataType::UInt8 | DataType::UInt16 | DataType::UInt32 => true,
        _ => false,
    };
    if !is_int {
        return Err(EncodeError::UnsupportedType);
    }
    let mut raws: Vec<u64> = Vec::new();
    let mut i: usize = 0;
    while i < toks.len()
        invariant
            stoks == spec_tokens(input@),
            toks@.map_values(|x: String| x@) == stoks,
            integer_type(data_type),
            i <= toks@.len(),
            raws@.len() == i,
            forall|k: int| 0 <= k < i ==> (#[trigger] spec_token_raw(stoks[k], data_type)) is Some,
            forall|k: int| 0 <= k < i ==> raws@[k] == spec_token_raw(stoks[k], data_type).unwrap(),
        decreases toks@.len() - i,
    {
        proof {
            assert(toks@.map_values(|x: String| x@)[i as int] == toks@[i as int]@);
        }
        match parse_token_raw(toks[i].as_str(), data_type) {
            None => {
                return Err(EncodeError::InvalidToken);
            }
            Some(v) => {
                raws.push(v);
            }
        }
        i += 1;
    }
    proof {
        assert forall|k: int| 0 <= k < raws@.len()
            implies raws@[k] < pow256(elem_width(data_type)) by {
            lemma_token_raw_fits(stoks[k], data_type);
        }
    }
    let bytes = crate::codec::encode_raw(&raws, data_type, endianness);
    proof {
        assert(raws@.map_values(|v: u64| v as nat) =~= tokens_raw(stoks, data_type));
    }
    Ok(bytes)
}

/// The text of one decoded sample: its signed decimal value for the
/// integer and per-byte kinds, its raw chunk pattern in `0x` hexadecimal
/// for the float kinds, whose numeric rendering is the shell's.
pub open spec fn value_text(v: nat, t: DataType) -> Seq<u8> {
    if crate::codec::is_float_type(t) {
        seq![0x30u8, 0x78u8] + crate::textfmt::hex_pad(v, 2 * elem_width(t))
    } else {
        signed_dec(crate::codec::signed_of_raw(v, t))
    }
}

/// The decimal text of a signed value.
pub open spec fn signed_dec(i: int) -> Seq<u8> {
    if i < 0 {
        seq![0x2du8] + crate::textfmt::dec_bytes((-i) as nat)
    } else {
        crate::textfmt::dec_bytes(i as nat)
    }
}

/// The decoded samples joined with a comma and a space.
pub open spec fn joined_values(vs: Seq<nat>, t: DataType) -> Seq<u8>
    decreases vs.len(),
{
    if vs.len() == 0 {
        Seq::empty()
    } else if vs.len() == 1 {
        value_text(vs[0], t)
    } else {
        value_text(vs[0], t) + seq![0x2cu8, 0x20u8] + joined_values(vs.drop_first(), t)
    }
}

/// Appending one value to a joined run appends a separator (when the run
/// was non-empty) and the value's text.
pub proof fn lemma_joined_values_push(vs: Seq<nat>, x: nat, t: DataType)
    ensures
        vs.len() == 0 ==> joined_values(vs.push(x), t) == value_text(x, t),
        vs.len() > 0 ==> joined_values(vs.push(x), t)
            == joined_values(vs, t) + seq![0x2cu8, 0x20u8] + value_text(x, t),
    decreases vs.len(),
{
    let s = vs.push(x);
    if vs.len() == 0 {
        assert(s.len() == 1);
        assert(s[0] == x);
    } else {
        assert(s[0] == vs[0]);
        assert(s.drop_first() =~= vs.drop_first().push(x));
        lemma_joined_values_push(vs.drop_first(), x, t);
        if vs.len() == 1 {
            assert(vs.drop_first().len() == 0);
            assert(joined_values(s, t)
                =~= joined_values(vs, t) + seq![0x2cu8, 0x20u8] + value_text(x, t));
        } else {
            assert(joined_values(s, t)
                =~= joined_values(vs, t) + seq![0x2cu8, 0x20u8] + value_text(x, t));
        }
    }
}

/// Every byte of a value's text is ASCII.
proof fn lemma_value_text_ascii(v: nat, t: DataType)
    ensures
        forall|i: int| 0 <= i < value_text(v, t).len() ==> value_text(v, t)[i] < 0x80,
{
    if crate::codec::is_float_type(t) {
        crate::textfmt::lemma_hex_pad_ascii_bytes(v, 2 * elem_width(t));
        assert forall|i: int| 0 <= i < value_text(v, t).len()
            implies value_text(v, t)[i] < 0x80 by {
            if i >= 2 {
                assert(value_text(v, t)[i]
                    == crate::textfmt::hex_pad(v, 2 * elem_width(t))[i - 2]);
            }
        }
    } else {
        let sv = crate::codec::signed_of_raw(v, t);
        if sv < 0 {
            crate::textfmt::lemma_dec_pad_ascii((-sv) as nat, 1);
            assert forall|i: int| 0 <= i < value_text(v, t).len()
                implies value_text(v, t)[i] < 0x80 by {
                if i >= 1 {
                    assert(value_text(v, t)[i] == crate::textfmt::dec_bytes((-sv) as nat)[i - 1]);
                }
            }
        } else {
            crate::textfmt::lemma_dec_pad_ascii(sv as nat, 1);
        }
    }
}

/// Every byte of a joined value run is ASCII.
pub proof fn lemma_joined_values_ascii(vs: Seq<nat>, t: DataType)
    ensures
        forall|i: int| 0 <= i < joined_values(vs, t).len() ==> joined_values(vs, t)[i] < 0x80,
    decreases vs.len(),
{
    if vs.len() == 1 {
        lemma_value_text_ascii(vs[0], t);
    } else if vs.len() > 1 {
        lemma_value_text_ascii(vs[0], t);
        lemma_joined_values_ascii(vs.drop_first(), t);
        let head = value_text(vs[0], t);
        let rest = joined_values(vs.drop_first(), t);
        assert forall|i: int| 0 <= i < joined_values(vs, t).len()
            implies joined_values(vs, t)[i] < 0x80 by {
            if i < head.len() {
                assert(joined_values(vs, t)[i] == head[i]);
            } else if i >= head.len() + 2 {
                assert(joined_values(vs, t)[i] == rest[i - head.len() - 2]);
            }
        }
    }
}

/// Append the text of one decoded sample.
pub fn push_value_text(out: &mut Vec<u8>, v: u64, t: DataType)
    requires
        v < pow256(elem_width(t)),
    ensures
        final(out)@ == old(out)@ + value_text(v as nat, t),
{
    let is_float = match t {
        DataType::Float32 | DataType::Float64 => true,
        _ => false,
    };
    if is_float {
        out.push(0x30);
        out.push(0x78);
        let w = crate::codec::elem_width_exec(t);
        crate::textfmt::push_hex_pad(out, v, 2 * w);
        proof {
            assert(final(out)@ =~= old(out)@ + value_text(v as nat, t));
        }
    } else {
        let sv = crate::codec::raw_to_signed(v, t);
        if sv < 0 {
            out.push(0x2d);
            crate::textfmt::push_dec(out, (-sv) as u64);
            proof {
                assert(final(out)@ =~= old(out)@ + value_text(v as nat, t));
            }
        } else {
            crate::textfmt::push_dec(out, sv as u64);
        }
    }
}

/// The token-level half of the codec round trip: the text a decoded
/// integer sample is shown as parses back, under the same element type,
/// to exactly the raw pattern it came from.
pub proof fn lemma_sample_text_reparses(v: nat, t: DataType)
    requires
        integer_type(t),
        v < pow256(elem_width(t)),
    ensures
        spec_token_raw(ascii_chars(value_text(v, t)), t) == Some(v),
{
    crate::codec::lemma_pow256_widths();
    match t {
        DataType::Int8 => lemma_signed_text_reparses(v, 0x80),
        DataType::Int16 => lemma_signed_text_reparses(v, 0x8000),
        DataType::Int32 => lemma_signed_text_reparses(v, 0x80000000),
        DataType::UInt8 => lemma_unsigned_text_reparses(v, 0x100),
        DataType::UInt16 => lemma_unsigned_text_reparses(v, 0x10000),
        DataType::UInt32 => lemma_unsigned_text_reparses(v, 0x100000000),
        _ => {}
    }
}

/// An unsigned sample's decimal text parses back to the sample.
proof fn lemma_unsigned_text_reparses(v: nat, full: int)
    requires
        0 < full,
        v < full,
    ensures
        spec_unsigned_raw(ascii_chars(signed_dec(v as int)), full) == Some(v),
{
    let tok = ascii_chars(signed_dec(v as int));
    crate::textfmt::lemma_dec_pad_reparses(v, 1);
    assert(tok =~= ascii_chars(crate::textfmt::dec_bytes(v)));
    assert(crate::textfmt::is_digit(tok[0]));
    assert(tok[0] != '+');
}

/// A signed sample's decimal text parses back to its two's-complement
/// raw pattern.
proof fn lemma_signed_text_reparses(v: nat, half: int)
    requires
        0 < half,
        v < 2 * half,
    ensures
        spec_signed_raw(ascii_chars(value_or_neg_text(v, half)), half) == Some(v),
        value_or_neg_text(v, half) == signed_dec(if v >= half { v - 2 * half } else { v as int }),
{
    let sv: int = if v >= half { v - 2 * half } else { v as int };
    let tok = ascii_chars(signed_dec(sv));
    if sv >= 0 {
        crate::textfmt::lemma_dec_pad_reparses(sv as nat, 1);
        assert(tok =~= ascii_chars(crate::textfmt::dec_bytes(sv as nat)));
        assert(crate::textfmt::is_digit(tok[0]));
        assert(tok[0] != '-' && tok[0] != '+');
    } else {
        crate::textfmt::lemma_dec_pad_reparses((-sv) as nat, 1);
        let digits_b = crate::textfmt::dec_bytes((-sv) as nat);
        assert(signed_dec(sv) == seq![0x2du8] + digits_b);
        assert(tok[0] == 0x2du8 as char);
        assert(tok[0] == '-');
        let digits = tok.drop_first();
        assert(digits =~= ascii_chars(digits_b));
        assert(crate::textfmt::digits_val(digits) == -sv);
        assert(-sv <= half);
        vstd::arithmetic::div_mod::lemma_small_mod((2 * half + sv) as nat, (2 * half) as nat);
        assert((2 * half - (-sv)) % (2 * half) == v);
    }
}

/// The decimal text of a raw pattern under a signed reading of range
/// `[-half, half)`.
pub open spec fn value_or_neg_text(v: nat, half: int) -> Seq<u8> {
    signed_dec(if v >= half { v - 2 * half } else { v as int })
}

/// What `format_blob` returns: a hex dump for `Blob`, the buffer's text
/// for `Text`, and otherwise the decoded samples joined with commas, or a
/// placeholder note when no complete element exists.
pub open spec fn spec_format_blob(b: Seq<u8>, t: DataType, e: Endianness) -> Seq<char> {
    if t == DataType::Blob {
        spec_format_hex(b)
    } else if t == DataType::Text {
        crate::textfmt::utf8_lossy_of(b)
    } else if b.len() / elem_width(t) == 0 {
        "(no complete values)"@
    } else {
        ascii_chars(joined_values(crate::codec::decoded_values(b, t, e), t))
    }
}

/// Format a buffer as human-readable text under a sample type: a hex dump
/// for `Blob`, the text itself for `Text`, and the decoded sample values
/// otherwise.
pub fn format_blob(bytes: &Vec<u8>, data_type: DataType, endianness: Endianness) -> (r: String)
    ensures
        r@ == spec_format_blob(bytes@, data_type, endianness),
{
    match data_type {
        DataType::Blob => format_hex(bytes),
        DataType::Text => crate::textfmt::utf8_lossy(bytes),
        _ => {
            let vals = crate::codec::decode_raw(bytes, data_type, endianness);
            if vals.len() == 0 {
                let r: String = "(no complete values)".to_owned();
                r
            } else {
                let ghost dv = crate::codec::decoded_values(bytes@, data_type, endianness);
                let mut out: Vec<u8> = Vec::new();
                let mut i: usize = 0;
                proof {
                    assert(vals@.map_values(|x: u64| x as nat) =~= dv);
                }
                while i < vals.len()
                    invariant
                        dv == crate::codec::decoded_values(bytes@, data_type, endianness),
                        vals@.map_values(|x: u64| x as nat) == dv,
                        forall|k: int| 0 <= k < vals@.len()
                            ==> vals@[k] < pow256(elem_width(data_type)),
                        i <= vals@.len(),
                        out@ == joined_values(dv.take(i as int), data_type),
                    decreases vals@.len() - i,
                {
                    if i > 0 {
                        out.push(0x2c);
                        out.push(0x20);
                    }
                    push_value_text(&mut out, vals[i], data_type);
                    proof {
                        assert(dv.take(i as int).push(dv[i as int]) =~= dv.take(i + 1));
                        lemma_joined_values_push(dv.take(i as int), dv[i as int], data_type);
                        if i > 0 {
                            assert(out@ =~= joined_values(dv.take(i as int), data_type)
                                + seq![0x2cu8, 0x20u8] + value_text(dv[i as int], data_type));
                        }
                    }
                    i += 1;
                }
                proof {
                    assert(dv.take(vals@.len() as int) =~= dv);
                    lemma_joined_values_ascii(dv, data_type);
                }
                ascii_string(out)
            }
        }
    }
}

/// One 3-column cell of the hex area of a dump line: two hex digits and a
/// space for a present byte, three spaces for a missing one; the cell in
/// column 7 carries the mid-row gap.
pub open spec fn hex_cell(chunk: Seq<u8>, j: int) -> Seq<u8> {
    let cell = if j < chunk.len() {
        hex_pad(chunk[j] as nat, 2) + seq![0x20u8]
    } else {
        seq![0x20u8, 0x20u8, 0x20u8]
    };
    if j == 7 {
        cell + seq![0x20u8]
    } else {
        cell
    }
}

/// The hex area cells of a dump line, from column `j` on.
pub open spec fn hex_cells(chunk: Seq<u8>, j: int) -> Seq<u8>
    decreases 16 - j,
{
    if j < 0 || j >= 16 {
        Seq::empty()
    } else {
        hex_cell(chunk, j) + hex_cells(chunk, j + 1)
    }
}

/// A byte as it appears in the ASCII sidebar: itself when printable, a dot
/// otherwise.
pub open spec fn printable_byte(b: u8) -> u8 {
    if 0x20 <= b <= 0x7e {
        b
    } else {
        0x2e
    }
}

/// One line of a hex dump: offset, hex area, ASCII sidebar.
pub open spec fn hex_line(chunk: Seq<u8>, idx: nat) -> Seq<u8> {
    hex_pad(idx * 16, 8) + seq![0x20u8, 0x20u8] + hex_cells(chunk, 0)
        + seq![0x20u8, 0x7cu8] + chunk.map_values(|b: u8| printable_byte(b))
        + seq![0x7cu8, 0x0au8]
}

/// A hex dump of `b`, 16 bytes per line, whose first line is line `idx`.
pub open spec fn hex_dump_from(b: Seq<u8>, idx: nat) -> Seq<u8>
    decreases b.len(),
{
    if b.len() == 0 {
        Seq::empty()
    } else if b.len() <= 16 {
        hex_line(b, idx)
    } else {
        hex_line(b.take(16), idx) + hex_dump_from(b.skip(16), idx + 1)
    }
}

/// What `format_hex` returns.
pub open spec fn spec_format_hex(b: Seq<u8>) -> Seq<char> {
    ascii_chars(hex_dump_from(b, 0))
}

/// Every byte of the hex area cells is ASCII.
proof fn lemma_hex_cells_ascii(chunk: Seq<u8>, j: int)
    ensures
        forall|i: int| 0 <= i < hex_cells(chunk, j).len() ==> hex_cells(chunk, j)[i] < 0x80,
    decreases 16 - j,
{
    if 0 <= j < 16 {
        lemma_hex_cells_ascii(chunk, j + 1);
        if j < chunk.len() {
            crate::textfmt::lemma_hex_pad_ascii_bytes(chunk[j] as nat, 2);
        }
        let cell = hex_cell(chunk, j);
        let rest = hex_cells(chunk, j + 1);
        assert(forall|i: int| 0 <= i < cell.len() ==> cell[i] < 0x80);
        assert forall|i: int| 0 <= i < hex_cells(chunk, j).len()
            implies hex_cells(chunk, j)[i] < 0x80 by {
            if i < cell.len() {
                assert(hex_cells(chunk, j)[i] == cell[i]);
            } else {
                assert(hex_cells(chunk, j)[i] == rest[i - cell.len()]);
            }
        }
    }
}

/// Every byte of a hex dump is ASCII.
pub proof fn lemma_hex_dump_ascii(b: Seq<u8>, idx: nat)
    ensures
        forall|i: int| 0 <= i < hex_dump_from(b, idx).len() ==> hex_dump_from(b, idx)[i] < 0x80,
    decreases b.len(),
{
    if b.len() > 0 {
        let chunk = if b.len() <= 16 { b } else { b.take(16) };
        crate::textfmt::lemma_hex_pad_ascii_bytes(idx * 16, 8);
        lemma_hex_cells_ascii(chunk, 0);
        let line = hex_line(chunk, idx);
        assert forall|i: int| 0 <= i < line.len() implies line[i] < 0x80 by {
            let off = hex_pad(idx * 16, 8);
            let cells = hex_cells(chunk, 0);
            let side = chunk.map_values(|x: u8| printable_byte(x));
            assert(forall|k: int| 0 <= k < side.len() ==> side[k] < 0x80);
            if i < off.len() {
                assert(line[i] == off[i]);
            } else if i < off.len() + 2 {
            } else if i < off.len() + 2 + cells.len() {
                assert(line[i] == cells[i - off.len() - 2]);
            } else if i < off.len() + 2 + cells.len() + 2 {
            } else if i < off.len() + 2 + cells.len() + 2 + side.len() {
                assert(line[i] == side[i - off.len() - 2 - cells.len() - 2]);
            }
        }
        if b.len() > 16 {
            lemma_hex_dump_ascii(b.skip(16), idx + 1);
            assert forall|i: int| 0 <= i < hex_dump_from(b, idx).len()
                implies hex_dump_from(b, idx)[i] < 0x80 by {
                if i < line.len() {
                    assert(hex_dump_from(b, idx)[i] == line[i]);
                } else {
                    assert(hex_dump_from(b, idx)[i] == hex_dump_from(b.skip(16), idx + 1)[i - line.len()]);
                }
            }
        }
    }
}

/// Append one hex dump line for `chunk == bytes[pos .. pos + clen]`.
fn push_hex_line(out: &mut Vec<u8>, bytes: &Vec<u8>, pos: usize, clen: usize, idx: usize)
    requires
        pos + clen <= bytes@.len(),
        1 <= clen <= 16,
        idx * 16 <= usize::MAX,
    ensures
        final(out)@ == old(out)@
            + hex_line(bytes@.subrange(pos as int, (pos + clen) as int), idx as nat),
{
    let btotal: usize = bytes.len();
    let ghost chunk = bytes@.subrange(pos as int, (pos + clen) as int);
    push_hex_pad(out, (idx * 16) as u64, 8);
    out.push(0x20);
    out.push(0x20);
    let ghost base = out@;
    let mut j: usize = 0;
    while j < 16
        invariant
            pos + clen <= bytes@.len(),
            bytes@.len() == btotal,
            1 <= clen <= 16,
            j <= 16,
            chunk == bytes@.subrange(pos as int, (pos + clen) as int),
            out@ + hex_cells(chunk, j as int) == base + hex_cells(chunk, 0),
        decreases 16 - j,
    {
        let ghost before = out@;
        if j < clen {
            push_hex_pad(out, bytes[pos + j] as u64, 2);
            out.push(0x20);
        } else {
            out.push(0x20);
            out.push(0x20);
            out.push(0x20);
        }
        if j == 7 {
            out.push(0x20);
        }
        proof {
            assert(out@ =~= before + hex_cell(chunk, j as int));
            assert(before + (hex_cell(chunk, j as int) + hex_cells(chunk, j + 1))
                =~= (before + hex_cell(chunk, j as int)) + hex_cells(chunk, j + 1));
        }
        j += 1;
    }
    proof {
        assert(hex_cells(chunk, 16) =~= Seq::<u8>::empty());
        assert(out@ + hex_cells(chunk, 16) =~= out@);
    }
    out.push(0x20);
    out.push(0x7c);
    let ghost base2 = out@;
    let mut k: usize = 0;
    while k < clen
        invariant
            pos + clen <= bytes@.len(),
            bytes@.len() == btotal,
            clen <= 16,
            k <= clen,
            chunk == bytes@.subrange(pos as int, (pos + clen) as int),
            out@ == base2 + chunk.take(k as int).map_values(|b: u8| printable_byte(b)),
        decreases clen - k,
    {
        let b = bytes[pos + k];
        if 0x20 <= b && b <= 0x7e {
            out.push(b);
        } else {
            out.push(0x2e);
        }
        proof {
            assert(chunk.take(k + 1).map_values(|x: u8| printable_byte(x))
                =~= chunk.take(k as int).map_values(|x: u8| printable_byte(x))
                    .push(printable_byte(chunk[k as int])));
            assert(out@ =~= base2 + chunk.take(k + 1).map_values(|x: u8| printable_byte(x)));
        }
        k += 1;
    }
    out.push(0x7c);
    out.push(0x0a);
    proof {
        assert(chunk.take(clen as int) =~= chunk);
        assert(final(out)@ =~= old(out)@ + hex_line(chunk, idx as nat));
    }
}

/// Format a buffer as a hex dump with an ASCII sidebar, 16 bytes per line.
pub fn format_hex(bytes: &Vec<u8>) -> (r: String)
    ensures
        r@ == spec_format_hex(bytes@),
{
    let mut out: Vec<u8> = Vec::new();
    let total: usize = bytes.len();
    let mut pos: usize = 0;
    let mut idx: usize = 0;
    proof {
        assert(bytes@.skip(0) =~= bytes@);
        assert(out@ + hex_dump_from(bytes@, 0) =~= hex_dump_from(bytes@, 0));
    }
    while pos < total
        invariant
            total == bytes@.len(),
            pos <= total,
            pos == idx * 16 || pos >= total,
            out@ + hex_dump_from(bytes@.skip(pos as int), idx as nat)
                == hex_dump_from(bytes@, 0),
        decreases total - pos,
    {
        let clen = if total - pos < 16 { total - pos } else { 16 };
        proof {
            assert((idx + 1) * 16 == idx * 16 + 16);
        }
        let ghost rest = bytes@.skip(pos as int);
        let ghost chunk = bytes@.subrange(pos as int, (pos + clen) as int);
        let ghost prev = out@;
        proof {
            if rest.len() <= 16 {
                assert(rest =~= chunk);
            } else {
                assert(rest.take(16) =~= chunk);
                assert(rest.skip(16) =~= bytes@.skip((pos + 16) as int));
            }
        }
        push_hex_line(&mut out, bytes, pos, clen, idx);
        proof {
            if rest.len() <= 16 {
                assert(hex_dump_from(rest, idx as nat) == hex_line(chunk, idx as nat));
                assert(bytes@.skip((pos + clen) as int) =~= Seq::<u8>::empty());
                assert(out@ + hex_dump_from(bytes@.skip((pos + clen) as int), (idx + 1) as nat)
                    =~= prev + hex_dump_from(rest, idx as nat));
            } else {
                assert(hex_dump_from(rest, idx as nat)
                    == hex_line(chunk, idx as nat) + hex_dump_from(rest.skip(16), (idx + 1) as nat));
                assert(out@ + hex_dump_from(bytes@.skip((pos + clen) as int), (idx + 1) as nat)
                    =~= prev + hex_dump_from(rest, idx as nat));
            }
        }
        pos += clen;
        idx += 1;
    }
    proof {
        assert(bytes@.skip(pos as int) =~= Seq::<u8>::empty());
        assert(out@ + hex_dump_from(Seq::<u8>::empty(), idx as nat) =~= out@);
        lemma_hex_dump_ascii(bytes@, 0);
    }
    ascii_string(out)
}

} // verus!
