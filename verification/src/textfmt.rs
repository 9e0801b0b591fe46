//! Verified text building.
//!
//! All display text this crate produces is assembled as ASCII bytes with
//! exact contracts, then turned into a `String` by one trusted conversion.

use vstd::prelude::*;
use vstd::string::StrSliceExecFns;

verus! {

/// The ASCII code of a decimal digit.
pub open spec fn dec_digit(n: nat) -> u8 {
    (0x30 + n % 10) as u8
}

/// The ASCII code of a lower-case hexadecimal digit.
pub open spec fn hex_digit(n: nat) -> u8 {
    if n % 16 < 10 {
        (0x30 + n % 16) as u8
    } else {
        (0x57 + n % 16) as u8
    }
}

/// Decimal rendering of `n`, zero-padded to at least `w` digits.
pub open spec fn dec_pad(n: nat, w: nat) -> Seq<u8>
    decreases n, w,
{
    if n < 10 && w <= 1 {
        seq![dec_digit(n)]
    } else {
        dec_pad(n / 10, if w == 0 { 0 } else { (w - 1) as nat }).push(dec_digit(n))
    }
}

/// Decimal rendering of `n` with no padding.
pub open spec fn dec_bytes(n: nat) -> Seq<u8> {
    dec_pad(n, 1)
}

/// Hexadecimal rendering of `n`, zero-padded to at least `w` digits.
pub open spec fn hex_pad(n: nat, w: nat) -> Seq<u8>
    decreases n, w,
{
    if n < 16 && w <= 1 {
        seq![hex_digit(n)]
    } else {
        hex_pad(n / 16, if w == 0 { 0 } else { (w - 1) as nat }).push(hex_digit(n))
    }
}

/// ASCII bytes read as the characters they encode.
pub open spec fn ascii_chars(b: Seq<u8>) -> Seq<char> {
    b.map_values(|x: u8| x as char)
}

/// Append the decimal rendering of `n`, zero-padded to at least `w` digits.
pub fn push_dec_pad(out: &mut Vec<u8>, n: u64, w: usize)
    ensures
        final(out)@ == old(out)@ + dec_pad(n as nat, w as nat),
    decreases n, w,
{
    if n < 10 && w <= 1 {
        out.push(0x30 + (n % 10) as u8);
    } else {
        push_dec_pad(out, n / 10, if w == 0 { 0 } else { w - 1 });
        out.push(0x30 + (n % 10) as u8);
        proof {
            assert(final(out)@ =~= old(out)@ + dec_pad(n as nat, w as nat));
        }
    }
}

/// Append the decimal rendering of `n`.
pub fn push_dec(out: &mut Vec<u8>, n: u64)
    ensures
        final(out)@ == old(out)@ + dec_bytes(n as nat),
{
    push_dec_pad(out, n, 1);
}

/// Append the hexadecimal rendering of `n`, zero-padded to at least `w`
/// digits.
pub fn push_hex_pad(out: &mut Vec<u8>, n: u64, w: usize)
    ensures
        final(out)@ == old(out)@ + hex_pad(n as nat, w as nat),
    decreases n, w,
{
    if n < 16 && w <= 1 {
        out.push(hex_digit_exec(n % 16));
    } else {
        push_hex_pad(out, n / 16, if w == 0 { 0 } else { w - 1 });
        out.push(hex_digit_exec(n % 16));
        proof {
            assert(final(out)@ =~= old(out)@ + hex_pad(n as nat, w as nat));
        }
    }
}

/// The lower-case hexadecimal digit of `n % 16`.
fn hex_digit_exec(n: u64) -> (r: u8)
    ensures
        r == hex_digit(n as nat),
{
    if n % 16 < 10 {
        0x30 + (n % 16) as u8
    } else {
        0x57 + (n % 16) as u8
    }
}

/// Every byte of a padded decimal rendering is ASCII.
pub proof fn lemma_dec_pad_ascii(n: nat, w: nat)
    ensures
        forall|i: int| 0 <= i < dec_pad(n, w).len() ==> dec_pad(n, w)[i] < 0x80,
    decreases n, w,
{
    if n < 10 && w <= 1 {
        assert(dec_pad(n, w)[0] == dec_digit(n));
    } else {
        let rec = dec_pad(n / 10, if w == 0 { 0 } else { (w - 1) as nat });
        lemma_dec_pad_ascii(n / 10, if w == 0 { 0 } else { (w - 1) as nat });
        assert forall|i: int| 0 <= i < dec_pad(n, w).len() implies dec_pad(n, w)[i] < 0x80 by {
            if i < rec.len() {
                assert(dec_pad(n, w)[i] == rec[i]);
            } else {
                assert(dec_pad(n, w)[i] == dec_digit(n));
            }
        }
    }
}

/// Every byte of a padded hexadecimal rendering is ASCII.
pub proof fn lemma_hex_pad_ascii_bytes(n: nat, w: nat)
    ensures
        forall|i: int| 0 <= i < hex_pad(n, w).len() ==> hex_pad(n, w)[i] < 0x80,
    decreases n, w,
{
    if n < 16 && w <= 1 {
        assert(hex_pad(n, w)[0] == hex_digit(n));
    } else {
        let rec = hex_pad(n / 16, if w == 0 { 0 } else { (w - 1) as nat });
        lemma_hex_pad_ascii_bytes(n / 16, if w == 0 { 0 } else { (w - 1) as nat });
        assert forall|i: int| 0 <= i < hex_pad(n, w).len() implies hex_pad(n, w)[i] < 0x80 by {
            if i < rec.len() {
                assert(hex_pad(n, w)[i] == rec[i]);
            } else {
                assert(hex_pad(n, w)[i] == hex_digit(n));
            }
        }
    }
}

/// What `utf8_lossy` returns: the text a byte buffer holds, with invalid
/// sequences replaced.
pub uninterp spec fn utf8_lossy_of(b: Seq<u8>) -> Seq<char>;

/// Relies on `String::from_utf8_lossy`: its result depends on the bytes
/// alone, and valid UTF-8 — so in particular ASCII — decodes unchanged.
#[verifier::external_body]
pub fn utf8_lossy(bytes: &Vec<u8>) -> (r: String)
    ensures
        r@ == utf8_lossy_of(bytes@),
        (forall|i: int| 0 <= i < bytes@.len() ==> bytes@[i] < 0x80) ==> r@ == ascii_chars(bytes@),
{
    String::from_utf8_lossy(bytes).to_string()
}

/// Whether a character is a decimal digit.
pub open spec fn is_digit(c: char) -> bool {
    '0' <= c && c <= '9'
}

/// Whether every character of a sequence is a decimal digit.
pub open spec fn all_digits(t: Seq<char>) -> bool {
    forall|i: int| 0 <= i < t.len() ==> is_digit(#[trigger] t[i])
}

/// The number a digit sequence denotes.  Only meaningful when every
/// character is a digit.
pub open spec fn digits_val(t: Seq<char>) -> int
    decreases t.len(),
{
    if t.len() == 0 {
        0
    } else {
        digits_val(t.drop_last()) * 10 + (t.last() as int - 0x30)
    }
}

/// A digit prefix never denotes more than the whole sequence.
pub proof fn lemma_digits_val_prefix(t: Seq<char>, k: int)
    requires
        0 <= k <= t.len(),
        all_digits(t),
    ensures
        digits_val(t) >= digits_val(t.take(k)),
        digits_val(t.take(k)) >= 0,
    decreases t.len() - k,
{
    if k == t.len() {
        assert(t.take(k) =~= t);
        lemma_digits_val_nonneg(t);
    } else {
        lemma_digits_val_prefix(t, k + 1);
        let p = t.take(k + 1);
        assert(p.drop_last() =~= t.take(k));
        assert(digits_val(p) == digits_val(t.take(k)) * 10 + (t[k] as int - 0x30));
        lemma_digits_val_nonneg(t.take(k));
    }
}

/// A digit sequence denotes a number, not a negative value.
pub proof fn lemma_digits_val_nonneg(t: Seq<char>)
    requires
        all_digits(t),
    ensures
        digits_val(t) >= 0,
    decreases t.len(),
{
    if t.len() > 0 {
        assert(all_digits(t.drop_last()));
        lemma_digits_val_nonneg(t.drop_last());
    }
}

/// Parse the characters of `t` from `start` on as an unsigned decimal
/// number below `cap`.  Returns the value exactly when the range is
/// non-empty, holds digits only, and its value is below `cap`; mirrors the
/// standard integer parser up to the range check.
pub fn parse_digits(t: &str, start: usize, cap: u128) -> (r: Option<u64>)
    requires
        start <= t@.len(),
        1 <= cap <= 0x10000000000000000u128,
    ensures
        match r {
            Some(v) => {
                &&& all_digits(t@.skip(start as int))
                &&& t@.len() > start
                &&& v == digits_val(t@.skip(start as int))
                &&& v < cap
            },
            None => !{
                &&& all_digits(t@.skip(start as int))
                &&& t@.len() > start
                &&& digits_val(t@.skip(start as int)) < cap
            },
        },
{
    let n = t.unicode_len();
    if start >= n {
        return None;
    }
    let ghost sub = t@.skip(start as int);
    let mut acc: u128 = 0;
    let mut i: usize = start;
    while i < n
        invariant
            start <= i <= n,
            n == t@.len(),
            sub == t@.skip(start as int),
            all_digits(sub.take(i - start)),
            acc == digits_val(sub.take(i - start)),
            acc < cap,
            cap <= 0x10000000000000000u128,
        decreases n - i,
    {
        let c = t.get_char(i);
        let d = c as u32;
        if d < 0x30 || d > 0x39 {
            proof {
                assert(sub[i - start] == t@[i as int]);
                assert(!is_digit(sub[i - start]));
            }
            return None;
        }
        proof {
            assert(sub.take(i - start + 1).drop_last() =~= sub.take(i - start));
            assert(sub.take(i - start + 1).last() == t@[i as int]);
            assert(all_digits(sub.take(i - start + 1)));
        }
        let next: u128 = acc * 10 + (d - 0x30) as u128;
        if next >= cap {
            proof {
                if all_digits(sub) && digits_val(sub) < cap {
                    lemma_digits_val_prefix(sub, i - start + 1);
                }
            }
            return None;
        }
        acc = next;
        i += 1;
    }
    proof {
        assert(sub.take(n - start) =~= sub);
    }
    Some(acc as u64)
}

/// A decimal rendering is all digit characters and denotes the number it
/// was rendered from, whatever the padding.
pub proof fn lemma_dec_pad_reparses(n: nat, w: nat)
    ensures
        ascii_chars(dec_pad(n, w)).len() > 0,
        all_digits(ascii_chars(dec_pad(n, w))),
        digits_val(ascii_chars(dec_pad(n, w))) == n,
    decreases n, w,
{
    let cs = ascii_chars(dec_pad(n, w));
    if n < 10 && w <= 1 {
        assert(dec_pad(n, w)[0] == dec_digit(n));
        assert(cs[0] == dec_digit(n) as char);
        assert(is_digit(cs[0]));
        assert(digits_val(cs) == digits_val(cs.drop_last()) * 10 + (cs.last() as int - 0x30));
        assert(cs.drop_last() =~= Seq::<char>::empty());
    } else {
        let w2 = if w == 0 { 0 } else { (w - 1) as nat };
        lemma_dec_pad_reparses(n / 10, w2);
        let rec = ascii_chars(dec_pad(n / 10, w2));
        assert(cs.drop_last() =~= rec);
        assert(cs.last() == dec_digit(n) as char);
        assert(is_digit(cs.last()));
        assert forall|i: int| 0 <= i < cs.len() implies is_digit(#[trigger] cs[i]) by {
            if i < rec.len() {
                assert(cs[i] == rec[i]);
            } else {
                assert(cs[i] == cs.last());
            }
        }
        assert(digits_val(cs) == digits_val(rec) * 10 + (cs.last() as int - 0x30));
        vstd::arithmetic::div_mod::lemma_fundamental_div_mod(n as int, 10);
    }
}

/// What the standard unsigned 64-bit parser accepts: an optional plus
/// sign, then digits, denoting a value that fits.
pub open spec fn spec_parse_u64(tok: Seq<char>) -> Option<nat> {
    if tok.len() == 0 {
        None
    } else {
        let digits = if tok[0] == '+' { tok.drop_first() } else { tok };
        if digits.len() == 0 || !all_digits(digits) {
            None
        } else if digits_val(digits) < 0x10000000000000000 {
            Some(digits_val(digits) as nat)
        } else {
            None
        }
    }
}

/// Parse a token as an unsigned 64-bit decimal number.
pub fn parse_u64(tok: &str) -> (r: Option<u64>)
    ensures
        r is Some <==> spec_parse_u64(tok@) is Some,
        r is Some ==> r.unwrap() == spec_parse_u64(tok@).unwrap(),
{
    let n = tok.unicode_len();
    if n == 0 {
        return None;
    }
    let c0 = tok.get_char(0);
    let start: usize = if c0 == '+' { 1 } else { 0 };
    proof {
        if start == 1 {
            assert(tok@.skip(1) =~= tok@.drop_first());
        } else {
            assert(tok@.skip(0) =~= tok@);
        }
    }
    parse_digits(tok, start, 0x10000000000000000u128)
}

/// What the standard signed 64-bit parser accepts: an optional sign,
/// then digits, denoting a value that fits.
pub open spec fn spec_parse_i64(tok: Seq<char>) -> Option<int> {
    if tok.len() == 0 {
        None
    } else {
        let neg = tok[0] == '-';
        let digits = if tok[0] == '-' || tok[0] == '+' { tok.drop_first() } else { tok };
        if digits.len() == 0 || !all_digits(digits) {
            None
        } else if neg {
            if digits_val(digits) <= 0x8000000000000000 {
                Some(-digits_val(digits))
            } else {
                None
            }
        } else {
            if digits_val(digits) < 0x8000000000000000 {
                Some(digits_val(digits))
            } else {
                None
            }
        }
    }
}

/// Parse a token as a signed 64-bit decimal number.
pub fn parse_i64(tok: &str) -> (r: Option<i64>)
    ensures
        r is Some <==> spec_parse_i64(tok@) is Some,
        r is Some ==> r.unwrap() == spec_parse_i64(tok@).unwrap(),
{
    let n = tok.unicode_len();
    if n == 0 {
        return None;
    }
    let c0 = tok.get_char(0);
    let neg = c0 == '-';
    let start: usize = if c0 == '-' || c0 == '+' { 1 } else { 0 };
    proof {
        if start == 1 {
            assert(tok@.skip(1) =~= tok@.drop_first());
        } else {
            assert(tok@.skip(0) =~= tok@);
        }
    }
    let cap: u128 = if neg { 0x8000000000000001u128 } else { 0x8000000000000000u128 };
    match parse_digits(tok, start, cap) {
        None => None,
        Some(v) => {
            if neg {
                if v == 0x8000000000000000 {
                    Some(i64::MIN)
                } else {
                    Some(-(v as i64))
                }
            } else {
                Some(v as i64)
            }
        }
    }
}

/// ASCII bytes to the string of the same characters.
///
/// Relies on `String::from_utf8`: bytes below 0x80 are valid UTF-8 and
/// decode to one character per byte, each the character with that code.
#[verifier::external_body]
pub fn ascii_string(bytes: Vec<u8>) -> (r: String)
    requires
        forall|i: int| 0 <= i < bytes@.len() ==> bytes@[i] < 0x80,
    ensures
        r@ == ascii_chars(bytes@),
{
    String::from_utf8(bytes).unwrap_or_default()
}

} // verus!
