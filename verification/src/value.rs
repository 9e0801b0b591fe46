//! Rendering of a plain byte value for the value view.
//!
//! A buffer that looks binary is shown decoded under the current sample
//! type together with a hex dump; displayable text is shown as it is,
//! pretty-printed first when it parses as JSON.

use vstd::prelude::*;
use vstd::string::StrSliceExecFns;
use vstd::string::StringExecFns;
use crate::data::DataType;
use crate::data::Endianness;
use crate::stream::find_char;
use crate::stream::lemma_find_char_at;
use crate::textfmt::ascii_chars;
use crate::textfmt::ascii_string;
use crate::textfmt::utf8_lossy_of;

verus! {

/// What `pretty_json` returns: the pretty-printed form of a JSON text,
/// or nothing when the text is not JSON.
pub uninterp spec fn json_pretty_of(s: Seq<char>) -> Option<Seq<char>>;

/// Relies on `serde_json::from_str::<Value>` and
/// `serde_json::to_string_pretty`: parsing either yields the text's JSON
/// value or fails, and pretty-printing a parsed value is a deterministic
/// function of it — so the outcome depends on the input text alone.
#[verifier::external_body]
fn pretty_json(s: &str) -> (r: Option<String>)
    ensures
        match r {
            Some(p) => json_pretty_of(s@) == Some(p@),
            None => json_pretty_of(s@) is None,
        },
{
    match serde_json::from_str::<serde_json::Value>(s) {
        Ok(v) => serde_json::to_string_pretty(&v).ok(),
        Err(_) => None,
    }
}

/// A line with a trailing carriage return removed, as the standard line
/// splitter strips it.
pub open spec fn strip_cr(t: Seq<char>) -> Seq<char> {
    if t.len() > 0 && t.last() == '\r' {
        t.drop_last()
    } else {
        t
    }
}

/// The lines of a text: pieces between newlines, each with a trailing
/// carriage return stripped, with no empty piece after a final newline.
pub open spec fn spec_lines(s: Seq<char>) -> Seq<Seq<char>>
    decreases s.len(),
{
    if s.len() == 0 {
        Seq::empty()
    } else {
        let i = find_char(s, '\n');
        if i >= s.len() {
            seq![strip_cr(s)]
        } else {
            seq![strip_cr(s.take(i as int))] + spec_lines(s.skip(i as int + 1))
        }
    }
}

/// Split a text into its lines, as the value view shows them.
pub fn split_lines(s: &str) -> (r: Vec<String>)
    ensures
        r@.map_values(|x: String| x@) == spec_lines(s@),
{
    let n = s.unicode_len();
    let mut out: Vec<String> = Vec::new();
    let mut p: usize = 0;
    proof {
        assert(s@.skip(0) =~= s@);
        assert(out@.map_values(|x: String| x@) + spec_lines(s@) =~= spec_lines(s@));
    }
    while p < n
        invariant
            p <= n,
            n == s@.len(),
            out@.map_values(|x: String| x@) + spec_lines(s@.skip(p as int)) == spec_lines(s@),
        decreases n - p,
    {
        let mut q: usize = p;
        while q < n && s.get_char(q) != '\n'
            invariant
                p <= q <= n,
                n == s@.len(),
                forall|k: int| p <= k < q ==> s@[k] != '\n',
            decreases n - q,
        {
            q += 1;
        }
        let ghost rest = s@.skip(p as int);
        proof {
            assert(forall|k: int| 0 <= k < q - p ==> rest[k] == s@[k + p]);
            if q < n {
                assert(rest[q - p] == s@[q as int]);
            }
            lemma_find_char_at(rest, '\n', q - p);
        }
        let e = if q > p && s.get_char(q - 1) == '\r' { q - 1 } else { q };
        let piece = s.substring_char(p, e);
        let line: String = piece.to_owned();
        let ghost lv = line@;
        let ghost before = out@.map_values(|x: String| x@);
        out.push(line);
        proof {
            assert(out@.map_values(|x: String| x@) =~= before.push(lv));
            if q < n {
                assert(rest.take(q - p) =~= s@.subrange(p as int, q as int));
            } else {
                assert(rest =~= s@.subrange(p as int, q as int));
            }
            assert(lv =~= strip_cr(s@.subrange(p as int, q as int))) by {
                if q > p && s@[q - 1] == '\r' {
                    assert(s@.subrange(p as int, q as int).last() == s@[q - 1]);
                    assert(s@.subrange(p as int, q as int).drop_last()
                        =~= s@.subrange(p as int, e as int));
                } else {
                    if q > p {
                        assert(s@.subrange(p as int, q as int).last() == s@[q - 1]);
                    }
                }
            }
            if q < n {
                assert(rest.skip(q - p + 1) =~= s@.skip(q + 1));
                assert(spec_lines(rest) == seq![strip_cr(rest.take(q - p))]
                    + spec_lines(s@.skip(q + 1)));
                assert(before.push(lv) + spec_lines(s@.skip(q + 1))
                    =~= before + spec_lines(rest));
            } else {
                assert(spec_lines(rest) == seq![strip_cr(rest)]);
                assert(s@.skip(n as int) =~= Seq::<char>::empty());
                assert(spec_lines(Seq::<char>::empty()) =~= Seq::<Seq<char>>::empty());
                assert(before.push(lv) + spec_lines(s@.skip(n as int))
                    =~= before + spec_lines(rest));
            }
        }
        if q < n {
            p = q + 1;
        } else {
            p = n;
        }
    }
    proof {
        assert(s@.skip(n as int) =~= Seq::<char>::empty());
        assert(spec_lines(Seq::<char>::empty()) =~= Seq::<Seq<char>>::empty());
        assert(out@.map_values(|x: String| x@) + Seq::<Seq<char>>::empty()
            =~= out@.map_values(|x: String| x@));
    }
    out
}

/// What `render_text_value` returns: the pretty-printed lines when the
/// text is JSON, else the text's own lines.
pub open spec fn spec_render_text(text: Seq<char>) -> Seq<Seq<char>> {
    match json_pretty_of(text) {
        Some(p) => spec_lines(p),
        None => spec_lines(text),
    }
}

/// What `render_value_lines` returns for a binary buffer: a banner with
/// the decode configuration, the decoded samples, a blank line, a banner
/// with the byte count, and the hex dump.
pub open spec fn spec_render_binary(
    b: Seq<u8>, t: DataType, e: Endianness) -> Seq<Seq<char>> {
    seq![
        "-- Decoded as "@ + crate::data::label_chars(t) + " ("@
            + crate::data::endian_chars(e) + ") --"@,
    ]
        + spec_lines(crate::data::spec_format_blob(b, t, e))
        + seq![Seq::<char>::empty()]
        + seq![
            "-- Hex dump ("@ + ascii_chars(crate::textfmt::dec_bytes(b.len()))
                + " bytes) --"@,
        ]
        + spec_lines(crate::data::spec_format_hex(b))
}

/// What `render_value_lines` returns.
pub open spec fn spec_render_value(b: Seq<u8>, t: DataType, e: Endianness) -> Seq<Seq<char>> {
    if crate::data::spec_is_binary(b) {
        spec_render_binary(b, t, e)
    } else {
        spec_render_text(utf8_lossy_of(b))
    }
}

/// Render a plain byte value for the value view: a binary-looking buffer
/// shows the decoded samples and a hex dump, displayable text shows its
/// lines, pretty-printed first when it parses as JSON.
pub fn render_value_lines(bytes: &Vec<u8>, data_type: DataType, endianness: Endianness)
    -> (r: Vec<String>)
    ensures
        r@.map_values(|x: String| x@) == spec_render_value(bytes@, data_type, endianness),
{
    if crate::data::is_binary(bytes) {
        let mut out: Vec<String> = Vec::new();
        let mut banner = String::from_str("-- Decoded as ");
        banner.append(data_type.label());
        banner.append(" (");
        banner.append(endianness.label());
        banner.append(") --");
        let ghost bv = banner@;
        out.push(banner);
        let decoded = crate::data::format_blob(bytes, data_type, endianness);
        let mut dlines = split_lines(decoded.as_str());
        let ghost dl = dlines@.map_values(|x: String| x@);
        out.append(&mut dlines);
        out.push(String::new());
        let mut banner2 = String::from_str("-- Hex dump (");
        let mut cnt: Vec<u8> = Vec::new();
        crate::textfmt::push_dec(&mut cnt, bytes.len() as u64);
        proof {
            crate::textfmt::lemma_dec_pad_ascii(bytes@.len() as nat, 1);
        }
        let cs = ascii_string(cnt);
        banner2.append(cs.as_str());
        banner2.append(" bytes) --");
        let ghost bv2 = banner2@;
        out.push(banner2);
        let dump = crate::data::format_hex(bytes);
        let mut hlines = split_lines(dump.as_str());
        let ghost hl = hlines@.map_values(|x: String| x@);
        out.append(&mut hlines);
        proof {
            assert(out@.map_values(|x: String| x@)
                =~= seq![bv] + dl + seq![Seq::<char>::empty()] + seq![bv2] + hl);
            assert(seq![bv] + dl + seq![Seq::<char>::empty()] + seq![bv2] + hl
                =~= spec_render_binary(bytes@, data_type, endianness));
        }
        out
    } else {
        let lossy = crate::textfmt::utf8_lossy(bytes);
        match pretty_json(lossy.as_str()) {
            Some(p) => split_lines(p.as_str()),
            None => split_lines(lossy.as_str()),
        }
    }
}

} // verus!
