//! Stream records and their display text.
//!
//! A record of the append-only stream carries an identifier of the form
//! `unix-milliseconds-sequence` and a list of named byte fields.  The
//! newest records are rendered for the value view here; which of their
//! fields is plotted is the codec's business.

use vstd::prelude::*;
use vstd::string::StrSliceExecFns;
use vstd::string::StringExecFns;
use crate::data::DataType;
use crate::data::Endianness;
use crate::textfmt::ascii_chars;
use crate::textfmt::ascii_string;
use crate::textfmt::dec_pad;
use crate::textfmt::push_dec_pad;
use crate::textfmt::spec_parse_u64;

verus! {

/// What the store reports about one key.
#[derive(Debug, Clone)]
pub struct KeyInfo {
    pub name: String,
    pub key_type: String,
    pub ttl: i64,
    pub size: i64,
    pub encoding: String,
}

/// One record of an append-only stream: its identifier and its fields.
#[derive(Debug, Clone)]
pub struct StreamEntry {
    pub id: String,
    pub fields: Vec<(String, Vec<u8>)>,
}

/// Position of the first occurrence of `c`, or the length when there is
/// none.
pub open spec fn find_char(s: Seq<char>, c: char) -> nat
    decreases s.len(),
{
    if s.len() == 0 {
        0
    } else if s[0] == c {
        0
    } else {
        1 + find_char(s.drop_first(), c)
    }
}

/// `find_char` finds the first occurrence.
pub proof fn lemma_find_char(s: Seq<char>, c: char)
    ensures
        find_char(s, c) <= s.len(),
        find_char(s, c) < s.len() ==> s[find_char(s, c) as int] == c,
        forall|k: int| 0 <= k < find_char(s, c) ==> s[k] != c,
    decreases s.len(),
{
    if s.len() > 0 && s[0] != c {
        lemma_find_char(s.drop_first(), c);
        assert forall|k: int| 0 <= k < find_char(s, c) implies s[k] != c by {
            if k > 0 {
                assert(s.drop_first()[k - 1] == s[k]);
            }
        }
    }
}

/// A position before which `c` does not occur, and which holds it or is
/// the end, is the first occurrence.
pub proof fn lemma_find_char_at(s: Seq<char>, c: char, j: int)
    requires
        0 <= j <= s.len(),
        forall|k: int| 0 <= k < j ==> s[k] != c,
        j < s.len() ==> s[j] == c,
    ensures
        find_char(s, c) == j,
    decreases s.len(),
{
    if j > 0 {
        assert(s[0] != c);
        lemma_find_char_at(s.drop_first(), c, j - 1);
    }
}

/// The time-of-day text of a millisecond timestamp:
/// `hh:mm:ss.mmm` with the day's hours, minutes, seconds and milliseconds.
pub open spec fn time_of_day_bytes(ms: nat) -> Seq<u8> {
    let total = ms / 1000;
    dec_pad((total / 3600) % 24, 2) + seq![0x3au8]
        + dec_pad((total / 60) % 60, 2) + seq![0x3au8]
        + dec_pad(total % 60, 2) + seq![0x2eu8]
        + dec_pad(ms % 1000, 3)
}

/// What `format_stream_id` returns: for an identifier of the form
/// `ms-seq` whose millisecond part parses, the time of day followed by the
/// sequence part; any other identifier unchanged.
pub open spec fn spec_format_stream_id(id: Seq<char>) -> Seq<char> {
    let d = find_char(id, '-');
    if d >= id.len() {
        id
    } else {
        match spec_parse_u64(id.take(d as int)) {
            Some(ms) => ascii_chars(time_of_day_bytes(ms) + seq![0x3au8]) + id.skip(d as int + 1),
            None => id,
        }
    }
}

/// Render a stream record identifier `unix_ms-seq` as a time of day,
/// `hh:mm:ss.mmm:seq`; identifiers of any other shape are returned
/// unchanged.
pub fn format_stream_id(id: &str) -> (r: String)
    ensures
        r@ == spec_format_stream_id(id@),
{
    let n = id.unicode_len();
    let mut d: usize = 0;
    while d < n && id.get_char(d) != '-'
        invariant
            d <= n,
            n == id@.len(),
            forall|k: int| 0 <= k < d ==> id@[k] != '-',
        decreases n - d,
    {
        d += 1;
    }
    proof {
        lemma_find_char_at(id@, '-', d as int);
    }
    if d >= n {
        return id.to_owned();
    }
    let ms_part = id.substring_char(0, d);
    match crate::textfmt::parse_u64(ms_part) {
        None => id.to_owned(),
        Some(ms) => {
            let mut out: Vec<u8> = Vec::new();
            let total = ms / 1000;
            push_dec_pad(&mut out, (total / 3600) % 24, 2);
            out.push(0x3a);
            push_dec_pad(&mut out, (total / 60) % 60, 2);
            out.push(0x3a);
            push_dec_pad(&mut out, total % 60, 2);
            out.push(0x2e);
            push_dec_pad(&mut out, ms % 1000, 3);
            out.push(0x3a);
            proof {
                assert(out@ =~= time_of_day_bytes(ms as nat) + seq![0x3au8]);
                crate::textfmt::lemma_dec_pad_ascii(((ms as nat / 1000) / 3600) % 24, 2);
                crate::textfmt::lemma_dec_pad_ascii(((ms as nat / 1000) / 60) % 60, 2);
                crate::textfmt::lemma_dec_pad_ascii((ms as nat / 1000) % 60, 2);
                crate::textfmt::lemma_dec_pad_ascii((ms as nat) % 1000, 3);
                assert(forall|i: int| 0 <= i < out@.len() ==> out@[i] < 0x80);
            }
            let mut r = ascii_string(out);
            let tail = id.substring_char(d + 1, n);
            r.append(tail);
            proof {
                assert(id@.skip(d as int + 1) =~= id@.subrange(d as int + 1, n as int));
            }
            r
        }
    }
}

/// The byte buffer a stream value plots: the first data field (one whose
/// name starts with an underscore) of a record's field list.
pub open spec fn first_data_field(fields: Seq<(String, Vec<u8>)>) -> Option<Seq<u8>>
    decreases fields.len(),
{
    if fields.len() == 0 {
        None
    } else if fields[0].0@.len() > 0 && fields[0].0@[0] == '_' {
        Some(fields[0].1@)
    } else {
        first_data_field(fields.drop_first())
    }
}

/// The raw samples a stream plots: the newest record's first data field,
/// decoded; nothing when there is no such record or field.
pub open spec fn spec_stream_plot_raw(
    entries: Seq<StreamEntry>, t: DataType, e: Endianness) -> Seq<nat> {
    if entries.len() == 0 {
        Seq::empty()
    } else {
        match first_data_field(entries.last().fields@) {
            Some(b) => crate::codec::decoded_values(b, t, e),
            None => Seq::empty(),
        }
    }
}

/// Decode the plot samples of a stream: only the newest record's waveform
/// is plotted, taken from its first field whose name starts with an
/// underscore.
pub fn extract_stream_plot_raw(
    entries: &Vec<StreamEntry>, data_type: DataType, endianness: Endianness) -> (r: Vec<u64>)
    ensures
        r@.len() == spec_stream_plot_raw(entries@, data_type, endianness).len(),
        forall|i: int| 0 <= i < r@.len()
            ==> r@[i] == spec_stream_plot_raw(entries@, data_type, endianness)[i],
        forall|i: int| 0 <= i < r@.len()
            ==> r@[i] < crate::codec::pow256(crate::codec::elem_width(data_type)),
{
    if entries.len() == 0 {
        return Vec::new();
    }
    let entry = &entries[entries.len() - 1];
    proof {
        assert(entry.fields@.skip(0) =~= entry.fields@);
    }
    let mut j: usize = 0;
    while j < entry.fields.len()
        invariant
            entries@.len() > 0,
            *entry == entries@[entries@.len() - 1],
            j <= entry.fields@.len(),
            first_data_field(entry.fields@) == first_data_field(entry.fields@.skip(j as int)),
        decreases entry.fields@.len() - j,
    {
        let name = &entry.fields[j].0;
        let has_underscore = name.as_str().unicode_len() > 0
            && name.as_str().get_char(0) == '_';
        proof {
            assert(entry.fields@.skip(j as int)[0] == entry.fields@[j as int]);
            assert(entry.fields@.skip(j as int).drop_first()
                =~= entry.fields@.skip(j + 1));
        }
        if has_underscore {
            proof {
                assert(first_data_field(entry.fields@.skip(j as int))
                    == Some(entry.fields@[j as int].1@));
                assert(entries@.last() == entries@[entries@.len() - 1]);
                assert(spec_stream_plot_raw(entries@, data_type, endianness)
                    == crate::codec::decoded_values(entry.fields@[j as int].1@,
                        data_type, endianness));
            }
            return crate::codec::decode_raw(&entry.fields[j].1, data_type, endianness);
        }
        j += 1;
    }
    proof {
        assert(entry.fields@.skip(entry.fields@.len() as int)
            =~= Seq::<(String, Vec<u8>)>::empty());
        assert(entries@.last() == entries@[entries@.len() - 1]);
    }
    Vec::new()
}

/// The first 24 bytes of a buffer as space-separated hex pairs.
pub open spec fn hex_pairs(b: Seq<u8>) -> Seq<u8>
    decreases b.len(),
{
    if b.len() == 0 {
        Seq::empty()
    } else if b.len() == 1 {
        crate::textfmt::hex_pad(b[0] as nat, 2)
    } else {
        crate::textfmt::hex_pad(b[0] as nat, 2) + seq![0x20u8] + hex_pairs(b.drop_first())
    }
}

/// Appending one byte to a hex-pair run appends a space (when the run was
/// non-empty) and its pair.
proof fn lemma_hex_pairs_push(b: Seq<u8>, x: u8)
    ensures
        b.len() == 0 ==> hex_pairs(b.push(x)) == crate::textfmt::hex_pad(x as nat, 2),
        b.len() > 0 ==> hex_pairs(b.push(x))
            == hex_pairs(b) + seq![0x20u8] + crate::textfmt::hex_pad(x as nat, 2),
    decreases b.len(),
{
    let s = b.push(x);
    if b.len() == 0 {
        assert(s.len() == 1);
        assert(s[0] == x);
    } else {
        assert(s[0] == b[0]);
        assert(s.drop_first() =~= b.drop_first().push(x));
        lemma_hex_pairs_push(b.drop_first(), x);
        if b.len() == 1 {
            assert(b.drop_first().len() == 0);
            assert(hex_pairs(s)
                =~= hex_pairs(b) + seq![0x20u8] + crate::textfmt::hex_pad(x as nat, 2));
        } else {
            assert(hex_pairs(s)
                =~= hex_pairs(b) + seq![0x20u8] + crate::textfmt::hex_pad(x as nat, 2));
        }
    }
}

/// Every byte of a hex-pair run is ASCII.
proof fn lemma_hex_pairs_ascii(b: Seq<u8>)
    ensures
        forall|i: int| 0 <= i < hex_pairs(b).len() ==> hex_pairs(b)[i] < 0x80,
    decreases b.len(),
{
    if b.len() > 0 {
        crate::textfmt::lemma_hex_pad_ascii_bytes(b[0] as nat, 2);
        if b.len() > 1 {
            lemma_hex_pairs_ascii(b.drop_first());
            let head = crate::textfmt::hex_pad(b[0] as nat, 2);
            let rest = hex_pairs(b.drop_first());
            assert forall|i: int| 0 <= i < hex_pairs(b).len()
                implies hex_pairs(b)[i] < 0x80 by {
                if i < head.len() {
                    assert(hex_pairs(b)[i] == head[i]);
                } else if i >= head.len() + 1 {
                    assert(hex_pairs(b)[i] == rest[i - head.len() - 1]);
                }
            }
        }
    }
}

/// Render the first 24 bytes of a buffer as space-separated hex pairs.
fn push_hex_pairs(out: &mut Vec<u8>, b: &Vec<u8>, upto: usize)
    requires
        upto <= b@.len(),
    ensures
        final(out)@ == old(out)@ + hex_pairs(b@.take(upto as int)),
{
    let mut k: usize = 0;
    while k < upto
        invariant
            upto <= b@.len(),
            k <= upto,
            out@ == old(out)@ + hex_pairs(b@.take(k as int)),
        decreases upto - k,
    {
        if k > 0 {
            out.push(0x20);
        }
        crate::textfmt::push_hex_pad(out, b[k] as u64, 2);
        proof {
            assert(b@.take(k + 1) =~= b@.take(k as int).push(b@[k as int]));
            lemma_hex_pairs_push(b@.take(k as int), b@[k as int]);
            if k > 0 {
                assert(out@ =~= old(out)@ + hex_pairs(b@.take(k + 1)));
            } else {
                assert(out@ =~= old(out)@ + hex_pairs(b@.take(k + 1)));
            }
        }
        k += 1;
    }
}

/// The header line of one rendered record.
pub open spec fn entry_header_line(id: Seq<char>) -> Seq<char> {
    "--- "@ + id + " ("@ + spec_format_stream_id(id) + ") ---"@
}

/// The rendered lines of one record field.  A binary data field (name
/// starting with an underscore) shows a preview of its first eight
/// decoded samples and a hex summary of its first 24 bytes; any other
/// field shows its text.
pub open spec fn field_lines(
    fname: Seq<char>, fval: Seq<u8>, t: DataType, e: Endianness) -> Seq<Seq<char>> {
    if fname.len() > 0 && fname[0] == '_' && crate::data::spec_is_binary(fval) {
        let dv = crate::codec::decoded_values(fval, t, e);
        let preview: Seq<Seq<char>> = if dv.len() > 0 {
            seq![
                "  "@ + fname + " ["@ + crate::data::label_chars(t) + "]: ["@
                    + ascii_chars(crate::data::joined_values(
                        if dv.len() > 8 { dv.take(8) } else { dv }, t))
                    + "]"@
                    + if dv.len() > 8 {
                        " ..("@ + ascii_chars(crate::textfmt::dec_bytes(dv.len())) + " vals)"@
                    } else {
                        Seq::empty()
                    }
            ]
        } else {
            Seq::empty()
        };
        preview + seq![
            "  "@ + fname + " [hex, "@ + ascii_chars(crate::textfmt::dec_bytes(fval.len()))
                + " bytes]: "@
                + ascii_chars(hex_pairs(if fval.len() > 24 { fval.take(24) } else { fval }))
                + if fval.len() > 24 { "..."@ } else { Seq::empty() }
        ]
    } else {
        seq!["  "@ + fname + ": "@ + crate::textfmt::utf8_lossy_of(fval)]
    }
}

/// The rendered lines of a record's fields, in order.
pub open spec fn fields_lines(
    fs: Seq<(String, Vec<u8>)>, t: DataType, e: Endianness) -> Seq<Seq<char>>
    decreases fs.len(),
{
    if fs.len() == 0 {
        Seq::empty()
    } else {
        field_lines(fs[0].0@, fs[0].1@, t, e) + fields_lines(fs.drop_first(), t, e)
    }
}

/// The rendered lines of one record: its header, then its fields.
pub open spec fn entry_lines(en: StreamEntry, t: DataType, e: Endianness) -> Seq<Seq<char>> {
    seq![entry_header_line(en.id@)] + fields_lines(en.fields@, t, e)
}

/// The rendered lines of a run of records, newest first.
pub open spec fn entries_lines_rev(
    es: Seq<StreamEntry>, t: DataType, e: Endianness) -> Seq<Seq<char>>
    decreases es.len(),
{
    if es.len() == 0 {
        Seq::empty()
    } else {
        entry_lines(es.last(), t, e) + entries_lines_rev(es.drop_last(), t, e)
    }
}

/// What `format_stream_entries` returns: a note about hidden older
/// records when there are more than five, then the newest five records,
/// newest first.
pub open spec fn spec_format_stream_entries(
    entries: Seq<StreamEntry>, t: DataType, e: Endianness) -> Seq<Seq<char>> {
    let start = if entries.len() > 5 { entries.len() - 5 } else { 0 };
    let head: Seq<Seq<char>> = if start > 0 {
        seq![
            "("@ + ascii_chars(crate::textfmt::dec_bytes(start as nat))
                + " older entries hidden)"@,
            Seq::empty(),
        ]
    } else {
        Seq::empty()
    };
    head + entries_lines_rev(entries.skip(start as int), t, e)
}

/// Append the lines of one record field.
fn push_field_lines(
    out: &mut Vec<String>, fname: &String, fval: &Vec<u8>,
    t: DataType, e: Endianness)
    ensures
        final(out)@.map_values(|x: String| x@)
            == old(out)@.map_values(|x: String| x@) + field_lines(fname@, fval@, t, e),
{
    let is_data = fname.as_str().unicode_len() > 0 && fname.as_str().get_char(0) == '_';
    if is_data && crate::data::is_binary(fval) {
        let dv = crate::codec::decode_raw(fval, t, e);
        let ghost sdv = crate::codec::decoded_values(fval@, t, e);
        if dv.len() > 0 {
            let mut line = String::from_str("  ");
            line.append(fname.as_str());
            line.append(" [");
            line.append(t.label());
            line.append("]: [");
            let upto = if dv.len() > 8 { 8 } else { dv.len() };
            let mut pv: Vec<u8> = Vec::new();
            let mut i: usize = 0;
            proof {
                if dv@.len() > 8 {
                    assert(dv@.take(upto as int).map_values(|x: u64| x as nat)
                        =~= sdv.take(8));
                } else {
                    assert(dv@.take(upto as int).map_values(|x: u64| x as nat) =~= sdv);
                }
            }
            let ghost target = if sdv.len() > 8 { sdv.take(8) } else { sdv };
            while i < upto
                invariant
                    upto <= dv@.len(),
                    i <= upto,
                    target == dv@.take(upto as int).map_values(|x: u64| x as nat),
                    forall|k: int| 0 <= k < dv@.len()
                        ==> dv@[k] < crate::codec::pow256(crate::codec::elem_width(t)),
                    pv@ == crate::data::joined_values(target.take(i as int), t),
                decreases upto - i,
            {
                if i > 0 {
                    pv.push(0x2c);
                    pv.push(0x20);
                }
                crate::data::push_value_text(&mut pv, dv[i], t);
                proof {
                    assert(target[i as int] == dv@[i as int] as nat);
                    assert(target.take(i as int).push(target[i as int])
                        =~= target.take(i + 1));
                    crate::data::lemma_joined_values_push(
                        target.take(i as int), target[i as int], t);
                    if i > 0 {
                        assert(pv@ =~= crate::data::joined_values(target.take(i + 1), t));
                    }
                }
                i += 1;
            }
            proof {
                assert(target.take(upto as int) =~= target);
                crate::data::lemma_joined_values_ascii(target, t);
            }
            let pvs = ascii_string(pv);
            line.append(pvs.as_str());
            line.append("]");
            if dv.len() > 8 {
                line.append(" ..(");
                let mut cnt: Vec<u8> = Vec::new();
                crate::textfmt::push_dec(&mut cnt, dv.len() as u64);
                proof {
                    crate::textfmt::lemma_dec_pad_ascii(dv@.len() as nat, 1);
                }
                let cs = ascii_string(cnt);
                line.append(cs.as_str());
                line.append(" vals)");
            }
            proof {
                assert(line@ =~= "  "@ + fname@ + " ["@ + crate::data::label_chars(t)
                    + "]: ["@
                    + ascii_chars(crate::data::joined_values(
                        if sdv.len() > 8 { sdv.take(8) } else { sdv }, t))
                    + "]"@
                    + if sdv.len() > 8 {
                        " ..("@ + ascii_chars(crate::textfmt::dec_bytes(sdv.len()))
                            + " vals)"@
                    } else {
                        Seq::<char>::empty()
                    });
            }
            out.push(line);
        }
        let mut hline = String::from_str("  ");
        hline.append(fname.as_str());
        hline.append(" [hex, ");
        let mut cnt: Vec<u8> = Vec::new();
        crate::textfmt::push_dec(&mut cnt, fval.len() as u64);
        proof {
            crate::textfmt::lemma_dec_pad_ascii(fval@.len() as nat, 1);
        }
        let cs = ascii_string(cnt);
        hline.append(cs.as_str());
        hline.append(" bytes]: ");
        let hupto = if fval.len() > 24 { 24 } else { fval.len() };
        let mut hp: Vec<u8> = Vec::new();
        push_hex_pairs(&mut hp, fval, hupto);
        proof {
            lemma_hex_pairs_ascii(fval@.take(hupto as int));
            if fval@.len() > 24 {
                assert(fval@.take(hupto as int) =~= fval@.take(24));
            } else {
                assert(fval@.take(hupto as int) =~= fval@);
            }
        }
        let hs = ascii_string(hp);
        hline.append(hs.as_str());
        if fval.len() > 24 {
            hline.append("...");
        }
        let ghost hv = hline@;
        let ghost mid = out@.map_values(|x: String| x@);
        out.push(hline);
        proof {
            assert(hv =~= "  "@ + fname@ + " [hex, "@
                + ascii_chars(crate::textfmt::dec_bytes(fval@.len() as nat))
                + " bytes]: "@
                + ascii_chars(hex_pairs(if fval@.len() > 24 { fval@.take(24) } else { fval@ }))
                + if fval@.len() > 24 { "..."@ } else { Seq::<char>::empty() });
            assert(final(out)@.map_values(|x: String| x@) =~= mid.push(hv));
            assert(mid.push(hv) =~= old(out)@.map_values(|x: String| x@)
                + field_lines(fname@, fval@, t, e));
        }
    } else {
        let mut line = String::from_str("  ");
        line.append(fname.as_str());
        line.append(": ");
        let lossy = crate::textfmt::utf8_lossy(fval);
        line.append(lossy.as_str());
        let ghost lv = line@;
        out.push(line);
        proof {
            assert(final(out)@.map_values(|x: String| x@)
                =~= old(out)@.map_values(|x: String| x@).push(lv));
            assert(lv == "  "@ + fname@ + ": "@ + crate::textfmt::utf8_lossy_of(fval@));
            assert(old(out)@.map_values(|x: String| x@) + field_lines(fname@, fval@, t, e)
                =~= old(out)@.map_values(|x: String| x@).push(lv));
        }
    }
}

/// Render the newest records of a stream for the value view: at most the
/// last five, newest first, each with its identifier, its time of day and
/// its fields; binary data fields show a decoded preview and a hex
/// summary.
pub fn format_stream_entries(
    entries: &Vec<StreamEntry>, data_type: DataType, endianness: Endianness) -> (r: Vec<String>)
    ensures
        r@.map_values(|x: String| x@)
            == spec_format_stream_entries(entries@, data_type, endianness),
{
    let total = entries.len();
    let start = if total > 5 { total - 5 } else { 0 };
    let mut out: Vec<String> = Vec::new();
    if start > 0 {
        let mut head: Vec<u8> = Vec::new();
        head.push(0x28);
        crate::textfmt::push_dec(&mut head, start as u64);
        proof {
            crate::textfmt::lemma_dec_pad_ascii(start as nat, 1);
        }
        let hs = ascii_string(head);
        let mut line = String::new();
        line.append(hs.as_str());
        line.append(" older entries hidden)");
        out.push(line);
        out.push(String::new());
        proof {
            assert(hs@ =~= seq!['('] + ascii_chars(crate::textfmt::dec_bytes(start as nat)));
            assert(seq!['('] + ascii_chars(crate::textfmt::dec_bytes(start as nat))
                + " older entries hidden)"@
                =~= "("@ + ascii_chars(crate::textfmt::dec_bytes(start as nat))
                    + " older entries hidden)"@) by {
                reveal_strlit("(");
            }
        }
    }
    let ghost head_lines = out@.map_values(|x: String| x@);
    let ghost spec_all = spec_format_stream_entries(entries@, data_type, endianness);
    proof {
        assert(entries@.subrange(start as int, total as int) =~= entries@.skip(start as int));
        assert(head_lines + entries_lines_rev(entries@.skip(start as int), data_type, endianness)
            == spec_all);
    }
    let mut idx: usize = total;
    while idx > start
        invariant
            start <= idx <= total,
            total == entries@.len(),
            spec_all == spec_format_stream_entries(entries@, data_type, endianness),
            out@.map_values(|x: String| x@)
                + entries_lines_rev(entries@.subrange(start as int, idx as int),
                    data_type, endianness)
                == spec_all,
        decreases idx,
    {
        idx -= 1;
        let entry = &entries[idx];
        let ghost before = out@.map_values(|x: String| x@);
        let mut hline = String::from_str("--- ");
        hline.append(entry.id.as_str());
        hline.append(" (");
        let ts = format_stream_id(entry.id.as_str());
        hline.append(ts.as_str());
        hline.append(") ---");
        out.push(hline);
        proof {
            assert(out@.map_values(|x: String| x@)
                =~= before + seq![entry_header_line(entry.id@)]);
            assert(entry.fields@.skip(0) =~= entry.fields@);
            assert((before + seq![entry_header_line(entry.id@)])
                    + fields_lines(entry.fields@, data_type, endianness)
                =~= before + (seq![entry_header_line(entry.id@)]
                    + fields_lines(entry.fields@, data_type, endianness)));
        }
        let mut j: usize = 0;
        while j < entry.fields.len()
            invariant
                idx < entries@.len(),
                *entry == entries@[idx as int],
                j <= entry.fields@.len(),
                out@.map_values(|x: String| x@)
                    + fields_lines(entry.fields@.skip(j as int), data_type, endianness)
                    == before + entry_lines(entries@[idx as int], data_type, endianness),
            decreases entry.fields@.len() - j,
        {
            let ghost mid = out@.map_values(|x: String| x@);
            proof {
                assert(entry.fields@.skip(j as int)[0] == entry.fields@[j as int]);
                assert(entry.fields@.skip(j as int).drop_first()
                    =~= entry.fields@.skip(j + 1));
            }
            push_field_lines(
                &mut out, &entry.fields[j].0, &entry.fields[j].1, data_type, endianness);
            proof {
                assert(mid + (field_lines(entry.fields@[j as int].0@,
                        entry.fields@[j as int].1@, data_type, endianness)
                    + fields_lines(entry.fields@.skip(j + 1), data_type, endianness))
                    =~= (mid + field_lines(entry.fields@[j as int].0@,
                        entry.fields@[j as int].1@, data_type, endianness))
                    + fields_lines(entry.fields@.skip(j + 1), data_type, endianness));
            }
            j += 1;
        }
        proof {
            assert(entry.fields@.skip(entry.fields@.len() as int)
                =~= Seq::<(String, Vec<u8>)>::empty());
            assert(fields_lines(Seq::<(String, Vec<u8>)>::empty(), data_type, endianness)
                =~= Seq::<Seq<char>>::empty());
            assert(out@.map_values(|x: String| x@)
                =~= before + entry_lines(entries@[idx as int], data_type, endianness));
            let sub = entries@.subrange(start as int, (idx + 1) as int);
            assert(sub.last() == entries@[idx as int]);
            assert(sub.drop_last() =~= entries@.subrange(start as int, idx as int));
            assert(before + (entry_lines(entries@[idx as int], data_type, endianness)
                    + entries_lines_rev(entries@.subrange(start as int, idx as int),
                        data_type, endianness))
                =~= (before + entry_lines(entries@[idx as int], data_type, endianness))
                    + entries_lines_rev(entries@.subrange(start as int, idx as int),
                        data_type, endianness));
        }
    }
    proof {
        assert(entries@.subrange(start as int, start as int) =~= Seq::<StreamEntry>::empty());
        assert(out@.map_values(|x: String| x@) + Seq::<Seq<char>>::empty()
            =~= out@.map_values(|x: String| x@));
    }
    out
}

} // verus!
