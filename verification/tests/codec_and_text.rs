use redis_tui::codec::{decode_raw, encode_raw, raw_to_signed};
use redis_tui::data::{
    encode_values, format_blob, format_hex, is_binary, tokenize, DataType, EncodeError, Endianness,
};
use redis_tui::stream::{format_stream_id, StreamEntry};
use redis_tui::textfmt::{parse_i64, parse_u64};

#[test]
fn decode_counts_whole_elements_only() {
    let b: Vec<u8> = vec![1, 2, 3, 4, 5];
    assert_eq!(decode_raw(&b, DataType::Int16, Endianness::Little).len(), 2);
    assert_eq!(decode_raw(&b, DataType::Int32, Endianness::Little).len(), 1);
    assert_eq!(decode_raw(&b, DataType::Float64, Endianness::Little).len(), 0);
    assert_eq!(decode_raw(&b, DataType::UInt8, Endianness::Big).len(), 5);
    assert_eq!(decode_raw(&b, DataType::Blob, Endianness::Little).len(), 5);
}

#[test]
fn decode_respects_byte_order() {
    let b: Vec<u8> = vec![1, 2, 3, 4];
    assert_eq!(decode_raw(&b, DataType::Int16, Endianness::Little), vec![0x0201, 0x0403]);
    assert_eq!(decode_raw(&b, DataType::Int16, Endianness::Big), vec![0x0102, 0x0304]);
    assert_eq!(decode_raw(&b, DataType::UInt32, Endianness::Little), vec![0x04030201]);
    assert_eq!(decode_raw(&b, DataType::UInt32, Endianness::Big), vec![0x01020304]);
}

#[test]
fn decode_float_patterns_match_ieee_bits() {
    let one_half = 1.5f32;
    let b: Vec<u8> = one_half.to_le_bytes().to_vec();
    let vals = decode_raw(&b, DataType::Float32, Endianness::Little);
    assert_eq!(vals, vec![one_half.to_bits() as u64]);
    let pi = 3.14159f64;
    let b: Vec<u8> = pi.to_be_bytes().to_vec();
    let vals = decode_raw(&b, DataType::Float64, Endianness::Big);
    assert_eq!(vals, vec![pi.to_bits()]);
}

#[test]
fn encode_after_decode_restores_truncated_buffer() {
    let b: Vec<u8> = vec![9, 8, 7, 6, 5];
    for t in [DataType::Int16, DataType::UInt16] {
        for e in [Endianness::Little, Endianness::Big] {
            let vals = decode_raw(&b, t, e);
            let back = encode_raw(&vals, t, e);
            assert_eq!(back, vec![9, 8, 7, 6]);
        }
    }
    let vals = decode_raw(&b, DataType::UInt8, Endianness::Little);
    assert_eq!(encode_raw(&vals, DataType::UInt8, Endianness::Little), b);
}

#[test]
fn signed_reading_is_twos_complement() {
    assert_eq!(raw_to_signed(0xff, DataType::Int8), -1);
    assert_eq!(raw_to_signed(0x80, DataType::Int8), -128);
    assert_eq!(raw_to_signed(0x7f, DataType::Int8), 127);
    assert_eq!(raw_to_signed(0xffff, DataType::Int16), -1);
    assert_eq!(raw_to_signed(0xffffffff, DataType::Int32), -1);
    assert_eq!(raw_to_signed(0xffffffff, DataType::UInt32), 0xffffffff);
    assert_eq!(raw_to_signed(0x41, DataType::Text), 0x41);
}

#[test]
fn tokenizer_splits_and_trims() {
    let toks = tokenize("1, 2  3 ,,4");
    let views: Vec<&str> = toks.iter().map(|s| s.as_str()).collect();
    assert_eq!(views, vec!["1", "2", "3", "4"]);
    assert_eq!(tokenize("  ,  , ").len(), 0);
    assert_eq!(tokenize("").len(), 0);
    let toks = tokenize("\ta\t");
    assert_eq!(toks[0].as_str(), "a");
}

#[test]
fn encode_values_integer_types() {
    assert_eq!(encode_values("1, 2 3", DataType::UInt8, Endianness::Little), Ok(vec![1, 2, 3]));
    assert_eq!(encode_values("-1", DataType::Int8, Endianness::Little), Ok(vec![0xff]));
    assert_eq!(encode_values("-2", DataType::Int16, Endianness::Big), Ok(vec![0xff, 0xfe]));
    assert_eq!(encode_values("+5", DataType::UInt16, Endianness::Little), Ok(vec![5, 0]));
    assert_eq!(
        encode_values("65535", DataType::UInt16, Endianness::Big),
        Ok(vec![0xff, 0xff])
    );
    assert_eq!(
        encode_values("-2147483648", DataType::Int32, Endianness::Little),
        Ok(vec![0, 0, 0, 0x80])
    );
}

#[test]
fn encode_values_rejections() {
    assert_eq!(encode_values("", DataType::UInt8, Endianness::Little),
        Err(EncodeError::EmptyInput));
    assert_eq!(encode_values(" ,  ", DataType::Int32, Endianness::Little),
        Err(EncodeError::EmptyInput));
    assert_eq!(encode_values("256", DataType::UInt8, Endianness::Little),
        Err(EncodeError::InvalidToken));
    assert_eq!(encode_values("-1", DataType::UInt8, Endianness::Little),
        Err(EncodeError::InvalidToken));
    assert_eq!(encode_values("128", DataType::Int8, Endianness::Little),
        Err(EncodeError::InvalidToken));
    assert_eq!(encode_values("1.5", DataType::UInt8, Endianness::Little),
        Err(EncodeError::InvalidToken));
    assert_eq!(encode_values("abc", DataType::Int16, Endianness::Little),
        Err(EncodeError::InvalidToken));
    assert_eq!(encode_values("1", DataType::Float32, Endianness::Little),
        Err(EncodeError::UnsupportedType));
    assert_eq!(encode_values("x", DataType::Text, Endianness::Little),
        Err(EncodeError::UnsupportedType));
    assert_eq!(encode_values("x", DataType::Blob, Endianness::Little),
        Err(EncodeError::UnsupportedType));
}

#[test]
fn binary_detection_spares_plain_text() {
    assert!(!is_binary(&b"hello world\r\n\tok".to_vec()));
    assert!(is_binary(&vec![0x00]));
    assert!(is_binary(&vec![b'a', 0x1f]));
    assert!(!is_binary(&vec![]));
    assert!(!is_binary(&vec![0xff, 0xfe]));
}

#[test]
fn hex_dump_single_line() {
    let dump = format_hex(&vec![0x41]);
    let mut cells = String::from("41 ");
    for j in 1..16 {
        cells.push_str("   ");
        if j == 7 {
            cells.push(' ');
        }
    }
    assert_eq!(dump, format!("00000000  {} |A|\n", cells));
}

#[test]
fn hex_dump_two_lines_offsets() {
    let bytes: Vec<u8> = (0u8..18).collect();
    let dump = format_hex(&bytes);
    let lines: Vec<&str> = dump.lines().collect();
    assert_eq!(lines.len(), 2);
    assert!(lines[0].starts_with("00000000  00 01 02 03 04 05 06 07  08 09"));
    assert!(lines[1].starts_with("00000010  10 11 "));
    assert!(lines[0].ends_with("|................|"));
}

#[test]
fn format_blob_integer_values() {
    assert_eq!(format_blob(&vec![0xff, 5], DataType::Int8, Endianness::Little), "-1, 5");
    assert_eq!(format_blob(&vec![1], DataType::Int16, Endianness::Little), "(no complete values)");
    assert_eq!(
        format_blob(&vec![0x01, 0x02], DataType::UInt16, Endianness::Big),
        "258"
    );
}

#[test]
fn format_blob_float_shows_raw_pattern() {
    let b: Vec<u8> = 1.0f32.to_le_bytes().to_vec();
    assert_eq!(format_blob(&b, DataType::Float32, Endianness::Little), "0x3f800000");
}

#[test]
fn format_blob_text_is_lossy_decoded() {
    let s = format_blob(&vec![0x41, 0xff], DataType::Text, Endianness::Little);
    assert_eq!(s, "A\u{fffd}");
}

#[test]
fn stream_id_becomes_time_of_day() {
    assert_eq!(format_stream_id("1000-0"), "00:00:01.000:0");
    assert_eq!(format_stream_id("86400000-5"), "00:00:00.000:5");
    assert_eq!(format_stream_id("3723456-12"), "01:02:03.456:12");
    assert_eq!(format_stream_id("notanid"), "notanid");
    assert_eq!(format_stream_id("12ab-3"), "12ab-3");
    assert_eq!(format_stream_id(""), "");
}

#[test]
fn integer_parsers_match_std() {
    for s in ["0", "+7", "-8", "9223372036854775807", "-9223372036854775808",
        "9223372036854775808", "abc", "", "+", "-", "00012", "1 2"] {
        assert_eq!(parse_i64(s), s.parse::<i64>().ok(), "i64 {:?}", s);
        assert_eq!(parse_u64(s), s.parse::<u64>().ok(), "u64 {:?}", s);
    }
    assert_eq!(parse_u64("18446744073709551615"), Some(u64::MAX));
    assert_eq!(parse_u64("18446744073709551616"), None);
}

#[test]
fn stream_entries_render_newest_first() {
    let mk = |id: &str, f: &str, v: &[u8]| StreamEntry {
        id: id.to_string(),
        fields: vec![(f.to_string(), v.to_vec())],
    };
    let entries: Vec<StreamEntry> = (0..7).map(|i| {
        mk(&format!("id{}", i), "note", format!("v{}", i).as_bytes())
    }).collect();
    let lines = redis_tui::stream::format_stream_entries(
        &entries, DataType::UInt8, Endianness::Little);
    assert_eq!(lines[0], "(2 older entries hidden)");
    assert_eq!(lines[1], "");
    assert_eq!(lines[2], "--- id6 (id6) ---");
    assert_eq!(lines[3], "  note: v6");
    assert_eq!(lines[4], "--- id5 (id5) ---");
    assert_eq!(lines.len(), 2 + 5 * 2);
}

#[test]
fn stream_entries_binary_field_preview() {
    let e = StreamEntry {
        id: "7-0".to_string(),
        fields: vec![("_w".to_string(), vec![1, 2, 3])],
    };
    let lines = redis_tui::stream::format_stream_entries(
        &vec![e], DataType::UInt8, Endianness::Little);
    assert_eq!(lines[0], "--- 7-0 (00:00:00.007:0) ---");
    assert_eq!(lines[1], "  _w [uint8]: [1, 2, 3]");
    assert_eq!(lines[2], "  _w [hex, 3 bytes]: 01 02 03");
}

#[test]
fn stream_entries_long_binary_field_is_truncated() {
    let val: Vec<u8> = (0u8..30).collect();
    let e = StreamEntry {
        id: "x".to_string(),
        fields: vec![("_data".to_string(), val)],
    };
    let lines = redis_tui::stream::format_stream_entries(
        &vec![e], DataType::UInt8, Endianness::Little);
    assert_eq!(lines[1], "  _data [uint8]: [0, 1, 2, 3, 4, 5, 6, 7] ..(30 vals)");
    assert!(lines[2].starts_with("  _data [hex, 30 bytes]: 00 01"));
    assert!(lines[2].ends_with("17..."));
}

#[test]
fn stream_plot_uses_newest_record_data_field() {
    let e1 = StreamEntry {
        id: "1-0".to_string(),
        fields: vec![("_w".to_string(), vec![9])],
    };
    let e2 = StreamEntry {
        id: "2-0".to_string(),
        fields: vec![
            ("note".to_string(), vec![0]),
            ("_w".to_string(), vec![1, 2]),
        ],
    };
    let raw = redis_tui::stream::extract_stream_plot_raw(
        &vec![e1, e2], DataType::UInt8, Endianness::Little);
    assert_eq!(raw, vec![1, 2]);
    let none = redis_tui::stream::extract_stream_plot_raw(
        &vec![], DataType::UInt8, Endianness::Little);
    assert!(none.is_empty());
}

#[test]
fn formatted_samples_reencode_to_the_buffer() {
    // decode, render as text, and encode the text again: the buffer
    // comes back truncated to whole elements
    let b: Vec<u8> = vec![0xff, 0x00, 0x7f, 0x80, 0x01];
    for t in [
        DataType::Int8,
        DataType::UInt8,
        DataType::Int16,
        DataType::UInt16,
        DataType::Int32,
        DataType::UInt32,
    ] {
        for e in [Endianness::Little, Endianness::Big] {
            let w = t.byte_size().unwrap();
            let text = format_blob(&b, t, e);
            let whole = b.len() / w * w;
            if whole == 0 {
                continue;
            }
            assert_eq!(
                encode_values(&text, t, e),
                Ok(b[..whole].to_vec()),
                "{t:?} {e:?}"
            );
        }
    }
}
