use redis_tui::dashboard::{format_size, Dashboard, Panel};
use redis_tui::data::{DataType, Endianness};
use redis_tui::edit::{EditError, EditForm, KeyKind, SignalGenForm, StoreCommand};
use redis_tui::spectrum::{SpectrumAction, SpectrumPipeline, SpectrumState};
use redis_tui::stream::StreamEntry;
use redis_tui::value::{render_value_lines, split_lines};
use redis_tui::viewport::{
    auto_bounds, check_manual_bounds, pan_window, pixel_to_data, signal_x_bounds, zoom_range,
    BoundError, MICRO,
};
use redis_tui::workers::{
    xorshift_step, GeneratorAction, GeneratorState, IngestAction, IngestEvent, IngestState,
    WorkerSlot,
};

#[test]
fn auto_bounds_empty_single_and_range() {
    // no samples: the unit window
    assert_eq!(auto_bounds(&vec![]), (0, MICRO));
    // one sample: padded by one unit on each side
    assert_eq!(auto_bounds(&vec![5 * MICRO]), (4 * MICRO, 6 * MICRO));
    // a range: padded by a tenth of it on each side
    assert_eq!(
        auto_bounds(&vec![1 * MICRO, 2 * MICRO, 3 * MICRO]),
        (800_000, 3_200_000)
    );
    // flat but non-zero range rule
    assert_eq!(auto_bounds(&vec![7, 7]), (7 - MICRO, 7 + MICRO));
}

#[test]
fn zoom_in_then_out_restores_bounds() {
    let (l1, h1) = zoom_range(0, MICRO, 2, 1, 1, 2, None, None);
    assert_eq!((l1, h1), (250_000, 750_000));
    let (l2, h2) = zoom_range(l1, h1, 1, 2, 1, 2, None, None);
    assert_eq!((l2, h2), (0, MICRO));
}

#[test]
fn zoom_clamps_to_absolute_limits() {
    let (l, h) = zoom_range(0, 10, 1, 2, 0, 1, Some(0), Some(15));
    assert_eq!((l, h), (0, 15));
}

#[test]
fn zoom_never_collapses_the_window() {
    // halving a one-micro-unit window would collapse it: no-op
    assert_eq!(zoom_range(0, 1, 2, 1, 1, 2, None, None), (0, 1));
}

#[test]
fn signal_window_shows_newest_samples() {
    assert_eq!(signal_x_bounds(100, 2000, 0, 0), (0, 100 * MICRO));
    assert_eq!(signal_x_bounds(5000, 2000, 0, 0), (3000 * MICRO, 5000 * MICRO));
    // manual window wins
    assert_eq!(signal_x_bounds(5000, 2000, 7, 9), (7, 9));
}

#[test]
fn pixel_mapping_is_linear_and_bounded() {
    let r = pixel_to_data(60, 30, 10, 5, 100, 50, 0, MICRO, 0, MICRO);
    assert_eq!(r, Some((500_000, 500_000)));
    // outside the chart
    assert_eq!(pixel_to_data(5, 30, 10, 5, 100, 50, 0, MICRO, 0, MICRO), None);
    assert_eq!(pixel_to_data(110, 30, 10, 5, 100, 50, 0, MICRO, 0, MICRO), None);
    // top row maps near the upper bound, bottom row near the lower
    let top = pixel_to_data(10, 5, 10, 5, 100, 50, 0, MICRO, 0, MICRO).unwrap();
    assert_eq!(top.1, MICRO);
    let bottom = pixel_to_data(10, 54, 10, 5, 100, 50, 0, MICRO, 0, MICRO).unwrap();
    assert_eq!(bottom.1, 20_000);
}

#[test]
fn pan_translates_both_bounds() {
    assert_eq!(pan_window(0, MICRO, -10, 100), (-100_000, 900_000));
    assert_eq!(pan_window(0, MICRO, 10, 100), (100_000, 1_100_000));
    assert_eq!(pan_window(-5, 5, 0, 10), (-5, 5));
}

#[test]
fn manual_bounds_must_be_ordered() {
    assert_eq!(check_manual_bounds(1, 2), Ok((1, 2)));
    assert_eq!(check_manual_bounds(2, 2), Err(BoundError::InvalidBound));
    assert_eq!(check_manual_bounds(3, 2), Err(BoundError::InvalidBound));
}

#[test]
fn spectrum_empty_signal_clears_at_once() {
    let mut p = SpectrumPipeline::new();
    assert_eq!(p.trigger(0), SpectrumAction::ClearResult);
    assert_eq!(p.state, SpectrumState::Idle);
    assert!(!p.has_result);
}

#[test]
fn spectrum_superseded_result_is_discarded() {
    let mut p = SpectrumPipeline::new();
    let a1 = p.trigger(100);
    assert_eq!(a1, SpectrumAction::Spawn(1));
    let a2 = p.trigger(100);
    assert_eq!(a2, SpectrumAction::Spawn(2));
    // the first computation's late result is not applied
    assert!(!p.deliver(1));
    assert_eq!(p.state, SpectrumState::Computing);
    assert!(!p.has_result);
    // the outstanding one's is
    assert!(p.deliver(2));
    assert_eq!(p.state, SpectrumState::Ready);
    assert!(p.has_result);
    // and only once
    assert!(!p.deliver(2));
}

#[test]
fn spectrum_worker_loss_returns_to_idle() {
    let mut p = SpectrumPipeline::new();
    p.trigger(10);
    assert!(p.worker_gone(1));
    assert_eq!(p.state, SpectrumState::Idle);
    assert!(!p.has_result);
}

fn entry(id: &str) -> StreamEntry {
    StreamEntry { id: id.to_string(), fields: vec![("f".to_string(), vec![1])] }
}

#[test]
fn three_records_after_timeouts() {
    // a run of timeouts forwards nothing …
    let mut w = IngestState::new("0-0".to_string());
    for _ in 0..4 {
        match w.step(IngestEvent::Timeout) {
            IngestAction::Wait => {}
            _ => panic!("timeout must only wait"),
        }
        assert_eq!(w.watermark, "0-0");
    }
    // … and one batch of three forwards exactly those three and
    // advances the watermark to the last record's id
    let batch = vec![entry("1-0"), entry("1-1"), entry("2-0")];
    match w.step(IngestEvent::Batch(batch)) {
        IngestAction::Forward(got) => {
            assert_eq!(got.len(), 3);
            assert_eq!(got[2].id, "2-0");
        }
        _ => panic!("a batch must be forwarded"),
    }
    assert_eq!(w.watermark, "2-0");
}

#[test]
fn read_errors_back_off_and_keep_the_watermark() {
    let mut w = IngestState::new("5-5".to_string());
    match w.step(IngestEvent::ReadError) {
        IngestAction::Backoff => {}
        _ => panic!("errors must back off"),
    }
    assert_eq!(w.watermark, "5-5");
    match w.step(IngestEvent::Batch(vec![])) {
        IngestAction::Wait => {}
        _ => panic!("an empty batch forwards nothing"),
    }
    assert_eq!(w.watermark, "5-5");
}

#[test]
fn stale_worker_batches_never_interleave() {
    let mut slot = WorkerSlot::new();
    let e1 = slot.start();
    assert!(slot.accepts(e1));
    slot.stop();
    assert!(!slot.accepts(e1));
    let e2 = slot.start();
    // batches tagged with the old epoch are rejected for good
    assert!(!slot.accepts(e1));
    assert!(slot.accepts(e2));
}

#[test]
fn generator_phase_advances_only_on_successful_writes() {
    let mut g = GeneratorState::new();
    assert_eq!(g.tick(true), GeneratorAction::WriteRecord);
    assert_eq!(g.tick(false), GeneratorAction::RetryAfterBackoff);
    assert_eq!(g.tick(true), GeneratorAction::WriteRecord);
    assert_eq!(g.records_written, 2);
}

#[test]
fn noise_generator_is_deterministic() {
    assert_eq!(xorshift_step(1), 0x40822041);
    assert_eq!(xorshift_step(1), 0x40822041);
    assert_ne!(xorshift_step(xorshift_step(1)), xorshift_step(1));
}

#[test]
fn size_text_rounds_like_the_float_formatter() {
    assert_eq!(format_size(-1), "?");
    assert_eq!(format_size(0), "0 B");
    assert_eq!(format_size(512), "512 B");
    assert_eq!(format_size(1024), "1.0 KB");
    assert_eq!(format_size(1536), "1.5 KB");
    // ties round to even, as {:.1} does on 1.25 and 1.75
    assert_eq!(format_size(1280), format!("{:.1} KB", 1280f64 / 1024.0));
    assert_eq!(format_size(1792), format!("{:.1} KB", 1792f64 / 1024.0));
    assert_eq!(format_size(2 * 1024 * 1024), "2.0 MB");
}

#[test]
fn panels_cycle_in_tab_order() {
    assert_eq!(Panel::KeyList.next(), Panel::ValueView);
    assert_eq!(Panel::ValueView.next(), Panel::DataPlot);
    assert_eq!(Panel::DataPlot.next(), Panel::KeyList);
    for p in [Panel::KeyList, Panel::ValueView, Panel::DataPlot] {
        assert_eq!(p.next().prev(), p);
        assert_eq!(p.prev().next(), p);
    }
}

#[test]
fn sample_types_cycle_through_all_ten() {
    let mut t = DataType::Int8;
    for _ in 0..10 {
        t = t.next();
    }
    assert_eq!(t, DataType::Int8);
    for ty in DataType::all() {
        assert_eq!(ty.next().prev(), ty);
    }
    assert_eq!(DataType::UInt8.byte_size(), Some(1));
    assert_eq!(DataType::Float64.byte_size(), Some(8));
    assert_eq!(DataType::Text.byte_size(), None);
    assert_eq!(Endianness::Little.toggle(), Endianness::Big);
    assert_eq!(Endianness::Big.toggle(), Endianness::Little);
}

#[test]
fn key_list_selection_wraps_and_survives_reload() {
    let mut d = Dashboard::new();
    d.set_keys(
        vec!["a".to_string(), "b".to_string(), "c".to_string()],
        vec!["string".to_string(), "hash".to_string(), "list".to_string()],
    );
    assert_eq!(d.selected, Some(0));
    d.select_prev_key();
    assert_eq!(d.selected, Some(2));
    d.select_next_key();
    assert_eq!(d.selected, Some(0));
    // reload with fewer keys clamps the selection
    d.select_prev_key();
    d.set_keys(vec!["a".to_string()], vec!["string".to_string()]);
    assert_eq!(d.selected, Some(0));
    d.set_keys(vec![], vec![]);
    assert_eq!(d.selected, None);
}

#[test]
fn filter_pattern_wraps_the_text() {
    let mut d = Dashboard::new();
    d.apply_filter();
    assert_eq!(d.filter_pattern, "*");
    d.filter_text = "user".to_string();
    d.apply_filter();
    assert_eq!(d.filter_pattern, "*user*");
}

#[test]
fn value_scroll_saturates() {
    let mut d = Dashboard::new();
    d.scroll_value_up();
    assert_eq!(d.value_scroll, 0);
    d.scroll_value_down();
    d.scroll_value_down();
    assert_eq!(d.value_scroll, 2);
    d.value_scroll = u16::MAX;
    d.scroll_value_down();
    assert_eq!(d.value_scroll, u16::MAX);
}

#[test]
fn lines_split_like_the_std_splitter() {
    let v = split_lines("a\r\nb\nc");
    let views: Vec<&str> = v.iter().map(|s| s.as_str()).collect();
    assert_eq!(views, vec!["a", "b", "c"]);
    assert_eq!(split_lines("").len(), 0);
    let v = split_lines("x\n");
    assert_eq!(v.len(), 1);
    assert_eq!(v[0], "x");
    let v = split_lines("\n\n");
    assert_eq!(v.len(), 2);
}

#[test]
fn json_text_is_pretty_printed() {
    let bytes = b"{\"a\":1}".to_vec();
    let lines = render_value_lines(&bytes, DataType::UInt8, Endianness::Little);
    let views: Vec<&str> = lines.iter().map(|s| s.as_str()).collect();
    assert_eq!(views, vec!["{", "  \"a\": 1", "}"]);
}

#[test]
fn plain_text_keeps_its_lines() {
    let bytes = b"hi\nthere".to_vec();
    let lines = render_value_lines(&bytes, DataType::UInt8, Endianness::Little);
    assert_eq!(lines.len(), 2);
    assert_eq!(lines[0], "hi");
    assert_eq!(lines[1], "there");
}

#[test]
fn binary_value_shows_decode_and_dump() {
    let bytes = vec![0u8, 1, 2];
    let lines = render_value_lines(&bytes, DataType::UInt8, Endianness::Little);
    assert_eq!(lines[0], "-- Decoded as uint8 (LE) --");
    assert_eq!(lines[1], "0, 1, 2");
    assert_eq!(lines[2], "");
    assert_eq!(lines[3], "-- Hex dump (3 bytes) --");
    assert!(lines[4].starts_with("00000000  00 01 02"));
}

#[test]
fn edit_plan_text_operations() {
    let mut f = EditForm::new();
    assert_eq!(f.plan_command(Endianness::Little), Err(EditError::NoOperation));
    assert!(f.open_edit(KeyKind::Text, "k".to_string(), "old".to_string()));
    match f.plan_command(Endianness::Little) {
        Ok(StoreCommand::SetText { key, value }) => {
            assert_eq!(key, "k");
            assert_eq!(value, "old");
        }
        other => panic!("unexpected plan: {:?}", plan_name(&other)),
    }
    assert!(!f.open_edit(KeyKind::Other, "k".to_string(), String::new()));
}

fn plan_name(r: &Result<StoreCommand, EditError>) -> &'static str {
    match r {
        Ok(_) => "ok",
        Err(_) => "err",
    }
}

#[test]
fn edit_plan_requires_field_names() {
    let mut f = EditForm::new();
    assert!(f.open_edit(KeyKind::Hash, "h".to_string(), String::new()));
    assert_eq!(f.plan_command(Endianness::Little), Err(EditError::FieldRequired));
    f.fields[0].1 = "field1".to_string();
    f.fields[1].1 = "v".to_string();
    match f.plan_command(Endianness::Little) {
        Ok(StoreCommand::HSetText { key, field, value }) => {
            assert_eq!((key.as_str(), field.as_str(), value.as_str()), ("h", "field1", "v"));
        }
        _ => panic!("hash entry with a field name must plan"),
    }
}

#[test]
fn edit_plan_binary_mode_encodes() {
    let mut f = EditForm::new();
    assert!(f.open_edit(KeyKind::Text, "k".to_string(), String::new()));
    f.fields[0].1 = "1 2 3".to_string();
    f.binary_mode = true;
    f.binary_dtype = DataType::UInt8;
    match f.plan_command(Endianness::Little) {
        Ok(StoreCommand::SetBytes { key, bytes }) => {
            assert_eq!(key, "k");
            assert_eq!(bytes, vec![1, 2, 3]);
        }
        _ => panic!("binary text edit must encode"),
    }
    f.fields[0].1 = "bad".to_string();
    match f.plan_command(Endianness::Little) {
        Err(EditError::Encode(_)) => {}
        _ => panic!("a bad token must be rejected"),
    }
}

#[test]
fn edit_plan_ttl_cases() {
    let mut f = EditForm::new();
    f.open_set_ttl("k".to_string(), -1);
    assert_eq!(f.fields[0].1, "");
    match f.plan_command(Endianness::Little) {
        Ok(StoreCommand::Persist { key }) => assert_eq!(key, "k"),
        _ => panic!("empty ttl must persist"),
    }
    f.fields[0].1 = " 10 ".to_string();
    match f.plan_command(Endianness::Little) {
        Ok(StoreCommand::SetTtl { key, ttl }) => {
            assert_eq!(key, "k");
            assert_eq!(ttl, 10);
        }
        _ => panic!("a number must set the ttl"),
    }
    f.fields[0].1 = "-3".to_string();
    match f.plan_command(Endianness::Little) {
        Ok(StoreCommand::Persist { .. }) => {}
        _ => panic!("a negative ttl must persist"),
    }
    f.fields[0].1 = "soon".to_string();
    assert_eq!(f.plan_command(Endianness::Little), Err(EditError::InvalidTtl));
}

#[test]
fn edit_plan_rename_and_new_key() {
    let mut f = EditForm::new();
    f.open_rename("oldname".to_string());
    assert_eq!(f.fields[0].1, "oldname");
    f.fields[0].1 = String::new();
    assert_eq!(f.plan_command(Endianness::Little), Err(EditError::FieldRequired));
    f.fields[0].1 = "newname".to_string();
    match f.plan_command(Endianness::Little) {
        Ok(StoreCommand::Rename { key, new_name }) => {
            assert_eq!((key.as_str(), new_name.as_str()), ("oldname", "newname"));
        }
        _ => panic!("rename with a name must plan"),
    }
    f.open_new_key();
    assert_eq!(f.plan_command(Endianness::Little), Err(EditError::FieldRequired));
    f.fields[0].1 = "fresh".to_string();
    f.fields[1].1 = "v".to_string();
    f.cycle_new_key_kind(true);
    f.cycle_new_key_kind(true);
    f.cycle_new_key_kind(true);
    f.cycle_new_key_kind(true);
    // kind index 4: the scored kind carries a zero score as text
    match f.plan_command(Endianness::Little) {
        Ok(StoreCommand::ZAddText { key, score_text, member }) => {
            assert_eq!((key.as_str(), score_text.as_str(), member.as_str()), ("fresh", "0", "v"));
        }
        _ => panic!("new scored key must plan a scored insert"),
    }
}

#[test]
fn edit_plan_list_index() {
    let mut f = EditForm::new();
    f.operation = Some(redis_tui::dashboard::EditOperation::LSet);
    f.fields = vec![
        ("Index".to_string(), "x".to_string()),
        ("Value".to_string(), "v".to_string()),
    ];
    f.key = "l".to_string();
    assert_eq!(f.plan_command(Endianness::Little), Err(EditError::InvalidIndex));
    f.fields[0].1 = "-1".to_string();
    match f.plan_command(Endianness::Little) {
        Ok(StoreCommand::LSetText { index, .. }) => assert_eq!(index, -1),
        _ => panic!("an integer index must plan"),
    }
}

#[test]
fn multi_entry_session_resets_fields() {
    let mut f = EditForm::new();
    assert!(f.open_edit(KeyKind::Members, "s".to_string(), String::new()));
    assert!(f.is_multi_entry());
    f.fields[0].1 = "m1".to_string();
    f.reset_for_next();
    assert_eq!(f.multi_count, 1);
    assert_eq!(f.fields[0].0, "Member");
    assert_eq!(f.fields[0].1, "");
    let mut g = EditForm::new();
    g.open_rename("k".to_string());
    assert!(!g.is_multi_entry());
}

#[test]
fn signal_gen_form_cycles() {
    let mut f = SignalGenForm::new();
    assert_eq!(f.wave_label(), "sine");
    assert_eq!(f.data_type(), DataType::Float32);
    f.cycle_wave(true);
    assert_eq!(f.wave_label(), "square");
    f.cycle_wave(false);
    f.cycle_wave(false);
    assert_eq!(f.wave_label(), "triangle");
    for _ in 0..7 {
        f.next_field();
    }
    assert_eq!(f.focus, 0);
    f.prev_field();
    assert_eq!(f.focus, 6);
}

#[test]
fn prepared_bytes_plan_carries_them_through() {
    let mut f = EditForm::new();
    assert!(f.open_edit(KeyKind::Text, "k".to_string(), String::new()));
    match f.plan_prepared_value(vec![9, 8]) {
        Ok(StoreCommand::SetBytes { key, bytes }) => {
            assert_eq!(key, "k");
            assert_eq!(bytes, vec![9, 8]);
        }
        _ => panic!("prepared bytes must plan a byte write"),
    }
    f.open_rename("k".to_string());
    assert!(f.plan_prepared_value(vec![1]).is_err());
}
