//! Dashboard state: the single owner of the key list, the selection, the
//! decode configuration and the input-mode machinery.  It is mutated only
//! from the render/input thread; background workers reach it through
//! channels alone.

use vstd::prelude::*;
use vstd::string::is_ascii;
use vstd::string::StringExecFns;
use crate::data::DataType;
use crate::data::Endianness;
use crate::textfmt::ascii_chars;
use crate::textfmt::ascii_string;
use crate::textfmt::dec_bytes;
use crate::textfmt::push_dec;

verus! {

/// The panes of the dashboard, in tab order.
#[derive(Debug, Clone, Copy, PartialEq, Eq, Structural)]
pub enum Panel {
    KeyList,
    ValueView,
    DataPlot,
}

impl Panel {
    /// The next pane in tab order, wrapping at the end.
    pub fn next(&self) -> (r: Panel)
        ensures
            r == match *self {
                Panel::KeyList => Panel::ValueView,
                Panel::ValueView => Panel::DataPlot,
                Panel::DataPlot => Panel::KeyList,
            },
    {
        match self {
            Panel::KeyList => Panel::ValueView,
            Panel::ValueView => Panel::DataPlot,
            Panel::DataPlot => Panel::KeyList,
        }
    }

    /// The previous pane in tab order, wrapping at the start.
    pub fn prev(&self) -> (r: Panel)
        ensures
            r == match *self {
                Panel::KeyList => Panel::DataPlot,
                Panel::ValueView => Panel::KeyList,
                Panel::DataPlot => Panel::ValueView,
            },
    {
        match self {
            Panel::KeyList => Panel::DataPlot,
            Panel::ValueView => Panel::KeyList,
            Panel::DataPlot => Panel::ValueView,
        }
    }
}

/// What the input thread is currently collecting.
#[derive(Debug, Clone, Copy, PartialEq, Eq, Structural)]
pub enum InputMode {
    Normal,
    Filter,
    Confirm,
    Help,
    Edit,
    PlotLimit,
    SignalGen,
}

/// Which chart receives zoom, pan and limit commands while the spectrum
/// chart is shown.
#[derive(Debug, Clone, Copy, PartialEq, Eq, Structural)]
pub enum PlotFocus {
    Signal,
    Spectrum,
}

/// The write operation an edit form stands for.
#[derive(Debug, Clone, Copy, PartialEq, Eq, Structural)]
pub enum EditOperation {
    SetString,
    HSet,
    RPush,
    LSet,
    SAdd,
    ZAdd,
    XAdd,
    NewKey,
    SetTTL,
    RenameKey,
}

/// Key list, selection, filter and scroll state of the dashboard.
pub struct Dashboard {
    /// The keys currently listed, with their reported types side by side.
    pub keys: Vec<String>,
    pub key_types: Vec<String>,
    /// The selected position in `keys`, when there is one.
    pub selected: Option<usize>,
    /// The text being typed into the filter prompt.
    pub filter_text: String,
    /// The glob pattern the key list was scanned with.
    pub filter_pattern: String,
    /// Scroll offset of the value view.
    pub value_scroll: u16,
    /// Decode configuration of the plot.
    pub data_type: DataType,
    pub endianness: Endianness,
    pub active_panel: Panel,
    pub input_mode: InputMode,
    pub plot_focus: PlotFocus,
}

/// A selection is valid when it points into the key list.
pub open spec fn selection_ok(d: Dashboard) -> bool {
    match d.selected {
        Some(i) => i < d.keys@.len(),
        None => d.keys@.len() == 0,
    }
}

impl Dashboard {
    /// A fresh dashboard: no keys, no selection, match-all filter,
    /// unsigned bytes in little-endian order.
    pub fn new() -> (r: Dashboard)
        ensures
            r.keys@.len() == 0,
            r.selected is None,
            selection_ok(r),
            r.filter_pattern@ == "*"@,
            r.value_scroll == 0,
            r.data_type == DataType::UInt8,
            r.endianness == Endianness::Little,
            r.active_panel == Panel::KeyList,
            r.input_mode == InputMode::Normal,
            r.plot_focus == PlotFocus::Signal,
    {
        Dashboard {
            keys: Vec::new(),
            key_types: Vec::new(),
            selected: None,
            filter_text: String::new(),
            filter_pattern: String::from_str("*"),
            value_scroll: 0,
            data_type: DataType::UInt8,
            endianness: Endianness::Little,
            active_panel: Panel::KeyList,
            input_mode: InputMode::Normal,
            plot_focus: PlotFocus::Signal,
        }
    }

    /// Replace the key list, keeping the selection where possible: an
    /// empty list clears it, a missing one selects the first key, one past
    /// the end moves to the last key.
    pub fn set_keys(&mut self, keys: Vec<String>, key_types: Vec<String>)
        ensures
            final(self).keys == keys,
            final(self).key_types == key_types,
            selection_ok(*final(self)),
            keys@.len() == 0 ==> final(self).selected is None,
            keys@.len() > 0 && old(self).selected is None
                ==> final(self).selected == Some(0usize),
            keys@.len() > 0 && old(self).selected is Some
                && old(self).selected.unwrap() < keys@.len()
                ==> final(self).selected == old(self).selected,
            keys@.len() > 0 && old(self).selected is Some
                && old(self).selected.unwrap() >= keys@.len()
                ==> final(self).selected == Some((keys@.len() - 1) as usize),
            final(self).filter_pattern == old(self).filter_pattern,
            final(self).data_type == old(self).data_type,
            final(self).endianness == old(self).endianness,
    {
        self.keys = keys;
        self.key_types = key_types;
        if self.keys.len() == 0 {
            self.selected = None;
        } else {
            match self.selected {
                None => {
                    self.selected = Some(0);
                }
                Some(i) => {
                    if i >= self.keys.len() {
                        self.selected = Some(self.keys.len() - 1);
                    }
                }
            }
        }
    }

    /// Move the selection to the next key, wrapping at the end; with no
    /// keys nothing changes.
    pub fn select_next_key(&mut self)
        requires
            selection_ok(*old(self)),
        ensures
            selection_ok(*final(self)),
            final(self).keys == old(self).keys,
            old(self).keys@.len() == 0 ==> *final(self) == *old(self),
            old(self).keys@.len() > 0 ==> final(self).selected == Some(
                match old(self).selected {
                    Some(i) => if i + 1 >= old(self).keys@.len() { 0usize } else { (i + 1) as usize },
                    None => 0usize,
                }),
    {
        if self.keys.len() == 0 {
            return;
        }
        let i: usize = match self.selected {
            Some(i) => {
                if i >= self.keys.len() - 1 {
                    0
                } else {
                    i + 1
                }
            }
            None => 0,
        };
        self.selected = Some(i);
    }

    /// Move the selection to the previous key, wrapping at the start; with
    /// no keys nothing changes.
    pub fn select_prev_key(&mut self)
        requires
            selection_ok(*old(self)),
        ensures
            selection_ok(*final(self)),
            final(self).keys == old(self).keys,
            old(self).keys@.len() == 0 ==> *final(self) == *old(self),
            old(self).keys@.len() > 0 ==> final(self).selected == Some(
                match old(self).selected {
                    Some(i) => if i == 0 { (old(self).keys@.len() - 1) as usize } else { (i - 1) as usize },
                    None => 0usize,
                }),
    {
        if self.keys.len() == 0 {
            return;
        }
        let i: usize = match self.selected {
            Some(i) => {
                if i == 0 {
                    self.keys.len() - 1
                } else {
                    i - 1
                }
            }
            None => 0,
        };
        self.selected = Some(i);
    }

    /// Scroll the value view one line down, saturating.
    pub fn scroll_value_down(&mut self)
        ensures
            final(self).value_scroll == if old(self).value_scroll == u16::MAX {
                u16::MAX
            } else {
                (old(self).value_scroll + 1) as u16
            },
            final(self).keys == old(self).keys,
            final(self).selected == old(self).selected,
    {
        self.value_scroll = if self.value_scroll == u16::MAX {
            u16::MAX
        } else {
            self.value_scroll + 1
        };
    }

    /// Scroll the value view one line up, saturating.
    pub fn scroll_value_up(&mut self)
        ensures
            final(self).value_scroll == if old(self).value_scroll == 0 {
                0u16
            } else {
                (old(self).value_scroll - 1) as u16
            },
            final(self).keys == old(self).keys,
            final(self).selected == old(self).selected,
    {
        self.value_scroll = if self.value_scroll == 0 { 0 } else { self.value_scroll - 1 };
    }

    /// The name of the selected key, when one is selected.
    pub fn selected_key_name(&self) -> (r: Option<&String>)
        requires
            selection_ok(*self),
        ensures
            match self.selected {
                Some(i) => r matches Some(name) && name@ == self.keys@[i as int]@,
                None => r is None,
            },
    {
        match self.selected {
            Some(i) => Some(&self.keys[i]),
            None => None,
        }
    }

    /// Build the scan pattern from the filter text: match everything when
    /// it is empty, otherwise surround it with wildcards.
    pub fn apply_filter(&mut self)
        ensures
            old(self).filter_text@.len() == 0 ==> final(self).filter_pattern@ == "*"@,
            old(self).filter_text@.len() > 0 ==> final(self).filter_pattern@
                == "*"@ + old(self).filter_text@ + "*"@,
            final(self).filter_text == old(self).filter_text,
            final(self).keys == old(self).keys,
            final(self).selected == old(self).selected,
    {
        if self.filter_text.as_str().unicode_len() == 0 {
            self.filter_pattern = String::from_str("*");
            proof {
                assert(self.filter_pattern@ =~= "*"@);
            }
        } else {
            let mut p = String::from_str("*");
            p.append(self.filter_text.as_str());
            p.append("*");
            self.filter_pattern = p;
        }
    }

    /// Step the plot's sample type forward or back.
    pub fn cycle_data_type(&mut self, forward: bool)
        ensures
            forward ==> final(self).data_type == crate::data::type_at(
                (crate::data::type_index(old(self).data_type) + 1) % crate::data::type_count()),
            !forward ==> final(self).data_type == crate::data::type_at(
                (crate::data::type_index(old(self).data_type) + crate::data::type_count() - 1)
                    % crate::data::type_count()),
            final(self).endianness == old(self).endianness,
            final(self).keys == old(self).keys,
            final(self).selected == old(self).selected,
    {
        if forward {
            self.data_type = self.data_type.next();
        } else {
            self.data_type = self.data_type.prev();
        }
    }

    /// Toggle the plot's byte order.
    pub fn toggle_endianness(&mut self)
        ensures
            final(self).endianness == old(self).endianness.toggle_spec(),
            final(self).data_type == old(self).data_type,
            final(self).keys == old(self).keys,
            final(self).selected == old(self).selected,
    {
        self.endianness = self.endianness.toggle();
    }
}

/// What `redis_url` returns: an explicit URL unchanged, else one built
/// from the parts, with the password as an auth section when given.
pub open spec fn spec_redis_url(
    host: Seq<char>, port: u16, password: Option<Seq<char>>, db: u16,
    override_url: Option<Seq<char>>) -> Seq<char> {
    match override_url {
        Some(u) => u,
        None => {
            let auth = match password {
                Some(p) => ":"@ + p + "@"@,
                None => Seq::empty(),
            };
            "redis://"@ + auth + host + ":"@ + ascii_chars(dec_bytes(port as nat))
                + "/"@ + ascii_chars(dec_bytes(db as nat))
        }
    }
}

/// Build the connection URL from the command-line parts; an explicit URL
/// overrides them all.
pub fn redis_url(
    host: &str, port: u16, password: Option<&String>, db: u16,
    override_url: Option<&String>) -> (r: String)
    ensures
        r@ == spec_redis_url(
            host@, port,
            match password { Some(p) => Some(p@), None => None },
            db,
            match override_url { Some(u) => Some(u@), None => None }),
{
    match override_url {
        Some(u) => u.clone(),
        None => {
            let mut r = String::from_str("redis://");
            match password {
                Some(p) => {
                    r.append(":");
                    r.append(p.as_str());
                    r.append("@");
                    proof {
                        assert(r@ =~= "redis://"@ + (":"@ + p@ + "@"@));
                    }
                }
                None => {
                    proof {
                        assert(r@ =~= "redis://"@ + Seq::<char>::empty());
                    }
                }
            }
            r.append(host);
            r.append(":");
            let mut pb: Vec<u8> = Vec::new();
            push_dec(&mut pb, port as u64);
            proof {
                crate::textfmt::lemma_dec_pad_ascii(port as nat, 1);
            }
            let ps = ascii_string(pb);
            r.append(ps.as_str());
            r.append("/");
            let mut dbb: Vec<u8> = Vec::new();
            push_dec(&mut dbb, db as u64);
            proof {
                crate::textfmt::lemma_dec_pad_ascii(db as nat, 1);
            }
            let dbs = ascii_string(dbb);
            r.append(dbs.as_str());
            r
        }
    }
}

/// One decimal digit after the point: the value scaled to tenths, rounded
/// to nearest with ties to even, as the standard float formatter rounds.
pub open spec fn scaled_tenths(b: int, d: int) -> int {
    let q = 10 * b / d;
    let r = 10 * b % d;
    if 2 * r > d {
        q + 1
    } else if 2 * r == d {
        q + q % 2
    } else {
        q
    }
}

/// The text of a tenths count: units, a point, one decimal.
pub open spec fn tenths_text(t: int) -> Seq<u8> {
    dec_bytes((t / 10) as nat) + seq![0x2eu8] + dec_bytes((t % 10) as nat)
}

/// What `format_size` returns: `?` for an unknown size, bytes below one
/// kibibyte, otherwise one-decimal kibibytes or mebibytes.
pub open spec fn spec_format_size(b: int) -> Seq<char> {
    if b < 0 {
        "?"@
    } else if b < 1024 {
        ascii_chars(dec_bytes(b as nat) + seq![0x20u8, 0x42u8])
    } else if b < 1048576 {
        ascii_chars(tenths_text(scaled_tenths(b, 1024)) + seq![0x20u8, 0x4bu8, 0x42u8])
    } else {
        ascii_chars(tenths_text(scaled_tenths(b, 1048576)) + seq![0x20u8, 0x4du8, 0x42u8])
    }
}

/// Append the text of a tenths count.
fn push_tenths(out: &mut Vec<u8>, t: u64)
    ensures
        final(out)@ == old(out)@ + tenths_text(t as int),
{
    push_dec(out, t / 10);
    out.push(0x2e);
    push_dec(out, t % 10);
    proof {
        assert(final(out)@ =~= old(out)@ + tenths_text(t as int));
    }
}

/// Render a byte count for the key list: `?` when the store reported
/// none, whole bytes below one kibibyte, else one-decimal `KB` or `MB`.
pub fn format_size(bytes: i64) -> (r: String)
    ensures
        r@ == spec_format_size(bytes as int),
{
    if bytes < 0 {
        let r: String = "?".to_owned();
        return r;
    }
    let b = bytes as u64;
    let mut out: Vec<u8> = Vec::new();
    if b < 1024 {
        push_dec(&mut out, b);
        out.push(0x20);
        out.push(0x42);
        proof {
            crate::textfmt::lemma_dec_pad_ascii(b as nat, 1);
            assert(out@ =~= dec_bytes(b as nat) + seq![0x20u8, 0x42u8]);
        }
    } else {
        let d: u64 = if b < 1048576 { 1024 } else { 1048576 };
        let q128: u128 = 10 * (b as u128) / (d as u128);
        let r128: u128 = 10 * (b as u128) % (d as u128);
        let q = q128 as u64;
        proof {
            assert(q128 == 10 * (b as int) / (d as int));
            assert(q128 <= 10 * (b as int)) by {
                vstd::arithmetic::div_mod::lemma_div_nonincreasing(10 * (b as int), d as int);
            }
        }
        let t: u64 = if 2 * r128 > d as u128 {
            q + 1
        } else if 2 * r128 == d as u128 {
            q + q % 2
        } else {
            q
        };
        push_tenths(&mut out, t);
        out.push(0x20);
        if b < 1048576 {
            out.push(0x4b);
        } else {
            out.push(0x4d);
        }
        out.push(0x42);
        proof {
            assert(t == scaled_tenths(b as int, d as int));
            crate::textfmt::lemma_dec_pad_ascii((t / 10) as nat, 1);
            crate::textfmt::lemma_dec_pad_ascii((t % 10) as nat, 1);
            if b < 1048576 {
                assert(out@ =~= tenths_text(scaled_tenths(b as int, 1024))
                    + seq![0x20u8, 0x4bu8, 0x42u8]);
            } else {
                assert(out@ =~= tenths_text(scaled_tenths(b as int, 1048576))
                    + seq![0x20u8, 0x4du8, 0x42u8]);
            }
        }
    }
    ascii_string(out)
}

} // verus!
