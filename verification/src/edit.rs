//! The edit form and its planning.
//!
//! Every write the dashboard performs is first planned here: the form
//! state collects the operation and its fields, and `plan_command` turns
//! them into one store command or rejects them without touching any
//! state.  The shell only executes the returned command.

use vstd::prelude::*;
use vstd::pervasive::VecAdditionalExecFns;
use crate::dashboard::EditOperation;
use crate::data::DataType;
use crate::data::EncodeError;
use crate::data::Endianness;
use crate::data::encode_values;
use vstd::string::StrSliceExecFns;
use vstd::string::StringExecFns;

verus! {

/// The store's key kinds, as the edit form needs them.
#[derive(Debug, Clone, Copy, PartialEq, Eq, Structural)]
pub enum KeyKind {
    Text,
    Hash,
    List,
    Members,
    Scored,
    Stream,
    Other,
}

/// Position of a key kind in the new-key cycling order.
pub open spec fn kind_index(k: KeyKind) -> int {
    match k {
        KeyKind::Text => 0,
        KeyKind::Hash => 1,
        KeyKind::List => 2,
        KeyKind::Members => 3,
        KeyKind::Scored => 4,
        KeyKind::Stream => 5,
        KeyKind::Other => 6,
    }
}

/// The key kind at a position of the new-key cycling order.
pub open spec fn kind_at(i: int) -> KeyKind {
    if i == 0 {
        KeyKind::Text
    } else if i == 1 {
        KeyKind::Hash
    } else if i == 2 {
        KeyKind::List
    } else if i == 3 {
        KeyKind::Members
    } else if i == 4 {
        KeyKind::Scored
    } else {
        KeyKind::Stream
    }
}

/// Number of key kinds a new key can take.
pub open spec fn kind_count() -> int {
    6
}

/// One write against the store, fully decided.  Scores are carried as
/// text: they are floating-point values, which the shell parses and
/// sends.
#[derive(Debug, PartialEq, Eq)]
pub enum StoreCommand {
    SetText { key: String, value: String },
    SetBytes { key: String, bytes: Vec<u8> },
    HSetText { key: String, field: String, value: String },
    HSetBytes { key: String, field: String, bytes: Vec<u8> },
    RPushText { key: String, value: String },
    RPushBytes { key: String, bytes: Vec<u8> },
    LSetText { key: String, index: i64, value: String },
    LSetBytes { key: String, index: i64, bytes: Vec<u8> },
    SAddText { key: String, member: String },
    SAddBytes { key: String, bytes: Vec<u8> },
    ZAddText { key: String, score_text: String, member: String },
    ZAddBytes { key: String, score_text: String, bytes: Vec<u8> },
    XAddText { key: String, field: String, value: String },
    XAddBytes { key: String, field: String, bytes: Vec<u8> },
    SetTtl { key: String, ttl: i64 },
    Persist { key: String },
    Rename { key: String, new_name: String },
}

/// Why an edit was rejected.  A rejected edit mutates nothing.
#[derive(Debug, Clone, Copy, PartialEq, Eq, Structural)]
pub enum EditError {
    /// No edit form is open.
    NoOperation,
    /// A required field or key name is empty.
    FieldRequired,
    /// The list index did not parse as an integer.
    InvalidIndex,
    /// The time-to-live did not parse as an integer.
    InvalidTtl,
    /// A binary value failed to encode.
    Encode(EncodeError),
}

/// The edit form: which operation is open, its text fields, and the
/// binary-encode configuration.
pub struct EditForm {
    pub operation: Option<EditOperation>,
    /// Label and current text of each input field.
    pub fields: Vec<(String, String)>,
    /// Which field has focus.
    pub focus: usize,
    /// The key being edited.
    pub key: String,
    /// How many entries this session has already submitted.
    pub multi_count: usize,
    /// Selected kind for a new key.
    pub new_key_kind_idx: usize,
    /// Whether values are encoded as binary elements.
    pub binary_mode: bool,
    /// Sample type used for binary encoding.
    pub binary_dtype: DataType,
}

/// A form's focus always points into its fields (or at zero for an empty
/// form), and the new-key kind is one of the kinds.
pub open spec fn form_ok(f: EditForm) -> bool {
    (f.fields@.len() == 0 ==> f.focus == 0)
    && (f.fields@.len() > 0 ==> f.focus < f.fields@.len())
    && f.new_key_kind_idx < kind_count()
}

impl EditForm {
    /// A closed form.
    pub fn new() -> (r: EditForm)
        ensures
            r.operation is None,
            r.fields@.len() == 0,
            form_ok(r),
            !r.binary_mode,
            r.binary_dtype == DataType::Float32,
    {
        EditForm {
            operation: None,
            fields: Vec::new(),
            focus: 0,
            key: String::new(),
            multi_count: 0,
            new_key_kind_idx: 0,
            binary_mode: false,
            binary_dtype: DataType::Float32,
        }
    }

    /// Close the form and forget its state.
    pub fn cancel(&mut self)
        requires
            form_ok(*old(self)),
        ensures
            final(self).operation is None,
            final(self).fields@.len() == 0,
            final(self).focus == 0,
            !final(self).binary_mode,
            form_ok(*final(self)),
    {
        self.operation = None;
        self.fields = Vec::new();
        self.focus = 0;
        self.binary_mode = false;
    }

    /// Move the focus to the next field, wrapping.
    pub fn next_field(&mut self)
        requires
            form_ok(*old(self)),
        ensures
            form_ok(*final(self)),
            final(self).fields == old(self).fields,
            final(self).operation == old(self).operation,
            old(self).fields@.len() > 0
                ==> final(self).focus == (old(self).focus + 1) % (old(self).fields@.len() as int),
    {
        if self.fields.len() > 0 {
            self.focus = (self.focus + 1) % self.fields.len();
        }
    }

    /// Move the focus to the previous field, wrapping.
    pub fn prev_field(&mut self)
        requires
            form_ok(*old(self)),
        ensures
            form_ok(*final(self)),
            final(self).fields == old(self).fields,
            final(self).operation == old(self).operation,
            old(self).fields@.len() > 0 ==> final(self).focus == if old(self).focus == 0 {
                (old(self).fields@.len() - 1) as usize
            } else {
                (old(self).focus - 1) as usize
            },
    {
        if self.fields.len() > 0 {
            if self.focus == 0 {
                self.focus = self.fields.len() - 1;
            } else {
                self.focus = self.focus - 1;
            }
        }
    }

    /// Whether the open operation accepts several entries in one session.
    pub fn is_multi_entry(&self) -> (r: bool)
        ensures
            r == match self.operation {
                Some(op) => op == EditOperation::HSet || op == EditOperation::RPush
                    || op == EditOperation::SAdd || op == EditOperation::ZAdd
                    || op == EditOperation::XAdd,
                None => false,
            },
    {
        match self.operation {
            Some(EditOperation::HSet) | Some(EditOperation::RPush)
                | Some(EditOperation::SAdd) | Some(EditOperation::ZAdd)
                | Some(EditOperation::XAdd) => true,
            _ => false,
        }
    }

    /// Clear the field texts for the next entry of a multi-entry session,
    /// keeping the labels, and count the submitted one.
    pub fn reset_for_next(&mut self)
        requires
            form_ok(*old(self)),
            old(self).multi_count < usize::MAX,
        ensures
            form_ok(*final(self)),
            final(self).operation == old(self).operation,
            final(self).focus == 0,
            final(self).multi_count == old(self).multi_count + 1,
            final(self).fields@.len() == old(self).fields@.len(),
            forall|i: int| 0 <= i < final(self).fields@.len()
                ==> (#[trigger] final(self).fields@[i]).0 == old(self).fields@[i].0
                    && final(self).fields@[i].1@.len() == 0,
    {
        let n = self.fields.len();
        let mut i: usize = 0;
        while i < n
            invariant
                i <= n,
                n == self.fields@.len(),
                self.operation == old(self).operation,
                self.new_key_kind_idx == old(self).new_key_kind_idx,
                forall|k: int| 0 <= k < n
                    ==> (#[trigger] self.fields@[k]).0 == old(self).fields@[k].0,
                forall|k: int| 0 <= k < i ==> (#[trigger] self.fields@[k]).1@.len() == 0,
                form_ok(*old(self)),
                self.focus == old(self).focus,
                self.fields@.len() == old(self).fields@.len(),
                self.multi_count == old(self).multi_count,
                old(self).multi_count < usize::MAX,
            decreases n - i,
        {
            let label = self.fields[i].0.clone();
            let ghost lv = self.fields@[i as int].0;
            self.fields.set(i, (label, String::new()));
            proof {
                assert(self.fields@[i as int].0@ == lv@);
            }
            i += 1;
        }
        self.focus = 0;
        self.multi_count = self.multi_count + 1;
    }

    /// Step the new-key kind selection forward or back, wrapping.
    pub fn cycle_new_key_kind(&mut self, forward: bool)
        requires
            form_ok(*old(self)),
        ensures
            form_ok(*final(self)),
            final(self).fields == old(self).fields,
            final(self).operation == old(self).operation,
            forward ==> final(self).new_key_kind_idx
                == (old(self).new_key_kind_idx + 1) % kind_count(),
            !forward ==> final(self).new_key_kind_idx
                == (old(self).new_key_kind_idx + kind_count() - 1) % kind_count(),
    {
        if forward {
            self.new_key_kind_idx = (self.new_key_kind_idx + 1) % 6;
        } else {
            if self.new_key_kind_idx == 0 {
                self.new_key_kind_idx = 5;
            } else {
                self.new_key_kind_idx = self.new_key_kind_idx - 1;
            }
        }
    }
}

impl EditForm {
    /// Open the edit form fitting the selected key's kind, pre-filling a
    /// text key's current value.  Keys of other kinds open nothing.
    pub fn open_edit(&mut self, kind: KeyKind, key: String, current_text: String) -> (opened: bool)
        requires
            form_ok(*old(self)),
        ensures
            form_ok(*final(self)),
            opened == (kind != KeyKind::Other),
            !opened ==> *final(self) == *old(self),
            opened ==> final(self).key == key && final(self).focus == 0
                && final(self).multi_count == 0,
            kind == KeyKind::Text ==> final(self).operation == Some(EditOperation::SetString)
                && final(self).fields@.len() == 1
                && final(self).fields@[0].1 == current_text,
            kind == KeyKind::Hash ==> final(self).operation == Some(EditOperation::HSet)
                && final(self).fields@.len() == 2,
            kind == KeyKind::List ==> final(self).operation == Some(EditOperation::RPush)
                && final(self).fields@.len() == 1,
            kind == KeyKind::Members ==> final(self).operation == Some(EditOperation::SAdd)
                && final(self).fields@.len() == 1,
            kind == KeyKind::Scored ==> final(self).operation == Some(EditOperation::ZAdd)
                && final(self).fields@.len() == 2
                && final(self).fields@[0].1@ == "0"@,
            kind == KeyKind::Stream ==> final(self).operation == Some(EditOperation::XAdd)
                && final(self).fields@.len() == 2,
    {
        let mut fields: Vec<(String, String)> = Vec::new();
        match kind {
            KeyKind::Other => {
                return false;
            }
            KeyKind::Text => {
                self.operation = Some(EditOperation::SetString);
                fields.push((String::from_str("Value"), current_text));
            }
            KeyKind::Hash => {
                self.operation = Some(EditOperation::HSet);
                fields.push((String::from_str("Field"), String::new()));
                fields.push((String::from_str("Value"), String::new()));
            }
            KeyKind::List => {
                self.operation = Some(EditOperation::RPush);
                fields.push((String::from_str("Value (appended)"), String::new()));
            }
            KeyKind::Members => {
                self.operation = Some(EditOperation::SAdd);
                fields.push((String::from_str("Member"), String::new()));
            }
            KeyKind::Scored => {
                self.operation = Some(EditOperation::ZAdd);
                fields.push((String::from_str("Score"), String::from_str("0")));
                fields.push((String::from_str("Member"), String::new()));
            }
            KeyKind::Stream => {
                self.operation = Some(EditOperation::XAdd);
                fields.push((String::from_str("Field"), String::new()));
                fields.push((String::from_str("Value"), String::new()));
            }
        }
        self.fields = fields;
        self.key = key;
        self.focus = 0;
        self.multi_count = 0;
        true
    }

    /// Open the time-to-live form, pre-filling the current value, or an
    /// empty field for a key that does not expire.
    pub fn open_set_ttl(&mut self, key: String, current_ttl: i64)
        requires
            form_ok(*old(self)),
        ensures
            form_ok(*final(self)),
            final(self).operation == Some(EditOperation::SetTTL),
            final(self).key == key,
            final(self).focus == 0,
            final(self).fields@.len() == 1,
            current_ttl < 0 ==> final(self).fields@[0].1@.len() == 0,
            current_ttl >= 0 ==> final(self).fields@[0].1@
                == crate::textfmt::ascii_chars(crate::textfmt::dec_bytes(current_ttl as nat)),
    {
        let text: String = if current_ttl < 0 {
            String::new()
        } else {
            let mut b: Vec<u8> = Vec::new();
            crate::textfmt::push_dec(&mut b, current_ttl as u64);
            proof {
                crate::textfmt::lemma_dec_pad_ascii(current_ttl as nat, 1);
            }
            crate::textfmt::ascii_string(b)
        };
        let mut fields: Vec<(String, String)> = Vec::new();
        fields.push((String::from_str("TTL (seconds, empty=persist)"), text));
        self.operation = Some(EditOperation::SetTTL);
        self.fields = fields;
        self.key = key;
        self.focus = 0;
    }

    /// Open the rename form, pre-filling the current name.
    pub fn open_rename(&mut self, key: String)
        requires
            form_ok(*old(self)),
        ensures
            form_ok(*final(self)),
            final(self).operation == Some(EditOperation::RenameKey),
            final(self).key == key,
            final(self).focus == 0,
            final(self).fields@.len() == 1,
            final(self).fields@[0].1 == key,
    {
        let mut fields: Vec<(String, String)> = Vec::new();
        fields.push((String::from_str("New name"), key.clone()));
        self.operation = Some(EditOperation::RenameKey);
        self.fields = fields;
        self.key = key;
        self.focus = 0;
    }

    /// Open the new-key form: a key name and a first value.
    pub fn open_new_key(&mut self)
        requires
            form_ok(*old(self)),
        ensures
            form_ok(*final(self)),
            final(self).operation == Some(EditOperation::NewKey),
            final(self).focus == 0,
            final(self).multi_count == 0,
            final(self).new_key_kind_idx == 0,
            final(self).fields@.len() == 2,
            final(self).key@.len() == 0,
    {
        let mut fields: Vec<(String, String)> = Vec::new();
        fields.push((String::from_str("Key"), String::new()));
        fields.push((String::from_str("Value"), String::new()));
        self.operation = Some(EditOperation::NewKey);
        self.new_key_kind_idx = 0;
        self.multi_count = 0;
        self.fields = fields;
        self.key = String::new();
        self.focus = 0;
    }

    /// The short label of the open operation, for the status line.
    pub fn op_label(&self) -> (r: &'static str)
        ensures
            r@ == match self.operation {
                Some(EditOperation::SetString) => "SET"@,
                Some(EditOperation::HSet) => "HSET"@,
                Some(EditOperation::RPush) => "RPUSH"@,
                Some(EditOperation::LSet) => "LSET"@,
                Some(EditOperation::SAdd) => "SADD"@,
                Some(EditOperation::ZAdd) => "ZADD"@,
                Some(EditOperation::XAdd) => "XADD"@,
                Some(EditOperation::SetTTL) => "EXPIRE"@,
                Some(EditOperation::RenameKey) => "RENAME"@,
                Some(EditOperation::NewKey) => "NEW KEY"@,
                None => ""@,
            },
    {
        match self.operation {
            Some(EditOperation::SetString) => "SET",
            Some(EditOperation::HSet) => "HSET",
            Some(EditOperation::RPush) => "RPUSH",
            Some(EditOperation::LSet) => "LSET",
            Some(EditOperation::SAdd) => "SADD",
            Some(EditOperation::ZAdd) => "ZADD",
            Some(EditOperation::XAdd) => "XADD",
            Some(EditOperation::SetTTL) => "EXPIRE",
            Some(EditOperation::RenameKey) => "RENAME",
            Some(EditOperation::NewKey) => "NEW KEY",
            None => "",
        }
    }
}

/// The signal-generator form: waveform, sample type and the numeric text
/// fields.  Seven rows take focus: the waveform row, the sample-type row
/// and the five text fields.
pub struct SignalGenForm {
    pub fields: Vec<(String, String)>,
    pub focus: usize,
    pub wave_idx: usize,
    pub dtype_idx: usize,
}

/// Number of waveform kinds.
pub open spec fn wave_count() -> int {
    4
}

/// Number of focusable rows of the signal-generator form.
pub open spec fn gen_focus_count() -> int {
    7
}

/// The form's indices stay in range.
pub open spec fn gen_form_ok(f: SignalGenForm) -> bool {
    f.focus < gen_focus_count()
    && f.wave_idx < wave_count()
    && f.dtype_idx < crate::data::type_count()
}

/// The display label of a waveform kind.
pub open spec fn wave_label_chars(i: int) -> Seq<char> {
    if i == 0 {
        "sine"@
    } else if i == 1 {
        "square"@
    } else if i == 2 {
        "sawtooth"@
    } else {
        "triangle"@
    }
}

impl SignalGenForm {
    /// A fresh form with the default parameters: one cycle and a hundred
    /// samples per record, unit amplitude, no noise, ten records a
    /// second, 32-bit float samples.
    pub fn new() -> (r: SignalGenForm)
        ensures
            gen_form_ok(r),
            r.focus == 0,
            r.wave_idx == 0,
            r.dtype_idx == crate::data::type_index(DataType::Float32),
            r.fields@.len() == 5,
    {
        let mut fields: Vec<(String, String)> = Vec::new();
        fields.push((String::from_str("Cycles/Entry"), String::from_str("1.0")));
        fields.push((String::from_str("Amplitude"), String::from_str("1.0")));
        fields.push((String::from_str("Noise"), String::from_str("0.0")));
        fields.push((String::from_str("Samples/Entry"), String::from_str("100")));
        fields.push((String::from_str("Entries/Sec"), String::from_str("10.0")));
        SignalGenForm { fields, focus: 0, wave_idx: 0, dtype_idx: 6 }
    }

    /// Move the focus to the next row, wrapping over all seven.
    pub fn next_field(&mut self)
        requires
            gen_form_ok(*old(self)),
        ensures
            gen_form_ok(*final(self)),
            final(self).focus == (old(self).focus + 1) % gen_focus_count(),
            final(self).fields == old(self).fields,
            final(self).wave_idx == old(self).wave_idx,
            final(self).dtype_idx == old(self).dtype_idx,
    {
        self.focus = (self.focus + 1) % 7;
    }

    /// Move the focus to the previous row, wrapping.
    pub fn prev_field(&mut self)
        requires
            gen_form_ok(*old(self)),
        ensures
            gen_form_ok(*final(self)),
            final(self).focus == (old(self).focus + gen_focus_count() - 1) % gen_focus_count(),
            final(self).fields == old(self).fields,
    {
        if self.focus == 0 {
            self.focus = 6;
        } else {
            self.focus = self.focus - 1;
        }
    }

    /// Step the waveform selection, wrapping.
    pub fn cycle_wave(&mut self, forward: bool)
        requires
            gen_form_ok(*old(self)),
        ensures
            gen_form_ok(*final(self)),
            forward ==> final(self).wave_idx == (old(self).wave_idx + 1) % wave_count(),
            !forward ==> final(self).wave_idx
                == (old(self).wave_idx + wave_count() - 1) % wave_count(),
            final(self).fields == old(self).fields,
    {
        if forward {
            self.wave_idx = (self.wave_idx + 1) % 4;
        } else if self.wave_idx == 0 {
            self.wave_idx = 3;
        } else {
            self.wave_idx = self.wave_idx - 1;
        }
    }

    /// Step the sample-type selection, wrapping.
    pub fn cycle_dtype(&mut self, forward: bool)
        requires
            gen_form_ok(*old(self)),
        ensures
            gen_form_ok(*final(self)),
            forward ==> final(self).dtype_idx
                == (old(self).dtype_idx + 1) % crate::data::type_count(),
            !forward ==> final(self).dtype_idx
                == (old(self).dtype_idx + crate::data::type_count() - 1)
                    % crate::data::type_count(),
            final(self).fields == old(self).fields,
    {
        if forward {
            self.dtype_idx = (self.dtype_idx + 1) % 10;
        } else if self.dtype_idx == 0 {
            self.dtype_idx = 9;
        } else {
            self.dtype_idx = self.dtype_idx - 1;
        }
    }

    /// The display label of the selected waveform.
    pub fn wave_label(&self) -> (r: &'static str)
        requires
            gen_form_ok(*self),
        ensures
            r@ == wave_label_chars(self.wave_idx as int),
    {
        if self.wave_idx == 0 {
            "sine"
        } else if self.wave_idx == 1 {
            "square"
        } else if self.wave_idx == 2 {
            "sawtooth"
        } else {
            "triangle"
        }
    }

    /// The selected sample type.
    pub fn data_type(&self) -> (r: DataType)
        requires
            gen_form_ok(*self),
        ensures
            r == crate::data::type_at(self.dtype_idx as int),
    {
        if self.dtype_idx == 0 {
            DataType::Int8
        } else if self.dtype_idx == 1 {
            DataType::Int16
        } else if self.dtype_idx == 2 {
            DataType::Int32
        } else if self.dtype_idx == 3 {
            DataType::UInt8
        } else if self.dtype_idx == 4 {
            DataType::UInt16
        } else if self.dtype_idx == 5 {
            DataType::UInt32
        } else if self.dtype_idx == 6 {
            DataType::Float32
        } else if self.dtype_idx == 7 {
            DataType::Float64
        } else if self.dtype_idx == 8 {
            DataType::Text
        } else {
            DataType::Blob
        }
    }
}

/// The bytes a binary edit of field `i` sends: its tokens' chunks under
/// the form's sample type and the given byte order.
pub open spec fn planned_bytes(f: EditForm, i: int, e: Endianness) -> Seq<u8> {
    crate::codec::encoded_bytes(
        crate::data::tokens_raw(
            crate::data::spec_tokens(field_text(f, i)), f.binary_dtype),
        crate::codec::elem_width(f.binary_dtype),
        e)
}

/// The field text at an index, or the empty text.
pub open spec fn field_text(f: EditForm, i: int) -> Seq<char> {
    if 0 <= i < f.fields@.len() {
        f.fields@[i].1@
    } else {
        Seq::empty()
    }
}

/// Whether the binary encoding of a field's tokens succeeds under the
/// form's configuration.
pub open spec fn binary_ok(f: EditForm, i: int, e: Endianness) -> bool {
    crate::data::spec_tokens(field_text(f, i)).len() > 0
    && crate::data::integer_type(f.binary_dtype)
    && crate::data::all_tokens_valid(crate::data::spec_tokens(field_text(f, i)), f.binary_dtype)
}

impl EditForm {
    /// Encode field `i` as binary elements under the form's configuration.
    fn encode_field(&self, i: usize, endianness: Endianness)
        -> (r: Result<Vec<u8>, EditError>)
        requires
            i < self.fields@.len(),
        ensures
            r matches Ok(b) ==> binary_ok(*self, i as int, endianness)
                && b@ == crate::codec::encoded_bytes(
                    crate::data::tokens_raw(
                        crate::data::spec_tokens(field_text(*self, i as int)),
                        self.binary_dtype),
                    crate::codec::elem_width(self.binary_dtype),
                    endianness),
            r is Err ==> !binary_ok(*self, i as int, endianness),
    {
        match encode_values(self.fields[i].1.as_str(), self.binary_dtype, endianness) {
            Ok(b) => Ok(b),
            Err(e) => Err(EditError::Encode(e)),
        }
    }

    /// Turn the open form into one store command, or reject it.  Planning
    /// never mutates the form; a rejected edit leaves every state
    /// untouched.
    ///
    /// Field requirements follow the form: a hash or stream entry needs
    /// its field name, a rename and a new key need the name, a list
    /// assignment needs an integer index, and a time-to-live needs an
    /// integer (an empty one means persist).  In binary mode the value
    /// field must encode under the form's sample type; scores travel as
    /// text for the shell to parse.
    pub fn plan_command(&self, endianness: Endianness) -> (r: Result<StoreCommand, EditError>)
        requires
            form_ok(*self),
        ensures
            self.operation is None ==> r == Err::<StoreCommand, EditError>(EditError::NoOperation),
            self.operation == Some(EditOperation::SetString) && !self.binary_mode
                ==> (r matches Ok(c) && c matches StoreCommand::SetText { key, value }
                    && key@ == self.key@ && value@ == field_text(*self, 0)),
            self.operation == Some(EditOperation::SetString) && self.binary_mode
                && binary_ok(*self, 0, endianness)
                ==> (r matches Ok(c) && c matches StoreCommand::SetBytes { key, bytes }
                    && key@ == self.key@ && bytes@ == planned_bytes(*self, 0, endianness)),
            self.operation == Some(EditOperation::SetString) && self.binary_mode
                && !binary_ok(*self, 0, endianness)
                ==> r is Err,
            self.operation == Some(EditOperation::HSet) && field_text(*self, 0).len() > 0
                && self.binary_mode && binary_ok(*self, 1, endianness)
                && self.fields@.len() > 1
                ==> (r matches Ok(c) && c matches StoreCommand::HSetBytes { key, field, bytes }
                    && key@ == self.key@ && field@ == field_text(*self, 0)
                    && bytes@ == planned_bytes(*self, 1, endianness)),
            self.operation == Some(EditOperation::RPush) && self.binary_mode
                && binary_ok(*self, 0, endianness) && self.fields@.len() > 0
                ==> (r matches Ok(c) && c matches StoreCommand::RPushBytes { key, bytes }
                    && key@ == self.key@ && bytes@ == planned_bytes(*self, 0, endianness)),
            self.operation == Some(EditOperation::SAdd) && self.binary_mode
                && binary_ok(*self, 0, endianness) && self.fields@.len() > 0
                ==> (r matches Ok(c) && c matches StoreCommand::SAddBytes { key, bytes }
                    && key@ == self.key@ && bytes@ == planned_bytes(*self, 0, endianness)),
            self.operation == Some(EditOperation::ZAdd) && self.binary_mode
                && binary_ok(*self, 1, endianness) && self.fields@.len() > 1
                ==> (r matches Ok(c) && c matches StoreCommand::ZAddBytes { key, score_text, bytes }
                    && key@ == self.key@ && score_text@ == field_text(*self, 0)
                    && bytes@ == planned_bytes(*self, 1, endianness)),
            self.operation == Some(EditOperation::XAdd) && field_text(*self, 0).len() > 0
                && self.binary_mode && binary_ok(*self, 1, endianness)
                && self.fields@.len() > 1
                ==> (r matches Ok(c) && c matches StoreCommand::XAddBytes { key, field, bytes }
                    && key@ == self.key@ && field@ == field_text(*self, 0)
                    && bytes@ == planned_bytes(*self, 1, endianness)),
            self.operation == Some(EditOperation::LSet) && self.binary_mode
                && crate::textfmt::spec_parse_i64(field_text(*self, 0)) is Some
                && binary_ok(*self, 1, endianness) && self.fields@.len() > 1
                ==> (r matches Ok(c) && c matches StoreCommand::LSetBytes { key, index, bytes }
                    && key@ == self.key@
                    && index == crate::textfmt::spec_parse_i64(field_text(*self, 0)).unwrap()
                    && bytes@ == planned_bytes(*self, 1, endianness)),
            self.operation == Some(EditOperation::HSet) && field_text(*self, 0).len() == 0
                ==> r == Err::<StoreCommand, EditError>(EditError::FieldRequired),
            self.operation == Some(EditOperation::HSet) && field_text(*self, 0).len() > 0
                && !self.binary_mode
                ==> (r matches Ok(c) && c matches StoreCommand::HSetText { key, field, value }
                    && key@ == self.key@ && field@ == field_text(*self, 0)
                    && value@ == field_text(*self, 1)),
            self.operation == Some(EditOperation::RPush) && !self.binary_mode
                ==> (r matches Ok(c) && c matches StoreCommand::RPushText { key, value }
                    && key@ == self.key@ && value@ == field_text(*self, 0)),
            self.operation == Some(EditOperation::LSet)
                && crate::textfmt::spec_parse_i64(field_text(*self, 0)) is None
                ==> r == Err::<StoreCommand, EditError>(EditError::InvalidIndex),
            self.operation == Some(EditOperation::LSet) && !self.binary_mode
                && crate::textfmt::spec_parse_i64(field_text(*self, 0)) is Some
                ==> (r matches Ok(c) && c matches StoreCommand::LSetText { key, index, value }
                    && key@ == self.key@
                    && index == crate::textfmt::spec_parse_i64(field_text(*self, 0)).unwrap()
                    && value@ == field_text(*self, 1)),
            self.operation == Some(EditOperation::SAdd) && !self.binary_mode
                ==> (r matches Ok(c) && c matches StoreCommand::SAddText { key, member }
                    && key@ == self.key@ && member@ == field_text(*self, 0)),
            self.operation == Some(EditOperation::ZAdd) && !self.binary_mode
                ==> (r matches Ok(c) && c matches StoreCommand::ZAddText { key, score_text, member }
                    && key@ == self.key@ && score_text@ == field_text(*self, 0)
                    && member@ == field_text(*self, 1)),
            self.operation == Some(EditOperation::XAdd) && field_text(*self, 0).len() == 0
                ==> r == Err::<StoreCommand, EditError>(EditError::FieldRequired),
            self.operation == Some(EditOperation::XAdd) && field_text(*self, 0).len() > 0
                && !self.binary_mode
                ==> (r matches Ok(c) && c matches StoreCommand::XAddText { key, field, value }
                    && key@ == self.key@ && field@ == field_text(*self, 0)
                    && value@ == field_text(*self, 1)),
            self.operation == Some(EditOperation::SetTTL) ==> {
                let t = crate::data::trim_chars(field_text(*self, 0));
                if t.len() == 0 {
                    r matches Ok(c) && c matches StoreCommand::Persist { key }
                        && key@ == self.key@
                } else {
                    match crate::textfmt::spec_parse_i64(t) {
                        Some(v) => if v < 0 {
                            r matches Ok(c) && (c matches StoreCommand::Persist { key }
                                && key@ == self.key@)
                        } else {
                            r matches Ok(c) && (c matches StoreCommand::SetTtl { key, ttl }
                                && key@ == self.key@ && ttl == v)
                        },
                        None => r == Err::<StoreCommand, EditError>(EditError::InvalidTtl),
                    }
                }
            },
            self.operation == Some(EditOperation::RenameKey)
                && field_text(*self, 0).len() == 0
                ==> r == Err::<StoreCommand, EditError>(EditError::FieldRequired),
            self.operation == Some(EditOperation::RenameKey)
                && field_text(*self, 0).len() > 0
                ==> (r matches Ok(c) && c matches StoreCommand::Rename { key, new_name }
                    && key@ == self.key@ && new_name@ == field_text(*self, 0)),
            self.operation == Some(EditOperation::NewKey)
                && field_text(*self, 0).len() == 0
                ==> r == Err::<StoreCommand, EditError>(EditError::FieldRequired),
            (self.binary_mode && !(self.operation is None)
                && !(self.operation == Some(EditOperation::SetTTL))
                && !(self.operation == Some(EditOperation::RenameKey))
                && r is Ok) ==> (r matches Ok(c) ==> !(c matches StoreCommand::SetText { .. })
                    && !(c matches StoreCommand::HSetText { .. })
                    && !(c matches StoreCommand::RPushText { .. })
                    && !(c matches StoreCommand::LSetText { .. })
                    && !(c matches StoreCommand::SAddText { .. })
                    && !(c matches StoreCommand::ZAddText { .. })
                    && !(c matches StoreCommand::XAddText { .. })),
    {
        let op = match &self.operation {
            Some(op) => *op,
            None => {
                return Err(EditError::NoOperation);
            }
        };
        match op {
            EditOperation::SetString => {
                let value = self.field_string(0);
                if self.binary_mode {
                    match self.encode_field_checked(0, endianness) {
                        Ok(bytes) => Ok(StoreCommand::SetBytes { key: self.key.clone(), bytes }),
                        Err(e) => Err(e),
                    }
                } else {
                    Ok(StoreCommand::SetText { key: self.key.clone(), value })
                }
            }
            EditOperation::HSet => {
                let field = self.field_string(0);
                if field.as_str().unicode_len() == 0 {
                    return Err(EditError::FieldRequired);
                }
                if self.binary_mode {
                    match self.encode_field_checked(1, endianness) {
                        Ok(bytes) => Ok(StoreCommand::HSetBytes {
                            key: self.key.clone(), field, bytes,
                        }),
                        Err(e) => Err(e),
                    }
                } else {
                    let value = self.field_string(1);
                    Ok(StoreCommand::HSetText { key: self.key.clone(), field, value })
                }
            }
            EditOperation::RPush => {
                if self.binary_mode {
                    match self.encode_field_checked(0, endianness) {
                        Ok(bytes) => Ok(StoreCommand::RPushBytes { key: self.key.clone(), bytes }),
                        Err(e) => Err(e),
                    }
                } else {
                    let value = self.field_string(0);
                    Ok(StoreCommand::RPushText { key: self.key.clone(), value })
                }
            }
            EditOperation::LSet => {
                let idx_text = self.field_string(0);
                let index = match crate::textfmt::parse_i64(idx_text.as_str()) {
                    Some(v) => v,
                    None => {
                        return Err(EditError::InvalidIndex);
                    }
                };
                if self.binary_mode {
                    match self.encode_field_checked(1, endianness) {
                        Ok(bytes) => Ok(StoreCommand::LSetBytes {
                            key: self.key.clone(), index, bytes,
                        }),
                        Err(e) => Err(e),
                    }
                } else {
                    let value = self.field_string(1);
                    Ok(StoreCommand::LSetText { key: self.key.clone(), index, value })
                }
            }
            EditOperation::SAdd => {
                if self.binary_mode {
                    match self.encode_field_checked(0, endianness) {
                        Ok(bytes) => Ok(StoreCommand::SAddBytes { key: self.key.clone(), bytes }),
                        Err(e) => Err(e),
                    }
                } else {
                    let member = self.field_string(0);
                    Ok(StoreCommand::SAddText { key: self.key.clone(), member })
                }
            }
            EditOperation::ZAdd => {
                let score_text = self.field_string(0);
                if self.binary_mode {
                    match self.encode_field_checked(1, endianness) {
                        Ok(bytes) => Ok(StoreCommand::ZAddBytes {
                            key: self.key.clone(), score_text, bytes,
                        }),
                        Err(e) => Err(e),
                    }
                } else {
                    let member = self.field_string(1);
                    Ok(StoreCommand::ZAddText { key: self.key.clone(), score_text, member })
                }
            }
            EditOperation::XAdd => {
                let field = self.field_string(0);
                if field.as_str().unicode_len() == 0 {
                    return Err(EditError::FieldRequired);
                }
                if self.binary_mode {
                    match self.encode_field_checked(1, endianness) {
                        Ok(bytes) => Ok(StoreCommand::XAddBytes {
                            key: self.key.clone(), field, bytes,
                        }),
                        Err(e) => Err(e),
                    }
                } else {
                    let value = self.field_string(1);
                    Ok(StoreCommand::XAddText { key: self.key.clone(), field, value })
                }
            }
            EditOperation::SetTTL => {
                let text = self.field_string(0);
                let trimmed = crate::data::trim_text(text.as_str());
                if trimmed.as_str().unicode_len() == 0 {
                    return Ok(StoreCommand::Persist { key: self.key.clone() });
                }
                match crate::textfmt::parse_i64(trimmed.as_str()) {
                    Some(v) => {
                        if v < 0 {
                            Ok(StoreCommand::Persist { key: self.key.clone() })
                        } else {
                            Ok(StoreCommand::SetTtl { key: self.key.clone(), ttl: v })
                        }
                    }
                    None => Err(EditError::InvalidTtl),
                }
            }
            EditOperation::RenameKey => {
                let new_name = self.field_string(0);
                if new_name.as_str().unicode_len() == 0 {
                    return Err(EditError::FieldRequired);
                }
                Ok(StoreCommand::Rename { key: self.key.clone(), new_name })
            }
            EditOperation::NewKey => {
                let key = self.field_string(0);
                if key.as_str().unicode_len() == 0 {
                    return Err(EditError::FieldRequired);
                }
                if self.binary_mode {
                    match self.encode_field_checked(1, endianness) {
                        Err(e) => Err(e),
                        Ok(bytes) => {
                            if self.new_key_kind_idx == 0 {
                                Ok(StoreCommand::SetBytes { key, bytes })
                            } else if self.new_key_kind_idx == 1 {
                                Ok(StoreCommand::HSetBytes {
                                    key, field: String::from_str("field"), bytes,
                                })
                            } else if self.new_key_kind_idx == 2 {
                                Ok(StoreCommand::RPushBytes { key, bytes })
                            } else if self.new_key_kind_idx == 3 {
                                Ok(StoreCommand::SAddBytes { key, bytes })
                            } else if self.new_key_kind_idx == 4 {
                                Ok(StoreCommand::ZAddBytes {
                                    key, score_text: String::from_str("0"), bytes,
                                })
                            } else {
                                Ok(StoreCommand::XAddBytes {
                                    key, field: String::from_str("data"), bytes,
                                })
                            }
                        }
                    }
                } else {
                    let value = self.field_string(1);
                    if self.new_key_kind_idx == 0 {
                        Ok(StoreCommand::SetText { key, value })
                    } else if self.new_key_kind_idx == 1 {
                        Ok(StoreCommand::HSetText {
                            key, field: String::from_str("field"), value,
                        })
                    } else if self.new_key_kind_idx == 2 {
                        Ok(StoreCommand::RPushText { key, value })
                    } else if self.new_key_kind_idx == 3 {
                        Ok(StoreCommand::SAddText { key, member: value })
                    } else if self.new_key_kind_idx == 4 {
                        Ok(StoreCommand::ZAddText {
                            key, score_text: String::from_str("0"), member: value,
                        })
                    } else {
                        Ok(StoreCommand::XAddText {
                            key, field: String::from_str("data"), value,
                        })
                    }
                }
            }
        }
    }

    /// Plan a binary write whose value bytes the shell prepared itself.
    /// The float element kinds are parsed and encoded by the shell, which
    /// owns floating-point arithmetic; the field-name, index and key rules
    /// applied to them are still decided and proved here.
    pub fn plan_prepared_value(&self, bytes: Vec<u8>) -> (r: Result<StoreCommand, EditError>)
        requires
            form_ok(*self),
        ensures
            self.operation is None ==> r == Err::<StoreCommand, EditError>(EditError::NoOperation),
            self.operation == Some(EditOperation::SetString)
                ==> (r matches Ok(c) && c matches StoreCommand::SetBytes { key, bytes: b }
                    && key@ == self.key@ && b == bytes),
            self.operation == Some(EditOperation::HSet) && field_text(*self, 0).len() == 0
                ==> r == Err::<StoreCommand, EditError>(EditError::FieldRequired),
            self.operation == Some(EditOperation::HSet) && field_text(*self, 0).len() > 0
                ==> (r matches Ok(c) && c matches StoreCommand::HSetBytes { key, field, bytes: b }
                    && key@ == self.key@ && field@ == field_text(*self, 0) && b == bytes),
            self.operation == Some(EditOperation::RPush)
                ==> (r matches Ok(c) && c matches StoreCommand::RPushBytes { key, bytes: b }
                    && key@ == self.key@ && b == bytes),
            self.operation == Some(EditOperation::LSet)
                && crate::textfmt::spec_parse_i64(field_text(*self, 0)) is None
                ==> r == Err::<StoreCommand, EditError>(EditError::InvalidIndex),
            self.operation == Some(EditOperation::LSet)
                && crate::textfmt::spec_parse_i64(field_text(*self, 0)) is Some
                ==> (r matches Ok(c) && c matches StoreCommand::LSetBytes { key, index, bytes: b }
                    && key@ == self.key@
                    && index == crate::textfmt::spec_parse_i64(field_text(*self, 0)).unwrap()
                    && b == bytes),
            self.operation == Some(EditOperation::SAdd)
                ==> (r matches Ok(c) && c matches StoreCommand::SAddBytes { key, bytes: b }
                    && key@ == self.key@ && b == bytes),
            self.operation == Some(EditOperation::ZAdd)
                ==> (r matches Ok(c) && c matches StoreCommand::ZAddBytes { key, score_text, bytes: b }
                    && key@ == self.key@ && score_text@ == field_text(*self, 0) && b == bytes),
            self.operation == Some(EditOperation::XAdd) && field_text(*self, 0).len() == 0
                ==> r == Err::<StoreCommand, EditError>(EditError::FieldRequired),
            self.operation == Some(EditOperation::XAdd) && field_text(*self, 0).len() > 0
                ==> (r matches Ok(c) && c matches StoreCommand::XAddBytes { key, field, bytes: b }
                    && key@ == self.key@ && field@ == field_text(*self, 0) && b == bytes),
            self.operation == Some(EditOperation::NewKey) && field_text(*self, 0).len() == 0
                ==> r == Err::<StoreCommand, EditError>(EditError::FieldRequired),
            self.operation == Some(EditOperation::SetTTL)
                || self.operation == Some(EditOperation::RenameKey)
                ==> r == Err::<StoreCommand, EditError>(EditError::FieldRequired),
    {
        let op = match &self.operation {
            Some(op) => *op,
            None => {
                return Err(EditError::NoOperation);
            }
        };
        match op {
            EditOperation::SetString => {
                Ok(StoreCommand::SetBytes { key: self.key.clone(), bytes })
            }
            EditOperation::HSet => {
                let field = self.field_string(0);
                if field.as_str().unicode_len() == 0 {
                    return Err(EditError::FieldRequired);
                }
                Ok(StoreCommand::HSetBytes { key: self.key.clone(), field, bytes })
            }
            EditOperation::RPush => {
                Ok(StoreCommand::RPushBytes { key: self.key.clone(), bytes })
            }
            EditOperation::LSet => {
                let idx_text = self.field_string(0);
                match crate::textfmt::parse_i64(idx_text.as_str()) {
                    Some(index) => {
                        Ok(StoreCommand::LSetBytes { key: self.key.clone(), index, bytes })
                    }
                    None => Err(EditError::InvalidIndex),
                }
            }
            EditOperation::SAdd => {
                Ok(StoreCommand::SAddBytes { key: self.key.clone(), bytes })
            }
            EditOperation::ZAdd => {
                let score_text = self.field_string(0);
                Ok(StoreCommand::ZAddBytes { key: self.key.clone(), score_text, bytes })
            }
            EditOperation::XAdd => {
                let field = self.field_string(0);
                if field.as_str().unicode_len() == 0 {
                    return Err(EditError::FieldRequired);
                }
                Ok(StoreCommand::XAddBytes { key: self.key.clone(), field, bytes })
            }
            EditOperation::NewKey => {
                let key = self.field_string(0);
                if key.as_str().unicode_len() == 0 {
                    return Err(EditError::FieldRequired);
                }
                if self.new_key_kind_idx == 0 {
                    Ok(StoreCommand::SetBytes { key, bytes })
                } else if self.new_key_kind_idx == 1 {
                    Ok(StoreCommand::HSetBytes { key, field: String::from_str("field"), bytes })
                } else if self.new_key_kind_idx == 2 {
                    Ok(StoreCommand::RPushBytes { key, bytes })
                } else if self.new_key_kind_idx == 3 {
                    Ok(StoreCommand::SAddBytes { key, bytes })
                } else if self.new_key_kind_idx == 4 {
                    Ok(StoreCommand::ZAddBytes {
                        key, score_text: String::from_str("0"), bytes,
                    })
                } else {
                    Ok(StoreCommand::XAddBytes { key, field: String::from_str("data"), bytes })
                }
            }
            EditOperation::SetTTL | EditOperation::RenameKey => Err(EditError::FieldRequired),
        }
    }

    /// The text of field `i`, or empty when the form has fewer fields.
    fn field_string(&self, i: usize) -> (r: String)
        ensures
            r@ == field_text(*self, i as int),
    {
        if i < self.fields.len() {
            self.fields[i].1.clone()
        } else {
            String::new()
        }
    }

    /// Encode field `i` as binary elements, or empty-field error.
    fn encode_field_checked(&self, i: usize, endianness: Endianness)
        -> (r: Result<Vec<u8>, EditError>)
        ensures
            r matches Ok(b) ==> i < self.fields@.len()
                && binary_ok(*self, i as int, endianness)
                && b@ == crate::codec::encoded_bytes(
                    crate::data::tokens_raw(
                        crate::data::spec_tokens(field_text(*self, i as int)),
                        self.binary_dtype),
                    crate::codec::elem_width(self.binary_dtype),
                    endianness),
            r is Err ==> !(i < self.fields@.len() && binary_ok(*self, i as int, endianness)),
    {
        if i < self.fields.len() {
            self.encode_field(i, endianness)
        } else {
            Err(EditError::Encode(EncodeError::EmptyInput))
        }
    }
}

} // verus!
