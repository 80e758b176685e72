//! The settings of a run that are whole numbers, flags or text, and the
//! errors that reading them can give.

use vstd::prelude::*;
use crate::expr::{
    eval_boolean, eval_integer, is_plain_expr, spec_eval_boolean, spec_eval_integer,
    spec_plain_expr,
};
use crate::mode::{Mode, Schedule};
use crate::text::{spec_trim, to_chars, trim_range};

verus! {

/// An error of an input or output operation of the standard library. Nothing
/// of it is modelled.
#[verifier::external_type_specification]
#[verifier::external_body]
pub struct ExIoError(std::io::Error);

/// What went wrong with a setting: the key and the value that were read, as
/// far as there are any, and the reason.
#[derive(Debug)]
pub struct SettingsError {
    pub key: Option<String>,
    pub value: Option<String>,
    pub source: String,
}

impl SettingsError {
    /// The value read for a key could not be understood.
    pub fn new(key: &str, value: &str, source: String) -> (err: Self)
        ensures
            err.key matches Some(k) && k@ == key@,
            err.value matches Some(v) && v@ == value@,
            err.source == source,
    {
        Self { key: Some(key.to_owned()), value: Some(value.to_owned()), source }
    }

    /// The value of a key is out of range.
    pub fn simple(key: &str, message: &str) -> (err: Self)
        ensures
            err.key matches Some(k) && k@ == key@,
            err.value is None,
            err.source@ == message@,
    {
        Self { key: Some(key.to_owned()), value: None, source: message.to_owned() }
    }

    /// The settings could not be read; the reason is the text of the input or output error.
    pub fn from_io(err: std::io::Error) -> (e: Self)
        ensures
            e.key is None,
            e.value is None,
            vstd::string::to_string_from_display_ensures::<std::io::Error>(&err, e.source),
    {
        Self { key: None, value: None, source: err.to_string() }
    }
}

/// The settings that are whole numbers, flags or text.
#[derive(Debug)]
pub struct Settings {
    pub dir_prefix: String,
    pub seed: u64,
    pub sx: usize,
    pub sy: usize,
    pub sz: usize,
    pub px: bool,
    pub py: bool,
    pub pz: bool,
    pub mode: Mode,
    pub add_i: u64,
    pub add_from: u64,
    pub rem_i: u64,
    pub rem_from: u64,
    /// Zero for an empty ensemble, a positive number to load that many
    /// states, a negative number to load all.
    pub load_option: i64,
    pub step_lim: u64,
    pub print_i: u64,
    pub write_i: u64,
}

/// The settings that a configuration file can name and that are kept here.
#[derive(Clone, Copy, Debug, PartialEq, Eq, Structural)]
pub enum Field {
    DirPrefix,
    Seed,
    Sx,
    Sy,
    Sz,
    Px,
    Py,
    Pz,
    AddI,
    AddFrom,
    RemI,
    RemFrom,
    LoadOption,
    StepLim,
    PrintI,
    WriteI,
}

impl Field {
    /// Whether the setting is a flag.
    pub open spec fn is_flag(self) -> bool {
        self == Field::Px || self == Field::Py || self == Field::Pz
    }
}

/// The setting with the key `key`, if it is one of those kept here.
pub open spec fn spec_field_of(key: Seq<char>) -> Option<Field> {
    if key == "DirPrefix"@ {
        Some(Field::DirPrefix)
    } else if key == "Seed"@ {
        Some(Field::Seed)
    } else if key == "Sx"@ {
        Some(Field::Sx)
    } else if key == "Sy"@ {
        Some(Field::Sy)
    } else if key == "Sz"@ {
        Some(Field::Sz)
    } else if key == "Px"@ {
        Some(Field::Px)
    } else if key == "Py"@ {
        Some(Field::Py)
    } else if key == "Pz"@ {
        Some(Field::Pz)
    } else if key == "AddI"@ {
        Some(Field::AddI)
    } else if key == "AddFrom"@ {
        Some(Field::AddFrom)
    } else if key == "RemI"@ {
        Some(Field::RemI)
    } else if key == "RemFrom"@ {
        Some(Field::RemFrom)
    } else if key == "LoadOption"@ {
        Some(Field::LoadOption)
    } else if key == "StepLim"@ {
        Some(Field::StepLim)
    } else if key == "PrintI"@ {
        Some(Field::PrintI)
    } else if key == "WriteI"@ {
        Some(Field::WriteI)
    } else {
        None
    }
}

/// Whether `chars` spells `text`.
fn spells(chars: &Vec<char>, text: &str) -> (same: bool)
    ensures
        same == (chars@ == text@),
{
    let other = to_chars(text);
    if chars.len() != other.len() {
        return false;
    }
    let mut i: usize = 0;
    while i < chars.len()
        invariant
            i <= chars@.len(),
            chars@.len() == other@.len(),
            other@ == text@,
            forall|j: int| 0 <= j < i ==> chars@[j] == other@[j],
        decreases chars@.len() - i,
    {
        if chars[i] != other[i] {
            assert(chars@[i as int] != text@[i as int]);
            return false;
        }
        i += 1;
    }
    assert(chars@ =~= other@);
    true
}

/// The setting with the key `key`, if it is one of those kept here.
pub fn field_of(key: &str) -> (field: Option<Field>)
    ensures
        field == spec_field_of(key@),
{
    let k = to_chars(key);
    if spells(&k, "DirPrefix") {
        Some(Field::DirPrefix)
    } else if spells(&k, "Seed") {
        Some(Field::Seed)
    } else if spells(&k, "Sx") {
        Some(Field::Sx)
    } else if spells(&k, "Sy") {
        Some(Field::Sy)
    } else if spells(&k, "Sz") {
        Some(Field::Sz)
    } else if spells(&k, "Px") {
        Some(Field::Px)
    } else if spells(&k, "Py") {
        Some(Field::Py)
    } else if spells(&k, "Pz") {
        Some(Field::Pz)
    } else if spells(&k, "AddI") {
        Some(Field::AddI)
    } else if spells(&k, "AddFrom") {
        Some(Field::AddFrom)
    } else if spells(&k, "RemI") {
        Some(Field::RemI)
    } else if spells(&k, "RemFrom") {
        Some(Field::RemFrom)
    } else if spells(&k, "LoadOption") {
        Some(Field::LoadOption)
    } else if spells(&k, "StepLim") {
        Some(Field::StepLim)
    } else if spells(&k, "PrintI") {
        Some(Field::PrintI)
    } else if spells(&k, "WriteI") {
        Some(Field::WriteI)
    } else {
        None
    }
}

/// `v` brought into the range of `u64`.
pub open spec fn spec_clamp_u64(v: i128) -> u64 {
    if v < 0 {
        0
    } else if v > u64::MAX {
        u64::MAX
    } else {
        v as u64
    }
}

/// `v` brought into the range of `usize`.
pub open spec fn spec_clamp_usize(v: i128) -> usize {
    if v < 0 {
        0
    } else if v > usize::MAX {
        usize::MAX
    } else {
        v as usize
    }
}

/// `v` brought into the range of `i64`.
pub open spec fn spec_clamp_i64(v: i128) -> i64 {
    if v < i64::MIN {
        i64::MIN
    } else if v > i64::MAX {
        i64::MAX
    } else {
        v as i64
    }
}

fn clamp_u64(v: i128) -> (r: u64)
    ensures
        r == spec_clamp_u64(v),
{
    if v < 0 {
        0
    } else if v > u64::MAX as i128 {
        u64::MAX
    } else {
        v as u64
    }
}

fn clamp_usize(v: i128) -> (r: usize)
    ensures
        r == spec_clamp_usize(v),
{
    if v < 0 {
        0
    } else if v > usize::MAX as i128 {
        usize::MAX
    } else {
        v as usize
    }
}

fn clamp_i64(v: i128) -> (r: i64)
    ensures
        r == spec_clamp_i64(v),
{
    if v < i64::MIN as i128 {
        i64::MIN
    } else if v > i64::MAX as i128 {
        i64::MAX
    } else {
        v as i64
    }
}

/// The first setting that is out of range, with the reason: a dimension of
/// zero, a temperature that is not positive, a first step of zero for
/// attachment or detachment, or a directory prefix that is blank.
pub open spec fn spec_fault(cfg: &Settings, temperature_positive: bool) -> Option<
    (Seq<char>, Seq<char>),
> {
    if cfg.sx == 0 {
        Some(("Sx"@, "must be > 0"@))
    } else if cfg.sy == 0 {
        Some(("Sy"@, "must be > 0"@))
    } else if cfg.sz == 0 {
        Some(("Sz"@, "must be > 0"@))
    } else if !temperature_positive {
        Some(("T"@, "must be > 0"@))
    } else if cfg.add_from < 1 {
        Some(("AddFrom"@, "must be > 0"@))
    } else if cfg.rem_from < 1 {
        Some(("RemFrom"@, "must be > 0"@))
    } else if spec_trim(cfg.dir_prefix@).len() == 0 {
        Some(("DirPrefix"@, "cannot be empty"@))
    } else {
        None
    }
}

impl Settings {
    /// The settings of a run that has not been configured.
    pub fn new() -> (cfg: Self)
        ensures
            cfg.dir_prefix@ == "Default"@,
            cfg.seed == 1012,
            cfg.sx == 11 && cfg.sy == 11 && cfg.sz == 11,
            !cfg.px && !cfg.py && !cfg.pz,
            cfg.mode == Mode::M11,
            cfg.add_i == 1 && cfg.add_from == 1 && cfg.rem_i == 1 && cfg.rem_from == 1,
            cfg.load_option == 0,
            cfg.step_lim == 100 && cfg.print_i == 10 && cfg.write_i == 1,
    {
        Self {
            dir_prefix: "Default".to_owned(),
            seed: 1012,
            sx: 11,
            sy: 11,
            sz: 11,
            px: false,
            py: false,
            pz: false,
            mode: Mode::M11,
            add_i: 1,
            add_from: 1,
            rem_i: 1,
            rem_from: 1,
            load_option: 0,
            step_lim: 100,
            print_i: 10,
            write_i: 1,
        }
    }

    /// The schedule that the settings describe.
    pub open spec fn spec_schedule(&self) -> Schedule {
        Schedule {
            add_i: self.add_i,
            add_from: self.add_from,
            rem_i: self.rem_i,
            rem_from: self.rem_from,
            write_i: self.write_i,
            print_i: self.print_i,
            step_lim: self.step_lim,
        }
    }

    /// The schedule that the settings describe.
    pub fn schedule(&self) -> (s: Schedule)
        ensures
            s == self.spec_schedule(),
    {
        Schedule {
            add_i: self.add_i,
            add_from: self.add_from,
            rem_i: self.rem_i,
            rem_from: self.rem_from,
            write_i: self.write_i,
            print_i: self.print_i,
            step_lim: self.step_lim,
        }
    }

    /// Checks the ranges of the settings, in the order of `spec_fault`. The
    /// temperature is kept elsewhere: `temperature_positive` tells whether it
    /// is greater than zero.
    pub fn validate(&self, temperature_positive: bool) -> (r: Result<(), SettingsError>)
        ensures
            r is Ok <==> spec_fault(self, temperature_positive) is None,
            r matches Err(e) ==> {
                &&& e.key matches Some(k) && Some((k@, e.source@)) == spec_fault(
                    self,
                    temperature_positive,
                )
                &&& e.value is None
            },
    {
        if self.sx == 0 {
            return Err(SettingsError::simple("Sx", "must be > 0"));
        }
        if self.sy == 0 {
            return Err(SettingsError::simple("Sy", "must be > 0"));
        }
        if self.sz == 0 {
            return Err(SettingsError::simple("Sz", "must be > 0"));
        }
        if !temperature_positive {
            return Err(SettingsError::simple("T", "must be > 0"));
        }
        if self.add_from < 1 {
            return Err(SettingsError::simple("AddFrom", "must be > 0"));
        }
        if self.rem_from < 1 {
            return Err(SettingsError::simple("RemFrom", "must be > 0"));
        }
        let prefix = to_chars(self.dir_prefix.as_str());
        let (from, to) = trim_range(&prefix, 0, prefix.len());
        assert(prefix@.subrange(0, prefix@.len() as int) =~= prefix@);
        if from == to {
            return Err(SettingsError::simple("DirPrefix", "cannot be empty"));
        }
        Ok(())
    }

    /// The settings with the number `v` stored in `field`, brought into the
    /// range of the field.
    pub open spec fn with_number(self, field: Field, v: i128) -> Settings {
        match field {
            Field::Seed => Settings { seed: spec_clamp_u64(v), ..self },
            Field::Sx => Settings { sx: spec_clamp_usize(v), ..self },
            Field::Sy => Settings { sy: spec_clamp_usize(v), ..self },
            Field::Sz => Settings { sz: spec_clamp_usize(v), ..self },
            Field::AddI => Settings { add_i: spec_clamp_u64(v), ..self },
            Field::AddFrom => Settings { add_from: spec_clamp_u64(v), ..self },
            Field::RemI => Settings { rem_i: spec_clamp_u64(v), ..self },
            Field::RemFrom => Settings { rem_from: spec_clamp_u64(v), ..self },
            Field::LoadOption => Settings { load_option: spec_clamp_i64(v), ..self },
            Field::StepLim => Settings { step_lim: spec_clamp_u64(v), ..self },
            Field::PrintI => Settings { print_i: spec_clamp_u64(v), ..self },
            Field::WriteI => Settings { write_i: spec_clamp_u64(v), ..self },
            _ => self,
        }
    }

    /// The settings with the flag `b` stored in `field`.
    pub open spec fn with_flag(self, field: Field, b: bool) -> Settings {
        match field {
            Field::Px => Settings { px: b, ..self },
            Field::Py => Settings { py: b, ..self },
            Field::Pz => Settings { pz: b, ..self },
            _ => self,
        }
    }

    /// Stores the number `v` in `field`, brought into the range of the
    /// field. A field that holds no number is left as it is.
    pub fn store_number(&mut self, field: Field, v: i128)
        ensures
            *final(self) == old(self).with_number(field, v),
    {
        match field {
            Field::Seed => {
                self.seed = clamp_u64(v);
            },
            Field::Sx => {
                self.sx = clamp_usize(v);
            },
            Field::Sy => {
                self.sy = clamp_usize(v);
            },
            Field::Sz => {
                self.sz = clamp_usize(v);
            },
            Field::AddI => {
                self.add_i = clamp_u64(v);
            },
            Field::AddFrom => {
                self.add_from = clamp_u64(v);
            },
            Field::RemI => {
                self.rem_i = clamp_u64(v);
            },
            Field::RemFrom => {
                self.rem_from = clamp_u64(v);
            },
            Field::LoadOption => {
                self.load_option = clamp_i64(v);
            },
            Field::StepLim => {
                self.step_lim = clamp_u64(v);
            },
            Field::PrintI => {
                self.print_i = clamp_u64(v);
            },
            Field::WriteI => {
                self.write_i = clamp_u64(v);
            },
            _ => {},
        }
    }

    /// Stores the flag `b` in `field`. A field that holds no flag is left as
    /// it is.
    pub fn store_flag(&mut self, field: Field, b: bool)
        ensures
            *final(self) == old(self).with_flag(field, b),
    {
        match field {
            Field::Px => {
                self.px = b;
            },
            Field::Py => {
                self.py = b;
            },
            Field::Pz => {
                self.pz = b;
            },
            _ => {},
        }
    }

    /// Takes one `key: value` pair of a configuration file. A key that is not
    /// kept here changes nothing and gives `false`. The directory prefix is
    /// stored as it stands. The value of a flag or of a number must be a plain
    /// expression; it is stored as the value of the expression. A value that
    /// is no plain expression, or that cannot be evaluated, gives an error
    /// that names the key and the value and changes nothing.
    pub fn apply_setting(&mut self, key: &str, value: &str) -> (r: Result<bool, SettingsError>)
        ensures
            match spec_field_of(key@) {
                None => r == Ok::<bool, SettingsError>(false) && *final(self) == *old(self),
                Some(Field::DirPrefix) => {
                    &&& r == Ok::<bool, SettingsError>(true)
                    &&& final(self).dir_prefix@ == value@
                    &&& *final(self) == (Settings {
                        dir_prefix: final(self).dir_prefix,
                        ..*old(self)
                    })
                },
                Some(field) => if !spec_plain_expr(value@) {
                    unread(r, key@, value@, NOT_PLAIN@) && *final(self) == *old(self)
                } else if field.is_flag() {
                    match spec_eval_boolean(value@) {
                        Ok(b) => r == Ok::<bool, SettingsError>(true) && *final(self) == old(
                            self,
                        ).with_flag(field, b),
                        Err(text) => unread(r, key@, value@, text) && *final(self) == *old(self),
                    }
                } else {
                    match spec_eval_integer(value@) {
                        Ok(v) => r == Ok::<bool, SettingsError>(true) && *final(self) == old(
                            self,
                        ).with_number(field, v),
                        Err(text) => unread(r, key@, value@, text) && *final(self) == *old(self),
                    }
                },
            },
    {
        match field_of(key) {
            None => Ok(false),
            Some(Field::DirPrefix) => {
                self.dir_prefix = value.to_owned();
                Ok(true)
            },
            Some(field) => {
                if !is_plain_expr(value) {
                    return Err(SettingsError::new(key, value, NOT_PLAIN.to_owned()));
                }
                let flag = match field {
                    Field::Px | Field::Py | Field::Pz => true,
                    _ => false,
                };
                if flag {
                    match eval_boolean(value) {
                        Ok(b) => {
                            self.store_flag(field, b);
                            Ok(true)
                        },
                        Err(text) => Err(SettingsError::new(key, value, text)),
                    }
                } else {
                    match eval_integer(value) {
                        Ok(v) => {
                            self.store_number(field, v);
                            Ok(true)
                        },
                        Err(text) => Err(SettingsError::new(key, value, text)),
                    }
                }
            },
        }
    }
}

/// The reason given for a value that is no plain expression.
pub const NOT_PLAIN: &'static str =
    "not a plain expression of numbers, true, false, operators and brackets";

/// The result is the error of a value that could not be read for a key, with
/// the text of the reason.
pub open spec fn unread(
    r: Result<bool, SettingsError>,
    key: Seq<char>,
    value: Seq<char>,
    text: Seq<char>,
) -> bool {
    r matches Err(e) && (e.key matches Some(k) && k@ == key) && (e.value matches Some(v) && v@
        == value) && e.source@ == text
}

} // verus!
