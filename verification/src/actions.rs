//! What the editor's keys and command-line options stand for.
use vstd::prelude::*;

use crate::eq::Rotation;
use crate::text::{
    append_chars, decimal, decimal_chars, chars_eq_ignore_ascii_case, chars_eq_str, chars_of, eq_ignore_ascii_case,
    has_prefix,
    is_zero_literal, parse_unsigned, parse_usize, slice_chars, starts_with, string_of,
    strip_prefix_all, trim_start_matches, zero_literal,
};

verus! {

/// How a value is changed: multiplied, shifted, or replaced; the operand is
/// decimal text.
#[derive(Debug)]
pub enum Adjustment {
    Multiplier(String),
    Delta(String),
    Absolute(String),
}

/// The actions of the equalizer view.
#[derive(Debug)]
pub enum EqAction {
    Quit,
    ToggleHelp,
    SelectNext,
    SelectPrevious,
    AddFilter,
    RemoveFilter,
    ToggleBypass,
    ToggleMute,
    SelectIndex(usize),
    AdjustFrequency(Adjustment),
    AdjustGain(Adjustment),
    AdjustQ(Adjustment),
    AdjustPreamp(Adjustment),
    CycleFilterType(Rotation),
    CycleViewMode(Rotation),
    OpenAutoEq,
    EnterCommandMode,
}

/// The actions of the AutoEQ browser.
#[derive(Debug, Clone, Copy, PartialEq, Eq, Structural)]
pub enum AutoEqAction {
    Quit,
    ToggleHelp,
    SelectNext,
    SelectPrevious,
    ApplyAutoEq,
    CycleTarget(Rotation),
    EnterFilterMode,
    EnterEqMode,
    EnterCommandMode,
}

/// The actions of the command line.
#[derive(Debug, Clone, Copy, PartialEq, Eq, Structural)]
pub enum CommandAction {
    ExecuteCommand,
    ExitCommandMode,
    CommandHistoryPrevious,
    CommandHistoryNext,
    DeleteCharBackward,
    DeleteCharForward,
    MoveCursorLeft,
    MoveCursorRight,
    MoveCursorHome,
    MoveCursorEnd,
}

/// The short description of an equalizer action in the help line; entering
/// the command line has none.
pub open spec fn eq_action_description(a: EqAction) -> Option<Seq<char>> {
    match a {
        EqAction::ToggleHelp => Some("help"@),
        EqAction::Quit => Some("quit"@),
        EqAction::SelectNext => Some("next"@),
        EqAction::SelectPrevious => Some("prev"@),
        EqAction::AddFilter => Some("add"@),
        EqAction::RemoveFilter => Some("delete"@),
        EqAction::ToggleBypass => Some("bypass"@),
        EqAction::ToggleMute => Some("mute"@),
        EqAction::SelectIndex(_) => Some("select"@),
        EqAction::AdjustFrequency(_) => Some("freq"@),
        EqAction::AdjustGain(Adjustment::Absolute(v)) => if is_zero_literal(v@) {
            Some("zero gain"@)
        } else {
            Some("gain"@)
        },
        EqAction::AdjustGain(_) => Some("gain"@),
        EqAction::AdjustQ(_) => Some("Q"@),
        EqAction::AdjustPreamp(_) => Some("preamp"@),
        EqAction::CycleFilterType(_) => Some("cycle type"@),
        EqAction::CycleViewMode(_) => Some("cycle view"@),
        EqAction::OpenAutoEq => Some("autoeq"@),
        EqAction::EnterCommandMode => None,
    }
}

fn some_text(s: &str) -> (r: Option<String>)
    ensures
        r matches Some(t) && t@ == s@,
{
    Some(string_of(chars_of(s)))
}

impl EqAction {
    /// The short description of the action for the help line.
    pub fn description(&self) -> (r: Option<String>)
        ensures
            match r {
                Some(t) => eq_action_description(*self) == Some(t@),
                None => eq_action_description(*self) is None,
            },
    {
        match self {
            EqAction::ToggleHelp => some_text("help"),
            EqAction::Quit => some_text("quit"),
            EqAction::SelectNext => some_text("next"),
            EqAction::SelectPrevious => some_text("prev"),
            EqAction::AddFilter => some_text("add"),
            EqAction::RemoveFilter => some_text("delete"),
            EqAction::ToggleBypass => some_text("bypass"),
            EqAction::ToggleMute => some_text("mute"),
            EqAction::SelectIndex(_) => some_text("select"),
            EqAction::AdjustFrequency(_) => some_text("freq"),
            EqAction::AdjustGain(Adjustment::Absolute(v)) => {
                if zero_literal(&chars_of(v.as_str())) {
                    some_text("zero gain")
                } else {
                    some_text("gain")
                }
            },
            EqAction::AdjustGain(_) => some_text("gain"),
            EqAction::AdjustQ(_) => some_text("Q"),
            EqAction::AdjustPreamp(_) => some_text("preamp"),
            EqAction::CycleFilterType(_) => some_text("cycle type"),
            EqAction::CycleViewMode(_) => some_text("cycle view"),
            EqAction::OpenAutoEq => some_text("autoeq"),
            EqAction::EnterCommandMode => None,
        }
    }
}

/// The short description of a browser action in the help line.
pub open spec fn autoeq_action_description(a: AutoEqAction) -> Option<Seq<char>> {
    match a {
        AutoEqAction::Quit => Some("quit"@),
        AutoEqAction::ToggleHelp => Some("help"@),
        AutoEqAction::SelectNext => Some("next"@),
        AutoEqAction::SelectPrevious => Some("prev"@),
        AutoEqAction::ApplyAutoEq => Some("apply"@),
        AutoEqAction::CycleTarget(_) => Some("cycle target"@),
        AutoEqAction::EnterFilterMode => Some("filter"@),
        AutoEqAction::EnterEqMode => Some("close"@),
        AutoEqAction::EnterCommandMode => None,
    }
}

impl AutoEqAction {
    /// The short description of the action for the help line.
    pub fn description(&self) -> (r: Option<String>)
        ensures
            match r {
                Some(t) => autoeq_action_description(*self) == Some(t@),
                None => autoeq_action_description(*self) is None,
            },
    {
        match self {
            AutoEqAction::Quit => some_text("quit"),
            AutoEqAction::ToggleHelp => some_text("help"),
            AutoEqAction::SelectNext => some_text("next"),
            AutoEqAction::SelectPrevious => some_text("prev"),
            AutoEqAction::ApplyAutoEq => some_text("apply"),
            AutoEqAction::CycleTarget(_) => some_text("cycle target"),
            AutoEqAction::EnterFilterMode => some_text("filter"),
            AutoEqAction::EnterEqMode => some_text("close"),
            AutoEqAction::EnterCommandMode => None,
        }
    }
}

/// Starting filter configurations.
#[derive(Debug, Clone, Copy, PartialEq, Eq, Structural)]
pub enum Preset {
    /// Flat peaking bands spread logarithmically over the audible range.
    Flat { bands: usize },
}

/// Why text does not name a preset.
#[derive(Debug, Clone, PartialEq, Eq)]
pub enum PresetError {
    /// The text after `flat` (given) is not a band count.
    InvalidNumber(String),
    /// A band count outside 1 to 31.
    BandCount(usize),
    /// Not a preset name; the lowercased text is given.
    Unknown(String),
}

pub ghost enum PresetErrorModel {
    InvalidNumber(Seq<char>),
    BandCount(usize),
    Unknown(Seq<char>),
}

impl View for PresetError {
    type V = PresetErrorModel;

    open spec fn view(&self) -> PresetErrorModel {
        match self {
            PresetError::InvalidNumber(s) => PresetErrorModel::InvalidNumber(s@),
            PresetError::BandCount(n) => PresetErrorModel::BandCount(*n),
            PresetError::Unknown(s) => PresetErrorModel::Unknown(s@),
        }
    }
}

/// What `str::to_lowercase` returns for a text.
pub uninterp spec fn lowercase_of(s: Seq<char>) -> Seq<char>;

/// `str::to_lowercase`: the Unicode lowercase form of a text.
#[verifier::external_body]
pub(crate) fn to_lowercase(s: &str) -> (r: String)
    ensures
        r@ == lowercase_of(s@),
{
    s.to_lowercase()
}

/// A shifted one-character key: `<S-x>`.
pub open spec fn is_shifted_char_key(key: Seq<char>) -> bool {
    key.len() == 5 && starts_with(key, "<S-"@) && key[4] == '>'
}

/// The key written with `lowered` as its shifted character.
pub open spec fn key_with(key: Seq<char>, lowered: Seq<char>) -> Seq<char> {
    if is_shifted_char_key(key) {
        "<S-"@ + lowered + ">"@
    } else {
        key
    }
}

/// A shifted one-character key `<S-x>` is written with the character in
/// lowercase, so that `<S-R>` and `<S-r>` name the same key; any other key
/// text stays as it is.
pub open spec fn normalized_key(key: Seq<char>) -> Seq<char> {
    key_with(key, lowercase_of(seq![key[3]]))
}

/// The key text under which a binding is stored.
pub fn normalize_key(key: &str) -> (r: String)
    ensures
        r@ == normalized_key(key@),
{
    let kv = chars_of(key);
    if kv.len() == 5 {
        let middle = slice_chars(&kv, 3, 4);
        assert(middle@ =~= seq![key@[3]]);
        let lower = to_lowercase(string_of(middle).as_str());
        key_with_lowered(key, lower.as_str())
    } else {
        key_with_lowered(key, "")
    }
}

/// A shifted one-character key `<S-x>` written with `lowered` (the lowercase
/// form of its character) in its place; any other key text as it is.
pub fn key_with_lowered(key: &str, lowered: &str) -> (r: String)
    ensures
        r@ == key_with(key@, lowered@),
{
    let kv = chars_of(key);
    let prefix = chars_of("<S-");
    if kv.len() == 5 && has_prefix(&kv, &prefix) && kv[4] == '>' {
        let mut out = chars_of("<S-");
        append_chars(&mut out, &chars_of(lowered));
        append_chars(&mut out, &chars_of(">"));
        string_of(out)
    } else {
        string_of(kv)
    }
}

/// The preset that lowercased text names: `flat` followed by a band count
/// from 1 to 31, with optional hyphens before it.
pub open spec fn preset_of_lower(l: Seq<char>) -> Result<Preset, PresetErrorModel> {
    if starts_with(l, "flat"@) {
        let num = l.skip(4);
        match parse_unsigned(strip_prefix_all(num, "-"@), usize::MAX as nat) {
            None => Err(PresetErrorModel::InvalidNumber(num)),
            Some(n) => if n == 0 || n > 31 {
                Err(PresetErrorModel::BandCount(n as usize))
            } else {
                Ok(Preset::Flat { bands: n as usize })
            },
        }
    } else {
        Err(PresetErrorModel::Unknown(l))
    }
}

/// The message that explains why text does not name a preset.
pub open spec fn preset_error_message(e: PresetErrorModel) -> Seq<char> {
    match e {
        PresetErrorModel::InvalidNumber(n) => "invalid flat preset number: "@ + n,
        PresetErrorModel::BandCount(n) => "flat preset bands must be between 1 and 31, got "@ + decimal(
            n as nat,
        ),
        PresetErrorModel::Unknown(t) => "unknown preset: "@ + t,
    }
}

impl PresetError {
    /// The message that explains the error.
    pub fn message(&self) -> (r: String)
        ensures
            r@ == preset_error_message(self@),
    {
        let (mut v, rest) = match self {
            PresetError::InvalidNumber(n) => (chars_of("invalid flat preset number: "), chars_of(n.as_str())),
            PresetError::BandCount(n) => (
                chars_of("flat preset bands must be between 1 and 31, got "),
                decimal_chars(*n as u64),
            ),
            PresetError::Unknown(t) => (chars_of("unknown preset: "), chars_of(t.as_str())),
        };
        append_chars(&mut v, &rest);
        string_of(v)
    }
}

impl Preset {
    /// Reads a preset name in any case, such as `flat10` or `Flat-5`.
    pub fn from_str(s: &str) -> (r: Result<Preset, PresetError>)
        ensures
            match r {
                Ok(p) => preset_of_lower(lowercase_of(s@)) == Ok::<Preset, PresetErrorModel>(p),
                Err(e) => preset_of_lower(lowercase_of(s@)) == Err::<Preset, PresetErrorModel>(e@),
            },
    {
        Preset::from_lowercase(to_lowercase(s))
    }

    /// Reads a preset name already in lowercase: `flat` followed by a band
    /// count from 1 to 31, with optional hyphens before it.
    pub fn from_lowercase(lower: String) -> (r: Result<Preset, PresetError>)
        ensures
            match r {
                Ok(p) => preset_of_lower(lower@) == Ok::<Preset, PresetErrorModel>(p),
                Err(e) => preset_of_lower(lower@) == Err::<Preset, PresetErrorModel>(e@),
            },
    {
        let l = chars_of(lower.as_str());
        let flat = chars_of("flat");
        proof {
            reveal_strlit("flat");
        }
        if !has_prefix(&l, &flat) {
            return Err(PresetError::Unknown(lower));
        }
        let num = slice_chars(&l, 4, l.len());
        assert(num@ =~= l@.skip(4));
        let digits = trim_start_matches(&num, &chars_of("-"));
        match parse_usize(&digits) {
            None => Err(PresetError::InvalidNumber(string_of(num))),
            Some(n) => if n == 0 || n > 31 {
                Err(PresetError::BandCount(n))
            } else {
                Ok(Preset::Flat { bands: n })
            },
        }
    }
}

/// `config` subcommands.
#[derive(Debug, Clone, Copy, PartialEq, Eq, Structural)]
pub enum ConfigArgs {
    /// Create the default configuration file, overwriting it when forced.
    Init { force: bool },
}

/// The formats an equalizer can be saved in.
#[derive(Debug, Clone, Copy, PartialEq, Eq, Structural)]
pub enum Format {
    PwParamEq,
    Apo,
}

/// A file extension of `apo` saves in the `.apo` format, anything else as
/// a PipeWire `param_eq` configuration.
pub fn format_for_extension(ext: Option<&str>) -> (f: Format)
    ensures
        f == (if ext matches Some(e) && e@ == "apo"@ {
            Format::Apo
        } else {
            Format::PwParamEq
        }),
{
    match ext {
        Some(e) => if chars_eq_str(&chars_of(e), "apo") {
            Format::Apo
        } else {
            Format::PwParamEq
        },
        None => Format::PwParamEq,
    }
}

/// What saving to `path` is refused with: a file that exists is not
/// overwritten unless `!` (`force`) was given.
pub fn overwrite_refusal(exists: bool, force: bool, path: &str) -> (r: Option<String>)
    ensures
        match r {
            Some(m) => exists && !force && m@ == "file "@ + path@ + " already exists (use ! to overwrite)"@,
            None => !(exists && !force),
        },
{
    if exists && !force {
        let mut m = chars_of("file ");
        append_chars(&mut m, &chars_of(path));
        append_chars(&mut m, &chars_of(" already exists (use ! to overwrite)"));
        Some(string_of(m))
    } else {
        None
    }
}

/// The kinds of files a profile can be loaded from.
#[derive(Debug, Clone, Copy, PartialEq, Eq, Structural)]
pub enum ProfileFile {
    /// An AutoEQ parametric equalizer (`.apo`, in any ASCII case).
    Apo,
}

/// The kind of profile file an extension names: only `.apo` files are
/// loaded, the extension in any ASCII case; `None` for anything else.
pub fn profile_file_kind(ext: Option<&str>) -> (k: Option<ProfileFile>)
    ensures
        k == (if ext matches Some(e) && eq_ignore_ascii_case(e@, "apo"@) {
            Some(ProfileFile::Apo)
        } else {
            None
        }),
{
    match ext {
        Some(e) => {
            if chars_eq_ignore_ascii_case(&chars_of(e), &chars_of("apo")) {
                Some(ProfileFile::Apo)
            } else {
                None
            }
        },
        None => None,
    }
}

} // verus!
