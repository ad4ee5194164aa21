//! The commands of a simulator script, one per line.

use vstd::prelude::*;
use vstd::string::*;
use vstd::utf8::encode_utf8;

verus! {

/// The flash devices that the simulator knows.
#[derive(Debug, Clone, Copy, PartialEq, Eq, Structural)]
pub enum DeviceName {
    Linear4k,
}

impl DeviceName {
    /// The name of the device as it is written on the command line.
    pub open spec fn label(&self) -> Seq<char> {
        match *self {
            DeviceName::Linear4k => "linear-4k"@,
        }
    }

    /// The name of the device as it is written on the command line.
    pub fn to_string(&self) -> (name: String)
        ensures
            name@ == self.label(),
    {
        match *self {
            DeviceName::Linear4k => "linear-4k".to_owned(),
        }
    }
}

/// All the devices, in the order in which a full run takes them.
pub fn all_devices() -> (devices: Vec<DeviceName>)
    ensures
        devices@ == seq![DeviceName::Linear4k],
{
    let mut devices = Vec::new();
    devices.push(DeviceName::Linear4k);
    devices
}

/// Whether `align` is a write alignment that a flash device can have.
pub fn valid_alignment(align: u8) -> (valid: bool)
    ensures
        valid == (align == 1 || align == 2 || align == 4 || align == 8),
{
    align == 1 || align == 2 || align == 4 || align == 8
}

/// The pattern of a line that formats the flash.
pub open spec fn format_pattern() -> Seq<char> {
    "^\\s*format\\s*$"@
}

/// The pattern of a line that restores the file system.
pub open spec fn restore_pattern() -> Seq<char> {
    "^\\s*restore\\s*$"@
}

/// The pattern of a line that opens a file: its name, then how.
pub open spec fn file_open_pattern() -> Seq<char> {
    "^\\s*file_open\\s+(\\w+)\\s+(append|truncate)?\\s*$"@
}

/// The pattern of a line that writes to a file: its name, the character to
/// fill with, and how many.
pub open spec fn write_to_file_pattern() -> Seq<char> {
    "^\\s*write_to_file\\s+(\\w+)\\s+(\\w)\\s+(\\d+)\\s*$"@
}

/// The pattern of a line that renames a path: the old name and the new.
pub open spec fn path_rename_pattern() -> Seq<char> {
    "^\\s*path_rename\\s+(\\w+)\\s+(\\w+)\\s*$"@
}

/// What `regex::Regex::captures` finds in a text for the regular expression
/// that `regex::Regex::new` compiles from a pattern: nothing where the
/// pattern is not accepted or does not match, else for each group of the
/// pattern, the whole match being group 0, the text that it matched, if any.
pub uninterp spec fn regex_captures(pattern: Seq<char>, text: Seq<char>) -> Option<
    Seq<Option<Seq<char>>>,
>;

/// `regex::Regex::new`, then `regex::Regex::captures` on what it compiled:
/// the groups of the leftmost match of `pattern` in `text`, each with the
/// text that it matched.  What comes back depends on the pattern and the
/// text alone.
#[verifier::external_body]
fn regex_captures_in(pattern: &str, text: &str) -> (groups: Option<Vec<Option<String>>>)
    ensures
        captures_view(groups) == regex_captures(pattern@, text@),
{
    let found = match regex::Regex::new(pattern) {
        Ok(re) => re.captures(text),
        Err(_) => None,
    };
    let mut groups = Vec::new();
    for group in found?.iter() {
        groups.push(
            match group {
                Some(part) => Some(part.as_str().to_owned()),
                None => None,
            },
        );
    }
    Some(groups)
}

/// The text of each group.
pub open spec fn group_texts(groups: Seq<Option<String>>) -> Seq<Option<Seq<char>>> {
    groups.map_values(
        |group: Option<String>|
            match group {
                Some(text) => Some(text@),
                None => None,
            },
    )
}

/// The groups of a match, as texts.
pub open spec fn captures_view(groups: Option<Vec<Option<String>>>) -> Option<
    Seq<Option<Seq<char>>>,
> {
    match groups {
        Some(found) => Some(group_texts(found@)),
        None => None,
    }
}

/// What a line of a script asks for.
#[derive(Debug, Clone, PartialEq, Eq)]
pub enum ScriptCommand {
    Format,
    Restore,
    /// Open the file `name`; `flags` is the first byte of the mode.
    FileOpen { name: String, flags: u8 },
    /// Write `len` bytes `fill` to the file `name`.
    WriteToFile { name: String, fill: u8, len: usize },
    PathRename { oldname: String, newname: String },
    /// The line is no command.
    Invalid,
}

/// A command, with its names as sequences of characters.
pub enum CommandModel {
    Format,
    Restore,
    FileOpen { name: Seq<char>, flags: u8 },
    WriteToFile { name: Seq<char>, fill: u8, len: usize },
    PathRename { oldname: Seq<char>, newname: Seq<char> },
    Invalid,
}

impl View for ScriptCommand {
    type V = CommandModel;

    open spec fn view(&self) -> CommandModel {
        match *self {
            ScriptCommand::Format => CommandModel::Format,
            ScriptCommand::Restore => CommandModel::Restore,
            ScriptCommand::FileOpen { name, flags } => CommandModel::FileOpen {
                name: name@,
                flags,
            },
            ScriptCommand::WriteToFile { name, fill, len } => CommandModel::WriteToFile {
                name: name@,
                fill,
                len,
            },
            ScriptCommand::PathRename { oldname, newname } => CommandModel::PathRename {
                oldname: oldname@,
                newname: newname@,
            },
            ScriptCommand::Invalid => CommandModel::Invalid,
        }
    }
}

/// Why a line that looks like a command cannot be carried out.
#[derive(Debug, Clone, Copy, PartialEq, Eq, Structural)]
pub enum ScriptError {
    /// A part of the command matched nothing.
    MissingGroup,
    /// The character to fill with is not a single byte.
    InvalidFill,
    /// The number of bytes to write is no number, or too large a one.
    InvalidLength,
}

/// What a line leads to, with names as sequences of characters.
pub open spec fn outcome_view(outcome: Result<ScriptCommand, ScriptError>) -> Result<
    CommandModel,
    ScriptError,
> {
    match outcome {
        Ok(command) => Ok(command@),
        Err(error) => Err(error),
    }
}

/// The text of group `k`, where the match has such a group and it matched.
pub open spec fn group_text(groups: Seq<Option<Seq<char>>>, k: int) -> Option<Seq<char>> {
    if 0 <= k < groups.len() {
        groups[k]
    } else {
        None
    }
}

/// Whether a byte is a decimal digit.
pub open spec fn is_digit(byte: u8) -> bool {
    0x30 <= byte <= 0x39
}

/// Whether all the bytes are decimal digits.
pub open spec fn all_digits(bytes: Seq<u8>) -> bool {
    forall|i: int| 0 <= i < bytes.len() ==> is_digit(#[trigger] bytes[i])
}

/// The number that a sequence of decimal digits writes.
pub open spec fn digits_value(bytes: Seq<u8>) -> nat
    decreases bytes.len(),
{
    if bytes.len() == 0 {
        0
    } else {
        (digits_value(bytes.drop_last()) * 10 + (bytes.last() - 0x30)) as nat
    }
}

/// The digits of a number that may be written with a plus sign before it.
pub open spec fn unsigned_digits(bytes: Seq<u8>) -> Seq<u8> {
    if bytes.len() > 0 && bytes[0] == 0x2b {
        bytes.skip(1)
    } else {
        bytes
    }
}

/// The length that the bytes write in decimal: one digit or more, with or
/// without a plus sign before them, and a value that a `usize` holds.
pub open spec fn parsed_length(bytes: Seq<u8>) -> Option<usize> {
    let digits = unsigned_digits(bytes);
    if digits.len() > 0 && all_digits(digits) && digits_value(digits) <= usize::MAX {
        Some(digits_value(digits) as usize)
    } else {
        None
    }
}

proof fn lemma_digits_value_grows(bytes: Seq<u8>, upto: int)
    requires
        all_digits(bytes),
        0 <= upto <= bytes.len(),
    ensures
        digits_value(bytes.take(upto)) <= digits_value(bytes),
    decreases bytes.len() - upto,
{
    if upto < bytes.len() {
        lemma_digits_value_grows(bytes, upto + 1);
        assert(bytes.take(upto + 1).drop_last() =~= bytes.take(upto));
        assert(is_digit(bytes[upto]));
        assert(bytes.take(upto + 1).last() == bytes[upto]);
    } else {
        assert(bytes.take(upto) =~= bytes);
    }
}

/// Reads a length in decimal.
pub fn parse_length(text: &str) -> (length: Option<usize>)
    ensures
        length == parsed_length(text.spec_bytes()),
{
    let bytes = text.as_bytes();
    let start: usize = if bytes.len() > 0 && bytes[0] == 0x2b {
        1
    } else {
        0
    };
    let ghost digits = unsigned_digits(bytes@);
    assert(digits =~= bytes@.skip(start as int));
    if start == bytes.len() {
        return None;
    }
    let mut value: usize = 0;
    let mut at: usize = start;
    while at < bytes.len()
        invariant
            start <= at <= bytes@.len(),
            bytes@ == text.spec_bytes(),
            digits == unsigned_digits(bytes@),
            digits == bytes@.skip(start as int),
            all_digits(digits.take(at - start)),
            value == digits_value(digits.take(at - start)),
        decreases bytes@.len() - at,
    {
        let byte = bytes[at];
        let ghost seen = digits.take(at - start);
        let ghost grown = digits.take(at - start + 1);
        proof {
            assert(grown.drop_last() =~= seen);
            assert(grown.last() == byte);
        }
        if byte < 0x30 || byte > 0x39 {
            assert(digits[at - start] == byte);
            assert(!is_digit(digits[at - start]));
            return None;
        }
        proof {
            assert forall|i: int| 0 <= i < grown.len() implies is_digit(#[trigger] grown[i]) by {
                if i < seen.len() {
                    assert(grown[i] == seen[i]);
                }
            }
        }
        let digit: usize = (byte - 0x30) as usize;
        let next = match value.checked_mul(10) {
            Some(tens) => tens.checked_add(digit),
            None => None,
        };
        match next {
            Some(next) => {
                value = next;
            },
            None => {
                proof {
                    assert(digits_value(grown) > usize::MAX);
                    if all_digits(digits) {
                        lemma_digits_value_grows(digits, at - start + 1);
                    }
                }
                return None;
            },
        }
        at = at + 1;
    }
    proof {
        assert(digits.take(at - start) =~= digits);
    }
    Some(value)
}

fn group<'a>(groups: &'a Vec<Option<String>>, k: usize) -> (text: Option<&'a str>)
    ensures
        text is Some <==> group_text(group_texts(groups@), k as int) is Some,
        text matches Some(found) ==> Some(found@) == group_text(group_texts(groups@), k as int),
{
    if k < groups.len() {
        match &groups[k] {
            Some(text) => Some(text.as_str()),
            None => None,
        }
    } else {
        None
    }
}

/// What a line that opens a file asks for, given the groups of its match.
pub open spec fn file_open_model(groups: Seq<Option<Seq<char>>>) -> Result<
    CommandModel,
    ScriptError,
> {
    match (group_text(groups, 1), group_text(groups, 2)) {
        (Some(name), Some(mode)) => if encode_utf8(mode).len() > 0 {
            Ok(CommandModel::FileOpen { name, flags: encode_utf8(mode)[0] })
        } else {
            Err(ScriptError::MissingGroup)
        },
        _ => Err(ScriptError::MissingGroup),
    }
}

/// What a line that writes to a file asks for, given the groups of its
/// match.
pub open spec fn write_to_file_model(groups: Seq<Option<Seq<char>>>) -> Result<
    CommandModel,
    ScriptError,
> {
    match (group_text(groups, 1), group_text(groups, 2)) {
        (Some(name), Some(fill)) => if encode_utf8(fill).len() != 1 {
            Err(ScriptError::InvalidFill)
        } else {
            match group_text(groups, 3) {
                Some(count) => match parsed_length(encode_utf8(count)) {
                    Some(len) => Ok(
                        CommandModel::WriteToFile { name, fill: encode_utf8(fill)[0], len },
                    ),
                    None => Err(ScriptError::InvalidLength),
                },
                None => Err(ScriptError::MissingGroup),
            }
        },
        _ => Err(ScriptError::MissingGroup),
    }
}

/// What a line that renames a path asks for, given the groups of its match.
pub open spec fn path_rename_model(groups: Seq<Option<Seq<char>>>) -> Result<
    CommandModel,
    ScriptError,
> {
    match (group_text(groups, 1), group_text(groups, 2)) {
        (Some(oldname), Some(newname)) => Ok(CommandModel::PathRename { oldname, newname }),
        _ => Err(ScriptError::MissingGroup),
    }
}

/// Reads the command of a line that opens a file from the groups of its
/// match: group 1 is the name, group 2 the mode.
pub fn file_open_command(groups: &Vec<Option<String>>) -> (outcome: Result<
    ScriptCommand,
    ScriptError,
>)
    ensures
        outcome_view(outcome) == file_open_model(group_texts(groups@)),
{
    let name = match group(groups, 1) {
        Some(name) => name,
        None => {
            return Err(ScriptError::MissingGroup);
        },
    };
    let mode = match group(groups, 2) {
        Some(mode) => mode,
        None => {
            return Err(ScriptError::MissingGroup);
        },
    };
    let bytes = mode.as_bytes();
    if bytes.len() == 0 {
        return Err(ScriptError::MissingGroup);
    }
    Ok(ScriptCommand::FileOpen { name: name.to_owned(), flags: bytes[0] })
}

/// Reads the command of a line that writes to a file from the groups of its
/// match: group 1 is the name, group 2 the character to fill with, group 3
/// the number of bytes.
pub fn write_to_file_command(groups: &Vec<Option<String>>) -> (outcome: Result<
    ScriptCommand,
    ScriptError,
>)
    ensures
        outcome_view(outcome) == write_to_file_model(group_texts(groups@)),
{
    let name = match group(groups, 1) {
        Some(name) => name,
        None => {
            return Err(ScriptError::MissingGroup);
        },
    };
    let fill = match group(groups, 2) {
        Some(fill) => fill,
        None => {
            return Err(ScriptError::MissingGroup);
        },
    };
    let bytes = fill.as_bytes();
    if bytes.len() != 1 {
        return Err(ScriptError::InvalidFill);
    }
    let count = match group(groups, 3) {
        Some(count) => count,
        None => {
            return Err(ScriptError::MissingGroup);
        },
    };
    match parse_length(count) {
        Some(len) => Ok(ScriptCommand::WriteToFile { name: name.to_owned(), fill: bytes[0], len }),
        None => Err(ScriptError::InvalidLength),
    }
}

/// Reads the command of a line that renames a path from the groups of its
/// match: group 1 is the old name, group 2 the new.
pub fn path_rename_command(groups: &Vec<Option<String>>) -> (outcome: Result<
    ScriptCommand,
    ScriptError,
>)
    ensures
        outcome_view(outcome) == path_rename_model(group_texts(groups@)),
{
    let oldname = match group(groups, 1) {
        Some(oldname) => oldname,
        None => {
            return Err(ScriptError::MissingGroup);
        },
    };
    let newname = match group(groups, 2) {
        Some(newname) => newname,
        None => {
            return Err(ScriptError::MissingGroup);
        },
    };
    Ok(ScriptCommand::PathRename { oldname: oldname.to_owned(), newname: newname.to_owned() })
}

/// What a line asks for: the patterns are tried in the order format,
/// restore, file_open, write_to_file, path_rename, and the first that
/// matches decides.
pub open spec fn command_of(line: Seq<char>) -> Result<CommandModel, ScriptError> {
    if regex_captures(format_pattern(), line) is Some {
        Ok(CommandModel::Format)
    } else if regex_captures(restore_pattern(), line) is Some {
        Ok(CommandModel::Restore)
    } else if regex_captures(file_open_pattern(), line) is Some {
        file_open_model(regex_captures(file_open_pattern(), line)->0)
    } else if regex_captures(write_to_file_pattern(), line) is Some {
        write_to_file_model(regex_captures(write_to_file_pattern(), line)->0)
    } else if regex_captures(path_rename_pattern(), line) is Some {
        path_rename_model(regex_captures(path_rename_pattern(), line)->0)
    } else {
        Ok(CommandModel::Invalid)
    }
}

/// Reads the lines of a script.
#[derive(Debug, Clone, Copy, PartialEq, Eq, Structural)]
pub struct ScriptRunner {}

impl ScriptRunner {
    /// A reader of script lines.
    pub fn new() -> (runner: ScriptRunner) {
        ScriptRunner {  }
    }

    /// Reads one line of a script: the command that it asks for, or why it
    /// cannot be carried out.
    pub fn process(&self, cmdline: &str) -> (outcome: Result<ScriptCommand, ScriptError>)
        ensures
            outcome_view(outcome) == command_of(cmdline@),
    {
        if regex_captures_in("^\\s*format\\s*$", cmdline).is_some() {
            return Ok(ScriptCommand::Format);
        }
        if regex_captures_in("^\\s*restore\\s*$", cmdline).is_some() {
            return Ok(ScriptCommand::Restore);
        }
        match regex_captures_in(
            "^\\s*file_open\\s+(\\w+)\\s+(append|truncate)?\\s*$",
            cmdline,
        ) {
            Some(groups) => {
                return file_open_command(&groups);
            },
            None => {},
        }
        match regex_captures_in(
            "^\\s*write_to_file\\s+(\\w+)\\s+(\\w)\\s+(\\d+)\\s*$",
            cmdline,
        ) {
            Some(groups) => {
                return write_to_file_command(&groups);
            },
            None => {},
        }
        match regex_captures_in("^\\s*path_rename\\s+(\\w+)\\s+(\\w+)\\s*$", cmdline) {
            Some(groups) => {
                return path_rename_command(&groups);
            },
            None => {},
        }
        Ok(ScriptCommand::Invalid)
    }
}

} // verus!
