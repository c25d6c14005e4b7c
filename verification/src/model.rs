//! Specification of the language-definition file format: a line-by-line
//! state machine that either builds a dictionary of type names to word
//! lists together with a sequence of templates, or stops at the first
//! offending line with an error.

use vstd::prelude::*;

verus! {

/// The literal header line that opens the types section.
pub open spec fn types_header() -> Seq<char> {
    "_types"@
}

/// The literal header line that opens the templates section.
pub open spec fn templates_header() -> Seq<char> {
    "_templates"@
}

/// The literal header line that opens the lists section.
pub open spec fn lists_header() -> Seq<char> {
    "_lists"@
}

/// Which section of the file the scanner is currently inside.
#[derive(Clone, Copy, PartialEq, Eq, Structural)]
pub enum ParsingMode {
    Initial,
    Types,
    Templates,
    Lists,
}

/// A parse failure, detected at the first offending line.
#[derive(Debug, PartialEq, Eq)]
pub enum ParseError {
    /// The first non-blank line of the file was not the `_types` header.
    MissingTypesHeader,
    /// A word line appeared in the lists section before any `:name` line.
    ListNotStarted,
    /// A word was assigned to a list whose name was never declared as a type.
    UnknownWordlist(String),
}

/// Spec-level image of a `ParseError`, carrying the offending list name
/// as a character sequence.
pub ghost enum ErrorKind {
    MissingTypesHeader,
    ListNotStarted,
    UnknownWordlist(Seq<char>),
}

impl View for ParseError {
    type V = ErrorKind;

    open spec fn view(&self) -> ErrorKind {
        match self {
            ParseError::MissingTypesHeader => ErrorKind::MissingTypesHeader,
            ParseError::ListNotStarted => ErrorKind::ListNotStarted,
            ParseError::UnknownWordlist(name) => ErrorKind::UnknownWordlist(name@),
        }
    }
}

/// The full state of the scanner: the active section, the list key most
/// recently opened with a `:name` line, and the output built so far.
pub ghost struct MachineState {
    pub mode: ParsingMode,
    pub current_list_key: Option<Seq<char>>,
    pub dictionary: Map<Seq<char>, Seq<Seq<char>>>,
    pub templates: Seq<Seq<char>>,
}

/// The state the scanner starts in: before any section, nothing built.
pub open spec fn initial_state() -> MachineState {
    MachineState {
        mode: ParsingMode::Initial,
        current_list_key: None,
        dictionary: Map::empty(),
        templates: Seq::empty(),
    }
}

/// Blank lines are skipped unconditionally, in every mode.
pub open spec fn line_is_blank(line: Seq<char>) -> bool {
    line.len() == 0
}

/// A line that opens (or re-opens) a word list in the lists section.
pub open spec fn line_opens_list(line: Seq<char>) -> bool {
    line.len() > 0 && line[0] == ':'
}

/// The list name carried by a `:name` line: everything after the colon.
pub open spec fn list_key_of(line: Seq<char>) -> Seq<char> {
    line.subrange(1, line.len() as int)
}

/// One step of the scanner on a single line.
pub open spec fn step(state: MachineState, line: Seq<char>) -> Result<MachineState, ErrorKind> {
    if line_is_blank(line) {
        Ok(state)
    } else {
        match state.mode {
            ParsingMode::Initial => {
                if line == types_header() {
                    Ok(MachineState { mode: ParsingMode::Types, ..state })
                } else {
                    Err(ErrorKind::MissingTypesHeader)
                }
            },
            ParsingMode::Types => {
                if line == templates_header() {
                    Ok(MachineState { mode: ParsingMode::Templates, ..state })
                } else {
                    Ok(MachineState {
                        dictionary: state.dictionary.insert(line, Seq::empty()),
                        ..state
                    })
                }
            },
            ParsingMode::Templates => {
                if line == lists_header() {
                    Ok(MachineState { mode: ParsingMode::Lists, ..state })
                } else {
                    Ok(MachineState { templates: state.templates.push(line), ..state })
                }
            },
            ParsingMode::Lists => {
                if line_opens_list(line) {
                    Ok(MachineState { current_list_key: Some(list_key_of(line)), ..state })
                } else {
                    match state.current_list_key {
                        None => Err(ErrorKind::ListNotStarted),
                        Some(key) => {
                            if state.dictionary.contains_key(key) {
                                Ok(MachineState {
                                    dictionary: state.dictionary.insert(
                                        key,
                                        state.dictionary[key].push(line),
                                    ),
                                    ..state
                                })
                            } else {
                                Err(ErrorKind::UnknownWordlist(key))
                            }
                        },
                    }
                }
            },
        }
    }
}

/// Run the scanner over a sequence of lines, starting from a given state.
pub open spec fn run(state: MachineState, lines: Seq<Seq<char>>) -> Result<
    MachineState,
    ErrorKind,
>
    decreases lines.len(),
{
    if lines.len() == 0 {
        Ok(state)
    } else {
        match step(state, lines[0]) {
            Ok(next) => run(next, lines.skip(1)),
            Err(e) => Err(e),
        }
    }
}

/// The meaning of parsing a whole file, given as its sequence of lines
/// (line terminators already stripped).
pub open spec fn spec_parse(lines: Seq<Seq<char>>) -> Result<MachineState, ErrorKind> {
    run(initial_state(), lines)
}

} // verus!
