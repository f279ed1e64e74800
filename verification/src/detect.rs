//! Recognising a cursor position report in raw terminal input.
//!
//! A terminal answers the query `ESC [ 6 n` with `ESC [ row ; column R`.
//! The answer arrives among whatever else the terminal sends, so the input
//! is read byte by byte through a machine of four states that skips other
//! control sequences and collects the parameters of the one that ends in
//! `R`.

use vstd::prelude::*;
use vstd::slice::slice_subrange;
use vstd::string::*;
use crate::cursor::csi;
use crate::decimal::{field_value, is_digit, parse_field};

verus! {

/// The byte that starts every escape sequence.
pub const ESC: u8 = 0x1B;

/// The byte that ends an operating system command.
pub const BEL: u8 = 0x07;

/// `[`, which after `ESC` opens a control sequence.
pub const CSI_OPEN: u8 = 0x5B;

/// `]`, which after `ESC` opens an operating system command.
pub const OSC_OPEN: u8 = 0x5D;

/// `;`, which parts the parameters of a control sequence.
pub const SEPARATOR: u8 = 0x3B;

/// `R`, the final byte of a cursor position report.
pub const REPORT_END: u8 = 0x52;

/// The text of the query that asks the terminal where the cursor is.
pub open spec fn query_text() -> Seq<char> {
    csi(seq!['6', 'n'])
}

/// The query that asks the terminal where the cursor is: `ESC [ 6 n`. The
/// terminal answers on its input side with a position report.
pub fn query() -> (s: &'static str)
    ensures
        s@ == query_text(),
{
    proof {
        reveal_strlit("\x1B[6n");
    }
    let s: &'static str = "\x1B[6n";
    assert(s@ =~= query_text());
    s
}

/// Where the reader stands in the input.
#[derive(Clone, Copy, Debug, PartialEq, Eq, Structural)]
pub enum AnsiState {
    /// Outside any escape sequence.
    Norm,
    /// Just after `ESC`.
    Esc,
    /// Inside a control sequence, after `ESC [`.
    Csi,
    /// Inside an operating system command, after `ESC ]`.
    Osc,
}

/// The failure of a query: the input ended before a position report did.
#[derive(Clone, Copy, Debug, PartialEq, Eq, Structural)]
pub struct NotFound;

/// Whether `b` is an ASCII letter, the final byte of a control sequence.
pub open spec fn is_letter(b: u8) -> bool {
    0x41 <= b <= 0x5A || 0x61 <= b <= 0x7A
}

/// Whether `b` may stand among the parameters of a report: a digit or `;`.
pub open spec fn is_param(b: u8) -> bool {
    is_digit(b) || b == SEPARATOR
}

/// Whether `s` holds parameter bytes only.
pub open spec fn all_params(s: Seq<u8>) -> bool {
    forall|i: int| 0 <= i < s.len() ==> is_param(#[trigger] s[i])
}

/// The index of the first `;` of `s` at or after `from`, or the length of
/// `s` if there is none: where the field that starts at `from` ends.
pub open spec fn field_end(s: Seq<u8>, from: int) -> int
    decreases s.len() - from,
{
    if from >= s.len() {
        s.len() as int
    } else if s[from] == SEPARATOR {
        from
    } else {
        field_end(s, from + 1)
    }
}

/// The first of the fields that `;` parts `s` into.
pub open spec fn row_field(s: Seq<u8>) -> Seq<u8> {
    s.subrange(0, field_end(s, 0))
}

/// The second of the fields that `;` parts `s` into, empty if `s` has
/// only one.
pub open spec fn column_field(s: Seq<u8>) -> Seq<u8> {
    let end = field_end(s, 0);
    if end < s.len() {
        s.subrange(end + 1, field_end(s, end + 1))
    } else {
        Seq::empty()
    }
}

/// The position that the parameters `row ; column` report, as
/// (column, row). A field that is missing or cannot be read counts as zero;
/// fields after the second are not looked at.
pub open spec fn report(params: Seq<u8>) -> (u16, u16) {
    (field_value(column_field(params)), field_value(row_field(params)))
}

/// The reader as a value: its state and the parameters collected so far.
pub struct Machine {
    pub state: AnsiState,
    pub params: Seq<u8>,
}

impl Machine {
    /// The reader before any input.
    pub open spec fn start() -> Machine {
        Machine { state: AnsiState::Norm, params: Seq::empty() }
    }

    /// Whether the byte `b` completes a position report.
    pub open spec fn completes(self, b: u8) -> bool {
        self.state == AnsiState::Csi && b == REPORT_END
    }

    /// The position that `b` completes, if it completes one.
    pub open spec fn reported(self, b: u8) -> Option<(u16, u16)> {
        if self.completes(b) {
            Some(report(self.params))
        } else {
            None
        }
    }

    /// The reader after the byte `b`.
    pub open spec fn step(self, b: u8) -> Machine {
        match self.state {
            AnsiState::Norm => if b == ESC {
                Machine { state: AnsiState::Esc, ..self }
            } else {
                self
            },
            AnsiState::Esc => if b == CSI_OPEN {
                Machine { state: AnsiState::Csi, params: Seq::empty() }
            } else if b == OSC_OPEN {
                Machine { state: AnsiState::Osc, ..self }
            } else {
                Machine { state: AnsiState::Norm, ..self }
            },
            AnsiState::Csi => if is_letter(b) {
                Machine { state: AnsiState::Norm, ..self }
            } else if is_param(b) {
                Machine { params: self.params.push(b), ..self }
            } else {
                self
            },
            AnsiState::Osc => if b == BEL {
                Machine { state: AnsiState::Norm, ..self }
            } else {
                self
            },
        }
    }

    /// The reader after all of `input`.
    pub open spec fn run(self, input: Seq<u8>) -> Machine
        decreases input.len(),
    {
        if input.len() == 0 {
            self
        } else {
            self.step(input[0]).run(input.drop_first())
        }
    }

    /// The first position that `input` reports to this reader, if any.
    pub open spec fn first_report(self, input: Seq<u8>) -> Option<(u16, u16)>
        decreases input.len(),
    {
        if input.len() == 0 {
            None
        } else if self.completes(input[0]) {
            Some(report(self.params))
        } else {
            self.step(input[0]).first_report(input.drop_first())
        }
    }
}

/// A field ends between its start and the end of the parameters.
pub proof fn lemma_field_end_bounds(s: Seq<u8>, from: int)
    requires
        0 <= from <= s.len(),
    ensures
        from <= field_end(s, from) <= s.len(),
        field_end(s, from) < s.len() ==> s[field_end(s, from)] == SEPARATOR,
    decreases s.len() - from,
{
    if from < s.len() && s[from] != SEPARATOR {
        lemma_field_end_bounds(s, from + 1);
    }
}

/// Finds where the field of `params` that starts at `from` ends.
fn find_field_end(params: &[u8], from: usize) -> (end: usize)
    requires
        from <= params.len(),
    ensures
        end == field_end(params@, from as int),
        from <= end <= params.len(),
{
    let mut i: usize = from;
    while i < params.len() && params[i] != SEPARATOR
        invariant
            from <= i <= params.len(),
            field_end(params@, i as int) == field_end(params@, from as int),
        decreases params.len() - i,
    {
        i = i + 1;
    }
    proof {
        lemma_field_end_bounds(params@, from as int);
    }
    i
}

/// Reads the parameters of a position report, `row ; column`, and gives the
/// position as (column, row).
pub fn parse_report(params: &[u8]) -> (position: (u16, u16))
    ensures
        position == report(params@),
{
    let row_end = find_field_end(params, 0);
    let row = parse_field(slice_subrange(params, 0, row_end));
    let column = if row_end < params.len() {
        let column_end = find_field_end(params, row_end + 1);
        parse_field(slice_subrange(params, row_end + 1, column_end))
    } else {
        proof {
            assert(column_field(params@) =~= Seq::<u8>::empty());
        }
        0
    };
    (column, row)
}

/// The reader of terminal input: its state, and the parameter bytes of the
/// control sequence that it is in.
pub struct ReplyParser {
    state: AnsiState,
    params: Vec<u8>,
}

impl View for ReplyParser {
    type V = Machine;

    closed spec fn view(&self) -> Machine {
        Machine { state: self.state, params: self.params@ }
    }
}

impl ReplyParser {
    /// A reader that has seen no input.
    pub fn new() -> (parser: ReplyParser)
        ensures
            parser@ == Machine::start(),
    {
        ReplyParser { state: AnsiState::Norm, params: Vec::new() }
    }

    /// The state that the reader is in.
    pub fn state(&self) -> (state: AnsiState)
        ensures
            state == self@.state,
    {
        self.state
    }

    /// Takes the next byte of input. Returns the position, as (column, row),
    /// if this byte completes a report, and `None` otherwise.
    pub fn feed(&mut self, b: u8) -> (found: Option<(u16, u16)>)
        ensures
            final(self)@ == old(self)@.step(b),
            found == old(self)@.reported(b),
    {
        match self.state {
            AnsiState::Norm => {
                if b == ESC {
                    self.state = AnsiState::Esc;
                }
                None
            },
            AnsiState::Esc => {
                if b == CSI_OPEN {
                    self.params.clear();
                    self.state = AnsiState::Csi;
                } else if b == OSC_OPEN {
                    self.state = AnsiState::Osc;
                } else {
                    self.state = AnsiState::Norm;
                }
                None
            },
            AnsiState::Csi => {
                if b == REPORT_END {
                    self.state = AnsiState::Norm;
                    Some(parse_report(self.params.as_slice()))
                } else if (0x41 <= b && b <= 0x5A) || (0x61 <= b && b <= 0x7A) {
                    self.state = AnsiState::Norm;
                    None
                } else if (0x30 <= b && b <= 0x39) || b == SEPARATOR {
                    self.params.push(b);
                    None
                } else {
                    None
                }
            },
            AnsiState::Osc => {
                if b == BEL {
                    self.state = AnsiState::Norm;
                }
                None
            },
        }
    }
}

/// Looks for the terminal's position report in `input`, the bytes read after
/// the query was sent. Returns the first reported position as (column, row),
/// or `NotFound` if `input` ends before a report is complete.
pub fn cursor_pos(input: &[u8]) -> (result: Result<(u16, u16), NotFound>)
    ensures
        result == match Machine::start().first_report(input@) {
            Some(position) => Ok::<(u16, u16), NotFound>(position),
            None => Err::<(u16, u16), NotFound>(NotFound),
        },
{
    let mut parser = ReplyParser::new();
    let mut i: usize = 0;
    proof {
        assert(input@.skip(0) =~= input@);
    }
    while i < input.len()
        invariant
            0 <= i <= input.len(),
            Machine::start().first_report(input@) == parser@.first_report(input@.skip(i as int)),
        decreases input.len() - i,
    {
        let ghost rest = input@.skip(i as int);
        proof {
            assert(rest.drop_first() =~= input@.skip(i + 1));
        }
        match parser.feed(input[i]) {
            Some(position) => {
                return Ok(position);
            },
            None => {},
        }
        i = i + 1;
    }
    Err(NotFound)
}

} // verus!
