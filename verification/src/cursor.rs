//! Cursor movement.
//!
//! Each command is a small value that renders to one control sequence:
//! `ESC [`, the command's parameters in decimal, and a final byte that
//! names the operation.

use vstd::prelude::*;
use vstd::string::*;
use crate::decimal::{decimal, push_decimal};

verus! {

/// The control sequence with the given parameters and final byte.
pub open spec fn csi(body: Seq<char>) -> Seq<char> {
    seq!['\x1B', '['] + body
}

/// Starts a control sequence.
fn csi_start() -> (s: String)
    ensures
        s@ == seq!['\x1B', '['],
{
    proof {
        reveal_strlit("\x1B[");
    }
    let s = String::from_str("\x1B[");
    assert(s@ =~= seq!['\x1B', '[']);
    s
}

/// Renders a control sequence with one number and a final byte.
fn csi_counted(n: u16, end: &str) -> (s: String)
    ensures
        s@ == csi(decimal(n as nat) + end@),
{
    let mut s = csi_start();
    push_decimal(&mut s, n);
    s.append(end);
    assert(s@ =~= csi(decimal(n as nat) + end@));
    s
}

/// Goto some position ((1,1)-based): the column, then the row.
///
/// The coordinates count from one, as the terminal's do, so `Goto(1, 1)` is
/// the upper left corner. `Goto(0, 0)` names no position.
#[derive(Clone, Copy, Debug, PartialEq, Eq, Structural)]
pub struct Goto(pub u16, pub u16);

impl Goto {
    /// Whether this names a position: anything but `Goto(0, 0)`.
    pub open spec fn is_position(self) -> bool {
        !(self.0 == 0 && self.1 == 0)
    }

    /// The sequence that this renders to: the row, `;`, the column, `H`.
    pub open spec fn text(self) -> Seq<char> {
        csi(decimal(self.1 as nat) + seq![';'] + decimal(self.0 as nat) + seq!['H'])
    }

    /// Tells whether this names a position: anything but `Goto(0, 0)`.
    pub fn is_one_based(&self) -> (b: bool)
        ensures
            b == self.is_position(),
    {
        !(self.0 == 0 && self.1 == 0)
    }

    /// Renders the command.
    pub fn to_string(&self) -> (s: String)
        requires
            self.is_position(),
        ensures
            s@ == self.text(),
    {
        proof {
            reveal_strlit(";");
            reveal_strlit("H");
        }
        let mut s = csi_start();
        push_decimal(&mut s, self.1);
        s.append(";");
        push_decimal(&mut s, self.0);
        s.append("H");
        assert(s@ =~= self.text());
        s
    }
}

impl Default for Goto {
    /// The upper left corner.
    fn default() -> (origin: Goto)
        ensures
            origin == Goto(1, 1),
    {
        Goto(1, 1)
    }
}

/// Move cursor left.
#[derive(Clone, Copy, Debug, PartialEq, Eq, Structural)]
pub struct Left(pub u16);

impl Left {
    /// The sequence that this renders to: the count, then `D`.
    pub open spec fn text(self) -> Seq<char> {
        csi(decimal(self.0 as nat) + seq!['D'])
    }

    /// Renders the command.
    pub fn to_string(&self) -> (s: String)
        ensures
            s@ == self.text(),
    {
        proof {
            reveal_strlit("D");
        }
        csi_counted(self.0, "D")
    }
}

/// Move cursor right.
#[derive(Clone, Copy, Debug, PartialEq, Eq, Structural)]
pub struct Right(pub u16);

impl Right {
    /// The sequence that this renders to: the count, then `C`.
    pub open spec fn text(self) -> Seq<char> {
        csi(decimal(self.0 as nat) + seq!['C'])
    }

    /// Renders the command.
    pub fn to_string(&self) -> (s: String)
        ensures
            s@ == self.text(),
    {
        proof {
            reveal_strlit("C");
        }
        csi_counted(self.0, "C")
    }
}

/// Move cursor up.
#[derive(Clone, Copy, Debug, PartialEq, Eq, Structural)]
pub struct Up(pub u16);

impl Up {
    /// The sequence that this renders to: the count, then `A`.
    pub open spec fn text(self) -> Seq<char> {
        csi(decimal(self.0 as nat) + seq!['A'])
    }

    /// Renders the command.
    pub fn to_string(&self) -> (s: String)
        ensures
            s@ == self.text(),
    {
        proof {
            reveal_strlit("A");
        }
        csi_counted(self.0, "A")
    }
}

/// Move cursor down.
#[derive(Clone, Copy, Debug, PartialEq, Eq, Structural)]
pub struct Down(pub u16);

impl Down {
    /// The sequence that this renders to: the count, then `B`.
    pub open spec fn text(self) -> Seq<char> {
        csi(decimal(self.0 as nat) + seq!['B'])
    }

    /// Renders the command.
    pub fn to_string(&self) -> (s: String)
        ensures
            s@ == self.text(),
    {
        proof {
            reveal_strlit("B");
        }
        csi_counted(self.0, "B")
    }
}

/// Hide the cursor.
#[derive(Clone, Copy, Debug, PartialEq, Eq, Structural)]
pub struct Hide;

impl Hide {
    /// The sequence that this renders to.
    pub open spec fn text(self) -> Seq<char> {
        csi(seq!['?', '2', '5', 'l'])
    }

    /// Renders the command.
    pub fn to_string(&self) -> (s: String)
        ensures
            s@ == self.text(),
    {
        proof {
            reveal_strlit("\x1B[?25l");
        }
        let s = String::from_str("\x1B[?25l");
        assert(s@ =~= self.text());
        s
    }
}

/// Show the cursor.
#[derive(Clone, Copy, Debug, PartialEq, Eq, Structural)]
pub struct Show;

impl Show {
    /// The sequence that this renders to.
    pub open spec fn text(self) -> Seq<char> {
        csi(seq!['?', '2', '5', 'h'])
    }

    /// Renders the command.
    pub fn to_string(&self) -> (s: String)
        ensures
            s@ == self.text(),
    {
        proof {
            reveal_strlit("\x1B[?25h");
        }
        let s = String::from_str("\x1B[?25h");
        assert(s@ =~= self.text());
        s
    }
}

/// Restore the cursor.
#[derive(Clone, Copy, Debug, PartialEq, Eq, Structural)]
pub struct Restore;

impl Restore {
    /// The sequence that this renders to.
    pub open spec fn text(self) -> Seq<char> {
        csi(seq!['u'])
    }

    /// Renders the command.
    pub fn to_string(&self) -> (s: String)
        ensures
            s@ == self.text(),
    {
        proof {
            reveal_strlit("\x1B[u");
        }
        let s = String::from_str("\x1B[u");
        assert(s@ =~= self.text());
        s
    }
}

/// Save the cursor.
#[derive(Clone, Copy, Debug, PartialEq, Eq, Structural)]
pub struct Save;

impl Save {
    /// The sequence that this renders to.
    pub open spec fn text(self) -> Seq<char> {
        csi(seq!['s'])
    }

    /// Renders the command.
    pub fn to_string(&self) -> (s: String)
        ensures
            s@ == self.text(),
    {
        proof {
            reveal_strlit("\x1B[s");
        }
        let s = String::from_str("\x1B[s");
        assert(s@ =~= self.text());
        s
    }
}

} // verus!
