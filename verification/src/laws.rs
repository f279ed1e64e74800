//! What holds of the reader of [`crate::detect`] on every input: which
//! sequences it skips, when it finds a position, and that it reads back what
//! [`crate::decimal`] writes.

use vstd::prelude::*;
use crate::decimal::{all_digits, decimal, digit_char, digits_value, field_value, is_digit};
use crate::detect::{
    all_params, column_field, field_end, is_letter, is_param, report, row_field, AnsiState,
    Machine, BEL, CSI_OPEN, ESC, OSC_OPEN, REPORT_END, SEPARATOR,
};

verus! {

/// The bytes of a text of ASCII characters.
pub open spec fn ascii(text: Seq<char>) -> Seq<u8> {
    Seq::new(text.len(), |i: int| text[i] as u8)
}

/// The control sequence with the parameter bytes `body` and the final byte
/// `end`.
pub open spec fn csi_sequence(body: Seq<u8>, end: u8) -> Seq<u8> {
    seq![ESC, CSI_OPEN] + body + seq![end]
}

/// The operating system command with the given payload.
pub open spec fn osc_sequence(payload: Seq<u8>) -> Seq<u8> {
    seq![ESC, OSC_OPEN] + payload + seq![BEL]
}

/// The terminal's report that the cursor is in the given row and column.
pub open spec fn position_report(row: u16, column: u16) -> Seq<u8> {
    csi_sequence(
        ascii(decimal(row as nat)) + seq![SEPARATOR] + ascii(decimal(column as nat)),
        REPORT_END,
    )
}

/// Reading `a` and then `b` is reading `a + b`: the reader ends in the same
/// state, and the first report is that of `a` if it has one, and else that
/// of `b` to the reader that `a` leaves.
pub proof fn lemma_run_concat(m: Machine, a: Seq<u8>, b: Seq<u8>)
    ensures
        m.run(a + b) == m.run(a).run(b),
        m.first_report(a + b) == if m.first_report(a) is Some {
            m.first_report(a)
        } else {
            m.run(a).first_report(b)
        },
    decreases a.len(),
{
    if a.len() == 0 {
        assert(a + b =~= b);
    } else {
        assert((a + b)[0] == a[0]);
        assert((a + b).drop_first() =~= a.drop_first() + b);
        lemma_run_concat(m.step(a[0]), a.drop_first(), b);
    }
}

/// Input without the byte `R` reports no position, whatever the reader's
/// state: a report that the input cuts short is never taken for a whole one.
pub proof fn lemma_no_end_no_report(m: Machine, input: Seq<u8>)
    requires
        forall|i: int| 0 <= i < input.len() ==> input[i] != REPORT_END,
    ensures
        m.first_report(input) is None,
    decreases input.len(),
{
    if input.len() > 0 {
        assert(input[0] != REPORT_END);
        lemma_no_end_no_report(m.step(input[0]), input.drop_first());
    }
}

/// Only parameter bytes are ever collected: digits and `;`.
pub proof fn lemma_run_keeps_params(m: Machine, input: Seq<u8>)
    requires
        all_params(m.params),
    ensures
        all_params(m.run(input).params),
    decreases input.len(),
{
    if input.len() > 0 {
        let next = m.step(input[0]);
        assert forall|i: int| 0 <= i < next.params.len() implies is_param(
            #[trigger] next.params[i],
        ) by {
            if i < m.params.len() && next.params.len() >= m.params.len() {
                assert(next.params[i] == m.params[i]);
            }
        }
        lemma_run_keeps_params(next, input.drop_first());
    }
}

/// Outside a control sequence the parameters collected earlier do not
/// matter: two readers in the same state, with the same parameters if that
/// state is `Csi`, report the same.
pub proof fn lemma_stale_params_ignored(m1: Machine, m2: Machine, input: Seq<u8>)
    requires
        m1.state == m2.state,
        m1.state == AnsiState::Csi ==> m1.params == m2.params,
    ensures
        m1.first_report(input) == m2.first_report(input),
    decreases input.len(),
{
    if input.len() > 0 {
        lemma_stale_params_ignored(m1.step(input[0]), m2.step(input[0]), input.drop_first());
    }
}

/// Inside an operating system command, bytes other than `BEL` change
/// nothing.
proof fn lemma_osc_payload(m: Machine, payload: Seq<u8>)
    requires
        m.state == AnsiState::Osc,
        forall|i: int| 0 <= i < payload.len() ==> payload[i] != BEL,
    ensures
        m.run(payload) == m,
        m.first_report(payload) is None,
    decreases payload.len(),
{
    if payload.len() > 0 {
        assert(payload[0] != BEL);
        lemma_osc_payload(m, payload.drop_first());
    }
}

/// `ESC` and the byte after it are two steps of a reader that starts in
/// `Norm`, and report nothing.
proof fn lemma_opening(m: Machine, open: u8)
    requires
        m.state == AnsiState::Norm,
    ensures
        m.run(seq![ESC, open]) == m.step(ESC).step(open),
        m.first_report(seq![ESC, open]) is None,
{
    let s = seq![ESC, open];
    let t = s.drop_first();
    assert(t =~= seq![open]);
    assert(t.drop_first() =~= Seq::<u8>::empty());
    reveal_with_fuel(Machine::run, 3);
    reveal_with_fuel(Machine::first_report, 3);
}

/// One byte to a reader: the state after it, and what it reports.
proof fn lemma_single(m: Machine, b: u8)
    ensures
        m.run(seq![b]) == m.step(b),
        m.first_report(seq![b]) == m.reported(b),
{
    let s = seq![b];
    assert(s.drop_first() =~= Seq::<u8>::empty());
    reveal_with_fuel(Machine::run, 2);
    reveal_with_fuel(Machine::first_report, 2);
}

/// An operating system command is skipped whole: it reports nothing and
/// leaves the reader as it was, the collected parameters included. What
/// follows it is read as if it had not been there.
pub proof fn lemma_osc_skipped(m: Machine, payload: Seq<u8>, rest: Seq<u8>)
    requires
        m.state == AnsiState::Norm,
        forall|i: int| 0 <= i < payload.len() ==> payload[i] != BEL,
    ensures
        m.first_report(osc_sequence(payload)) is None,
        m.run(osc_sequence(payload)) == m,
        m.first_report(osc_sequence(payload) + rest) == m.first_report(rest),
{
    let opening = seq![ESC, OSC_OPEN];
    let inside = Machine { state: AnsiState::Osc, ..m };
    lemma_opening(m, OSC_OPEN);
    lemma_osc_payload(inside, payload);
    lemma_single(inside, BEL);
    lemma_run_concat(m, opening, payload);
    lemma_run_concat(m, opening + payload, seq![BEL]);
    lemma_run_concat(m, osc_sequence(payload), rest);
}

/// An operating system command that the input cuts short reports nothing.
pub proof fn lemma_osc_unfinished(m: Machine, payload: Seq<u8>)
    requires
        m.state == AnsiState::Norm,
        forall|i: int| 0 <= i < payload.len() ==> payload[i] != BEL,
    ensures
        m.first_report(seq![ESC, OSC_OPEN] + payload) is None,
{
    let opening = seq![ESC, OSC_OPEN];
    let inside = Machine { state: AnsiState::Osc, ..m };
    lemma_opening(m, OSC_OPEN);
    lemma_osc_payload(inside, payload);
    lemma_run_concat(m, opening, payload);
}

/// Inside a control sequence, bytes that are no letters report nothing and
/// leave the reader inside it.
proof fn lemma_csi_body(m: Machine, body: Seq<u8>)
    requires
        m.state == AnsiState::Csi,
        forall|i: int| 0 <= i < body.len() ==> !is_letter(body[i]),
    ensures
        m.run(body).state == AnsiState::Csi,
        m.first_report(body) is None,
    decreases body.len(),
{
    if body.len() > 0 {
        assert(!is_letter(body[0]));
        lemma_csi_body(m.step(body[0]), body.drop_first());
    }
}

/// A control sequence that ends in a letter other than `R` is skipped: what
/// follows it is read as if it had not been there.
pub proof fn lemma_other_csi_skipped(m: Machine, body: Seq<u8>, end: u8, rest: Seq<u8>)
    requires
        m.state == AnsiState::Norm,
        forall|i: int| 0 <= i < body.len() ==> !is_letter(body[i]),
        is_letter(end),
        end != REPORT_END,
    ensures
        m.first_report(csi_sequence(body, end)) is None,
        m.run(csi_sequence(body, end)).state == AnsiState::Norm,
        m.first_report(csi_sequence(body, end) + rest) == m.first_report(rest),
{
    let opening = seq![ESC, CSI_OPEN];
    let inside = Machine { state: AnsiState::Csi, params: Seq::empty() };
    lemma_opening(m, CSI_OPEN);
    lemma_csi_body(inside, body);
    lemma_single(inside.run(body), end);
    lemma_run_concat(m, opening, body);
    lemma_run_concat(m, opening + body, seq![end]);
    lemma_run_concat(m, csi_sequence(body, end), rest);
    lemma_stale_params_ignored(m.run(csi_sequence(body, end)), m, rest);
}

/// Inside a control sequence, parameter bytes are collected in their order.
proof fn lemma_csi_params(m: Machine, body: Seq<u8>)
    requires
        m.state == AnsiState::Csi,
        all_params(body),
    ensures
        m.run(body) == (Machine { state: AnsiState::Csi, params: m.params + body }),
        m.first_report(body) is None,
    decreases body.len(),
{
    if body.len() == 0 {
        assert(m.params + body =~= m.params);
    } else {
        assert(is_param(body[0]));
        let next = m.step(body[0]);
        assert forall|i: int| 0 <= i < body.drop_first().len() implies is_param(
            #[trigger] body.drop_first()[i],
        ) by {
            assert(body.drop_first()[i] == body[i + 1]);
        }
        lemma_csi_params(next, body.drop_first());
        assert(next.params + body.drop_first() =~= m.params + body);
    }
}

/// A control sequence of parameter bytes that ends in `R` reports what its
/// parameters say, and nothing that follows it is looked at.
pub proof fn lemma_report_found(m: Machine, params: Seq<u8>, rest: Seq<u8>)
    requires
        m.state == AnsiState::Norm,
        all_params(params),
    ensures
        m.first_report(csi_sequence(params, REPORT_END) + rest) == Some(report(params)),
{
    let opening = seq![ESC, CSI_OPEN];
    let inside = Machine { state: AnsiState::Csi, params: Seq::empty() };
    lemma_opening(m, CSI_OPEN);
    lemma_csi_params(inside, params);
    assert(inside.params + params =~= params);
    lemma_single(inside.run(params), REPORT_END);
    lemma_run_concat(m, opening, params);
    lemma_run_concat(m, opening + params, seq![REPORT_END]);
    lemma_run_concat(m, csi_sequence(params, REPORT_END), rest);
}

/// The field that starts at `from` ends at `end` if no `;` stands between
/// them and either the parameters end there or a `;` stands there.
pub proof fn lemma_field_end_is(s: Seq<u8>, from: int, end: int)
    requires
        0 <= from <= end <= s.len(),
        forall|i: int| from <= i < end ==> s[i] != SEPARATOR,
        end < s.len() ==> s[end] == SEPARATOR,
    ensures
        field_end(s, from) == end,
    decreases end - from,
{
    if from < end {
        assert(s[from] != SEPARATOR);
        lemma_field_end_is(s, from + 1, end);
    }
}

/// Two fields of digits with a `;` between them are read as the row and
/// the column, and given as (column, row). Either may be empty, and then
/// counts as zero.
pub proof fn lemma_report_of_fields(row: Seq<u8>, column: Seq<u8>)
    requires
        all_digits(row),
        all_digits(column),
    ensures
        all_params(row + seq![SEPARATOR] + column),
        report(row + seq![SEPARATOR] + column) == (field_value(column), field_value(row)),
{
    let s = row + seq![SEPARATOR] + column;
    let mid = row.len() as int;
    assert forall|i: int| 0 <= i < s.len() implies is_param(#[trigger] s[i]) by {
        if i < mid {
            assert(is_digit(row[i]));
        } else if i > mid {
            assert(is_digit(column[i - mid - 1]));
        }
    }
    assert forall|i: int| 0 <= i < mid implies s[i] != SEPARATOR by {
        assert(is_digit(row[i]));
    }
    assert forall|i: int| mid + 1 <= i < s.len() implies s[i] != SEPARATOR by {
        assert(is_digit(column[i - mid - 1]));
    }
    lemma_field_end_is(s, 0, mid);
    lemma_field_end_is(s, mid + 1, s.len() as int);
    assert(row_field(s) =~= row);
    assert(column_field(s) =~= column);
}

/// A single field of digits is the row, and the column counts as zero.
pub proof fn lemma_report_of_row_alone(row: Seq<u8>)
    requires
        all_digits(row),
    ensures
        report(row) == (0u16, field_value(row)),
{
    assert forall|i: int| 0 <= i < row.len() implies row[i] != SEPARATOR by {
        assert(is_digit(row[i]));
    }
    lemma_field_end_is(row, 0, row.len() as int);
    assert(row_field(row) =~= row);
    assert(column_field(row) =~= Seq::<u8>::empty());
}

/// The decimal notation of a number is made of digits, one at least, and
/// denotes that number.
pub proof fn lemma_decimal_digits(n: nat)
    ensures
        ascii(decimal(n)).len() > 0,
        all_digits(ascii(decimal(n))),
        digits_value(ascii(decimal(n))) == n,
    decreases n,
{
    let s = ascii(decimal(n));
    if n < 10 {
        assert(s =~= seq![digit_char(n) as u8]);
        assert(s.drop_last() =~= Seq::<u8>::empty());
        reveal_with_fuel(digits_value, 2);
    } else {
        lemma_decimal_digits(n / 10);
        let init = ascii(decimal(n / 10));
        assert(s =~= init.push(digit_char(n % 10) as u8));
        assert(s.drop_last() =~= init);
        assert forall|i: int| 0 <= i < s.len() implies is_digit(#[trigger] s[i]) by {
            if i < init.len() {
                assert(s[i] == init[i]);
            }
        }
    }
}

/// What is written in decimal is read back as the same number.
pub proof fn lemma_field_value_of_decimal(n: u16)
    ensures
        field_value(ascii(decimal(n as nat))) == n,
{
    lemma_decimal_digits(n as nat);
}

/// The terminal's report of a row and a column is found wherever it starts
/// outside another sequence, and is given as (column, row).
pub proof fn lemma_position_report_found(m: Machine, row: u16, column: u16, rest: Seq<u8>)
    requires
        m.state == AnsiState::Norm,
    ensures
        m.first_report(position_report(row, column) + rest) == Some((column, row)),
{
    let r = ascii(decimal(row as nat));
    let c = ascii(decimal(column as nat));
    lemma_decimal_digits(row as nat);
    lemma_decimal_digits(column as nat);
    lemma_report_of_fields(r, c);
    lemma_report_found(m, r + seq![SEPARATOR] + c, rest);
}

} // verus!
