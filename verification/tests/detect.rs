use termcursor::cursor::Goto;
use termcursor::decimal::push_decimal;
use termcursor::detect::{cursor_pos, parse_report, query, AnsiState, NotFound, ReplyParser};

fn report_bytes(row: u16, column: u16) -> Vec<u8> {
    let mut text = String::from("\x1B[");
    push_decimal(&mut text, row);
    text.push(';');
    push_decimal(&mut text, column);
    text.push('R');
    text.into_bytes()
}

#[test]
fn query_is_escape_bracket_six_n() {
    assert_eq!(query(), "\x1B[6n");
    assert_eq!(query().as_bytes(), &[0x1B, 0x5B, 0x36, 0x6E]);
}

#[test]
fn report_gives_column_then_row() {
    assert_eq!(cursor_pos(b"\x1B[12;34R"), Ok((34, 12)));
}

#[test]
fn empty_row_field_counts_as_zero() {
    assert_eq!(cursor_pos(b"\x1B[;34R"), Ok((34, 0)));
}

#[test]
fn empty_column_field_counts_as_zero() {
    assert_eq!(cursor_pos(b"\x1B[12;R"), Ok((0, 12)));
}

#[test]
fn missing_column_field_counts_as_zero() {
    assert_eq!(cursor_pos(b"\x1B[12R"), Ok((0, 12)));
}

#[test]
fn report_without_parameters_is_zero_zero() {
    assert_eq!(cursor_pos(b"\x1B[R"), Ok((0, 0)));
    assert_eq!(cursor_pos(b"\x1B[;R"), Ok((0, 0)));
}

#[test]
fn unrelated_sequence_before_report_is_skipped() {
    assert_eq!(cursor_pos(b"\x1B[2J\x1B[5;5R"), Ok((5, 5)));
}

#[test]
fn parameters_of_a_skipped_sequence_do_not_stay() {
    assert_eq!(cursor_pos(b"\x1B[1;2m\x1B[3;4R"), Ok((4, 3)));
    assert_eq!(cursor_pos(b"\x1B[38;5;196m\x1B[7R"), Ok((0, 7)));
}

#[test]
fn input_that_ends_before_the_final_byte_is_not_found() {
    assert_eq!(cursor_pos(b"\x1B[7;3"), Err(NotFound));
}

#[test]
fn empty_input_is_not_found() {
    assert_eq!(cursor_pos(b""), Err(NotFound));
}

#[test]
fn plain_text_is_not_found() {
    assert_eq!(cursor_pos(b"12;34R"), Err(NotFound));
    assert_eq!(cursor_pos(b"RRRR"), Err(NotFound));
    assert_eq!(cursor_pos(b"[12;34R"), Err(NotFound));
}

#[test]
fn osc_sequence_alone_is_not_found() {
    assert_eq!(cursor_pos(b"\x1B]0;title\x07"), Err(NotFound));
}

#[test]
fn osc_payload_does_not_reach_the_parameters() {
    assert_eq!(cursor_pos(b"\x1B]0;12;34R\x07"), Err(NotFound));
    assert_eq!(cursor_pos(b"\x1B]0;99\x07\x1B[5;6R"), Ok((6, 5)));
    assert_eq!(cursor_pos(b"\x1B]0;title\x07\x1B[5;5R"), Ok((5, 5)));
}

#[test]
fn unfinished_osc_swallows_a_report() {
    assert_eq!(cursor_pos(b"\x1B]0;title\x1B[5;5R"), Err(NotFound));
}

#[test]
fn text_around_the_report_is_ignored() {
    assert_eq!(cursor_pos(b"hello\x1B[3;4Rworld"), Ok((4, 3)));
    assert_eq!(cursor_pos(b"12;\x1B[3;4R"), Ok((4, 3)));
}

#[test]
fn first_of_two_reports_wins() {
    assert_eq!(cursor_pos(b"\x1B[1;2R\x1B[3;4R"), Ok((2, 1)));
}

#[test]
fn escape_followed_by_other_byte_is_dropped() {
    assert_eq!(cursor_pos(b"\x1Bx[1;2R"), Err(NotFound));
    assert_eq!(cursor_pos(b"\x1B\x1B[1;2R"), Err(NotFound));
    assert_eq!(cursor_pos(b"\x1Bx\x1B[1;2R"), Ok((2, 1)));
}

#[test]
fn other_bytes_inside_a_sequence_are_ignored() {
    assert_eq!(cursor_pos(b"\x1B[?1;2R"), Ok((2, 1)));
    assert_eq!(cursor_pos(b"\x1B[1 ;\x002R"), Ok((2, 1)));
    assert_eq!(cursor_pos(b"\x1B[1\x1B[2;3R"), Ok((3, 12)));
}

#[test]
fn fields_after_the_second_are_not_read() {
    assert_eq!(cursor_pos(b"\x1B[1;2;3R"), Ok((2, 1)));
    assert_eq!(cursor_pos(b"\x1B[1;;3R"), Ok((0, 1)));
}

#[test]
fn too_large_field_counts_as_zero() {
    assert_eq!(cursor_pos(b"\x1B[65535;65536R"), Ok((0, 65535)));
    assert_eq!(cursor_pos(b"\x1B[70000;9R"), Ok((9, 0)));
}

#[test]
fn parse_report_splits_on_semicolons() {
    assert_eq!(parse_report(b"12;34"), (34, 12));
    assert_eq!(parse_report(b";34"), (34, 0));
    assert_eq!(parse_report(b"12;"), (0, 12));
    assert_eq!(parse_report(b"12"), (0, 12));
    assert_eq!(parse_report(b""), (0, 0));
    assert_eq!(parse_report(b";"), (0, 0));
    assert_eq!(parse_report(b";;5"), (0, 0));
    assert_eq!(parse_report(b"1;2;3"), (2, 1));
    assert_eq!(parse_report(b"001;0002"), (2, 1));
}

#[test]
fn written_positions_are_read_back() {
    for (row, column) in [(1u16, 1u16), (12, 34), (0, 0), (65535, 65535), (24, 80), (100, 9)] {
        assert_eq!(cursor_pos(&report_bytes(row, column)), Ok((column, row)));
    }
}

#[test]
fn goto_and_report_share_their_parameters() {
    let text = Goto(80, 24).to_string();
    let reply = text.replace('H', "R");
    assert_eq!(cursor_pos(reply.as_bytes()), Ok((80, 24)));
}

#[test]
fn input_without_the_final_byte_never_reports() {
    let inputs: [&[u8]; 6] = [
        b"\x1B[",
        b"\x1B[1;2",
        b"\x1B[1;2H",
        b"\x1B[1;2r",
        b"\x1B]R-less\x07\x1B[9;9",
        b"\x1B[1;2S\x1B[3;4Q",
    ];
    for input in inputs {
        assert_eq!(cursor_pos(input), Err(NotFound));
    }
}

#[test]
fn skipped_sequences_leave_the_rest_as_it_was() {
    let rests: [&[u8]; 4] = [b"", b"\x1B[5;5R", b"\x1B[5;5", b"x\x1B[;7Ry"];
    for rest in rests {
        let mut after_csi = b"\x1B[2J".to_vec();
        after_csi.extend_from_slice(rest);
        assert_eq!(cursor_pos(&after_csi), cursor_pos(rest));
        let mut after_osc = b"\x1B]0;title\x07".to_vec();
        after_osc.extend_from_slice(rest);
        assert_eq!(cursor_pos(&after_osc), cursor_pos(rest));
    }
}

#[test]
fn parser_starts_outside_any_sequence() {
    let parser = ReplyParser::new();
    assert_eq!(parser.state(), AnsiState::Norm);
}

#[test]
fn parser_walks_through_a_report() {
    let mut parser = ReplyParser::new();
    assert_eq!(parser.feed(b'x'), None);
    assert_eq!(parser.state(), AnsiState::Norm);
    assert_eq!(parser.feed(0x1B), None);
    assert_eq!(parser.state(), AnsiState::Esc);
    assert_eq!(parser.feed(b'['), None);
    assert_eq!(parser.state(), AnsiState::Csi);
    assert_eq!(parser.feed(b'1'), None);
    assert_eq!(parser.feed(b'2'), None);
    assert_eq!(parser.feed(b';'), None);
    assert_eq!(parser.feed(b'3'), None);
    assert_eq!(parser.feed(b'4'), None);
    assert_eq!(parser.state(), AnsiState::Csi);
    assert_eq!(parser.feed(b'R'), Some((34, 12)));
    assert_eq!(parser.state(), AnsiState::Norm);
}

#[test]
fn parser_walks_through_an_osc_sequence() {
    let mut parser = ReplyParser::new();
    assert_eq!(parser.feed(0x1B), None);
    assert_eq!(parser.feed(b']'), None);
    assert_eq!(parser.state(), AnsiState::Osc);
    for b in b"0;title R \x1B[" {
        assert_eq!(parser.feed(*b), None);
        assert_eq!(parser.state(), AnsiState::Osc);
    }
    assert_eq!(parser.feed(0x07), None);
    assert_eq!(parser.state(), AnsiState::Norm);
}

#[test]
fn parser_leaves_a_sequence_on_any_letter() {
    for end in [b'A', b'Q', b'S', b'Z', b'a', b'm', b'z'] {
        let mut parser = ReplyParser::new();
        assert_eq!(parser.feed(0x1B), None);
        assert_eq!(parser.feed(b'['), None);
        assert_eq!(parser.feed(b'4'), None);
        assert_eq!(parser.feed(end), None);
        assert_eq!(parser.state(), AnsiState::Norm);
    }
}

#[test]
fn parser_stays_in_a_sequence_on_other_bytes() {
    for b in [b'@', b'[', b'`', b'{', b'/', b':', b' ', 0x00, 0x07, 0x1B, 0xFF] {
        let mut parser = ReplyParser::new();
        assert_eq!(parser.feed(0x1B), None);
        assert_eq!(parser.feed(b'['), None);
        assert_eq!(parser.feed(b), None);
        assert_eq!(parser.state(), AnsiState::Csi);
        assert_eq!(parser.feed(b'R'), Some((0, 0)));
    }
}

#[test]
fn parser_clears_its_parameters_at_each_sequence() {
    let mut parser = ReplyParser::new();
    for b in b"\x1B[11;22m\x1B[" {
        assert_eq!(parser.feed(*b), None);
    }
    assert_eq!(parser.feed(b'R'), Some((0, 0)));
}

#[test]
fn parser_can_go_on_after_a_report() {
    let mut parser = ReplyParser::new();
    let mut found = Vec::new();
    for b in b"\x1B[1;2R..\x1B[3;4R" {
        if let Some(position) = parser.feed(*b) {
            found.push(position);
        }
    }
    assert_eq!(found, vec![(2, 1), (4, 3)]);
}

#[test]
fn feeding_byte_by_byte_agrees_with_scanning() {
    let inputs: [&[u8]; 5] = [
        b"\x1B[12;34R",
        b"\x1B[2J\x1B[5;5R",
        b"\x1B]0;title\x07",
        b"\x1B[7;3",
        b"ab\x1B]x\x07\x1B[?25l\x1B[;8Rtail",
    ];
    for input in inputs {
        let mut parser = ReplyParser::new();
        let mut first = Err(NotFound);
        for b in input {
            if let Some(position) = parser.feed(*b) {
                first = Ok(position);
                break;
            }
        }
        assert_eq!(cursor_pos(input), first);
    }
}
