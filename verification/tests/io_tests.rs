use crystal_kmc::io_handler::{
    format_u64, is_comment_line, load_states, parse_state_line, split_key_value, write_log_row,
    write_state, write_state_uni, LoadError, COMMENT_LINE,
};
use crystal_kmc::state::SimLog;
use crystal_kmc::text::{find_sep, parse_u8, to_chars, trim_range};

fn lines(text: &[&str]) -> Vec<String> {
    text.iter().map(|s| s.to_string()).collect()
}

#[test]
fn characters_of_a_string() {
    assert_eq!(to_chars("a:é"), vec!['a', ':', 'é']);
    assert!(to_chars("").is_empty());
}

#[test]
fn trimming_a_range() {
    let chars = to_chars("  ab c \t");
    assert_eq!(trim_range(&chars, 0, chars.len()), (2, 6));
    assert_eq!(trim_range(&chars, 3, 5), (3, 4));
    assert_eq!(trim_range(&chars, 0, 2), (2, 2));
    let chars = to_chars("\u{2003}x\u{a0}");
    assert_eq!(trim_range(&chars, 0, 3), (1, 2));
}

#[test]
fn finding_a_separator() {
    let chars = to_chars("ab:cd:e");
    assert_eq!(find_sep(&chars, 0, 7, ':'), 2);
    assert_eq!(find_sep(&chars, 3, 7, ':'), 5);
    assert_eq!(find_sep(&chars, 6, 7, ':'), 7);
    assert_eq!(find_sep(&chars, 0, 2, ':'), 2);
}

#[test]
fn small_numbers() {
    let read = |s: &str| {
        let chars = to_chars(s);
        parse_u8(&chars, 0, chars.len())
    };
    assert_eq!(read("0"), Some(0));
    assert_eq!(read("1"), Some(1));
    assert_eq!(read("255"), Some(255));
    assert_eq!(read("+7"), Some(7));
    assert_eq!(read("007"), Some(7));
    assert_eq!(read("0000000000000000000001"), Some(1));
    assert_eq!(read("256"), None);
    assert_eq!(read("99999999999999999999"), None);
    assert_eq!(read(""), None);
    assert_eq!(read("+"), None);
    assert_eq!(read("-1"), None);
    assert_eq!(read("1 "), None);
    assert_eq!(read("1a"), None);
    assert_eq!(read("٣"), None);
}

#[test]
fn small_numbers_agree_with_the_standard_library() {
    for s in ["0", "9", "10", "+0", "+255", "+256", "300", "25 5", "", "+", "++1", "0x1", "1.0"] {
        let chars = to_chars(s);
        assert_eq!(parse_u8(&chars, 0, chars.len()), s.parse::<u8>().ok(), "{:?}", s);
    }
}

#[test]
fn state_lines() {
    assert_eq!(parse_state_line("0:1:0:1"), Some(vec![0, 1, 0, 1]));
    assert_eq!(parse_state_line("  1 : 0 :1\t"), Some(vec![1, 0, 1]));
    assert_eq!(parse_state_line("1:"), Some(vec![1]));
    assert_eq!(parse_state_line(":"), Some(vec![]));
    assert_eq!(parse_state_line("1:x:0:300:2"), Some(vec![1, 0, 2]));
    assert_eq!(parse_state_line(""), None);
    assert_eq!(parse_state_line("   "), None);
    assert_eq!(parse_state_line("0101"), None);
    assert_eq!(parse_state_line("1"), None);
}

#[test]
fn loading_nothing() {
    let text = lines(&["0:1", "not a state"]);
    assert_eq!(load_states(&text, 0, 2), Ok(vec![]));
    assert_eq!(load_states(&text, 0, 5), Ok(vec![]));
}

#[test]
fn loading_all_states() {
    let text = lines(&["0:1:1", "", "comment", " 1:1:0 ", "0:0:0"]);
    assert_eq!(
        load_states(&text, -1, 3),
        Ok(vec![vec![0, 1, 1], vec![1, 1, 0], vec![0, 0, 0]])
    );
    assert_eq!(load_states(&lines(&[]), -1, 3), Ok(vec![]));
    assert_eq!(load_states(&lines(&["", "x"]), -5, 3), Ok(vec![]));
}

#[test]
fn loading_a_given_number_of_states() {
    let text = lines(&["0:1:1", "", "1:1:0", "0:0", "0:0:0"]);
    // the third state has the wrong length but is never read
    assert_eq!(load_states(&text, 2, 3), Ok(vec![vec![0, 1, 1], vec![1, 1, 0]]));
    assert_eq!(load_states(&text, 1, 3), Ok(vec![vec![0, 1, 1]]));
}

#[test]
fn loading_fails_on_a_state_of_the_wrong_length() {
    let text = lines(&["0:1:1", "", "1:1", "0:0:0"]);
    assert_eq!(
        load_states(&text, -1, 3),
        Err(LoadError::InvalidData { line: 3, expected: 3, got: 2 })
    );
    assert_eq!(
        load_states(&text, 3, 3),
        Err(LoadError::InvalidData { line: 3, expected: 3, got: 2 })
    );
    assert_eq!(
        load_states(&lines(&["0:1:x"]), 1, 3),
        Err(LoadError::InvalidData { line: 1, expected: 3, got: 2 })
    );
}

#[test]
fn loading_fails_when_states_are_missing() {
    let text = lines(&["0:1:1", "1:1:0"]);
    assert_eq!(load_states(&text, 3, 3), Err(LoadError::NotFound { wanted: 3, found: 2 }));
    assert_eq!(load_states(&lines(&[]), 1, 3), Err(LoadError::NotFound { wanted: 1, found: 0 }));
}

#[test]
fn snapshot_lines() {
    assert_eq!(write_state(&[]), b"\n".to_vec());
    assert_eq!(write_state(&[1]), b"1\n".to_vec());
    assert_eq!(write_state(&[0, 1, 1, 0]), b"0:1:1:0\n".to_vec());
}

#[test]
fn snapshot_lines_are_read_back() {
    let state = vec![1u8, 0, 0, 1, 1, 0, 1];
    let line = String::from_utf8(write_state(&state)).unwrap();
    assert_eq!(parse_state_line(&line), Some(state));
}

#[test]
fn history_rows() {
    let row = |fields: &[&str]| {
        let fields: Vec<Vec<u8>> = fields.iter().map(|f| f.as_bytes().to_vec()).collect();
        String::from_utf8(write_state_uni(&fields)).unwrap()
    };
    assert_eq!(row(&[]), "\n");
    assert_eq!(row(&["12"]), "12\n");
    assert_eq!(row(&["1", "22", "333"]), "1:22:333\n");
    assert_eq!(row(&["1.5e0", "", "2"]), "1.5e0::2\n");
}

#[test]
fn configuration_lines() {
    let kv = |line: &str| split_key_value(line);
    assert_eq!(kv("Seed: 1012"), Some(("Seed".to_string(), "1012".to_string())));
    assert_eq!(kv("  Sx :  5 * 2  "), Some(("Sx".to_string(), "5 * 2".to_string())));
    assert_eq!(kv("DirPrefix: a:b"), Some(("DirPrefix".to_string(), "a:b".to_string())));
    assert_eq!(kv("Seed:"), None);
    assert_eq!(kv(": 5"), None);
    assert_eq!(kv("Seed"), None);
    assert_eq!(kv(""), None);
    assert_eq!(kv("  :  "), None);
}

#[test]
fn the_comment_line_ends_the_configuration() {
    assert!(is_comment_line(COMMENT_LINE));
    assert!(is_comment_line(&format!("  {}\t", COMMENT_LINE)));
    assert!(!is_comment_line("// GENERAL INFO //"));
    assert!(!is_comment_line(""));
    assert!(!is_comment_line(&COMMENT_LINE[1..]));
    assert_eq!(COMMENT_LINE.len(), 80);
}

#[test]
fn whole_numbers_in_decimal_digits() {
    assert_eq!(format_u64(0), b"0".to_vec());
    assert_eq!(format_u64(7), b"7".to_vec());
    assert_eq!(format_u64(10), b"10".to_vec());
    assert_eq!(format_u64(1012), b"1012".to_vec());
    assert_eq!(format_u64(u64::MAX), u64::MAX.to_string().into_bytes());
}

#[test]
fn history_rows_of_whole_numbers() {
    assert_eq!(write_log_row(&vec![]), b"\n".to_vec());
    assert_eq!(write_log_row(&vec![5]), b"5\n".to_vec());
    assert_eq!(write_log_row(&vec![0, 10, 200]), b"0:10:200\n".to_vec());
}

#[test]
fn whole_number_rows_of_a_log() {
    let mut log = SimLog::new();
    log.cryst_sx.val = 3;
    log.cryst_sy.val = 12;
    log.mk_step.val = 40;
    log.add_log_point();
    log.cryst_sx.val = 4;
    log.cryst_sz.is_on = false;
    log.mk_step.val = 50;
    log.add_log_point();
    let rows = log.log_rows();
    assert_eq!(rows, vec![
        b"3:4\n".to_vec(),
        b"12:12\n".to_vec(),
        b"0\n".to_vec(),
        b"40:50\n".to_vec(),
    ]);
}
