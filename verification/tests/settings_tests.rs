use crystal_kmc::mode::{should_perform_action, Ballistic, Mode, Schedule, StepFlags};
use crystal_kmc::expr::{is_plain_expr, MAX_EXPR_LEN};
use crystal_kmc::settings::{field_of, Field, Settings, SettingsError, NOT_PLAIN};

#[test]
fn default_settings() {
    let cfg = Settings::new();
    assert_eq!(cfg.dir_prefix, "Default");
    assert_eq!(cfg.seed, 1012);
    assert_eq!((cfg.sx, cfg.sy, cfg.sz), (11, 11, 11));
    assert_eq!((cfg.px, cfg.py, cfg.pz), (false, false, false));
    assert_eq!(cfg.mode, Mode::M11);
    assert_eq!((cfg.add_i, cfg.add_from, cfg.rem_i, cfg.rem_from), (1, 1, 1, 1));
    assert_eq!(cfg.load_option, 0);
    assert_eq!((cfg.step_lim, cfg.print_i, cfg.write_i), (100, 10, 1));
    assert!(cfg.validate(true).is_ok());
}

#[test]
fn validation_names_the_first_fault() {
    let fault = |cfg: &Settings, t: bool| {
        let e = cfg.validate(t).unwrap_err();
        assert!(e.value.is_none());
        (e.key.unwrap(), e.source)
    };
    let mut cfg = Settings::new();
    cfg.sx = 0;
    cfg.sy = 0;
    assert_eq!(fault(&cfg, true), ("Sx".to_string(), "must be > 0".to_string()));
    cfg.sx = 3;
    assert_eq!(fault(&cfg, true), ("Sy".to_string(), "must be > 0".to_string()));
    cfg.sy = 3;
    cfg.sz = 0;
    assert_eq!(fault(&cfg, false), ("Sz".to_string(), "must be > 0".to_string()));
    cfg.sz = 3;
    cfg.add_from = 0;
    assert_eq!(fault(&cfg, false), ("T".to_string(), "must be > 0".to_string()));
    assert_eq!(fault(&cfg, true), ("AddFrom".to_string(), "must be > 0".to_string()));
    cfg.add_from = 1;
    cfg.rem_from = 0;
    cfg.dir_prefix = "  ".to_string();
    assert_eq!(fault(&cfg, true), ("RemFrom".to_string(), "must be > 0".to_string()));
    cfg.rem_from = 2;
    assert_eq!(fault(&cfg, true), ("DirPrefix".to_string(), "cannot be empty".to_string()));
    cfg.dir_prefix = "\u{2003}\t".to_string();
    assert_eq!(fault(&cfg, true), ("DirPrefix".to_string(), "cannot be empty".to_string()));
    cfg.dir_prefix = " run ".to_string();
    assert!(cfg.validate(true).is_ok());
}

#[test]
fn settings_errors_keep_what_they_are_given() {
    let e = SettingsError::new("Seed", "1 +", "unexpected end".to_string());
    assert_eq!(e.key.as_deref(), Some("Seed"));
    assert_eq!(e.value.as_deref(), Some("1 +"));
    assert_eq!(e.source, "unexpected end");
    let e = SettingsError::simple("Sx", "must be > 0");
    assert_eq!(e.key.as_deref(), Some("Sx"));
    assert!(e.value.is_none());
    assert_eq!(e.source, "must be > 0");
    let e = SettingsError::from_io(std::io::Error::new(std::io::ErrorKind::Other, "no such file"));
    assert!(e.key.is_none());
    assert!(e.value.is_none());
    assert_eq!(e.source, "no such file");
}

#[test]
fn keys_of_the_configuration() {
    assert_eq!(field_of("DirPrefix"), Some(Field::DirPrefix));
    assert_eq!(field_of("Seed"), Some(Field::Seed));
    assert_eq!(field_of("Sx"), Some(Field::Sx));
    assert_eq!(field_of("Pz"), Some(Field::Pz));
    assert_eq!(field_of("AddFrom"), Some(Field::AddFrom));
    assert_eq!(field_of("LoadOption"), Some(Field::LoadOption));
    assert_eq!(field_of("WriteI"), Some(Field::WriteI));
    assert_eq!(field_of("T"), None);
    assert_eq!(field_of("mode"), None);
    assert_eq!(field_of("seed"), None);
    assert_eq!(field_of(""), None);
}

#[test]
fn numbers_are_stored_within_the_range_of_their_field() {
    let mut cfg = Settings::new();
    cfg.store_number(Field::Seed, 42);
    cfg.store_number(Field::Sx, 7);
    cfg.store_number(Field::StepLim, -3);
    cfg.store_number(Field::LoadOption, -1);
    cfg.store_number(Field::AddI, i128::MAX);
    cfg.store_number(Field::Px, 1);
    assert_eq!(cfg.seed, 42);
    assert_eq!(cfg.sx, 7);
    assert_eq!(cfg.step_lim, 0);
    assert_eq!(cfg.load_option, -1);
    assert_eq!(cfg.add_i, u64::MAX);
    assert!(!cfg.px);
    cfg.store_number(Field::LoadOption, i128::MIN);
    assert_eq!(cfg.load_option, i64::MIN);
    cfg.store_flag(Field::Py, true);
    cfg.store_flag(Field::Seed, true);
    assert!(cfg.py);
    assert_eq!(cfg.seed, 42);
}

#[test]
fn settings_take_expressions() {
    let mut cfg = Settings::new();
    assert_eq!(cfg.apply_setting("Seed", "1000 + 12").unwrap(), true);
    assert_eq!(cfg.seed, 1012);
    assert_eq!(cfg.apply_setting("Sx", "2 * 10").unwrap(), true);
    assert_eq!(cfg.sx, 20);
    assert_eq!(cfg.apply_setting("StepLim", "1e6").unwrap(), true);
    assert_eq!(cfg.step_lim, 1_000_000);
    assert_eq!(cfg.apply_setting("WriteI", "7.9").unwrap(), true);
    assert_eq!(cfg.write_i, 7);
    assert_eq!(cfg.apply_setting("LoadOption", "-1").unwrap(), true);
    assert_eq!(cfg.load_option, -1);
    assert_eq!(cfg.apply_setting("AddI", "-5").unwrap(), true);
    assert_eq!(cfg.add_i, 0);
    assert_eq!(cfg.apply_setting("Px", "true").unwrap(), true);
    assert!(cfg.px);
    assert_eq!(cfg.apply_setting("Py", "1 < 2 && !false").unwrap(), true);
    assert!(cfg.py);
    assert_eq!(cfg.apply_setting("DirPrefix", "first run").unwrap(), true);
    assert_eq!(cfg.dir_prefix, "first run");
}

#[test]
fn settings_pass_over_keys_kept_elsewhere() {
    let mut cfg = Settings::new();
    assert_eq!(cfg.apply_setting("T", "300").unwrap(), false);
    assert_eq!(cfg.apply_setting("mode", "2.1").unwrap(), false);
    assert_eq!(cfg.apply_setting("Colour", "red").unwrap(), false);
    assert_eq!(cfg.seed, 1012);
}

#[test]
fn settings_report_what_could_not_be_read() {
    let mut cfg = Settings::new();
    let e = cfg.apply_setting("Seed", "1 +").unwrap_err();
    assert_eq!(e.key.as_deref(), Some("Seed"));
    assert_eq!(e.value.as_deref(), Some("1 +"));
    assert!(!e.source.is_empty());
    assert_eq!(cfg.seed, 1012);
    let e = cfg.apply_setting("Px", "3").unwrap_err();
    assert_eq!(e.key.as_deref(), Some("Px"));
    assert_eq!(e.value.as_deref(), Some("3"));
    assert!(!cfg.px);
    assert!(cfg.apply_setting("Sx", "true").is_err());
    assert_eq!(cfg.sx, 11);
}

#[test]
fn modes_and_their_rules() {
    assert_eq!(Mode::from_code(1, 1), Some(Mode::M11));
    assert_eq!(Mode::from_code(1, 2), Some(Mode::M12));
    assert_eq!(Mode::from_code(1, 3), Some(Mode::M13));
    assert_eq!(Mode::from_code(2, 1), Some(Mode::M21));
    assert_eq!(Mode::from_code(2, 2), Some(Mode::M22));
    assert_eq!(Mode::from_code(2, 3), Some(Mode::M23));
    assert_eq!(Mode::from_code(3, 3), None);
    assert_eq!(Mode::from_code(1, 0), None);
    assert_eq!(Mode::from_code(2, 4), None);
    assert_eq!(Mode::M22.code(), (2, 2));
    assert_eq!(Mode::M11.ballistic(), Ballistic::Off);
    assert_eq!(Mode::M21.ballistic(), Ballistic::Off);
    assert_eq!(Mode::M12.ballistic(), Ballistic::Uniform);
    assert_eq!(Mode::M23.ballistic(), Ballistic::Biased);
    assert!(!Mode::M13.reservoir());
    assert!(Mode::M21.reservoir());
}

#[test]
fn schedule_of_a_step() {
    let s = Schedule {
        add_i: 2,
        add_from: 5,
        rem_i: 3,
        rem_from: 1,
        write_i: 4,
        print_i: 0,
        step_lim: 100,
    };
    let at = |step| s.flags(step);
    assert_eq!(at(4), StepFlags { is_add: false, is_rem: false, is_write: true, is_print: false });
    assert_eq!(at(5), StepFlags { is_add: false, is_rem: false, is_write: false, is_print: false });
    assert_eq!(at(6), StepFlags { is_add: true, is_rem: true, is_write: false, is_print: false });
    assert_eq!(at(12), StepFlags { is_add: true, is_rem: true, is_write: true, is_print: false });
    let off = Schedule { add_i: 0, rem_i: 0, write_i: 0, ..s };
    assert_eq!(
        off.flags(6),
        StepFlags { is_add: false, is_rem: false, is_write: false, is_print: false }
    );
    assert!(should_perform_action(10, 5, true));
    assert!(!should_perform_action(11, 5, true));
    assert!(!should_perform_action(10, 0, false));
    assert_eq!(Settings::new().schedule().flags(10).is_print, true);
}

#[test]
fn plain_expressions() {
    for text in [
        "0", "1012", "1e6", "1.5E-3", ".5", "5.", "true", "false", "1 + 2 * (3 - 4) / 5 % 6 ^ 7",
        "1 < 2 && !false || 3 >= 4", "1 == 1", "2 != 3", "-5", "( true )", "", "  ", "1e", "1..2",
        "1 +", "((", "1 = 2", "1 // 2",
    ] {
        assert!(is_plain_expr(text), "{:?}", text);
    }
    for text in [
        "shl(1, 64)", "math::abs(-9223372036854775807 - 1)", "len(str::substring(\"\u{e9}\", 0, 1))",
        "x", "e", "e5", "E", "tru", "truefalse", "true1", "1true", "falsee", "0x10", "1_000",
        "\"a\"", "1, 2", "1; 2", "a = 1", "min(1, 2)", "if(true, 1, 2)", "inf", "nan", "t", "1 + \u{e9}",
    ] {
        assert!(!is_plain_expr(text), "{:?}", text);
    }
}

#[test]
fn plain_expressions_have_a_bounded_length() {
    let longest = "1".repeat(MAX_EXPR_LEN);
    assert!(is_plain_expr(&longest));
    let too_long = "1".repeat(MAX_EXPR_LEN + 1);
    assert!(!is_plain_expr(&too_long));
    let nested = format!("{}1{}", "(".repeat(120), ")".repeat(120));
    assert!(is_plain_expr(&nested));
    let mut cfg = Settings::new();
    assert_eq!(cfg.apply_setting("Seed", &nested).unwrap(), true);
    assert_eq!(cfg.seed, 1);
    let e = cfg.apply_setting("Seed", &too_long).unwrap_err();
    assert_eq!(e.source, NOT_PLAIN);
}

#[test]
fn settings_refuse_what_is_no_plain_expression() {
    let mut cfg = Settings::new();
    for value in [
        "shl(1, 64)",
        "math::abs(-9223372036854775807 - 1)",
        "len(str::substring(\"\u{e9}\", 0, 1))",
        "seed",
        "0x10",
    ] {
        let e = cfg.apply_setting("Seed", value).unwrap_err();
        assert_eq!(e.key.as_deref(), Some("Seed"));
        assert_eq!(e.value.as_deref(), Some(value));
        assert_eq!(e.source, NOT_PLAIN);
        let e = cfg.apply_setting("Px", value).unwrap_err();
        assert_eq!(e.key.as_deref(), Some("Px"));
        assert_eq!(e.source, NOT_PLAIN);
    }
    assert_eq!(cfg.seed, 1012);
    assert!(!cfg.px);
    // the directory prefix is text and is not evaluated
    assert_eq!(cfg.apply_setting("DirPrefix", "shl(1, 64)").unwrap(), true);
    assert_eq!(cfg.dir_prefix, "shl(1, 64)");
    // a key that is kept elsewhere is passed over whatever its value
    assert_eq!(cfg.apply_setting("T", "shl(1, 64)").unwrap(), false);
}

#[test]
fn plain_expressions_that_cannot_be_evaluated_give_the_reason_of_the_evaluator() {
    let mut cfg = Settings::new();
    for value in ["1 / 0", "9223372036854775807 + 1", "-(-9223372036854775807 - 1)", "1 +", "((", "1e", "1 = 2", "true"] {
        let e = cfg.apply_setting("StepLim", value).unwrap_err();
        assert_eq!(e.value.as_deref(), Some(value));
        assert!(!e.source.is_empty());
        assert!(e.source != NOT_PLAIN);
    }
    assert_eq!(cfg.step_lim, 100);
    assert_eq!(cfg.apply_setting("StepLim", "2 ^ 10").unwrap(), true);
    assert_eq!(cfg.step_lim, 1024);
    assert_eq!(cfg.apply_setting("StepLim", "1e3 /* 1 */ + 1").unwrap(), true);
    assert_eq!(cfg.step_lim, 1001);
}
