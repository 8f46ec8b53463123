use jetkvm_cli::values::{parse_bool, parse_dc_restore_state, spells_keyword};

#[test]
fn parse_bool_accepts_true_and_on() {
    assert_eq!(parse_bool("true"), Ok(true));
    assert_eq!(parse_bool("on"), Ok(true));
}

#[test]
fn parse_bool_accepts_false_and_off() {
    assert_eq!(parse_bool("false"), Ok(false));
    assert_eq!(parse_bool("off"), Ok(false));
}

#[test]
fn parse_bool_ignores_letter_case() {
    assert_eq!(parse_bool("TRUE"), Ok(true));
    assert_eq!(parse_bool("On"), Ok(true));
    assert_eq!(parse_bool("oN"), parse_bool("On"));
    assert_eq!(parse_bool("FaLsE"), Ok(false));
    assert_eq!(parse_bool("OFF"), Ok(false));
}

#[test]
fn parse_bool_rejects_other_words() {
    assert_eq!(
        parse_bool("yes"),
        Err("Invalid boolean value: yes. Valid values are: true, false, on, off".to_string())
    );
    assert_eq!(
        parse_bool(""),
        Err("Invalid boolean value: . Valid values are: true, false, on, off".to_string())
    );
    assert_eq!(
        parse_bool(" true"),
        Err("Invalid boolean value:  true. Valid values are: true, false, on, off".to_string())
    );
    assert!(parse_bool("1").is_err());
    assert!(parse_bool("tru").is_err());
    assert!(parse_bool("truee").is_err());
}

#[test]
fn parse_dc_restore_state_codes() {
    assert_eq!(parse_dc_restore_state("off"), Ok(0));
    assert_eq!(parse_dc_restore_state("on"), Ok(1));
    assert_eq!(parse_dc_restore_state("laststate"), Ok(2));
}

#[test]
fn parse_dc_restore_state_ignores_letter_case() {
    assert_eq!(parse_dc_restore_state("OFF"), Ok(0));
    assert_eq!(parse_dc_restore_state("On"), Ok(1));
    assert_eq!(parse_dc_restore_state("LastState"), Ok(2));
}

#[test]
fn parse_dc_restore_state_rejects_other_words() {
    assert_eq!(
        parse_dc_restore_state("true"),
        Err("Invalid DC restore state: true. Valid values are: off, on, laststate".to_string())
    );
    assert_eq!(
        parse_dc_restore_state("last"),
        Err("Invalid DC restore state: last. Valid values are: off, on, laststate".to_string())
    );
    assert!(parse_dc_restore_state("2").is_err());
}

#[test]
fn on_and_off_agree_between_parsers() {
    assert_eq!(parse_bool("on"), Ok(true));
    assert_eq!(parse_dc_restore_state("on"), Ok(1));
    assert_eq!(parse_bool("OFF"), Ok(false));
    assert_eq!(parse_dc_restore_state("OFF"), Ok(0));
}

#[test]
fn spells_keyword_folds_ascii_letters_only() {
    assert!(spells_keyword("LaStStAtE", "laststate"));
    assert!(!spells_keyword("on", "off"));
    assert!(!spells_keyword("\u{212A}", "k"));
    assert!(!spells_keyword("ÖN", "on"));
}
