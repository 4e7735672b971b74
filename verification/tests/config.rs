use benilla_app::config::{env_flag, flag_value};

#[test]
fn zero_and_false_turn_a_switch_off() {
    assert!(!flag_value("0"));
    assert!(!flag_value("false"));
    assert!(!flag_value("FALSE"));
    assert!(!flag_value("FaLsE"));
}

#[test]
fn anything_else_turns_a_switch_on() {
    assert!(flag_value("1"));
    assert!(flag_value("true"));
    assert!(flag_value(""));
    assert!(flag_value("00"));
    assert!(flag_value("no"));
    assert!(flag_value("falsey"));
    assert!(flag_value("fals"));
    assert!(flag_value(" false"));
    assert!(flag_value("fälse"));
}

#[test]
fn an_absent_value_keeps_the_default() {
    assert!(env_flag(None, true));
    assert!(!env_flag(None, false));
    assert!(!env_flag(Some("0"), true));
    assert!(env_flag(Some("yes"), false));
}
