use spireai::models::common::{is_default, Amount, Target};

#[test]
fn default_target_is_self() {
    assert!(is_default(&Target::_Self));
    assert!(!is_default(&Target::Player));
}

#[test]
fn default_amount_is_one() {
    assert!(is_default(&Amount::Fixed(1)));
    assert!(!is_default(&Amount::Fixed(2)));
}

#[test]
fn default_flag_is_false() {
    assert!(is_default(&false));
    assert!(!is_default(&true));
}
