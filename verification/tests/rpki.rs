use pathforge::rpki::{Roa, RovState, RpkiMode, RpkiValidator};

fn ip(a: u8, b: u8, c: u8, d: u8) -> u32 {
    u32::from_be_bytes([a, b, c, d])
}

fn validator_with_roas() -> RpkiValidator {
    let mut v = RpkiValidator::new(RpkiMode::Strict);
    v.add_roa(Roa::new(ip(10, 0, 0, 0), 8, 24, 65001));
    v.add_roa(Roa::new(ip(192, 168, 0, 0), 16, 16, 65002));
    v
}

#[test]
fn test_valid_route() {
    let v = validator_with_roas();
    assert_eq!(v.validate(ip(10, 1, 0, 0), 24, 65001), RovState::Valid);
}

#[test]
fn test_invalid_wrong_origin() {
    let v = validator_with_roas();
    assert_eq!(v.validate(ip(10, 1, 0, 0), 24, 65099), RovState::Invalid);
}

#[test]
fn test_invalid_prefix_too_long() {
    let v = validator_with_roas();
    assert_eq!(v.validate(ip(10, 1, 2, 0), 25, 65001), RovState::NotFound);
}

#[test]
fn test_not_found() {
    let v = validator_with_roas();
    assert_eq!(v.validate(ip(172, 16, 0, 0), 12, 65001), RovState::NotFound);
}

#[test]
fn test_disabled_mode_always_not_found() {
    let mut v = validator_with_roas();
    v.mode = RpkiMode::Disabled;
    assert_eq!(v.validate(ip(10, 1, 0, 0), 24, 65001), RovState::NotFound);
}

#[test]
fn test_should_reject_strict() {
    let v = validator_with_roas();
    assert!(v.should_reject(RovState::Invalid));
    assert!(!v.should_reject(RovState::Valid));
    assert!(!v.should_reject(RovState::NotFound));
}

#[test]
fn test_should_not_reject_loose() {
    let mut v = validator_with_roas();
    v.mode = RpkiMode::Loose;
    assert!(!v.should_reject(RovState::Invalid));
    assert!(!v.should_reject(RovState::Valid));
}

#[test]
fn test_roa_covers_exact_length() {
    let roa = Roa::new(ip(192, 168, 0, 0), 16, 16, 65001);
    assert!(roa.covers(ip(192, 168, 0, 0), 16));
    assert!(!roa.covers(ip(192, 168, 0, 0), 15));
    assert!(!roa.covers(ip(192, 168, 0, 0), 17));
}

#[test]
fn test_roa_covers_subnet() {
    let roa = Roa::new(ip(10, 0, 0, 0), 8, 24, 65001);
    assert!(roa.covers(ip(10, 0, 0, 0), 8));
    assert!(roa.covers(ip(10, 1, 0, 0), 16));
    assert!(roa.covers(ip(10, 1, 2, 0), 24));
    assert!(!roa.covers(ip(10, 1, 2, 0), 25));
    assert!(!roa.covers(ip(11, 0, 0, 0), 8));
}

#[test]
fn test_rov_state_display() {
    assert_eq!(RovState::Valid.to_string(), "valid");
    assert_eq!(RovState::Invalid.to_string(), "invalid");
    assert_eq!(RovState::NotFound.to_string(), "not-found");
}

#[test]
fn test_rpki_mode_display() {
    assert_eq!(RpkiMode::Disabled.to_string(), "disabled");
    assert_eq!(RpkiMode::Loose.to_string(), "loose");
    assert_eq!(RpkiMode::Strict.to_string(), "strict");
}

#[test]
fn default_roa_covers_everything_in_its_lengths() {
    let roa = Roa::new(0, 0, 32, 64512);
    assert!(roa.covers(ip(203, 0, 113, 9), 32));
    assert!(roa.covers(0, 0));
}

#[test]
fn a_valid_roa_wins_over_an_earlier_covering_one() {
    let mut v = RpkiValidator::new(RpkiMode::Loose);
    v.add_roa(Roa::new(ip(10, 0, 0, 0), 8, 24, 1));
    v.add_roa(Roa::new(ip(10, 0, 0, 0), 8, 24, 2));
    assert_eq!(v.validate(ip(10, 5, 0, 0), 16, 2), RovState::Valid);
    assert_eq!(RpkiValidator::default().mode, RpkiMode::Disabled);
}
