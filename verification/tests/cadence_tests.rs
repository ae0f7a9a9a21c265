use feedpipe::cadence::{Cadence, CadenceField, WallTime};
use feedpipe::errors::RegistrationError;

fn at(second: u8, minute: u8, hour: u8, day_of_month: u8, month: u8, day_of_week: u8) -> WallTime {
    WallTime { second, minute, hour, day_of_month, month, day_of_week }
}

#[test]
fn parse_five_field_wildcards() {
    let c = Cadence::parse("* * * * *").unwrap();
    assert_eq!(c.second, CadenceField::Exact(0));
    assert_eq!(c.minute, CadenceField::Any);
    assert_eq!(c.day_of_week, CadenceField::Any);
}

#[test]
fn parse_six_field_values() {
    let c = Cadence::parse("30 15 12 1 6 0").unwrap();
    assert_eq!(c.second, CadenceField::Exact(30));
    assert_eq!(c.minute, CadenceField::Exact(15));
    assert_eq!(c.hour, CadenceField::Exact(12));
    assert_eq!(c.day_of_month, CadenceField::Exact(1));
    assert_eq!(c.month, CadenceField::Exact(6));
    assert_eq!(c.day_of_week, CadenceField::Exact(0));
}

#[test]
fn parse_step_field() {
    let c = Cadence::parse("*/5 * * * *").unwrap();
    assert_eq!(c.minute, CadenceField::Step(5));
}

#[test]
fn wrong_field_count_is_invalid() {
    assert_eq!(
        Cadence::parse("* * *").unwrap_err(),
        RegistrationError::InvalidScheduleExpression
    );
    assert_eq!(
        Cadence::parse("* * * * * * *").unwrap_err(),
        RegistrationError::InvalidScheduleExpression
    );
    assert_eq!(
        Cadence::parse("").unwrap_err(),
        RegistrationError::InvalidScheduleExpression
    );
}

#[test]
fn out_of_range_fields_are_invalid() {
    assert!(Cadence::parse("60 * * * *").is_err());
    assert!(Cadence::parse("* 24 * * *").is_err());
    assert!(Cadence::parse("* * 0 * *").is_err());
    assert!(Cadence::parse("* * 32 * *").is_err());
    assert!(Cadence::parse("* * * 13 *").is_err());
    assert!(Cadence::parse("* * * * 7").is_err());
    assert!(Cadence::parse("*/0 * * * *").is_err());
    assert!(Cadence::parse("100 * * * *").is_err());
}

#[test]
fn stray_spaces_are_invalid() {
    assert!(Cadence::parse("*  * * * *").is_err());
    assert!(Cadence::parse(" * * * * *").is_err());
    assert!(Cadence::parse("* * * * * ").is_err());
}

#[test]
fn junk_tokens_are_invalid() {
    assert!(Cadence::parse("a * * * *").is_err());
    assert!(Cadence::parse("1x * * * *").is_err());
    assert!(Cadence::parse("*/ * * * *").is_err());
    assert!(Cadence::parse("-5 * * * *").is_err());
}

#[test]
fn five_field_fires_at_second_zero_only() {
    let c = Cadence::parse("* * * * *").unwrap();
    assert!(c.is_due(&at(0, 7, 9, 15, 3, 2)));
    assert!(!c.is_due(&at(1, 7, 9, 15, 3, 2)));
}

#[test]
fn step_cadence_fires_on_multiples() {
    let c = Cadence::parse("*/15 * * * *").unwrap();
    assert!(c.is_due(&at(0, 0, 9, 15, 3, 2)));
    assert!(c.is_due(&at(0, 30, 9, 15, 3, 2)));
    assert!(!c.is_due(&at(0, 20, 9, 15, 3, 2)));
}

#[test]
fn exact_cadence_fires_at_value() {
    let c = Cadence::parse("30 12 * * *").unwrap();
    assert!(c.is_due(&at(0, 30, 12, 1, 1, 0)));
    assert!(!c.is_due(&at(0, 31, 12, 1, 1, 0)));
    assert!(!c.is_due(&at(0, 30, 13, 1, 1, 0)));
}

#[test]
fn day_steps_count_from_one() {
    // For 1-based fields a step counts from the low end of the range.
    let c = Cadence::parse("* * */7 * *").unwrap();
    assert!(c.is_due(&at(0, 0, 0, 1, 1, 0)));
    assert!(c.is_due(&at(0, 0, 0, 8, 1, 0)));
    assert!(!c.is_due(&at(0, 0, 0, 7, 1, 0)));
}

#[test]
fn six_field_seconds_cadence() {
    let c = Cadence::parse("*/10 * * * * *").unwrap();
    assert!(c.is_due(&at(10, 5, 9, 15, 3, 2)));
    assert!(c.is_due(&at(0, 5, 9, 15, 3, 2)));
    assert!(!c.is_due(&at(15, 5, 9, 15, 3, 2)));
}
