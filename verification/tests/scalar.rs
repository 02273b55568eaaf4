use typed_openapi::json::Json;
use typed_openapi::scalar::{Scalar, ScalarError};

#[test]
fn money_accepts_the_shapes_an_accountant_types() {
    for raw in ["12.50", "0", "0.0", "-3.07", "1000000.00"] {
        assert_eq!(
            Scalar::Money(None).parse(raw),
            Ok(Json::String(raw.to_owned())),
            "{raw}"
        );
    }
}

#[test]
fn money_rejects_everything_else() {
    for raw in ["12.5x", "", "12.505", ".5", "1,50", "-", "1e3"] {
        assert!(Scalar::Money(None).parse(raw).is_err(), "{raw}");
    }
}

#[test]
fn a_choice_outside_the_enum_is_rejected_with_the_alternatives() {
    let status = Scalar::Choice(vec!["draft".to_owned(), "paid".to_owned()]);
    assert_eq!(
        status.parse("void"),
        Err(ScalarError::Choice {
            raw: "void".to_owned(),
            allowed: vec!["draft".to_owned(), "paid".to_owned()],
        })
    );
    assert!(status.parse("paid").is_ok());
}

#[test]
fn integers_stay_integers_in_json() {
    assert_eq!(Scalar::Integer.parse("5"), Ok(Json::Integer(5)));
    assert!(Scalar::Integer.parse("5.0").is_err());
}

#[test]
fn a_pattern_reaches_help_but_not_the_parser() {
    let text = Scalar::Text(Some("^[A-Z]+$".to_owned()));
    assert_eq!(text.note().as_deref(), Some("matches ^[A-Z]+$"));
    assert!(text.parse("lowercase").is_ok());
}

#[test]
fn integers_take_a_sign_and_stay_in_range() {
    assert_eq!(Scalar::Integer.parse("+7"), Ok(Json::Integer(7)));
    assert_eq!(Scalar::Integer.parse("-7"), Ok(Json::Integer(-7)));
    assert_eq!(
        Scalar::Integer.parse("9223372036854775807"),
        Ok(Json::Integer(i64::MAX))
    );
    assert_eq!(
        Scalar::Integer.parse("-9223372036854775808"),
        Ok(Json::Integer(i64::MIN))
    );
    assert_eq!(
        Scalar::Integer.parse("9223372036854775808"),
        Err(ScalarError::Integer { raw: "9223372036854775808".to_owned() })
    );
}

#[test]
fn numbers_and_booleans_read_as_json() {
    assert!(matches!(Scalar::Number.parse("2.5"), Ok(Json::Number(_))));
    assert_eq!(
        Scalar::Number.parse("NaN"),
        Err(ScalarError::Number { raw: "NaN".to_owned() })
    );
    assert_eq!(Scalar::Boolean.parse("true"), Ok(Json::Bool(true)));
    assert_eq!(Scalar::Boolean.parse("false"), Ok(Json::Bool(false)));
    assert_eq!(
        Scalar::Boolean.parse("yes"),
        Err(ScalarError::Boolean { raw: "yes".to_owned() })
    );
}

#[test]
fn every_refusal_says_what_was_wrong() {
    assert_eq!(
        ScalarError::Money { raw: "1x".to_owned() }.message(),
        "`1x` is not an amount (digits, optionally `.` and one or two decimals)"
    );
    assert_eq!(
        ScalarError::Choice { raw: "void".to_owned(), allowed: vec!["draft".to_owned(), "paid".to_owned()] }
            .message(),
        "`void` is not one of draft, paid"
    );
    assert_eq!(Scalar::Money(None).value_name(), "AMOUNT");
    assert_eq!(Scalar::Money(None).note().as_deref(), Some("e.g. 12.50"));
}
