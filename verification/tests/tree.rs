use typed_openapi::model::{FIELD_PART, FILE_PART};
use typed_openapi::scalar::Scalar;
use typed_openapi::tree::{help_line, split_part, wire, PartSyntax};

#[test]
fn a_part_splits_at_the_first_equals_only() {
    assert_eq!(
        split_part(FILE_PART, "file=a=b").ok(),
        Some(("file".to_owned(), "a=b".to_owned()))
    );
    assert_eq!(
        split_part(FIELD_PART, "k=").ok(),
        Some(("k".to_owned(), String::new()))
    );
    assert!(split_part(FILE_PART, "nope").is_err());
    assert!(split_part(FILE_PART, "=path").is_err());
}

#[test]
fn a_part_that_is_not_name_equals_value_says_so() {
    let refused = split_part(FILE_PART, "nope").unwrap_err();
    assert_eq!(refused, PartSyntax { flag: FILE_PART, raw: "nope".to_owned() });
    assert_eq!(refused.message(), "`--file nope` is not `NAME=VALUE`");
}

#[test]
fn a_help_line_puts_the_notes_after_the_description() {
    let money = Scalar::Money(None);
    assert_eq!(
        help_line(Some("The total"), &money, vec!["sends `total`".to_owned()]),
        Some("The total (e.g. 12.50; sends `total`)".to_owned())
    );
    assert_eq!(help_line(Some("The total"), &Scalar::Integer, vec![]), Some("The total".to_owned()));
    assert_eq!(help_line(None, &Scalar::Integer, vec![]), None);
    assert_eq!(help_line(None, &money, vec![]), Some("e.g. 12.50".to_owned()));
}

#[test]
fn a_renamed_flag_says_what_it_sends() {
    assert_eq!(wire(true, "page_size"), Some("sends `page_size`".to_owned()));
    assert_eq!(wire(false, "page_size"), None);
}
