use typed_openapi::reduce::{is_transport, ConfirmationError, Loading};

#[test]
fn the_confirmation_is_commit_unless_chosen() {
    assert_eq!(Loading::new().word(), "commit");
    assert_eq!(Loading::new().commit("Yes").unwrap().word(), "yes");
}

#[test]
fn a_confirmation_nobody_can_type_or_that_is_taken_is_refused() {
    let spelling = Loading::new().commit("%%").unwrap_err();
    assert!(matches!(spelling, ConfirmationError::Spelling(_)));
    assert_eq!(
        spelling.message(),
        "the confirmation `%%` does not kebab-case into [a-z0-9-]"
    );
    let taken = Loading::new().commit("help").unwrap_err();
    assert_eq!(
        taken.message(),
        "`help` is a flag every subcommand already declares, so it cannot also be the word this CLI confirms with"
    );
    assert!(matches!(Loading::new().commit("jsonBody"), Err(ConfirmationError::Taken { .. })));
    assert!(is_transport("raw-body"));
    assert!(!is_transport("commit"));
}
