use xlsplice::error::{EXIT_DIFFERENT, EXIT_SUCCESS, Error, ErrorCode};

/// The table is frozen. These literals are transcribed, not derived from the
/// code, so a renumbering fails the test.
const TABLE: [(ErrorCode, &str, u8); 5] = [
    (ErrorCode::Internal, "internal", 1),
    (ErrorCode::Usage, "usage", 2),
    (ErrorCode::NotFound, "not_found", 3),
    (ErrorCode::Refused, "refused", 4),
    (ErrorCode::Unreadable, "unreadable", 5),
];

#[test]
fn every_code_has_its_frozen_name_and_exit_code() {
    for (code, name, exit) in TABLE {
        assert_eq!(code.as_str(), name);
        assert_eq!(code.exit_code(), exit);
    }
}

#[test]
fn success_is_exit_zero_and_no_error_code_claims_it() {
    assert_eq!(EXIT_SUCCESS, 0);
    assert!(ErrorCode::ALL.iter().all(|c| c.exit_code() != EXIT_SUCCESS));
}

#[test]
fn the_table_lists_every_code_exactly_once() {
    assert_eq!(ErrorCode::ALL.len(), TABLE.len());
    for (code, _, _) in TABLE {
        assert_eq!(ErrorCode::ALL.iter().filter(|c| **c == code).count(), 1);
    }
}

#[test]
fn saying_where_a_failure_happened_keeps_the_code_it_had() {
    let err = Error::unreadable("not valid XML").within("xl/worksheets/sheet1.xml");

    assert_eq!(err.code(), ErrorCode::Unreadable);
    assert_eq!(err.message(), "xl/worksheets/sheet1.xml: not valid XML");
}

#[test]
fn an_error_carries_its_code_and_message() {
    let err = Error::not_found("no sheet named 'Inputs'; the package has: Sheet1");
    assert_eq!(err.code(), ErrorCode::NotFound);
    assert_eq!(err.exit_code(), 3);
    assert_eq!(err.message(), "no sheet named 'Inputs'; the package has: Sheet1");
    assert_eq!(err.to_string(), "no sheet named 'Inputs'; the package has: Sheet1");
}

#[test]
fn the_codes_come_back_in_exit_code_order_from_one() {
    let exits: Vec<u8> = ErrorCode::all().iter().map(|c| c.exit_code()).collect();
    assert_eq!(exits, [1, 2, 3, 4, 5]);
    assert_eq!(EXIT_DIFFERENT, 1);
}

#[test]
fn each_kind_of_error_carries_its_own_code() {
    assert_eq!(Error::internal("x").code(), ErrorCode::Internal);
    assert_eq!(Error::usage("x").code(), ErrorCode::Usage);
    assert_eq!(Error::refused("x").code(), ErrorCode::Refused);
    assert_eq!(Error::new(ErrorCode::Usage, "y").message(), "y");
    assert_eq!(Error::refused("x").exit_code(), 4);
}
