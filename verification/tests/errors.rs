use spark_api::error::{found, Error};

#[test]
fn each_error_has_its_status_and_text() {
    let cases = [
        (Error::NotFound("application"), 404, "application not found"),
        (Error::Invalid("bad".to_string()), 400, "bad"),
        (Error::Unauthorized, 401, "authentication required"),
        (Error::Forbidden, 403, "not permitted"),
        (Error::Conflict("taken".to_string()), 409, "taken"),
        (Error::Database("pg: refused".to_string()), 500, "pg: refused"),
        (Error::Kube("api down".to_string()), 500, "api down"),
        (Error::Internal("oops".to_string()), 500, "oops"),
    ];
    for (e, status, text) in cases {
        assert_eq!(e.status(), status);
        assert_eq!(e.message(), text);
    }
}

#[test]
fn server_errors_hide_their_detail() {
    assert_eq!(Error::Database("password=hunter2".to_string()).public_message(), "internal server error");
    assert_eq!(Error::Kube("x".to_string()).public_message(), "internal server error");
    assert_eq!(Error::Conflict("taken".to_string()).public_message(), "taken");
    assert_eq!(Error::NotFound("domain").public_message(), "domain not found");
}

#[test]
fn a_missing_record_is_not_found() {
    assert_eq!(found(Some(3), "application").ok(), Some(3));
    assert!(matches!(found::<i32>(None, "deployment"), Err(Error::NotFound("deployment"))));
}
