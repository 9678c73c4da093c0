use hype::status::{Status, NOT_FOUND, OK};

#[test]
fn status_it_works() {
    assert_eq!(Status::from(OK).code, 200);
    assert_eq!(Status::from(OK).text, "OK");
}

#[test]
fn it_works_with_var() {
    let code = Status::from(NOT_FOUND);
    assert_eq!(code.code, 404);
}
