use utils::response::{ErrCode, Meta, Response};

#[test]
fn codes_map_to_statuses() {
    assert_eq!(ErrCode::Success.to_u16(), 200);
    assert_eq!(ErrCode::BadRequest.to_u16(), 400);
    assert_eq!(ErrCode::UnAuthorized.to_u16(), 401);
    assert_eq!(ErrCode::NotFound.to_u16(), 404);
    assert_eq!(ErrCode::Forbiden.to_u16(), 403);
    assert_eq!(ErrCode::MethodNotAllowed.to_u16(), 405);
    assert_eq!(ErrCode::InternalServerError.to_u16(), 500);
}

#[test]
fn statuses_round_trip() {
    for code in [
        ErrCode::Success,
        ErrCode::BadRequest,
        ErrCode::UnAuthorized,
        ErrCode::NotFound,
        ErrCode::Forbiden,
        ErrCode::MethodNotAllowed,
        ErrCode::InternalServerError,
    ] {
        assert_eq!(Meta::from(code.to_u16(), "x").err_code, code);
    }
}

#[test]
fn unknown_status_is_server_error() {
    let m = Meta::from(418, "teapot");
    assert_eq!(m.err_code, ErrCode::InternalServerError);
    assert_eq!(m.err_message, "teapot");
}

#[test]
fn default_meta_is_ok_and_empty() {
    let m = Meta::default();
    assert_eq!(m.err_code, ErrCode::Success);
    assert_eq!(m.err_message, "");
}

#[test]
fn response_from_result() {
    let ok: Response<u32> = Response::from(Ok(5));
    assert_eq!(ok.meta.err_code, ErrCode::Success);
    assert_eq!(ok.body, Some(5));
    let err: Response<u32> = Response::from(Err(Meta::from(404, "gone")));
    assert_eq!(err.meta.err_code, ErrCode::NotFound);
    assert_eq!(err.meta.err_message, "gone");
    assert_eq!(err.body, None);
}
