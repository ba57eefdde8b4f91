use vstd::prelude::*;

verus! {

/// The error codes a response can carry; each stands for an HTTP status.
#[derive(Debug, Clone, Copy, PartialEq, Eq, Structural)]
pub enum ErrCode {
    Success,
    BadRequest,
    UnAuthorized,
    NotFound,
    Forbiden,
    MethodNotAllowed,
    InternalServerError,
}

/// The HTTP status that an error code stands for.
pub open spec fn status_of(code: ErrCode) -> u16 {
    match code {
        ErrCode::Success => 200,
        ErrCode::BadRequest => 400,
        ErrCode::UnAuthorized => 401,
        ErrCode::NotFound => 404,
        ErrCode::Forbiden => 403,
        ErrCode::MethodNotAllowed => 405,
        ErrCode::InternalServerError => 500,
    }
}

/// The error code that a numeric status is read as: the known statuses map
/// back to their code, every other number to `InternalServerError`.
pub open spec fn code_of_status(code: u16) -> ErrCode {
    if code == 200 {
        ErrCode::Success
    } else if code == 400 {
        ErrCode::BadRequest
    } else if code == 401 {
        ErrCode::UnAuthorized
    } else if code == 403 {
        ErrCode::Forbiden
    } else if code == 404 {
        ErrCode::NotFound
    } else if code == 405 {
        ErrCode::MethodNotAllowed
    } else {
        ErrCode::InternalServerError
    }
}

impl ErrCode {
    pub fn to_u16(&self) -> (r: u16)
        ensures
            r == status_of(*self),
    {
        match self {
            ErrCode::Success => 200,
            ErrCode::BadRequest => 400,
            ErrCode::UnAuthorized => 401,
            ErrCode::NotFound => 404,
            ErrCode::Forbiden => 403,
            ErrCode::MethodNotAllowed => 405,
            ErrCode::InternalServerError => 500,
        }
    }
}

/// Status and message of a response.
#[derive(Debug, Clone)]
pub struct Meta {
    pub err_code: ErrCode,
    pub err_message: String,
}

impl Meta {
    /// Builds the metadata for a numeric status and a message.
    pub fn from(code: u16, err_message: &str) -> (r: Meta)
        ensures
            r.err_code == code_of_status(code),
            r.err_message@ == err_message@,
    {
        let err_code = if code == 200 {
            ErrCode::Success
        } else if code == 400 {
            ErrCode::BadRequest
        } else if code == 401 {
            ErrCode::UnAuthorized
        } else if code == 403 {
            ErrCode::Forbiden
        } else if code == 404 {
            ErrCode::NotFound
        } else if code == 405 {
            ErrCode::MethodNotAllowed
        } else {
            ErrCode::InternalServerError
        };
        Meta { err_code, err_message: err_message.to_owned() }
    }
}

impl Default for Meta {
    fn default() -> (r: Meta)
        ensures
            r.err_code == ErrCode::Success,
            r.err_message@ == Seq::<char>::empty(),
    {
        Meta { err_code: ErrCode::Success, err_message: String::new() }
    }
}

/// A response: its metadata and, on success, a body.
pub struct Response<B> {
    pub meta: Meta,
    pub body: Option<B>,
}

impl<B> Response<B> {
    /// Turns the outcome of a handler into a response: a success carries the
    /// body under the default metadata, a failure carries its metadata and no body.
    pub fn from(result: Result<B, Meta>) -> (r: Response<B>)
        ensures
            match result {
                Ok(body) => r.meta.err_code == ErrCode::Success && r.meta.err_message@
                    == Seq::<char>::empty() && r.body == Some(body),
                Err(meta) => r.meta == meta && r.body.is_none(),
            },
    {
        match result {
            Ok(body) => Response { meta: Meta::default(), body: Some(body) },
            Err(meta) => Response { meta, body: None },
        }
    }
}

/// Reading back the status of a code gives the code again.
pub proof fn lemma_status_round_trip(code: ErrCode)
    ensures
        code_of_status(status_of(code)) == code,
{
}

} // verus!
