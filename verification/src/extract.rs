use vstd::prelude::*;
use crate::response::{ErrCode, Meta, Response};

verus! {

/// The body-size limit for the `large` setting (2 GiB).
pub const LARGE_LIMIT: u64 = 2048 * 1024 * 1024;

/// The body-size limit for the `medium` setting (1 GiB).
pub const MEDIUM_LIMIT: u64 = 1024 * 1024 * 1024;

/// The body-size limit for the `small` setting (512 MiB).
pub const SMALL_LIMIT: u64 = 512 * 1024 * 1024;

/// The body-size limit that a `CONTENT_LENGTH_LIMIT` setting stands for; an
/// unknown setting allows no body at all.
pub open spec fn limit_for(setting: Seq<char>) -> u64 {
    if setting == "large"@ {
        LARGE_LIMIT
    } else if setting == "medium"@ {
        MEDIUM_LIMIT
    } else if setting == "small"@ {
        SMALL_LIMIT
    } else {
        0
    }
}

/// Whether two strings hold the same characters.
fn same_text(a: &str, b: &str) -> (r: bool)
    ensures
        r == (a@ == b@),
{
    a.to_owned() == b.to_owned()
}

/// The body-size limit for a `CONTENT_LENGTH_LIMIT` setting.
pub fn content_length_limit(setting: &str) -> (r: u64)
    ensures
        r == limit_for(setting@),
{
    if same_text(setting, "large") {
        LARGE_LIMIT
    } else if same_text(setting, "medium") {
        MEDIUM_LIMIT
    } else if same_text(setting, "small") {
        SMALL_LIMIT
    } else {
        0
    }
}

/// Whether a header value reads as text: every byte is visible ASCII or a tab.
pub open spec fn header_is_text(value: Seq<u8>) -> bool {
    forall|i: int| 0 <= i < value.len() ==> (32 <= #[trigger] value[i] < 127 || value[i] == 9)
}

/// Whether every byte is an ASCII digit.
pub open spec fn all_digits(s: Seq<u8>) -> bool {
    forall|i: int| 0 <= i < s.len() ==> 48 <= #[trigger] s[i] <= 57
}

/// The number that a string of ASCII digits writes in decimal.
pub open spec fn decimal_value(s: Seq<u8>) -> nat
    decreases s.len(),
{
    if s.len() == 0 {
        0
    } else {
        decimal_value(s.drop_last()) * 10 + (s.last() - 48) as nat
    }
}

/// The digits of an unsigned number as text, after an optional `+`.
pub open spec fn unsigned_digits(s: Seq<u8>) -> Seq<u8> {
    if s.len() > 0 && s[0] == 43 {
        s.drop_first()
    } else {
        s
    }
}

/// What a `Content-Length` header value reads as: a header that is text and
/// holds an unsigned decimal number (an optional `+`, then at least one
/// digit) that fits in 64 bits; anything else reads as no length.
pub open spec fn content_length_value(value: Seq<u8>) -> Option<u64> {
    let d = unsigned_digits(value);
    if header_is_text(value) && d.len() > 0 && all_digits(d) && decimal_value(d) <= u64::MAX {
        Some(decimal_value(d) as u64)
    } else {
        None
    }
}

proof fn lemma_decimal_value_grows(s: Seq<u8>, i: int)
    requires
        all_digits(s),
        0 <= i <= s.len(),
    ensures
        decimal_value(s.take(i)) <= decimal_value(s),
    decreases s.len() - i,
{
    if i < s.len() {
        lemma_decimal_value_grows(s, i + 1);
        assert(s.take(i + 1).drop_last() =~= s.take(i));
        assert(decimal_value(s.take(i + 1)) == decimal_value(s.take(i)) * 10 + (s[i] - 48) as nat);
    } else {
        assert(s.take(i) =~= s);
    }
}

/// Reads a `Content-Length` header value.
pub fn parse_content_length(value: &[u8]) -> (r: Option<u64>)
    ensures
        r == content_length_value(value@),
{
    let n = value.len();
    let mut i: usize = 0;
    while i < n
        invariant
            n == value@.len(),
            0 <= i <= n,
            forall|j: int| 0 <= j < i ==> (32 <= #[trigger] value@[j] < 127 || value@[j] == 9),
        decreases n - i,
    {
        let b = value[i];
        if !((32 <= b && b < 127) || b == 9) {
            proof {
                assert(value@[i as int] == b);
            }
            return None;
        }
        i = i + 1;
    }
    let start: usize = if n > 0 && value[0] == 43 { 1 } else { 0 };
    let ghost d = unsigned_digits(value@);
    proof {
        assert(d =~= value@.subrange(start as int, n as int));
    }
    if start == n {
        return None;
    }
    let mut acc: u64 = 0;
    let mut k: usize = start;
    while k < n
        invariant
            n == value@.len(),
            start <= k <= n,
            header_is_text(value@),
            d == unsigned_digits(value@),
            d =~= value@.subrange(start as int, n as int),
            forall|j: int| start <= j < k ==> 48 <= #[trigger] value@[j] <= 57,
            acc == decimal_value(d.take(k - start)),
        decreases n - k,
    {
        let b = value[k];
        if !(48 <= b && b <= 57) {
            proof {
                assert(d[k - start] == b);
                assert(!all_digits(d));
            }
            return None;
        }
        let digit: u64 = (b - 48) as u64;
        proof {
            assert(d.take(k + 1 - start).drop_last() =~= d.take(k - start));
            assert(d.take(k + 1 - start).last() == b);
        }
        if acc > (u64::MAX - digit) / 10 {
            proof {
                assert(acc * 10 + digit > u64::MAX) by (nonlinear_arith)
                    requires
                        acc > (u64::MAX - digit) / 10,
                        digit <= 9,
                ;
                assert(decimal_value(d.take(k + 1 - start)) == acc * 10 + digit);
                if all_digits(d) {
                    lemma_decimal_value_grows(d, k + 1 - start);
                }
            }
            return None;
        }
        proof {
            assert(acc * 10 + digit <= u64::MAX) by (nonlinear_arith)
                requires
                    acc <= (u64::MAX - digit) / 10,
                    digit <= 9,
            ;
        }
        acc = acc * 10 + digit;
        k = k + 1;
    }
    proof {
        assert(d.take(n - start) =~= d);
        assert(all_digits(d));
    }
    Some(acc)
}

/// Whether a `Transfer-Encoding` header value is exactly `chunked`.
pub fn is_chunked(value: &[u8]) -> (r: bool)
    ensures
        r == (value@ == seq![99u8, 104, 117, 110, 107, 101, 100]),
{
    let word: [u8; 7] = [99, 104, 117, 110, 107, 101, 100];
    if value.len() != 7 {
        proof {
            assert(value@.len() != seq![99u8, 104, 117, 110, 107, 101, 100].len());
        }
        return false;
    }
    let mut i: usize = 0;
    while i < 7
        invariant
            value@.len() == 7,
            word@ == seq![99u8, 104, 117, 110, 107, 101, 100],
            0 <= i <= 7,
            forall|j: int| 0 <= j < i ==> value@[j] == word@[j],
        decreases 7 - i,
    {
        if value[i] != word[i] {
            return false;
        }
        i = i + 1;
    }
    proof {
        assert(value@ =~= word@);
    }
    true
}

/// A request body that passed the size checks.
pub struct DynContentLengthLimit<T>(pub T);

/// A refusal: the HTTP status and the response that explains it.
pub type Rejection = (u16, Response<()>);

/// `r` refuses with `status`, `code` and `message`, and carries no body.
pub open spec fn refuses(r: Rejection, status: u16, code: ErrCode, message: Seq<char>) -> bool {
    &&& r.0 == status
    &&& r.1.meta.err_code == code
    &&& r.1.meta.err_message@ == message
    &&& r.1.body is None
}

fn rejection(status: u16, code: ErrCode, message: &str) -> (r: Rejection)
    ensures
        refuses(r, status, code, message@),
{
    (status, Response { meta: Meta { err_code: code, err_message: message.to_owned() }, body: None })
}

/// Decides whether a request may go on to have its body read.
/// `bodiless_method` tells a `GET`, `HEAD` or `OPTIONS` request;
/// `content_length` is its `Content-Length` header read as a number, if it
/// has one; `chunked` tells a `Transfer-Encoding: chunked` header.
pub fn check_content_length(
    bodiless_method: bool,
    content_length: Option<u64>,
    chunked: bool,
    limit: u64,
) -> (r: Result<(), Rejection>)
    ensures
        bodiless_method && content_length is Some ==> r is Err && refuses(
            r->Err_0,
            405,
            ErrCode::MethodNotAllowed,
            "`GET`, `HEAD`, `OPTIONS` requests are not allowed to have a `Content-Length` header"@,
        ),
        bodiless_method && content_length is None && chunked ==> r is Err && refuses(
            r->Err_0,
            400,
            ErrCode::BadRequest,
            "Content length header is required"@,
        ),
        bodiless_method && content_length is None && !chunked ==> r is Ok,
        !bodiless_method && content_length is None ==> r is Err && refuses(
            r->Err_0,
            400,
            ErrCode::BadRequest,
            "Content length header is required"@,
        ),
        !bodiless_method && content_length is Some && content_length->Some_0 > limit ==> r is Err
            && refuses(r->Err_0, 400, ErrCode::BadRequest, "Request payload is too large"@),
        !bodiless_method && content_length is Some && content_length->Some_0 <= limit ==> r is Ok,
{
    if bodiless_method {
        if content_length.is_some() {
            return Err(
                rejection(
                    405,
                    ErrCode::MethodNotAllowed,
                    "`GET`, `HEAD`, `OPTIONS` requests are not allowed to have a `Content-Length` header",
                ),
            );
        } else if chunked {
            return Err(rejection(400, ErrCode::BadRequest, "Content length header is required"));
        }
        Ok(())
    } else {
        match content_length {
            Some(n) => {
                if n > limit {
                    Err(rejection(400, ErrCode::BadRequest, "Request payload is too large"))
                } else {
                    Ok(())
                }
            },
            None => Err(rejection(400, ErrCode::BadRequest, "Content length header is required")),
        }
    }
}

/// Wraps the body that the inner extractor produced; an inner failure is
/// refused as a bad request.
pub fn finish_extract<T, E>(inner: Result<T, E>) -> (r: Result<DynContentLengthLimit<T>, Rejection>)
    ensures
        match inner {
            Ok(v) => r is Ok && r->Ok_0.0 == v,
            Err(_) => r is Err && refuses(
                r->Err_0,
                400,
                ErrCode::BadRequest,
                "Content length header is required"@,
            ),
        },
{
    match inner {
        Ok(value) => Ok(DynContentLengthLimit(value)),
        Err(_) => Err(rejection(400, ErrCode::BadRequest, "Content length header is required")),
    }
}

} // verus!
