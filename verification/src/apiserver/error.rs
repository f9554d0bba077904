//! Errors as a client sees them: a Kubernetes `Status`.

use vstd::prelude::*;
use vstd::string::*;

use crate::apimachinery::error::Error;
use crate::decimal::{dec, format_u64};
use crate::json::{empty_object, str_tree, Json, Numeral, Tree};
use crate::text::{
    drop_back, find, find_from, has_sub, has_suffix, law_a_character_is_dropped_at_an_end,
    law_parted_at_the_first, lemma_rfind_to, occurs_at, rfind, rfind_text,
    same, split_at_first, split_once, strip_suffix, trim, trim_back, trim_end, trim_end_char, trimmed_text, without_suffix,
};

verus! {

pub const BAD_REQUEST: u16 = 400;

pub const UNAUTHORIZED: u16 = 401;

pub const FORBIDDEN: u16 = 403;

pub const NOT_FOUND: u16 = 404;

pub const CONFLICT: u16 = 409;

pub const GONE: u16 = 410;

pub const UNSUPPORTED_MEDIA_TYPE: u16 = 415;

pub const UNPROCESSABLE_ENTITY: u16 = 422;

pub const TOO_MANY_REQUESTS: u16 = 429;

pub const INTERNAL_SERVER_ERROR: u16 = 500;

pub const SERVICE_UNAVAILABLE: u16 = 503;

/// The longest message of the store that is worth putting in a `Status`,
/// counted in characters.
pub const MAX_CAUSE: usize = 160;

/// A Kubernetes `Status` object, as it is returned on errors.
pub struct Status {
    pub api_version: String,
    pub kind: String,
    pub metadata: Json,
    pub status: String,
    pub message: String,
    pub reason: String,
    pub code: u16,
}

/// The document of a failure `Status`.
pub open spec fn failure_status(code: u16, reason: Seq<char>, message: Seq<char>) -> Tree {
    Tree::Object(
        map![
            "apiVersion"@ => str_tree("v1"),
            "kind"@ => str_tree("Status"),
            "metadata"@ => empty_object(),
            "status"@ => str_tree("Failure"),
            "message"@ => Tree::String(message),
            "reason"@ => Tree::String(reason),
            "code"@ => Tree::Number(Numeral::PosInt(code as u64)),
        ],
    )
}

impl Status {
    /// The failure with this code, reason and message.
    pub fn new(code: u16, reason: &str, message: &str) -> (r: Status)
        ensures
            r.api_version@ == "v1"@,
            r.kind@ == "Status"@,
            r.metadata@ == empty_object(),
            r.status@ == "Failure"@,
            r.message@ == message@,
            r.reason@ == reason@,
            r.code == code,
    {
        Status {
            api_version: "v1".to_owned(),
            kind: "Status".to_owned(),
            metadata: Json::object(),
            status: "Failure".to_owned(),
            message: message.to_owned(),
            reason: reason.to_owned(),
            code,
        }
    }

    /// The document, with the field names of the API.
    pub fn to_json(&self) -> (r: Json)
        ensures
            r@ == Tree::Object(
                map![
                    "apiVersion"@ => Tree::String(self.api_version@),
                    "kind"@ => Tree::String(self.kind@),
                    "metadata"@ => self.metadata@,
                    "status"@ => Tree::String(self.status@),
                    "message"@ => Tree::String(self.message@),
                    "reason"@ => Tree::String(self.reason@),
                    "code"@ => Tree::Number(Numeral::PosInt(self.code as u64)),
                ],
            ),
    {
        Json::object().with("apiVersion", Json::text(self.api_version.as_str())).with(
            "kind",
            Json::text(self.kind.as_str()),
        ).with("metadata", self.metadata.dup()).with(
            "status",
            Json::text(self.status.as_str()),
        ).with("message", Json::text(self.message.as_str())).with(
            "reason",
            Json::text(self.reason.as_str()),
        ).with("code", Json::uint(self.code as u64))
    }
}

/// An error of the API, which becomes a `Status`.
#[derive(Debug)]
pub struct ApiError {
    pub status: u16,
    pub reason: String,
    pub message: String,
}

/// What an [`ApiError`] says.
pub ghost struct ErrorView {
    pub status: u16,
    pub reason: Seq<char>,
    pub message: Seq<char>,
}

impl View for ApiError {
    type V = ErrorView;

    open spec fn view(&self) -> ErrorView {
        ErrorView { status: self.status, reason: self.reason@, message: self.message@ }
    }
}

/// The error with this status, reason and message.
pub open spec fn api_error(status: u16, reason: Seq<char>, message: Seq<char>) -> ErrorView {
    ErrorView { status, reason, message }
}

pub open spec fn err_not_found(resource: Seq<char>, name: Seq<char>) -> ErrorView {
    api_error(NOT_FOUND, "NotFound"@, resource + " \""@ + name + "\" not found"@)
}

pub open spec fn err_already_exists(resource: Seq<char>, name: Seq<char>) -> ErrorView {
    api_error(CONFLICT, "AlreadyExists"@, resource + " \""@ + name + "\" already exists"@)
}

pub open spec fn err_conflict(message: Seq<char>) -> ErrorView {
    api_error(CONFLICT, "Conflict"@, message)
}

pub open spec fn err_invalid(message: Seq<char>) -> ErrorView {
    api_error(UNPROCESSABLE_ENTITY, "Invalid"@, message)
}

pub open spec fn err_internal(message: Seq<char>) -> ErrorView {
    api_error(INTERNAL_SERVER_ERROR, "InternalError"@, message)
}

pub open spec fn err_gone(message: Seq<char>) -> ErrorView {
    api_error(GONE, "Gone"@, message)
}

pub open spec fn err_unauthorized(message: Seq<char>) -> ErrorView {
    api_error(UNAUTHORIZED, "Unauthorized"@, message)
}

pub open spec fn err_forbidden(message: Seq<char>) -> ErrorView {
    api_error(FORBIDDEN, "Forbidden"@, message)
}

pub open spec fn err_bad_request(message: Seq<char>) -> ErrorView {
    api_error(BAD_REQUEST, "BadRequest"@, message)
}

pub open spec fn err_unavailable(message: Seq<char>) -> ErrorView {
    api_error(SERVICE_UNAVAILABLE, "ServiceUnavailable"@, message)
}

impl ApiError {
    /// The error with this status, reason and message.
    pub fn new(status: u16, reason: &str, message: &str) -> (r: ApiError)
        ensures
            r@ == api_error(status, reason@, message@),
    {
        ApiError { status, reason: reason.to_owned(), message: message.to_owned() }
    }

    pub fn not_found(resource: &str, name: &str) -> (r: ApiError)
        ensures
            r@ == err_not_found(resource@, name@),
    {
        let m = resource.to_owned().concat(" \"").concat(name).concat("\" not found");
        ApiError { status: NOT_FOUND, reason: "NotFound".to_owned(), message: m }
    }

    pub fn already_exists(resource: &str, name: &str) -> (r: ApiError)
        ensures
            r@ == err_already_exists(resource@, name@),
    {
        let m = resource.to_owned().concat(" \"").concat(name).concat("\" already exists");
        ApiError { status: CONFLICT, reason: "AlreadyExists".to_owned(), message: m }
    }

    /// Did this fail because the key was already there?
    pub fn is_already_exists(&self) -> (r: bool)
        ensures
            r == (self@.reason == "AlreadyExists"@),
    {
        same(self.reason.as_str(), "AlreadyExists")
    }

    /// Did this fail because another writer came first?
    pub fn is_conflict(&self) -> (r: bool)
        ensures
            r == (self@.reason == "Conflict"@),
    {
        same(self.reason.as_str(), "Conflict")
    }

    pub fn conflict(message: &str) -> (r: ApiError)
        ensures
            r@ == err_conflict(message@),
    {
        ApiError::new(CONFLICT, "Conflict", message)
    }

    pub fn invalid(message: &str) -> (r: ApiError)
        ensures
            r@ == err_invalid(message@),
    {
        ApiError::new(UNPROCESSABLE_ENTITY, "Invalid", message)
    }

    pub fn internal(message: &str) -> (r: ApiError)
        ensures
            r@ == err_internal(message@),
    {
        ApiError::new(INTERNAL_SERVER_ERROR, "InternalError", message)
    }

    pub fn gone(message: &str) -> (r: ApiError)
        ensures
            r@ == err_gone(message@),
    {
        ApiError::new(GONE, "Gone", message)
    }

    pub fn unauthorized(message: &str) -> (r: ApiError)
        ensures
            r@ == err_unauthorized(message@),
    {
        ApiError::new(UNAUTHORIZED, "Unauthorized", message)
    }

    pub fn forbidden(message: &str) -> (r: ApiError)
        ensures
            r@ == err_forbidden(message@),
    {
        ApiError::new(FORBIDDEN, "Forbidden", message)
    }

    pub fn bad_request(message: &str) -> (r: ApiError)
        ensures
            r@ == err_bad_request(message@),
    {
        ApiError::new(BAD_REQUEST, "BadRequest", message)
    }

    /// The store cannot serve right now: 503, which a client retries, and not
    /// 500, which it takes as final.
    pub fn unavailable(message: &str) -> (r: ApiError)
        ensures
            r@ == err_unavailable(message@),
    {
        ApiError::new(SERVICE_UNAVAILABLE, "ServiceUnavailable", message)
    }

    /// The reason and the message, as one line.
    pub fn describe(&self) -> (r: String)
        ensures
            r@ == self@.reason + ": "@ + self@.message,
    {
        self.reason.clone().concat(": ").concat(self.message.as_str())
    }

    /// The body of the response: a failure `Status`.
    pub fn response_body(&self) -> (r: Json)
        ensures
            r@ == failure_status(self@.status, self@.reason, self@.message),
    {
        Status::new(self.status, self.reason.as_str(), self.message.as_str()).to_json()
    }

    /// The seconds of the `retry-after` header: one where the store is not
    /// serving, so that a retry is paced, and none otherwise.
    pub fn retry_after(&self) -> (r: Option<u64>)
        ensures
            r == (if self@.status == SERVICE_UNAVAILABLE {
                Some(1u64)
            } else {
                None
            }),
    {
        if self.status == SERVICE_UNAVAILABLE {
            Some(1)
        } else {
            None
        }
    }
}

/// The first line of a text.
pub open spec fn first_line(s: Seq<char>) -> Seq<char> {
    match split_once(s, '\n') {
        Some((line, _)) => match without_suffix(line, "\r"@) {
            Some(l) => l,
            None => line,
        },
        None => s,
    }
}

/// What stands before the first `p` in `s`; all of `s` where there is none.
pub open spec fn up_to(s: Seq<char>, p: Seq<char>) -> Seq<char> {
    match find_from(s, p, 0) {
        Some(i) => s.take(i),
        None => s,
    }
}

/// The innermost cause that one line of an error chain names.
pub open spec fn innermost(line: Seq<char>) -> Seq<char> {
    match rfind(line, "source: "@) {
        Some(i) => drop_back(
            trimmed_text(up_to(line.skip(i + "source: "@.len()), ", backtrace:"@)),
            ',',
        ),
        None => line,
    }
}

/// `s` cut to `n` characters, with an ellipsis where something was cut.
pub open spec fn shortened(s: Seq<char>, n: nat) -> Seq<char> {
    if s.len() <= n {
        s
    } else {
        trim_back(s.take(n as int)) + "…"@
    }
}

/// The cause of a failure of the store, as far as a client should see it: the
/// innermost cause on its first line, at most [`MAX_CAUSE`] characters of it.
pub open spec fn condensed(cause: Seq<char>) -> Seq<char> {
    shortened(innermost(first_line(trimmed_text(cause))), MAX_CAUSE as nat)
}

/// Cuts the message of the store down to the fault it names.
pub fn condense(cause: &str) -> (r: String)
    ensures
        r@ == condensed(cause@),
{
    let cause = trim(cause);
    let first: &str = match split_at_first(cause, '\n') {
        Some((line, _)) => match strip_suffix(line, "\r") {
            Some(l) => l,
            None => line,
        },
        None => cause,
    };
    let core: &str = match rfind_text(first, "source: ") {
        Some(i) => {
            let n: usize = "source: ".unicode_len();
            let len: usize = first.unicode_len();
            let tail = first.substring_char(i + n, len);
            assert(tail@ =~= first@.skip(i + n));
            let head = match find(tail, ", backtrace:") {
                Some(j) => {
                    let h = tail.substring_char(0, j);
                    assert(h@ =~= tail@.take(j as int));
                    h
                },
                None => tail,
            };
            trim_end_char(trim(head), ',')
        },
        None => first,
    };
    if core.unicode_len() <= MAX_CAUSE {
        return core.to_owned();
    }
    let cut = core.substring_char(0, MAX_CAUSE);
    assert(cut@ =~= core@.take(MAX_CAUSE as int));
    trim_end(cut).to_owned().concat("…")
}

/// What a client sees of a component's error.
pub open spec fn client_error(e: Error) -> ErrorView {
    match e {
        Error::NotFound(m) => api_error(NOT_FOUND, "NotFound"@, m@),
        Error::AlreadyExists(m) => api_error(CONFLICT, "AlreadyExists"@, m@),
        Error::Conflict => err_conflict("resource version mismatch"@),
        Error::Gone(rev) => err_gone(
            "resource version "@ + dec(rev as nat) + " has been compacted"@,
        ),
        Error::Unauthorized(m) => err_unauthorized(m@),
        Error::Forbidden(m) => err_forbidden(m@),
        Error::Invalid(m) => err_invalid(m@),
        Error::Unavailable(cause) => err_unavailable(
            "datastore unavailable: "@ + condensed(cause@),
        ),
        _ => err_internal(e.description()),
    }
}

/// The error of the API for a component's error.
pub fn from_error(e: &Error) -> (r: ApiError)
    ensures
        r@ == client_error(*e),
{
    match e {
        Error::NotFound(m) => ApiError::new(NOT_FOUND, "NotFound", m.as_str()),
        Error::AlreadyExists(m) => ApiError::new(CONFLICT, "AlreadyExists", m.as_str()),
        Error::Conflict => ApiError::conflict("resource version mismatch"),
        Error::Gone(rev) => {
            let n = format_u64(*rev);
            let m = "resource version ".to_owned().concat(n.as_str()).concat(
                " has been compacted",
            );
            ApiError::gone(m.as_str())
        },
        Error::Unauthorized(m) => ApiError::unauthorized(m.as_str()),
        Error::Forbidden(m) => ApiError::forbidden(m.as_str()),
        Error::Invalid(m) => ApiError::invalid(m.as_str()),
        Error::Unavailable(cause) => {
            let c = condense(cause.as_str());
            let m = "datastore unavailable: ".to_owned().concat(c.as_str());
            ApiError::unavailable(m.as_str())
        },
        _ => {
            let m = e.describe();
            ApiError::internal(m.as_str())
        },
    }
}

/// A condensed cause has at most [`MAX_CAUSE`] characters and an ellipsis.
pub proof fn law_condensed_is_short(cause: Seq<char>)
    ensures
        condensed(cause).len() <= MAX_CAUSE + 1,
{
    let core = innermost(first_line(trimmed_text(cause)));
    reveal_strlit("…");
    if core.len() > MAX_CAUSE {
        lemma_trim_back_shortens(core.take(MAX_CAUSE as int));
    }
}

proof fn lemma_trim_back_shortens(s: Seq<char>)
    ensures
        trim_back(s).len() <= s.len(),
    decreases s.len(),
{
    if s.len() > 0 && crate::text::is_white(s.last()) {
        lemma_trim_back_shortens(s.drop_last());
    }
}

/// A store that is not serving is a 503, and nothing else is.
pub proof fn law_only_an_unavailable_store_is_503(e: Error)
    ensures
        client_error(e).status == SERVICE_UNAVAILABLE <==> e is Unavailable,
{
}

/// Each error has the code and the reason that clients know it by.
pub proof fn law_errors_have_their_codes(a: Seq<char>, b: Seq<char>)
    ensures
        err_not_found(a, b).status == 404 && err_not_found(a, b).reason == "NotFound"@,
        err_already_exists(a, b).status == 409 && err_already_exists(a, b).reason
            == "AlreadyExists"@,
        err_conflict(a).status == 409 && err_conflict(a).reason == "Conflict"@ && err_conflict(
            a,
        ).message == a,
        err_invalid(a).status == 422 && err_invalid(a).reason == "Invalid"@ && err_invalid(a).message
            == a,
        err_internal(a).status == 500 && err_internal(a).reason == "InternalError"@
            && err_internal(a).message == a,
        err_gone(a).status == 410 && err_gone(a).reason == "Gone"@,
        err_unauthorized(a).status == 401 && err_unauthorized(a).reason == "Unauthorized"@,
        err_forbidden(a).status == 403 && err_forbidden(a).reason == "Forbidden"@
            && err_forbidden(a).message == a,
        err_bad_request(a).status == 400 && err_bad_request(a).reason == "BadRequest"@,
        err_unavailable(a).status == 503 && err_unavailable(a).reason == "ServiceUnavailable"@,
{
}

/// The document of a failure says its code, its reason and its message.
pub proof fn law_a_failure_says_why(code: u16, reason: Seq<char>, message: Seq<char>)
    ensures
        ({
            let d = failure_status(code, reason, message);
            &&& d.at("kind"@) == str_tree("Status")
            &&& d.at("apiVersion"@) == str_tree("v1")
            &&& d.at("status"@) == str_tree("Failure")
            &&& d.at("message"@) == Tree::String(message)
            &&& d.at("reason"@) == Tree::String(reason)
            &&& d.at("code"@) == Tree::Number(Numeral::PosInt(code as u64))
        }),
{
    reveal_strlit("apiVersion");
    reveal_strlit("kind");
    reveal_strlit("metadata");
    reveal_strlit("status");
    reveal_strlit("message");
    reveal_strlit("reason");
    reveal_strlit("code");
    assert("apiVersion"@.len() == 10);
    assert("kind"@.len() == 4);
    assert("metadata"@.len() == 8);
    assert("status"@.len() == 6);
    assert("message"@.len() == 7);
    assert("reason"@.len() == 6);
    assert("code"@.len() == 4);
    assert("kind"@[0] == 'k');
    assert("code"@[0] == 'c');
    assert("status"@[0] == 's');
    assert("reason"@[0] == 'r');
}

/// What a component's error is to a client: one that names no key is not found, one that is
/// there already exists, a version that moved on is a conflict, a compacted one is gone.
pub proof fn law_a_component_error_keeps_its_meaning(m: String, rev: u64)
    ensures
        client_error(Error::NotFound(m)).status == 404,
        client_error(Error::NotFound(m)).message == m@,
        client_error(Error::AlreadyExists(m)).status == 409,
        client_error(Error::AlreadyExists(m)).reason == "AlreadyExists"@,
        client_error(Error::Conflict).status == 409,
        client_error(Error::Conflict).reason == "Conflict"@,
        client_error(Error::Gone(rev)).status == 410,
        client_error(Error::Unauthorized(m)).status == 401,
        client_error(Error::Forbidden(m)).status == 403,
        client_error(Error::Invalid(m)).status == 422,
        client_error(Error::Invalid(m)).message == m@,
        client_error(Error::Unavailable(m)).status == 503,
{
}

/// What a client is told of a cause is its first line, whole where it is short.
pub proof fn law_a_short_cause_is_told_as_it_is(line: Seq<char>, rest: Seq<char>)
    requires
        0 < line.len() <= 160,
        !line.contains('\n'),
        !crate::text::is_white(line[0]),
        !crate::text::is_white(line.last()),
        !has_sub(line, "source: "@),
        rest.len() > 0,
        !crate::text::is_white(rest.last()),
    ensures
        condensed(line) == line,
        condensed(line + seq!['\n'] + rest) == line,
{
    let whole = line + seq!['\n'] + rest;
    lemma_no_source(line);
    lemma_kept_whole(line);
    assert(whole.last() == rest.last());
    assert(whole[0] == line[0]);
    lemma_kept_whole(whole);
    lemma_line_before(line, rest);
}

proof fn lemma_no_source(line: Seq<char>)
    requires
        !has_sub(line, "source: "@),
    ensures
        rfind(line, "source: "@) is None,
{
    lemma_rfind_to(line, "source: "@, line.len() - "source: "@.len());
    if rfind(line, "source: "@) is Some {
        assert(occurs_at(line, "source: "@, rfind(line, "source: "@)->0));
    }
}

proof fn lemma_kept_whole(s: Seq<char>)
    requires
        s.len() > 0,
        !crate::text::is_white(s[0]),
        !crate::text::is_white(s.last()),
    ensures
        trimmed_text(s) == s,
{
}

proof fn lemma_line_before(line: Seq<char>, rest: Seq<char>)
    requires
        line.len() > 0,
        !line.contains('\n'),
        !crate::text::is_white(line.last()),
    ensures
        first_line(line) == line,
        first_line(line + seq!['\n'] + rest) == line,
{
    law_parted_at_the_first(line, '\n', rest);
    reveal_strlit("\r");
    if has_suffix(line, "\r"@) {
        assert(line.subrange(line.len() - 1, line.len() as int)[0] == "\r"@[0]);
        assert(line.last() == '\r');
    }
}

/// Of a cause that names others behind it, the last is told, without what leads to it and
/// without a trace.
pub proof fn law_the_innermost_cause_is_told(
    outer: Seq<char>,
    cause: Seq<char>,
    trace: Seq<char>,
)
    requires
        cause.len() > 0,
        !crate::text::is_white(cause[0]),
        !crate::text::is_white(cause.last()),
        cause.last() != ',',
    ensures
        ({
            let line = outer + "source: "@ + cause;
            rfind(line, "source: "@) == Some(outer.len() as int) && find_from(
                cause,
                ", backtrace:"@,
                0,
            ) is None ==> innermost(line) == cause
        }),
        ({
            let tail = cause + ", backtrace:"@ + trace;
            let line = outer + "source: "@ + tail;
            rfind(line, "source: "@) == Some(outer.len() as int) && find_from(
                tail,
                ", backtrace:"@,
                0,
            ) == Some(cause.len() as int) ==> innermost(line) == cause
        }),
{
    let tail = cause + ", backtrace:"@ + trace;
    let n = outer.len() + "source: "@.len();
    assert((outer + "source: "@ + cause).skip(n as int) =~= cause);
    assert((outer + "source: "@ + tail).skip(n as int) =~= tail);
    assert(tail.take(cause.len() as int) =~= cause);
    lemma_kept_whole(cause);
    law_a_character_is_dropped_at_an_end(cause, ',');
}

/// A cause that is too long is cut, and says so.
pub proof fn law_a_long_cause_is_cut(s: Seq<char>, n: nat)
    requires
        s.len() > n > 0,
        !crate::text::is_white(s[n - 1]),
    ensures
        shortened(s, n) == s.take(n as int) + "…"@,
        shortened(s, s.len()) == s,
{
    assert(s.take(n as int).last() == s[n - 1]);
}

} // verus!
