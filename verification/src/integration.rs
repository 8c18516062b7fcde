//! What web frameworks do with a served directory.

use crate::error::SerdirError;
use crate::headers::{header_entries, method_name, status_code};
use crate::resource::Resource;
use crate::served_dir::{can_answer, is_answerable, is_valid, reason_or_unknown, ServedDir};
use crate::serving::{plain, response_to, serve, Response};
use http::{HeaderMap, HeaderValue, Method};
use std::time::SystemTime;
use vstd::prelude::*;

verus! {

/// What middleware does with a request.
pub enum MiddlewareAction {
    /// It responds.
    Respond(Response),
    /// It passes the request on to the service that it is wrapped around.
    PassOn,
}

/// Whether a failure means that the request is not for the served directory.
pub open spec fn is_passed_on(e: SerdirError) -> bool {
    e == SerdirError::NotFound(None) || e is IsDirectory || e is InvalidPath
}

/// Whether `r` is what middleware does with a request that came to `result`.
pub open spec fn is_action(
    result: Result<Resource, SerdirError>,
    method: Seq<char>,
    req: Seq<(Seq<char>, Seq<Seq<u8>>)>,
    now: SystemTime,
    r: MiddlewareAction,
) -> bool {
    match result {
        Ok(ent) => r matches MiddlewareAction::Respond(resp) && resp.is(
            response_to(method, req, ent@, 200, now),
            ent@.content,
        ),
        Err(SerdirError::NotFound(Some(ent))) => r matches MiddlewareAction::Respond(resp)
            && resp.is(response_to(method, req, ent@, 404, now), ent@.content),
        Err(e) => if is_passed_on(e) {
            r is PassOn
        } else {
            r matches MiddlewareAction::Respond(resp) && resp.is(
                plain(500, reason_or_unknown(500)),
                None,
            )
        },
    }
}

/// Decides what middleware does with a request from what it came to in the served
/// directory. It responds with what was found, or with the page that says that nothing was;
/// if there is no such page, the request is passed on. Unexpected errors are reported to the
/// client without details.
pub fn middleware_action(
    result: Result<Resource, SerdirError>,
    method: &Method,
    req_hdrs: &HeaderMap<HeaderValue>,
    now: SystemTime,
) -> (r: MiddlewareAction)
    requires
        is_valid(result),
        is_answerable(result, method_name(*method), header_entries(*req_hdrs), now),
    ensures
        is_action(result, method_name(*method), header_entries(*req_hdrs), now, r),
{
    match result {
        Ok(ent) => MiddlewareAction::Respond(serve(ent, method, req_hdrs, status_code(200), now)),
        Err(SerdirError::NotFound(Some(ent))) => MiddlewareAction::Respond(
            serve(ent, method, req_hdrs, status_code(404), now),
        ),
        Err(SerdirError::NotFound(None)) => MiddlewareAction::PassOn,
        Err(SerdirError::IsDirectory(_)) => MiddlewareAction::PassOn,
        Err(SerdirError::InvalidPath(_)) => MiddlewareAction::PassOn,
        Err(_) => MiddlewareAction::Respond(ServedDir::make_status_response(status_code(500))),
    }
}

/// Decides what middleware does with a request, unless a date would have to be written that
/// has no HTTP form.
pub fn try_middleware_action(
    result: Result<Resource, SerdirError>,
    method: &Method,
    req_hdrs: &HeaderMap<HeaderValue>,
    now: SystemTime,
) -> (r: Option<MiddlewareAction>)
    requires
        is_valid(result),
    ensures
        match r {
            Some(action) => is_answerable(
                result,
                method_name(*method),
                header_entries(*req_hdrs),
                now,
            ) && is_action(
                result,
                method_name(*method),
                header_entries(*req_hdrs),
                now,
                action,
            ),
            None => !is_answerable(result, method_name(*method), header_entries(*req_hdrs), now),
        },
{
    if can_answer(&result, method, req_hdrs, now) {
        Some(middleware_action(result, method, req_hdrs, now))
    } else {
        None
    }
}

/// Middleware passes a request on only where the service on its own would say that there is
/// nothing, or that the path is bad; it never hides an internal error or something that was
/// found.
pub proof fn only_client_errors_are_passed_on(e: SerdirError)
    ensures
        is_passed_on(e) ==> e.status() == 404 || e.status() == 400,
        e.status() == 500 ==> !is_passed_on(e),
{
}

} // verus!
