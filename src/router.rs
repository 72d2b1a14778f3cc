//! Route selection from the method and the target alone.
use vstd::prelude::*;

use crate::request::HttpMethod;
use crate::text::{ascii_bytes, ascii_vec, bytes_eq, has_prefix, starts_with};

verus! {

/// The handler that a request goes to.
#[derive(PartialEq, Eq, Structural, Clone, Copy, Debug)]
pub enum Route {
    RootProbe,
    Echo,
    UserAgent,
    FileRead,
    FileWrite,
    NotFoundRoute,
}

/// The root target `/`.
pub open spec fn root_path() -> Seq<u8> {
    ascii_bytes("/"@)
}

/// The prefix of echo targets.
pub open spec fn echo_prefix() -> Seq<u8> {
    ascii_bytes("/echo/"@)
}

/// The target that reflects the client's `User-Agent`.
pub open spec fn user_agent_path() -> Seq<u8> {
    ascii_bytes("/user-agent"@)
}

/// The prefix of file targets.
pub open spec fn files_prefix() -> Seq<u8> {
    ascii_bytes("/files/"@)
}

/// The route of a request: the first of these rules that matches.
pub open spec fn route_of(method: HttpMethod, target: Seq<u8>) -> Route {
    if target == root_path() {
        Route::RootProbe
    } else if has_prefix(target, echo_prefix()) {
        Route::Echo
    } else if target == user_agent_path() {
        Route::UserAgent
    } else if has_prefix(target, files_prefix()) && method == HttpMethod::Get {
        Route::FileRead
    } else if has_prefix(target, files_prefix()) && method == HttpMethod::Post {
        Route::FileWrite
    } else {
        Route::NotFoundRoute
    }
}

/// Selects the route of a request.
pub fn route(method: HttpMethod, target: &[u8]) -> (r: Route)
    ensures
        r == route_of(method, target@),
{
    proof {
        reveal_strlit("/");
        reveal_strlit("/echo/");
        reveal_strlit("/user-agent");
        reveal_strlit("/files/");
    }
    if bytes_eq(target, ascii_vec("/").as_slice()) {
        Route::RootProbe
    } else if starts_with(target, ascii_vec("/echo/").as_slice()) {
        Route::Echo
    } else if bytes_eq(target, ascii_vec("/user-agent").as_slice()) {
        Route::UserAgent
    } else if starts_with(target, ascii_vec("/files/").as_slice()) {
        match method {
            HttpMethod::Get => Route::FileRead,
            HttpMethod::Post => Route::FileWrite,
        }
    } else {
        Route::NotFoundRoute
    }
}

/// Every method and target select exactly one route, the one of the first
/// rule that matches: `/` is the root probe; then a target under `/echo/` is
/// an echo; then `/user-agent`; then a target under `/files/` is a file read
/// for `GET` and a file write for `POST`; anything else is not found. Only the
/// method and the target take part.
pub proof fn lemma_routing_total(method: HttpMethod, target: Seq<u8>)
    ensures
        (route_of(method, target) == Route::RootProbe) <==> target == root_path(),
        (route_of(method, target) == Route::Echo) <==> (target != root_path() && has_prefix(
            target,
            echo_prefix(),
        )),
        (route_of(method, target) == Route::UserAgent) <==> (target != root_path() && !has_prefix(
            target,
            echo_prefix(),
        ) && target == user_agent_path()),
        (route_of(method, target) == Route::FileRead) <==> (target != root_path() && !has_prefix(
            target,
            echo_prefix(),
        ) && target != user_agent_path() && has_prefix(target, files_prefix()) && method
            == HttpMethod::Get),
        (route_of(method, target) == Route::FileWrite) <==> (target != root_path() && !has_prefix(
            target,
            echo_prefix(),
        ) && target != user_agent_path() && has_prefix(target, files_prefix()) && method
            == HttpMethod::Post),
        (route_of(method, target) == Route::NotFoundRoute) <==> (target != root_path()
            && !has_prefix(target, echo_prefix()) && target != user_agent_path() && !has_prefix(
            target,
            files_prefix(),
        )),
{
}

} // verus!
