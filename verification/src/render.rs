//! The response renderer: status classification, and the canonicalized
//! pretty rendering of JSON bodies.

use vstd::prelude::*;
use crate::codec::{json_parse_of, parse_json, pretty_of, to_pretty};
use crate::json::{sort_json, sort_val};

verus! {

/// What the renderer answers for a response.
#[derive(Debug, PartialEq, Eq)]
pub enum RenderOutcome {
    /// The status was no success; its code is reported, the body is not
    /// looked at.
    StatusFailure(u16),
    /// The body parsed as JSON: its canonicalized pretty rendering.
    JsonBody(String),
    /// The body was no JSON: it is shown verbatim.
    RawBody(String),
}

/// The model of a rendering.
pub enum RenderModel {
    StatusFailure(u16),
    JsonBody(Seq<char>),
    RawBody(Seq<char>),
}

impl View for RenderOutcome {
    type V = RenderModel;

    open spec fn view(&self) -> RenderModel {
        match self {
            RenderOutcome::StatusFailure(c) => RenderModel::StatusFailure(*c),
            RenderOutcome::JsonBody(s) => RenderModel::JsonBody(s@),
            RenderOutcome::RawBody(s) => RenderModel::RawBody(s@),
        }
    }
}

/// The rendering owed to a response: a failure line for a status out of
/// the success range; else the body's canonicalized pretty rendering
/// when it is JSON, and the body itself when it is not.
pub open spec fn render_of(status: u16, body: Seq<char>) -> RenderModel {
    if !(200 <= status < 300) {
        RenderModel::StatusFailure(status)
    } else {
        match json_parse_of(body) {
            Some(v) => RenderModel::JsonBody(pretty_of(sort_val(v))),
            None => RenderModel::RawBody(body),
        }
    }
}

/// Renders a response, exactly as `render_of` says. A body that is not
/// JSON is no error: it comes back verbatim.
pub fn render_response(status: u16, body: &str) -> (r: RenderOutcome)
    ensures
        r@ == render_of(status, body@),
{
    if status < 200 || status >= 300 {
        RenderOutcome::StatusFailure(status)
    } else {
        match parse_json(body) {
            Some(v) => {
                let sorted = sort_json(&v);
                RenderOutcome::JsonBody(to_pretty(&sorted))
            },
            None => RenderOutcome::RawBody(body.to_owned()),
        }
    }
}

} // verus!
