//! What the ingress layer hands the core: path ids, list query parameters
//! and request bodies, checked and turned into operation messages before
//! any work is dispatched.

use vstd::prelude::*;

use crate::cond::{
    parse_orderby, parse_time_cond, spec_parse_orderby, spec_parse_time_cond, Orderby,
    TimeCondition,
};
use crate::error::{
    is_payload_error, Error, ERR_MSG_PAYLOAD_PARSE_ORDERBY_FAIL, ERR_MSG_PAYLOAD_PARSE_TIME_COND_FAIL,
};
use crate::num::{parse_i64, spec_parse_i64};
use crate::paste::Timestamp;
use crate::query::{opt_text, GetPasteListMsg, DEFAULT_LIMIT};
use crate::service::{CreatePasteMsg, UpdatePasteMsg};
use crate::text::chars_of;

verus! {

/// The body of a successful delete.
pub const DELETE_OK: &'static str = "ok";

/// Reads a path id; anything but a 64-bit integer is `BadID`.
pub fn parse_id(s: &str) -> (r: Result<i64, Error>)
    ensures
        match spec_parse_i64(s@) {
            Some(n) => r == Ok::<i64, Error>(n),
            None => r == Err::<i64, Error>(Error::BadID),
        },
{
    let chars = chars_of(s);
    match parse_i64(&chars) {
        Some(n) => Ok(n),
        None => Err(Error::BadID),
    }
}

/// The list query parameters as they arrive: `title_pat`, `body_pat`,
/// `cmp_created_at`, `cmp_modified_at`, `orderby_list`, `limit`, `offset`.
#[derive(Debug)]
pub struct GetPasteListConds {
    pub title_pat: Option<String>,
    pub body_pat: Option<String>,
    pub cmp_created_at: Option<String>,
    pub cmp_modified_at: Option<String>,
    pub orderby_list: Option<String>,
    pub limit: Option<i64>,
    pub offset: Option<i64>,
}

/// Whether an optional time condition parameter is absent or well formed.
pub open spec fn cond_ok(o: Option<String>) -> bool {
    match o {
        Some(s) => spec_parse_time_cond(s@) is Some,
        None => true,
    }
}

/// The condition an optional parameter denotes.
pub open spec fn cond_of(o: Option<String>) -> Option<TimeCondition> {
    match o {
        Some(s) => spec_parse_time_cond(s@),
        None => None,
    }
}

/// Whether an optional order list parameter is absent or well formed.
pub open spec fn orderby_ok(o: Option<String>) -> bool {
    match o {
        Some(s) => spec_parse_orderby(s@) is Some,
        None => true,
    }
}

fn parse_opt_cond(o: &Option<String>) -> (r: Result<Option<TimeCondition>, Error>)
    ensures
        match r {
            Ok(c) => cond_ok(*o) && c == cond_of(*o),
            Err(e) => !cond_ok(*o) && is_payload_error(e, ERR_MSG_PAYLOAD_PARSE_TIME_COND_FAIL@),
        },
{
    match o {
        Some(s) => match parse_time_cond(s.as_str()) {
            Ok(c) => Ok(Some(c)),
            Err(e) => Err(e),
        },
        None => Ok(None),
    }
}

impl GetPasteListConds {
    /// Checks the parameters and builds the list query. Time conditions are
    /// checked first (creation, then modification), then the order list;
    /// the first malformed one decides the error. An absent limit is 20 and
    /// an absent offset 0.
    pub fn into_msg(self) -> (r: Result<GetPasteListMsg, Error>)
        ensures
            !cond_ok(self.cmp_created_at) ==> is_payload_error(
                r->Err_0,
                ERR_MSG_PAYLOAD_PARSE_TIME_COND_FAIL@,
            ) && r is Err,
            cond_ok(self.cmp_created_at) && !cond_ok(self.cmp_modified_at) ==> r is Err
                && is_payload_error(r->Err_0, ERR_MSG_PAYLOAD_PARSE_TIME_COND_FAIL@),
            cond_ok(self.cmp_created_at) && cond_ok(self.cmp_modified_at) && !orderby_ok(
                self.orderby_list,
            ) ==> r is Err && is_payload_error(r->Err_0, ERR_MSG_PAYLOAD_PARSE_ORDERBY_FAIL@),
            cond_ok(self.cmp_created_at) && cond_ok(self.cmp_modified_at) && orderby_ok(
                self.orderby_list,
            ) ==> {
                &&& r matches Ok(m)
                &&& m@.title_pat == opt_text(self.title_pat)
                &&& m@.body_pat == opt_text(self.body_pat)
                &&& m@.created_at == cond_of(self.cmp_created_at)
                &&& m@.modified_at == cond_of(self.cmp_modified_at)
                &&& m@.orderby_list == match self.orderby_list {
                    Some(s) => spec_parse_orderby(s@),
                    None => None,
                }
                &&& m@.limit == Some(
                    match self.limit {
                        Some(l) => l,
                        None => DEFAULT_LIMIT,
                    },
                )
                &&& m@.offset == Some(
                    match self.offset {
                        Some(o) => o,
                        None => 0i64,
                    },
                )
            },
    {
        let created_at = match parse_opt_cond(&self.cmp_created_at) {
            Ok(c) => c,
            Err(e) => return Err(e),
        };
        let modified_at = match parse_opt_cond(&self.cmp_modified_at) {
            Ok(c) => c,
            Err(e) => return Err(e),
        };
        let orderby_list: Option<Vec<Orderby>> = match &self.orderby_list {
            Some(s) => match parse_orderby(s.as_str()) {
                Ok(v) => Some(v),
                Err(e) => return Err(e),
            },
            None => None,
        };
        Ok(
            GetPasteListMsg {
                title_pat: self.title_pat,
                body_pat: self.body_pat,
                created_at,
                modified_at,
                orderby_list,
                limit: Some(
                    match self.limit {
                        Some(l) => l,
                        None => DEFAULT_LIMIT,
                    },
                ),
                offset: Some(
                    match self.offset {
                        Some(o) => o,
                        None => 0,
                    },
                ),
            },
        )
    }
}

/// The body of a create request.
#[derive(Debug)]
pub struct NewPaste {
    pub title: String,
    pub body: String,
}

impl NewPaste {
    /// The create message for this body, stamped with the time `now`.
    pub fn into_msg(self, now: Timestamp) -> (r: CreatePasteMsg)
        ensures
            r.title@ == self.title@,
            r.body@ == self.body@,
            r.created_at == now,
    {
        CreatePasteMsg { title: self.title, body: self.body, created_at: now }
    }
}

/// The body of an update request; its id names the paste to update.
#[derive(Debug)]
pub struct UpdatePaste {
    pub id: i64,
    pub title: String,
    pub body: String,
}

impl UpdatePaste {
    /// The update message for this body, stamped with the time `now`.
    pub fn into_msg(self, now: Timestamp) -> (r: UpdatePasteMsg)
        ensures
            r.id == self.id,
            r.title@ == self.title@,
            r.body@ == self.body@,
            r.modified_at == now,
    {
        UpdatePasteMsg { id: self.id, title: self.title, body: self.body, modified_at: now }
    }
}

} // verus!
