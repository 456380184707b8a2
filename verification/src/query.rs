//! The query aggregator: a command dispatched page by page, with a fixed
//! page size, until the server reports that the last object is in; the
//! pages' objects are concatenated into one collection.
//!
//! Each page is one full call exchange.  `Client::start_query` opens the
//! first page; when a page's call exchange finishes, its Response is fed
//! through `QueryExchange::on_page`, which either hands back the exchange
//! for the next page or closes the query with the aggregated Response.

use vstd::prelude::*;
use vstd::string::StringExecFns;
use crate::client::{Client, request_headers_model, url_model, valid_header_value, pairs_model};
use crate::error::Error;
use crate::exchange::{CallExchange, HttpRequest};
use crate::json::{JsonValue, JsonModel, json_get, arr_model, obj_model, lemma_arr_model,
    lemma_obj_model};
use crate::response::{Response, response_json_model};

verus! {

/// What an unsuccessful page reports, for the caller to inspect: the
/// server's code and message fields.
pub open spec fn query_fail_message(data: JsonModel) -> Seq<char> {
    "Received an unsuccessful Response from the API while running a query. "@ + crate::render::render(
        field_or_null(data, "code"@),
        0,
    ) + ", "@ + crate::render::render(field_or_null(data, "message"@), 0)
}

/// The value under a key, or null where there is none.
pub open spec fn field_or_null(data: JsonModel, key: Seq<char>) -> JsonModel {
    match json_get(data, key) {
        Some(m) => m,
        None => JsonModel::Null,
    }
}

/// The number under a key of a reply body, when present and a number.
pub open spec fn u64_field(data: JsonModel, key: Seq<char>) -> Option<u64> {
    match json_get(data, key) {
        Some(JsonModel::Num(n)) => Some(n),
        _ => None,
    }
}

/// The body of one page call: the details level, the fixed page size, and
/// the offset of the page.
pub open spec fn page_payload_model(details: Seq<char>, offset: u64) -> JsonModel {
    JsonModel::Obj(
        seq![
            ("details-level"@, JsonModel::Str(details)),
            ("limit"@, JsonModel::Num(50)),
            ("offset"@, JsonModel::Num(offset)),
        ],
    )
}

/// What the caller must do next to carry a query forward.
pub enum QueryStep {
    /// Dispatch the next page as its own call exchange and feed the
    /// finished page Response back.
    NextPage(CallExchange, HttpRequest),
    /// All pages are in: the aggregated Response, its `objects` holding
    /// every object across all pages and its `data` reset to the empty
    /// structure.
    Done(Response),
}

/// An in-flight query: the command and details level it repeats, the offset
/// of the page underway, and the objects collected so far.  The two ghost
/// fields account for what a well-behaved server has delivered: whether
/// every page so far covered exactly the objects the server reported, and
/// up to which object.
pub struct QueryExchange {
    pub command: String,
    pub details_level: String,
    pub offset: u64,
    pub objects: Vec<JsonValue>,
    pub covered: Ghost<int>,
    pub consistent: Ghost<bool>,
}

impl QueryExchange {
    /// The aggregation account: while every page was consistent, the
    /// collection holds exactly the objects the server reported delivered.
    pub open spec fn wf(&self) -> bool {
        self.consistent@ ==> self.objects@.len() == self.covered@
    }

    /// Whether one more page is consistent with the account: the page
    /// reports it delivered objects up to `to`, and its object array holds
    /// exactly the objects from the account's cover to `to`.
    pub open spec fn page_consistent(&self, to: u64, page: Seq<JsonModel>) -> bool {
        to as int == self.covered@ + page.len()
    }
}

impl Client {
    /// Open a query: build the call exchange for the first page, at offset
    /// zero.  Fails exactly when the active session identifier cannot stand
    /// in a header value.
    pub fn start_query(&self, command: &str, details_level: &str) -> (r: Result<
        (QueryExchange, CallExchange, HttpRequest),
        Error,
    >)
        ensures
            match r {
                Ok((qx, ex, req)) => {
                    &&& valid_header_value(self.sid@)
                    &&& qx.command@ == command@
                    &&& qx.details_level@ == details_level@
                    &&& qx.offset == 0
                    &&& qx.objects@ == Seq::<JsonValue>::empty()
                    &&& qx.covered@ == 0
                    &&& qx.consistent@ == true
                    &&& qx.wf()
                    &&& ex.command@ == command@
                    &&& ex.url@ == url_model(self.server@, self.port, command@)
                    &&& pairs_model(ex.headers@) == request_headers_model(self.sid@)
                    &&& ex.payload@ == page_payload_model(details_level@, 0)
                    &&& ex.polling == false
                    &&& req.url == ex.url
                    &&& req.headers@ == ex.headers@
                    &&& req.body@ == page_payload_model(details_level@, 0)
                },
                Err(e) => !valid_header_value(self.sid@) && e matches Error::HeaderValue(_),
            },
    {
        let payload = page_payload(details_level, 0);
        let (ex, req) = match self.start_call(command, payload) {
            Ok(p) => p,
            Err(e) => { return Err(e) },
        };
        let qx = QueryExchange {
            command: String::from_str(command),
            details_level: String::from_str(details_level),
            offset: 0,
            objects: Vec::new(),
            covered: Ghost(0),
            consistent: Ghost(true),
        };
        Ok((qx, ex, req))
    }
}

impl QueryExchange {
    /// Take in one finished page.
    ///
    /// A page that is not a success aborts the query.  Otherwise the page
    /// must report `to` and `total` and carry an `objects` array; the array
    /// is appended to the collection.  When `to` equals `total` the query
    /// is over: the last page's Response is returned with `objects` holding
    /// the whole collection and `data` reset to the empty structure.  A
    /// command returning zero objects reports both as zero on its first
    /// page and so finishes after that one call.  While every page covered
    /// exactly the objects the server reported — `to` objects so far, of
    /// `total` — the finished collection holds exactly `total` objects.
    pub fn on_page(&mut self, client: &Client, res: Response) -> (r: Result<QueryStep, Error>)
        ensures
            ({
                let pq = *old(self);
                match r {
                    Ok(step) => match step {
                        QueryStep::Done(out) => {
                            &&& res.succeeded()
                            &&& u64_field(res.data@, "to"@) matches Some(to) && (u64_field(
                                res.data@,
                                "total"@,
                            ) matches Some(total) && (to == total && (json_get(
                                res.data@,
                                "objects"@,
                            ) matches Some(JsonModel::Arr(page)) && ({
                                &&& arr_model(out.objects@) == arr_model(pq.objects@) + page
                                &&& out.data@ == JsonModel::Obj(
                                    Seq::<(Seq<char>, JsonModel)>::empty(),
                                )
                                &&& out.status == res.status
                                &&& out.success == res.success
                                &&& out.url == res.url
                                &&& out.headers == res.headers
                                &&& pq.wf() && pq.consistent@ && pq.page_consistent(to, page)
                                    ==> out.objects@.len() == total
                            }))))
                        },
                        QueryStep::NextPage(ex, req) => {
                            &&& res.succeeded()
                            &&& u64_field(res.data@, "to"@) matches Some(to) && (u64_field(
                                res.data@,
                                "total"@,
                            ) matches Some(total) && (to != total && (json_get(
                                res.data@,
                                "objects"@,
                            ) matches Some(JsonModel::Arr(page)) && ({
                                &&& arr_model(final(self).objects@) == arr_model(pq.objects@)
                                    + page
                                &&& final(self).covered@ == to as int
                                &&& final(self).consistent@ == (pq.consistent@
                                    && pq.page_consistent(to, page))
                                &&& pq.wf() ==> final(self).wf()
                                &&& final(self).offset == vstd::wrapping::u64_specs::wrapping_add(
                                    pq.offset,
                                    50,
                                )
                                &&& final(self).command == pq.command
                                &&& final(self).details_level == pq.details_level
                                &&& ex.command@ == pq.command@
                                &&& ex.url@ == url_model(client.server@, client.port, pq.command@)
                                &&& pairs_model(ex.headers@) == request_headers_model(client.sid@)
                                &&& ex.payload@ == page_payload_model(
                                    pq.details_level@,
                                    final(self).offset,
                                )
                                &&& ex.polling == false
                                &&& req.url == ex.url
                                &&& req.headers@ == ex.headers@
                                &&& req.body@ == ex.payload@
                            }))))
                        },
                    },
                    Err(e) => {
                        &&& *final(self) == pq
                        &&& match e {
                            Error::Custom(m) => !res.succeeded() && m@ == query_fail_message(
                                res.data@,
                            ),
                            Error::InvalidResponse(f, img) => {
                                &&& res.succeeded()
                                &&& img@ == response_json_model(res)
                                &&& (f@ == "to"@ && u64_field(res.data@, "to"@) is None) || (f@
                                    == "total"@ && (u64_field(res.data@, "to"@) is Some
                                    && u64_field(res.data@, "total"@) is None)) || (f@
                                    == "objects"@ && (u64_field(res.data@, "to"@) is Some
                                    && u64_field(res.data@, "total"@) is Some && !(json_get(
                                    res.data@,
                                    "objects"@,
                                ) matches Some(JsonModel::Arr(_)))))
                            },
                            Error::HeaderValue(_) => res.succeeded() && !valid_header_value(
                                client.sid@,
                            ),
                            _ => false,
                        }
                    },
                }
            }),
    {
        if res.is_not_success() {
            let mut msg = String::from_str(
                "Received an unsuccessful Response from the API while running a query. ",
            );
            let code = match res.data.obj_get("code") {
                Some(v) => crate::render::render_pretty(v),
                None => crate::render::render_pretty(&JsonValue::Null),
            };
            msg.append(code.as_str());
            msg.append(", ");
            let message = match res.data.obj_get("message") {
                Some(v) => crate::render::render_pretty(v),
                None => crate::render::render_pretty(&JsonValue::Null),
            };
            msg.append(message.as_str());
            assert(msg@ =~= query_fail_message(res.data@));
            return Err(Error::Custom(msg));
        }
        let to = match res.data.obj_get("to") {
            Some(JsonValue::Num(n)) => *n,
            _ => { return Err(Error::InvalidResponse("to", res.to_json())) },
        };
        let total = match res.data.obj_get("total") {
            Some(JsonValue::Num(n)) => *n,
            _ => { return Err(Error::InvalidResponse("total", res.to_json())) },
        };
        let has_objects = match res.data.obj_get("objects") {
            Some(JsonValue::Arr(_)) => true,
            _ => false,
        };
        if !has_objects {
            return Err(Error::InvalidResponse("objects", res.to_json()));
        }

        if to == total {
            self.append_page(&res);
            let mut objs: Vec<JsonValue> = Vec::new();
            core::mem::swap(&mut objs, &mut self.objects);
            let out = Response {
                status: res.status,
                success: res.success,
                url: res.url,
                headers: res.headers,
                data: JsonValue::Obj(Vec::new()),
                objects: objs,
            };
            return Ok(QueryStep::Done(out));
        }

        let next_offset = self.offset.wrapping_add(50);
        let payload = page_payload(self.details_level.as_str(), next_offset);
        let (ex, req) = match client.start_call(self.command.as_str(), payload) {
            Ok(p) => p,
            Err(e) => { return Err(e) },
        };
        self.append_page(&res);
        self.offset = next_offset;
        Ok(QueryStep::NextPage(ex, req))
    }

    /// Append one page's objects to the collection and account for them.
    fn append_page(&mut self, res: &Response)
        requires
            json_get(res.data@, "objects"@) matches Some(m) && m is Arr,
            u64_field(res.data@, "to"@) is Some,
        ensures
            ({
                let page = json_get(res.data@, "objects"@)->Some_0->Arr_0;
                let to = u64_field(res.data@, "to"@)->Some_0;
                &&& arr_model(final(self).objects@) == arr_model(old(self).objects@) + page
                &&& final(self).covered@ == to as int
                &&& final(self).consistent@ == (old(self).consistent@ && old(
                    self,
                ).page_consistent(to, page))
                &&& old(self).wf() ==> final(self).wf()
                &&& final(self).command == old(self).command
                &&& final(self).details_level == old(self).details_level
                &&& final(self).offset == old(self).offset
            }),
    {
        let ghost pq = *self;
        let ghost page = json_get(res.data@, "objects"@)->Some_0->Arr_0;
        let to = match res.data.obj_get("to") {
            Some(JsonValue::Num(n)) => *n,
            _ => {
                // unreachable: the caller established the field
                proof {
                    assert(false);
                }
                0
            },
        };
        match res.data.obj_get("objects") {
            Some(JsonValue::Arr(items)) => {
                proof {
                    lemma_arr_model(items@);
                    assert(arr_model(items@) == page);
                }
                let n = items.len();
                let ghost base = self.objects@.len();
                let mut i: usize = 0;
                while i < n
                    invariant
                        n == items@.len(),
                        arr_model(items@) == page,
                        page.len() == n,
                        forall|j: int| 0 <= j < n ==> page[j] == #[trigger] items@[j]@,
                        0 <= i <= n,
                        base == pq.objects@.len(),
                        self.objects@.len() == base + i,
                        forall|j: int| 0 <= j < base ==> self.objects@[j] == pq.objects@[j],
                        forall|j: int| base <= j < base + i ==> #[trigger] self.objects@[j]@
                            == page[j - base],
                        self.command == pq.command,
                        self.details_level == pq.details_level,
                        self.offset == pq.offset,
                        self.covered == pq.covered,
                        self.consistent == pq.consistent,
                    decreases n - i,
                {
                    self.objects.push(items[i].deep_copy());
                    i = i + 1;
                }
                proof {
                    lemma_arr_model(self.objects@);
                    lemma_arr_model(pq.objects@);
                    assert(arr_model(self.objects@) =~= arr_model(pq.objects@) + page);
                }
            },
            _ => {
                // unreachable: the caller established the field
                proof {
                    assert(false);
                }
            },
        }
        proof {
            assert(to == u64_field(res.data@, "to"@)->Some_0);
        }
        let ghost new_covered: int = to as int;
        let ghost new_consistent: bool = pq.consistent@ && pq.page_consistent(to, page);
        self.covered = Ghost(new_covered);
        self.consistent = Ghost(new_consistent);
    }
}

/// Build the body of one page call.
fn page_payload(details_level: &str, offset: u64) -> (p: JsonValue)
    ensures
        p@ == page_payload_model(details_level@, offset),
{
    let mut ms: Vec<(String, JsonValue)> = Vec::new();
    ms.push((String::from_str("details-level"), JsonValue::Str(String::from_str(details_level))));
    ms.push((String::from_str("limit"), JsonValue::Num(50)));
    ms.push((String::from_str("offset"), JsonValue::Num(offset)));
    let p = JsonValue::Obj(ms);
    proof {
        lemma_obj_model(ms@);
        assert(obj_model(ms@) =~= page_payload_model(details_level@, offset)->Obj_0);
    }
    p
}

} // verus!
