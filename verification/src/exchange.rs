//! The call exchange: one command dispatched as a dialogue of requests and
//! replies, with transparent polling of long-running tasks.
//!
//! The core performs no I/O.  `Client::start_call` hands the caller the
//! first request; the caller performs the exchange and feeds every raw
//! reply back through `CallExchange::on_reply`, which says what to do next:
//! send another request (polling a task), wait and then send, or stop with
//! the finished Response.

use vstd::prelude::*;
use vstd::string::StringExecFns;
use crate::client::{Client, audit_entry_model, recorded_payload, redaction_impossible,
    request_headers_model, url_model, valid_header_value, pairs_model};
use crate::error::Error;
use crate::json::{JsonValue, JsonModel, json_get};
use crate::response::{Response, has_failed_task, response_json_model};
use crate::text::clone_pairs;

verus! {

/// One request to send: where, with what headers, and what body.
pub struct HttpRequest {
    pub url: String,
    pub headers: Vec<(String, String)>,
    pub body: JsonValue,
}

/// One raw reply: status, the final URL, the reply headers, and the parsed
/// body.
pub struct RawReply {
    pub status: u16,
    pub url: String,
    pub headers: Vec<(String, String)>,
    pub body: JsonValue,
}

/// What the caller must do next to carry an exchange forward.
pub enum CallStep {
    /// Send this request and feed the reply back.
    Send(HttpRequest),
    /// The task is still in progress: wait the given seconds, then send the
    /// request and feed the reply back.  Carries the reported status and
    /// progress for the caller to observe.
    Wait(u64, HttpRequest, JsonValue, JsonValue),
    /// The exchange is over.
    Done(Response),
}

/// An in-flight command: what was sent, and whether the exchange is now
/// polling a server-side task.
pub struct CallExchange {
    pub command: String,
    pub url: String,
    pub headers: Vec<(String, String)>,
    pub payload: JsonValue,
    pub polling: bool,
    pub poll_url: String,
    pub poll_headers: Vec<(String, String)>,
    pub poll_payload: JsonValue,
}

/// How a raw reply is interpreted as a Response.
pub open spec fn interp(raw: RawReply, res: Response) -> bool {
    &&& res.status == raw.status
    &&& res.url == raw.url
    &&& res.headers == raw.headers
    &&& res.data == raw.body
    &&& res.success == (200 <= raw.status < 300 && !has_failed_task(raw.body@))
    &&& res.objects@ == Seq::<JsonValue>::empty()
}

/// The body of a task-status poll.
pub open spec fn poll_payload_model(tid: Seq<char>) -> JsonModel {
    JsonModel::Obj(
        seq![("task-id"@, JsonModel::Str(tid)), ("details-level"@, JsonModel::Str("full"@))],
    )
}

/// Whether a reply body asks for task polling.
pub open spec fn task_trigger(body: JsonModel, wait: bool) -> bool {
    json_get(body, "task-id"@) is Some && wait
}

/// The first entry of the task array of a poll reply.
pub open spec fn first_task(data: JsonModel) -> Option<JsonModel> {
    match json_get(data, "tasks"@) {
        Some(JsonModel::Arr(ts)) => if ts.len() > 0 {
            Some(ts[0])
        } else {
            None
        },
        _ => None,
    }
}

/// Whether a poll reply reports its task still in progress.
pub open spec fn task_in_progress(data: JsonModel) -> bool {
    match first_task(data) {
        Some(t) => json_get(t, "status"@) == Some(JsonModel::Str("in progress"@)),
        None => false,
    }
}

/// The effect of recording one call in the audit accumulator: nothing while
/// auditing is disabled, one appended entry while it is enabled.
pub open spec fn audited(
    pre: Client,
    post: Client,
    command: Seq<char>,
    headers: Seq<(String, String)>,
    payload: JsonModel,
    url: Seq<char>,
    img: JsonModel,
) -> bool {
    if pre.log_file@.len() == 0 {
        post == pre
    } else {
        &&& post.all_calls@.len() == pre.all_calls@.len() + 1
        &&& forall|i: int| 0 <= i < pre.all_calls@.len() ==> post.all_calls@[i] == pre.all_calls@[i]
        &&& post.all_calls@.last()@ == audit_entry_model(
            headers,
            recorded_payload(command, pre.show_password, payload),
            url,
            img,
        )
        &&& post == (Client { all_calls: post.all_calls, ..pre })
    }
}

/// The image of an interpreted raw reply as a structured value.
pub open spec fn raw_response_image(raw: RawReply) -> JsonModel {
    JsonModel::Obj(
        seq![
            ("status"@, JsonModel::Num(raw.status as u64)),
            (
                "success"@,
                JsonModel::Bool(200 <= raw.status < 300 && !has_failed_task(raw.body@)),
            ),
            ("url"@, JsonModel::Str(raw.url@)),
            ("headers"@, JsonModel::Obj(crate::response::headers_obj_model(raw.headers@))),
            ("data"@, raw.body@),
            ("objects"@, JsonModel::Arr(Seq::empty())),
        ],
    )
}

/// The effect of recording two calls in a row in the audit accumulator.
pub open spec fn audited_two(
    pre: Client,
    post: Client,
    c1: Seq<char>,
    h1: Seq<(String, String)>,
    p1: JsonModel,
    u1: Seq<char>,
    i1: JsonModel,
    c2: Seq<char>,
    h2: Seq<(String, String)>,
    p2: JsonModel,
    u2: Seq<char>,
    i2: JsonModel,
) -> bool {
    if pre.log_file@.len() == 0 {
        post == pre
    } else {
        &&& post.all_calls@.len() == pre.all_calls@.len() + 2
        &&& forall|i: int| 0 <= i < pre.all_calls@.len() ==> post.all_calls@[i] == pre.all_calls@[i]
        &&& post.all_calls@[pre.all_calls@.len() as int]@ == audit_entry_model(
            h1,
            recorded_payload(c1, pre.show_password, p1),
            u1,
            i1,
        )
        &&& post.all_calls@.last()@ == audit_entry_model(
            h2,
            recorded_payload(c2, pre.show_password, p2),
            u2,
            i2,
        )
        &&& post == (Client { all_calls: post.all_calls, ..pre })
    }
}

impl Client {
    /// Open the exchange for one command: build the target URL and the
    /// request headers, and hand back the request to send.  Fails exactly
    /// when the active session identifier cannot stand in a header value.
    pub fn start_call(&self, command: &str, payload: JsonValue) -> (r: Result<
        (CallExchange, HttpRequest),
        Error,
    >)
        ensures
            match r {
                Ok((ex, req)) => {
                    &&& valid_header_value(self.sid@)
                    &&& ex.command@ == command@
                    &&& ex.url@ == url_model(self.server@, self.port, command@)
                    &&& pairs_model(ex.headers@) == request_headers_model(self.sid@)
                    &&& ex.payload == payload
                    &&& ex.polling == false
                    &&& req.url == ex.url
                    &&& req.headers@ == ex.headers@
                    &&& req.body@ == payload@
                },
                Err(e) => !valid_header_value(self.sid@) && e matches Error::HeaderValue(_),
            },
    {
        let url = self.build_url(command);
        let headers = match self.request_headers() {
            Ok(hs) => hs,
            Err(e) => { return Err(e) },
        };
        let req = HttpRequest {
            url: url.clone(),
            headers: clone_pairs(&headers),
            body: payload.deep_copy(),
        };
        let ex = CallExchange {
            command: String::from_str(command),
            url,
            headers,
            payload,
            polling: false,
            poll_url: String::new(),
            poll_headers: Vec::new(),
            poll_payload: JsonValue::Null,
        };
        Ok((ex, req))
    }
}

impl CallExchange {
    /// Interpret one raw reply and say what to do next.
    ///
    /// Outside polling: a reply that carries a task identifier while the
    /// client waits for tasks opens the poll loop; any other reply closes
    /// the exchange, audited if auditing is enabled.  Inside polling: every
    /// poll call is audited on its own, a task still in progress asks for
    /// another poll after five seconds, and a terminal task closes the
    /// exchange with the last poll Response — audited under the original
    /// command — whose task status is never "in progress".
    pub fn on_reply(&mut self, client: &mut Client, raw: RawReply) -> (r: Result<CallStep, Error>)
        ensures
            ({
                let pe = *old(self);
                let pc = *old(client);
                match r {
                    Ok(step) => match step {
                        CallStep::Done(res) => {
                            &&& interp(raw, res)
                            &&& *final(self) == pe
                            &&& if !pe.polling {
                                &&& !task_trigger(raw.body@, pc.wait_for_task)
                                &&& audited(
                                    pc,
                                    *final(client),
                                    pe.command@,
                                    pe.headers@,
                                    pe.payload@,
                                    pe.url@,
                                    raw_response_image(raw),
                                )
                            } else {
                                &&& !task_in_progress(raw.body@)
                                &&& first_task(raw.body@) matches Some(t) && json_get(
                                    t,
                                    "progress-percentage"@,
                                ) is Some && json_get(t, "status"@) is Some
                                &&& audited_two(
                                    pc,
                                    *final(client),
                                    "show-task"@,
                                    pe.poll_headers@,
                                    pe.poll_payload@,
                                    pe.poll_url@,
                                    raw_response_image(raw),
                                    pe.command@,
                                    pe.headers@,
                                    pe.payload@,
                                    pe.url@,
                                    raw_response_image(raw),
                                )
                            }
                        },
                        CallStep::Send(req) => {
                            &&& !pe.polling
                            &&& task_trigger(raw.body@, pc.wait_for_task)
                            &&& crate::client::str_field(raw.body@, "task-id"@) matches Some(tid)
                                && req.body@ == poll_payload_model(tid)
                                && final(self).poll_payload@ == poll_payload_model(tid)
                            &&& req.url@ == url_model(pc.server@, pc.port, "show-task"@)
                            &&& pairs_model(req.headers@) == request_headers_model(pc.sid@)
                            &&& *final(client) == pc
                            &&& final(self).polling
                            &&& final(self).poll_url@ == req.url@
                            &&& final(self).poll_headers@ == req.headers@
                            &&& final(self).command == pe.command
                            &&& final(self).url == pe.url
                            &&& final(self).headers == pe.headers
                            &&& final(self).payload == pe.payload
                        },
                        CallStep::Wait(secs, req, st, pr) => {
                            &&& pe.polling
                            &&& secs == 5
                            &&& task_in_progress(raw.body@)
                            &&& first_task(raw.body@) matches Some(t) && (json_get(
                                t,
                                "progress-percentage"@,
                            ) matches Some(p) && pr@ == p) && (json_get(t, "status"@) matches Some(
                                s,
                            ) && st@ == s)
                            &&& req.url@ == pe.poll_url@
                            &&& pairs_model(req.headers@) == request_headers_model(pc.sid@)
                            &&& req.body@ == pe.poll_payload@
                            &&& audited(
                                pc,
                                *final(client),
                                "show-task"@,
                                pe.poll_headers@,
                                pe.poll_payload@,
                                pe.poll_url@,
                                raw_response_image(raw),
                            )
                            &&& final(self).poll_headers@ == req.headers@
                            &&& final(self).polling
                            &&& final(self).command == pe.command
                            &&& final(self).url == pe.url
                            &&& final(self).headers == pe.headers
                            &&& final(self).payload == pe.payload
                            &&& final(self).poll_url == pe.poll_url
                            &&& final(self).poll_payload == pe.poll_payload
                        },
                    },
                    Err(e) => {
                        &&& *final(self) == pe
                        &&& if !pe.polling {
                            match e {
                                Error::Custom(_) => {
                                    &&& !task_trigger(raw.body@, pc.wait_for_task)
                                    &&& pc.log_file@.len() > 0
                                    &&& redaction_impossible(
                                        pe.command@,
                                        pc.show_password,
                                        pe.payload@,
                                    )
                                    &&& *final(client) == pc
                                },
                                Error::InvalidResponse(f, img) => {
                                    &&& task_trigger(raw.body@, pc.wait_for_task)
                                    &&& f@ == "task-id"@
                                    &&& crate::client::str_field(raw.body@, "task-id"@) is None
                                    &&& img@ == raw_response_image(raw)
                                    &&& *final(client) == pc
                                },
                                Error::HeaderValue(_) => {
                                    &&& task_trigger(raw.body@, pc.wait_for_task)
                                    &&& !valid_header_value(pc.sid@)
                                    &&& *final(client) == pc
                                },
                                _ => false,
                            }
                        } else {
                            &&& audited(
                                pc,
                                *final(client),
                                "show-task"@,
                                pe.poll_headers@,
                                pe.poll_payload@,
                                pe.poll_url@,
                                raw_response_image(raw),
                            )
                            &&& match e {
                                Error::InvalidResponse(f, img) => {
                                    &&& img@ == raw_response_image(raw)
                                    &&& (f@ == "progress-percentage"@ && (first_task(raw.body@)
                                        is None || (first_task(raw.body@) matches Some(t)
                                        && json_get(t, "progress-percentage"@) is None))) || (f@
                                        == "status"@ && (first_task(raw.body@) matches Some(t) && (
                                    json_get(t, "progress-percentage"@) is Some && json_get(
                                        t,
                                        "status"@,
                                    ) is None)))
                                },
                                Error::Custom(_) => {
                                    &&& !task_in_progress(raw.body@)
                                    &&& pc.log_file@.len() > 0
                                    &&& redaction_impossible(
                                        pe.command@,
                                        pc.show_password,
                                        pe.payload@,
                                    )
                                },
                                Error::HeaderValue(_) => {
                                    &&& task_in_progress(raw.body@)
                                    &&& !valid_header_value(pc.sid@)
                                },
                                _ => false,
                            }
                        }
                    },
                }
            }),
    {
        let RawReply { status, url, headers, body } = raw;
        let res = Response::from_raw(status, url, headers, body);
        proof {
            assert(interp(raw, res));
            assert(crate::json::arr_model(res.objects@) =~= Seq::<JsonModel>::empty());
            assert(response_json_model(res)->Obj_0 =~= raw_response_image(raw)->Obj_0);
            assert(response_json_model(res) == raw_response_image(raw));
        }

        if !self.polling {
            if client.wait_for_task && res.data.obj_has("task-id") {
                let tid = match res.data.obj_get("task-id") {
                    Some(JsonValue::Str(s)) => s.clone(),
                    _ => { return Err(Error::InvalidResponse("task-id", res.to_json())) },
                };
                let ghost tidv = tid@;
                let purl = client.build_url("show-task");
                let phs = match client.request_headers() {
                    Ok(h) => h,
                    Err(e) => { return Err(e) },
                };
                let mut pms: Vec<(String, JsonValue)> = Vec::new();
                pms.push((String::from_str("task-id"), JsonValue::Str(tid)));
                pms.push(
                    (String::from_str("details-level"), JsonValue::Str(String::from_str("full"))),
                );
                let pbody = JsonValue::Obj(pms);
                proof {
                    crate::json::lemma_obj_model(pms@);
                    assert(crate::json::obj_model(pms@) =~= poll_payload_model(tidv)->Obj_0);
                    assert(pbody@ == poll_payload_model(tidv));
                }
                self.polling = true;
                self.poll_url = purl.clone();
                self.poll_headers = crate::text::clone_pairs(&phs);
                self.poll_payload = pbody.deep_copy();
                return Ok(CallStep::Send(HttpRequest { url: purl, headers: phs, body: pbody }));
            }
            if client.log_file.as_str().unicode_len() > 0 {
                match client.update_calls(
                    self.command.as_str(),
                    self.url.as_str(),
                    &self.headers,
                    &self.payload,
                    &res,
                ) {
                    Ok(()) => {},
                    Err(e) => { return Err(e) },
                }
            }
            return Ok(CallStep::Done(res));
        }

        if client.log_file.as_str().unicode_len() > 0 {
            match client.update_calls(
                "show-task",
                self.poll_url.as_str(),
                &self.poll_headers,
                &self.poll_payload,
                &res,
            ) {
                Ok(()) => {},
                Err(e) => {
                    // unreachable: only a login payload can fail to be
                    // recorded, and this call is a show-task
                    proof {
                        reveal_strlit("show-task");
                        reveal_strlit("login");
                        assert("show-task"@.len() == 9);
                        assert("login"@.len() == 5);
                        assert(false);
                    }
                    return Err(e);
                },
            }
        }

        let (status_v, percent_v) = match res.data.obj_get("tasks") {
            Some(JsonValue::Arr(ts)) => {
                if ts.len() > 0 {
                    proof {
                        crate::json::lemma_arr_model(ts@);
                    }
                    let percent = match ts[0].obj_get("progress-percentage") {
                        Some(p) => p.deep_copy(),
                        None => {
                            return Err(Error::InvalidResponse("progress-percentage", res.to_json()));
                        },
                    };
                    let status = match ts[0].obj_get("status") {
                        Some(s) => s.deep_copy(),
                        None => { return Err(Error::InvalidResponse("status", res.to_json())) },
                    };
                    (status, percent)
                } else {
                    return Err(Error::InvalidResponse("progress-percentage", res.to_json()));
                }
            },
            _ => { return Err(Error::InvalidResponse("progress-percentage", res.to_json())) },
        };

        let in_prog = match &status_v {
            JsonValue::Str(s) => crate::text::str_eq(s.as_str(), "in progress"),
            _ => false,
        };
        if !in_prog {
            if client.log_file.as_str().unicode_len() > 0 {
                match client.update_calls(
                    self.command.as_str(),
                    self.url.as_str(),
                    &self.headers,
                    &self.payload,
                    &res,
                ) {
                    Ok(()) => {},
                    Err(e) => { return Err(e) },
                }
            }
            return Ok(CallStep::Done(res));
        }

        let phs = match client.request_headers() {
            Ok(h) => h,
            Err(e) => { return Err(e) },
        };
        let req = HttpRequest {
            url: self.poll_url.clone(),
            headers: phs,
            body: self.poll_payload.deep_copy(),
        };
        self.poll_headers = crate::text::clone_pairs(&req.headers);
        Ok(CallStep::Wait(5, req, status_v, percent_v))
    }
}

} // verus!
