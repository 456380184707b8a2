//! The result of one logical call, with its derived classification.

use vstd::prelude::*;
use vstd::string::StringExecFns;
use crate::json::{JsonValue, JsonModel, json_get, arr_model, obj_model, lemma_arr_model,
    lemma_obj_model};
use crate::text::str_eq;

verus! {

/// A Response from the API.
///
/// `status` is the HTTP-style status code; `success` starts as "status is in
/// the 200 range" and is cleared when an embedded task reports failure.
/// `data` holds the reply body of a call; `objects` is populated only by the
/// query aggregator.
pub struct Response {
    pub status: u16,
    pub success: bool,
    pub url: String,
    pub headers: Vec<(String, String)>,
    pub data: JsonValue,
    pub objects: Vec<JsonValue>,
}

/// Whether one task entry reports failure or partial success.
pub open spec fn task_entry_failed(t: JsonModel) -> bool {
    match json_get(t, "status"@) {
        Some(s) => s == JsonModel::Str("failed"@) || s == JsonModel::Str("partially succeeded"@),
        None => false,
    }
}

/// Whether some entry of a task array reports failure or partial success.
pub open spec fn some_task_failed(ts: Seq<JsonModel>) -> bool {
    exists|i: int| 0 <= i < ts.len() && task_entry_failed(ts[i])
}

/// Whether a reply body embeds a task array with a failed or partially
/// succeeded entry.
pub open spec fn has_failed_task(data: JsonModel) -> bool {
    match json_get(data, "tasks"@) {
        Some(JsonModel::Arr(ts)) => some_task_failed(ts),
        _ => false,
    }
}

/// The image of a header list as an object: one member per header, the
/// value a string.
pub open spec fn headers_obj_model(hs: Seq<(String, String)>) -> Seq<(Seq<char>, JsonModel)> {
    Seq::new(hs.len(), |i: int| (hs[i].0@, JsonModel::Str(hs[i].1@)))
}

/// The image of a Response as a structured value, as it appears in an audit
/// entry: status, success, url, headers, data and objects, in that order.
pub open spec fn response_json_model(r: Response) -> JsonModel {
    JsonModel::Obj(
        seq![
            ("status"@, JsonModel::Num(r.status as u64)),
            ("success"@, JsonModel::Bool(r.success)),
            ("url"@, JsonModel::Str(r.url@)),
            ("headers"@, JsonModel::Obj(headers_obj_model(r.headers@))),
            ("data"@, r.data@),
            ("objects"@, JsonModel::Arr(arr_model(r.objects@))),
        ],
    )
}

/// Build the object members that image a header list.
pub fn headers_to_json(headers: &Vec<(String, String)>) -> (r: Vec<(String, JsonValue)>)
    ensures
        obj_model(r@) == headers_obj_model(headers@),
{
    let mut hs: Vec<(String, JsonValue)> = Vec::new();
    let n = headers.len();
    let mut i: usize = 0;
    while i < n
        invariant
            n == headers@.len(),
            0 <= i <= n,
            hs@.len() == i,
            forall|j: int| 0 <= j < i ==> #[trigger] hs@[j].0@ == headers@[j].0@ && hs@[j].1@
                == JsonModel::Str(headers@[j].1@),
        decreases n - i,
    {
        hs.push((headers[i].0.clone(), JsonValue::Str(headers[i].1.clone())));
        i = i + 1;
    }
    proof {
        lemma_obj_model(hs@);
        assert(obj_model(hs@) =~= headers_obj_model(headers@));
    }
    hs
}

impl Response {
    /// Derived classification: a status in the 200 range whose embedded
    /// tasks, if any, did not fail.
    pub open spec fn succeeded(&self) -> bool {
        200 <= self.status < 300 && self.success
    }

    /// A fresh Response: successful, empty body, no objects.
    pub fn new() -> (r: Response)
        ensures
            r.status == 200,
            r.success == true,
            r.url@ == Seq::<char>::empty(),
            r.headers@ == Seq::<(String, String)>::empty(),
            r.data@ == JsonModel::Obj(Seq::empty()),
            r.objects@ == Seq::<JsonValue>::empty(),
    {
        Response {
            status: 200,
            success: true,
            url: String::new(),
            headers: Vec::new(),
            data: JsonValue::Obj(Vec::new()),
            objects: Vec::new(),
        }
    }

    /// Interpret a raw reply: record status, final URL, headers and body, and
    /// classify it.  Success means a status in the 200 range with no embedded
    /// task reported as failed or partially succeeded.
    pub fn from_raw(
        status: u16,
        url: String,
        headers: Vec<(String, String)>,
        data: JsonValue,
    ) -> (r: Response)
        ensures
            r.status == status,
            r.success == (200 <= status < 300 && !has_failed_task(data@)),
            r.url == url,
            r.headers == headers,
            r.data == data,
            r.objects@ == Seq::<JsonValue>::empty(),
    {
        let mut r = Response {
            status,
            success: 200 <= status && status < 300,
            url,
            headers,
            data,
            objects: Vec::new(),
        };
        Response::check_tasks_status(&mut r);
        r
    }

    /// Clear the success flag when any embedded task failed or partially
    /// succeeded.
    pub fn check_tasks_status(res: &mut Response)
        ensures
            final(res).success == (old(res).success && !has_failed_task(old(res).data@)),
            final(res).status == old(res).status,
            final(res).url == old(res).url,
            final(res).headers == old(res).headers,
            final(res).data == old(res).data,
            final(res).objects == old(res).objects,
    {
        broadcast use lemma_arr_model;

        let mut failed = false;
        let ghost data_model = res.data@;
        if let Some(tasks) = res.data.obj_get("tasks") {
            if let JsonValue::Arr(ts) = tasks {
                let ghost am = arr_model(ts@);
                assert(tasks@ == JsonModel::Arr(am));
                let n = ts.len();
                let mut i: usize = 0;
                while i < n
                    invariant
                        n == ts@.len(),
                        am == arr_model(ts@),
                        am.len() == n,
                        forall|j: int| 0 <= j < n ==> am[j] == #[trigger] ts@[j]@,
                        0 <= i <= n,
                        failed == exists|j: int| 0 <= j < i && task_entry_failed(am[j]),
                    decreases n - i,
                {
                    if let Some(st) = ts[i].obj_get("status") {
                        if let JsonValue::Str(s) = st {
                            if str_eq(s.as_str(), "failed") || str_eq(
                                s.as_str(),
                                "partially succeeded",
                            ) {
                                assert(task_entry_failed(am[i as int]));
                                failed = true;
                            }
                        }
                    }
                    i = i + 1;
                }
                proof {
                    assert(json_get(data_model, "tasks"@) == Some(JsonModel::Arr(am)));
                    if failed {
                        let j = choose|j: int| 0 <= j < n && task_entry_failed(am[j]);
                        assert(0 <= j < am.len() && task_entry_failed(am[j]));
                        assert(some_task_failed(am));
                    } else {
                        assert(!some_task_failed(am));
                    }
                }
                assert(failed == has_failed_task(data_model));
            } else {
                assert(!has_failed_task(data_model));
            }
        } else {
            assert(!has_failed_task(data_model));
        }
        if failed {
            res.success = false;
        }
    }

    /// The image of this Response as a structured value, for audit entries
    /// and error reports.
    pub fn to_json(&self) -> (j: JsonValue)
        ensures
            j@ == response_json_model(*self),
    {
        let hs = headers_to_json(&self.headers);

        let mut objs: Vec<JsonValue> = Vec::new();
        let m = self.objects.len();
        let mut k: usize = 0;
        while k < m
            invariant
                m == self.objects@.len(),
                0 <= k <= m,
                objs@.len() == k,
                forall|j: int| 0 <= j < k ==> #[trigger] objs@[j]@ == self.objects@[j]@,
            decreases m - k,
        {
            objs.push(self.objects[k].deep_copy());
            k = k + 1;
        }
        proof {
            lemma_arr_model(objs@);
            lemma_arr_model(self.objects@);
            assert(arr_model(objs@) =~= arr_model(self.objects@));
        }

        let mut ms: Vec<(String, JsonValue)> = Vec::new();
        ms.push((String::from_str("status"), JsonValue::Num(self.status as u64)));
        ms.push((String::from_str("success"), JsonValue::Bool(self.success)));
        ms.push((String::from_str("url"), JsonValue::Str(self.url.clone())));
        ms.push((String::from_str("headers"), JsonValue::Obj(hs)));
        ms.push((String::from_str("data"), self.data.deep_copy()));
        ms.push((String::from_str("objects"), JsonValue::Arr(objs)));
        let j = JsonValue::Obj(ms);
        proof {
            lemma_obj_model(ms@);
            assert(obj_model(ms@) =~= response_json_model(*self)->Obj_0);
        }
        j
    }

    /// The pretty text of the reply body, as persisted by a data dump.
    pub fn render_data(&self) -> (s: String)
        ensures
            s@ == crate::render::render(self.data@, 0),
    {
        crate::render::render_pretty(&self.data)
    }

    /// The pretty text of the aggregated objects, as persisted by an
    /// object dump.
    pub fn render_objects(&self) -> (s: String)
        ensures
            s@ == crate::render::render(
                JsonModel::Arr(arr_model(self.objects@)),
                0,
            ),
    {
        crate::render::render_array_pretty(&self.objects)
    }

    /// Get the status of this Response.
    pub fn status(&self) -> (r: u16)
        ensures
            r == self.status,
    {
        self.status
    }

    /// Check if the status is between 100-199.
    pub fn is_informational(&self) -> (r: bool)
        ensures
            r == (100 <= self.status < 200),
    {
        self.status >= 100 && self.status < 200
    }

    /// Check if the status is between 200-299 and is successful.
    pub fn is_success(&self) -> (r: bool)
        ensures
            r == (200 <= self.status < 300 && self.success),
    {
        self.status >= 200 && self.status < 300 && self.success == true
    }

    /// Check if the status is not successful.
    pub fn is_not_success(&self) -> (r: bool)
        ensures
            r == !(200 <= self.status < 300 && self.success),
    {
        self.status < 200 || self.status >= 300 || self.success == false
    }

    /// Check if the status is between 300-399.
    pub fn is_redirection(&self) -> (r: bool)
        ensures
            r == (300 <= self.status < 400),
    {
        self.status >= 300 && self.status < 400
    }

    /// Check if the status is between 400-499.
    pub fn is_client_error(&self) -> (r: bool)
        ensures
            r == (400 <= self.status < 500),
    {
        self.status >= 400 && self.status < 500
    }

    /// Check if the status is between 500-599.
    pub fn is_server_error(&self) -> (r: bool)
        ensures
            r == (500 <= self.status < 600),
    {
        self.status >= 500 && self.status < 600
    }

    /// Get the URL of this Response.
    pub fn url(&self) -> (r: &str)
        ensures
            r@ == self.url@,
    {
        self.url.as_str()
    }

    /// Get the headers of this Response, as name and value pairs in the
    /// order they arrived.
    pub fn headers(&self) -> (r: Vec<(String, String)>)
        ensures
            r@ == self.headers@,
    {
        let mut out: Vec<(String, String)> = Vec::new();
        let n = self.headers.len();
        let mut i: usize = 0;
        while i < n
            invariant
                n == self.headers@.len(),
                0 <= i <= n,
                out@ =~= self.headers@.subrange(0, i as int),
            decreases n - i,
        {
            out.push((self.headers[i].0.clone(), self.headers[i].1.clone()));
            assert(out@ =~= self.headers@.subrange(0, i + 1 as int));
            i = i + 1;
        }
        assert(out@ =~= self.headers@);
        out
    }
}

} // verus!
