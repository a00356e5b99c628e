//! The back-end gateway's replies, and model lists read from
//! OpenAI-compatible `/models` replies.
use vstd::prelude::*;

use crate::json::{json_leaf, json_pointer, str_at, str_at_pointer, JsonLeaf, JsonLeafView};
use crate::resource::strings_view;
use crate::text::{
    chars_eq, decimal, lemma_text_lt_irreflexive, lemma_text_lt_total, lemma_text_lt_transitive,
    push_all, str_chars, string_from_chars, text_lt, text_lt_exec, trim_end_char, trim_end_char_len,
    u64_decimal, slice_range,
};

verus! {

/// Base address of the back-end gateway.
pub const API_BASE_URL: &'static str = "https://api.elake.top/deeper";
/// Gateway path that hands out a resource's signed download address.
pub const RESOURCE_DOWNLOAD_URL: &'static str = "/resource/download_url";
/// Gateway path that lists the Live2D models on offer.
pub const LIVE2D_LIST: &'static str = "/live2d/list";

/// A gateway address: the base address, then `path`.
pub fn api_url(path: &str) -> (r: String)
    ensures
        r@ == "https://api.elake.top/deeper"@ + path@,
{
    let mut v = str_chars("https://api.elake.top/deeper");
    push_all(&mut v, str_chars(path).as_slice());
    string_from_chars(v.as_slice())
}

/// A Live2D model on offer (from `/live2d/list`).
pub struct Live2dSummary {
    pub id: String,
    pub name: String,
}

/// The gateway's reply: `{ error, message, body, timestamp }`.
pub struct ApiResponse<T> {
    /// The payload.
    pub body: Option<T>,
    /// Whether the request failed on the gateway's side.
    pub error: bool,
    pub message: String,
    /// Reply time in milliseconds.
    pub timestamp: i64,
}

/// A failed gateway request.
pub enum ApiError {
    /// The request could not be made.
    Request(String),
    /// The reply had a failing HTTP status.
    Http(u16),
    /// The reply could not be read or had an unexpected shape.
    InvalidResponse(String),
    /// The gateway reported an error (`error` is true).
    Business(String),
}

impl ApiError {
    /// The text of the error, as shown to the user.
    pub open spec fn text(&self) -> Seq<char> {
        match self {
            ApiError::Request(m) => "网络错误: "@ + m@,
            ApiError::Http(s) => "接口返回错误: HTTP "@ + decimal(*s as nat),
            ApiError::InvalidResponse(m) => "解析接口响应失败: "@ + m@,
            ApiError::Business(m) => "接口返回错误: "@ + m@,
        }
    }

    /// Describes the error.
    pub fn message(&self) -> (r: String)
        ensures
            r@ == self.text(),
    {
        let (mut out, tail) = match self {
            ApiError::Request(m) => (str_chars("网络错误: "), str_chars(m.as_str())),
            ApiError::Http(s) => (str_chars("接口返回错误: HTTP "), u64_decimal(*s as u64)),
            ApiError::InvalidResponse(m) => (str_chars("解析接口响应失败: "), str_chars(m.as_str())),
            ApiError::Business(m) => (str_chars("接口返回错误: "), str_chars(m.as_str())),
        };
        push_all(&mut out, tail.as_slice());
        string_from_chars(out.as_slice())
    }
}

/// The error text a failed gateway reply gives: its message, or a stock
/// text when the message is empty.
pub open spec fn business_text(message: Seq<char>) -> Seq<char> {
    if message.len() == 0 { "接口返回错误"@ } else { message }
}

impl<T> ApiResponse<T> {
    /// Checks the gateway's error flag and takes out the payload.
    pub fn into_body(self) -> (r: Result<T, ApiError>)
        ensures
            match r {
                Ok(b) => !self.error && self.body == Some(b),
                Err(ApiError::Business(m)) => self.error && m@ == business_text(self.message@),
                Err(ApiError::InvalidResponse(m)) => !self.error && self.body is None
                    && m@ == "接口响应中缺少 body"@,
                Err(_) => false,
            },
    {
        if self.error {
            let message = if str_chars(self.message.as_str()).len() == 0 {
                "接口返回错误".to_string()
            } else {
                self.message
            };
            return Err(ApiError::Business(message));
        }
        match self.body {
            Some(b) => Ok(b),
            None => Err(ApiError::InvalidResponse("接口响应中缺少 body".to_string())),
        }
    }
}

/// The payload of `/resource/download_url`.
pub struct DownloadUrlBody {
    pub url: String,
}

/// The payload of `/live2d/list`.
pub struct Live2dListBody {
    pub list: Vec<Live2dSummary>,
}

/// The request for a resource's signed download address: the gateway
/// address of `/resource/download_url`, and the query `type`, `name`.
pub fn download_url_request(resource_type: &str, name: &str) -> (r: (String, Vec<(String, String)>))
    ensures
        r.0@ == "https://api.elake.top/deeper/resource/download_url"@,
        r.1@.len() == 2,
        r.1@[0].0@ == "type"@ && r.1@[0].1@ == resource_type@,
        r.1@[1].0@ == "name"@ && r.1@[1].1@ == name@,
{
    proof {
        reveal_strlit("https://api.elake.top/deeper");
        reveal_strlit("/resource/download_url");
        reveal_strlit("https://api.elake.top/deeper/resource/download_url");
    }
    let url = api_url(RESOURCE_DOWNLOAD_URL);
    let mut query: Vec<(String, String)> = Vec::new();
    query.push(("type".to_string(), resource_type.to_string()));
    query.push(("name".to_string(), name.to_string()));
    (url, query)
}

/// A gateway reply by its HTTP status: a failing status (not 2xx) is an HTTP
/// error carrying the status; otherwise the body is read on.
pub fn reply_by_status(status: u16, body: String) -> (r: Result<String, ApiError>)
    ensures
        200 <= status < 300 ==> r == Ok::<String, ApiError>(body),
        !(200 <= status < 300) ==> r == Err::<String, ApiError>(ApiError::Http(status)),
{
    if 200 <= status && status < 300 {
        Ok(body)
    } else {
        Err(ApiError::Http(status))
    }
}

/// The signed download address out of the gateway's reply to
/// `/resource/download_url` (the reply as read, or the failure to read it).
pub fn fetch_download_url(response: Result<ApiResponse<DownloadUrlBody>, ApiError>) -> (r: Result<String, ApiError>)
    ensures
        match response {
            Err(e) => r == Err::<String, ApiError>(e),
            Ok(resp) => match r {
                Ok(u) => !resp.error && (resp.body matches Some(b) && u == b.url),
                Err(ApiError::Business(m)) => resp.error && m@ == business_text(resp.message@),
                Err(ApiError::InvalidResponse(m)) => !resp.error && resp.body is None
                    && m@ == "接口响应中缺少 body"@,
                Err(_) => false,
            },
        },
{
    let resp = response?;
    let body = resp.into_body()?;
    Ok(body.url)
}

/// The models on offer out of the gateway's reply to `/live2d/list`.
pub fn fetch_live2d_list(response: Result<ApiResponse<Live2dListBody>, ApiError>) -> (r: Result<Vec<Live2dSummary>, ApiError>)
    ensures
        match response {
            Err(e) => r == Err::<Vec<Live2dSummary>, ApiError>(e),
            Ok(resp) => match r {
                Ok(l) => !resp.error && (resp.body matches Some(b) && l == b.list),
                Err(ApiError::Business(m)) => resp.error && m@ == business_text(resp.message@),
                Err(ApiError::InvalidResponse(m)) => !resp.error && resp.body is None
                    && m@ == "接口响应中缺少 body"@,
                Err(_) => false,
            },
        },
{
    let resp = response?;
    let body = resp.into_body()?;
    Ok(body.list)
}

/// The JSON Pointer of item `i` of the top-level `data` array.
pub open spec fn data_item(i: nat) -> Seq<char> {
    "/data/"@ + decimal(i)
}

/// The model id that item `i` of `data` gives: the item itself when it is
/// text, else its `id` member when that is text.
pub open spec fn listed_id(body: Seq<char>, i: nat) -> Option<Seq<char>> {
    match str_at(body, data_item(i)) {
        Some(s) => Some(s),
        None => str_at(body, data_item(i) + "/id"@),
    }
}

/// The model ids given by the first `n` items of `data`, in order.
pub open spec fn listed_ids(body: Seq<char>, n: nat) -> Seq<Seq<char>>
    decreases n,
{
    if n == 0 {
        Seq::empty()
    } else {
        let r = listed_ids(body, (n - 1) as nat);
        match listed_id(body, (n - 1) as nat) {
            Some(s) => r.push(s),
            None => r,
        }
    }
}

/// The model ids of an OpenAI-compatible `/models` reply: `None` when its
/// `data` member is no array.
pub open spec fn model_list_spec(body: Seq<char>) -> Option<Seq<Seq<char>>> {
    match json_leaf(body, "/data"@) {
        Some(JsonLeafView::Array(n)) => Some(listed_ids(body, n)),
        _ => None,
    }
}

/// Every text stands before the next ones: sorted, with no repeats.
pub open spec fn strictly_sorted(v: Seq<Seq<char>>) -> bool {
    forall|i: int, j: int| 0 <= i < j < v.len() ==> text_lt(#[trigger] v[i], #[trigger] v[j])
}

/// Adds `id` to a sorted list without repeats, keeping it so.
pub(crate) fn insert_sorted(out: &mut Vec<String>, id: String)
    requires
        strictly_sorted(strings_view(old(out)@)),
    ensures
        strictly_sorted(strings_view(final(out)@)),
        forall|x: Seq<char>| strings_view(final(out)@).contains(x)
            <==> (strings_view(old(out)@).contains(x) || x == id@),
{
    let ghost before = strings_view(out@);
    let idc = str_chars(id.as_str());
    let mut p: usize = 0;
    let mut go = true;
    while go && p < out.len()
        invariant
            p <= out@.len(),
            strings_view(out@) == before,
            idc@ == id@,
            forall|k: int| 0 <= k < p ==> text_lt(#[trigger] before[k], id@),
            !go ==> p < out@.len() && !text_lt(before[p as int], id@),
        decreases out@.len() - p + (if go { 1int } else { 0int }),
    {
        let cur = str_chars(out[p].as_str());
        if text_lt_exec(cur.as_slice(), idc.as_slice()) {
            p = p + 1;
        } else {
            go = false;
        }
    }
    if p < out.len() {
        let cur = str_chars(out[p].as_str());
        if chars_eq(cur.as_slice(), idc.as_slice()) {
            proof {
                assert forall|x: Seq<char>| strings_view(out@).contains(x)
                    <==> (before.contains(x) || x == id@) by {
                    if x == id@ {
                        assert(before[p as int] == x);
                    }
                }
            }
            return;
        }
        proof {
            lemma_text_lt_total(before[p as int], id@);
        }
    }
    out.insert(p, id);
    proof {
        let after = strings_view(out@);
        assert(after =~= before.insert(p as int, id@));
        before.insert_ensures(p as int, id@);
        assert forall|i: int, j: int| 0 <= i < j < after.len() implies text_lt(#[trigger] after[i], #[trigger] after[j]) by {
            if j < p {
                assert(after[i] == before[i] && after[j] == before[j]);
            } else if j == p {
                assert(after[i] == before[i]);
            } else if i == p {
                assert(after[j] == before[j - 1]);
                if j - 1 > p {
                    lemma_text_lt_transitive(id@, before[p as int], before[j - 1]);
                }
            } else if i < p {
                assert(after[i] == before[i] && after[j] == before[j - 1]);
                if j - 1 >= p {
                    lemma_text_lt_transitive(before[i], id@, before[p as int]);
                    if j - 1 > p {
                        lemma_text_lt_transitive(before[i], before[p as int], before[j - 1]);
                    }
                }
            } else {
                assert(after[i] == before[i - 1] && after[j] == before[j - 1]);
            }
        }
        assert forall|x: Seq<char>| after.contains(x) <==> (before.contains(x) || x == id@) by {
            if after.contains(x) {
                let k = choose|k: int| 0 <= k < after.len() && after[k] == x;
                if k < p {
                    assert(before[k] == x);
                } else if k > p {
                    assert(before[k - 1] == x);
                }
            }
            if before.contains(x) {
                let k = choose|k: int| 0 <= k < before.len() && before[k] == x;
                if k < p {
                    assert(after[k] == x);
                } else {
                    assert(after[k + 1] == x);
                }
            }
            if x == id@ {
                assert(after[p as int] == x);
            }
        }
    }
}

/// The model ids of an OpenAI-compatible `/models` reply (its JSON text),
/// sorted and without repeats; `None` when `data` is no array.
pub fn model_ids(body: &str) -> (r: Option<Vec<String>>)
    ensures
        match r {
            Some(v) => model_list_spec(body@) matches Some(ids)
                && strictly_sorted(strings_view(v@))
                && forall|x: Seq<char>| strings_view(v@).contains(x) <==> ids.contains(x),
            None => model_list_spec(body@) is None,
        },
{
    let n = match json_pointer(body, "/data") {
        Some(JsonLeaf::Array(n)) => n,
        _ => return None,
    };
    let mut out: Vec<String> = Vec::new();
    let mut i: usize = 0;
    while i < n
        invariant
            i <= n,
            strictly_sorted(strings_view(out@)),
            forall|x: Seq<char>| strings_view(out@).contains(x) <==> listed_ids(body@, i as nat).contains(x),
        decreases n - i,
    {
        let mut p = str_chars("/data/");
        push_all(&mut p, u64_decimal(i as u64).as_slice());
        proof {
            reveal_strlit("/data/");
        }
        assert(p@ =~= data_item(i as nat));
        let ps = string_from_chars(p.as_slice());
        let found = match str_at_pointer(body, ps.as_str()) {
            Some(s) => Some(s),
            None => {
                let mut q = p;
                push_all(&mut q, str_chars("/id").as_slice());
                str_at_pointer(body, string_from_chars(q.as_slice()).as_str())
            },
        };
        let ghost before = strings_view(out@);
        match found {
            Some(s) => {
                let ghost sv = s@;
                insert_sorted(&mut out, s);
                assert(listed_ids(body@, (i + 1) as nat) == listed_ids(body@, i as nat).push(sv));
                assert forall|x: Seq<char>| strings_view(out@).contains(x)
                    <==> listed_ids(body@, (i + 1) as nat).contains(x) by {
                    let l = listed_ids(body@, i as nat);
                    if x == sv {
                        assert(l.push(sv)[l.len() as int] == sv);
                    }
                    if l.push(sv).contains(x) && x != sv {
                        let k = choose|k: int| 0 <= k < l.len() + 1 && l.push(sv)[k] == x;
                        assert(l[k] == x);
                    }
                    if l.contains(x) {
                        let k = choose|k: int| 0 <= k < l.len() && l[k] == x;
                        assert(l.push(sv)[k] == x);
                    }
                }
            },
            None => {
                assert(listed_ids(body@, (i + 1) as nat) == listed_ids(body@, i as nat));
            },
        }
        i = i + 1;
    }
    Some(out)
}

/// Reads the model ids of an OpenAI-compatible `/models` reply (its JSON
/// text) for the gateway client: sorted, without repeats, and never empty.
pub fn parse_model_list(body: &str) -> (r: Result<Vec<String>, ApiError>)
    ensures
        match r {
            Ok(v) => model_list_spec(body@) matches Some(ids) && ids.len() > 0
                && strictly_sorted(strings_view(v@))
                && forall|x: Seq<char>| strings_view(v@).contains(x) <==> ids.contains(x),
            Err(ApiError::InvalidResponse(m)) =>
                (model_list_spec(body@) is None && m@ == "接口返回成功, 但缺少 data 字段"@)
                || (model_list_spec(body@) matches Some(ids) && ids.len() == 0
                    && m@ == "接口返回成功, 但没有解析到任何模型"@),
            Err(_) => false,
        },
{
    match model_ids(body) {
        None => Err(ApiError::InvalidResponse("接口返回成功, 但缺少 data 字段".to_string())),
        Some(v) => {
            if v.len() == 0 {
                proof {
                    let ids = model_list_spec(body@)->0;
                    if ids.len() > 0 {
                        assert(ids.contains(ids[0]));
                    }
                }
                Err(ApiError::InvalidResponse("接口返回成功, 但没有解析到任何模型".to_string()))
            } else {
                proof {
                    let ids = model_list_spec(body@)->0;
                    let x = strings_view(v@)[0];
                    assert(strings_view(v@).contains(x));
                    assert(ids.contains(x));
                }
                Ok(v)
            }
        },
    }
}

/// The address of a provider's model list: `<base>/models`, the base's
/// trailing slashes dropped; an error when nothing is left of the base.
pub fn models_url(base_url: &str) -> (r: Result<String, String>)
    ensures
        match r {
            Ok(u) => trim_end_char(base_url@, '/').len() > 0 && u@ == trim_end_char(base_url@, '/') + "/models"@,
            Err(e) => trim_end_char(base_url@, '/').len() == 0 && e@ == "Base URL 不能为空"@,
        },
{
    let v = str_chars(base_url);
    let k = trim_end_char_len(v.as_slice(), '/');
    if k == 0 {
        return Err("Base URL 不能为空".to_string());
    }
    let mut u = slice_range(v.as_slice(), 0, k);
    push_all(&mut u, str_chars("/models").as_slice());
    Ok(string_from_chars(u.as_slice()))
}

/// The model list a provider's `/models` reply (its JSON text) gives to the
/// model picker: sorted, without repeats, never empty.
pub fn model_list_from(body: &str) -> (r: Result<Vec<String>, String>)
    ensures
        match r {
            Ok(v) => model_list_spec(body@) matches Some(ids) && ids.len() > 0
                && strictly_sorted(strings_view(v@))
                && forall|x: Seq<char>| strings_view(v@).contains(x) <==> ids.contains(x),
            Err(m) =>
                (model_list_spec(body@) is None && m@ == "接口返回成功, 但缺少 data 字段"@)
                || (model_list_spec(body@) matches Some(ids) && ids.len() == 0
                    && m@ == "接口返回成功, 但没有解析到任何模型"@),
        },
{
    match parse_model_list(body) {
        Ok(v) => Ok(v),
        Err(ApiError::InvalidResponse(m)) => Err(m),
        Err(_) => Err(String::new()),
    }
}

} // verus!
