//! Model provider plumbing: endpoint URLs, model quirks, results handed to the
//! front end, and reading error details out of provider replies.
use vstd::prelude::*;
use vstd::string::StringSliceAdditionalSpecFns;

use crate::providers::{config_problem, validate_config};
use crate::json::{json_leaf, json_pointer, str_at, str_at_pointer, JsonLeaf, JsonLeafView};
use crate::text::{
    decimal, has_prefix, is_ascii_digit, lower, push_all, slice_range, starts_with, str_chars,
    string_from_chars, to_lower, trim, trim_chars, trim_end_char, trim_end_char_len, trim_start_char,
    lead_char_count, u64_decimal, has_suffix, ends_with, chars_eq, lemma_trail_count,
};

verus! {

/// A conversation message.
pub struct LlmMessage {
    pub role: String,
    pub content: String,
}

/// Outcome of a generation request.
pub struct LlmGenerateOutcome {
    pub ok: bool,
    pub text: Option<String>,
    pub input_tokens: Option<u64>,
    pub output_tokens: Option<u64>,
    pub error: Option<String>,
    pub error_code: Option<String>,
}

impl LlmGenerateOutcome {
    /// A successful generation.
    pub fn ok(text: String, input_tokens: Option<u64>, output_tokens: Option<u64>) -> (r: Self)
        ensures
            r.ok,
            r.text == Some(text),
            r.input_tokens == input_tokens,
            r.output_tokens == output_tokens,
            r.error is None,
            r.error_code is None,
    {
        LlmGenerateOutcome { ok: true, text: Some(text), input_tokens, output_tokens, error: None, error_code: None }
    }

    /// A failed generation.
    pub fn err(error: String) -> (r: Self)
        ensures
            !r.ok,
            r.text is None,
            r.input_tokens is None,
            r.output_tokens is None,
            r.error == Some(error),
            r.error_code is None,
    {
        Self::err_with(None, error)
    }

    /// A failed generation with a structured error code.
    pub fn err_with(code: Option<&str>, error: String) -> (r: Self)
        ensures
            !r.ok,
            r.text is None,
            r.input_tokens is None,
            r.output_tokens is None,
            r.error == Some(error),
            match code {
                Some(c) => r.error_code matches Some(e) && e@ == c@,
                None => r.error_code is None,
            },
    {
        let error_code = match code {
            Some(c) => Some(c.to_string()),
            None => None,
        };
        LlmGenerateOutcome { ok: false, text: None, input_tokens: None, output_tokens: None, error: Some(error), error_code }
    }
}

/// Outcome of a connection test.
pub struct LlmTestOutcome {
    pub ok: bool,
    pub status: Option<u16>,
    pub error: Option<String>,
    pub error_code: Option<String>,
}

impl LlmTestOutcome {
    /// A test that reached the service.
    pub fn ok(status: u16) -> (r: Self)
        ensures
            r.ok,
            r.status == Some(status),
            r.error is None,
            r.error_code is None,
    {
        LlmTestOutcome { ok: true, status: Some(status), error: None, error_code: None }
    }

    /// A test that failed on this side (network, validation).
    pub fn client_err(error: String) -> (r: Self)
        ensures
            !r.ok,
            r.status is None,
            r.error == Some(error),
            r.error_code is None,
    {
        Self::client_err_with(None, error)
    }

    /// A test that failed on this side, with a structured error code.
    pub fn client_err_with(code: Option<&str>, error: String) -> (r: Self)
        ensures
            !r.ok,
            r.status is None,
            r.error == Some(error),
            match code {
                Some(c) => r.error_code matches Some(e) && e@ == c@,
                None => r.error_code is None,
            },
    {
        let error_code = match code {
            Some(c) => Some(c.to_string()),
            None => None,
        };
        LlmTestOutcome { ok: false, status: None, error: Some(error), error_code }
    }

    /// A test answered with an HTTP error status.
    pub fn http_err(status: u16) -> (r: Self)
        ensures
            !r.ok,
            r.status == Some(status),
            r.error matches Some(e) && e@ == "HTTP "@ + decimal(status as nat),
            r.error_code matches Some(c) && c@ == "http_error"@,
    {
        let mut m = str_chars("HTTP ");
        let d = u64_decimal(status as u64);
        push_all(&mut m, d.as_slice());
        Self::http_err_with(status, string_from_chars(m.as_slice()))
    }

    /// A test answered with an HTTP error status and a message.
    pub fn http_err_with(status: u16, error: String) -> (r: Self)
        ensures
            !r.ok,
            r.status == Some(status),
            r.error == Some(error),
            r.error_code matches Some(c) && c@ == "http_error"@,
    {
        LlmTestOutcome { ok: false, status: Some(status), error: Some(error), error_code: Some("http_error".to_string()) }
    }
}

/// Whether an HTTP status is a success (2xx).
pub open spec fn is_success(status: u16) -> bool {
    200 <= status < 300
}

/// The message of a generation answered with an HTTP error status: the
/// service's name, the status and the reply cut to 240 bytes of UTF-8.
pub open spec fn http_error_message(service: Seq<char>, status: u16, reply: Seq<char>) -> Seq<char> {
    service + " 接口返回 "@ + decimal(status as nat) + ": "@ + utf8_prefix(reply, 240)
}

/// What a generation request answers once its stream has ended (`reply` is
/// the status, the text and the token counts, or why the request failed): a
/// network failure (`network_error`) with its message; for an HTTP error
/// status, an `http_error` naming the service, the status and the reply cut
/// to 240 bytes; else the text and the token counts.
pub fn generate_outcome(service: &str, reply: Result<(u16, String, Option<u64>, Option<u64>), String>) -> (r: LlmGenerateOutcome)
    ensures
        match reply {
            Err(e) => !r.ok && r.error == Some(e) && r.text is None
                && (r.error_code matches Some(c) && c@ == "network_error"@),
            Ok((status, text, input, output)) => if is_success(status) {
                r.ok && r.text == Some(text) && r.input_tokens == input && r.output_tokens == output
                    && r.error is None && r.error_code is None
            } else {
                !r.ok && r.text is None && r.input_tokens is None && r.output_tokens is None
                    && (r.error matches Some(e) && e@ == http_error_message(service@, status, text@))
                    && (r.error_code matches Some(c) && c@ == "http_error"@)
            },
        },
{
    match reply {
        Err(e) => LlmGenerateOutcome::err_with(Some("network_error"), e),
        Ok((status, text, input, output)) => {
            if 200 <= status && status < 300 {
                LlmGenerateOutcome::ok(text, input, output)
            } else {
                let mut m = str_chars(service);
                push_all(&mut m, str_chars(" 接口返回 ").as_slice());
                push_all(&mut m, u64_decimal(status as u64).as_slice());
                push_all(&mut m, str_chars(": ").as_slice());
                let cut = truncate_utf8(text, 240);
                push_all(&mut m, str_chars(cut.as_str()).as_slice());
                LlmGenerateOutcome::err_with(Some("http_error"), string_from_chars(m.as_slice()))
            }
        },
    }
}

/// What a generation request answers before anything is sent, when the
/// provider's configuration cannot be used: the problem's code and message
/// (see [`config_problem`]); nothing when the request can go.
pub fn config_outcome(api_key: &str, model: &str) -> (r: Option<LlmGenerateOutcome>)
    ensures
        match config_problem(api_key@, model@) {
            None => r is None,
            Some((code, message)) => r matches Some(o) && !o.ok && o.text is None
                && (o.error matches Some(e) && e@ == message)
                && (o.error_code matches Some(c) && c@ == code),
        },
{
    match validate_config(api_key, model) {
        Ok(()) => None,
        Err((code, message)) => Some(LlmGenerateOutcome::err_with(Some(code.as_str()), message)),
    }
}

/// What a connection test answers (`reply` is the status and the reply body,
/// or why the request failed): a network failure (`network_error`); for a
/// success status, the status; else `HTTP <status>: <detail>` with the
/// reply's error detail (see [`error_detail_spec`]).
pub fn test_outcome(reply: Result<(u16, String), String>) -> (r: LlmTestOutcome)
    ensures
        match reply {
            Err(e) => !r.ok && r.status is None && r.error == Some(e)
                && (r.error_code matches Some(c) && c@ == "network_error"@),
            Ok((status, body)) => if is_success(status) {
                r.ok && r.status == Some(status) && r.error is None && r.error_code is None
            } else {
                !r.ok && r.status == Some(status)
                    && (r.error matches Some(e) && e@ == "HTTP "@ + decimal(status as nat) + ": "@ + error_detail_spec(body@))
                    && (r.error_code matches Some(c) && c@ == "http_error"@)
            },
        },
{
    match reply {
        Err(e) => LlmTestOutcome::client_err_with(Some("network_error"), e),
        Ok((status, body)) => {
            if 200 <= status && status < 300 {
                LlmTestOutcome::ok(status)
            } else {
                let mut m = str_chars("HTTP ");
                push_all(&mut m, u64_decimal(status as u64).as_slice());
                push_all(&mut m, str_chars(": ").as_slice());
                let d = error_detail(body.as_str());
                push_all(&mut m, str_chars(d.as_str()).as_slice());
                LlmTestOutcome::http_err_with(status, string_from_chars(m.as_slice()))
            }
        },
    }
}

/// A stream answered with an HTTP error status is not read as a stream: the
/// request gives the status and the whole reply, with no token counts, and
/// the stream ends with the error `HTTP <status>`. A success status gives
/// nothing here (the body is read as a stream).
pub fn rejected_stream(status: u16, body: String) -> (r: Option<((u16, String, Option<u64>, Option<u64>), String)>)
    ensures
        is_success(status) ==> r is None,
        !is_success(status) ==> (r matches Some((reply, end)) && reply == (status, body, None::<u64>, None::<u64>)
            && end@ == "HTTP "@ + decimal(status as nat)),
{
    if 200 <= status && status < 300 {
        None
    } else {
        let mut m = str_chars("HTTP ");
        push_all(&mut m, u64_decimal(status as u64).as_slice());
        Some(((status, body, None, None), string_from_chars(m.as_slice())))
    }
}

/// An OpenAI-compatible endpoint URL: the base without trailing slashes or a
/// final `/v1`, then `/v1/`, then the endpoint without leading slashes.
pub open spec fn openai_url(base: Seq<char>, endpoint: Seq<char>) -> Seq<char> {
    let b = trim_end_char(base, '/');
    let b2 = if has_suffix(b, "/v1"@) { b.take(b.len() - 3) } else { b };
    b2 + "/v1/"@ + trim_start_char(endpoint, '/')
}

/// Joins an OpenAI-compatible base URL and an endpoint, whether or not the
/// base already ends in `/v1`.
pub fn build_openai_url(base: &str, endpoint: &str) -> (r: String)
    ensures
        r@ == openai_url(base@, endpoint@),
{
    let b = str_chars(base);
    let n = trim_end_char_len(b.as_slice(), '/');
    let b1 = slice_range(b.as_slice(), 0, n);
    assert(b1@ =~= b@.take(n as int));
    let v1 = str_chars("/v1");
    proof { reveal_strlit("/v1"); }
    let mut out = if ends_with(b1.as_slice(), v1.as_slice()) {
        let t = slice_range(b1.as_slice(), 0, b1.len() - 3);
        assert(t@ =~= b1@.take(b1@.len() - 3));
        t
    } else {
        b1
    };
    let mid = str_chars("/v1/");
    push_all(&mut out, mid.as_slice());
    let e = str_chars(endpoint);
    let k = lead_char_count(e.as_slice(), '/');
    let e1 = slice_range(e.as_slice(), k, e.len());
    assert(e1@ =~= e@.skip(k as int));
    push_all(&mut out, e1.as_slice());
    string_from_chars(out.as_slice())
}

/// The part of `s` after its last `c` (all of `s` when there is none).
pub open spec fn after_last(s: Seq<char>, c: char) -> Seq<char>
    decreases s.len(),
{
    if s.len() == 0 {
        s
    } else if s.last() == c {
        Seq::empty()
    } else {
        after_last(s.drop_last(), c).push(s.last())
    }
}

/// GPT-5 and the `o<digit>` families are reasoning models (judged on the
/// last `/`-separated part of the trimmed name, without ASCII case).
pub open spec fn reasoning_model(model: Seq<char>) -> bool {
    let m = lower(after_last(trim(model), '/'));
    has_prefix(m, "gpt-5"@) || (m.len() >= 2 && m[0] == 'o' && is_ascii_digit(m[1]))
}

fn after_last_exec(s: &[char], c: char) -> (r: Vec<char>)
    ensures
        r@ == after_last(s@, c),
{
    let mut i = s.len();
    assert(s@.take(i as int) =~= s@);
    assert(s@ + s@.skip(i as int) =~= s@);
    while i > 0 && s[i - 1] != c
        invariant
            i <= s@.len(),
            after_last(s@, c) == after_last(s@.take(i as int), c) + s@.skip(i as int),
        decreases i,
    {
        proof {
            let t = s@.take(i as int);
            assert(t.drop_last() =~= s@.take(i - 1));
            assert(s@.skip(i - 1) =~= seq![s@[i - 1]] + s@.skip(i as int));
            assert(after_last(t, c) == after_last(t.drop_last(), c).push(t.last()));
            assert(after_last(t.drop_last(), c).push(t.last()) + s@.skip(i as int)
                =~= after_last(s@.take(i - 1), c) + s@.skip(i - 1));
        }
        i = i - 1;
    }
    proof {
        assert(s@.take(s@.len() as int) =~= s@);
        let t = s@.take(i as int);
        assert(after_last(t, c) =~= Seq::<char>::empty());
    }
    let r = slice_range(s, i, s.len());
    assert(r@ =~= s@.skip(i as int));
    assert(after_last(s@, c) =~= r@);
    r
}

/// Whether a model needs the reasoning-model request parameters.
pub fn is_openai_reasoning_model(model: &str) -> (b: bool)
    ensures
        b == reasoning_model(model@),
{
    let m = str_chars(model);
    let t = trim_chars(m.as_slice());
    let last = after_last_exec(t.as_slice(), '/');
    let l = to_lower(last.as_slice());
    let g5 = str_chars("gpt-5");
    starts_with(l.as_slice(), g5.as_slice()) || (l.len() >= 2 && l[0] == 'o' && '0' <= l[1] && l[1] <= '9')
}

/// Bytes of a character's UTF-8 encoding.
pub open spec fn utf8_width(c: char) -> nat {
    let u = c as u32;
    if u < 0x80 {
        1
    } else if u < 0x800 {
        2
    } else if u < 0x10000 {
        3
    } else {
        4
    }
}

/// Bytes of a text's UTF-8 encoding.
pub open spec fn utf8_len(s: Seq<char>) -> nat
    decreases s.len(),
{
    if s.len() == 0 {
        0
    } else {
        utf8_width(s[0]) + utf8_len(s.drop_first())
    }
}

/// The longest prefix of `s` whose UTF-8 encoding takes at most `max` bytes.
pub open spec fn utf8_prefix(s: Seq<char>, max: int) -> Seq<char>
    decreases s.len(),
{
    if s.len() == 0 || utf8_width(s[0]) > max {
        Seq::empty()
    } else {
        seq![s[0]] + utf8_prefix(s.drop_first(), max - utf8_width(s[0]))
    }
}

/// What truncation keeps: a prefix of the text whose UTF-8 encoding fits in
/// `max` bytes, and the longest such (the next character would not fit); the
/// whole text when it fits.
pub proof fn lemma_utf8_prefix(s: Seq<char>, max: int)
    requires
        max >= 0,
    ensures
        utf8_prefix(s, max).len() <= s.len(),
        s.take(utf8_prefix(s, max).len() as int) == utf8_prefix(s, max),
        utf8_len(utf8_prefix(s, max)) <= max,
        utf8_prefix(s, max).len() < s.len()
            ==> utf8_len(utf8_prefix(s, max)) + utf8_width(s[utf8_prefix(s, max).len() as int]) > max,
        utf8_len(s) <= max ==> utf8_prefix(s, max) == s,
    decreases s.len(),
{
    if s.len() == 0 {
        assert(s.take(0) =~= s);
    } else if utf8_width(s[0]) > max {
        assert(s.take(0) =~= Seq::<char>::empty());
        assert(utf8_len(Seq::<char>::empty()) == 0);
    } else {
        let w = utf8_width(s[0]);
        let t = s.drop_first();
        lemma_utf8_prefix(t, max - w);
        let p = utf8_prefix(t, max - w);
        let q = seq![s[0]] + p;
        assert(q.drop_first() =~= p);
        assert(q[0] == s[0]);
        assert(utf8_len(q) == w + utf8_len(p));
        assert(s.take(q.len() as int) =~= q) by {
            assert forall|i: int| 0 <= i < q.len() implies s.take(q.len() as int)[i] == q[i] by {
                if i > 0 {
                    assert(t.take(p.len() as int)[i - 1] == p[i - 1]);
                }
            }
        }
        if q.len() < s.len() {
            assert(s[q.len() as int] == t[p.len() as int]);
        }
        if utf8_len(s) <= max {
            assert(utf8_len(s) == w + utf8_len(t));
            assert(q =~= s) by {
                assert(p == t);
            }
        }
    }
}

/// Joining an OpenAI-compatible base and an endpoint gives the same URL
/// whether the base was configured with or without `/v1` and trailing
/// slashes.
pub proof fn lemma_openai_url_v1(base: Seq<char>, endpoint: Seq<char>)
    requires
        base.len() > 0,
        base.last() != '/',
        !has_suffix(base, "/v1"@),
    ensures
        openai_url(base + "/v1"@, endpoint) == openai_url(base, endpoint),
        openai_url(base + "/v1/"@, endpoint) == openai_url(base, endpoint),
        openai_url(base + "/"@, endpoint) == openai_url(base, endpoint),
{
    reveal_strlit("/v1");
    reveal_strlit("/v1/");
    reveal_strlit("/");
    lemma_trail_count(base, '/', 0);
    assert(base.take(base.len() as int) =~= base);
    assert(trim_end_char(base, '/') == base);
    let a = base + "/v1"@;
    lemma_trail_count(a, '/', 0);
    assert(trim_end_char(a, '/') =~= a);
    assert(has_suffix(a, "/v1"@)) by {
        assert(a.skip(a.len() - 3) =~= "/v1"@);
        assert(a.subrange(a.len() - 3, a.len() as int) =~= "/v1"@);
    }
    assert(a.take(a.len() - 3) =~= base);
    let b = base + "/v1/"@;
    lemma_trail_count(b, '/', 1);
    assert(b.take(b.len() - 1) =~= a);
    let c = base + "/"@;
    lemma_trail_count(c, '/', 1);
    assert(c.take(c.len() - 1) =~= base);
}

fn char_width(c: char) -> (w: usize)
    ensures
        w == utf8_width(c),
{
    let u = c as u32;
    if u < 0x80 {
        1
    } else if u < 0x800 {
        2
    } else if u < 0x10000 {
        3
    } else {
        4
    }
}

/// Cuts `text` to at most `max_bytes` bytes of UTF-8 without splitting a character.
pub fn truncate_utf8(text: String, max_bytes: usize) -> (r: String)
    ensures
        r@ == utf8_prefix(text@, max_bytes as int),
{
    let s = str_chars(text.as_str());
    let mut i: usize = 0;
    let mut room: usize = max_bytes;
    assert(s@.skip(0) =~= s@);
    assert(s@.take(0) + s@ =~= s@);
    while i < s.len() && char_width(s[i]) <= room
        invariant
            i <= s@.len(),
            room <= max_bytes,
            utf8_prefix(text@, max_bytes as int) == s@.take(i as int) + utf8_prefix(s@.skip(i as int), room as int),
            s@ == text@,
        decreases s@.len() - i,
    {
        let w = char_width(s[i]);
        proof {
            let t = s@.skip(i as int);
            assert(t.drop_first() =~= s@.skip(i + 1));
            assert(t[0] == s@[i as int]);
            assert(s@.take(i as int) + (seq![t[0]] + utf8_prefix(t.drop_first(), room - w))
                =~= s@.take(i + 1) + utf8_prefix(s@.skip(i + 1), room - w));
        }
        room = room - w;
        i = i + 1;
    }
    proof {
        if i < s@.len() {
            assert(s@.skip(i as int)[0] == s@[i as int]);
        }
        assert(utf8_prefix(s@.skip(i as int), room as int) =~= Seq::<char>::empty());
        assert(s@.take(i as int) + Seq::<char>::empty() =~= s@.take(i as int));
    }
    let out = slice_range(s.as_slice(), 0, i);
    assert(out@ =~= s@.take(i as int));
    string_from_chars(out.as_slice())
}

/// The first of the given leaves that is present, read as text.
pub open spec fn first_present_str(a: Option<JsonLeafView>, b: Option<JsonLeafView>, c: Option<JsonLeafView>) -> Option<Seq<char>> {
    let v = if a is Some { a } else if b is Some { b } else { c };
    match v {
        Some(JsonLeafView::Str(s)) => Some(s),
        _ => None,
    }
}

/// The detail of an error reply: `error.message`, else
/// `response.error.message`, else `message` (the first present, when it is
/// text), else the trimmed body; `响应体为空` for nothing; cut to 240 bytes.
pub open spec fn error_detail_spec(body: Seq<char>) -> Seq<char> {
    let d = match first_present_str(
        json_leaf(body, "/error/message"@),
        json_leaf(body, "/response/error/message"@),
        json_leaf(body, "/message"@),
    ) {
        Some(s) => s,
        None => trim(body),
    };
    let d2 = if d.len() == 0 { "响应体为空"@ } else { d };
    utf8_prefix(d2, 240)
}

fn first_present(body: &str, a: &str, b: &str, c: &str) -> (r: Option<String>)
    ensures
        match r {
            Some(s) => first_present_str(json_leaf(body@, a@), json_leaf(body@, b@), json_leaf(body@, c@)) == Some(s@),
            None => first_present_str(json_leaf(body@, a@), json_leaf(body@, b@), json_leaf(body@, c@)) is None,
        },
{
    let la = json_pointer(body, a);
    let v = if la.is_some() {
        la
    } else {
        let lb = json_pointer(body, b);
        if lb.is_some() {
            lb
        } else {
            json_pointer(body, c)
        }
    };
    match v {
        Some(JsonLeaf::Str(s)) => Some(s),
        _ => None,
    }
}

/// Extracts a displayable detail from a provider's error reply.
pub fn error_detail(body: &str) -> (r: String)
    ensures
        r@ == error_detail_spec(body@),
{
    let d = match first_present(body, "/error/message", "/response/error/message", "/message") {
        Some(s) => s,
        None => {
            let b = str_chars(body);
            string_from_chars(trim_chars(b.as_slice()).as_slice())
        },
    };
    let d2 = if str_chars(d.as_str()).len() == 0 { "响应体为空".to_string() } else { d };
    truncate_utf8(d2, 240)
}

/// The failure carried by a streamed event (whose HTTP status may still be
/// 200): for a `response.failed` or `error` event, or an event with a
/// non-null `error`, the first present of `response.error.message`,
/// `error.message`, `message` when it is text, else `模型流式响应失败`.
pub open spec fn stream_error_spec(event: Seq<char>) -> Option<Seq<char>> {
    let t = str_at(event, "/type"@);
    let has_error = json_leaf(event, "/error"@) matches Some(l) && !(l is Null);
    if !(t == Some("response.failed"@) || t == Some("error"@)) && !has_error {
        None
    } else {
        match first_present_str(
            json_leaf(event, "/response/error/message"@),
            json_leaf(event, "/error/message"@),
            json_leaf(event, "/message"@),
        ) {
            Some(s) => Some(s),
            None => Some("模型流式响应失败"@),
        }
    }
}

/// Reads the application-level failure of a streamed event (its JSON text).
pub fn extract_openai_stream_error(event: &str) -> (r: Option<String>)
    ensures
        match r {
            Some(s) => stream_error_spec(event@) == Some(s@),
            None => stream_error_spec(event@) is None,
        },
{
    let t = str_at_pointer(event, "/type");
    let failed = str_chars("response.failed");
    let err = str_chars("error");
    let is_failure = match &t {
        Some(s) => {
            let sv = str_chars(s.as_str());
            chars_eq(sv.as_slice(), failed.as_slice()) || chars_eq(sv.as_slice(), err.as_slice())
        },
        None => false,
    };
    let has_error = match json_pointer(event, "/error") {
        Some(JsonLeaf::Null) => false,
        Some(_) => true,
        None => false,
    };
    if !is_failure && !has_error {
        return None;
    }
    match first_present(event, "/response/error/message", "/error/message", "/message") {
        Some(s) => Some(s),
        None => Some("模型流式响应失败".to_string()),
    }
}

} // verus!
