//! Per-provider request shaping: base URLs and endpoints, API key encoding in
//! URLs, headers, parameter choices, and how a conversation maps onto each
//! provider's roles.
use vstd::prelude::*;
use vstd::string::StringSliceAdditionalSpecFns;
use vstd::utf8::encode_utf8;

use crate::llm::{build_openai_url, openai_url, reasoning_model, is_openai_reasoning_model, LlmMessage};
use crate::text::{
    chars_eq, has_prefix, push_all, slice_range, starts_with, str_chars, string_from_chars, trim,
    trim_chars, trim_end_char, trim_end_char_len,
};

verus! {

/// A configured base URL: trimmed; the fallback when empty; `scheme` put in
/// front when it names no `http://` or `https://` scheme.
pub open spec fn base_url(raw: Seq<char>, fallback: Seq<char>, scheme: Seq<char>) -> Seq<char> {
    let t = trim(raw);
    if t.len() == 0 {
        fallback
    } else if has_prefix(t, "http://"@) || has_prefix(t, "https://"@) {
        t
    } else {
        scheme + t
    }
}

/// Normalises a configured base URL, putting `scheme` in front of a bare host.
pub fn normalize_url_with(raw: &str, fallback: &str, scheme: &str) -> (r: String)
    ensures
        r@ == base_url(raw@, fallback@, scheme@),
{
    let v = str_chars(raw);
    let t = trim_chars(v.as_slice());
    if t.len() == 0 {
        return fallback.to_string();
    }
    let h1 = str_chars("http://");
    let h2 = str_chars("https://");
    if starts_with(t.as_slice(), h1.as_slice()) || starts_with(t.as_slice(), h2.as_slice()) {
        return string_from_chars(t.as_slice());
    }
    let mut out = str_chars(scheme);
    push_all(&mut out, t.as_slice());
    string_from_chars(out.as_slice())
}

/// Normalises a model provider's base URL (a bare host gets `https://`).
pub fn normalize_base_url(raw: &str, fallback: &str) -> (r: String)
    ensures
        r@ == base_url(raw@, fallback@, "https://"@),
{
    normalize_url_with(raw, fallback, "https://")
}

/// `base` without trailing slashes, then `path`.
pub open spec fn endpoint(base: Seq<char>, path: Seq<char>) -> Seq<char> {
    trim_end_char(base, '/') + path
}

/// Appends a fixed path to a base URL stripped of its trailing slashes.
pub fn join_endpoint(base: &str, path: &str) -> (r: String)
    ensures
        r@ == endpoint(base@, path@),
{
    let b = str_chars(base);
    let n = trim_end_char_len(b.as_slice(), '/');
    let mut out = slice_range(b.as_slice(), 0, n);
    assert(out@ =~= b@.take(n as int));
    let p = str_chars(path);
    push_all(&mut out, p.as_slice());
    string_from_chars(out.as_slice())
}

/// Anthropic Messages endpoint.
pub fn build_messages_url(base: &str) -> (r: String)
    ensures
        r@ == endpoint(base@, "/v1/messages"@),
{
    join_endpoint(base, "/v1/messages")
}

/// OpenAI Responses endpoint.
pub fn build_responses_url(base: &str) -> (r: String)
    ensures
        r@ == endpoint(base@, "/v1/responses"@),
{
    join_endpoint(base, "/v1/responses")
}

/// OpenAI Responses provider's model list endpoint.
pub fn build_models_url(base: &str) -> (r: String)
    ensures
        r@ == endpoint(base@, "/v1/models"@),
{
    join_endpoint(base, "/v1/models")
}

/// OpenAI Chat Completions endpoint (tolerating a base that ends in `/v1`).
pub fn build_chat_url(base: &str) -> (r: String)
    ensures
        r@ == openai_url(base@, "chat/completions"@),
{
    build_openai_url(base, "chat/completions")
}

/// OpenAI Chat provider's model list endpoint (tolerating a base that ends in `/v1`).
pub fn build_chat_models_url(base: &str) -> (r: String)
    ensures
        r@ == openai_url(base@, "models"@),
{
    build_openai_url(base, "models")
}

/// Bytes left as they are by percent-encoding.
pub open spec fn unreserved(b: u8) -> bool {
    (0x41 <= b <= 0x5a) || (0x61 <= b <= 0x7a) || (0x30 <= b <= 0x39) || b == 0x2d || b == 0x5f || b == 0x2e || b == 0x7e
}

/// Upper-case hexadecimal digit.
pub open spec fn hex_digit(d: nat) -> char {
    if d < 10 {
        ((d + 48) as u32) as char
    } else {
        ((d + 55) as u32) as char
    }
}

/// Percent-encoding of bytes: unreserved bytes stay, every other becomes
/// `%` and two upper-case hexadecimal digits.
pub open spec fn pct(bytes: Seq<u8>) -> Seq<char>
    decreases bytes.len(),
{
    if bytes.len() == 0 {
        Seq::empty()
    } else {
        let b = bytes.last();
        let e = if unreserved(b) {
            seq![(b as u32) as char]
        } else {
            seq!['%', hex_digit((b / 16) as nat), hex_digit((b % 16) as nat)]
        };
        pct(bytes.drop_last()) + e
    }
}

/// Characters that percent-encoded text may hold: ASCII letters and digits,
/// `-`, `_`, `.`, `~` and `%`.
pub open spec fn url_safe(c: char) -> bool {
    ('A' <= c <= 'Z') || ('a' <= c <= 'z') || ('0' <= c <= '9') || c == '-' || c == '_' || c == '.'
        || c == '~' || c == '%'
}

proof fn lemma_byte_char(b: u8)
    ensures
        ((b as u32) as char) as u32 == b as u32,
{
    let c = (b as u32) as char;
    vstd::utf8::char_is_scalar(c);
}

/// Percent-encoded text holds only URL-safe characters, so an encoded key
/// or model name cannot end the path or the query early.
pub proof fn lemma_pct_safe(bytes: Seq<u8>)
    ensures
        forall|i: int| 0 <= i < pct(bytes).len() ==> url_safe(#[trigger] pct(bytes)[i]),
    decreases bytes.len(),
{
    if bytes.len() > 0 {
        lemma_pct_safe(bytes.drop_last());
        let b = bytes.last();
        let prev = pct(bytes.drop_last());
        let e = if unreserved(b) {
            seq![(b as u32) as char]
        } else {
            seq!['%', hex_digit((b / 16) as nat), hex_digit((b % 16) as nat)]
        };
        lemma_byte_char(b);
        assert forall|i: int| 0 <= i < e.len() implies url_safe(#[trigger] e[i]) by {
            if !unreserved(b) && i > 0 {
                let d: nat = if i == 1 { (b / 16) as nat } else { (b % 16) as nat };
                assert(d < 16);
                let u: u32 = if d < 10 { (d + 48) as u32 } else { (d + 55) as u32 };
                vstd::utf8::char_is_scalar(u as char);
                assert((u as char) as u32 == u);
            }
        }
        assert forall|i: int| 0 <= i < pct(bytes).len() implies url_safe(#[trigger] pct(bytes)[i]) by {
            if i < prev.len() {
                assert(pct(bytes)[i] == prev[i]);
            } else {
                assert(pct(bytes)[i] == e[i - prev.len()]);
            }
        }
    }
}

fn hex_char(d: u8) -> (c: char)
    requires
        d < 16,
    ensures
        c == hex_digit(d as nat),
{
    if d < 10 {
        (d + 48) as char
    } else {
        (d + 55) as char
    }
}

/// Percent-encodes the UTF-8 bytes of `input`.
pub fn percent_encode(input: &str) -> (r: String)
    ensures
        r@ == pct(input.spec_bytes()),
{
    let bytes = input.as_bytes();
    let mut out: Vec<char> = Vec::new();
    let mut i: usize = 0;
    while i < bytes.len()
        invariant
            i <= bytes@.len(),
            out@ == pct(bytes@.take(i as int)),
        decreases bytes@.len() - i,
    {
        let b = bytes[i];
        assert(bytes@.take(i + 1).drop_last() =~= bytes@.take(i as int));
        assert(bytes@.take(i + 1).last() == b);
        if (0x41 <= b && b <= 0x5a) || (0x61 <= b && b <= 0x7a) || (0x30 <= b && b <= 0x39) || b == 0x2d
            || b == 0x5f || b == 0x2e || b == 0x7e {
            out.push(b as char);
        } else {
            out.push('%');
            out.push(hex_char(b / 16));
            out.push(hex_char(b % 16));
        }
        i = i + 1;
        assert(out@ =~= pct(bytes@.take(i as int)));
    }
    assert(bytes@.take(bytes@.len() as int) =~= bytes@);
    string_from_chars(out.as_slice())
}

/// `?key=<encoded key>` for a non-blank (trimmed) key, else nothing.
pub open spec fn key_query(api_key: Seq<char>) -> Seq<char> {
    let t = trim(api_key);
    if t.len() == 0 {
        Seq::empty()
    } else {
        "?key="@ + pct(encode_utf8(t))
    }
}

fn key_query_exec(api_key: &str) -> (r: Vec<char>)
    ensures
        r@ == key_query(api_key@),
{
    let k = str_chars(api_key);
    let t = trim_chars(k.as_slice());
    if t.len() == 0 {
        return Vec::new();
    }
    let mut out = str_chars("?key=");
    let ts = string_from_chars(t.as_slice());
    let enc = percent_encode(ts.as_str());
    let ev = str_chars(enc.as_str());
    push_all(&mut out, ev.as_slice());
    out
}


/// Google GenAI `generateContent` URL for a model.
pub open spec fn generate_url(base: Seq<char>, api_key: Seq<char>, model: Seq<char>) -> Seq<char> {
    trim_end_char(base, '/') + "/v1beta/models/"@ + pct(encode_utf8(model)) + ":generateContent"@ + key_query(api_key)
}

/// Builds the Google GenAI generation URL (model and key percent-encoded).
pub fn build_generate_url(base: &str, api_key: &str, model: &str) -> (r: String)
    ensures
        r@ == generate_url(base@, api_key@, model@),
{
    let b = str_chars(base);
    let n = trim_end_char_len(b.as_slice(), '/');
    let mut out = slice_range(b.as_slice(), 0, n);
    assert(out@ =~= b@.take(n as int));
    let p = str_chars("/v1beta/models/");
    push_all(&mut out, p.as_slice());
    let m = percent_encode(model);
    let mv = str_chars(m.as_str());
    push_all(&mut out, mv.as_slice());
    let g = str_chars(":generateContent");
    push_all(&mut out, g.as_slice());
    let q = key_query_exec(api_key);
    push_all(&mut out, q.as_slice());
    string_from_chars(out.as_slice())
}

/// Google GenAI model list URL.
pub open spec fn google_models_url(base: Seq<char>, api_key: Seq<char>) -> Seq<char> {
    trim_end_char(base, '/') + "/v1beta/models"@ + key_query(api_key)
}

/// Builds the Google GenAI model list URL.
pub fn build_google_models_url(base: &str, api_key: &str) -> (r: String)
    ensures
        r@ == google_models_url(base@, api_key@),
{
    let b = str_chars(base);
    let n = trim_end_char_len(b.as_slice(), '/');
    let mut out = slice_range(b.as_slice(), 0, n);
    assert(out@ =~= b@.take(n as int));
    let p = str_chars("/v1beta/models");
    push_all(&mut out, p.as_slice());
    let q = key_query_exec(api_key);
    push_all(&mut out, q.as_slice());
    string_from_chars(out.as_slice())
}

/// Why a provider configuration cannot be used: the code and the message.
pub open spec fn config_problem(api_key: Seq<char>, model: Seq<char>) -> Option<(Seq<char>, Seq<char>)> {
    if trim(api_key).len() == 0 {
        Some(("missing_api_key"@, "未填写 API Key"@))
    } else if trim(model).len() == 0 {
        Some(("missing_model"@, "未填写模型名"@))
    } else {
        None
    }
}

/// Checks that a provider has an API key and a model.
pub fn validate_config(api_key: &str, model: &str) -> (r: Result<(), (String, String)>)
    ensures
        match r {
            Ok(()) => config_problem(api_key@, model@) is None,
            Err((c, m)) => config_problem(api_key@, model@) == Some((c@, m@)),
        },
{
    if trim_chars(str_chars(api_key).as_slice()).len() == 0 {
        return Err(("missing_api_key".to_string(), "未填写 API Key".to_string()));
    }
    if trim_chars(str_chars(model).as_slice()).len() == 0 {
        return Err(("missing_model".to_string(), "未填写模型名".to_string()));
    }
    Ok(())
}

/// A request header.
pub struct Header {
    pub name: String,
    pub value: String,
}

pub open spec fn headers_view(v: Seq<Header>) -> Seq<(Seq<char>, Seq<char>)> {
    v.map_values(|h: Header| (h.name@, h.value@))
}

fn header(name: &str, value: String) -> (h: Header)
    ensures
        h.name@ == name@,
        h.value == value,
{
    Header { name: name.to_string(), value }
}

/// Headers of an OpenAI-compatible request: JSON content and a bearer token.
pub fn openai_auth_headers(api_key: &str) -> (r: Vec<Header>)
    ensures
        headers_view(r@) == seq![
            ("Content-Type"@, "application/json"@),
            ("Authorization"@, "Bearer "@ + trim(api_key@)),
        ],
{
    let mut bearer = str_chars("Bearer ");
    let t = trim_chars(str_chars(api_key).as_slice());
    push_all(&mut bearer, t.as_slice());
    let mut v: Vec<Header> = Vec::new();
    v.push(header("Content-Type", "application/json".to_string()));
    v.push(header("Authorization", string_from_chars(bearer.as_slice())));
    assert(headers_view(v@) =~= seq![
        ("Content-Type"@, "application/json"@),
        ("Authorization"@, "Bearer "@ + trim(api_key@)),
    ]);
    v
}

/// Headers of an Anthropic request: JSON content, the key, the API version.
pub fn anthropic_auth_headers(api_key: &str) -> (r: Vec<Header>)
    ensures
        headers_view(r@) == seq![
            ("Content-Type"@, "application/json"@),
            ("x-api-key"@, trim(api_key@)),
            ("anthropic-version"@, "2023-06-01"@),
        ],
{
    let t = trim_chars(str_chars(api_key).as_slice());
    let mut v: Vec<Header> = Vec::new();
    v.push(header("Content-Type", "application/json".to_string()));
    v.push(header("x-api-key", string_from_chars(t.as_slice())));
    v.push(header("anthropic-version", "2023-06-01".to_string()));
    assert(headers_view(v@) =~= seq![
        ("Content-Type"@, "application/json"@),
        ("x-api-key"@, trim(api_key@)),
        ("anthropic-version"@, "2023-06-01"@),
    ]);
    v
}

/// The output-limit parameter a chat request uses for a model.
pub open spec fn token_limit_key(model: Seq<char>) -> Seq<char> {
    if reasoning_model(model) { "max_completion_tokens"@ } else { "max_tokens"@ }
}

/// Names the output-limit parameter for a model (reasoning models take
/// `max_completion_tokens`).
pub fn token_limit_param(model: &str) -> (r: &'static str)
    ensures
        r@ == token_limit_key(model@),
{
    if is_openai_reasoning_model(model) { "max_completion_tokens" } else { "max_tokens" }
}

/// The output limit a chat request carries: the model's limit parameter and
/// the requested number of tokens, when a positive number was requested.
pub fn token_limit(model: &str, max_tokens: Option<u64>) -> (r: Option<(&'static str, u64)>)
    ensures
        match max_tokens {
            Some(n) if n > 0 => r matches Some((key, m)) && key@ == token_limit_key(model@) && m == n,
            _ => r is None,
        },
{
    match max_tokens {
        Some(n) => if n > 0 { Some((token_limit_param(model), n)) } else { None },
        None => None,
    }
}

/// Whether a chat request may carry a temperature (reasoning models take none).
pub fn sends_temperature(model: &str) -> (b: bool)
    ensures
        b == !reasoning_model(model@),
{
    !is_openai_reasoning_model(model)
}

pub open spec fn messages_view(v: Seq<LlmMessage>) -> Seq<(Seq<char>, Seq<char>)> {
    v.map_values(|m: LlmMessage| (m.role@, m.content@))
}

/// The system text: the contents of the `system` messages, joined by line breaks.
pub open spec fn system_text(msgs: Seq<(Seq<char>, Seq<char>)>) -> Seq<char>
    decreases msgs.len(),
{
    if msgs.len() == 0 {
        Seq::empty()
    } else {
        let before = system_text(msgs.drop_last());
        let m = msgs.last();
        if m.0 != "system"@ {
            before
        } else if system_count(msgs.drop_last()) == 0 {
            m.1
        } else {
            before + seq!['\n'] + m.1
        }
    }
}

/// Number of `system` messages.
pub open spec fn system_count(msgs: Seq<(Seq<char>, Seq<char>)>) -> nat
    decreases msgs.len(),
{
    if msgs.len() == 0 {
        0
    } else {
        system_count(msgs.drop_last()) + if msgs.last().0 == "system"@ { 1nat } else { 0nat }
    }
}

/// The other messages, in order, with `assistant` given the provider's name
/// for it and every other role sent as `user`.
pub open spec fn turns(msgs: Seq<(Seq<char>, Seq<char>)>, assistant: Seq<char>) -> Seq<(Seq<char>, Seq<char>)>
    decreases msgs.len(),
{
    if msgs.len() == 0 {
        Seq::empty()
    } else {
        let before = turns(msgs.drop_last(), assistant);
        let m = msgs.last();
        if m.0 == "system"@ {
            before
        } else {
            before.push((if m.0 == "assistant"@ { assistant } else { "user"@ }, m.1))
        }
    }
}

/// Splits a conversation for providers that take the system text apart:
/// the joined system text, and the remaining turns with `assistant` renamed.
pub fn split_conversation(messages: &Vec<LlmMessage>, assistant: &str) -> (r: (String, Vec<LlmMessage>))
    ensures
        r.0@ == system_text(messages_view(messages@)),
        messages_view(r.1@) == turns(messages_view(messages@), assistant@),
{
    let sys_key = str_chars("system");
    let asst_key = str_chars("assistant");
    let mut system: Vec<char> = Vec::new();
    let mut count: usize = 0;
    let mut out: Vec<LlmMessage> = Vec::new();
    let mut i: usize = 0;
    let ghost mv = messages_view(messages@);
    while i < messages.len()
        invariant
            i <= messages@.len(),
            mv == messages_view(messages@),
            sys_key@ == "system"@,
            asst_key@ == "assistant"@,
            system@ == system_text(mv.take(i as int)),
            count == system_count(mv.take(i as int)),
            count <= i,
            count == 0 ==> system@ == Seq::<char>::empty(),
            messages_view(out@) == turns(mv.take(i as int), assistant@),
        decreases messages@.len() - i,
    {
        let m = &messages[i];
        let role = str_chars(m.role.as_str());
        proof {
            assert(mv.take(i + 1).drop_last() =~= mv.take(i as int));
            assert(mv.take(i + 1).last() == (m.role@, m.content@));
        }
        if chars_eq(role.as_slice(), sys_key.as_slice()) {
            let c = str_chars(m.content.as_str());
            if count > 0 {
                system.push('\n');
            }
            push_all(&mut system, c.as_slice());
            proof {
                if count == 0 {
                    assert(system@ =~= m.content@);
                }
            }
            count = count + 1;
        } else {
            let r = if chars_eq(role.as_slice(), asst_key.as_slice()) { assistant.to_string() } else { "user".to_string() };
            let ghost prev = out@;
            out.push(LlmMessage { role: r, content: m.content.clone() });
            proof {
                assert(messages_view(out@) =~= messages_view(prev).push((out@.last().role@, m.content@)));
            }
        }
        i = i + 1;
    }
    assert(mv.take(messages@.len() as int) =~= mv);
    (string_from_chars(system.as_slice()), out)
}

} // verus!
