//! MCP servers: checking their configuration, naming the tools they offer,
//! reading their SSE streams and turning tool replies into text.
use vstd::prelude::*;

use crate::json::{json_leaf, json_pointer, str_at, str_at_pointer, JsonLeaf, JsonLeafView};
use crate::text::{
    ascii_lower, char_ascii_lower, chars_eq, find_char_from, find_from, has_prefix, i64_decimal,
    int_text, is_ascii_alnum, join, lower, push_all, starts_with, str_chars, string_from_chars,
    trim, trim_chars, trim_end_char, trim_end_char_len, u64_decimal, decimal, slice_range, to_lower,
    trail_count,
};

verus! {

/// An error of the MCP transport layer.
pub struct McpError(pub String);

impl McpError {
    /// The error's text.
    pub fn message(&self) -> (r: String)
        ensures
            r@ == self.0@,
    {
        self.0.clone()
    }
}

/// Whether a tool belongs to the MCP provider (whose calls take the
/// asynchronous path).
pub fn is_mcp_provider(provider: &str) -> (b: bool)
    ensures
        b == (provider@ == "mcp"@),
{
    chars_eq(str_chars(provider).as_slice(), str_chars("mcp").as_slice())
}

/// The result of syncing one server's tools.
pub struct SyncSummary {
    pub server_id: i64,
    pub server_name: String,
    pub ok: bool,
    pub tool_count: usize,
    /// Labels of the synced tools.
    pub tools: Vec<String>,
    pub error: Option<String>,
}

/// A server whose tools were synced, with their labels.
pub fn synced_summary(server_id: i64, server_name: String, tools: Vec<String>) -> (r: SyncSummary)
    ensures
        r.server_id == server_id,
        r.server_name == server_name,
        r.ok,
        r.tool_count == tools@.len(),
        r.tools == tools,
        r.error is None,
{
    let n = tools.len();
    SyncSummary { server_id, server_name, ok: true, tool_count: n, tools, error: None }
}

/// A disabled server: nothing synced, and no error.
pub fn disabled_summary(server_id: i64, server_name: String) -> (r: SyncSummary)
    ensures
        r.server_id == server_id,
        r.server_name == server_name,
        r.ok,
        r.tool_count == 0,
        r.tools@.len() == 0,
        r.error is None,
{
    SyncSummary { server_id, server_name, ok: true, tool_count: 0, tools: Vec::new(), error: None }
}

/// A server whose sync failed.
pub fn failed_summary(server_id: i64, server_name: String, error: String) -> (r: SyncSummary)
    ensures
        r.server_id == server_id,
        r.server_name == server_name,
        !r.ok,
        r.tool_count == 0,
        r.tools@.len() == 0,
        r.error == Some(error),
{
    SyncSummary { server_id, server_name, ok: false, tool_count: 0, tools: Vec::new(), error: Some(error) }
}

/// A server whose tools were synced, from the naming of each tool it
/// offered (see [`mcp_tool_naming`]): the tools' labels in listing order.
pub fn summary_from_namings(server_id: i64, server_name: String, namings: &Vec<McpToolNaming>) -> (r: SyncSummary)
    ensures
        r.server_id == server_id,
        r.server_name == server_name,
        r.ok,
        r.tool_count == namings@.len(),
        r.tools@.len() == namings@.len(),
        forall|i: int| 0 <= i < namings@.len() ==> #[trigger] r.tools@[i]@ == namings@[i].label@,
        r.error is None,
{
    let mut labels: Vec<String> = Vec::new();
    let mut i: usize = 0;
    while i < namings.len()
        invariant
            i <= namings@.len(),
            labels@.len() == i,
            forall|j: int| 0 <= j < i ==> #[trigger] labels@[j]@ == namings@[j].label@,
        decreases namings@.len() - i,
    {
        labels.push(namings[i].label.clone());
        i = i + 1;
    }
    synced_summary(server_id, server_name, labels)
}

/// A character kept in a tool name.
pub open spec fn name_char(c: char) -> bool {
    is_ascii_alnum(c) || c == '_'
}

/// Name cleaning after reading `s`: the text so far, and whether it ends
/// with a dash put in for a run of other characters.
pub open spec fn clean_state(s: Seq<char>) -> (Seq<char>, bool)
    decreases s.len(),
{
    if s.len() == 0 {
        (Seq::empty(), false)
    } else {
        let (o, dash) = clean_state(s.drop_last());
        let c = s.last();
        if name_char(c) {
            (o.push(ascii_lower(c)), false)
        } else if !dash && o.len() > 0 {
            (o.push('-'), true)
        } else {
            (o, dash)
        }
    }
}

/// A tool name made from `s`: letters (in lower case), digits and `_` kept,
/// each run of other characters after the start turned into one `-`,
/// trailing dashes dropped, and `tool` when nothing is left.
pub open spec fn clean_name(s: Seq<char>) -> Seq<char> {
    let o = trim_end_char(clean_state(s).0, '-');
    if o.len() == 0 { "tool"@ } else { o }
}

/// Cleans a name so that a `<tool_call name>` tag can carry it.
pub fn sanitize_name(input: &str) -> (r: String)
    ensures
        r@ == clean_name(input@),
{
    let s = str_chars(input);
    let mut out: Vec<char> = Vec::new();
    let mut last_dash = false;
    let mut i: usize = 0;
    while i < s.len()
        invariant
            i <= s@.len(),
            (out@, last_dash) == clean_state(s@.take(i as int)),
        decreases s@.len() - i,
    {
        let c = s[i];
        assert(s@.take(i as int + 1).drop_last() =~= s@.take(i as int));
        assert(s@.take(i as int + 1).last() == c);
        if ('0' <= c && c <= '9') || ('a' <= c && c <= 'z') || ('A' <= c && c <= 'Z') || c == '_' {
            out.push(char_ascii_lower(c));
            last_dash = false;
        } else if !last_dash && out.len() > 0 {
            out.push('-');
            last_dash = true;
        }
        i = i + 1;
    }
    assert(s@.take(s@.len() as int) =~= s@);
    let k = trim_end_char_len(out.as_slice(), '-');
    if k == 0 {
        return "tool".to_string();
    }
    string_from_chars(slice_range(out.as_slice(), 0, k).as_slice())
}

/// What name cleaning leaves: no character but lower-case letters, digits,
/// `_` and `-`; no dash first, last, or next to another dash.
pub open spec fn tidy_name(n: Seq<char>) -> bool {
    &&& n.len() > 0
    &&& forall|i: int| 0 <= i < n.len() ==> (('a' <= #[trigger] n[i] <= 'z') || ('0' <= n[i] <= '9')
        || n[i] == '_' || n[i] == '-')
    &&& n[0] != '-'
    &&& n.last() != '-'
    &&& forall|i: int| 0 <= i < n.len() - 1 ==> !(#[trigger] n[i] == '-' && n[i + 1] == '-')
}

/// The text name cleaning builds: only allowed characters, no leading dash,
/// no two dashes in a row, and `dash` tells whether it ends with one.
proof fn lemma_clean_state(s: Seq<char>)
    ensures
        ({
            let (o, dash) = clean_state(s);
            &&& forall|i: int| 0 <= i < o.len() ==> (('a' <= #[trigger] o[i] <= 'z') || ('0' <= o[i] <= '9')
                || o[i] == '_' || o[i] == '-')
            &&& (o.len() > 0 ==> o[0] != '-')
            &&& forall|i: int| 0 <= i < o.len() - 1 ==> !(#[trigger] o[i] == '-' && o[i + 1] == '-')
            &&& (dash <==> (o.len() > 0 && o.last() == '-'))
        }),
    decreases s.len(),
{
    if s.len() > 0 {
        lemma_clean_state(s.drop_last());
        let (o, dash) = clean_state(s.drop_last());
        let c = s.last();
        if name_char(c) {
            let n = o.push(ascii_lower(c));
            assert forall|i: int| 0 <= i < n.len() implies (('a' <= #[trigger] n[i] <= 'z') || ('0' <= n[i] <= '9')
                || n[i] == '_' || n[i] == '-') by {
                if i < o.len() {
                    assert(n[i] == o[i]);
                }
            }
            assert forall|i: int| 0 <= i < n.len() - 1 implies !(#[trigger] n[i] == '-' && n[i + 1] == '-') by {
                if i < o.len() - 1 {
                    assert(n[i] == o[i] && n[i + 1] == o[i + 1]);
                }
            }
        } else if !dash && o.len() > 0 {
            let n = o.push('-');
            assert forall|i: int| 0 <= i < n.len() implies (('a' <= #[trigger] n[i] <= 'z') || ('0' <= n[i] <= '9')
                || n[i] == '_' || n[i] == '-') by {
                if i < o.len() {
                    assert(n[i] == o[i]);
                }
            }
            assert forall|i: int| 0 <= i < n.len() - 1 implies !(#[trigger] n[i] == '-' && n[i + 1] == '-') by {
                if i < o.len() - 1 {
                    assert(n[i] == o[i] && n[i + 1] == o[i + 1]);
                } else {
                    assert(n[i] == o.last());
                }
            }
        }
    }
}

/// Every cleaned name is tidy: it can stand in a `<tool_call name>` tag.
pub proof fn lemma_clean_name_tidy(s: Seq<char>)
    ensures
        tidy_name(clean_name(s)),
{
    lemma_clean_state(s);
    let o = clean_state(s).0;
    let t = trim_end_char(o, '-');
    crate::text::lemma_trail_count_bound(o, '-');
    if t.len() == 0 {
        reveal_strlit("tool");
    } else {
        assert forall|i: int| 0 <= i < t.len() implies (('a' <= #[trigger] t[i] <= 'z') || ('0' <= t[i] <= '9')
            || t[i] == '_' || t[i] == '-') by {
            assert(t[i] == o[i]);
        }
        assert forall|i: int| 0 <= i < t.len() - 1 implies !(#[trigger] t[i] == '-' && t[i + 1] == '-') by {
            assert(t[i] == o[i] && t[i + 1] == o[i + 1]);
        }
        assert(t[0] == o[0]);
    }
}

/// Name cleaning reads a tidy name's prefixes back unchanged.
proof fn lemma_clean_state_tidy(n: Seq<char>, k: int)
    requires
        tidy_name(n),
        0 <= k <= n.len(),
    ensures
        clean_state(n.take(k)) == (n.take(k), k > 0 && n[k - 1] == '-'),
    decreases k,
{
    if k > 0 {
        lemma_clean_state_tidy(n, k - 1);
        let s = n.take(k);
        assert(s.drop_last() =~= n.take(k - 1));
        assert(s.last() == n[k - 1]);
        let c = n[k - 1];
        if name_char(c) {
            assert(ascii_lower(c) == c);
            assert(n.take(k - 1).push(c) =~= s);
        } else {
            assert(c == '-');
            if k - 1 == 0 {
                assert(n[0] != '-');
            } else {
                assert(!(n[k - 2] == '-' && n[k - 1] == '-'));
            }
            assert(n.take(k - 1).push('-') =~= s);
        }
    }
}

/// A cleaned name is cleaned to itself: cleaning is done once and for all.
pub proof fn lemma_clean_name_idempotent(s: Seq<char>)
    ensures
        clean_name(clean_name(s)) == clean_name(s),
{
    let n = clean_name(s);
    lemma_clean_name_tidy(s);
    lemma_clean_state_tidy(n, n.len() as int);
    assert(n.take(n.len() as int) =~= n);
    assert(trail_count(n, '-') == 0);
    assert(n.take(n.len() - 0) =~= n);
}

/// A tool name that does not clash with existing tools: `base`, or
/// `base-<server id>` when `base` is taken.
pub fn unique_tool_name(base: &str, server_id: i64, taken: bool) -> (r: String)
    ensures
        r@ == if taken { base@ + "-"@ + int_text(server_id as int) } else { base@ },
{
    if !taken {
        return base.to_string();
    }
    let mut v = str_chars(base);
    v.push('-');
    push_all(&mut v, i64_decimal(server_id).as_slice());
    proof {
        reveal_strlit("-");
    }
    string_from_chars(v.as_slice())
}

/// How a tool offered by an MCP server is entered among the tools.
pub struct McpToolNaming {
    /// The tool's name before clash checks: `<server>-<tool>`, both cleaned.
    pub base_name: String,
    /// The label shown: `<trimmed server name>-<title or tool name>`.
    pub label: String,
    pub description: String,
}

/// The default description of an MCP tool.
pub open spec fn default_description(server_name: Seq<char>, tool: Seq<char>) -> Seq<char> {
    "MCP 工具("@ + server_name + "): "@ + tool
}

/// Names, labels and describes a tool that a server offers.
pub fn mcp_tool_naming(server_name: &str, tool_name: &str, title: Option<String>, description: Option<String>) -> (r: McpToolNaming)
    ensures
        r.base_name@ == clean_name(server_name@) + "-"@ + clean_name(tool_name@),
        r.label@ == trim(server_name@) + "-"@ + match title { Some(t) => t@, None => tool_name@ },
        r.description@ == match description {
            Some(d) => d@,
            None => default_description(server_name@, tool_name@),
        },
{
    let mut base = str_chars(sanitize_name(server_name).as_str());
    base.push('-');
    push_all(&mut base, str_chars(sanitize_name(tool_name).as_str()).as_slice());
    let mut label = trim_chars(str_chars(server_name).as_slice());
    label.push('-');
    let shown = match title {
        Some(t) => t,
        None => tool_name.to_string(),
    };
    push_all(&mut label, str_chars(shown.as_str()).as_slice());
    let description = match description {
        Some(d) => d,
        None => {
            let mut v = str_chars("MCP 工具(");
            push_all(&mut v, str_chars(server_name).as_slice());
            push_all(&mut v, str_chars("): ").as_slice());
            push_all(&mut v, str_chars(tool_name).as_slice());
            string_from_chars(v.as_slice())
        },
    };
    proof {
        reveal_strlit("-");
    }
    McpToolNaming {
        base_name: string_from_chars(base.as_slice()),
        label: string_from_chars(label.as_slice()),
        description,
    }
}

/// An MCP server's configuration as entered; `args`, `headers` and `env` are
/// JSON documents (text).
pub struct McpServerInput {
    pub name: String,
    pub description: String,
    /// `stdio`, `sse` or `http`.
    pub transport: String,
    /// For `stdio`: the command to start.
    pub command: String,
    /// For `stdio`: the arguments (a JSON array).
    pub args: String,
    /// For `sse` and `http`: the server's address.
    pub url: String,
    /// Request headers (a JSON object).
    pub headers: String,
    /// For `stdio`: environment variables (a JSON object).
    pub env: String,
}

/// A JSON document that is an array.
pub open spec fn is_json_array(t: Seq<char>) -> bool {
    json_leaf(t, Seq::empty()) matches Some(JsonLeafView::Array(_))
}

/// A JSON document that is an object.
pub open spec fn is_json_object(t: Seq<char>) -> bool {
    json_leaf(t, Seq::empty()) matches Some(JsonLeafView::Object)
}

/// The error a server configuration gets, if any.
pub open spec fn config_error(i: McpServerInput) -> Option<Seq<char>> {
    let t = trim(i.transport@);
    if trim(i.name@).len() == 0 {
        Some("MCP 名称不能为空"@)
    } else if t != "stdio"@ && t != "sse"@ && t != "http"@ {
        Some("传输方式无效: 可选 stdio / sse / http"@)
    } else if t == "stdio"@ && trim(i.command@).len() == 0 {
        Some("stdio 传输需要填写启动命令"@)
    } else if (t == "sse"@ || t == "http"@) && trim(i.url@).len() == 0 {
        Some("sse/http 传输需要填写服务器地址"@)
    } else {
        None
    }
}

/// Checks a server configuration and tidies it: text fields trimmed, and
/// `args` / `headers` / `env` replaced by `[]` / `{}` / `{}` when they are
/// not an array / object / object.
pub fn normalize(input: &McpServerInput) -> (r: Result<McpServerInput, String>)
    ensures
        match r {
            Err(e) => config_error(*input) == Some(e@),
            Ok(o) => config_error(*input) is None
                && o.name@ == trim(input.name@)
                && o.description@ == trim(input.description@)
                && o.transport@ == trim(input.transport@)
                && o.command@ == trim(input.command@)
                && o.url@ == trim(input.url@)
                && o.args@ == (if is_json_array(input.args@) { input.args@ } else { "[]"@ })
                && o.headers@ == (if is_json_object(input.headers@) { input.headers@ } else { "{}"@ })
                && o.env@ == (if is_json_object(input.env@) { input.env@ } else { "{}"@ }),
        },
{
    let name = trim_chars(str_chars(input.name.as_str()).as_slice());
    if name.len() == 0 {
        return Err("MCP 名称不能为空".to_string());
    }
    let transport = trim_chars(str_chars(input.transport.as_str()).as_slice());
    let stdio = chars_eq(transport.as_slice(), str_chars("stdio").as_slice());
    let sse = chars_eq(transport.as_slice(), str_chars("sse").as_slice());
    let http = chars_eq(transport.as_slice(), str_chars("http").as_slice());
    if !stdio && !sse && !http {
        return Err("传输方式无效: 可选 stdio / sse / http".to_string());
    }
    let command = trim_chars(str_chars(input.command.as_str()).as_slice());
    if stdio && command.len() == 0 {
        return Err("stdio 传输需要填写启动命令".to_string());
    }
    let url = trim_chars(str_chars(input.url.as_str()).as_slice());
    if (sse || http) && url.len() == 0 {
        return Err("sse/http 传输需要填写服务器地址".to_string());
    }
    let args = match json_pointer(input.args.as_str(), "") {
        Some(JsonLeaf::Array(_)) => input.args.clone(),
        _ => "[]".to_string(),
    };
    let headers = match json_pointer(input.headers.as_str(), "") {
        Some(JsonLeaf::Object) => input.headers.clone(),
        _ => "{}".to_string(),
    };
    let env = match json_pointer(input.env.as_str(), "") {
        Some(JsonLeaf::Object) => input.env.clone(),
        _ => "{}".to_string(),
    };
    proof {
        reveal_strlit("");
        assert(""@ =~= Seq::<char>::empty());
    }
    Ok(McpServerInput {
        name: string_from_chars(name.as_slice()),
        description: string_from_chars(trim_chars(str_chars(input.description.as_str()).as_slice()).as_slice()),
        transport: string_from_chars(transport.as_slice()),
        command: string_from_chars(command.as_slice()),
        args,
        url: string_from_chars(url.as_slice()),
        headers,
        env,
    })
}

/// A request header from a server's configuration.
pub struct HeaderPair {
    pub name: String,
    pub value: String,
}

pub open spec fn pairs_view(v: Seq<HeaderPair>) -> Seq<(Seq<char>, Seq<char>)> {
    v.map_values(|h: HeaderPair| (h.name@, h.value@))
}

/// Whether a header name is `Authorization`, in any ASCII case.
pub open spec fn is_authorization(name: Seq<char>) -> bool {
    lower(name) == "authorization"@
}

/// A bearer token as configured: without a leading `Bearer `, trimmed.
pub open spec fn bearer_token(raw: Seq<char>) -> Seq<char> {
    if has_prefix(raw, "Bearer "@) { trim(raw.skip(7)) } else { trim(raw) }
}

/// Splitting configured headers (those with text values, in order): the
/// token of the last `Authorization` header, and the other headers.
pub open spec fn split_headers_spec(v: Seq<(Seq<char>, Seq<char>)>) -> (Option<Seq<char>>, Seq<(Seq<char>, Seq<char>)>)
    decreases v.len(),
{
    if v.len() == 0 {
        (None, Seq::empty())
    } else {
        let (auth, rest) = split_headers_spec(v.drop_last());
        let (k, val) = v.last();
        if is_authorization(k) {
            (Some(bearer_token(val)), rest)
        } else {
            (auth, rest.push((k, val)))
        }
    }
}

/// Sets the `Authorization` header apart from the other configured headers,
/// keeping its token.
pub fn split_headers(pairs: Vec<HeaderPair>) -> (r: (Option<String>, Vec<HeaderPair>))
    ensures
        (match r.0 { Some(a) => Some(a@), None => None }, pairs_view(r.1@)) == split_headers_spec(pairs_view(pairs@)),
{
    let ghost all = pairs@;
    let mut rest = pairs;
    let mut auth: Option<String> = None;
    let mut out: Vec<HeaderPair> = Vec::new();
    let n = rest.len();
    let mut k: usize = 0;
    let bearer = str_chars("Bearer ");
    let target = str_chars("authorization");
    while rest.len() > 0
        invariant
            all.len() == n,
            k + rest@.len() == n,
            rest@ == all.skip(k as int),
            bearer@ == "Bearer "@,
            target@ == "authorization"@,
            (match auth { Some(a) => Some(a@), None => None }, pairs_view(out@))
                == split_headers_spec(pairs_view(all.take(k as int))),
        decreases rest@.len(),
    {
        let h = rest.remove(0);
        assert(h == all[k as int]);
        assert(pairs_view(all.take(k as int + 1)).drop_last() =~= pairs_view(all.take(k as int)));
        assert(pairs_view(all.take(k as int + 1)).last() == (h.name@, h.value@));
        let l = to_lower(str_chars(h.name.as_str()).as_slice());
        if chars_eq(l.as_slice(), target.as_slice()) {
            let v = str_chars(h.value.as_str());
            let t = if starts_with(v.as_slice(), bearer.as_slice()) {
                proof {
                    reveal_strlit("Bearer ");
                }
                let s = slice_range(v.as_slice(), 7, v.len());
                assert(s@ =~= v@.skip(7));
                trim_chars(s.as_slice())
            } else {
                trim_chars(v.as_slice())
            };
            auth = Some(string_from_chars(t.as_slice()));
        } else {
            out.push(h);
            assert(pairs_view(out@) =~= split_headers_spec(pairs_view(all.take(k as int))).1.push((h.name@, h.value@)));
        }
        k = k + 1;
        assert(rest@ =~= all.skip(k as int));
    }
    assert(all.take(k as int) =~= all);
    (auth, out)
}

/// The address that opens a server's SSE stream: the trimmed address, with
/// `&event` when it already has a query, else `?event`; an error when the
/// address is blank.
pub fn sse_stream_url(url: &str) -> (r: Result<String, String>)
    ensures
        match r {
            Ok(s) => trim(url@).len() > 0 && s@ == trim(url@) + (if trim(url@).contains('?') { "&event"@ } else { "?event"@ }),
            Err(e) => trim(url@).len() == 0 && e@ == "sse 传输缺少服务器地址"@,
        },
{
    let t = trim_chars(str_chars(url).as_slice());
    if t.len() == 0 {
        return Err("sse 传输缺少服务器地址".to_string());
    }
    let mut has_query = false;
    let mut i: usize = 0;
    while i < t.len()
        invariant
            i <= t@.len(),
            has_query == exists|j: int| 0 <= j < i && t@[j] == '?',
        decreases t@.len() - i,
    {
        if t[i] == '?' {
            has_query = true;
        }
        i = i + 1;
    }
    let mut s = t;
    let tail = if has_query { str_chars("&event") } else { str_chars("?event") };
    push_all(&mut s, tail.as_slice());
    Ok(string_from_chars(s.as_slice()))
}

/// What one event of a server's SSE stream asks for.
pub enum SseAction {
    /// The address to post messages to.
    Endpoint(String),
    /// A JSON-RPC message (its text).
    Message(String),
    /// Nothing.
    Ignore,
}

/// Reads one SSE event (its name and data): an `endpoint` event gives the
/// endpoint, a `message` event a message; an unnamed event gives an endpoint
/// when its data is an `http://` or `https://` address, else a message; data
/// is trimmed, and an event without data or of another name is ignored.
pub fn classify_sse_event(event: Option<&str>, data: Option<&str>) -> (r: SseAction)
    ensures
        match data {
            None => r is Ignore,
            Some(d) => match event {
                Some(e) => if e@ == "endpoint"@ {
                    r matches SseAction::Endpoint(x) && x@ == trim(d@)
                } else if e@ == "message"@ {
                    r matches SseAction::Message(x) && x@ == trim(d@)
                } else {
                    r is Ignore
                },
                None => if has_prefix(trim(d@), "http://"@) || has_prefix(trim(d@), "https://"@) {
                    r matches SseAction::Endpoint(x) && x@ == trim(d@)
                } else {
                    r matches SseAction::Message(x) && x@ == trim(d@)
                },
            },
        },
{
    let d = match data {
        Some(d) => d,
        None => return SseAction::Ignore,
    };
    let t = trim_chars(str_chars(d).as_slice());
    let text = string_from_chars(t.as_slice());
    match event {
        Some(e) => {
            let ev = str_chars(e);
            if chars_eq(ev.as_slice(), str_chars("endpoint").as_slice()) {
                SseAction::Endpoint(text)
            } else if chars_eq(ev.as_slice(), str_chars("message").as_slice()) {
                SseAction::Message(text)
            } else {
                SseAction::Ignore
            }
        },
        None => {
            if starts_with(t.as_slice(), str_chars("http://").as_slice())
                || starts_with(t.as_slice(), str_chars("https://").as_slice()) {
                SseAction::Endpoint(text)
            } else {
                SseAction::Message(text)
            }
        },
    }
}

/// One piece of content in a tool's reply.
pub enum McpContent {
    Text(String),
    /// An image: its MIME type and the length of its (encoded) data.
    Image(String, usize),
    /// An embedded resource, by its URI.
    Resource(String),
    /// Audio: its MIME type and the length of its (encoded) data.
    Audio(String, usize),
    /// A link to a resource, by its URI.
    ResourceLink(String),
}

/// How a piece of content reads as text.
pub open spec fn content_line(c: McpContent) -> Seq<char> {
    match c {
        McpContent::Text(t) => t@,
        McpContent::Image(m, n) => "[image: "@ + m@ + " 数据 "@ + decimal(n as nat) + " 字节]"@,
        McpContent::Resource(u) => "[resource: "@ + u@ + "]"@,
        McpContent::Audio(m, n) => "[audio: "@ + m@ + " 数据 "@ + decimal(n as nat) + " 字节]"@,
        McpContent::ResourceLink(u) => "[resource link: "@ + u@ + "]"@,
    }
}

pub open spec fn content_lines(v: Seq<McpContent>) -> Seq<Seq<char>> {
    v.map_values(|c: McpContent| content_line(c))
}

fn content_line_exec(c: &McpContent) -> (r: Vec<char>)
    ensures
        r@ == content_line(*c),
{
    let r = match c {
        McpContent::Text(t) => str_chars(t.as_str()),
        McpContent::Image(m, n) => {
            let mut v = str_chars("[image: ");
            push_all(&mut v, str_chars(m.as_str()).as_slice());
            push_all(&mut v, str_chars(" 数据 ").as_slice());
            push_all(&mut v, u64_decimal(*n as u64).as_slice());
            push_all(&mut v, str_chars(" 字节]").as_slice());
            v
        },
        McpContent::Resource(u) => {
            let mut v = str_chars("[resource: ");
            push_all(&mut v, str_chars(u.as_str()).as_slice());
            push_all(&mut v, str_chars("]").as_slice());
            v
        },
        McpContent::Audio(m, n) => {
            let mut v = str_chars("[audio: ");
            push_all(&mut v, str_chars(m.as_str()).as_slice());
            push_all(&mut v, str_chars(" 数据 ").as_slice());
            push_all(&mut v, u64_decimal(*n as u64).as_slice());
            push_all(&mut v, str_chars(" 字节]").as_slice());
            v
        },
        McpContent::ResourceLink(u) => {
            let mut v = str_chars("[resource link: ");
            push_all(&mut v, str_chars(u.as_str()).as_slice());
            push_all(&mut v, str_chars("]").as_slice());
            v
        },
    };
    r
}

/// The text of a tool's reply: its pieces of content as lines.
pub fn content_to_text(content: &Vec<McpContent>) -> (r: String)
    ensures
        r@ == join(content_lines(content@), seq!['\n']),
{
    let mut out: Vec<char> = Vec::new();
    let mut i: usize = 0;
    while i < content.len()
        invariant
            i <= content@.len(),
            out@ == join(content_lines(content@.take(i as int)), seq!['\n']),
        decreases content@.len() - i,
    {
        let line = content_line_exec(&content[i]);
        let ghost prev = content_lines(content@.take(i as int));
        assert(content_lines(content@.take(i as int + 1)) =~= prev.push(content_line(content@[i as int])));
        if i > 0 {
            out.push('\n');
        }
        push_all(&mut out, line.as_slice());
        proof {
            let next = prev.push(content_line(content@[i as int]));
            assert(next.drop_last() =~= prev);
            if i == 0 {
                assert(out@ =~= next[0]);
            } else {
                assert(out@ =~= join(prev, seq!['\n']) + seq!['\n'] + next.last());
            }
        }
        i = i + 1;
    }
    assert(content@.take(content@.len() as int) =~= content@);
    string_from_chars(out.as_slice())
}

/// What a tool call hands back to the agent.
pub enum ToolReply {
    /// The server's structured result (a JSON document, as text).
    Structured(String),
    /// `{"text": ...}` with the reply's text.
    Text(String),
    /// `{"ok": true}`.
    Done,
}

/// Turns a tool's reply (its content, error flag and structured result) into
/// what the agent reads: for an error, its text (or a stock message); else
/// the structured result, else the text, else a bare success.
pub fn format_tool_result(content: &Vec<McpContent>, is_error: Option<bool>, structured: Option<String>) -> (r: Result<ToolReply, String>)
    ensures
        ({
            let text = join(content_lines(content@), seq!['\n']);
            match r {
                Err(e) => is_error == Some(true)
                    && e@ == (if text.len() == 0 { "MCP 工具执行失败"@ } else { text }),
                Ok(ToolReply::Structured(s)) => is_error != Some(true) && structured == Some(s),
                Ok(ToolReply::Text(t)) => is_error != Some(true) && structured is None
                    && text.len() > 0 && t@ == text,
                Ok(ToolReply::Done) => is_error != Some(true) && structured is None && text.len() == 0,
            }
        }),
{
    let text = content_to_text(content);
    let empty = str_chars(text.as_str()).len() == 0;
    if is_error == Some(true) {
        return Err(if empty { "MCP 工具执行失败".to_string() } else { text });
    }
    if let Some(s) = structured {
        return Ok(ToolReply::Structured(s));
    }
    if !empty {
        return Ok(ToolReply::Text(text));
    }
    Ok(ToolReply::Done)
}

/// The text items among the first `n` items of the array document `doc`, in
/// order.
pub open spec fn text_items(doc: Seq<char>, n: nat) -> Seq<Seq<char>>
    decreases n,
{
    if n == 0 {
        Seq::empty()
    } else {
        let r = text_items(doc, (n - 1) as nat);
        match str_at(doc, seq!['/'] + decimal((n - 1) as nat)) {
            Some(s) => r.push(s),
            None => r,
        }
    }
}

/// The arguments a `stdio` server is started with: the text items of its
/// `args` array (none when `args` is no array).
pub open spec fn stdio_args_spec(args: Seq<char>) -> Seq<Seq<char>> {
    match json_leaf(args, Seq::empty()) {
        Some(JsonLeafView::Array(n)) => text_items(args, n),
        _ => Seq::empty(),
    }
}

/// The command and arguments that start a `stdio` server: the trimmed
/// command (an error when it is blank) and the text items of `args`.
pub fn stdio_launch(command: &str, args: &str) -> (r: Result<(String, Vec<String>), String>)
    ensures
        match r {
            Ok((c, a)) => trim(command@).len() > 0 && c@ == trim(command@)
                && a@.map_values(|s: String| s@) == stdio_args_spec(args@),
            Err(e) => trim(command@).len() == 0 && e@ == "stdio 传输缺少启动命令"@,
        },
{
    let c = trim_chars(str_chars(command).as_slice());
    if c.len() == 0 {
        return Err("stdio 传输缺少启动命令".to_string());
    }
    let root = String::new();
    proof {
        reveal_strlit("");
    }
    let n = match json_pointer(args, root.as_str()) {
        Some(JsonLeaf::Array(n)) => n,
        _ => {
            let empty: Vec<String> = Vec::new();
            assert(empty@.map_values(|s: String| s@) =~= Seq::<Seq<char>>::empty());
            return Ok((string_from_chars(c.as_slice()), empty));
        },
    };
    let mut out: Vec<String> = Vec::new();
    let mut i: usize = 0;
    while i < n
        invariant
            i <= n,
            json_leaf(args@, Seq::empty()) == Some(JsonLeafView::Array(n as nat)),
            out@.map_values(|s: String| s@) == text_items(args@, i as nat),
        decreases n - i,
    {
        let mut p: Vec<char> = Vec::new();
        p.push('/');
        push_all(&mut p, u64_decimal(i as u64).as_slice());
        let ps = string_from_chars(p.as_slice());
        let ghost before = out@.map_values(|s: String| s@);
        if let Some(s) = str_at_pointer(args, ps.as_str()) {
            out.push(s);
            assert(out@.map_values(|s: String| s@) =~= before.push(s@));
        }
        i = i + 1;
    }
    Ok((string_from_chars(c.as_slice()), out))
}

/// A configured MCP server; `args`, `headers` and `env` are JSON documents
/// (compact text).
pub struct McpServerRecord {
    pub id: i64,
    pub name: String,
    pub description: String,
    pub transport: String,
    pub command: String,
    pub args: String,
    pub url: String,
    pub headers: String,
    pub env: String,
    pub enabled: bool,
    pub created_at: i64,
    pub updated_at: i64,
}

pub open spec fn bool_text(b: bool) -> Seq<char> {
    if b { "true"@ } else { "false"@ }
}

/// What identifies a server's configuration for its cached connection: the
/// transport, command, arguments, address, headers, environment, whether it
/// is enabled and when it was updated, separated by `|`.
pub open spec fn fingerprint_spec(s: McpServerRecord) -> Seq<char> {
    s.transport@ + "|"@ + s.command@ + "|"@ + s.args@ + "|"@ + s.url@ + "|"@ + s.headers@ + "|"@
        + s.env@ + "|"@ + bool_text(s.enabled) + "|"@ + int_text(s.updated_at as int)
}

/// The fingerprint of a server's configuration; a cached connection is kept
/// only while it is unchanged.
pub fn server_fingerprint(server: &McpServerRecord) -> (r: String)
    ensures
        r@ == fingerprint_spec(*server),
{
    let mut v = str_chars(server.transport.as_str());
    v.push('|');
    push_all(&mut v, str_chars(server.command.as_str()).as_slice());
    v.push('|');
    push_all(&mut v, str_chars(server.args.as_str()).as_slice());
    v.push('|');
    push_all(&mut v, str_chars(server.url.as_str()).as_slice());
    v.push('|');
    push_all(&mut v, str_chars(server.headers.as_str()).as_slice());
    v.push('|');
    push_all(&mut v, str_chars(server.env.as_str()).as_slice());
    v.push('|');
    let b = if server.enabled { str_chars("true") } else { str_chars("false") };
    push_all(&mut v, b.as_slice());
    v.push('|');
    push_all(&mut v, i64_decimal(server.updated_at).as_slice());
    proof {
        reveal_strlit("|");
    }
    assert(v@ =~= fingerprint_spec(*server));
    string_from_chars(v.as_slice())
}

/// Whether a cached connection can serve a server: made for the same
/// configuration and still open.
pub fn reuse_connection(cached_fingerprint: &str, server: &McpServerRecord, closed: bool) -> (b: bool)
    ensures
        b == (cached_fingerprint@ == fingerprint_spec(*server) && !closed),
{
    let f = server_fingerprint(server);
    !closed && chars_eq(str_chars(cached_fingerprint).as_slice(), str_chars(f.as_str()).as_slice())
}

} // verus!

verus! {

/// A server configuration is accepted when its name is not blank and its
/// transport (trimmed) is `stdio` with a command that is not blank, or `sse`
/// or `http` with an address that is not blank; an accepted one always has
/// one of these transports.
pub proof fn lemma_transports_accepted(i: McpServerInput)
    ensures
        (trim(i.name@).len() > 0 && (
            (trim(i.transport@) == "stdio"@ && trim(i.command@).len() > 0)
            || (trim(i.transport@) == "sse"@ && trim(i.url@).len() > 0)
            || (trim(i.transport@) == "http"@ && trim(i.url@).len() > 0)))
            ==> config_error(i) is None,
        config_error(i) is None ==> trim(i.name@).len() > 0
            && (trim(i.transport@) == "stdio"@ || trim(i.transport@) == "sse"@ || trim(i.transport@) == "http"@),
{
    reveal_strlit("stdio");
    reveal_strlit("sse");
    reveal_strlit("http");
    assert("stdio"@.len() == 5 && "sse"@.len() == 3 && "http"@.len() == 4);
    assert("stdio"@ != "sse"@ && "stdio"@ != "http"@ && "sse"@ != "http"@);
}

} // verus!
