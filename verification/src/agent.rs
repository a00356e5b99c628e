//! Agent runtime logic: reading `<tool_call>` tags out of model replies,
//! wrapping tool results, and shaping the conversation sent to the model.
use vstd::prelude::*;

use crate::context::{estimate_tokens, token_estimate};
use crate::json::{json_normalize, json_reformat};
use crate::llm::{LlmGenerateOutcome, LlmMessage};
use crate::providers::messages_view;
use crate::text::{
    find_char_from, find_from, find_from_exec, lemma_find_from_bounds, push_all, skip_ws_from, slice_range,
    occurs_at, lemma_find_first, lemma_find_none, lead_ws,
    str_chars, string_from_chars, trim, trim_chars, trim_start, decimal, u64_decimal, starts_with,
    has_prefix, chars_eq,
};

verus! {

/// The value of attribute `key` in `tag[from..]`: the first occurrence of `key`
/// that is followed (after optional whitespace) by `=`, then a quote (`"` or
/// `'`, after optional whitespace), up to the matching closing quote.
pub open spec fn attr_from(tag: Seq<char>, key: Seq<char>, from: int) -> Option<Seq<char>>
    decreases tag.len() - from,
{
    if key.len() == 0 || from < 0 || from >= tag.len() {
        None
    } else {
        match find_from(tag, key, from) {
            None => None,
            Some(start) => {
                let tail = trim_start(tag.skip(start + key.len()));
                if tail.len() == 0 || tail[0] != '=' {
                    if start + key.len() > from && start + key.len() <= tag.len() {
                        attr_from(tag, key, start + key.len())
                    } else {
                        None
                    }
                } else {
                    let value = trim_start(tail.skip(1));
                    if value.len() == 0 || (value[0] != '"' && value[0] != '\'') {
                        None
                    } else {
                        let inner = value.skip(1);
                        match find_from(inner, seq![value[0]], 0) {
                            None => None,
                            Some(end) => Some(inner.take(end)),
                        }
                    }
                }
            },
        }
    }
}

/// The value of attribute `key` (`key="..."` or `key='...'`) in a tag.
pub open spec fn attr(tag: Seq<char>, key: Seq<char>) -> Option<Seq<char>> {
    attr_from(tag, key, 0)
}

/// Reads attribute `key` of `tag`.
pub fn extract_attr(tag: &[char], key: &[char]) -> (r: Option<Vec<char>>)
    requires
        key@.len() > 0,
    ensures
        match r {
            Some(v) => attr(tag@, key@) == Some(v@),
            None => attr(tag@, key@) is None,
        },
{
    let mut from: usize = 0;
    while from < tag.len()
        invariant
            key@.len() > 0,
            from <= tag@.len(),
            attr(tag@, key@) == attr_from(tag@, key@, from as int),
        decreases tag@.len() - from,
    {
        let start = match find_from_exec(tag, key, from) {
            Some(s) => s,
            None => return None,
        };
        proof {
            lemma_find_from_bounds(tag@, key@, from as int);
        }
        let after = start + key.len();
        let t = skip_ws_from(tag, after);
        if t >= tag.len() || tag[t] != '=' {
            proof {
                assert(tag@.skip(t as int).len() == 0 || tag@.skip(t as int)[0] == tag@[t as int]);
            }
            from = after;
            continue;
        }
        assert(tag@.skip(t as int)[0] == tag@[t as int]);
        assert(tag@.skip(t as int).skip(1) =~= tag@.skip(t + 1));
        let v = skip_ws_from(tag, t + 1);
        if v >= tag.len() {
            return None;
        }
        let quote = tag[v];
        assert(tag@.skip(v as int)[0] == quote);
        if quote != '"' && quote != '\'' {
            return None;
        }
        let inner = slice_range(tag, v + 1, tag.len());
        assert(inner@ =~= tag@.skip(v as int).skip(1));
        let end = match find_char_from(inner.as_slice(), quote, 0) {
            Some(e) => e,
            None => return None,
        };
        proof {
            lemma_find_from_bounds(inner@, seq![quote], 0);
        }
        let out = slice_range(inner.as_slice(), 0, end);
        assert(out@ =~= inner@.take(end as int));
        return Some(out);
    }
    None
}

/// A tool call read from a model reply: the tool's name and its arguments as
/// compact JSON text.
pub struct ParsedToolCall {
    pub name: String,
    pub args: String,
}

/// The opening of a tool call tag.
pub open spec fn tool_call_marker() -> Seq<char> {
    "<tool_call"@
}

/// Characters that may follow the marker.
pub open spec fn is_tag_boundary(c: char) -> bool {
    c == ' ' || c == '\t' || c == '\n' || c == '\r' || c == '>' || c == '/'
}

/// The arguments of a call whose tag is `tag`: absent arguments read as `{}`;
/// present ones must be JSON (trimmed), and stand in compact form.
pub open spec fn call_args(tag: Seq<char>, name: Seq<char>) -> Result<Seq<char>, Seq<char>> {
    match attr(tag, "args"@) {
        None => Ok("{}"@),
        Some(raw) => match json_reformat(trim(raw)) {
            Ok(j) => Ok(j),
            Err(e) => Err("工具「"@ + name + "」参数不是合法 JSON: "@ + e),
        },
    }
}

/// The tool calls in `text[from..]`, in order, as (name, arguments) pairs, or
/// the first argument error.
pub open spec fn calls_from(text: Seq<char>, from: int) -> Result<Seq<(Seq<char>, Seq<char>)>, Seq<char>>
    decreases text.len() - from,
{
    if from < 0 || from > text.len() {
        Ok(Seq::empty())
    } else {
        match find_from(text, tool_call_marker(), from) {
            None => Ok(Seq::empty()),
            Some(start) => {
                let after = start + 10;
                if !(after < text.len() && is_tag_boundary(text[after])) {
                    if after > from && after <= text.len() {
                        calls_from(text, after)
                    } else {
                        Ok(Seq::empty())
                    }
                } else {
                    match find_from(text, seq!['>'], start) {
                        None => Ok(Seq::empty()),
                        Some(gt) => {
                            let tag = text.subrange(start, gt + 1);
                            let next = if gt + 1 > from && gt + 1 <= text.len() { calls_from(text, gt + 1) } else { Ok(Seq::empty()) };
                            match attr(tag, "name"@) {
                                Some(n) if trim(n).len() > 0 => match call_args(tag, trim(n)) {
                                    Err(e) => Err(e),
                                    Ok(a) => match next {
                                        Ok(rest) => Ok(seq![(trim(n), a)] + rest),
                                        Err(e) => Err(e),
                                    },
                                },
                                _ => next,
                            }
                        },
                    }
                }
            },
        }
    }
}

/// The tool calls of a whole reply.
pub open spec fn tool_calls(text: Seq<char>) -> Result<Seq<(Seq<char>, Seq<char>)>, Seq<char>> {
    calls_from(text, 0)
}

/// A tool call written as the tool protocol teaches:
/// `<tool_call name="<name>" args='<args>'></tool_call>`.
pub open spec fn written_call(name: Seq<char>, args: Seq<char>) -> Seq<char> {
    "<tool_call name=\""@ + name + "\" args='"@ + args + "'></tool_call>"@
}

/// The opening tag of a written call, up to its `>`.
pub open spec fn written_tag(name: Seq<char>, args: Seq<char>) -> Seq<char> {
    "<tool_call name=\""@ + name + "\" args='"@ + args + "'>"@
}

proof fn lemma_written_name(name: Seq<char>, args: Seq<char>)
    requires
        forall|i: int| 0 <= i < name.len() ==> name[i] != '"',
    ensures
        attr(written_tag(name, args), "name"@) == Some(name),
{
    let p1 = "<tool_call name=\""@;
    reveal_strlit("<tool_call name=\"");
    reveal_strlit("\" args='");
    reveal_strlit("'>");
    reveal_strlit("name");
    let n = name.len() as int;
    let tag = written_tag(name, args);
    assert forall|i: int| 0 <= i < 17 implies tag[i] == p1[i] by {}
    assert(tag.subrange(11, 15) =~= "name"@);
    assert forall|i: int| 0 <= i < 11 implies !occurs_at(tag, "name"@, i) by {
        if occurs_at(tag, "name"@, i) {
            assert(tag.subrange(i, i + 4)[0] == tag[i]);
        }
    }
    lemma_find_first(tag, "name"@, 0, 11);
    let ntail = tag.skip(15);
    assert(ntail[0] == '=');
    assert(lead_ws(ntail) == 0);
    assert(trim_start(ntail) =~= ntail);
    let nvalue = ntail.skip(1);
    assert(nvalue[0] == '"');
    assert(lead_ws(nvalue) == 0);
    assert(trim_start(nvalue) =~= nvalue);
    let ninner = nvalue.skip(1);
    assert forall|i: int| 0 <= i < n implies ninner[i] == name[i] by {}
    assert(ninner[n] == '"');
    assert(ninner.subrange(n, n + 1) =~= seq!['"']);
    assert forall|i: int| 0 <= i < n implies !occurs_at(ninner, seq!['"'], i) by {
        if occurs_at(ninner, seq!['"'], i) {
            assert(ninner.subrange(i, i + 1)[0] == ninner[i]);
        }
    }
    lemma_find_first(ninner, seq!['"'], 0, n);
    assert(ninner.take(n) =~= name);
}

proof fn lemma_written_args_found(name: Seq<char>, args: Seq<char>)
    requires
        forall|i: int| 0 <= i < name.len() ==> name[i] != '"',
        forall|i: int| !occurs_at(name, "args"@, i),
    ensures
        find_from(written_tag(name, args), "args"@, 0) == Some((19 + name.len()) as int),
{
    let p1 = "<tool_call name=\""@;
    reveal_strlit("<tool_call name=\"");
    reveal_strlit("\" args='");
    reveal_strlit("'>");
    reveal_strlit("args");
    let n = name.len() as int;
    let tag = written_tag(name, args);
    let a = 19 + n;
    assert forall|i: int| 0 <= i < 17 implies tag[i] == p1[i] by {}
    assert forall|i: int| 0 <= i < n implies tag[17 + i] == name[i] by {}
    assert(tag[17 + n] == '"' && tag[18 + n] == ' ');
    assert(tag.subrange(a, a + 4) =~= "args"@);
    assert forall|i: int| 0 <= i < a implies !occurs_at(tag, "args"@, i) by {
        if occurs_at(tag, "args"@, i) {
            let w = tag.subrange(i, i + 4);
            assert(w[0] == tag[i] && w[1] == tag[i + 1] && w[2] == tag[i + 2] && w[3] == tag[i + 3]);
            if i < 17 {
                assert(tag[i] == p1[i]);
                if i == 7 || i == 12 {
                    assert(tag[i + 1] == p1[i + 1]);
                }
            } else if i + 4 <= 17 + n {
                assert(w =~= name.subrange(i - 17, i - 13));
                assert(occurs_at(name, "args"@, i - 17));
            }
        }
    }
    lemma_find_first(tag, "args"@, 0, a);
}

proof fn lemma_written_args(name: Seq<char>, args: Seq<char>)
    requires
        forall|i: int| 0 <= i < name.len() ==> name[i] != '"',
        forall|i: int| !occurs_at(name, "args"@, i),
        forall|i: int| 0 <= i < args.len() ==> args[i] != '\'',
    ensures
        attr(written_tag(name, args), "args"@) == Some(args),
{
    reveal_strlit("<tool_call name=\"");
    reveal_strlit("\" args='");
    reveal_strlit("'>");
    reveal_strlit("args");
    lemma_written_args_found(name, args);
    let n = name.len() as int;
    let m = args.len() as int;
    let tag = written_tag(name, args);
    let a = 19 + n;
    let atail = tag.skip(a + 4);
    assert(atail[0] == '=');
    assert(lead_ws(atail) == 0);
    assert(trim_start(atail) =~= atail);
    let avalue = atail.skip(1);
    assert(avalue[0] == '\'');
    assert(lead_ws(avalue) == 0);
    assert(trim_start(avalue) =~= avalue);
    let ainner = avalue.skip(1);
    assert forall|i: int| 0 <= i < m implies ainner[i] == args[i] by {}
    assert(ainner[m] == '\'');
    assert(ainner.subrange(m, m + 1) =~= seq!['\'']);
    assert forall|i: int| 0 <= i < m implies !occurs_at(ainner, seq!['\''], i) by {
        if occurs_at(ainner, seq!['\''], i) {
            assert(ainner.subrange(i, i + 1)[0] == ainner[i]);
        }
    }
    lemma_find_first(ainner, seq!['\''], 0, m);
    assert(ainner.take(m) =~= args);
}

proof fn lemma_written_layout(name: Seq<char>, args: Seq<char>)
    requires
        forall|i: int| 0 <= i < name.len() ==> name[i] != '>',
        forall|i: int| 0 <= i < args.len() ==> args[i] != '>',
    ensures
        find_from(written_call(name, args), tool_call_marker(), 0) == Some(0int),
        is_tag_boundary(written_call(name, args)[10]),
        find_from(written_call(name, args), seq!['>'], 0) == Some((26 + name.len() + args.len()) as int),
        written_call(name, args).subrange(0, (27 + name.len() + args.len()) as int) == written_tag(name, args),
        calls_from(written_call(name, args), (27 + name.len() + args.len()) as int)
            == Ok::<Seq<(Seq<char>, Seq<char>)>, Seq<char>>(Seq::empty()),
{
    let p1 = "<tool_call name=\""@;
    let p2 = "\" args='"@;
    let p3 = "'></tool_call>"@;
    reveal_strlit("<tool_call name=\"");
    reveal_strlit("\" args='");
    reveal_strlit("'></tool_call>");
    reveal_strlit("'>");
    reveal_strlit("<tool_call");
    let marker = tool_call_marker();
    let n = name.len() as int;
    let m = args.len() as int;
    let text = written_call(name, args);
    assert(text.len() == 39 + n + m);
    assert forall|i: int| 0 <= i < 17 implies text[i] == p1[i] by {}
    assert forall|i: int| 0 <= i < n implies text[17 + i] == name[i] by {}
    assert forall|i: int| 0 <= i < 8 implies text[17 + n + i] == p2[i] by {}
    assert forall|i: int| 0 <= i < m implies text[25 + n + i] == args[i] by {}
    assert forall|i: int| 0 <= i < 14 implies text[25 + n + m + i] == p3[i] by {}
    assert(text.subrange(0, 10) =~= marker);
    lemma_find_first(text, marker, 0, 0);
    let gt = 26 + n + m;
    assert(text.subrange(gt, gt + 1) =~= seq!['>']);
    assert forall|i: int| 0 <= i < gt implies !occurs_at(text, seq!['>'], i) by {
        if occurs_at(text, seq!['>'], i) {
            assert(text.subrange(i, i + 1)[0] == text[i]);
            if i < 17 {
            } else if i < 17 + n {
                assert(text[i] == name[i - 17]);
            } else if i < 25 + n {
                assert(text[i] == p2[i - 17 - n]);
            } else if i < 25 + n + m {
                assert(text[i] == args[i - 25 - n]);
            } else {
                assert(text[i] == p3[0]);
            }
        }
    }
    lemma_find_first(text, seq!['>'], 0, gt);
    assert(text.subrange(0, gt + 1) =~= written_tag(name, args));
    assert forall|i: int| gt + 1 <= i implies !occurs_at(text, marker, i) by {
        if occurs_at(text, marker, i) {
            let w = text.subrange(i, i + 10);
            assert(w[0] == text[i] && w[1] == text[i + 1]);
            assert(text[i] == p3[i - 25 - n - m]);
            assert(text[i + 1] == p3[i + 1 - 25 - n - m]);
        }
    }
    lemma_find_none(text, marker, gt + 1);
}

/// A call written as the tool protocol teaches is read back as that call:
/// its trimmed name, and its arguments in compact form. The name must not
/// be blank nor hold `"`, `>` or the word `args`; the arguments must be
/// JSON without `'` or `>`.
pub proof fn lemma_written_call_read_back(name: Seq<char>, args: Seq<char>)
    requires
        trim(name).len() > 0,
        forall|i: int| 0 <= i < name.len() ==> name[i] != '"' && name[i] != '>',
        forall|i: int| !occurs_at(name, "args"@, i),
        forall|i: int| 0 <= i < args.len() ==> args[i] != '\'' && args[i] != '>',
        json_reformat(trim(args)) is Ok,
    ensures
        tool_calls(written_call(name, args))
            == Ok::<Seq<(Seq<char>, Seq<char>)>, Seq<char>>(seq![(trim(name), json_reformat(trim(args))->Ok_0)]),
{
    lemma_written_layout(name, args);
    lemma_written_name(name, args);
    lemma_written_args(name, args);
    let text = written_call(name, args);
    assert(text.len() == 39 + name.len() + args.len()) by {
        reveal_strlit("<tool_call name=\"");
        reveal_strlit("\" args='");
        reveal_strlit("'></tool_call>");
    }
    assert(seq![(trim(name), json_reformat(trim(args))->Ok_0)] + Seq::<(Seq<char>, Seq<char>)>::empty()
        =~= seq![(trim(name), json_reformat(trim(args))->Ok_0)]);
}

pub open spec fn calls_view(v: Seq<ParsedToolCall>) -> Seq<(Seq<char>, Seq<char>)> {
    v.map_values(|c: ParsedToolCall| (c.name@, c.args@))
}

fn args_error(name: &[char], e: &str) -> (r: String)
    ensures
        r@ == "工具「"@ + name@ + "」参数不是合法 JSON: "@ + e@,
{
    let mut v = str_chars("工具「");
    push_all(&mut v, name);
    let mid = str_chars("」参数不是合法 JSON: ");
    push_all(&mut v, mid.as_slice());
    let ev = str_chars(e);
    push_all(&mut v, ev.as_slice());
    string_from_chars(v.as_slice())
}

/// Reads every `<tool_call name="..." args='{...}'>` tag of a model reply, in
/// order. Tags without a (non-blank) name are skipped; a call whose arguments
/// are not JSON fails the whole reply.
pub fn parse_tool_calls(text: &str) -> (r: Result<Vec<ParsedToolCall>, String>)
    ensures
        match r {
            Ok(v) => tool_calls(text@) == Ok::<Seq<(Seq<char>, Seq<char>)>, Seq<char>>(calls_view(v@)),
            Err(e) => tool_calls(text@) == Err::<Seq<(Seq<char>, Seq<char>)>, Seq<char>>(e@),
        },
{
    let s = str_chars(text);
    let marker = str_chars("<tool_call");
    let name_key = str_chars("name");
    let args_key = str_chars("args");
    proof {
        reveal_strlit("<tool_call");
        reveal_strlit("name");
        reveal_strlit("args");
    }
    let mut calls: Vec<ParsedToolCall> = Vec::new();
    let mut from: usize = 0;
    let n = s.len();
    loop
        invariant
            s@ == text@,
            n == s@.len(),
            marker@ == tool_call_marker(),
            marker@.len() == 10,
            name_key@ == "name"@,
            args_key@ == "args"@,
            name_key@.len() == 4,
            args_key@.len() == 4,
            from <= s@.len(),
            match tool_calls(text@) {
                Ok(all) => match calls_from(text@, from as int) {
                    Ok(rest) => all == calls_view(calls@) + rest,
                    Err(e) => false,
                },
                Err(e) => calls_from(text@, from as int) == Err::<Seq<(Seq<char>, Seq<char>)>, Seq<char>>(e),
            },
        decreases s@.len() - from,
    {
        let start = match find_from_exec(s.as_slice(), marker.as_slice(), from) {
            Some(st) => st,
            None => {
                assert(calls_view(calls@) + Seq::<(Seq<char>, Seq<char>)>::empty() =~= calls_view(calls@));
                return Ok(calls);
            },
        };
        proof {
            lemma_find_from_bounds(s@, marker@, from as int);
        }
        let after = start + 10;
        if !(after < s.len() && (s[after] == ' ' || s[after] == '\t' || s[after] == '\n'
            || s[after] == '\r' || s[after] == '>' || s[after] == '/')) {
            from = after;
            continue;
        }
        let gt = match find_char_from(s.as_slice(), '>', start) {
            Some(g) => g,
            None => {
                assert(calls_view(calls@) + Seq::<(Seq<char>, Seq<char>)>::empty() =~= calls_view(calls@));
                return Ok(calls);
            },
        };
        proof {
            lemma_find_from_bounds(s@, seq!['>'], start as int);
        }
        let tag = slice_range(s.as_slice(), start, gt + 1);
        let name = match extract_attr(tag.as_slice(), name_key.as_slice()) {
            Some(n) => trim_chars(n.as_slice()),
            None => {
                from = gt + 1;
                continue;
            },
        };
        if name.len() == 0 {
            from = gt + 1;
            continue;
        }
        let args = match extract_attr(tag.as_slice(), args_key.as_slice()) {
            None => {
                proof { reveal_strlit("{}"); }
                "{}".to_string()
            },
            Some(raw) => {
                let raw_t = trim_chars(raw.as_slice());
                let raw_s = string_from_chars(raw_t.as_slice());
                match json_normalize(raw_s.as_str()) {
                    Ok(j) => j,
                    Err(e) => {
                        let msg = args_error(name.as_slice(), e.as_str());
                        return Err(msg);
                    },
                }
            },
        };
        let call = ParsedToolCall { name: string_from_chars(name.as_slice()), args };
        proof {
            let ghost tv = calls_view(calls@);
            assert(calls_view(calls@.push(call)) =~= tv.push((call.name@, call.args@)));
        }
        calls.push(call);
        from = gt + 1;
    }
}


/// Tool rounds allowed per run.
pub const MAX_ROUNDS: u32 = 6;
/// Characters kept of one tool result.
pub const MAX_RESULT_CHARS: usize = 4000;
/// Tool round trips kept in the conversation.
pub const MAX_TOOL_PAIRS: usize = 2;
/// Marker that opens the tool protocol system message.
pub const AGENT_PROTOCOL_MARKER: &'static str = "[DeepEr Agent 工具协议]";

/// A text of at most `max` characters is kept; a longer one keeps its first
/// and last `max / 2` characters around a note of how many were cut.
pub open spec fn truncate_middle_spec(text: Seq<char>, max: nat) -> Seq<char> {
    if text.len() <= max {
        text
    } else {
        let half = max / 2;
        text.take(half as int) + "\n…[已截断 "@ + decimal((text.len() - max) as nat) + " 字符]…\n"@
            + text.skip(text.len() - half)
    }
}

/// Shortens an over-long text, keeping its head and tail.
pub fn truncate_middle(text: &str, max_chars: usize) -> (r: String)
    ensures
        r@ == truncate_middle_spec(text@, max_chars as nat),
{
    let t = str_chars(text);
    let count = t.len();
    if count <= max_chars {
        return text.to_string();
    }
    let half = max_chars / 2;
    let mut out = slice_range(t.as_slice(), 0, half);
    push_all(&mut out, str_chars("\n…[已截断 ").as_slice());
    push_all(&mut out, u64_decimal((count - max_chars) as u64).as_slice());
    push_all(&mut out, str_chars(" 字符]…\n").as_slice());
    let tail = slice_range(t.as_slice(), count - half, count);
    assert(tail@ =~= t@.skip(count - half));
    push_all(&mut out, tail.as_slice());
    string_from_chars(out.as_slice())
}

/// What one tool execution gave.
pub struct ToolResult {
    pub name: String,
    pub ok: bool,
    pub output: String,
}

pub open spec fn bool_text(b: bool) -> Seq<char> {
    if b { "true"@ } else { "false"@ }
}

/// One result wrapped as a `<tool_result>` element.
pub open spec fn result_block(r: ToolResult) -> Seq<char> {
    "<tool_result name=\""@ + r.name@ + "\" ok=\""@ + bool_text(r.ok) + "\">\n"@
        + truncate_middle_spec(r.output@, 4000) + "\n</tool_result>"@
}

/// The result blocks, joined by line breaks.
pub open spec fn result_blocks(rs: Seq<ToolResult>) -> Seq<char>
    decreases rs.len(),
{
    if rs.len() == 0 {
        Seq::empty()
    } else if rs.len() == 1 {
        result_block(rs[0])
    } else {
        result_blocks(rs.drop_last()) + seq!['\n'] + result_block(rs.last())
    }
}

/// Number of failed results.
pub open spec fn failures(rs: Seq<ToolResult>) -> nat
    decreases rs.len(),
{
    if rs.len() == 0 {
        0
    } else {
        failures(rs.drop_last()) + if rs.last().ok { 0nat } else { 1nat }
    }
}

/// The text sent back to the model after a tool round: the result blocks,
/// preceded by a warning when some calls failed.
pub open spec fn results_text(rs: Seq<ToolResult>) -> Seq<char> {
    let body = result_blocks(rs);
    let f = failures(rs);
    if f > 0 {
        "[系统提示] 本轮有 "@ + decimal(f) + " 个工具调用失败 (ok=false)。你的最终回答必须以工具返回结果为准, 不得声称失败的操作已成功, 请如实告知用户失败原因。\n\n"@ + body
    } else {
        body
    }
}

fn result_block_exec(r: &ToolResult) -> (s: Vec<char>)
    ensures
        s@ == result_block(*r),
{
    let mut v = str_chars("<tool_result name=\"");
    push_all(&mut v, str_chars(r.name.as_str()).as_slice());
    push_all(&mut v, str_chars("\" ok=\"").as_slice());
    let b = if r.ok { str_chars("true") } else { str_chars("false") };
    push_all(&mut v, b.as_slice());
    push_all(&mut v, str_chars("\">\n").as_slice());
    let t = truncate_middle(r.output.as_str(), MAX_RESULT_CHARS);
    push_all(&mut v, str_chars(t.as_str()).as_slice());
    push_all(&mut v, str_chars("\n</tool_result>").as_slice());
    v
}

/// Wraps a tool round's results for the model.
pub fn format_results(results: &Vec<ToolResult>) -> (r: String)
    ensures
        r@ == results_text(results@),
{
    let mut body: Vec<char> = Vec::new();
    let mut failed: u64 = 0;
    let mut i: usize = 0;
    while i < results.len()
        invariant
            i <= results@.len(),
            body@ == result_blocks(results@.take(i as int)),
            failed == failures(results@.take(i as int)),
            failed <= i,
        decreases results@.len() - i,
    {
        proof {
            assert(results@.take(i + 1).drop_last() =~= results@.take(i as int));
        }
        let block = result_block_exec(&results[i]);
        if i > 0 {
            body.push('\n');
        } else {
            assert(body@ =~= Seq::<char>::empty());
        }
        push_all(&mut body, block.as_slice());
        if !results[i].ok {
            failed = failed + 1;
        }
        i = i + 1;
        proof {
            if i == 1 {
                assert(body@ =~= result_block(results@[0]));
            }
        }
    }
    assert(results@.take(results@.len() as int) =~= results@);
    if failed > 0 {
        let mut v = str_chars("[系统提示] 本轮有 ");
        push_all(&mut v, u64_decimal(failed).as_slice());
        push_all(&mut v, str_chars(" 个工具调用失败 (ok=false)。你的最终回答必须以工具返回结果为准, 不得声称失败的操作已成功, 请如实告知用户失败原因。\n\n").as_slice());
        push_all(&mut v, body.as_slice());
        string_from_chars(v.as_slice())
    } else {
        string_from_chars(body.as_slice())
    }
}

/// Whether a message is the tool protocol's system message.
pub open spec fn is_protocol(m: (Seq<char>, Seq<char>)) -> bool {
    m.0 == "system"@ && has_prefix(m.1, "[DeepEr Agent 工具协议]"@)
}

/// Index just after the last system message (0 when there is none).
pub open spec fn after_last_system(msgs: Seq<(Seq<char>, Seq<char>)>) -> nat
    decreases msgs.len(),
{
    if msgs.len() == 0 {
        0
    } else if msgs.last().0 == "system"@ {
        msgs.len()
    } else {
        after_last_system(msgs.drop_last())
    }
}

/// The conversation with the tool protocol injected once: unchanged when a
/// protocol message is present, else the protocol after the last system message.
pub open spec fn with_protocol(msgs: Seq<(Seq<char>, Seq<char>)>, protocol: Seq<char>) -> Seq<(Seq<char>, Seq<char>)> {
    if exists|i: int| 0 <= i < msgs.len() && is_protocol(#[trigger] msgs[i]) {
        msgs
    } else {
        msgs.insert(after_last_system(msgs) as int, ("system"@, protocol))
    }
}

pub proof fn lemma_after_last_system_bound(msgs: Seq<(Seq<char>, Seq<char>)>)
    ensures
        after_last_system(msgs) <= msgs.len(),
    decreases msgs.len(),
{
    if msgs.len() > 0 && msgs.last().0 != "system"@ {
        lemma_after_last_system_bound(msgs.drop_last());
    }
}

/// Injecting the tool protocol twice gives what injecting it once gives
/// (the protocol text starts with its marker).
pub proof fn lemma_inject_idempotent(msgs: Seq<(Seq<char>, Seq<char>)>, protocol: Seq<char>)
    requires
        has_prefix(protocol, "[DeepEr Agent 工具协议]"@),
    ensures
        with_protocol(with_protocol(msgs, protocol), protocol) == with_protocol(msgs, protocol),
{
    if !(exists|i: int| 0 <= i < msgs.len() && is_protocol(#[trigger] msgs[i])) {
        let k = after_last_system(msgs) as int;
        lemma_after_last_system_bound(msgs);
        msgs.insert_ensures(k, ("system"@, protocol));
        let once = with_protocol(msgs, protocol);
        assert(once[k] == ("system"@, protocol));
        assert(is_protocol(once[k]));
    }
}

/// After injection the conversation holds the protocol message.
pub proof fn lemma_inject_present(msgs: Seq<(Seq<char>, Seq<char>)>, protocol: Seq<char>)
    requires
        has_prefix(protocol, "[DeepEr Agent 工具协议]"@),
    ensures
        exists|i: int| 0 <= i < with_protocol(msgs, protocol).len()
            && is_protocol(#[trigger] with_protocol(msgs, protocol)[i]),
{
    if !(exists|i: int| 0 <= i < msgs.len() && is_protocol(#[trigger] msgs[i])) {
        let k = after_last_system(msgs) as int;
        lemma_after_last_system_bound(msgs);
        msgs.insert_ensures(k, ("system"@, protocol));
        assert(is_protocol(with_protocol(msgs, protocol)[k]));
    } else {
        let i = choose|i: int| 0 <= i < msgs.len() && is_protocol(#[trigger] msgs[i]);
        assert(with_protocol(msgs, protocol) == msgs);
        assert(is_protocol(with_protocol(msgs, protocol)[i]));
    }
}

/// Injects the tool protocol system message (idempotent).
pub fn inject_protocol(messages: Vec<LlmMessage>, protocol: String) -> (r: Vec<LlmMessage>)
    ensures
        messages_view(r@) == with_protocol(messages_view(messages@), protocol@),
{
    let ghost mv = messages_view(messages@);
    let sys = str_chars("system");
    let marker = str_chars(AGENT_PROTOCOL_MARKER);
    let mut i: usize = 0;
    let mut insert_at: usize = 0;
    while i < messages.len()
        invariant
            i <= messages@.len(),
            mv == messages_view(messages@),
            sys@ == "system"@,
            marker@ == "[DeepEr Agent 工具协议]"@,
            forall|j: int| 0 <= j < i ==> !is_protocol(#[trigger] mv[j]),
            insert_at == after_last_system(mv.take(i as int)),
        decreases messages@.len() - i,
    {
        let role = str_chars(messages[i].role.as_str());
        let content = str_chars(messages[i].content.as_str());
        proof {
            assert(mv[i as int] == (messages@[i as int].role@, messages@[i as int].content@));
            assert(mv.take(i + 1).drop_last() =~= mv.take(i as int));
        }
        let is_sys = chars_eq(role.as_slice(), sys.as_slice());
        if is_sys && starts_with(content.as_slice(), marker.as_slice()) {
            return messages;
        }
        if is_sys {
            insert_at = i + 1;
        }
        i = i + 1;
    }
    assert(mv.take(mv.len() as int) =~= mv);
    proof {
        lemma_after_last_system_bound(mv);
    }
    let mut out = messages;
    let ghost before = messages_view(out@);
    out.insert(insert_at, LlmMessage { role: "system".to_string(), content: protocol });
    assert(messages_view(out@) =~= before.insert(insert_at as int, ("system"@, protocol@)));
    out
}

/// Keeps the conversation's first `base` messages and only the latest
/// `MAX_TOOL_PAIRS` tool round trips after them.
pub open spec fn kept_history<T>(msgs: Seq<T>, base: nat) -> Seq<T> {
    let limit = base + 4;
    if msgs.len() > limit {
        msgs.take(base as int) + msgs.skip(msgs.len() - 4)
    } else {
        msgs
    }
}

/// Drops tool round trips older than the latest `MAX_TOOL_PAIRS`.
pub fn trim_history(messages: &mut Vec<LlmMessage>, base_len: usize)
    requires
        base_len <= old(messages)@.len(),
    ensures
        final(messages)@ == kept_history(old(messages)@, base_len as nat),
{
    let keep = MAX_TOOL_PAIRS * 2;
    if messages.len() - base_len > keep {
        let n = messages.len();
        let mut out: Vec<LlmMessage> = Vec::new();
        let ghost old_v = messages@;
        let mut rest = messages.split_off(base_len);
        let tail = rest.split_off(rest.len() - keep);
        let mut tail = tail;
        messages.append(&mut tail);
        assert(messages@ =~= old_v.take(base_len as int) + old_v.skip(n - 4));
    }
}

/// Key under which a call is remembered, to spot repeated failing calls.
pub fn call_signature(name: &str, args: &str) -> (r: String)
    ensures
        r@ == name@ + "::"@ + args@,
{
    let mut v = str_chars(name);
    push_all(&mut v, str_chars("::").as_slice());
    push_all(&mut v, str_chars(args).as_slice());
    string_from_chars(v.as_slice())
}

/// Note appended to a failure that repeats an earlier failed call.
pub open spec fn repeat_note() -> Seq<char> {
    "\n[注意: 该参数组合上一次已失败, 请勿重复同样的调用; 检查参数后重试, 或直接告知用户失败原因]"@
}

/// A failed result whose call was made before gets a note asking the model
/// not to repeat it.
pub fn note_repeated_failure(result: ToolResult, previous: &Vec<String>, signature: &str) -> (r: ToolResult)
    ensures
        r.name == result.name,
        r.ok == result.ok,
        (!result.ok && exists|i: int| 0 <= i < previous@.len() && (#[trigger] previous@[i])@ == signature@)
            ==> r.output@ == result.output@ + repeat_note(),
        !(!result.ok && exists|i: int| 0 <= i < previous@.len() && (#[trigger] previous@[i])@ == signature@)
            ==> r.output == result.output,
{
    if result.ok {
        return result;
    }
    let sig = str_chars(signature);
    let mut i: usize = 0;
    while i < previous.len()
        invariant
            i <= previous@.len(),
            sig@ == signature@,
            !result.ok,
            forall|j: int| 0 <= j < i ==> (#[trigger] previous@[j])@ != signature@,
        decreases previous@.len() - i,
    {
        if chars_eq(str_chars(previous[i].as_str()).as_slice(), sig.as_slice()) {
            assert(previous@[i as int]@ == signature@);
            let mut v = str_chars(result.output.as_str());
            push_all(&mut v, str_chars("\n[注意: 该参数组合上一次已失败, 请勿重复同样的调用; 检查参数后重试, 或直接告知用户失败原因]").as_slice());
            return ToolResult { name: result.name, ok: result.ok, output: string_from_chars(v.as_slice()) };
        }
        i = i + 1;
    }
    result
}


/// The model platform an agent run talks to.
#[derive(Clone, Copy, PartialEq, Eq, Structural)]
pub enum Platform {
    OpenAi,
    Anthropic,
    Google,
}

/// The platform that the `llm_adapter` setting names.
pub open spec fn platform_spec(adapter: Option<Seq<char>>) -> Option<Platform> {
    if adapter == Some("openai-responses"@) {
        Some(Platform::OpenAi)
    } else if adapter == Some("anthropic-messages"@) {
        Some(Platform::Anthropic)
    } else if adapter == Some("google-genai"@) {
        Some(Platform::Google)
    } else {
        None
    }
}

/// Reads the `llm_adapter` setting: the platform it names, or an error when
/// no known model platform is enabled.
pub fn platform_of(adapter: Option<&str>) -> (r: Result<Platform, String>)
    ensures
        match r {
            Ok(p) => platform_spec(match adapter { Some(a) => Some(a@), None => None }) == Some(p),
            Err(e) => platform_spec(match adapter { Some(a) => Some(a@), None => None }) is None
                && e@ == "LLM 未启用"@,
        },
{
    if let Some(a) = adapter {
        let v = str_chars(a);
        if chars_eq(v.as_slice(), str_chars("openai-responses").as_slice()) {
            return Ok(Platform::OpenAi);
        }
        if chars_eq(v.as_slice(), str_chars("anthropic-messages").as_slice()) {
            return Ok(Platform::Anthropic);
        }
        if chars_eq(v.as_slice(), str_chars("google-genai").as_slice()) {
            return Ok(Platform::Google);
        }
    }
    Err("LLM 未启用".to_string())
}

/// A message from the user.
pub struct AgentUserMessage {
    /// The text (blank messages are not recorded).
    pub content: String,
    /// `talk` (the default) or `touch`.
    pub kind: Option<String>,
}

/// What the front end hands to an agent run.
pub struct AgentRunArgs {
    pub messages: Vec<AgentUserMessage>,
    pub request_id: Option<String>,
}

/// Result of an agent run.
pub struct AgentRunOutcome {
    pub ok: bool,
    /// The final answer.
    pub text: Option<String>,
    /// Why the run failed.
    pub error: Option<String>,
    pub input_tokens: Option<u64>,
    pub output_tokens: Option<u64>,
    /// Rounds run and tool calls made.
    pub rounds: u32,
    pub calls: u32,
}

/// A user message as it is recorded: kind, trimmed text, token estimate.
pub struct UserRecord {
    pub kind: String,
    pub content: String,
    pub tokens: u64,
}

pub open spec fn user_view(m: AgentUserMessage) -> (Seq<char>, Seq<char>) {
    (match m.kind { Some(k) => k@, None => "talk"@ }, trim(m.content@))
}

/// The records of the non-blank user messages, in order.
pub open spec fn user_records_spec(ms: Seq<AgentUserMessage>) -> Seq<(Seq<char>, Seq<char>, nat)>
    decreases ms.len(),
{
    if ms.len() == 0 {
        Seq::empty()
    } else {
        let before = user_records_spec(ms.drop_last());
        let v = user_view(ms.last());
        if v.1.len() == 0 { before } else { before.push((v.0, v.1, token_estimate(v.1))) }
    }
}

pub open spec fn records_view(v: Seq<UserRecord>) -> Seq<(Seq<char>, Seq<char>, nat)> {
    v.map_values(|r: UserRecord| (r.kind@, r.content@, r.tokens as nat))
}

/// The records to store for a run's user messages.
pub fn user_records(args: &AgentRunArgs) -> (r: Vec<UserRecord>)
    ensures
        records_view(r@) == user_records_spec(args.messages@),
{
    let mut out: Vec<UserRecord> = Vec::new();
    let mut i: usize = 0;
    while i < args.messages.len()
        invariant
            i <= args.messages@.len(),
            records_view(out@) == user_records_spec(args.messages@.take(i as int)),
        decreases args.messages@.len() - i,
    {
        let m = &args.messages[i];
        proof {
            assert(args.messages@.take(i + 1).drop_last() =~= args.messages@.take(i as int));
            assert(args.messages@.take(i + 1).last() == *m);
        }
        let content = trim_chars(str_chars(m.content.as_str()).as_slice());
        if content.len() > 0 {
            let kind = match &m.kind {
                Some(k) => k.clone(),
                None => "talk".to_string(),
            };
            let c = string_from_chars(content.as_slice());
            let tokens = estimate_tokens(c.as_str());
            let ghost prev = out@;
            out.push(UserRecord { kind, content: c, tokens });
            assert(records_view(out@) =~= records_view(prev).push((out@.last().kind@, c@, tokens as nat)));
        }
        i = i + 1;
    }
    assert(args.messages@.take(args.messages@.len() as int) =~= args.messages@);
    out
}

/// The outcome when no context could be built.
pub fn empty_context_outcome() -> (r: AgentRunOutcome)
    ensures
        !r.ok,
        r.text is None,
        r.error matches Some(e) && e@ == "上下文为空, 请先发送一条消息"@,
        r.input_tokens == Some(0u64),
        r.output_tokens == Some(0u64),
        r.rounds == 0,
        r.calls == 0,
{
    AgentRunOutcome {
        ok: false,
        text: None,
        error: Some("上下文为空, 请先发送一条消息".to_string()),
        input_tokens: Some(0),
        output_tokens: Some(0),
        rounds: 0,
        calls: 0,
    }
}

/// Running totals of an agent run.
pub struct AgentTally {
    pub input_tokens: u64,
    pub output_tokens: u64,
    pub calls: u32,
}

/// What the run does after a model reply.
pub enum AgentStep {
    /// The run ends with this outcome (the reply's error, or its answer).
    Finish(AgentRunOutcome),
    /// The reply asked for these tool calls.
    RunTools(Vec<ParsedToolCall>),
}

pub open spec fn or_zero(v: Option<u64>) -> int {
    match v { Some(x) => x as int, None => 0 }
}

/// The reply text a generation outcome carries (empty when none).
pub open spec fn reply_text(outcome: LlmGenerateOutcome) -> Seq<char> {
    match outcome.text { Some(t) => t@, None => Seq::empty() }
}

/// Whether folding `outcome` into `tally` keeps every total countable: the
/// token totals within `u64`, the call count within `u32`.
pub open spec fn fold_fits(tally: AgentTally, outcome: LlmGenerateOutcome) -> bool {
    &&& tally.input_tokens + or_zero(outcome.input_tokens) <= u64::MAX
    &&& tally.output_tokens + or_zero(outcome.output_tokens) <= u64::MAX
    &&& outcome.ok ==> (tool_calls(reply_text(outcome)) matches Ok(v) ==> tally.calls + v.len() <= u32::MAX)
}

/// What folding a model reply of round `round` into the run does: `before`
/// becomes `after`, and `r` is what the run does next.
pub open spec fn folded(before: AgentTally, after: AgentTally, round: u32, outcome: LlmGenerateOutcome, r: Result<AgentStep, String>) -> bool {
    &&& after.input_tokens == before.input_tokens + or_zero(outcome.input_tokens)
    &&& after.output_tokens == before.output_tokens + or_zero(outcome.output_tokens)
    &&& !outcome.ok ==> {
        &&& after.calls == before.calls
        &&& r matches Ok(AgentStep::Finish(o))
        &&& !o.ok
        &&& o.text is None
        &&& o.error matches Some(e) && e@ == (match outcome.error { Some(x) => x@, None => "生成失败"@ })
        &&& o.input_tokens == Some(after.input_tokens)
        &&& o.output_tokens == Some(after.output_tokens)
        &&& o.rounds == round
        &&& o.calls == after.calls
    }
    &&& outcome.ok ==> match tool_calls(reply_text(outcome)) {
        Err(e) => r matches Err(m) && m@ == e && after.calls == before.calls,
        Ok(v) => if v.len() == 0 {
            &&& after.calls == before.calls
            &&& r matches Ok(AgentStep::Finish(o))
            &&& o.ok
            &&& o.text matches Some(t) && t@ == reply_text(outcome)
            &&& o.error is None
            &&& o.input_tokens == Some(after.input_tokens)
            &&& o.output_tokens == Some(after.output_tokens)
            &&& o.rounds == round
            &&& o.calls == after.calls
        } else {
            &&& after.calls == before.calls + v.len()
            &&& r matches Ok(AgentStep::RunTools(calls))
            &&& calls_view(calls@) == v
        },
    }
}

/// Folds a model reply of round `round` into the run: tokens are added; a
/// failed reply ends the run with its error (or `生成失败`); a reply without
/// tool calls ends it with its text as the answer; otherwise its calls are
/// counted and run. Malformed call arguments fail the run.
pub fn after_generation(tally: &mut AgentTally, round: u32, outcome: LlmGenerateOutcome) -> (r: Result<AgentStep, String>)
    requires
        fold_fits(*old(tally), outcome),
    ensures
        folded(*old(tally), *final(tally), round, outcome, r),
{
    tally.input_tokens = tally.input_tokens + match outcome.input_tokens { Some(x) => x, None => 0 };
    tally.output_tokens = tally.output_tokens + match outcome.output_tokens { Some(x) => x, None => 0 };
    if !outcome.ok {
        let error = match outcome.error {
            Some(e) => e,
            None => "生成失败".to_string(),
        };
        return Ok(AgentStep::Finish(AgentRunOutcome {
            ok: false,
            text: None,
            error: Some(error),
            input_tokens: Some(tally.input_tokens),
            output_tokens: Some(tally.output_tokens),
            rounds: round,
            calls: tally.calls,
        }));
    }
    let text = match outcome.text {
        Some(t) => t,
        None => String::new(),
    };
    let calls = parse_tool_calls(text.as_str())?;
    if calls.len() == 0 {
        return Ok(AgentStep::Finish(AgentRunOutcome {
            ok: true,
            text: Some(text),
            error: None,
            input_tokens: Some(tally.input_tokens),
            output_tokens: Some(tally.output_tokens),
            rounds: round,
            calls: tally.calls,
        }));
    }
    assert(calls_view(calls@).len() == calls@.len());
    tally.calls = tally.calls + calls.len() as u32;
    Ok(AgentStep::RunTools(calls))
}

/// Folds a model reply into the run as [`after_generation`] does, after
/// checking that the run's totals stay countable; when a token total or the
/// call count would overflow, nothing is folded and the result is `None`.
pub fn after_generation_checked(tally: &mut AgentTally, round: u32, outcome: LlmGenerateOutcome) -> (r: Option<Result<AgentStep, String>>)
    ensures
        r is None <==> !fold_fits(*old(tally), outcome),
        r is None ==> *final(tally) == *old(tally),
        r matches Some(x) ==> folded(*old(tally), *final(tally), round, outcome, x),
{
    let input = match outcome.input_tokens { Some(x) => x, None => 0 };
    let output = match outcome.output_tokens { Some(x) => x, None => 0 };
    if tally.input_tokens > u64::MAX - input || tally.output_tokens > u64::MAX - output {
        return None;
    }
    if outcome.ok {
        let text = match &outcome.text {
            Some(t) => t.as_str(),
            None => "",
        };
        proof {
            reveal_strlit("");
        }
        if let Ok(calls) = parse_tool_calls(text) {
            if calls.len() as u64 > (u32::MAX - tally.calls) as u64 {
                proof {
                    assert(calls_view(calls@).len() == calls@.len());
                }
                return None;
            }
            proof {
                assert(calls_view(calls@).len() == calls@.len());
            }
        }
    }
    Some(after_generation(tally, round, outcome))
}

/// The answer when the round limit is reached.
pub open spec fn round_limit_text() -> Seq<char> {
    "工具调用轮数已达上限 (6 轮), 已停止。你可以把请求拆小一点再试一次。"@
}

/// The outcome of a run that used up its rounds.
pub fn round_limit_outcome(tally: &AgentTally) -> (r: AgentRunOutcome)
    ensures
        r.ok,
        r.text matches Some(t) && t@ == round_limit_text(),
        r.error is None,
        r.input_tokens == Some(tally.input_tokens),
        r.output_tokens == Some(tally.output_tokens),
        r.rounds == MAX_ROUNDS,
        r.calls == tally.calls,
{
    AgentRunOutcome {
        ok: true,
        text: Some("工具调用轮数已达上限 (6 轮), 已停止。你可以把请求拆小一点再试一次。".to_string()),
        error: None,
        input_tokens: Some(tally.input_tokens),
        output_tokens: Some(tally.output_tokens),
        rounds: MAX_ROUNDS,
        calls: tally.calls,
    }
}

} // verus!

verus! {

/// An agent run between two steps: the conversation sent to the model (its
/// first `base_len` messages are the built context), the running totals, the
/// rounds started, the signatures of the calls made in earlier rounds, and
/// the reply whose tool calls are being run.
pub struct AgentRun {
    pub messages: Vec<LlmMessage>,
    pub base_len: usize,
    pub tally: AgentTally,
    pub round: u32,
    pub previous_calls: Vec<String>,
    pub reply: String,
}

impl AgentRun {
    /// The run's shape: the context is kept, and no more rounds were started
    /// than allowed.
    pub open spec fn wf(&self) -> bool {
        &&& self.base_len <= self.messages@.len()
        &&& self.round <= MAX_ROUNDS
    }

    /// Starts a run over a built context: with the tool protocol injected,
    /// nothing counted yet and no round started.
    pub fn start(built: Vec<LlmMessage>, protocol: String) -> (r: AgentRun)
        ensures
            r.wf(),
            messages_view(r.messages@) == with_protocol(messages_view(built@), protocol@),
            r.base_len == r.messages@.len(),
            r.tally == (AgentTally { input_tokens: 0, output_tokens: 0, calls: 0 }),
            r.round == 0,
            r.previous_calls@.len() == 0,
            r.reply@.len() == 0,
    {
        let messages = inject_protocol(built, protocol);
        let base_len = messages.len();
        AgentRun {
            messages,
            base_len,
            tally: AgentTally { input_tokens: 0, output_tokens: 0, calls: 0 },
            round: 0,
            previous_calls: Vec::new(),
            reply: String::new(),
        }
    }

    /// Takes in the model's reply to the current conversation: a new round
    /// is counted and the reply folded into the run (see [`folded`]); its text
    /// is kept for the tool round that may follow. When the run's totals
    /// would overflow, nothing changes and the result is `None`.
    pub fn on_generated(&mut self, outcome: LlmGenerateOutcome) -> (r: Option<Result<AgentStep, String>>)
        requires
            old(self).wf(),
            old(self).round < MAX_ROUNDS,
        ensures
            final(self).wf(),
            r is None <==> !fold_fits(old(self).tally, outcome),
            r is None ==> *final(self) == *old(self),
            r matches Some(x) ==> {
                &&& final(self).round == old(self).round + 1
                &&& folded(old(self).tally, final(self).tally, final(self).round, outcome, x)
                &&& final(self).reply@ == reply_text(outcome)
                &&& final(self).messages == old(self).messages
                &&& final(self).base_len == old(self).base_len
                &&& final(self).previous_calls == old(self).previous_calls
            },
    {
        let next = self.round + 1;
        let reply = match &outcome.text {
            Some(t) => t.clone(),
            None => String::new(),
        };
        match after_generation_checked(&mut self.tally, next, outcome) {
            None => None,
            Some(step) => {
                self.round = next;
                self.reply = reply;
                Some(step)
            },
        }
    }

    /// Takes in what the reply's tool calls gave (the output of each, or its
    /// error): the results, noted where a failing call repeats one of an
    /// earlier round, are handed back to the model after the reply; only the
    /// latest tool rounds are kept after the context; the calls are
    /// remembered. Gives the results, and the run's outcome when its rounds
    /// are used up.
    pub fn on_tools_done(&mut self, calls: &Vec<ParsedToolCall>, outputs: Vec<Result<String, String>>) -> (r: (Vec<ToolResult>, Option<AgentRunOutcome>))
        requires
            old(self).wf(),
            outputs@.len() == calls@.len(),
        ensures
            final(self).wf(),
            r.0@.len() == calls@.len(),
            forall|i: int| 0 <= i < calls@.len() ==> {
                let res = #[trigger] r.0@[i];
                let sig = calls@[i].name@ + "::"@ + calls@[i].args@;
                let repeated = exists|j: int| 0 <= j < old(self).previous_calls@.len()
                    && (#[trigger] old(self).previous_calls@[j])@ == sig;
                let out = match outputs@[i] { Ok(o) => o@, Err(e) => e@ };
                &&& res.name@ == calls@[i].name@
                &&& res.ok == outputs@[i] is Ok
                &&& res.output@ == if !res.ok && repeated { out + repeat_note() } else { out }
            },
            messages_view(final(self).messages@) == kept_history(
                messages_view(old(self).messages@)
                    + seq![("assistant"@, old(self).reply@), ("user"@, results_text(r.0@))],
                old(self).base_len as nat,
            ),
            strings_view_of(final(self).previous_calls@) == strings_view_of(old(self).previous_calls@)
                + calls@.map_values(|c: ParsedToolCall| c.name@ + "::"@ + c.args@),
            final(self).round == old(self).round,
            final(self).tally == old(self).tally,
            final(self).base_len == old(self).base_len,
            (r.1 is Some) == (old(self).round == MAX_ROUNDS),
            r.1 matches Some(o) ==> {
                &&& o.ok
                &&& o.text matches Some(t) && t@ == round_limit_text()
                &&& o.error is None
                &&& o.input_tokens == Some(old(self).tally.input_tokens)
                &&& o.output_tokens == Some(old(self).tally.output_tokens)
                &&& o.rounds == MAX_ROUNDS
                &&& o.calls == old(self).tally.calls
            },
    {
        let ghost prev = old(self).previous_calls@;
        let mut results: Vec<ToolResult> = Vec::new();
        let mut signatures: Vec<String> = Vec::new();
        let mut rest = outputs;
        let ghost all = rest@;
        let mut i: usize = 0;
        while i < calls.len()
            invariant
                i <= calls@.len(),
                all.len() == calls@.len(),
                rest@ == all.skip(i as int),
                results@.len() == i,
                signatures@.len() == i,
                self.previous_calls@ == prev,
                self.messages == old(self).messages,
                self.base_len == old(self).base_len,
                self.round == old(self).round,
                self.tally == old(self).tally,
                self.reply == old(self).reply,
                forall|k: int| 0 <= k < i ==> (#[trigger] signatures@[k])@ == calls@[k].name@ + "::"@ + calls@[k].args@,
                forall|k: int| 0 <= k < i ==> {
                    let res = #[trigger] results@[k];
                    let sig = calls@[k].name@ + "::"@ + calls@[k].args@;
                    let repeated = exists|j: int| 0 <= j < prev.len() && (#[trigger] prev[j])@ == sig;
                    let out = match all[k] { Ok(o) => o@, Err(e) => e@ };
                    &&& res.name@ == calls@[k].name@
                    &&& res.ok == all[k] is Ok
                    &&& res.output@ == if !res.ok && repeated { out + repeat_note() } else { out }
                },
            decreases calls@.len() - i,
        {
            let call = &calls[i];
            let sig = call_signature(call.name.as_str(), call.args.as_str());
            let outcome = rest.remove(0);
            assert(outcome == all[i as int]);
            let result = match outcome {
                Ok(output) => ToolResult { name: call.name.clone(), ok: true, output },
                Err(output) => ToolResult { name: call.name.clone(), ok: false, output },
            };
            let noted = note_repeated_failure(result, &self.previous_calls, sig.as_str());
            results.push(noted);
            signatures.push(sig);
            i = i + 1;
            assert(rest@ =~= all.skip(i as int));
        }
        let text = format_results(&results);
        let reply = self.reply.clone();
        let ghost before = messages_view(self.messages@);
        self.messages.push(LlmMessage { role: "assistant".to_string(), content: reply });
        self.messages.push(LlmMessage { role: "user".to_string(), content: text });
        assert(messages_view(self.messages@) =~= before + seq![("assistant"@, old(self).reply@), ("user"@, results_text(results@))]);
        let ghost pushed = self.messages@;
        trim_history(&mut self.messages, self.base_len);
        proof {
            let b = self.base_len as nat;
            let m = messages_view(pushed);
            assert(messages_view(kept_history(pushed, b)) =~= kept_history(m, b));
            assert(self.messages@.len() == kept_history(pushed, b).len());
        }
        let ghost sigs = signatures@;
        let ghost after_trim = self.messages@;
        let mut k: usize = 0;
        while k < signatures.len()
            invariant
                k <= signatures@.len(),
                signatures@ == sigs,
                self.messages@ == after_trim,
                self.base_len == old(self).base_len,
                self.round == old(self).round,
                self.tally == old(self).tally,
                strings_view_of(self.previous_calls@) == strings_view_of(prev)
                    + strings_view_of(sigs.take(k as int)),
            decreases signatures@.len() - k,
        {
            let s = signatures[k].clone();
            let ghost before_pc = strings_view_of(self.previous_calls@);
            self.previous_calls.push(s);
            assert(strings_view_of(self.previous_calls@) =~= before_pc.push(sigs[k as int]@));
            k = k + 1;
            assert(strings_view_of(sigs.take(k as int)) =~= strings_view_of(sigs.take(k - 1)).push(sigs[k - 1]@));
            assert(strings_view_of(self.previous_calls@) =~= strings_view_of(prev) + strings_view_of(sigs.take(k as int)));
        }
        assert(sigs.take(sigs.len() as int) =~= sigs);
        assert(strings_view_of(sigs) =~= calls@.map_values(|c: ParsedToolCall| c.name@ + "::"@ + c.args@));
        let done = if self.round == MAX_ROUNDS { Some(round_limit_outcome(&self.tally)) } else { None };
        (results, done)
    }
}

/// The texts of a list of strings.
pub open spec fn strings_view_of(v: Seq<String>) -> Seq<Seq<char>> {
    v.map_values(|s: String| s@)
}

} // verus!
