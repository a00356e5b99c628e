//! Reading a streamed Chat Completions reply (server-sent events): the
//! decisions taken on each received chunk and at the end of the stream.
use vstd::prelude::*;
use vstd::utf8::{decode_utf8, valid_utf8};

use crate::json::{json_leaf, json_pointer, str_at, str_at_pointer, JsonLeaf, JsonLeafView};
use crate::llm::{extract_openai_stream_error, stream_error_spec};
use crate::text::{chars_eq, has_prefix, push_all, slice_range, starts_with, str_chars, string_from_chars, trim, trim_chars};

verus! {

/// What `String::from_utf8_lossy` makes of `bytes` (invalid sequences
/// replaced by U+FFFD).
pub uninterp spec fn utf8_lossy(bytes: Seq<u8>) -> Seq<char>;

/// `String::from_utf8_lossy`. The contract claims the result is the named
/// reading, which for valid UTF-8 is the text the bytes encode.
#[verifier::external_body]
fn lossy_text(bytes: &[u8]) -> (r: String)
    ensures
        r@ == utf8_lossy(bytes@),
        valid_utf8(bytes@) ==> r@ == decode_utf8(bytes@),
{
    String::from_utf8_lossy(bytes).into_owned()
}

/// The payload of an SSE line: the trimmed text after `data:`, when the
/// trimmed line starts with it.
pub open spec fn line_data(line: Seq<u8>) -> Option<Seq<char>> {
    let t = trim(utf8_lossy(line));
    if has_prefix(t, "data:"@) { Some(trim(t.skip(5))) } else { None }
}

/// The first member, among two, that is a number fitting in `u64`.
pub open spec fn first_u64(a: Option<JsonLeafView>, b: Option<JsonLeafView>) -> Option<u64> {
    match a {
        Some(JsonLeafView::Number(Some(u), _)) => Some(u),
        _ => match b {
            Some(JsonLeafView::Number(Some(u), _)) => Some(u),
            _ => None,
        },
    }
}

/// Token usage carried by an event: `usage.prompt_tokens` (or
/// `input_tokens`) and `usage.completion_tokens` (or `output_tokens`).
pub open spec fn chat_usage(d: Seq<char>) -> (Option<u64>, Option<u64>) {
    (
        first_u64(json_leaf(d, "/usage/prompt_tokens"@), json_leaf(d, "/usage/input_tokens"@)),
        first_u64(json_leaf(d, "/usage/completion_tokens"@), json_leaf(d, "/usage/output_tokens"@)),
    )
}

/// Whether `choices` is a non-empty array.
pub open spec fn has_choice(d: Seq<char>) -> bool {
    json_leaf(d, "/choices"@) matches Some(JsonLeafView::Array(n)) && n > 0
}

/// The text increment of an event: `choices[0].delta.content`.
pub open spec fn chat_delta(d: Seq<char>) -> Option<Seq<char>> {
    if has_choice(d) { str_at(d, "/choices/0/delta/content"@) } else { None }
}

/// Whether an event completes the reply: `choices[0].finish_reason` is set.
pub open spec fn chat_complete(d: Seq<char>) -> bool {
    has_choice(d) && (json_leaf(d, "/choices/0/finish_reason"@) matches Some(l) && !(l is Null))
}

/// What has been gathered from the stream so far.
pub struct StreamModel {
    pub full: Seq<char>,
    pub input: Option<u64>,
    pub output: Option<u64>,
    pub saw_completion: bool,
}

/// Where a stream stands after a chunk.
pub enum StreamVerdict {
    /// Keep reading.
    Going,
    /// The `[DONE]` marker came: the reply is complete.
    Done,
    /// The stream reported an error.
    Failed(String),
}

pub enum VerdictView {
    Going,
    Done,
    Failed(Seq<char>),
}

pub open spec fn keep_some(new: Option<u64>, old: Option<u64>) -> Option<u64> {
    if new is Some { new } else { old }
}

/// One line of the stream: what it adds and where the stream stands.
pub open spec fn line_step(st: StreamModel, line: Seq<u8>) -> (StreamModel, Seq<Seq<char>>, VerdictView) {
    match line_data(line) {
        None => (st, Seq::empty(), VerdictView::Going),
        Some(d) => if d == "[DONE]"@ {
            (st, Seq::empty(), VerdictView::Done)
        } else if json_leaf(d, Seq::empty()) is None {
            (st, Seq::empty(), VerdictView::Going)
        } else {
            match stream_error_spec(d) {
                Some(e) => (st, Seq::empty(), VerdictView::Failed(e)),
                None => {
                    let (i, o) = chat_usage(d);
                    let (full, deltas) = match chat_delta(d) {
                        Some(x) => if x.len() > 0 { (st.full + x, seq![x]) } else { (st.full, Seq::empty()) },
                        None => (st.full, Seq::empty()),
                    };
                    (StreamModel {
                        full,
                        input: keep_some(i, st.input),
                        output: keep_some(o, st.output),
                        saw_completion: st.saw_completion || chat_complete(d),
                    }, deltas, VerdictView::Going)
                },
            }
        },
    }
}

/// The position of the first line break in `bytes`.
pub open spec fn first_newline(bytes: Seq<u8>) -> Option<int>
    decreases bytes.len(),
{
    if bytes.len() == 0 {
        None
    } else if bytes[0] == 10 {
        Some(0)
    } else {
        match first_newline(bytes.drop_first()) {
            Some(p) => Some(p + 1),
            None => None,
        }
    }
}

proof fn lemma_first_newline(bytes: Seq<u8>)
    ensures
        match first_newline(bytes) {
            Some(p) => 0 <= p < bytes.len() && bytes[p] == 10 && forall|j: int| 0 <= j < p ==> bytes[j] != 10,
            None => forall|j: int| 0 <= j < bytes.len() ==> bytes[j] != 10,
        },
    decreases bytes.len(),
{
    if bytes.len() > 0 && bytes[0] != 10 {
        lemma_first_newline(bytes.drop_first());
        assert forall|j: int| 1 <= j < bytes.len() implies bytes[j] == bytes.drop_first()[j - 1] by {}
    }
}

proof fn lemma_first_newline_at(bytes: Seq<u8>, p: int)
    requires
        0 <= p < bytes.len(),
        bytes[p] == 10,
        forall|j: int| 0 <= j < p ==> bytes[j] != 10,
    ensures
        first_newline(bytes) == Some(p),
    decreases p,
{
    if p > 0 {
        assert forall|j: int| 0 <= j < p - 1 implies bytes.drop_first()[j] != 10 by {
            assert(bytes.drop_first()[j] == bytes[j + 1]);
        }
        lemma_first_newline_at(bytes.drop_first(), p - 1);
    }
}

proof fn lemma_no_newline(bytes: Seq<u8>)
    requires
        forall|j: int| 0 <= j < bytes.len() ==> bytes[j] != 10,
    ensures
        first_newline(bytes) is None,
    decreases bytes.len(),
{
    if bytes.len() > 0 {
        assert forall|j: int| 0 <= j < bytes.len() - 1 implies bytes.drop_first()[j] != 10 by {
            assert(bytes.drop_first()[j] == bytes[j + 1]);
        }
        lemma_no_newline(bytes.drop_first());
    }
}

/// The complete lines of `pending`, read in order until the stream is done
/// or fails: what they add, where the stream stands, and the bytes left over
/// (an unfinished line).
pub open spec fn run_lines(st: StreamModel, pending: Seq<u8>) -> (StreamModel, Seq<Seq<char>>, VerdictView, Seq<u8>)
    decreases pending.len(),
{
    match first_newline(pending) {
        None => (st, Seq::empty(), VerdictView::Going, pending),
        Some(p) => if 0 <= p < pending.len() {
            let (st1, d1, v1) = line_step(st, pending.take(p + 1));
            let rest = pending.skip(p + 1);
            if v1 is Going {
                let (st2, d2, v2, left) = run_lines(st1, rest);
                (st2, d1 + d2, v2, left)
            } else {
                (st1, d1, v1, rest)
            }
        } else {
            (st, Seq::empty(), VerdictView::Going, pending)
        },
    }
}

/// The texts one after the other.
pub open spec fn concat(v: Seq<Seq<char>>) -> Seq<char>
    decreases v.len(),
{
    if v.len() == 0 { Seq::empty() } else { v[0] + concat(v.drop_first()) }
}

proof fn lemma_concat_append(a: Seq<Seq<char>>, b: Seq<Seq<char>>)
    ensures
        concat(a + b) == concat(a) + concat(b),
    decreases a.len(),
{
    if a.len() == 0 {
        assert(a + b =~= b);
    } else {
        lemma_concat_append(a.drop_first(), b);
        assert((a + b).drop_first() =~= a.drop_first() + b);
        assert((a + b)[0] == a[0]);
    }
}

/// The text gathered from a stream is what it held before followed by the
/// increments passed on, in order.
pub proof fn lemma_full_text(st: StreamModel, pending: Seq<u8>)
    ensures
        run_lines(st, pending).0.full == st.full + concat(run_lines(st, pending).1),
    decreases pending.len(),
{
    match first_newline(pending) {
        None => {
            assert(st.full + concat(Seq::<Seq<char>>::empty()) =~= st.full);
        },
        Some(p) => if 0 <= p < pending.len() {
            let (st1, d1, v1) = line_step(st, pending.take(p + 1));
            assert(st1.full == st.full + concat(d1)) by {
                if d1.len() == 1 {
                    assert(d1.drop_first() =~= Seq::<Seq<char>>::empty());
                    assert(concat(d1.drop_first()) == Seq::<char>::empty());
                    assert(concat(d1) == d1[0] + Seq::<char>::empty());
                    assert(concat(d1) =~= d1[0]);
                } else {
                    assert(st.full + concat(d1) =~= st.full);
                }
            }
            if v1 is Going {
                let rest = pending.skip(p + 1);
                lemma_full_text(st1, rest);
                let (st2, d2, v2, left) = run_lines(st1, rest);
                lemma_concat_append(d1, d2);
                assert(st.full + concat(d1 + d2) =~= (st.full + concat(d1)) + concat(d2));
            }
        } else {
            assert(st.full + concat(Seq::<Seq<char>>::empty()) =~= st.full);
        },
    }
}

/// Reading a stream's bytes in two parts gives what reading them at once
/// gives, as long as the stream is still going after the first part: the
/// unfinished line left by the first part is read on with the second.
pub proof fn lemma_split_reading(st: StreamModel, a: Seq<u8>, b: Seq<u8>)
    requires
        run_lines(st, a).2 is Going,
    ensures
        ({
            let (st1, d1, v1, left1) = run_lines(st, a);
            let (st2, d2, v2, left2) = run_lines(st1, left1 + b);
            run_lines(st, a + b) == (st2, d1 + d2, v2, left2)
        }),
    decreases a.len(),
{
    lemma_first_newline(a);
    match first_newline(a) {
        None => {
            let (st2, d2, v2, left2) = run_lines(st, a + b);
            assert(Seq::<Seq<char>>::empty() + d2 =~= d2);
        },
        Some(p) => {
            lemma_first_newline_at(a + b, p);
            assert((a + b).take(p + 1) =~= a.take(p + 1));
            assert((a + b).skip(p + 1) =~= a.skip(p + 1) + b);
            let (st1, d1, v1) = line_step(st, a.take(p + 1));
            let rest = a.skip(p + 1);
            lemma_split_reading(st1, rest, b);
            let (st3, d3, v3, left3) = run_lines(st1, rest);
            let (st2, d2, v2, left2) = run_lines(st3, left3 + b);
            assert(d1 + (d3 + d2) =~= (d1 + d3) + d2);
        },
    }
}

/// The reading state of a streamed reply.
pub struct StreamState {
    /// Bytes of a line not yet finished.
    pub buffer: Vec<u8>,
    /// The text gathered so far.
    pub full: String,
    pub input_tokens: Option<u64>,
    pub output_tokens: Option<u64>,
    /// Whether an event completed the reply.
    pub saw_completion: bool,
}

/// What a chunk brings: the text increments to pass on, and the verdict.
pub struct ChunkOutcome {
    pub deltas: Vec<String>,
    pub verdict: StreamVerdict,
}

pub open spec fn verdict_view(v: StreamVerdict) -> VerdictView {
    match v {
        StreamVerdict::Going => VerdictView::Going,
        StreamVerdict::Done => VerdictView::Done,
        StreamVerdict::Failed(e) => VerdictView::Failed(e@),
    }
}

pub open spec fn texts(v: Seq<String>) -> Seq<Seq<char>> {
    v.map_values(|s: String| s@)
}

impl StreamState {
    /// What has been gathered so far; the bytes of an unfinished line are not
    /// part of it (the contracts speak of `buffer` on its own).
    pub open spec fn model(&self) -> StreamModel {
        StreamModel {
            full: self.full@,
            input: self.input_tokens,
            output: self.output_tokens,
            saw_completion: self.saw_completion,
        }
    }

    /// A stream not read yet.
    pub fn new() -> (r: Self)
        ensures
            r.buffer@.len() == 0,
            r.model() == (StreamModel { full: Seq::empty(), input: None, output: None, saw_completion: false }),
    {
        StreamState { buffer: Vec::new(), full: String::new(), input_tokens: None, output_tokens: None, saw_completion: false }
    }

    /// Handles one line (its text, without the line break).
    fn take_line(&mut self, line: &[u8], deltas: &mut Vec<String>) -> (v: StreamVerdict)
        ensures
            ({
                let (st, d, vv) = line_step(old(self).model(), line@);
                &&& final(self).model() == st
                &&& texts(final(deltas)@) == texts(old(deltas)@) + d
                &&& verdict_view(v) == vv
                &&& final(self).buffer == old(self).buffer
            }),
    {
        let text = lossy_text(line);
        let t = trim_chars(str_chars(text.as_str()).as_slice());
        if !starts_with(t.as_slice(), str_chars("data:").as_slice()) {
            assert(texts(deltas@) =~= texts(deltas@) + Seq::<Seq<char>>::empty());
            return StreamVerdict::Going;
        }
        proof {
            reveal_strlit("data:");
        }
        let rest = slice_range(t.as_slice(), 5, t.len());
        assert(rest@ =~= t@.skip(5));
        let d = trim_chars(rest.as_slice());
        let data = string_from_chars(d.as_slice());
        if chars_eq(d.as_slice(), str_chars("[DONE]").as_slice()) {
            assert(texts(deltas@) =~= texts(deltas@) + Seq::<Seq<char>>::empty());
            return StreamVerdict::Done;
        }
        let parsed = json_pointer(data.as_str(), "");
        proof {
            reveal_strlit("");
            assert(""@ =~= Seq::<char>::empty());
        }
        if parsed.is_none() {
            assert(texts(deltas@) =~= texts(deltas@) + Seq::<Seq<char>>::empty());
            return StreamVerdict::Going;
        }
        if let Some(e) = extract_openai_stream_error(data.as_str()) {
            assert(texts(deltas@) =~= texts(deltas@) + Seq::<Seq<char>>::empty());
            return StreamVerdict::Failed(e);
        }
        let (input, output) = extract_usage(data.as_str());
        if input.is_some() {
            self.input_tokens = input;
        }
        if output.is_some() {
            self.output_tokens = output;
        }
        let choice = match json_pointer(data.as_str(), "/choices") {
            Some(JsonLeaf::Array(n)) => n > 0,
            _ => false,
        };
        let ghost before = texts(deltas@);
        if choice {
            if let Some(x) = str_at_pointer(data.as_str(), "/choices/0/delta/content") {
                if str_chars(x.as_str()).len() > 0 {
                    let mut f = str_chars(self.full.as_str());
                    push_all(&mut f, str_chars(x.as_str()).as_slice());
                    self.full = string_from_chars(f.as_slice());
                    deltas.push(x);
                    assert(texts(deltas@) =~= before + seq![deltas@.last()@]);
                } else {
                    assert(texts(deltas@) =~= before + Seq::<Seq<char>>::empty());
                }
            } else {
                assert(texts(deltas@) =~= before + Seq::<Seq<char>>::empty());
            }
        } else {
            assert(texts(deltas@) =~= before + Seq::<Seq<char>>::empty());
        }
        let done = choice && match json_pointer(data.as_str(), "/choices/0/finish_reason") {
            Some(JsonLeaf::Null) => false,
            Some(_) => true,
            None => false,
        };
        if done {
            self.saw_completion = true;
        }
        StreamVerdict::Going
    }

    /// Takes in a chunk of the stream: its complete lines are read in order
    /// (see [`run_lines`]); an unfinished line waits for the next chunk.
    pub fn feed(&mut self, chunk: &[u8]) -> (r: ChunkOutcome)
        ensures
            ({
                let (st, d, v, left) = run_lines(old(self).model(), old(self).buffer@ + chunk@);
                &&& final(self).model() == st
                &&& texts(r.deltas@) == d
                &&& verdict_view(r.verdict) == v
                &&& (v is Going ==> final(self).buffer@ == left)
                &&& (!(v is Going) ==> final(self).buffer@.len() == 0)
            }),
    {
        let mut pending: Vec<u8> = Vec::new();
        let mut k: usize = 0;
        while k < self.buffer.len()
            invariant
                k <= self.buffer@.len(),
                pending@ == self.buffer@.take(k as int),
            decreases self.buffer@.len() - k,
        {
            pending.push(self.buffer[k]);
            k = k + 1;
            assert(pending@ =~= self.buffer@.take(k as int));
        }
        let mut c: usize = 0;
        assert(self.buffer@.take(k as int) =~= self.buffer@);
        while c < chunk.len()
            invariant
                c <= chunk@.len(),
                pending@ == self.buffer@ + chunk@.take(c as int),
            decreases chunk@.len() - c,
        {
            pending.push(chunk[c]);
            c = c + 1;
            assert(pending@ =~= self.buffer@ + chunk@.take(c as int));
        }
        assert(chunk@.take(chunk@.len() as int) =~= chunk@);
        let ghost all = pending@;
        let ghost st0 = self.model();
        let mut deltas: Vec<String> = Vec::new();
        let mut pos: usize = 0;
        let mut i: usize = 0;
        proof {
            assert(all.skip(0) =~= all);
            let (st, d, v, left) = run_lines(st0, all);
            assert(texts(deltas@) + d =~= d);
        }
        assert(all == old(self).buffer@ + chunk@);
        assert(st0 == old(self).model());
        while i < pending.len()
            invariant
                pending@ == all,
                all == old(self).buffer@ + chunk@,
                st0 == old(self).model(),
                pos <= i <= all.len(),
                forall|j: int| pos <= j < i ==> all[j] != 10,
                run_lines(st0, all) == ({
                    let (st, d, v, left) = run_lines(self.model(), all.skip(pos as int));
                    (st, texts(deltas@) + d, v, left)
                }),
            decreases all.len() - i,
        {
            if pending[i] == 10 {
                let line = slice_bytes(pending.as_slice(), pos, i + 1);
                proof {
                    let s = all.skip(pos as int);
                    assert forall|j: int| 0 <= j < i - pos implies s[j] != 10 by {
                        assert(s[j] == all[pos + j]);
                    }
                    assert(s[i - pos] == 10);
                    lemma_first_newline_at(s, i - pos);
                    assert(s.take(i - pos + 1) =~= line@);
                    assert(s.skip(i - pos + 1) =~= all.skip(i as int + 1));
                }
                let ghost m0 = self.model();
                let ghost d0 = texts(deltas@);
                let v = self.take_line(line.as_slice(), &mut deltas);
                proof {
                    let s = all.skip(pos as int);
                    let (st1, d1, v1) = line_step(m0, line@);
                    if v1 is Going {
                        let (st2, d2, v2, left) = run_lines(st1, all.skip(i as int + 1));
                        assert(d0 + (d1 + d2) =~= (d0 + d1) + d2);
                    } else {
                        assert(run_lines(m0, s) == (st1, d1, v1, all.skip(i as int + 1)));
                    }
                }
                match v {
                    StreamVerdict::Going => {
                        pos = i + 1;
                    },
                    _ => {
                        self.buffer = Vec::new();
                        return ChunkOutcome { deltas, verdict: v };
                    },
                }
            }
            i = i + 1;
        }
        let rest = slice_bytes(pending.as_slice(), pos, pending.len());
        proof {
            let s = all.skip(pos as int);
            assert forall|j: int| 0 <= j < s.len() implies s[j] != 10 by {
                assert(s[j] == all[pos + j]);
            }
            lemma_no_newline(s);
            assert(rest@ =~= s);
            assert(texts(deltas@) + Seq::<Seq<char>>::empty() =~= texts(deltas@));
        }
        self.buffer = rest;
        ChunkOutcome { deltas, verdict: StreamVerdict::Going }
    }

    /// The end of the stream: the gathered text and usage when an event
    /// completed the reply, else an error.
    pub fn finish(&self) -> (r: Result<(String, Option<u64>, Option<u64>), String>)
        ensures
            match r {
                Ok((t, i, o)) => self.saw_completion && t@ == self.full@ && i == self.input_tokens
                    && o == self.output_tokens,
                Err(e) => !self.saw_completion && e@ == "流在完成事件前意外结束"@,
            },
    {
        if self.saw_completion {
            Ok((self.full.clone(), self.input_tokens, self.output_tokens))
        } else {
            Err("流在完成事件前意外结束".to_string())
        }
    }
}

fn slice_bytes(s: &[u8], a: usize, b: usize) -> (r: Vec<u8>)
    requires
        a <= b <= s@.len(),
    ensures
        r@ == s@.subrange(a as int, b as int),
{
    let mut r: Vec<u8> = Vec::new();
    let mut i = a;
    while i < b
        invariant
            a <= i <= b,
            b <= s@.len(),
            r@ == s@.subrange(a as int, i as int),
        decreases b - i,
    {
        r.push(s[i]);
        i = i + 1;
        assert(r@ =~= s@.subrange(a as int, i as int));
    }
    r
}

/// The token usage an event of the stream reports (either may be missing).
pub fn extract_usage(event: &str) -> (r: (Option<u64>, Option<u64>))
    ensures
        r == chat_usage(event@),
{
    (
        first_u64_of(event, "/usage/prompt_tokens", "/usage/input_tokens"),
        first_u64_of(event, "/usage/completion_tokens", "/usage/output_tokens"),
    )
}

/// The first of two members that is a number fitting in `u64`.
pub(crate) fn first_u64_of(d: &str, a: &str, b: &str) -> (r: Option<u64>)
    ensures
        r == first_u64(json_leaf(d@, a@), json_leaf(d@, b@)),
{
    match json_pointer(d, a) {
        Some(JsonLeaf::Number(Some(u), _)) => Some(u),
        _ => match json_pointer(d, b) {
            Some(JsonLeaf::Number(Some(u), _)) => Some(u),
            _ => None,
        },
    }
}

} // verus!
