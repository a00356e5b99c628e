//! Reading the providers' (non-streamed) replies: the generated text, the
//! token usage, and model lists.
use vstd::prelude::*;

use crate::json::{json_leaf, json_pointer, str_at, str_at_pointer, JsonLeaf, JsonLeafView};
use crate::resource::strings_view;
use crate::text::{
    chars_eq, decimal, has_prefix, lemma_text_lt_total, lemma_text_lt_transitive, push_all, slice_range,
    starts_with, str_chars, string_from_chars, text_lt, text_lt_exec, u64_decimal,
};

verus! {

broadcast use vstd::seq_lib::group_to_multiset_ensures;

/// The JSON Pointer of item `i` of the array at `base`.
pub open spec fn item(base: Seq<char>, i: nat) -> Seq<char> {
    base + "/"@ + decimal(i)
}

fn item_exec(base: &str, i: usize) -> (r: String)
    ensures
        r@ == item(base@, i as nat),
{
    let mut v = str_chars(base);
    v.push('/');
    push_all(&mut v, u64_decimal(i as u64).as_slice());
    proof {
        reveal_strlit("/");
    }
    assert(v@ =~= item(base@, i as nat));
    string_from_chars(v.as_slice())
}

fn member_exec(base: &str, key: &str) -> (r: String)
    ensures
        r@ == base@ + "/"@ + key@,
{
    let mut v = str_chars(base);
    v.push('/');
    push_all(&mut v, str_chars(key).as_slice());
    proof {
        reveal_strlit("/");
    }
    assert(v@ =~= base@ + "/"@ + key@);
    string_from_chars(v.as_slice())
}

/// The length of the array at `ptr` (none when it is no array).
pub open spec fn array_len(body: Seq<char>, ptr: Seq<char>) -> Option<nat> {
    match json_leaf(body, ptr) {
        Some(JsonLeafView::Array(n)) => Some(n),
        _ => None,
    }
}

fn array_len_exec(body: &str, ptr: &str) -> (r: Option<usize>)
    ensures
        match r {
            Some(n) => array_len(body@, ptr@) == Some(n as nat),
            None => array_len(body@, ptr@) is None,
        },
{
    match json_pointer(body, ptr) {
        Some(JsonLeaf::Array(n)) => Some(n),
        _ => None,
    }
}

/// The `text` members (those that are text) of the first `n` items of the
/// array at `base`, one after the other; with `kind`, only items whose
/// `type` is `kind` count.
pub open spec fn texts_of(body: Seq<char>, base: Seq<char>, n: nat, kind: Option<Seq<char>>) -> Seq<char>
    decreases n,
{
    if n == 0 {
        Seq::empty()
    } else {
        let i = (n - 1) as nat;
        let prev = texts_of(body, base, i, kind);
        let counted = match kind {
            Some(k) => str_at(body, item(base, i) + "/type"@) == Some(k),
            None => true,
        };
        match str_at(body, item(base, i) + "/text"@) {
            Some(t) => if counted { prev + t } else { prev },
            None => prev,
        }
    }
}

fn texts_of_exec(body: &str, base: &str, n: usize, kind: Option<&str>) -> (r: String)
    ensures
        r@ == texts_of(body@, base@, n as nat, match kind { Some(k) => Some(k@), None => None }),
{
    let ghost k = match kind { Some(k) => Some(k@), None => None };
    let mut out: Vec<char> = Vec::new();
    let mut i: usize = 0;
    while i < n
        invariant
            i <= n,
            k == match kind { Some(x) => Some(x@), None => None::<Seq<char>> },
            out@ == texts_of(body@, base@, i as nat, k),
        decreases n - i,
    {
        let it = item_exec(base, i);
        proof {
            reveal_strlit("/");
            reveal_strlit("type");
            reveal_strlit("/type");
            reveal_strlit("text");
            reveal_strlit("/text");
            assert(it@ + "/"@ + "type"@ =~= it@ + "/type"@);
            assert(it@ + "/"@ + "text"@ =~= it@ + "/text"@);
        }
        let counted = match kind {
            Some(want) => match str_at_pointer(body, member_exec(it.as_str(), "type").as_str()) {
                Some(t) => chars_eq(str_chars(t.as_str()).as_slice(), str_chars(want).as_slice()),
                None => false,
            },
            None => true,
        };
        if let Some(t) = str_at_pointer(body, member_exec(it.as_str(), "text").as_str()) {
            if counted {
                push_all(&mut out, str_chars(t.as_str()).as_slice());
            }
        }
        i = i + 1;
    }
    string_from_chars(out.as_slice())
}

/// The text of an OpenAI Responses reply: the `text` parts of the content
/// of each `output` item of type `message`.
pub open spec fn responses_text_upto(body: Seq<char>, n: nat) -> Seq<char>
    decreases n,
{
    if n == 0 {
        Seq::empty()
    } else {
        let i = (n - 1) as nat;
        let prev = responses_text_upto(body, i);
        let base = item("/output"@, i);
        if str_at(body, base + "/type"@) == Some("message"@) {
            match array_len(body, base + "/content"@) {
                Some(m) => prev + texts_of(body, base + "/content"@, m, None),
                None => prev,
            }
        } else {
            prev
        }
    }
}

pub open spec fn responses_text_spec(body: Seq<char>) -> Seq<char> {
    match array_len(body, "/output"@) {
        Some(n) => responses_text_upto(body, n),
        None => Seq::empty(),
    }
}

/// The generated text of an OpenAI Responses reply (its JSON text).
pub fn responses_text(body: &str) -> (r: String)
    ensures
        r@ == responses_text_spec(body@),
{
    let n = match array_len_exec(body, "/output") {
        Some(n) => n,
        None => return String::new(),
    };
    let mut out: Vec<char> = Vec::new();
    let mut i: usize = 0;
    while i < n
        invariant
            i <= n,
            out@ == responses_text_upto(body@, i as nat),
        decreases n - i,
    {
        let base = item_exec("/output", i);
        proof {
            reveal_strlit("/");
            reveal_strlit("type");
            reveal_strlit("/type");
            reveal_strlit("content");
            reveal_strlit("/content");
            assert(base@ + "/"@ + "type"@ =~= base@ + "/type"@);
            assert(base@ + "/"@ + "content"@ =~= base@ + "/content"@);
        }
        let is_message = match str_at_pointer(body, member_exec(base.as_str(), "type").as_str()) {
            Some(t) => chars_eq(str_chars(t.as_str()).as_slice(), str_chars("message").as_slice()),
            None => false,
        };
        if is_message {
            let content = member_exec(base.as_str(), "content");
            if let Some(m) = array_len_exec(body, content.as_str()) {
                let t = texts_of_exec(body, content.as_str(), m, None);
                push_all(&mut out, str_chars(t.as_str()).as_slice());
            }
        }
        i = i + 1;
    }
    string_from_chars(out.as_slice())
}

/// The text of an Anthropic Messages reply: its `content` parts of type
/// `text`.
pub open spec fn messages_text_spec(body: Seq<char>) -> Seq<char> {
    match array_len(body, "/content"@) {
        Some(n) => texts_of(body, "/content"@, n, Some("text"@)),
        None => Seq::empty(),
    }
}

/// The generated text of an Anthropic Messages reply (its JSON text).
pub fn messages_text(body: &str) -> (r: String)
    ensures
        r@ == messages_text_spec(body@),
{
    match array_len_exec(body, "/content") {
        Some(n) => texts_of_exec(body, "/content", n, Some("text")),
        None => String::new(),
    }
}

/// The text of a Gemini reply: the `text` parts of the first candidate's
/// content.
pub open spec fn gemini_text_spec(body: Seq<char>) -> Seq<char> {
    match array_len(body, "/candidates"@) {
        Some(n) => if n > 0 {
            match array_len(body, "/candidates/0/content/parts"@) {
                Some(m) => texts_of(body, "/candidates/0/content/parts"@, m, None),
                None => Seq::empty(),
            }
        } else {
            Seq::empty()
        },
        None => Seq::empty(),
    }
}

/// The generated text of a Gemini `generateContent` reply (its JSON text).
pub fn gemini_text(body: &str) -> (r: String)
    ensures
        r@ == gemini_text_spec(body@),
{
    match array_len_exec(body, "/candidates") {
        Some(n) => {
            if n == 0 {
                return String::new();
            }
            match array_len_exec(body, "/candidates/0/content/parts") {
                Some(m) => texts_of_exec(body, "/candidates/0/content/parts", m, None),
                None => String::new(),
            }
        },
        None => String::new(),
    }
}

/// A member that is a number fitting in `u64`.
pub open spec fn u64_at(body: Seq<char>, ptr: Seq<char>) -> Option<u64> {
    match json_leaf(body, ptr) {
        Some(JsonLeafView::Number(Some(u), _)) => Some(u),
        _ => None,
    }
}

fn u64_at_exec(body: &str, ptr: &str) -> (r: Option<u64>)
    ensures
        r == u64_at(body@, ptr@),
{
    match json_pointer(body, ptr) {
        Some(JsonLeaf::Number(Some(u), _)) => Some(u),
        _ => None,
    }
}

/// Token usage of a reply: the two counts of the object at `ptr` (nothing
/// when it is no object).
pub open spec fn usage_spec(body: Seq<char>, ptr: Seq<char>, input: Seq<char>, output: Seq<char>) -> (Option<u64>, Option<u64>) {
    if json_leaf(body, ptr) matches Some(JsonLeafView::Object) {
        (u64_at(body, ptr + "/"@ + input), u64_at(body, ptr + "/"@ + output))
    } else {
        (None, None)
    }
}

fn usage_exec(body: &str, ptr: &str, input: &str, output: &str) -> (r: (Option<u64>, Option<u64>))
    ensures
        r == usage_spec(body@, ptr@, input@, output@),
{
    match json_pointer(body, ptr) {
        Some(JsonLeaf::Object) => (
            u64_at_exec(body, member_exec(ptr, input).as_str()),
            u64_at_exec(body, member_exec(ptr, output).as_str()),
        ),
        _ => (None, None),
    }
}

/// Token usage of an OpenAI Responses or Anthropic Messages reply:
/// `usage.input_tokens` and `usage.output_tokens`.
pub fn usage_tokens(body: &str) -> (r: (Option<u64>, Option<u64>))
    ensures
        r == usage_spec(body@, "/usage"@, "input_tokens"@, "output_tokens"@),
{
    usage_exec(body, "/usage", "input_tokens", "output_tokens")
}

/// Token usage of a Gemini reply: `usageMetadata.promptTokenCount` and
/// `usageMetadata.candidatesTokenCount`.
pub fn gemini_usage(body: &str) -> (r: (Option<u64>, Option<u64>))
    ensures
        r == usage_spec(body@, "/usageMetadata"@, "promptTokenCount"@, "candidatesTokenCount"@),
{
    usage_exec(body, "/usageMetadata", "promptTokenCount", "candidatesTokenCount")
}

/// No text stands after a text it orders before.
pub open spec fn sorted_texts(v: Seq<Seq<char>>) -> bool {
    forall|i: int, j: int| 0 <= i < j < v.len() ==> !text_lt(#[trigger] v[j], #[trigger] v[i])
}

/// Sorts texts in the order of `str` (`slice::sort` on strings).
pub fn sort_texts(v: Vec<String>) -> (r: Vec<String>)
    ensures
        sorted_texts(strings_view(r@)),
        strings_view(r@).to_multiset() == strings_view(v@).to_multiset(),
{
    let ghost all = v@;
    let mut rest = v;
    let mut out: Vec<String> = Vec::new();
    let n = rest.len();
    let mut k: usize = 0;
    while rest.len() > 0
        invariant
            all.len() == n,
            k + rest@.len() == n,
            rest@ == all.skip(k as int),
            sorted_texts(strings_view(out@)),
            strings_view(out@).to_multiset() == strings_view(all.take(k as int)).to_multiset(),
        decreases rest@.len(),
    {
        let x = rest.remove(0);
        assert(x == all[k as int]);
        let xc = str_chars(x.as_str());
        let ghost before = strings_view(out@);
        let mut p: usize = 0;
        let mut go = true;
        while go && p < out.len()
            invariant
                p <= out@.len(),
                before == strings_view(out@),
                xc@ == x@,
                forall|q: int| 0 <= q < p ==> !text_lt(x@, #[trigger] before[q]),
                !go ==> p < out@.len() && text_lt(x@, before[p as int]),
            decreases out@.len() - p + (if go { 1int } else { 0int }),
        {
            if text_lt_exec(xc.as_slice(), str_chars(out[p].as_str()).as_slice()) {
                go = false;
            } else {
                p = p + 1;
            }
        }
        out.insert(p, x);
        proof {
            let after = strings_view(out@);
            assert(after =~= before.insert(p as int, x@));
            before.insert_ensures(p as int, x@);
            assert forall|i: int, j: int| 0 <= i < j < after.len() implies !text_lt(#[trigger] after[j], #[trigger] after[i]) by {
                if j < p {
                    assert(after[i] == before[i] && after[j] == before[j]);
                } else if j == p {
                    assert(after[i] == before[i]);
                    lemma_text_lt_total(x@, before[i]);
                } else if i == p {
                    assert(after[j] == before[j - 1]);
                    lemma_text_lt_total(x@, before[p as int]);
                    if j - 1 > p && text_lt(before[j - 1], x@) {
                        lemma_text_lt_transitive(before[j - 1], x@, before[p as int]);
                    }
                } else if i < p {
                    assert(after[i] == before[i] && after[j] == before[j - 1]);
                    lemma_text_lt_total(x@, before[i]);
                    if text_lt(before[j - 1], before[i]) {
                        if j - 1 >= p {
                            lemma_text_lt_transitive(before[j - 1], before[i], x@);
                            lemma_text_lt_transitive(before[j - 1], x@, before[p as int]);
                            lemma_text_lt_total(before[j - 1], before[p as int]);
                        }
                    }
                } else {
                    assert(after[i] == before[i - 1] && after[j] == before[j - 1]);
                }
            }
            assert(strings_view(all.take(k as int + 1)) =~= strings_view(all.take(k as int)).push(x@));
        }
        k = k + 1;
        assert(rest@ =~= all.skip(k as int));
    }
    assert(all.take(k as int) =~= all);
    out
}

/// The ids named by the first `n` items of the array at `base` (each item's
/// `key` member when it is non-empty text), with `prefix` taken off the
/// front where present.
pub open spec fn listed_names(body: Seq<char>, base: Seq<char>, n: nat, key: Seq<char>, prefix: Seq<char>) -> Seq<Seq<char>>
    decreases n,
{
    if n == 0 {
        Seq::empty()
    } else {
        let i = (n - 1) as nat;
        let prev = listed_names(body, base, i, key, prefix);
        match str_at(body, item(base, i) + "/"@ + key) {
            Some(s) => {
                let t = if has_prefix(s, prefix) { s.skip(prefix.len() as int) } else { s };
                if t.len() > 0 { prev.push(t) } else { prev }
            },
            None => prev,
        }
    }
}

pub open spec fn names_spec(body: Seq<char>, base: Seq<char>, key: Seq<char>, prefix: Seq<char>) -> Seq<Seq<char>> {
    match array_len(body, base) {
        Some(n) => listed_names(body, base, n, key, prefix),
        None => Seq::empty(),
    }
}

fn listed_names_exec(body: &str, base: &str, key: &str, prefix: &str) -> (r: Vec<String>)
    ensures
        strings_view(r@) == names_spec(body@, base@, key@, prefix@),
{
    let n = match array_len_exec(body, base) {
        Some(n) => n,
        None => return Vec::new(),
    };
    let pre = str_chars(prefix);
    let mut out: Vec<String> = Vec::new();
    let mut i: usize = 0;
    while i < n
        invariant
            i <= n,
            pre@ == prefix@,
            array_len(body@, base@) == Some(n as nat),
            strings_view(out@) == listed_names(body@, base@, i as nat, key@, prefix@),
        decreases n - i,
    {
        let it = item_exec(base, i);
        let ptr = member_exec(it.as_str(), key);
        if let Some(s) = str_at_pointer(body, ptr.as_str()) {
            let c = str_chars(s.as_str());
            let t = if starts_with(c.as_slice(), pre.as_slice()) {
                let r = slice_range(c.as_slice(), pre.len(), c.len());
                assert(r@ =~= c@.skip(pre@.len() as int));
                r
            } else {
                c
            };
            if t.len() > 0 {
                out.push(string_from_chars(t.as_slice()));
                assert(strings_view(out@) =~= listed_names(body@, base@, i as nat, key@, prefix@).push(t@));
            }
        }
        i = i + 1;
    }
    out
}

/// The model list of an OpenAI-compatible `/models` reply for the model
/// picker: the non-empty `id`s of `data`, sorted (repeats kept).
pub fn openai_model_list(body: &str) -> (r: Vec<String>)
    ensures
        sorted_texts(strings_view(r@)),
        strings_view(r@).to_multiset() == names_spec(body@, "/data"@, "id"@, Seq::empty()).to_multiset(),
{
    let v = listed_names_exec(body, "/data", "id", "");
    proof {
        reveal_strlit("");
        assert(""@ =~= Seq::<char>::empty());
    }
    sort_texts(v)
}

/// The model list of a Gemini `models` reply: the non-empty `name`s of
/// `models` without their `models/` prefix, sorted (repeats kept).
pub fn gemini_model_list(body: &str) -> (r: Vec<String>)
    ensures
        sorted_texts(strings_view(r@)),
        strings_view(r@).to_multiset() == names_spec(body@, "/models"@, "name"@, "models/"@).to_multiset(),
{
    sort_texts(listed_names_exec(body, "/models", "name", "models/"))
}

} // verus!
