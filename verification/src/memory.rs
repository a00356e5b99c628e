//! Long-term memories and context summaries: checking what is stored, reading
//! stored tags back, and matching memories against a search.
use vstd::prelude::*;

use crate::text::{
    fields, chars_eq, find_from, find_from_exec, push_all, str_chars, string_from_chars, trim, trim_chars,
};

verus! {

/// The kinds a memory may have.
pub open spec fn memory_type(t: Seq<char>) -> bool {
    t == "fact"@ || t == "preference"@ || t == "project"@ || t == "event"@
        || t == "relationship"@ || t == "core"@
}

/// The text, kind, tags and expiry of a memory as entered (its importance and
/// confidence are handled apart).
pub struct MemoryFields {
    pub content: String,
    /// `fact`, `preference`, `project`, `event`, `relationship` or `core`.
    pub kind: String,
    pub tags: Vec<String>,
    pub expires_at: Option<i64>,
}

pub open spec fn texts(v: Seq<String>) -> Seq<Seq<char>> {
    v.map_values(|s: String| s@)
}

/// The tags kept: each trimmed, blank ones dropped, and each kept once (at
/// its first place).
pub open spec fn unique_tags(v: Seq<Seq<char>>) -> Seq<Seq<char>>
    decreases v.len(),
{
    if v.len() == 0 {
        Seq::empty()
    } else {
        let r = unique_tags(v.drop_last());
        let t = trim(v.last());
        if t.len() > 0 && !r.contains(t) { r.push(t) } else { r }
    }
}

/// The tags kept for a memory are trimmed, never blank, and never repeated.
pub proof fn lemma_unique_tags(v: Seq<Seq<char>>)
    ensures
        forall|i: int| 0 <= i < unique_tags(v).len() ==> (#[trigger] unique_tags(v)[i]).len() > 0
            && exists|j: int| 0 <= j < v.len() && unique_tags(v)[i] == trim(v[j]),
        forall|i: int, j: int| 0 <= i < j < unique_tags(v).len() ==> unique_tags(v)[i] != unique_tags(v)[j],
    decreases v.len(),
{
    if v.len() > 0 {
        lemma_unique_tags(v.drop_last());
        let r = unique_tags(v.drop_last());
        let t = trim(v.last());
        let u = unique_tags(v);
        assert forall|i: int| 0 <= i < u.len() implies (#[trigger] u[i]).len() > 0
            && exists|j: int| 0 <= j < v.len() && u[i] == trim(v[j]) by {
            if i < r.len() {
                assert(u[i] == r[i]);
                let j = choose|j: int| 0 <= j < v.drop_last().len() && r[i] == trim(v.drop_last()[j]);
                assert(v[j] == v.drop_last()[j]);
            } else {
                assert(u[i] == t);
                assert(v[v.len() - 1] == v.last());
            }
        }
        assert forall|i: int, j: int| 0 <= i < j < u.len() implies u[i] != u[j] by {
            if j < r.len() {
                assert(u[i] == r[i] && u[j] == r[j]);
            } else {
                assert(u[j] == t);
                assert(u[i] == r[i]);
                assert(r.contains(r[i]));
            }
        }
    }
}

/// The kind a memory is stored with, or the error for an unknown kind.
pub open spec fn kind_of(raw: Seq<char>) -> Result<Seq<char>, Seq<char>> {
    if trim(raw).len() == 0 {
        Ok("fact"@)
    } else if memory_type(trim(raw)) {
        Ok(trim(raw))
    } else {
        Err("记忆类型无效: "@ + raw + ", 可选 fact / preference / project / event / relationship / core"@)
    }
}

/// Tags that are trimmed, not blank and not repeated are kept as they are.
proof fn lemma_unique_tags_fixed(w: Seq<Seq<char>>)
    requires
        forall|i: int| 0 <= i < w.len() ==> trim(#[trigger] w[i]) == w[i] && w[i].len() > 0,
        forall|i: int, j: int| 0 <= i < j < w.len() ==> w[i] != w[j],
    ensures
        unique_tags(w) == w,
    decreases w.len(),
{
    if w.len() > 0 {
        let p = w.drop_last();
        assert forall|i: int| 0 <= i < p.len() implies trim(#[trigger] p[i]) == p[i] && p[i].len() > 0 by {
            assert(p[i] == w[i]);
        }
        lemma_unique_tags_fixed(p);
        let t = w.last();
        assert(trim(w[w.len() - 1]) == w[w.len() - 1]);
        if p.contains(t) {
            let k = choose|k: int| 0 <= k < p.len() && p[k] == t;
            assert(w[k] == w[w.len() - 1]);
        }
        assert(p.push(t) =~= w);
    }
}

/// Checking a memory that was already checked gives it back: its content,
/// kind and tags are unchanged.
pub proof fn lemma_normalize_idempotent(content: Seq<char>, kind: Seq<char>, tags: Seq<Seq<char>>)
    requires
        trim(content).len() > 0,
        kind_of(kind) is Ok,
    ensures
        trim(trim(content)) == trim(content),
        kind_of(kind_of(kind)->Ok_0) == kind_of(kind),
        unique_tags(unique_tags(tags)) == unique_tags(tags),
{
    crate::text::lemma_trim_idempotent(content);
    let k = kind_of(kind)->Ok_0;
    reveal_strlit("fact");
    reveal_strlit("preference");
    reveal_strlit("project");
    reveal_strlit("event");
    reveal_strlit("relationship");
    reveal_strlit("core");
    if trim(kind).len() == 0 {
        crate::text::lemma_trim_plain("fact"@);
    } else {
        crate::text::lemma_trim_idempotent(kind);
    }
    let u = unique_tags(tags);
    lemma_unique_tags(tags);
    assert forall|i: int| 0 <= i < u.len() implies trim(#[trigger] u[i]) == u[i] && u[i].len() > 0 by {
        let j = choose|j: int| 0 <= j < tags.len() && u[i] == trim(tags[j]);
        crate::text::lemma_trim_idempotent(tags[j]);
    }
    lemma_unique_tags_fixed(u);
}

fn unique_tags_exec(tags: &Vec<String>) -> (r: Vec<String>)
    ensures
        texts(r@) == unique_tags(texts(tags@)),
{
    let mut out: Vec<String> = Vec::new();
    let mut i: usize = 0;
    while i < tags.len()
        invariant
            i <= tags@.len(),
            texts(out@) == unique_tags(texts(tags@.take(i as int))),
        decreases tags@.len() - i,
    {
        let t = trim_chars(str_chars(tags[i].as_str()).as_slice());
        let ghost prev = texts(out@);
        assert(texts(tags@.take(i as int + 1)).drop_last() =~= texts(tags@.take(i as int)));
        assert(texts(tags@.take(i as int + 1)).last() == tags@[i as int]@);
        let mut seen = false;
        let mut j: usize = 0;
        while j < out.len()
            invariant
                j <= out@.len(),
                prev == texts(out@),
                seen == exists|k: int| 0 <= k < j && prev[k] == t@,
            decreases out@.len() - j,
        {
            assert(prev[j as int] == out@[j as int]@);
            if chars_eq(str_chars(out[j].as_str()).as_slice(), t.as_slice()) {
                seen = true;
            }
            j = j + 1;
        }
        if t.len() > 0 && !seen {
            out.push(string_from_chars(t.as_slice()));
            assert(texts(out@) =~= prev.push(t@));
        }
        i = i + 1;
    }
    assert(tags@.take(tags@.len() as int) =~= tags@);
    out
}

impl MemoryFields {
    /// Checks and tidies a memory: its content trimmed and not blank; its
    /// kind trimmed, `fact` when blank, and one of the known kinds; its tags
    /// trimmed, without blanks or repeats.
    pub fn normalize(&self) -> (r: Result<MemoryFields, String>)
        ensures
            match r {
                Ok(m) => trim(self.content@).len() > 0
                    && kind_of(self.kind@) == Ok::<Seq<char>, Seq<char>>(m.kind@)
                    && m.content@ == trim(self.content@)
                    && texts(m.tags@) == unique_tags(texts(self.tags@))
                    && m.expires_at == self.expires_at,
                Err(e) => if trim(self.content@).len() == 0 {
                    e@ == "记忆内容不能为空"@
                } else {
                    kind_of(self.kind@) == Err::<Seq<char>, Seq<char>>(e@)
                },
            },
    {
        let content = trim_chars(str_chars(self.content.as_str()).as_slice());
        if content.len() == 0 {
            return Err("记忆内容不能为空".to_string());
        }
        let k = trim_chars(str_chars(self.kind.as_str()).as_slice());
        let kind = if k.len() == 0 {
            "fact".to_string()
        } else if chars_eq(k.as_slice(), str_chars("fact").as_slice())
            || chars_eq(k.as_slice(), str_chars("preference").as_slice())
            || chars_eq(k.as_slice(), str_chars("project").as_slice())
            || chars_eq(k.as_slice(), str_chars("event").as_slice())
            || chars_eq(k.as_slice(), str_chars("relationship").as_slice())
            || chars_eq(k.as_slice(), str_chars("core").as_slice()) {
            string_from_chars(k.as_slice())
        } else {
            let mut m = str_chars("记忆类型无效: ");
            push_all(&mut m, str_chars(self.kind.as_str()).as_slice());
            push_all(&mut m, str_chars(", 可选 fact / preference / project / event / relationship / core").as_slice());
            return Err(string_from_chars(m.as_slice()));
        };
        Ok(MemoryFields {
            content: string_from_chars(content.as_slice()),
            kind,
            tags: unique_tags_exec(&self.tags),
            expires_at: self.expires_at,
        })
    }
}

/// `str::split(',')`: the comma-separated fields of `s`.
pub open spec fn comma_fields(s: Seq<char>) -> Seq<Seq<char>> {
    fields(s, ',')
}

/// The fields kept as tags: trimmed, blank ones dropped.
pub open spec fn kept_fields(f: Seq<Seq<char>>) -> Seq<Seq<char>>
    decreases f.len(),
{
    if f.len() == 0 {
        Seq::empty()
    } else {
        let r = kept_fields(f.drop_last());
        if trim(f.last()).len() > 0 { r.push(trim(f.last())) } else { r }
    }
}

/// The tags stored for a memory as one comma-separated text (when any).
pub open spec fn tags_spec(raw: Option<Seq<char>>) -> Seq<Seq<char>> {
    match raw {
        Some(s) => kept_fields(comma_fields(s)),
        None => Seq::empty(),
    }
}

/// Reads the tags stored for a memory (comma-separated): each trimmed,
/// blank ones dropped.
pub fn parse_tags(raw: Option<String>) -> (r: Vec<String>)
    ensures
        texts(r@) == tags_spec(match raw { Some(s) => Some(s@), None => None }),
{
    let s = match raw {
        Some(s) => str_chars(s.as_str()),
        None => return Vec::new(),
    };
    let mut out: Vec<String> = Vec::new();
    let mut cur: Vec<char> = Vec::new();
    let mut i: usize = 0;
    assert(s@.take(0) =~= Seq::<char>::empty());
    while i < s.len()
        invariant
            i <= s@.len(),
            comma_fields(s@.take(i as int)).len() > 0,
            texts(out@) == kept_fields(comma_fields(s@.take(i as int)).drop_last()),
            cur@ == comma_fields(s@.take(i as int)).last(),
        decreases s@.len() - i,
    {
        let c = s[i];
        let ghost f = comma_fields(s@.take(i as int));
        assert(s@.take(i as int + 1).drop_last() =~= s@.take(i as int));
        assert(s@.take(i as int + 1).last() == c);
        if c == ',' {
            let t = trim_chars(cur.as_slice());
            proof {
                assert(fields(s@.take(i as int + 1), ',') == f.push(Seq::<char>::empty()));
                assert(f.push(Seq::<char>::empty()).drop_last() =~= f);
                assert(f =~= f.drop_last().push(f.last()));
            }
            if t.len() > 0 {
                out.push(string_from_chars(t.as_slice()));
            }
            cur = Vec::new();
        } else {
            cur.push(c);
            proof {
                let g = f.update(f.len() - 1, f.last().push(c));
                assert(g.drop_last() =~= f.drop_last());
            }
        }
        i = i + 1;
    }
    assert(s@.take(s@.len() as int) =~= s@);
    let t = trim_chars(cur.as_slice());
    proof {
        let f = comma_fields(s@);
        assert(f =~= f.drop_last().push(f.last()));
    }
    if t.len() > 0 {
        out.push(string_from_chars(t.as_slice()));
    }
    out
}

/// Search parameters for memories.
pub struct MemorySearchArgs {
    pub query: String,
    pub limit: Option<u32>,
}

/// `limit`, or `fallback` when none is given, kept within `lo..=hi`.
pub open spec fn clamped(limit: Option<u32>, fallback: u32, lo: u32, hi: u32) -> u32 {
    let v = match limit { Some(l) => l, None => fallback };
    if v < lo { lo } else if v > hi { hi } else { v }
}

/// How many memories a search returns: 20 by default, within 1 to 200.
pub fn search_limit(limit: Option<u32>) -> (r: u32)
    ensures
        r == clamped(limit, 20, 1, 200),
{
    let v = match limit { Some(l) => l, None => 20 };
    if v < 1 { 1 } else if v > 200 { 200 } else { v }
}

/// How many memories a listing returns: 200 by default, within 1 to 1000.
pub fn list_limit(limit: Option<u32>) -> (r: u32)
    ensures
        r == clamped(limit, 200, 1, 1000),
{
    let v = match limit { Some(l) => l, None => 200 };
    if v < 1 { 1 } else if v > 1000 { 1000 } else { v }
}

/// What `str::to_lowercase` gives for `s` (full Unicode lower-casing).
pub uninterp spec fn lowercase(s: Seq<char>) -> Seq<char>;

/// `str::to_lowercase`; the contract claims only that the result is a
/// function of the text, named `lowercase`.
#[verifier::external_body]
fn to_lowercase(s: &str) -> (r: String)
    ensures
        r@ == lowercase(s@),
{
    s.to_lowercase()
}

/// `p` stands somewhere in `s`.
pub open spec fn contains_text(s: Seq<char>, p: Seq<char>) -> bool {
    find_from(s, p, 0) is Some
}

/// A memory matches a search when the search is blank, or when its content
/// or one of its tags contains the search, all in lower case.
pub open spec fn keyword_hit_spec(query: Seq<char>, content: Seq<char>, tags: Seq<Seq<char>>) -> bool {
    trim(query).len() == 0
        || contains_text(lowercase(content), lowercase(query))
        || exists|i: int| 0 <= i < tags.len() && contains_text(lowercase(#[trigger] tags[i]), lowercase(query))
}

/// Whether a memory matches a search (the keyword part of its recall score).
pub fn keyword_hit(query: &str, content: &str, tags: &Vec<String>) -> (b: bool)
    ensures
        b == keyword_hit_spec(query@, content@, texts(tags@)),
{
    if trim_chars(str_chars(query).as_slice()).len() == 0 {
        return true;
    }
    let k = str_chars(to_lowercase(query).as_str());
    let c = str_chars(to_lowercase(content).as_str());
    if find_from_exec(c.as_slice(), k.as_slice(), 0).is_some() {
        return true;
    }
    let mut i: usize = 0;
    while i < tags.len()
        invariant
            i <= tags@.len(),
            k@ == lowercase(query@),
            forall|j: int| 0 <= j < i ==> !contains_text(lowercase(#[trigger] texts(tags@)[j]), lowercase(query@)),
        decreases tags@.len() - i,
    {
        let t = str_chars(to_lowercase(tags[i].as_str()).as_str());
        if find_from_exec(t.as_slice(), k.as_slice(), 0).is_some() {
            assert(texts(tags@)[i as int] == tags@[i as int]@);
            return true;
        }
        i = i + 1;
    }
    proof {
        assert forall|j: int| 0 <= j < texts(tags@).len() implies !contains_text(lowercase(#[trigger] texts(tags@)[j]), lowercase(query@)) by {}
    }
    false
}

/// How many summaries a listing returns: 100 by default, within 1 to 500.
pub fn summary_limit(limit: Option<u32>) -> (r: u32)
    ensures
        r == clamped(limit, 100, 1, 500),
{
    let v = match limit { Some(l) => l, None => 100 };
    if v < 1 { 1 } else if v > 500 { 500 } else { v }
}

/// A context summary: a stretch of the conversation condensed.
pub struct SummaryRecord {
    pub id: i64,
    pub start_context_id: i64,
    pub end_context_id: i64,
    pub level: i64,
    pub content: String,
    pub token_count: i64,
    pub status: String,
    pub created_at: i64,
}

/// A context summary to store.
pub struct SummaryInput {
    pub start_context_id: i64,
    pub end_context_id: i64,
    pub level: i64,
    pub content: String,
    pub token_count: i64,
}

} // verus!

verus! {

/// Each documented memory kind (`fact`, `preference`, `project`, `event`,
/// `relationship`, `core`), with or without surrounding whitespace, is
/// accepted and stored as that kind; a blank kind is stored as `fact`; any
/// other kind is refused.
pub proof fn lemma_memory_kinds(kind: Seq<char>)
    ensures
        (trim(kind) == "fact"@ || trim(kind) == "preference"@ || trim(kind) == "project"@
            || trim(kind) == "event"@ || trim(kind) == "relationship"@ || trim(kind) == "core"@)
            ==> kind_of(kind) == Ok::<Seq<char>, Seq<char>>(trim(kind)),
        trim(kind).len() == 0 ==> kind_of(kind) == Ok::<Seq<char>, Seq<char>>("fact"@),
        !(trim(kind).len() == 0 || trim(kind) == "fact"@ || trim(kind) == "preference"@ || trim(kind) == "project"@
            || trim(kind) == "event"@ || trim(kind) == "relationship"@ || trim(kind) == "core"@)
            ==> kind_of(kind) is Err,
{
    reveal_strlit("fact");
    reveal_strlit("preference");
    reveal_strlit("project");
    reveal_strlit("event");
    reveal_strlit("relationship");
    reveal_strlit("core");
}

} // verus!
