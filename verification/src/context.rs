//! The conversation sent to the model: persona system messages first, then as
//! much recent history as the token budget allows.
use vstd::prelude::*;

use crate::llm::LlmMessage;
use crate::providers::messages_view;
use crate::text::{chars_eq, str_chars, trim, trim_chars};

verus! {

/// Token budget of a model request's context.
pub const CONTEXT_TOKEN_BUDGET: u64 = 8000;

/// Rough token estimate: one token per four characters, at least one.
pub open spec fn token_estimate(text: Seq<char>) -> nat {
    let q = (text.len() + 3) / 4;
    if q == 0 { 1 } else { q }
}

/// Estimates the tokens of a text.
pub fn estimate_tokens(text: &str) -> (r: u64)
    ensures
        r == token_estimate(text@),
{
    let n = str_chars(text).len() as u64;
    let q = n / 4 + if n % 4 != 0 { 1 } else { 0 };
    if q == 0 { 1 } else { q }
}

/// A stored context record (newest first when read).
pub struct ContextRow {
    pub kind: String,
    pub role: Option<String>,
    pub content: String,
    pub token_count: i64,
}

pub open spec fn opt_view(o: Option<String>) -> Option<Seq<char>> {
    match o {
        Some(s) => Some(s@),
        None => None,
    }
}

/// A persona record with content.
pub open spec fn is_person(r: ContextRow) -> bool {
    r.kind@ == "person"@ && trim(r.content@).len() > 0
}

/// A conversation record (talk, touch or scheduled) with a role and content.
pub open spec fn is_talk(r: ContextRow) -> bool {
    (r.kind@ == "talk"@ || r.kind@ == "touch"@ || r.kind@ == "schedule"@)
        && (opt_view(r.role) matches Some(role) && trim(role).len() > 0)
        && trim(r.content@).len() > 0
}

/// A record's token cost: its stored count when positive, else the estimate.
pub open spec fn cost(r: ContextRow) -> nat {
    if r.token_count > 0 { r.token_count as nat } else { token_estimate(r.content@) }
}

/// The records that pass `is_person`, in order.
pub open spec fn persons(rows: Seq<ContextRow>) -> Seq<ContextRow>
    decreases rows.len(),
{
    if rows.len() == 0 {
        Seq::empty()
    } else if is_person(rows.last()) {
        persons(rows.drop_last()).push(rows.last())
    } else {
        persons(rows.drop_last())
    }
}

/// The records that pass `is_talk`, in order.
pub open spec fn talks(rows: Seq<ContextRow>) -> Seq<ContextRow>
    decreases rows.len(),
{
    if rows.len() == 0 {
        Seq::empty()
    } else if is_talk(rows.last()) {
        talks(rows.drop_last()).push(rows.last())
    } else {
        talks(rows.drop_last())
    }
}

/// Sum of the costs of records.
pub open spec fn cost_sum(rows: Seq<ContextRow>) -> nat
    decreases rows.len(),
{
    if rows.len() == 0 {
        0
    } else {
        cost_sum(rows.drop_last()) + cost(rows.last())
    }
}

/// How many of the newest talks fit: the newest always, then each further one
/// while the running cost stays within the budget.
pub open spec fn fitting(t: Seq<ContextRow>, i: int, used: nat, budget: nat) -> nat
    decreases t.len() - i,
{
    if i < 0 || i >= t.len() {
        0
    } else if i > 0 && used + cost(t[i]) > budget {
        0
    } else {
        1 + fitting(t, i + 1, used + cost(t[i]), budget)
    }
}

/// The message a talk record becomes.
pub open spec fn talk_message(r: ContextRow) -> (Seq<char>, Seq<char>) {
    (if opt_view(r.role) == Some("assistant"@) { "assistant"@ } else { "user"@ }, r.content@)
}

/// The context: persona system messages (newest first), then the fitting
/// talks from oldest to newest.
pub open spec fn context_messages(rows: Seq<ContextRow>, budget: nat) -> Seq<(Seq<char>, Seq<char>)> {
    let p = persons(rows);
    let t = talks(rows);
    let k = fitting(t, 0, 0, budget);
    p.map_values(|r: ContextRow| ("system"@, r.content@)) + t.take(k as int).reverse().map_values(|r: ContextRow| talk_message(r))
}

/// Token cost of the records used: the fitting talks and every persona.
pub open spec fn context_used(rows: Seq<ContextRow>, budget: nat) -> nat {
    cost_sum(talks(rows).take(fitting(talks(rows), 0, 0, budget) as int)) + cost_sum(persons(rows))
}

/// Token cost of all usable records: every talk and every persona.
pub open spec fn context_total(rows: Seq<ContextRow>) -> nat {
    cost_sum(talks(rows)) + cost_sum(persons(rows))
}

/// The messages, and the used and total token costs (whose ratio is the
/// context hit rate).
pub struct BuiltContext {
    pub messages: Vec<LlmMessage>,
    pub used: u64,
    pub total: u64,
}

fn row_cost(r: &ContextRow) -> (c: u64)
    requires
        cost(*r) <= u64::MAX,
    ensures
        c == cost(*r),
{
    if r.token_count > 0 { r.token_count as u64 } else { estimate_tokens(r.content.as_str()) }
}

fn row_is_person(r: &ContextRow) -> (b: bool)
    ensures
        b == is_person(*r),
{
    let k = str_chars(r.kind.as_str());
    let p = str_chars("person");
    chars_eq(k.as_slice(), p.as_slice()) && trim_chars(str_chars(r.content.as_str()).as_slice()).len() > 0
}

fn row_is_talk(r: &ContextRow) -> (b: bool)
    ensures
        b == is_talk(*r),
{
    let k = str_chars(r.kind.as_str());
    let kind_ok = chars_eq(k.as_slice(), str_chars("talk").as_slice())
        || chars_eq(k.as_slice(), str_chars("touch").as_slice())
        || chars_eq(k.as_slice(), str_chars("schedule").as_slice());
    let role_ok = match &r.role {
        Some(role) => trim_chars(str_chars(role.as_str()).as_slice()).len() > 0,
        None => false,
    };
    kind_ok && role_ok && trim_chars(str_chars(r.content.as_str()).as_slice()).len() > 0
}

pub proof fn lemma_cost_sum_take(t: Seq<ContextRow>, k: int)
    requires
        0 <= k <= t.len(),
    ensures
        cost_sum(t.take(k)) <= cost_sum(t),
    decreases t.len() - k,
{
    if k < t.len() {
        assert(t.take(t.len() - 1 as int) =~= t.drop_last());
        lemma_cost_sum_take(t.drop_last(), k);
        assert(t.drop_last().take(k) =~= t.take(k));
    } else {
        assert(t.take(k) =~= t);
    }
}

pub proof fn lemma_cost_sum_push(t: Seq<ContextRow>, i: int)
    requires
        0 <= i < t.len(),
    ensures
        cost_sum(t.take(i + 1)) == cost_sum(t.take(i)) + cost(t[i]),
{
    assert(t.take(i + 1).drop_last() =~= t.take(i));
}

pub proof fn lemma_fitting_bound(t: Seq<ContextRow>, i: int, used: nat, budget: nat)
    requires
        0 <= i <= t.len(),
    ensures
        i + fitting(t, i, used, budget) <= t.len(),
    decreases t.len() - i,
{
    if i < t.len() && !(i > 0 && used + cost(t[i]) > budget) {
        lemma_fitting_bound(t, i + 1, used + cost(t[i]), budget);
    }
}

proof fn lemma_cost_sum_first(s: Seq<ContextRow>)
    requires
        s.len() > 0,
    ensures
        cost_sum(s) == cost(s[0]) + cost_sum(s.drop_first()),
    decreases s.len(),
{
    if s.len() > 1 {
        lemma_cost_sum_first(s.drop_last());
        assert(s.drop_last().drop_first() =~= s.drop_first().drop_last());
        assert(s.drop_first().last() == s.last());
    } else {
        assert(s.drop_last() =~= Seq::<ContextRow>::empty());
        assert(s.drop_first() =~= Seq::<ContextRow>::empty());
    }
}

proof fn lemma_fitting_within(t: Seq<ContextRow>, i: int, used: nat, budget: nat)
    requires
        1 <= i <= t.len(),
    ensures
        fitting(t, i, used, budget) >= 1 ==> used + cost_sum(t.subrange(i, i + fitting(t, i, used, budget))) <= budget,
    decreases t.len() - i,
{
    if i < t.len() && used + cost(t[i]) <= budget {
        lemma_fitting_within(t, i + 1, used + cost(t[i]), budget);
        lemma_fitting_bound(t, i + 1, used + cost(t[i]), budget);
        let f2 = fitting(t, i + 1, used + cost(t[i]), budget);
        let seg = t.subrange(i, i + 1 + f2);
        lemma_cost_sum_first(seg);
        assert(seg.drop_first() =~= t.subrange(i + 1, i + 1 + f2));
        if f2 == 0 {
            assert(t.subrange(i + 1, i + 1) =~= Seq::<ContextRow>::empty());
        }
    }
}

/// The context respects its budget: it uses no more tokens than all usable
/// records hold; the newest talk is always kept; and once a second talk is
/// kept, the kept talks fit within the budget.
pub proof fn lemma_context_budget(rows: Seq<ContextRow>, budget: nat)
    ensures
        context_used(rows, budget) <= context_total(rows),
        talks(rows).len() > 0 ==> fitting(talks(rows), 0, 0, budget) >= 1,
        fitting(talks(rows), 0, 0, budget) >= 2
            ==> cost_sum(talks(rows).take(fitting(talks(rows), 0, 0, budget) as int)) <= budget,
{
    let t = talks(rows);
    lemma_fitting_bound(t, 0, 0, budget);
    let k = fitting(t, 0, 0, budget);
    lemma_cost_sum_take(t, k as int);
    if k >= 2 {
        let c0 = cost(t[0]);
        lemma_fitting_within(t, 1, c0, budget);
        let seg = t.take(k as int);
        lemma_cost_sum_first(seg);
        assert(seg.drop_first() =~= t.subrange(1, k as int));
        assert(seg[0] == t[0]);
    }
}

/// Builds the model's context from stored records (newest first): persona
/// system messages, then the talks that fit in `budget` tokens.
pub fn build_context(rows: &Vec<ContextRow>, budget: u64) -> (r: BuiltContext)
    requires
        context_total(rows@) <= u64::MAX,
    ensures
        messages_view(r.messages@) == context_messages(rows@, budget as nat),
        r.used == context_used(rows@, budget as nat),
        r.total == context_total(rows@),
{
    // Split the records.
    let mut ps: Vec<&ContextRow> = Vec::new();
    let mut ts: Vec<&ContextRow> = Vec::new();
    let mut i: usize = 0;
    while i < rows.len()
        invariant
            i <= rows@.len(),
            ps@.map_values(|r: &ContextRow| *r) == persons(rows@.take(i as int)),
            ts@.map_values(|r: &ContextRow| *r) == talks(rows@.take(i as int)),
        decreases rows@.len() - i,
    {
        let r = &rows[i];
        proof {
            assert(rows@.take(i + 1).drop_last() =~= rows@.take(i as int));
            assert(rows@.take(i + 1).last() == *r);
        }
        if row_is_person(r) {
            ps.push(r);
        }
        if row_is_talk(r) {
            ts.push(r);
        }
        proof {
            assert(ps@.map_values(|r: &ContextRow| *r) =~= persons(rows@.take(i + 1)));
            assert(ts@.map_values(|r: &ContextRow| *r) =~= talks(rows@.take(i + 1)));
        }
        i = i + 1;
    }
    assert(rows@.take(rows@.len() as int) =~= rows@);
    let ghost p = persons(rows@);
    let ghost t = talks(rows@);
    // Cost of all talks.
    let mut total: u64 = 0;
    let mut j: usize = 0;
    while j < ts.len()
        invariant
            j <= ts@.len(),
            ts@.map_values(|r: &ContextRow| *r) == t,
            cost_sum(t) + cost_sum(p) <= u64::MAX,
            total == cost_sum(t.take(j as int)),
        decreases ts@.len() - j,
    {
        proof {
            assert(t[j as int] == *ts@[j as int]);
            lemma_cost_sum_push(t, j as int);
            lemma_cost_sum_take(t, j + 1);
        }
        total = total + row_cost(ts[j]);
        j = j + 1;
    }
    assert(t.take(t.len() as int) =~= t);
    // Newest talks first, while they fit.
    let mut used: u64 = 0;
    let mut taken: usize = 0;
    let mut done = false;
    while taken < ts.len() && !done
        invariant
            taken <= ts@.len(),
            ts@.map_values(|r: &ContextRow| *r) == t,
            cost_sum(t) + cost_sum(p) <= u64::MAX,
            used == cost_sum(t.take(taken as int)),
            !done ==> fitting(t, 0, 0, budget as nat) == taken + fitting(t, taken as int, used as nat, budget as nat),
            done ==> fitting(t, 0, 0, budget as nat) == taken,
        decreases ts@.len() - taken + (if done { 0int } else { 1int }),
    {
        proof {
            assert(t[taken as int] == *ts@[taken as int]);
            lemma_cost_sum_push(t, taken as int);
            lemma_cost_sum_take(t, taken + 1);
        }
        let c = row_cost(ts[taken]);
        if taken > 0 && used + c > budget {
            done = true;
        } else {
            used = used + c;
            taken = taken + 1;
        }
    }
    proof {
        if !done {
            assert(fitting(t, taken as int, used as nat, budget as nat) == 0);
        }
        lemma_fitting_bound(t, 0, 0, budget as nat);
    }
    // Messages: personas, then the taken talks oldest first.
    let mut messages: Vec<LlmMessage> = Vec::new();
    let mut k: usize = 0;
    while k < ps.len()
        invariant
            k <= ps@.len(),
            ps@.map_values(|r: &ContextRow| *r) == p,
            messages_view(messages@) == p.take(k as int).map_values(|r: ContextRow| ("system"@, r.content@)),
        decreases ps@.len() - k,
    {
        proof {
            assert(p[k as int] == *ps@[k as int]);
        }
        let ghost prev = messages@;
        messages.push(LlmMessage { role: "system".to_string(), content: ps[k].content.clone() });
        proof {
            assert(messages_view(messages@) =~= messages_view(prev).push(("system"@, p[k as int].content@)));
            assert(p.take(k + 1).map_values(|r: ContextRow| ("system"@, r.content@))
                =~= p.take(k as int).map_values(|r: ContextRow| ("system"@, r.content@)).push(("system"@, p[k as int].content@)));
        }
        k = k + 1;
    }
    assert(p.take(p.len() as int) =~= p);
    let ghost base = messages_view(messages@);
    let asst = str_chars("assistant");
    let mut m = taken;
    while m > 0
        invariant
            m <= taken <= ts@.len(),
            ts@.map_values(|r: &ContextRow| *r) == t,
            asst@ == "assistant"@,
            messages_view(messages@) == base + t.take(taken as int).skip(m as int).reverse().map_values(|r: ContextRow| talk_message(r)),
        decreases m,
    {
        let r = ts[m - 1];
        proof {
            assert(t[m - 1] == *r);
        }
        let role = match &r.role {
            Some(x) => if chars_eq(str_chars(x.as_str()).as_slice(), asst.as_slice()) { "assistant".to_string() } else { "user".to_string() },
            None => "user".to_string(),
        };
        let ghost prev = messages@;
        messages.push(LlmMessage { role, content: r.content.clone() });
        proof {
            let s_old = t.take(taken as int).skip(m as int);
            let s_new = t.take(taken as int).skip(m - 1);
            assert(s_new =~= seq![t[m - 1]] + s_old);
            assert(s_new.reverse() =~= s_old.reverse().push(t[m - 1]));
            assert(messages_view(messages@) =~= messages_view(prev).push(talk_message(t[m - 1])));
            assert(s_new.reverse().map_values(|r: ContextRow| talk_message(r))
                =~= s_old.reverse().map_values(|r: ContextRow| talk_message(r)).push(talk_message(t[m - 1])));
        }
        m = m - 1;
    }
    assert(t.take(taken as int).skip(0) =~= t.take(taken as int));
    // Persona costs count as used and as total.
    let mut pc: u64 = 0;
    let mut q: usize = 0;
    while q < ps.len()
        invariant
            q <= ps@.len(),
            ps@.map_values(|r: &ContextRow| *r) == p,
            cost_sum(t) + cost_sum(p) <= u64::MAX,
            pc == cost_sum(p.take(q as int)),
        decreases ps@.len() - q,
    {
        proof {
            assert(p[q as int] == *ps@[q as int]);
            lemma_cost_sum_push(p, q as int);
            lemma_cost_sum_take(p, q + 1);
        }
        pc = pc + row_cost(ps[q]);
        q = q + 1;
    }
    assert(p.take(p.len() as int) =~= p);
    proof {
        lemma_cost_sum_take(t, taken as int);
    }
    BuiltContext { messages, used: used + pc, total: total + pc }
}

} // verus!

verus! {

/// A context entry to record.
pub struct ContextInsertArgs {
    /// `talk`, `tts`, ...
    pub kind: String,
    /// `user`, `assistant`, ...
    pub role: Option<String>,
    pub content: String,
    pub token_count: Option<u64>,
}

/// A page of the context list.
pub struct ContextListArgs {
    /// Entries per page (100 by default).
    pub limit: Option<u32>,
    pub offset: Option<u32>,
}

/// A recorded context entry.
pub struct ContextRecord {
    pub id: u64,
    pub kind: String,
    pub role: Option<String>,
    pub content: String,
    pub token_count: u64,
    pub created_at: i64,
}

/// The page asked for: at most 1000 entries (100 by default), from the
/// offset given (0 by default).
pub fn context_page(args: &ContextListArgs) -> (r: (u32, u32))
    ensures
        r.0 == (match args.limit { Some(l) => if l < 1000 { l } else { 1000 }, None => 100 }),
        r.1 == (match args.offset { Some(o) => o, None => 0 }),
{
    let limit = match args.limit {
        Some(l) => if l < 1000 { l } else { 1000 },
        None => 100,
    };
    let offset = match args.offset {
        Some(o) => o,
        None => 0,
    };
    (limit, offset)
}

/// The token count recorded for an entry (0 when not given).
pub fn recorded_tokens(args: &ContextInsertArgs) -> (r: u64)
    ensures
        r == (match args.token_count { Some(t) => t, None => 0 }),
{
    match args.token_count {
        Some(t) => t,
        None => 0,
    }
}

} // verus!

verus! {

/// Talks kept in order: with no conversation record among the rows there are
/// no talks.
proof fn lemma_no_talks(rows: Seq<ContextRow>)
    requires
        forall|j: int| 0 <= j < rows.len() ==> !is_talk(#[trigger] rows[j]),
    ensures
        talks(rows).len() == 0,
    decreases rows.len(),
{
    if rows.len() > 0 {
        let p = rows.drop_last();
        assert forall|j: int| 0 <= j < p.len() implies !is_talk(#[trigger] p[j]) by {
            assert(p[j] == rows[j]);
        }
        lemma_no_talks(p);
        assert(!is_talk(rows[rows.len() - 1]));
    }
}

/// The talks of the rows, taken in order, start with the first conversation
/// record, and every conversation record adds its cost to theirs.
proof fn lemma_talk_counted(rows: Seq<ContextRow>, i: int)
    requires
        0 <= i < rows.len(),
        is_talk(rows[i]),
    ensures
        cost_sum(talks(rows)) >= cost(rows[i]),
        (forall|j: int| 0 <= j < i ==> !is_talk(#[trigger] rows[j])) ==> talks(rows).len() > 0 && talks(rows)[0] == rows[i],
    decreases rows.len(),
{
    let p = rows.drop_last();
    let n = rows.len() - 1;
    if i == n {
        assert(talks(rows) == talks(p).push(rows[i]));
        if forall|j: int| 0 <= j < i ==> !is_talk(#[trigger] rows[j]) {
            assert forall|j: int| 0 <= j < p.len() implies !is_talk(#[trigger] p[j]) by {
                assert(p[j] == rows[j]);
            }
            lemma_no_talks(p);
        }
    } else {
        assert(p[i] == rows[i]);
        lemma_talk_counted(p, i);
        if forall|j: int| 0 <= j < i ==> !is_talk(#[trigger] rows[j]) {
            assert forall|j: int| 0 <= j < i implies !is_talk(#[trigger] p[j]) by {
                assert(p[j] == rows[j]);
            }
        }
        if is_talk(rows[n]) {
            assert(talks(rows) == talks(p).push(rows[n]));
            assert(talks(rows).drop_last() =~= talks(p));
        } else {
            assert(talks(rows) == talks(p));
        }
    }
}

/// Every conversation record (kind `talk`, `touch` or `schedule`, with a
/// role and content that are not blank) counts in the context's total cost,
/// beside every persona record.
pub proof fn lemma_conversation_record_counted(rows: Seq<ContextRow>, i: int)
    requires
        0 <= i < rows.len(),
        rows[i].kind@ == "talk"@ || rows[i].kind@ == "touch"@ || rows[i].kind@ == "schedule"@,
        rows[i].role matches Some(role) && trim(role@).len() > 0,
        trim(rows[i].content@).len() > 0,
    ensures
        context_total(rows) >= cost(rows[i]) + cost_sum(persons(rows)),
{
    lemma_talk_counted(rows, i);
}

/// The newest conversation record (kind `talk`, `touch` or `schedule`, with
/// a role and content that are not blank; rows come newest first) is always
/// the last message of the context: from the assistant when its role is
/// `assistant`, else from the user, with its content.
pub proof fn lemma_newest_record_last(rows: Seq<ContextRow>, i: int, budget: nat)
    requires
        0 <= i < rows.len(),
        rows[i].kind@ == "talk"@ || rows[i].kind@ == "touch"@ || rows[i].kind@ == "schedule"@,
        rows[i].role matches Some(role) && trim(role@).len() > 0,
        trim(rows[i].content@).len() > 0,
        forall|j: int| 0 <= j < i ==> !((rows[j].kind@ == "talk"@ || rows[j].kind@ == "touch"@ || rows[j].kind@ == "schedule"@)
            && (#[trigger] rows[j].role matches Some(role) && trim(role@).len() > 0)
            && trim(rows[j].content@).len() > 0),
    ensures
        context_messages(rows, budget).len() > 0,
        context_messages(rows, budget).last() == (
            if opt_view(rows[i].role) == Some("assistant"@) { "assistant"@ } else { "user"@ },
            rows[i].content@,
        ),
{
    assert forall|j: int| 0 <= j < i implies !is_talk(#[trigger] rows[j]) by {
        assert(!((rows[j].kind@ == "talk"@ || rows[j].kind@ == "touch"@ || rows[j].kind@ == "schedule"@)
            && (rows[j].role matches Some(role) && trim(role@).len() > 0)
            && trim(rows[j].content@).len() > 0));
    }
    lemma_talk_counted(rows, i);
    let t = talks(rows);
    lemma_context_budget(rows, budget);
    lemma_fitting_bound(t, 0, 0, budget);
    let k = fitting(t, 0, 0, budget);
    let kept = t.take(k as int).reverse();
    assert(kept.last() == t[0]);
    let msgs = context_messages(rows, budget);
    let ps = persons(rows).map_values(|r: ContextRow| ("system"@, r.content@));
    let ts = kept.map_values(|r: ContextRow| talk_message(r));
    assert(msgs == ps + ts);
    assert(msgs.last() == ts.last());
    assert(ts.last() == talk_message(t[0]));
}

} // verus!
