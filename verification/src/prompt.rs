//! The agent's tool protocol: the system prompt that tells the model how to
//! call tools, listing the core and important tools and the tool categories.
use vstd::prelude::*;

use crate::agent::AGENT_PROTOCOL_MARKER;
use crate::api::{insert_sorted, strictly_sorted};
use crate::resource::strings_view;
use crate::text::{
    chars_eq, find_char_from, find_from, has_prefix, join, lemma_find_from_bounds, push_all, slice_range,
    str_chars, string_from_chars, trim, trim_chars,
};

verus! {

/// A registered tool as the prompt describes it.
pub struct ToolLine {
    /// The call name.
    pub name: String,
    /// The title, whose part before the first `-` is the tool's category.
    pub label: String,
    pub description: String,
}

/// The discovery tools, always listed.
pub open spec fn core_tools() -> Seq<Seq<char>> {
    seq!["tool-search"@, "tool-list-all"@]
}

/// The tools always listed besides: time awareness, long-term memory, updates.
pub open spec fn important_tools() -> Seq<Seq<char>> {
    seq!["time-now"@, "time-today"@, "time-zone"@, "memory-add"@, "memory-search"@, "memory-list"@,
        "memory-update"@, "memory-delete"@, "app-check-update"@, "app-update-apply"@]
}

/// The line describing the first registered tool called `name`, if any:
/// `- <name> (<label>): <description>`.
pub open spec fn tool_line(tools: Seq<ToolLine>, name: Seq<char>) -> Option<Seq<char>>
    decreases tools.len(),
{
    if tools.len() == 0 {
        None
    } else if tools[0].name@ == name {
        Some("- "@ + tools[0].name@ + " ("@ + tools[0].label@ + "): "@ + tools[0].description@)
    } else {
        tool_line(tools.drop_first(), name)
    }
}

/// The lines of the named tools that are registered, in the order named.
pub open spec fn tool_lines(tools: Seq<ToolLine>, names: Seq<Seq<char>>) -> Seq<Seq<char>>
    decreases names.len(),
{
    if names.len() == 0 {
        Seq::empty()
    } else {
        let r = tool_lines(tools, names.drop_last());
        match tool_line(tools, names.last()) {
            Some(l) => r.push(l),
            None => r,
        }
    }
}

/// The text before the first `-` (all of it when there is none).
pub open spec fn before_dash(s: Seq<char>) -> Seq<char> {
    match find_from(s, seq!['-'], 0) {
        Some(i) => s.take(i),
        None => s,
    }
}

/// Whether `c` is a tool category: the trimmed part of some tool's title
/// before its first `-`, when not empty.
pub open spec fn is_category(tools: Seq<ToolLine>, c: Seq<char>) -> bool {
    c.len() > 0 && exists|i: int| 0 <= i < tools.len() && c == trim(before_dash(#[trigger] tools[i].label@))
}

/// The prompt around its three variable parts.
pub open spec fn prompt_text(core: Seq<char>, important: Seq<char>, categories: Seq<char>) -> Seq<char> {
    "[DeepEr Agent 工具协议]"@
    + "\n你是 DeepEr 的 AI 助手, 可以通过调用本地「工具注册机」里的工具来完成任务。\n\n调用语法 (每次调用独占一行):\n<tool_call name=\"工具名\" args='{\"参数名\": \"参数值\"}'></tool_call>\n\n工具命名: 每个工具都有英文调用名(name)与中文标题(label), 调用时使用英文调用名。\n\n核心工具 (始终可用):\n"@
    + core
    + "\n\n重要工具 (始终可用):\n"@
    + important
    + "\n\n工具类别 (搜索工具时先用「类别 + 功能词」组合查询, 例如 定时/记忆/时间/计算 或 MCP 服务器名, 搜不到就换关键词):\n"@
    + categories
    + "\n\n"@
    + "外部工具 (MCP): 接入的 MCP 服务器工具也会出现在工具库中, 调用名格式为「服务器名-工具名」, 不确定时先用 tool-search 搜索。"@
    + "\n\n长期记忆规则:\n- 用户的重要信息 (姓名、生日、偏好、约定、重要事件、美好回忆等) 应该用 memory-add 保存为长期记忆, 不要只停留在对话里。\n- 回答涉及用户个人情况时, 先用 memory-search 回忆相关记忆; 不确定就先搜索。\n- 如果用户提到了记忆里没有的重要信息, 主动用 memory-add 补充保存。\n\n更新规则:\n- 用户询问版本 / 更新 / 新功能时, 用 app-check-update 检查是否有新版本, 如实汇报。\n- 发现新版本时可以主动提醒用户更新, 但执行 app-update-apply 前必须先取得用户明确同意 (该操作会重启应用)。\n\n使用其他工具 (计算 / JSON / 文本 / 定时等) 的流程:\n1. 先用 <tool_call name=\"tool-search\" args='{\"query\": \"关键词\"}'></tool_call> 搜索所需能力。\n2. 按搜索结果发出对该工具的 <tool_call> 调用。\n3. 系统把执行结果放在 <tool_result name=\"工具名\" ok=\"true|false\">…</tool_result> 返回, 依据结果继续, 直到可以回答用户。\n\n规则 (必须严格遵守):\n- 用户要求执行任何操作 (查询 / 创建 / 修改 / 删除 / 搜索、查看时间、计算、解析数据、设置定时任务、保存记忆等) 时, 必须**先调用工具**拿到真实结果, 再回答。\n- 禁止凭空编造工具执行结果或声称完成了操作; 工具调用失败时如实告知用户失败原因。\n- 最终回答必须以 <tool_result> 实际返回内容为准; 任何 ok=\"false\" 的工具结果都意味着操作失败, 绝不能声称它成功。\n- 不确定用什么工具或参数时, 先 tool-search 搜索, 不要猜。\n- 完成用户请求后, 用自然语言给出最终回答, 不要再包含任何 <tool_call> 标记。"@
}

fn tool_line_exec(tools: &Vec<ToolLine>, name: &str) -> (r: Option<String>)
    ensures
        match r {
            Some(l) => tool_line(tools@, name@) == Some(l@),
            None => tool_line(tools@, name@) is None,
        },
{
    let n = str_chars(name);
    let mut i: usize = 0;
    assert(tools@.skip(0) =~= tools@);
    while i < tools.len()
        invariant
            i <= tools@.len(),
            n@ == name@,
            tool_line(tools@, name@) == tool_line(tools@.skip(i as int), name@),
        decreases tools@.len() - i,
    {
        let t = &tools[i];
        assert(tools@.skip(i as int)[0] == *t);
        assert(tools@.skip(i as int).drop_first() =~= tools@.skip(i as int + 1));
        if chars_eq(str_chars(t.name.as_str()).as_slice(), n.as_slice()) {
            let mut v = str_chars("- ");
            push_all(&mut v, str_chars(t.name.as_str()).as_slice());
            push_all(&mut v, str_chars(" (").as_slice());
            push_all(&mut v, str_chars(t.label.as_str()).as_slice());
            push_all(&mut v, str_chars("): ").as_slice());
            push_all(&mut v, str_chars(t.description.as_str()).as_slice());
            return Some(string_from_chars(v.as_slice()));
        }
        i = i + 1;
    }
    assert(tools@.skip(i as int) =~= Seq::<ToolLine>::empty());
    None
}

/// `parts` joined by `sep`.
fn join_exec(parts: &Vec<String>, sep: &str) -> (r: String)
    ensures
        r@ == join(strings_view(parts@), sep@),
{
    let mut out: Vec<char> = Vec::new();
    let mut i: usize = 0;
    while i < parts.len()
        invariant
            i <= parts@.len(),
            out@ == join(strings_view(parts@.take(i as int)), sep@),
        decreases parts@.len() - i,
    {
        let ghost prev = strings_view(parts@.take(i as int));
        let ghost next = strings_view(parts@.take(i as int + 1));
        assert(next =~= prev.push(parts@[i as int]@));
        assert(next.drop_last() =~= prev);
        if i > 0 {
            push_all(&mut out, str_chars(sep).as_slice());
        }
        push_all(&mut out, str_chars(parts[i].as_str()).as_slice());
        proof {
            if i == 0 {
                assert(out@ =~= next[0]);
            } else {
                assert(out@ =~= join(prev, sep@) + sep@ + next.last());
            }
        }
        i = i + 1;
    }
    assert(parts@.take(parts@.len() as int) =~= parts@);
    string_from_chars(out.as_slice())
}

fn lines_exec(tools: &Vec<ToolLine>, names: &Vec<&str>) -> (r: String)
    ensures
        r@ == join(tool_lines(tools@, names@.map_values(|s: &str| s@)), "\n"@),
{
    let ghost nv = names@.map_values(|s: &str| s@);
    let mut lines: Vec<String> = Vec::new();
    let mut i: usize = 0;
    while i < names.len()
        invariant
            i <= names@.len(),
            nv == names@.map_values(|s: &str| s@),
            strings_view(lines@) == tool_lines(tools@, nv.take(i as int)),
        decreases names@.len() - i,
    {
        assert(nv.take(i as int + 1).drop_last() =~= nv.take(i as int));
        assert(nv.take(i as int + 1).last() == names@[i as int]@);
        let ghost prev = strings_view(lines@);
        if let Some(l) = tool_line_exec(tools, names[i]) {
            lines.push(l);
            assert(strings_view(lines@) =~= prev.push(lines@.last()@));
        }
        i = i + 1;
    }
    assert(nv.take(nv.len() as int) =~= nv);
    proof {
        reveal_strlit("\n");
    }
    join_exec(&lines, "\n")
}

fn before_dash_exec(s: &str) -> (r: Vec<char>)
    ensures
        r@ == before_dash(s@),
{
    let v = str_chars(s);
    proof {
        lemma_find_from_bounds(v@, seq!['-'], 0);
    }
    match find_char_from(v.as_slice(), '-', 0) {
        Some(i) => {
            let r = slice_range(v.as_slice(), 0, i);
            assert(r@ =~= v@.take(i as int));
            r
        },
        None => v,
    }
}

/// The tool protocol prompt for the registered tools: the core and the
/// important tools that are registered (one line each), and the tool
/// categories, sorted and without repeats.
pub fn build_system_prompt(tools: &Vec<ToolLine>) -> (r: String)
    ensures
        exists|cats: Seq<Seq<char>>| {
            &&& strictly_sorted(cats)
            &&& (forall|c: Seq<char>| cats.contains(c) <==> is_category(tools@, c))
            &&& r@ == prompt_text(
                join(tool_lines(tools@, core_tools()), "\n"@),
                join(tool_lines(tools@, important_tools()), "\n"@),
                join(cats, " / "@),
            )
        },
{
    let core_names: Vec<&str> = vec!["tool-search", "tool-list-all"];
    let important_names: Vec<&str> = vec![
        "time-now", "time-today", "time-zone", "memory-add", "memory-search", "memory-list",
        "memory-update", "memory-delete", "app-check-update", "app-update-apply",
    ];
    assert(core_names@.map_values(|s: &str| s@) =~= core_tools());
    assert(important_names@.map_values(|s: &str| s@) =~= important_tools());
    let core = lines_exec(tools, &core_names);
    let important = lines_exec(tools, &important_names);

    let mut cats: Vec<String> = Vec::new();
    let mut i: usize = 0;
    while i < tools.len()
        invariant
            i <= tools@.len(),
            strictly_sorted(strings_view(cats@)),
            forall|c: Seq<char>| strings_view(cats@).contains(c) <==> (c.len() > 0
                && exists|j: int| 0 <= j < i && c == trim(before_dash(#[trigger] tools@[j].label@))),
        decreases tools@.len() - i,
    {
        let c = trim_chars(before_dash_exec(tools[i].label.as_str()).as_slice());
        let ghost before = strings_view(cats@);
        if c.len() > 0 {
            insert_sorted(&mut cats, string_from_chars(c.as_slice()));
        }
        proof {
            assert forall|x: Seq<char>| strings_view(cats@).contains(x) <==> (x.len() > 0
                && exists|j: int| 0 <= j < i + 1 && x == trim(before_dash(#[trigger] tools@[j].label@))) by {
                if x.len() > 0 && x == c@ {
                    assert(x == trim(before_dash(tools@[i as int].label@)));
                }
                if x.len() > 0 && (exists|j: int| 0 <= j < i + 1 && x == trim(before_dash(#[trigger] tools@[j].label@))) {
                    let j = choose|j: int| 0 <= j < i + 1 && x == trim(before_dash(#[trigger] tools@[j].label@));
                    if j < i {
                        assert(before.contains(x));
                    }
                }
            }
        }
        i = i + 1;
    }
    let cat_line = join_exec(&cats, " / ");
    let mut v = str_chars(AGENT_PROTOCOL_MARKER);
    push_all(&mut v, str_chars("\n你是 DeepEr 的 AI 助手, 可以通过调用本地「工具注册机」里的工具来完成任务。\n\n调用语法 (每次调用独占一行):\n<tool_call name=\"工具名\" args='{\"参数名\": \"参数值\"}'></tool_call>\n\n工具命名: 每个工具都有英文调用名(name)与中文标题(label), 调用时使用英文调用名。\n\n核心工具 (始终可用):\n").as_slice());
    push_all(&mut v, str_chars(core.as_str()).as_slice());
    push_all(&mut v, str_chars("\n\n重要工具 (始终可用):\n").as_slice());
    push_all(&mut v, str_chars(important.as_str()).as_slice());
    push_all(&mut v, str_chars("\n\n工具类别 (搜索工具时先用「类别 + 功能词」组合查询, 例如 定时/记忆/时间/计算 或 MCP 服务器名, 搜不到就换关键词):\n").as_slice());
    push_all(&mut v, str_chars(cat_line.as_str()).as_slice());
    push_all(&mut v, str_chars("\n\n").as_slice());
    push_all(&mut v, str_chars("外部工具 (MCP): 接入的 MCP 服务器工具也会出现在工具库中, 调用名格式为「服务器名-工具名」, 不确定时先用 tool-search 搜索。").as_slice());
    push_all(&mut v, str_chars("\n\n长期记忆规则:\n- 用户的重要信息 (姓名、生日、偏好、约定、重要事件、美好回忆等) 应该用 memory-add 保存为长期记忆, 不要只停留在对话里。\n- 回答涉及用户个人情况时, 先用 memory-search 回忆相关记忆; 不确定就先搜索。\n- 如果用户提到了记忆里没有的重要信息, 主动用 memory-add 补充保存。\n\n更新规则:\n- 用户询问版本 / 更新 / 新功能时, 用 app-check-update 检查是否有新版本, 如实汇报。\n- 发现新版本时可以主动提醒用户更新, 但执行 app-update-apply 前必须先取得用户明确同意 (该操作会重启应用)。\n\n使用其他工具 (计算 / JSON / 文本 / 定时等) 的流程:\n1. 先用 <tool_call name=\"tool-search\" args='{\"query\": \"关键词\"}'></tool_call> 搜索所需能力。\n2. 按搜索结果发出对该工具的 <tool_call> 调用。\n3. 系统把执行结果放在 <tool_result name=\"工具名\" ok=\"true|false\">…</tool_result> 返回, 依据结果继续, 直到可以回答用户。\n\n规则 (必须严格遵守):\n- 用户要求执行任何操作 (查询 / 创建 / 修改 / 删除 / 搜索、查看时间、计算、解析数据、设置定时任务、保存记忆等) 时, 必须**先调用工具**拿到真实结果, 再回答。\n- 禁止凭空编造工具执行结果或声称完成了操作; 工具调用失败时如实告知用户失败原因。\n- 最终回答必须以 <tool_result> 实际返回内容为准; 任何 ok=\"false\" 的工具结果都意味着操作失败, 绝不能声称它成功。\n- 不确定用什么工具或参数时, 先 tool-search 搜索, 不要猜。\n- 完成用户请求后, 用自然语言给出最终回答, 不要再包含任何 <tool_call> 标记。").as_slice());
    proof {
        let cv = strings_view(cats@);
        assert(v@ =~= prompt_text(core@, important@, cat_line@));
        assert forall|c: Seq<char>| cv.contains(c) <==> is_category(tools@, c) by {}
    }
    string_from_chars(v.as_slice())
}

/// The prompt starts with the protocol marker, so injecting it into a
/// conversation is idempotent.
pub proof fn lemma_prompt_marked(core: Seq<char>, important: Seq<char>, categories: Seq<char>)
    ensures
        has_prefix(prompt_text(core, important, categories), "[DeepEr Agent 工具协议]"@),
{
    let p = prompt_text(core, important, categories);
    let m = "[DeepEr Agent 工具协议]"@;
    assert(p.take(m.len() as int) =~= m);
}

} // verus!
