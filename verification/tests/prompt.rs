use deeper::prompt::{build_system_prompt, ToolLine};

fn tool(name: &str, label: &str, description: &str) -> ToolLine {
    ToolLine { name: name.to_string(), label: label.to_string(), description: description.to_string() }
}

#[test]
fn prompt_lists_tools_and_categories() {
    let tools = vec![
        tool("time-now", "时间-当前时间", "返回当前时间"),
        tool("tool-search", "工具-搜索", "搜索工具"),
        tool("calc", "计算 - 表达式", "计算表达式"),
        tool("time-zone", "时间-时区", "返回时区"),
        tool("plain", "", "no label"),
    ];
    let p = build_system_prompt(&tools);
    assert!(p.starts_with("[DeepEr Agent 工具协议]\n"));
    assert!(p.contains("核心工具 (始终可用):\n- tool-search (工具-搜索): 搜索工具\n\n重要工具"));
    assert!(p.contains("重要工具 (始终可用):\n- time-now (时间-当前时间): 返回当前时间\n- time-zone (时间-时区): 返回时区\n\n"));
    assert!(p.contains("换关键词):\n工具 / 时间 / 计算\n\n"));
}

#[test]
fn prompt_without_tools() {
    let p = build_system_prompt(&vec![]);
    assert!(p.contains("核心工具 (始终可用):\n\n\n重要工具 (始终可用):\n\n\n"));
}
