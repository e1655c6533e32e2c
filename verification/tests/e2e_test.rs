// A conversation from request to answer, without outside services.
use voice_assistant::agent::orchestrator::{
    conversation_answer, memory_context, parse_extracted, request_step, tool_model_answer,
    ConversationCore, ModelReply, RequestStep,
};
use voice_assistant::agent::persona::AgentPersona;
use voice_assistant::agent::tools::{ToolRegistry, ToolResult, ToolStep};
use voice_assistant::config::AgentConfig;

#[test]
fn test_all_tools_plan() {
    let tools = ToolRegistry::new();
    let cases = [
        "现在几点了",
        "计算 1 + 1",
        "截图",
        "剪贴板",
        "导出对话",
        "快捷短语",
        "五星好评",
        "搜索天气",
        "翻译成英语你好",
        "分析情感我很开心",
        "运行代码 print(1)",
        "通知测试",
        "记住测试记忆",
        "5分钟后提醒我",
        "查看提醒",
    ];
    for input in cases {
        assert!(ToolRegistry::plan_is_defined(input, true), "{}", input);
        let step = tools.plan(input, true);
        assert!(step.is_some(), "a tool should answer: {}", input);
        if let Some(ToolStep::Reply(r)) = step {
            assert!(r.should_respond, "the tool should answer: {}", input);
        }
    }
    assert!(tools.plan("你好呀", true).is_none());
}

#[test]
fn test_tool_answer_goes_straight_back() {
    let persona = AgentPersona::from_config(&AgentConfig::default());
    let tools = ToolRegistry::new();
    let step = match tools.plan("快捷短语", false) {
        Some(ToolStep::Reply(r)) => r,
        other => panic!("unexpected {:?}", other),
    };
    let expected = step.output.clone();
    match request_step("快捷短语", Some(step)) {
        RequestStep::Answer(a) => assert_eq!(a, expected),
        other => panic!("unexpected {:?}", other),
    }
    match request_step("你好", None) {
        RequestStep::Converse => {}
        other => panic!("unexpected {:?}", other),
    }
    let reply = conversation_answer(&persona, &ModelReply::Replied("你好！".to_string()));
    assert_eq!(reply, "你好！");
}

#[test]
fn test_translation_asks_the_model() {
    let step = match ToolRegistry::new().plan("翻译成英语 你好", false) {
        Some(ToolStep::Reply(r)) => r,
        other => panic!("unexpected {:?}", other),
    };
    let prompt = step.llm_prompt.clone().unwrap();
    match request_step("翻译成英语 你好", Some(step)) {
        RequestStep::AskModel(p) => assert_eq!(p, prompt),
        other => panic!("unexpected {:?}", other),
    }
    assert_eq!(tool_model_answer(&ModelReply::Unavailable), "LLM 不可用");
    assert_eq!(tool_model_answer(&ModelReply::Failed("timeout".to_string())), "LLM 错误: timeout");
    assert_eq!(tool_model_answer(&ModelReply::Replied("Hello".to_string())), "Hello");
}

#[test]
fn test_turns_and_memory_extraction() {
    let mut core = ConversationCore::new(2, 3);
    assert!(core.needs_wake_word());
    let mut due = Vec::new();
    for n in 1..=6 {
        let user = format!("问题{}", n);
        let answer = format!("回答{}", n);
        due.push(core.record_turn(&user, &answer));
    }
    assert_eq!(due, vec![false, false, true, false, false, true]);
    assert_eq!(core.turn_count(), 6);
    // Two turns are kept: four messages, the latest last.
    let h = core.history();
    assert_eq!(h.len(), 4);
    assert_eq!(h[3].role, "assistant");
    assert_eq!(h[3].content, "回答6");
    assert_eq!(h[2].content, "问题6");
    assert_eq!(h[0].content, "问题5");
    let recent = core.recent_conversation().unwrap();
    assert_eq!(recent, "assistant: 回答6\nuser: 问题6\nassistant: 回答5\nuser: 问题5");
    core.end_listening(false);
    assert!(!core.needs_wake_word());
    core.end_listening(true);
    assert!(core.needs_wake_word());
}

#[test]
fn test_memory_context_sections() {
    let rag = vec![("咖啡知识".to_string(), 6u128)];
    let memories = vec![("用户喜欢冰美式咖啡".to_string(), "preference".to_string())];
    let conversations = vec![
        ("user".to_string(), "我喜欢咖啡".to_string()),
        ("assistant".to_string(), "记住了".to_string()),
    ];
    let c = memory_context(&rag, &memories, &conversations);
    assert_eq!(
        c,
        "相关知识：\n- [相关度:6.0] 咖啡知识\n\n相关记忆：\n- [preference] 用户喜欢冰美式咖啡\n\n最近对话：\n用户: 我喜欢咖啡\n助手: 记住了\n"
    );
    assert_eq!(memory_context(&vec![], &vec![], &vec![]), "");
}

#[test]
fn test_extracted_memories() {
    let notes = parse_extracted("preference: 喜欢冰美式\n\n 住在北京 \nhabit:   \nfact:程序员");
    let got: Vec<(String, String, String, u32)> = notes
        .into_iter()
        .map(|n| (n.content, n.category, n.source, n.importance_tenths))
        .collect();
    assert_eq!(
        got,
        vec![
            ("喜欢冰美式".to_string(), "preference".to_string(), "llm_extract".to_string(), 6),
            ("住在北京".to_string(), "fact".to_string(), "llm_extract".to_string(), 5),
            ("程序员".to_string(), "fact".to_string(), "llm_extract".to_string(), 6),
        ]
    );
    assert!(parse_extracted("无").is_empty());
    assert!(parse_extracted("  ab ").is_empty());
    assert!(parse_extracted("").is_empty());
}

#[test]
fn test_plain_tool_result_kinds() {
    let r = ToolResult::simple("好");
    assert!(r.should_respond && !r.needs_llm && r.llm_prompt.is_none());
    let r = ToolResult::llm("翻译中...", "Translate: 你好");
    assert!(r.should_respond && r.needs_llm);
    assert_eq!(r.llm_prompt.as_deref(), Some("Translate: 你好"));
    let r = ToolResult::none();
    assert!(!r.should_respond && r.output.is_empty());
    match request_step("x", Some(ToolResult::none())) {
        RequestStep::Converse => {}
        other => panic!("unexpected {:?}", other),
    }
}

#[test]
fn test_tool_priority() {
    let tools = ToolRegistry::new();

    // "运行代码" runs code, not a system command.
    assert!(ToolRegistry::plan_is_defined("运行代码 print(123)", false));
    match tools.plan("运行代码 print(123)", false) {
        Some(ToolStep::RunCode(code)) => {
            assert_eq!(code, "print(123)");
            let result = ToolRegistry::code_answer(&Ok((true, "123\n".to_string(), String::new())));
            assert!(
                result.output.contains("执行")
                    || result.output.contains("123")
                    || result.output.contains("错误")
            );
        }
        other => panic!("expected code execution, got {:?}", other),
    }

    // An unknown program gets the list of what is supported.
    match tools.plan("打开不存在的程序xyz123", false) {
        Some(ToolStep::Reply(result)) => assert!(result.output.contains("我支持")),
        other => panic!("expected the system command help, got {:?}", other),
    }
}

#[test]
fn spoken_multiplication_is_calculated() {
    let tools = ToolRegistry::new();
    match tools.plan("256乘18等于多少", false) {
        Some(ToolStep::Calculate { expr, .. }) => {
            assert_eq!(expr, "256 * 18");
            let r = ToolRegistry::calc_answer(&expr, &Ok("4608".to_string()));
            assert_eq!(r.output, "256 * 18 = 4608");
        }
        _ => panic!("expected a calculation"),
    }
    // Only 乘 is read as an operator; other words are dropped like any text.
    match tools.plan("5除2等于多少", false) {
        Some(ToolStep::Calculate { expr, .. }) => assert_eq!(expr, "52"),
        _ => panic!("expected a calculation"),
    }
    match tools.plan("计算 3乘以4", false) {
        Some(ToolStep::Calculate { expr, .. }) => assert_eq!(expr, "3 * 4"),
        _ => panic!("expected a calculation"),
    }
}

#[test]
fn reminder_in_five_minutes() {
    let tools = ToolRegistry::new();
    match tools.plan("5分钟后提醒我喝水", true) {
        Some(ToolStep::SetReminder { seconds, message, delay }) => {
            assert_eq!(seconds, 300);
            assert_eq!(message, "钟后提醒我喝水");
            assert_eq!(delay, "5分钟后");
            let r = ToolRegistry::reminder_answer(&delay, &Ok(()));
            assert_eq!(r.output, "好的，已设置提醒：提醒事项（5分钟后）");
            let e = ToolRegistry::reminder_answer(&delay, &Err("disk".to_string()));
            assert_eq!(e.output, "设置失败: disk");
        }
        _ => panic!("expected a reminder"),
    }
    match tools.plan("1小时后提醒我", true) {
        Some(ToolStep::SetReminder { seconds, message, delay }) => {
            assert_eq!(seconds, 3600);
            assert_eq!(message, "时后提醒我");
            assert_eq!(delay, "1小时后");
        }
        _ => panic!("expected a reminder"),
    }
}

#[test]
fn planned_answers_are_given() {
    let tools = ToolRegistry::new();
    assert!(tools.plan("你好", false).is_none());
    match tools.plan("翻译成英语 早上好", false) {
        Some(ToolStep::Reply(r)) => {
            assert!(r.should_respond && r.needs_llm);
            assert!(r.output.is_empty());
            assert!(r.llm_prompt.is_some());
        }
        _ => panic!("expected a reply"),
    }
    for input in ["查看提醒", "截图", "运行代码", "评分"] {
        if let Some(ToolStep::Reply(r)) = tools.plan(input, false) {
            assert!(r.should_respond && !r.needs_llm && r.llm_prompt.is_none());
        }
    }
}

/// The answer that a planned step comes to, with stand-ins for the outside work.
fn answer_of(step: ToolStep) -> ToolResult {
    match step {
        ToolStep::Reply(r) => r,
        ToolStep::NoteThenReply(_, r) => r,
        ToolStep::Time => ToolRegistry::time_answer(0, "2024-01-01 08:00"),
        ToolStep::Calculate { expr, .. } => ToolRegistry::calc_answer(&expr, &Ok("2".to_string())),
        ToolStep::Screenshot => ToolRegistry::screenshot_answer(&Err("no screen".to_string())),
        ToolStep::RunSystem { desc, .. } => ToolRegistry::system_answer(&desc, &Ok(())),
        ToolStep::ReadClipboard => ToolRegistry::clipboard_answer(&Ok("abc".to_string())),
        ToolStep::WriteClipboard(c) => ToolRegistry::clipboard_write_answer(&c, &Ok(())),
        ToolStep::Notify { message, .. } => ToolRegistry::notify_answer(&message, &Ok(())),
        ToolStep::WebSearch(q) => ToolRegistry::search_answer(&q, &Ok("晴".to_string())),
        ToolStep::Export => ToolRegistry::export_answer(&Ok("out.md".to_string())),
        ToolStep::SetReminder { delay, .. } => ToolRegistry::reminder_answer(&delay, &Ok(())),
        ToolStep::ListReminders => ToolRegistry::reminders_answer(&Ok(Vec::new())),
        ToolStep::CancelReminders => ToolRegistry::cancel_answer(&Ok(0)),
        ToolStep::Remember(c) => ToolRegistry::remember_answer(&c, &Ok(())),
        ToolStep::SearchConversation(q) => ToolRegistry::history_answer(&q, &Ok(Vec::new())),
        ToolStep::RunCode(_) => {
            ToolRegistry::code_answer(&Ok((true, "1\n".to_string(), String::new())))
        }
    }
}

#[test]
fn all_tools_respond_without_database() {
    let tools = ToolRegistry::new();
    let inputs = [
        "现在几点了",
        "计算 1 + 1",
        "截图",
        "剪贴板",
        "导出对话",
        "快捷短语",
        "五星好评",
        "搜索天气",
        "翻译成英语你好",
        "分析情感我很开心",
        "运行代码 print(1)",
        "通知测试",
        "记住测试记忆",
        "5分钟后提醒我",
        "查看提醒",
    ];
    for input in inputs {
        let step = tools.plan(input, false);
        assert!(step.is_some(), "a tool should answer: {}", input);
        let r = answer_of(step.unwrap());
        assert!(r.should_respond, "the answer should be given: {}", input);
        assert_eq!(r.needs_llm, r.llm_prompt.is_some(), "{}", input);
        if r.needs_llm {
            assert!(r.output.is_empty(), "{}", input);
        }
    }
}
