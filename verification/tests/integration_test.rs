// Tool routing and the tools' own answers, request by request.
use voice_assistant::agent::calc::{BinOp, Expr};
use voice_assistant::agent::persona::AgentPersona;
use voice_assistant::agent::tools::{ToolRegistry, ToolResult, ToolStep};
use voice_assistant::config::AgentConfig;

fn plan(text: &str) -> ToolStep {
    assert!(ToolRegistry::plan_is_defined(text, false));
    ToolRegistry::new().plan(text, false).expect("a tool should answer")
}

fn reply(text: &str) -> ToolResult {
    match plan(text) {
        ToolStep::Reply(r) => r,
        other => panic!("expected a direct reply, got {:?}", other),
    }
}

fn eval(e: &Expr) -> Result<f64, String> {
    match e {
        Expr::Num(s) => s.parse::<f64>().map_err(|_| format!("Bad: {}", s)),
        Expr::Neg(x) => Ok(-eval(x)?),
        Expr::Group(x) => eval(x),
        Expr::Unclosed(x) => {
            eval(x)?;
            Err("Missing )".to_string())
        }
        Expr::Fail(m) => Err(m.clone()),
        Expr::Bin(op, a, b) => {
            let x = eval(a)?;
            let y = eval(b)?;
            match op {
                BinOp::Add => Ok(x + y),
                BinOp::Sub => Ok(x - y),
                BinOp::Mul => Ok(x * y),
                BinOp::Div => {
                    if y == 0.0 {
                        Err("除以零".to_string())
                    } else {
                        Ok(x / y)
                    }
                }
                BinOp::Rem => Ok(x % y),
            }
        }
    }
}

#[test]
fn test_time_tool() {
    let tools = ToolRegistry::new();
    assert!(matches!(plan("现在几点了"), ToolStep::Time));
    let result = tools.get_time();
    assert!(result.should_respond);
    assert!(result.output.contains("现在是"));
}

#[test]
fn test_calculator_tool() {
    match plan("计算 256 * 18") {
        ToolStep::Calculate { expr, tree } => {
            assert_eq!(expr, "256 * 18");
            let value = eval(&tree).unwrap();
            assert_eq!(value, 4608.0);
            let result = ToolRegistry::calc_answer(&expr, &Ok("4608".to_string()));
            assert!(result.output.contains("4608"));
            assert_eq!(result.output, "256 * 18 = 4608");
        }
        other => panic!("expected a calculation, got {:?}", other),
    }
}

#[test]
fn test_screenshot_tool() {
    assert!(matches!(plan("截图"), ToolStep::Screenshot));
}

#[test]
fn test_system_command_tool() {
    let result = reply("打开不存在的程序xyz");
    assert!(result.output.contains("我支持"));
}

#[test]
fn test_search_tool() {
    // "天气" is a search word too, so nothing is left to search for.
    let result = reply("搜索天气");
    assert_eq!(result.output, "你想搜索什么？");
    match plan("搜索 Rust 教程") {
        ToolStep::WebSearch(q) => assert_eq!(q, "Rust 教程"),
        other => panic!("expected a web search, got {:?}", other),
    }
}

#[test]
fn test_export_tool() {
    // Without the memory database there is nothing to export.
    assert_eq!(reply("导出对话").output, "数据库不可用");
    let with_db = ToolRegistry::new().plan("导出对话", true);
    assert!(matches!(with_db, Some(ToolStep::Export)));
}

#[test]
fn test_translate_tool() {
    let result = reply("翻译成英语 你好");
    assert!(result.needs_llm);
    assert!(result.llm_prompt.unwrap().contains("你好"));
}

#[test]
fn test_emotion_tool() {
    let result = reply("分析情感 我今天很开心");
    assert!(result.output.contains("开心"));
}

#[test]
fn test_code_execution() {
    let result = reply("运行代码 import os; os.system('echo hacked')");
    assert!(result.should_respond);
}

#[test]
fn test_conversation_search() {
    // "搜索" names the web search, which comes first.
    assert!(matches!(plan("搜索对话 天气"), ToolStep::WebSearch(_)));
}

#[test]
fn test_quick_phrases() {
    let result = reply("快捷短语");
    assert!(result.output.contains("快捷短语"));
}

#[test]
fn test_score_tool() {
    let result = reply("五星好评");
    assert!(result.output.contains("5星"));
}

#[test]
fn test_persona() {
    let config = AgentConfig::default();
    let persona = AgentPersona::from_config(&config);
    let prompt = persona.get_system_prompt("");
    assert!(prompt.contains("Mini"));
}

#[test]
fn test_greeting() {
    let config = AgentConfig::default();
    let persona = AgentPersona::from_config(&config);
    let greeting = persona.get_greeting();
    assert!(!greeting.is_empty());
}

#[test]
fn test_full_conversation_flow() {
    let config = AgentConfig::default();
    assert_eq!(config.name, "Mini");

    let tools = ToolRegistry::new();

    assert!(matches!(plan("现在几点了"), ToolStep::Time));
    assert!(tools.get_time().output.contains("现在是"));

    match plan("计算 100 * 200") {
        ToolStep::Calculate { expr, tree } => {
            let value = eval(&tree).unwrap();
            assert_eq!(value, 20000.0);
            let result = ToolRegistry::calc_answer(&expr, &Ok(format!("{}", value as i64)));
            assert!(result.output.contains("20000"));
        }
        other => panic!("expected a calculation, got {:?}", other),
    }

    assert!(matches!(plan("截图"), ToolStep::Screenshot));

    let result = reply("快捷短语");
    assert!(result.output.contains("快捷短语"));
}
