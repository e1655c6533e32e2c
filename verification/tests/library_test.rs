// The library's texts, parsers and state, on concrete values.
use voice_assistant::agent::calc::{parse_calculation, tokenize, Expr};
use voice_assistant::agent::orchestrator::{
    banner_text, extraction_prompt, heard, new_session_id, session_id_from, should_transcribe,
    Heard,
};
use voice_assistant::agent::persona::AgentPersona;
use voice_assistant::agent::tools::{analyze_emotion, reminder_plan, score_value, ToolRegistry};
use voice_assistant::config::AgentConfig;
use voice_assistant::llm::rig_client::{
    build_messages, stream_payloads, stream_reply, ChatMessage, StreamChoice, StreamChunk,
    StreamDelta,
};
use voice_assistant::memory::database::MemoryStats;
use voice_assistant::memory::rag::{chunk_text_of, is_document_extension, KnowledgeBase};
use voice_assistant::stt::whisper::join_segments;
use voice_assistant::text::can_cut_bytes;
use voice_assistant::tts::piper::PiperTts;
use voice_assistant::tts::{clean_text_of, split_sentences_of, TextToSpeech};
use voice_assistant::ui::{
    can_render_markdown, history_line, render_markdown, status_message, submitted_text,
    AppState, ChatMessage as UiMessage, ChatState, MdLine, MdWord,
};

fn chars(s: &str) -> Vec<char> {
    s.chars().collect()
}

fn text(v: &[char]) -> String {
    v.iter().collect()
}

#[test]
fn status_lines() {
    assert_eq!(status_message(&AppState::Idle), "就绪");
    assert_eq!(status_message(&AppState::Listening), "🎤 正在监听...");
    assert_eq!(status_message(&AppState::Speaking), "🔊 正在播放...");
    assert_eq!(status_message(&AppState::Error("麦克风".to_string())), "❌ 错误: 麦克风");
}

#[test]
fn markdown_lines() {
    let md = "# 标题\n**重点**\n- 一项\n1. 第一\n```\n> 引言\n---\n用 `code` 和 **粗体** 词\n\n  ### 小标题  ";
    assert!(can_render_markdown(md));
    let lines = render_markdown(md);
    assert_eq!(lines.len(), 10);
    assert!(matches!(&lines[0], MdLine::Heading(h) if h == "标题"));
    assert!(matches!(&lines[1], MdLine::Bold(b) if b == "重点"));
    assert!(matches!(&lines[2], MdLine::Bullet(b) if b == "一项"));
    assert!(matches!(&lines[3], MdLine::Numbered(n) if n == "1. 第一"));
    assert!(matches!(&lines[4], MdLine::Fence));
    assert!(matches!(&lines[5], MdLine::Quote(q) if q == "引言"));
    assert!(matches!(&lines[6], MdLine::Rule));
    match &lines[7] {
        MdLine::Words(ws) => {
            assert_eq!(ws.len(), 5);
            assert!(matches!(&ws[0], MdWord::Plain(w) if w == "用"));
            assert!(matches!(&ws[1], MdWord::Code(w) if w == "code"));
            assert!(matches!(&ws[3], MdWord::Strong(w) if w == "粗体"));
        }
        other => panic!("unexpected {:?}", other),
    }
    assert!(matches!(&lines[8], MdLine::Blank));
    assert!(matches!(&lines[9], MdLine::Heading(h) if h == "小标题"));
}

#[test]
fn markdown_that_cannot_be_shown() {
    assert!(!can_render_markdown("**"));
    assert!(!can_render_markdown("ok\n***"));
    assert!(!can_render_markdown("a ** b"));
    assert!(!can_render_markdown("看 ` 这里"));
    assert!(can_render_markdown("a `` b"));
    assert!(can_render_markdown(""));
}

#[test]
fn input_box_and_history() {
    assert_eq!(submitted_text("  你好  "), Some("你好".to_string()));
    assert_eq!(submitted_text(" \t "), None);
    let m = UiMessage {
        role: "user".to_string(),
        content: "短消息".to_string(),
        timestamp: "09:30".to_string(),
    };
    assert_eq!(history_line(&m), "👤 [09:30] 短消息");
    let long = "a".repeat(120);
    let m = UiMessage { role: "assistant".to_string(), content: long, timestamp: "10:00".to_string() };
    assert_eq!(history_line(&m), format!("🤖 [10:00] {}", "a".repeat(100)));
}

#[test]
fn sentences_and_cleaning() {
    let c = clean_text_of("**你好**，  世界_！ 今天  天气不错。");
    assert_eq!(text(&c), "你好， 世界！ 今天 天气不错。");
    let ss: Vec<String> = split_sentences_of(&c).iter().map(|s| text(s)).collect();
    assert_eq!(ss, vec!["你好，", " 世界！", " 今天 天气不错。"]);
    // Short pieces stay with what follows; whitespace at the end is dropped.
    let ss: Vec<String> = split_sentences_of(&chars("a. bc.  ")).iter().map(|s| text(s)).collect();
    assert_eq!(ss, vec!["a. bc."]);
}

#[test]
fn streaming_synthesis_sentences() {
    let tts = TextToSpeech::new(PiperTts::with_model(String::new()));
    assert_eq!(tts.synthesize_streaming("你好，世界！"), vec!["你好，", "世界！"]);
    assert!(tts.synthesize_streaming("  **  ").is_empty());
    assert!(!tts.is_playing());
}

#[test]
fn silence_without_a_model() {
    let engine = PiperTts::with_model(String::new());
    assert_eq!(engine.sample_rate(), 22050);
    let wav = engine.generate_silence();
    // A 44-byte header and 11025 samples of two bytes.
    assert_eq!(wav.len(), 44 + 2 * 11025);
    assert_eq!(&wav[0..4], b"RIFF");
    assert_eq!(&wav[4..8], &(36u32 + 22050).to_le_bytes());
    assert_eq!(&wav[8..16], b"WAVEfmt ");
    assert_eq!(&wav[16..24], &[16, 0, 0, 0, 1, 0, 1, 0]);
    assert_eq!(&wav[24..28], &22050u32.to_le_bytes());
    assert_eq!(&wav[28..32], &44100u32.to_le_bytes());
    assert_eq!(&wav[32..36], &[2, 0, 16, 0]);
    assert_eq!(&wav[36..40], b"data");
    assert_eq!(&wav[40..44], &22050u32.to_le_bytes());
    assert!(wav[44..].iter().all(|b| *b == 0));
    assert_eq!(engine.synthesize(Some(vec![1, 2, 3])), wav);
    let with_model = PiperTts::with_model("voice.onnx".to_string());
    assert_eq!(with_model.synthesize(Some(vec![1, 2, 3])), vec![1, 2, 3]);
    assert_eq!(with_model.synthesize(None), wav);
    assert!(PiperTts::python_succeeded(" OK\n", true));
    assert!(!PiperTts::python_succeeded("NO_PIPER", true));
}

#[test]
fn knowledge_base_chunks_and_search() {
    let chunks = chunk_text_of("第一行\n  第二行  \n\n第三段\n");
    assert_eq!(chunks, vec!["第一行\n第二行", "第三段"]);
    let long_line = "x".repeat(300);
    let doc = format!("{}\n{}\n{}", long_line, long_line, "尾");
    let chunks = chunk_text_of(&doc);
    assert_eq!(chunks.len(), 2);
    assert_eq!(chunks[0], format!("{}\n{}", long_line, long_line));
    assert_eq!(chunks[1], "尾");

    let mut kb = KnowledgeBase::empty("kb".to_string());
    kb.add_loaded_document("a.txt".to_string(), "Rust Language\n\nCoffee notes".to_string());
    kb.add_loaded_document("b.md".to_string(), "rust and coffee".to_string());
    assert_eq!(kb.document_count(), 2);
    assert_eq!(kb.chunk_count(), 3);
    let hits = kb.search("RUST", 5);
    assert_eq!(hits, vec![("Rust Language".to_string(), 6), ("rust and coffee".to_string(), 6)]);
    let hits = kb.search("rust coffee", 1);
    assert_eq!(hits, vec![("rust and coffee".to_string(), 2)]);
    assert!(kb.search("茶", 3).is_empty());
    assert!(is_document_extension("md"));
    assert!(!is_document_extension("pdf"));
}

#[test]
fn model_messages_and_stream() {
    let history = vec![ChatMessage::new("user", "早"), ChatMessage::new("assistant", "早上好")];
    let m = build_messages("几点了", Some("你是Mini"), &history);
    let roles: Vec<&str> = m.iter().map(|x| x.role.as_str()).collect();
    assert_eq!(roles, vec!["system", "user", "assistant", "user"]);
    assert_eq!(m[3].content, "几点了");
    let body = "data: {\"a\":1}\n\n  data: [DONE]\nevent: x\ndata: {\"b\":2}  \n";
    assert_eq!(stream_payloads(body), vec!["{\"a\":1}", "{\"b\":2}"]);
    let chunk = |t: Option<&str>| StreamChunk {
        choices: vec![StreamChoice {
            delta: Some(StreamDelta { content: t.map(|s| s.to_string()), role: None }),
            finish_reason: None,
        }],
    };
    let chunks = vec![Some(chunk(Some("你"))), None, Some(chunk(None)), Some(chunk(Some("好")))];
    let (full, tokens) = stream_reply(&chunks);
    assert_eq!(full, "你好");
    assert_eq!(tokens, vec!["你", "好"]);
}

#[test]
fn recognized_segments() {
    let segs = vec![Some(" 你好 ".to_string()), None, Some("  ".to_string()), Some("世界".to_string())];
    assert_eq!(join_segments(&segs), "你好 世界");
    assert_eq!(join_segments(&vec![]), "");
}

#[test]
fn calculator_parsing() {
    let toks = tokenize(&chars("12.5*(3 -1)")).unwrap();
    let toks: Vec<String> = toks.iter().map(|t| text(t)).collect();
    assert_eq!(toks, vec!["12.5", "*", "(", "3", "-", "1", ")"]);
    assert_eq!(text(&tokenize(&chars("2 + x")).unwrap_err()), "Bad char: x");
    match parse_calculation(&chars("-2")) {
        Expr::Neg(x) => assert!(matches!(*x, Expr::Num(ref n) if n == "2")),
        other => panic!("unexpected {:?}", other),
    }
    // "^" becomes "**", whose second "*" is no number.
    match parse_calculation(&chars("2^3")) {
        Expr::Bin(_, _, b) => assert!(matches!(*b, Expr::Fail(ref m) if m == "Bad: *")),
        other => panic!("unexpected {:?}", other),
    }
    match parse_calculation(&chars("(1 + 2")) {
        Expr::Unclosed(_) => {}
        other => panic!("unexpected {:?}", other),
    }
    match parse_calculation(&chars("1 +")) {
        Expr::Bin(_, _, b) => assert!(matches!(*b, Expr::Fail(ref m) if m == "EOF")),
        other => panic!("unexpected {:?}", other),
    }
}

#[test]
fn tool_texts() {
    assert_eq!(score_value(&chars("五星好评")), 5);
    assert_eq!(score_value(&chars("差评")), 2);
    assert_eq!(score_value(&chars("一星")), 1);
    assert_eq!(score_value(&chars("还行吧")), 3);
    let r = analyze_emotion(&chars("分析情感 今天很开心"));
    assert!(r.output.contains("开心"));
    let (secs, msg, delay) = reminder_plan(&chars("10分钟后提醒我喝水"));
    assert_eq!(secs, 600);
    assert_eq!(text(&msg), "钟后提醒我喝水");
    assert_eq!(text(&delay), "10分钟后");
    let (secs, msg, delay) = reminder_plan(&chars("提醒我开会"));
    assert_eq!(secs, 300);
    assert_eq!(text(&msg), "提醒我开会");
    assert_eq!(text(&delay), "5分钟后");
    let (secs, msg, delay) = reminder_plan(&chars("5分钟后"));
    assert_eq!(secs, 300);
    assert_eq!(text(&msg), "钟后");
    assert_eq!(text(&delay), "5分钟后");
    let (secs, msg, delay) = reminder_plan(&chars("2小时后提醒我开会"));
    assert_eq!(secs, 7200);
    assert_eq!(text(&msg), "时后提醒我开会");
    assert_eq!(text(&delay), "2小时后");
    let long = format!("1分钟后{}", "a".repeat(60));
    let (_, msg, _) = reminder_plan(&chars(&long));
    let m = text(&msg);
    assert_eq!(m.len(), 50);
    assert!(m.ends_with("..."));
    assert_eq!(
        ToolRegistry::search_url("天气 a"),
        "https://lite.duckduckgo.com/lite/?q=%E5%A4%A9%E6%B0%94%20a"
    );
    assert_eq!(ToolRegistry::search_url("a-b_c.d~"), "https://lite.duckduckgo.com/lite/?q=a-b_c.d~");
}

#[test]
fn clipboard_is_noticed_once() {
    let mut tools = ToolRegistry::new();
    assert_eq!(tools.clipboard_changed("新的剪贴内容"), Some("新的剪贴内容".to_string()));
    assert_eq!(tools.clipboard_changed("新的剪贴内容"), None);
    assert_eq!(tools.clipboard_changed("abc"), None);
    assert_eq!(tools.clipboard_changed(""), None);
}

#[test]
fn time_and_greeting_from_the_clock() {
    let tools = ToolRegistry::new();
    let out = tools.get_time().output;
    // "现在是" + weekday + " " + "YYYY-MM-DD HH:MM"
    assert!(out.starts_with("现在是星期"));
    let tail: Vec<char> = out.chars().rev().take(16).collect::<Vec<_>>().into_iter().rev().collect();
    let tail: String = tail.into_iter().collect();
    assert_eq!(tail.len(), 16);
    assert_eq!(&tail[4..5], "-");
    assert_eq!(&tail[10..11], " ");
    let persona = AgentPersona::from_config(&AgentConfig::default());
    let g = persona.get_greeting();
    assert!(["早上好", "下午好", "晚上好", "你好"].iter().any(|w| g.starts_with(w)));
    assert_eq!(persona.greeting_at(8), "早上好！我是Mini，你的语音助手。有什么可以帮你的？");
    assert_eq!(persona.greeting_at(23), "你好！我是Mini，你的语音助手。有什么可以帮你的？");
    let prompt = persona.get_system_prompt("");
    assert!(prompt.contains("年"));
}

#[test]
fn sessions_and_banner() {
    let id = new_session_id();
    assert_eq!(id.len(), 16);
    assert!(id.starts_with("session_"));
    assert!(id[8..].chars().all(|c| c.is_ascii_hexdigit() && !c.is_ascii_uppercase()));
    assert_ne!(id, new_session_id());
    assert_eq!(session_id_from("0123abcd-ef"), "session_0123abcd");
    assert_eq!(session_id_from("abc"), "session_abc");
    let persona = AgentPersona::from_config(&AgentConfig::default());
    let stats = MemoryStats { conversations: 12, memories: 3, pending_reminders: 0 };
    let b = banner_text(&persona, &stats, "zh");
    assert!(b.contains("║  Agent: Mini (友好、简洁...)"));
    assert!(b.contains("║  Memory: 3 long-term | 12 conversations"));
    assert!(b.contains("║  Say 'zh' to start"));
    assert!(extraction_prompt("user: 你好").ends_with("对话内容：\nuser: 你好"));
}

#[test]
fn sentences_keep_the_text() {
    let t = chars("今天天气很好。我们出去走走吧！好 ");
    let ss = split_sentences_of(&t);
    let joined: String = ss.iter().map(|s| text(s)).collect();
    let whole = text(&t);
    assert!(whole.starts_with(&joined));
    assert!(whole[joined.len()..].chars().all(char::is_whitespace));
    assert!(ss.iter().all(|s| !text(s).trim().is_empty()));
}

#[test]
fn cleaned_text_has_no_marks() {
    let c = text(&clean_text_of("  __强调__ 和 *斜体* 以及 **粗体**_  "));
    assert!(!c.contains('*') && !c.contains('_'));
    assert_eq!(c, c.trim());
    assert_eq!(c, "强调 和 斜体 以及 粗体");
}

#[test]
fn chunks_keep_the_text() {
    let doc = "  甲  \n\n\n乙\n丙\n   \n丁";
    let chunks = chunk_text_of(doc);
    let kept: Vec<&str> = doc.lines().map(|l| l.trim()).filter(|l| !l.is_empty()).collect();
    assert_eq!(chunks.join("\n"), kept.join("\n"));
    assert!(chunks.iter().all(|c| !c.is_empty()));
    assert_eq!(chunks, vec!["甲", "乙\n丙", "丁"]);
}

#[test]
fn tokens_keep_every_character_but_spaces() {
    let e = " 3.5 * ( 2 -\t1 ) % 7 ";
    let toks = tokenize(&chars(e)).unwrap();
    let joined: String = toks.iter().map(|t| text(t)).collect();
    let expected: String = e.chars().filter(|c| !c.is_ascii_whitespace()).collect();
    assert_eq!(joined, expected);
}

#[test]
fn byte_cuts() {
    assert!(can_cut_bytes("abc", 100));
    assert!(can_cut_bytes("友好、简洁、偶尔幽默", 15));
    assert!(!can_cut_bytes("友好、简洁、偶尔幽默", 16));
    assert!(can_cut_bytes("ab友", 2));
    assert!(!can_cut_bytes("ab友好", 3));
}

#[test]
fn chat_window_state() {
    let mut chat = ChatState::new();
    assert!(chat.state == AppState::Idle);
    assert_eq!(chat.status_message, "就绪");
    chat.set_state(AppState::Thinking);
    assert_eq!(chat.status_message, "🧠 正在思考...");
    chat.scroll_to_bottom = false;
    chat.add_message("user", "你好", "08:00".to_string());
    assert!(chat.scroll_to_bottom);
    assert_eq!(chat.chat_history.len(), 1);
    assert_eq!(chat.chat_history[0].content, "你好");
    assert!(chat.state == AppState::Thinking);
}

#[test]
fn what_was_heard() {
    assert!(!should_transcribe(0));
    assert!(should_transcribe(16000));
    let p = AgentPersona::from_config(&AgentConfig::default());
    match heard(&p, None) {
        Heard::Unclear(a) => assert_eq!(a, "抱歉，我没听清。你能再说一遍吗？"),
        other => panic!("unexpected {:?}", other),
    }
    match heard(&p, Some("你好".to_string())) {
        Heard::Said(t) => assert_eq!(t, "你好"),
        other => panic!("unexpected {:?}", other),
    }
}

#[test]
fn chunk_lines_are_the_trimmed_lines() {
    let doc = " a \n  b\t\n\n\n c  \n";
    let chunks = chunk_text_of(doc);
    let lines: Vec<String> = chunks
        .iter()
        .flat_map(|c| c.split('\n').map(|l| l.to_string()).collect::<Vec<_>>())
        .collect();
    let kept: Vec<String> =
        doc.lines().map(|l| l.trim().to_string()).filter(|l| !l.is_empty()).collect();
    assert_eq!(lines, kept);
    // The blank lines keep "a" and "b" apart from "c".
    assert_eq!(chunks, vec!["a\nb", "c"]);
    assert_eq!(chunk_text_of("a\nb"), vec!["a\nb"]);
    assert_eq!(chunk_text_of("c"), vec!["c"]);
}

#[test]
fn search_keeps_the_best_in_order() {
    let mut kb = KnowledgeBase::empty("kb".to_string());
    kb.add_loaded_document("a.txt".to_string(), "tea one\n\ncoffee\n\ntea two".to_string());
    kb.add_loaded_document("b.txt".to_string(), "tea three tea".to_string());
    // Three chunks score, each 6; one is asked for: the first in document order.
    assert_eq!(kb.search("tea", 1), vec![("tea one".to_string(), 6)]);
    // More are asked for than score: all that score, equal scores in order.
    assert_eq!(
        kb.search("tea", 10),
        vec![
            ("tea one".to_string(), 6),
            ("tea two".to_string(), 6),
            ("tea three tea".to_string(), 6)
        ]
    );
    // A better chunk comes first; the one left out scores no more than the last.
    assert_eq!(
        kb.search("tea three", 2),
        vec![("tea three tea".to_string(), 7), ("tea one".to_string(), 1)]
    );
}

#[test]
fn sentences_end_at_the_first_cut() {
    let ss: Vec<String> =
        split_sentences_of(&chars("a,b,cd,ef")).iter().map(|s| text(s)).collect();
    // "a," is too short to end a sentence; "a,b," is long enough.
    assert_eq!(ss, vec!["a,b,", "cd,", "ef"]);
    let ss: Vec<String> = split_sentences_of(&chars("好。好。")).iter().map(|s| text(s)).collect();
    assert_eq!(ss, vec!["好。", "好。"]);
}

#[test]
fn cleaning_twice_changes_nothing() {
    let once = text(&clean_text_of(" **a**\t\t b  __c__ \n d "));
    assert_eq!(once, "a b c d");
    assert_eq!(text(&clean_text_of(&once)), once);
    assert!(!once.contains("  "));
}
