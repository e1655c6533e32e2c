//! The agent's persona: its name, character and fixed phrases.
use vstd::prelude::*;

use crate::clock::{format_time, local_now, prompt_time_pattern, time_text, LocalTime};
use crate::config::AgentConfig;
use crate::text::{extend, extend_str, string_of, u64_chars, dec};

verus! {

/// The persona of the agent.
pub struct AgentPersona {
    pub name: String,
    pub personality: String,
    pub max_sentences: usize,
}

/// The Chinese name of a day of the week counted from Monday.
pub open spec fn weekday_name(d: int) -> Seq<char> {
    if d == 0 {
        "星期一"@
    } else if d == 1 {
        "星期二"@
    } else if d == 2 {
        "星期三"@
    } else if d == 3 {
        "星期四"@
    } else if d == 4 {
        "星期五"@
    } else if d == 5 {
        "星期六"@
    } else {
        "星期日"@
    }
}

pub fn weekday_name_of(d: u32) -> (s: &'static str)
    requires
        d < 7,
    ensures
        s@ == weekday_name(d as int),
{
    if d == 0 {
        "星期一"
    } else if d == 1 {
        "星期二"
    } else if d == 2 {
        "星期三"
    } else if d == 3 {
        "星期四"
    } else if d == 4 {
        "星期五"
    } else if d == 5 {
        "星期六"
    } else {
        "星期日"
    }
}

pub open spec fn prompt_intro() -> Seq<char> {
    "你是 "@
}

pub open spec fn prompt_between() -> Seq<char> {
    "，一个"@
}

pub open spec fn prompt_abilities() -> Seq<char> {
    "。\n\n你的核心能力：\n1. 用简洁、自然的中文回答问题，像在打电话一样\n2. 记得用户之前告诉你的信息\n3. 可以查询时间、做数学计算、设定提醒\n4. 可以联网搜索实时信息（天气、新闻、知识等）\n5. 不确定的事情诚实说\"我不太确定\"\n\n回答规则：\n- 回复控制在 "@
}

pub open spec fn prompt_rules() -> Seq<char> {
    " 句话以内\n- 用口语化的中文，不要用书面语\n- 不要使用 markdown 格式\n- 不要使用列表或编号格式\n- 不要说\"作为 AI 助手\"之类的话\n- 不知道就说\"这个我不太清楚\"，不要编造\n- 如果用户问了你之前记住的信息，自然地引用\n- 如果需要实时信息，告诉用户\"我帮你搜一下\"\n"@
}

pub open spec fn prompt_time_label() -> Seq<char> {
    "\n\n当前时间："@
}

pub open spec fn memory_heading() -> Seq<char> {
    "\n与当前对话相关的记忆：\n"@
}

/// The memory section of the prompt: empty without memory context.
pub open spec fn memory_section(context: Seq<char>) -> Seq<char> {
    if context.len() != 0 {
        memory_heading() + context
    } else {
        Seq::empty()
    }
}

/// The current time as the prompt states it: the formatted date, a space, the weekday.
pub open spec fn prompt_time_text(date: Seq<char>, weekday: int) -> Seq<char> {
    date + " "@ + weekday_name(weekday)
}

/// The system prompt of a persona with the given memory context and time text.
pub open spec fn system_prompt(
    name: Seq<char>,
    personality: Seq<char>,
    max_sentences: nat,
    context: Seq<char>,
    time: Seq<char>,
) -> Seq<char> {
    prompt_intro() + name + prompt_between() + personality + prompt_abilities() + dec(
        max_sentences,
    ) + prompt_rules() + memory_section(context) + prompt_time_label() + time
}

/// The greeting word for an hour of the day.
pub open spec fn greeting_word(hour: int) -> Seq<char> {
    if 6 <= hour <= 11 {
        "早上好"@
    } else if 12 <= hour <= 17 {
        "下午好"@
    } else if 18 <= hour <= 22 {
        "晚上好"@
    } else {
        "你好"@
    }
}

/// The greeting of a persona with the given name at an hour of the day.
pub open spec fn greeting(name: Seq<char>, hour: int) -> Seq<char> {
    greeting_word(hour) + "！我是"@ + name + "，你的语音助手。有什么可以帮你的？"@
}

impl AgentPersona {
    /// The persona that a configuration describes.
    pub fn from_config(config: &AgentConfig) -> (p: Self)
        ensures
            p.name@ == config.name@,
            p.personality@ == config.personality@,
            p.max_sentences == config.max_reply_sentences,
    {
        AgentPersona {
            name: config.name.clone(),
            personality: config.personality.clone(),
            max_sentences: config.max_reply_sentences,
        }
    }

    /// The system prompt at the given time, with the given memory context.
    pub fn system_prompt_at(&self, memory_context: &str, weekday: u32, date_text: &str) -> (s:
        String)
        requires
            weekday < 7,
        ensures
            s@ == system_prompt(
                self.name@,
                self.personality@,
                self.max_sentences as nat,
                memory_context@,
                prompt_time_text(date_text@, weekday as int),
            ),
    {
        let mut v: Vec<char> = Vec::new();
        extend_str(&mut v, "你是 ");
        extend_str(&mut v, self.name.as_str());
        extend_str(&mut v, "，一个");
        extend_str(&mut v, self.personality.as_str());
        extend_str(
            &mut v,
            "。\n\n你的核心能力：\n1. 用简洁、自然的中文回答问题，像在打电话一样\n2. 记得用户之前告诉你的信息\n3. 可以查询时间、做数学计算、设定提醒\n4. 可以联网搜索实时信息（天气、新闻、知识等）\n5. 不确定的事情诚实说\"我不太确定\"\n\n回答规则：\n- 回复控制在 ",
        );
        let n = u64_chars(self.max_sentences as u64);
        extend(&mut v, &n);
        extend_str(
            &mut v,
            " 句话以内\n- 用口语化的中文，不要用书面语\n- 不要使用 markdown 格式\n- 不要使用列表或编号格式\n- 不要说\"作为 AI 助手\"之类的话\n- 不知道就说\"这个我不太清楚\"，不要编造\n- 如果用户问了你之前记住的信息，自然地引用\n- 如果需要实时信息，告诉用户\"我帮你搜一下\"\n",
        );
        if !memory_context.is_empty() {
            extend_str(&mut v, "\n与当前对话相关的记忆：\n");
            extend_str(&mut v, memory_context);
        }
        extend_str(&mut v, "\n\n当前时间：");
        extend_str(&mut v, date_text);
        extend_str(&mut v, " ");
        extend_str(&mut v, weekday_name_of(weekday));
        let s = string_of(&v);
        assert(s@ =~= system_prompt(
            self.name@,
            self.personality@,
            self.max_sentences as nat,
            memory_context@,
            prompt_time_text(date_text@, weekday as int),
        ));
        s
    }

    /// The system prompt now: the time is read from the local clock.
    pub fn get_system_prompt(&self, memory_context: &str) -> (s: String)
        ensures
            exists|t: LocalTime|
                #[trigger] t.wf() && s@ == system_prompt(
                    self.name@,
                    self.personality@,
                    self.max_sentences as nat,
                    memory_context@,
                    prompt_time_text(time_text(t, prompt_time_pattern()), t.weekday as int),
                ),
    {
        let now = local_now();
        let date = format_time(&now, "%Y年%m月%d日 %H:%M");
        self.system_prompt_at(memory_context, now.weekday, date.as_str())
    }

    /// The greeting at the given hour of the day.
    pub fn greeting_at(&self, hour: u32) -> (s: String)
        ensures
            s@ == greeting(self.name@, hour as int),
    {
        let mut v: Vec<char> = Vec::new();
        if 6 <= hour && hour <= 11 {
            extend_str(&mut v, "早上好");
        } else if 12 <= hour && hour <= 17 {
            extend_str(&mut v, "下午好");
        } else if 18 <= hour && hour <= 22 {
            extend_str(&mut v, "晚上好");
        } else {
            extend_str(&mut v, "你好");
        }
        extend_str(&mut v, "！我是");
        extend_str(&mut v, self.name.as_str());
        extend_str(&mut v, "，你的语音助手。有什么可以帮你的？");
        let s = string_of(&v);
        assert(s@ =~= greeting(self.name@, hour as int));
        s
    }

    /// The greeting now: the hour is read from the local clock.
    pub fn get_greeting(&self) -> (s: String)
        ensures
            exists|h: int| 0 <= h < 24 && s@ == greeting(self.name@, h),
    {
        let now = local_now();
        self.greeting_at(now.hour)
    }

    /// The answer when no speech was heard.
    pub fn get_no_voice_response(&self) -> (s: String)
        ensures
            s@ == "抱歉，我没听清。你能再说一遍吗？"@,
    {
        "抱歉，我没听清。你能再说一遍吗？".to_owned()
    }

    /// The answer when the language model cannot be reached.
    pub fn get_service_unavailable_response(&self) -> (s: String)
        ensures
            s@ == "抱歉，模型服务似乎不可用。我现在无法回答问题。"@,
    {
        "抱歉，模型服务似乎不可用。我现在无法回答问题。".to_owned()
    }

    /// The answer when something went wrong.
    pub fn get_error_response(&self) -> (s: String)
        ensures
            s@ == "抱歉，我遇到了一些问题。请稍后再试。"@,
    {
        "抱歉，我遇到了一些问题。请稍后再试。".to_owned()
    }
}

} // verus!
