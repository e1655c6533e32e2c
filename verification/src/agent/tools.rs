//! The agent's tools: which tool a request calls, and everything each tool
//! computes around the outside work (clipboard, processes, network, database)
//! that the application performs.
use vstd::prelude::*;

use crate::agent::calc::{calc_tree, parse_calculation, Expr};
use crate::agent::persona::{weekday_name, weekday_name_of};
use crate::clock::{format_time, local_now, time_text, tool_time_pattern, LocalTime};
use crate::text::{
    match_at, char_boundary_at, lemma_boundary_unique, chars_of, contains, extend, extend_str, find,
    has, i64_chars, is_digit, is_digit_char, join, join_chars, replace, replace_str, same_str,
    string_of, trim, trim_chars, trim_start_matches, trim_start_matches_chars, trim_str, u64_chars,
    dec, dec_int, find_str, utf8_len, utf8_len_exceeds, boundary_index, parse_digits,
    parse_digits_i64, slice, starts_with, begins_with, lines, lines_of, same, digit_char,
};

verus! {

// ===================================================================
// Results
// ===================================================================

/// What a tool answers.
#[derive(Debug)]
pub struct ToolResult {
    pub output: String,
    pub should_respond: bool,
    pub needs_llm: bool,
    pub llm_prompt: Option<String>,
}

/// The model of a tool's answer: output, should respond, needs the language
/// model, prompt for the language model.
pub type ToolResultModel = (Seq<char>, bool, bool, Option<Seq<char>>);

impl ToolResult {
    pub open spec fn model(&self) -> ToolResultModel {
        (
            self.output@,
            self.should_respond,
            self.needs_llm,
            match self.llm_prompt {
                Some(p) => Some(p@),
                None => None,
            },
        )
    }

    /// A plain answer.
    pub fn simple(output: &str) -> (r: Self)
        ensures
            r.model() == simple(output@),
    {
        ToolResult {
            output: output.to_owned(),
            should_respond: true,
            needs_llm: false,
            llm_prompt: None,
        }
    }

    /// An answer that the language model gives to `prompt`.
    pub fn llm(output: &str, prompt: &str) -> (r: Self)
        ensures
            r.model() == (output@, true, true, Some(prompt@)),
    {
        ToolResult {
            output: output.to_owned(),
            should_respond: true,
            needs_llm: true,
            llm_prompt: Some(prompt.to_owned()),
        }
    }

    /// No answer.
    pub fn none() -> (r: Self)
        ensures
            r.model() == (Seq::<char>::empty(), false, false, None::<Seq<char>>),
    {
        ToolResult {
            output: String::new(),
            should_respond: false,
            needs_llm: false,
            llm_prompt: None,
        }
    }
}

pub open spec fn simple(s: Seq<char>) -> ToolResultModel {
    (s, true, false, None)
}

/// A plain answer made of the given characters.
pub fn simple_of(v: &Vec<char>) -> (r: ToolResult)
    ensures
        answer_is_given(r.model()),
        r.model() == simple(v@),
{
    ToolResult { output: string_of(v), should_respond: true, needs_llm: false, llm_prompt: None }
}

/// A plain answer: a fixed prefix followed by a text.
pub fn simple_with(prefix: &str, v: &Vec<char>) -> (r: ToolResult)
    ensures
        answer_is_given(r.model()),
        r.model() == simple(prefix@ + v@),
{
    let mut out = chars_of(prefix);
    extend(&mut out, v);
    simple_of(&out)
}

/// A plain answer: a fixed prefix followed by a string.
pub fn simple_with_str(prefix: &str, s: &str) -> (r: ToolResult)
    ensures
        answer_is_given(r.model()),
        r.model() == simple(prefix@ + s@),
{
    let v = chars_of(s);
    simple_with(prefix, &v)
}

// ===================================================================
// Registry state
// ===================================================================

/// A preset phrase.
pub struct QuickPhrase {
    pub name: String,
    pub phrase: String,
}

/// A scheduled command; its next run is held as seconds since the epoch.
pub struct ScheduledTask {
    pub id: u32,
    pub command: String,
    pub next_run: i64,
    pub interval_secs: i64,
    pub enabled: bool,
}

/// The tools' own state.
pub struct ToolRegistry {
    pub quick_phrases: Vec<QuickPhrase>,
    pub scheduled_tasks: Vec<ScheduledTask>,
    pub last_score: Option<i32>,
    pub task_counter: u32,
    pub clipboard_last: String,
}

/// The preset phrases a registry starts with, as (name, phrase).
pub open spec fn default_phrases() -> Seq<(Seq<char>, Seq<char>)> {
    seq![
        ("天气"@, "搜索今天的天气"@),
        ("新闻"@, "搜索今天的新闻"@),
        ("时间"@, "现在几点了"@),
        ("截图"@, "截图"@),
        ("导出"@, "导出对话"@),
    ]
}

pub open spec fn phrases_model(p: Seq<QuickPhrase>) -> Seq<(Seq<char>, Seq<char>)> {
    p.map_values(|q: QuickPhrase| (q.name@, q.phrase@))
}

fn preset(name: &str, text: &str) -> (q: QuickPhrase)
    ensures
        q.name@ == name@,
        q.phrase@ == text@,
{
    QuickPhrase { name: name.to_owned(), phrase: text.to_owned() }
}

impl ToolRegistry {
    /// A registry with the preset phrases and no scheduled task.
    pub fn new() -> (r: Self)
        ensures
            phrases_model(r.quick_phrases@) == default_phrases(),
            r.scheduled_tasks@.len() == 0,
            r.last_score is None,
            r.task_counter == 0,
            r.last_clipboard() == Seq::<char>::empty(),
    {
        let mut quick_phrases: Vec<QuickPhrase> = Vec::new();
        quick_phrases.push(preset("天气", "搜索今天的天气"));
        quick_phrases.push(preset("新闻", "搜索今天的新闻"));
        quick_phrases.push(preset("时间", "现在几点了"));
        quick_phrases.push(preset("截图", "截图"));
        quick_phrases.push(preset("导出", "导出对话"));
        let r = ToolRegistry {
            quick_phrases,
            scheduled_tasks: Vec::new(),
            last_score: None,
            task_counter: 0,
            clipboard_last: String::new(),
        };
        assert(phrases_model(r.quick_phrases@) =~= default_phrases());
        r
    }

    /// The clipboard text that was last noticed as new.
    pub open spec fn last_clipboard(&self) -> Seq<char> {
        self.clipboard_last@
    }

    /// Notes a reading of the clipboard: text that is not empty, is longer
    /// than five bytes and differs from the text last noticed is new; it
    /// becomes the last noticed text and is returned.
    pub fn clipboard_changed(&mut self, current: &str) -> (r: Option<String>)
        ensures
            clipboard_is_new(old(self).last_clipboard(), current@) ==> (r matches Some(s) && s@
                == current@ && final(self).last_clipboard() == current@),
            !clipboard_is_new(old(self).last_clipboard(), current@) ==> (r is None
                && final(self).last_clipboard() == old(self).last_clipboard()),
            phrases_model(final(self).quick_phrases@) == phrases_model(old(self).quick_phrases@),
            final(self).scheduled_tasks@ == old(self).scheduled_tasks@,
            final(self).last_score == old(self).last_score,
            final(self).task_counter == old(self).task_counter,
    {
        let cur = chars_of(current);
        let last = chars_of(self.clipboard_last.as_str());
        if cur.len() > 0 && !same(&cur, &last) && utf8_len_exceeds(&cur, 5) {
            self.clipboard_last = current.to_owned();
            Some(current.to_owned())
        } else {
            None
        }
    }
}

/// A clipboard reading is new: not empty, longer than five bytes, and not the
/// text last noticed.
pub open spec fn clipboard_is_new(last: Seq<char>, current: Seq<char>) -> bool {
    current.len() > 0 && current != last && utf8_len(current) > 5
}

/// Text just noticed as new is not noticed again by the next reading.
pub proof fn clipboard_noticed_once(last: Seq<char>, current: Seq<char>)
    ensures
        clipboard_is_new(last, current) ==> !clipboard_is_new(current, current),
{
}


// ===================================================================
// Which tool a request calls
// ===================================================================

/// The tools, in the order in which a request is tried against them.
#[derive(Clone, Copy, Debug, PartialEq, Eq, Structural)]
pub enum Route {
    Time,
    Calc,
    Screenshot,
    SysCmd,
    ClipGet,
    ClipSet,
    Translate,
    Notify,
    Schedule,
    ManageTasks,
    Phrases,
    Score,
    Search,
    Export,
    SetReminder,
    ListReminders,
    CancelReminders,
    Remember,
    SearchConversation,
    RunCode,
    Emotion,
}

pub open spec fn asks_time(t: Seq<char>) -> bool {
    contains(t, "几点"@) || contains(t, "什么时间"@) || contains(t, "现在时间"@) || contains(
        t,
        "今天几号"@,
    ) || contains(t, "今天星期几"@) || contains(t, "日期"@)
}

pub open spec fn asks_calc(t: Seq<char>) -> bool {
    contains(t, "算一下"@) || contains(t, "计算"@) || contains(t, "等于多少"@)
}

pub open spec fn asks_screenshot(t: Seq<char>) -> bool {
    contains(t, "截图"@) || contains(t, "截屏"@) || contains(t, "屏幕"@) || contains(t, "画面"@)
        || contains(t, "看到了什么"@)
}

pub open spec fn asks_system(t: Seq<char>) -> bool {
    contains(t, "打开"@) || contains(t, "启动"@) || contains(t, "运行"@) || contains(t, "关闭"@)
        || contains(t, "关机"@) || contains(t, "重启"@) || contains(t, "锁屏"@) || contains(
        t,
        "休眠"@,
    )
}

pub open spec fn asks_clipboard(t: Seq<char>) -> bool {
    contains(t, "剪贴板"@) || contains(t, "复制了什么"@) || contains(t, "复制的内容"@)
}

pub open spec fn asks_translation(t: Seq<char>) -> bool {
    contains(t, "翻译"@) || contains(t, "translate"@) || contains(t, "用英语说"@) || contains(
        t,
        "用日语说"@,
    ) || contains(t, "翻译成"@)
}

pub open spec fn asks_notification(t: Seq<char>) -> bool {
    contains(t, "通知"@) || contains(t, "提醒我注意"@) || contains(t, "弹窗"@)
}

pub open spec fn asks_schedule(t: Seq<char>) -> bool {
    contains(t, "定时"@) || contains(t, "每隔"@) || contains(t, "每小时"@) || contains(t, "每天"@)
        || contains(t, "schedule"@)
}

pub open spec fn asks_task_list(t: Seq<char>) -> bool {
    contains(t, "查看定时"@) || contains(t, "定时列表"@) || contains(t, "取消定时"@)
}

pub open spec fn asks_phrases(t: Seq<char>) -> bool {
    contains(t, "快捷短语"@) || contains(t, "预设"@) || contains(t, "常用命令"@)
}

pub open spec fn asks_score(t: Seq<char>) -> bool {
    contains(t, "评分"@) || contains(t, "打分"@) || contains(t, "五星"@) || contains(t, "好评"@)
        || contains(t, "差评"@) || contains(t, "👍"@) || contains(t, "👎"@)
}

pub open spec fn asks_search(t: Seq<char>) -> bool {
    contains(t, "搜索"@) || contains(t, "搜一下"@) || contains(t, "查一下"@) || contains(
        t,
        "帮我搜"@,
    ) || contains(t, "帮我查"@) || contains(t, "天气"@)
}

pub open spec fn asks_export(t: Seq<char>) -> bool {
    contains(t, "导出对话"@) || contains(t, "保存对话"@) || contains(t, "导出记录"@)
}

pub open spec fn asks_reminder(t: Seq<char>) -> bool {
    contains(t, "提醒我"@) || contains(t, "闹钟"@) || contains(t, "分钟后提醒"@) || contains(
        t,
        "小时后提醒"@,
    )
}

pub open spec fn asks_reminder_list(t: Seq<char>) -> bool {
    contains(t, "查看提醒"@) || contains(t, "提醒列表"@)
}

pub open spec fn asks_reminder_cancel(t: Seq<char>) -> bool {
    contains(t, "取消提醒"@)
}

pub open spec fn asks_remember(t: Seq<char>) -> bool {
    contains(t, "记住"@) || contains(t, "记一下"@) || contains(t, "记着"@) || contains(
        t,
        "以后记得"@,
    )
}

pub open spec fn asks_history(t: Seq<char>) -> bool {
    contains(t, "搜索对话"@) || contains(t, "查找对话"@) || contains(t, "搜历史"@) || contains(
        t,
        "找之前"@,
    )
}

pub open spec fn asks_code(t: Seq<char>) -> bool {
    contains(t, "运行代码"@) || contains(t, "执行代码"@) || contains(t, "跑代码"@) || contains(
        t,
        "run code"@,
    )
}

pub open spec fn asks_emotion(t: Seq<char>) -> bool {
    contains(t, "分析情感"@) || contains(t, "你的情绪"@) || contains(t, "我的心情"@) || contains(
        t,
        "情绪分析"@,
    )
}

/// The characters that the calculator keeps of a request.
pub open spec fn is_calc_char(c: char) -> bool {
    is_digit(c) || c == '+' || c == '-' || c == '*' || c == '/' || c == '%' || c == '(' || c
        == ')' || c == '.' || c == '^' || c == '×' || c == '÷' || c == ' '
}

/// The operator that a spoken word for one stands for: 乘 (times).
pub open spec fn spoken_operator(c: char) -> Option<char> {
    if c == '乘' {
        Some('*')
    } else {
        None
    }
}

/// What the calculator reads of one character of a request: a spoken operator
/// as its symbol between spaces, a character of an expression as itself, and
/// nothing of any other character.
pub open spec fn calc_piece(c: char) -> Seq<char> {
    match spoken_operator(c) {
        Some(o) => seq![' ', o, ' '],
        None => if is_calc_char(c) {
            seq![c]
        } else {
            seq![]
        },
    }
}

/// What the calculator reads of `s`, in order: spoken operators become their
/// symbols before the other characters are dropped.
pub open spec fn keep_calc_chars(s: Seq<char>) -> Seq<char>
    decreases s.len(),
{
    if s.len() == 0 {
        seq![]
    } else {
        keep_calc_chars(s.drop_last()) + calc_piece(s.last())
    }
}

/// The expression that the calculator reads in a request: "256乘18等于多少"
/// reads as "256 * 18".
pub open spec fn calc_expr(t: Seq<char>) -> Seq<char> {
    trim(keep_calc_chars(t))
}

/// The tool that a (trimmed) request calls, if any: the first whose words the
/// request holds, in this order of priority: time, calculation, screenshot,
/// code, system command, clipboard, translation, notification, scheduling,
/// task list, quick phrases, score, web search, export, reminders, memory,
/// conversation search, emotion. A request to run code is never taken for a
/// system command, though both share the word "运行".
pub open spec fn route(t: Seq<char>) -> Option<Route> {
    if asks_time(t) {
        Some(Route::Time)
    } else if asks_calc(t) && calc_expr(t).len() > 0 {
        Some(Route::Calc)
    } else if asks_screenshot(t) {
        Some(Route::Screenshot)
    } else if asks_code(t) {
        Some(Route::RunCode)
    } else if asks_system(t) {
        Some(Route::SysCmd)
    } else if asks_clipboard(t) {
        Some(Route::ClipGet)
    } else if starts_with(t, "复制"@) {
        Some(Route::ClipSet)
    } else if asks_translation(t) {
        Some(Route::Translate)
    } else if asks_notification(t) {
        Some(Route::Notify)
    } else if asks_schedule(t) {
        Some(Route::Schedule)
    } else if asks_task_list(t) {
        Some(Route::ManageTasks)
    } else if asks_phrases(t) {
        Some(Route::Phrases)
    } else if asks_score(t) {
        Some(Route::Score)
    } else if asks_search(t) {
        Some(Route::Search)
    } else if asks_export(t) {
        Some(Route::Export)
    } else if asks_reminder(t) {
        Some(Route::SetReminder)
    } else if asks_reminder_list(t) {
        Some(Route::ListReminders)
    } else if asks_reminder_cancel(t) {
        Some(Route::CancelReminders)
    } else if asks_remember(t) {
        Some(Route::Remember)
    } else if asks_history(t) {
        Some(Route::SearchConversation)
    } else if asks_emotion(t) {
        Some(Route::Emotion)
    } else {
        None
    }
}

/// Whether a request asks for the tool `r`: it holds one of the tool's words
/// (for the calculator, also something to calculate).
pub open spec fn wants(t: Seq<char>, r: Route) -> bool {
    match r {
        Route::Time => asks_time(t),
        Route::Calc => asks_calc(t) && calc_expr(t).len() > 0,
        Route::Screenshot => asks_screenshot(t),
        Route::RunCode => asks_code(t),
        Route::SysCmd => asks_system(t),
        Route::ClipGet => asks_clipboard(t),
        Route::ClipSet => starts_with(t, "复制"@),
        Route::Translate => asks_translation(t),
        Route::Notify => asks_notification(t),
        Route::Schedule => asks_schedule(t),
        Route::ManageTasks => asks_task_list(t),
        Route::Phrases => asks_phrases(t),
        Route::Score => asks_score(t),
        Route::Search => asks_search(t),
        Route::Export => asks_export(t),
        Route::SetReminder => asks_reminder(t),
        Route::ListReminders => asks_reminder_list(t),
        Route::CancelReminders => asks_reminder_cancel(t),
        Route::Remember => asks_remember(t),
        Route::SearchConversation => asks_history(t),
        Route::Emotion => asks_emotion(t),
    }
}

/// The priority of a tool: a request that asks for several tools goes to the
/// one of lowest rank. Code runs before system commands.
pub open spec fn rank(r: Route) -> nat {
    match r {
        Route::Time => 0,
        Route::Calc => 1,
        Route::Screenshot => 2,
        Route::RunCode => 3,
        Route::SysCmd => 4,
        Route::ClipGet => 5,
        Route::ClipSet => 6,
        Route::Translate => 7,
        Route::Notify => 8,
        Route::Schedule => 9,
        Route::ManageTasks => 10,
        Route::Phrases => 11,
        Route::Score => 12,
        Route::Search => 13,
        Route::Export => 14,
        Route::SetReminder => 15,
        Route::ListReminders => 16,
        Route::CancelReminders => 17,
        Route::Remember => 18,
        Route::SearchConversation => 19,
        Route::Emotion => 20,
    }
}

/// A request goes to a tool exactly when it asks for that tool and for no
/// tool of higher priority; it goes to no tool exactly when it asks for none.
/// So "记住我喜欢喝咖啡" goes to the memory tool, since it asks for no other.
pub proof fn routing_picks_the_first_tool_asked_for(t: Seq<char>, r: Route)
    ensures
        route(t) == Some(r) <==> wants(t, r) && forall|q: Route|
            #[trigger] rank(q) < rank(r) ==> !wants(t, q),
        route(t) is None <==> forall|q: Route| !#[trigger] wants(t, q),
{
    lemma_route_is_first(t);
    if wants(t, r) && (forall|q: Route| #[trigger] rank(q) < rank(r) ==> !wants(t, q)) {
        if route(t) is None {
            assert(!wants(t, r));
        } else {
            let x = route(t)->0;
            if x != r {
                assert(rank(x) != rank(r));
                if rank(x) < rank(r) {
                    assert(!wants(t, x));
                } else {
                    assert(!wants(t, r));
                }
            }
        }
    }
}

proof fn lemma_route_is_first(t: Seq<char>)
    ensures
        route(t) matches Some(x) ==> wants(t, x) && forall|q: Route|
            #[trigger] rank(q) < rank(x) ==> !wants(t, q),
        route(t) is None ==> forall|q: Route| !#[trigger] wants(t, q),
{
}

fn keep_calc(s: &Vec<char>) -> (r: Vec<char>)
    ensures
        r@ == keep_calc_chars(s@),
{
    let mut out: Vec<char> = Vec::new();
    let mut i: usize = 0;
    while i < s.len()
        invariant
            i <= s.len(),
            out@ == keep_calc_chars(s@.take(i as int)),
        decreases s.len() - i,
    {
        let c = s[i];
        assert(s@.take(i + 1).drop_last() =~= s@.take(i as int));
        let ghost before = out@;
        let op: Option<char> = if c == '乘' {
            Some('*')
        } else {
            None
        };
        match op {
            Some(o) => {
                out.push(' ');
                out.push(o);
                out.push(' ');
            },
            None => {
                if is_digit_char(c) || c == '+' || c == '-' || c == '*' || c == '/' || c == '%'
                    || c == '(' || c == ')' || c == '.' || c == '^' || c == '×' || c == '÷' || c
                    == ' ' {
                    out.push(c);
                }
            },
        }
        assert(out@ =~= before + calc_piece(c));
        i = i + 1;
    }
    assert(s@.take(s.len() as int) =~= s@);
    out
}

/// The tool that a trimmed request calls.
pub fn route_of(t: &Vec<char>) -> (r: Option<Route>)
    ensures
        r == route(t@),
{
    if has(t, "几点") || has(t, "什么时间") || has(t, "现在时间") || has(t, "今天几号") || has(
        t,
        "今天星期几",
    ) || has(t, "日期") {
        return Some(Route::Time);
    }
    if has(t, "算一下") || has(t, "计算") || has(t, "等于多少") {
        let e = trim_chars(&keep_calc(t));
        if e.len() > 0 {
            return Some(Route::Calc);
        }
    }
    if has(t, "截图") || has(t, "截屏") || has(t, "屏幕") || has(t, "画面") || has(t, "看到了什么") {
        return Some(Route::Screenshot);
    }
    if has(t, "运行代码") || has(t, "执行代码") || has(t, "跑代码") || has(t, "run code") {
        return Some(Route::RunCode);
    }
    if has(t, "打开") || has(t, "启动") || has(t, "运行") || has(t, "关闭") || has(t, "关机") || has(
        t,
        "重启",
    ) || has(t, "锁屏") || has(t, "休眠") {
        return Some(Route::SysCmd);
    }
    if has(t, "剪贴板") || has(t, "复制了什么") || has(t, "复制的内容") {
        return Some(Route::ClipGet);
    }
    if begins_with(t, "复制") {
        return Some(Route::ClipSet);
    }
    if has(t, "翻译") || has(t, "translate") || has(t, "用英语说") || has(t, "用日语说") || has(
        t,
        "翻译成",
    ) {
        return Some(Route::Translate);
    }
    if has(t, "通知") || has(t, "提醒我注意") || has(t, "弹窗") {
        return Some(Route::Notify);
    }
    if has(t, "定时") || has(t, "每隔") || has(t, "每小时") || has(t, "每天") || has(t, "schedule") {
        return Some(Route::Schedule);
    }
    if has(t, "查看定时") || has(t, "定时列表") || has(t, "取消定时") {
        return Some(Route::ManageTasks);
    }
    if has(t, "快捷短语") || has(t, "预设") || has(t, "常用命令") {
        return Some(Route::Phrases);
    }
    if has(t, "评分") || has(t, "打分") || has(t, "五星") || has(t, "好评") || has(t, "差评") || has(
        t,
        "👍",
    ) || has(t, "👎") {
        return Some(Route::Score);
    }
    if has(t, "搜索") || has(t, "搜一下") || has(t, "查一下") || has(t, "帮我搜") || has(t, "帮我查")
        || has(t, "天气") {
        return Some(Route::Search);
    }
    if has(t, "导出对话") || has(t, "保存对话") || has(t, "导出记录") {
        return Some(Route::Export);
    }
    if has(t, "提醒我") || has(t, "闹钟") || has(t, "分钟后提醒") || has(t, "小时后提醒") {
        return Some(Route::SetReminder);
    }
    if has(t, "查看提醒") || has(t, "提醒列表") {
        return Some(Route::ListReminders);
    }
    if has(t, "取消提醒") {
        return Some(Route::CancelReminders);
    }
    if has(t, "记住") || has(t, "记一下") || has(t, "记着") || has(t, "以后记得") {
        return Some(Route::Remember);
    }
    if has(t, "搜索对话") || has(t, "查找对话") || has(t, "搜历史") || has(t, "找之前") {
        return Some(Route::SearchConversation);
    }
    if has(t, "分析情感") || has(t, "你的情绪") || has(t, "我的心情") || has(t, "情绪分析") {
        return Some(Route::Emotion);
    }
    None
}


// ===================================================================
// The tools' own computations
// ===================================================================

/// The command that the system tool runs for a request, with what it says it did.
pub open spec fn system_command(t: Seq<char>) -> Option<(Seq<char>, Seq<char>)> {
    if contains(t, "打开浏览器"@) || contains(t, "打开网页"@) {
        Some(("cmd /c start https://www.baidu.com"@, "打开浏览器"@))
    } else if contains(t, "打开计算器"@) || contains(t, "计算器"@) {
        Some(("cmd /c calc"@, "打开计算器"@))
    } else if contains(t, "打开记事本"@) || contains(t, "记事本"@) {
        Some(("cmd /c notepad"@, "打开记事本"@))
    } else if contains(t, "打开文件管理器"@) || contains(t, "打开文件夹"@) {
        Some(("cmd /c explorer"@, "打开文件管理器"@))
    } else if contains(t, "打开微信"@) {
        Some(("cmd /c start WeChat:"@, "打开微信"@))
    } else if contains(t, "打开 VS Code"@) || contains(t, "打开编辑器"@) {
        Some(("cmd /c code"@, "打开 VS Code"@))
    } else if contains(t, "锁屏"@) {
        Some(("rundll32.exe user32.dll,LockWorkStation"@, "锁屏"@))
    } else if contains(t, "关机"@) {
        Some(("shutdown /s /t 60"@, "60秒后关机"@))
    } else if contains(t, "取消关机"@) {
        Some(("shutdown /a"@, "取消关机"@))
    } else if contains(t, "重启"@) {
        Some(("shutdown /r /t 60"@, "60秒后重启"@))
    } else if contains(t, "休眠"@) {
        Some(("rundll32.exe powrprof.dll,SetSuspendState 0,1,0"@, "休眠"@))
    } else {
        None
    }
}

/// The request names none of the browser, calculator, notepad or file manager.
pub open spec fn no_app_word(t: Seq<char>) -> bool {
    !contains(t, "打开浏览器"@) && !contains(t, "打开网页"@) && !contains(t, "计算器"@) && !contains(
        t,
        "打开计算器"@,
    ) && !contains(t, "记事本"@) && !contains(t, "打开记事本"@) && !contains(t, "打开文件管理器"@)
        && !contains(t, "打开文件夹"@)
}

/// Each application word opens its own application: a request naming the
/// calculator runs `calc`, the notepad `notepad`, and so on, unless a word
/// listed before it is also present (the browser first, then the calculator,
/// notepad, file manager, WeChat and VS Code); the power words follow.
pub proof fn each_app_word_opens_its_own_app(t: Seq<char>)
    ensures
        contains(t, "打开浏览器"@) || contains(t, "打开网页"@) ==> system_command(t) == Some(
            ("cmd /c start https://www.baidu.com"@, "打开浏览器"@),
        ),
        !contains(t, "打开浏览器"@) && !contains(t, "打开网页"@) && contains(t, "计算器"@)
            ==> system_command(t) == Some(("cmd /c calc"@, "打开计算器"@)),
        !contains(t, "打开浏览器"@) && !contains(t, "打开网页"@) && !contains(t, "计算器"@)
            && !contains(t, "打开计算器"@) && contains(t, "记事本"@) ==> system_command(t) == Some(
            ("cmd /c notepad"@, "打开记事本"@),
        ),
        !contains(t, "打开浏览器"@) && !contains(t, "打开网页"@) && !contains(t, "计算器"@)
            && !contains(t, "打开计算器"@) && !contains(t, "记事本"@) && !contains(t, "打开记事本"@)
            && (contains(t, "打开文件管理器"@) || contains(t, "打开文件夹"@)) ==> system_command(t)
            == Some(("cmd /c explorer"@, "打开文件管理器"@)),
        no_app_word(t) && contains(t, "打开微信"@) ==> system_command(t) == Some(
            ("cmd /c start WeChat:"@, "打开微信"@),
        ),
        no_app_word(t) && !contains(t, "打开微信"@) && (contains(t, "打开 VS Code"@) || contains(
            t,
            "打开编辑器"@,
        )) ==> system_command(t) == Some(("cmd /c code"@, "打开 VS Code"@)),
        no_app_word(t) && !contains(t, "打开微信"@) && !contains(t, "打开 VS Code"@) && !contains(
            t,
            "打开编辑器"@,
        ) && contains(t, "锁屏"@) ==> system_command(t) == Some(
            ("rundll32.exe user32.dll,LockWorkStation"@, "锁屏"@),
        ),
        no_app_word(t) && !contains(t, "打开微信"@) && !contains(t, "打开 VS Code"@) && !contains(
            t,
            "打开编辑器"@,
        ) && !contains(t, "锁屏"@) && contains(t, "关机"@) ==> system_command(t) == Some(
            ("shutdown /s /t 60"@, "60秒后关机"@),
        ),
        no_app_word(t) && !contains(t, "打开微信"@) && !contains(t, "打开 VS Code"@) && !contains(
            t,
            "打开编辑器"@,
        ) && !contains(t, "锁屏"@) && !contains(t, "关机"@) && !contains(t, "取消关机"@)
            && contains(t, "重启"@) ==> system_command(t) == Some(
            ("shutdown /r /t 60"@, "60秒后重启"@),
        ),
        no_app_word(t) && !contains(t, "打开微信"@) && !contains(t, "打开 VS Code"@) && !contains(
            t,
            "打开编辑器"@,
        ) && !contains(t, "锁屏"@) && !contains(t, "关机"@) && !contains(t, "取消关机"@)
            && !contains(t, "重启"@) && contains(t, "休眠"@) ==> system_command(t) == Some(
            ("rundll32.exe powrprof.dll,SetSuspendState 0,1,0"@, "休眠"@),
        ),
        system_command(t) is None ==> no_app_word(t) && !contains(t, "打开微信"@) && !contains(
            t,
            "打开 VS Code"@,
        ) && !contains(t, "打开编辑器"@) && !contains(t, "锁屏"@) && !contains(t, "关机"@)
            && !contains(t, "重启"@) && !contains(t, "休眠"@),
{
}

pub open spec fn system_help() -> Seq<char> {
    "我支持：打开浏览器/计算器/记事本/文件夹/微信/VS Code、锁屏、关机、重启、休眠"@
}

/// The command and description that the system tool picks, if any.
pub fn system_command_of(t: &Vec<char>) -> (r: Option<(&'static str, &'static str)>)
    ensures
        match r {
            Some((c, d)) => system_command(t@) == Some((c@, d@)),
            None => system_command(t@) is None,
        },
{
    if has(t, "打开浏览器") || has(t, "打开网页") {
        Some(("cmd /c start https://www.baidu.com", "打开浏览器"))
    } else if has(t, "打开计算器") || has(t, "计算器") {
        Some(("cmd /c calc", "打开计算器"))
    } else if has(t, "打开记事本") || has(t, "记事本") {
        Some(("cmd /c notepad", "打开记事本"))
    } else if has(t, "打开文件管理器") || has(t, "打开文件夹") {
        Some(("cmd /c explorer", "打开文件管理器"))
    } else if has(t, "打开微信") {
        Some(("cmd /c start WeChat:", "打开微信"))
    } else if has(t, "打开 VS Code") || has(t, "打开编辑器") {
        Some(("cmd /c code", "打开 VS Code"))
    } else if has(t, "锁屏") {
        Some(("rundll32.exe user32.dll,LockWorkStation", "锁屏"))
    } else if has(t, "关机") {
        Some(("shutdown /s /t 60", "60秒后关机"))
    } else if has(t, "取消关机") {
        Some(("shutdown /a", "取消关机"))
    } else if has(t, "重启") {
        Some(("shutdown /r /t 60", "60秒后重启"))
    } else if has(t, "休眠") {
        Some(("rundll32.exe powrprof.dll,SetSuspendState 0,1,0", "休眠"))
    } else {
        None
    }
}

/// What the clipboard tool copies: the request without "复制", trimmed.
pub open spec fn clip_text(t: Seq<char>) -> Seq<char> {
    trim(replace(t, "复制"@, ""@))
}

/// The text after a marker found in `t`, with every leading copy of the marker dropped.
pub open spec fn after_marker(t: Seq<char>, m: Seq<char>) -> Seq<char>
    recommends
        find(t, m) is Some,
{
    trim(trim_start_matches(t.skip(find(t, m)->0), m))
}

/// The text that the translation tool translates.
pub open spec fn translate_text(t: Seq<char>) -> Seq<char> {
    if find(t, "翻译成英语"@) is Some {
        after_marker(t, "翻译成英语"@)
    } else if find(t, "翻译成中文"@) is Some {
        after_marker(t, "翻译成中文"@)
    } else if find(t, "翻译成日语"@) is Some {
        after_marker(t, "翻译成日语"@)
    } else if find(t, "翻译"@) is Some {
        after_marker(t, "翻译"@)
    } else {
        trim(t)
    }
}

pub open spec fn translate_prompt(text: Seq<char>) -> Seq<char> {
    "将以下文本翻译成英语，只输出翻译结果：\n"@ + text
}

/// What the translation tool answers.
pub open spec fn translate_result(t: Seq<char>) -> ToolResultModel {
    if translate_text(t).len() == 0 {
        simple("你想翻译什么？"@)
    } else {
        (Seq::empty(), true, true, Some(translate_prompt(translate_text(t))))
    }
}

fn after_marker_of(t: &Vec<char>, m: &str, p: usize) -> (r: Vec<char>)
    requires
        find(t@, m@) == Some(p as int),
    ensures
        r@ == after_marker(t@, m@),
{
    proof {
        crate::text::lemma_find_from_bounds(t@, m@, 0);
    }
    let rest = slice(t, p, t.len());
    let mc = chars_of(m);
    let cut = trim_start_matches_chars(&rest, &mc);
    trim_chars(&cut)
}

/// The translation tool.
pub fn translate(t: &Vec<char>) -> (r: ToolResult)
    ensures
        answer_is_given(r.model()),
        r.model() == translate_result(t@),
{
    let text = if let Some(p) = find_str(t, "翻译成英语") {
        after_marker_of(t, "翻译成英语", p)
    } else if let Some(p) = find_str(t, "翻译成中文") {
        after_marker_of(t, "翻译成中文", p)
    } else if let Some(p) = find_str(t, "翻译成日语") {
        after_marker_of(t, "翻译成日语", p)
    } else if let Some(p) = find_str(t, "翻译") {
        after_marker_of(t, "翻译", p)
    } else {
        trim_chars(t)
    };
    if text.len() == 0 {
        return ToolResult::simple("你想翻译什么？");
    }
    let mut prompt = chars_of("将以下文本翻译成英语，只输出翻译结果：\n");
    extend(&mut prompt, &text);
    let ps = string_of(&prompt);
    proof {
        reveal_strlit("");
    }
    ToolResult::llm("", ps.as_str())
}

/// What the notification tool shows.
pub open spec fn notify_message(t: Seq<char>) -> Seq<char> {
    let m = trim(replace(replace(replace(t, "通知"@, ""@), "提醒我注意"@, ""@), "弹窗"@, ""@));
    if m.len() == 0 {
        "来了一条通知"@
    } else {
        m
    }
}

pub open spec fn notify_script_head() -> Seq<char> {
    "\n[Windows.UI.Notifications.ToastNotificationManager, Windows.UI.Notifications, ContentType = WindowsRuntime] | Out-Null\n[Windows.Data.Xml.Dom.XmlDocument, Windows.Data.Xml.Dom.XmlDocument, ContentType = WindowsRuntime] | Out-Null\n$template = @\"\n<toast>\n  <visual>\n    <binding template=\"ToastGeneric\">\n      <text>🤖 Mini 语音助手</text>\n      <text>"@
}

pub open spec fn notify_script_tail() -> Seq<char> {
    "</text>\n    </binding>\n  </visual>\n</toast>\n\"@\n$xml = New-Object Windows.Data.Xml.Dom.XmlDocument\n$xml.LoadXml($template)\n$toast = [Windows.UI.Notifications.ToastNotification]::new($xml)\n[Windows.UI.Notifications.ToastNotificationManager]::CreateToastNotifier(\"Mini\").Show($toast)\n"@
}

/// The PowerShell script that shows a toast notification with the message.
pub open spec fn notify_script(m: Seq<char>) -> Seq<char> {
    notify_script_head() + m + notify_script_tail()
}

fn notify_parts(t: &Vec<char>) -> (r: (Vec<char>, Vec<char>))
    ensures
        r.0@ == notify_message(t@),
        r.1@ == notify_script(notify_message(t@)),
{
    proof {
        reveal_strlit("通知");
        reveal_strlit("提醒我注意");
        reveal_strlit("弹窗");
    }
    let a = replace_str(t, "通知", "");
    let b = replace_str(&a, "提醒我注意", "");
    let c = replace_str(&b, "弹窗", "");
    let m0 = trim_chars(&c);
    let m = if m0.len() == 0 {
        chars_of("来了一条通知")
    } else {
        m0
    };
    let mut script = chars_of(
        "\n[Windows.UI.Notifications.ToastNotificationManager, Windows.UI.Notifications, ContentType = WindowsRuntime] | Out-Null\n[Windows.Data.Xml.Dom.XmlDocument, Windows.Data.Xml.Dom.XmlDocument, ContentType = WindowsRuntime] | Out-Null\n$template = @\"\n<toast>\n  <visual>\n    <binding template=\"ToastGeneric\">\n      <text>🤖 Mini 语音助手</text>\n      <text>",
    );
    extend(&mut script, &m);
    extend_str(
        &mut script,
        "</text>\n    </binding>\n  </visual>\n</toast>\n\"@\n$xml = New-Object Windows.Data.Xml.Dom.XmlDocument\n$xml.LoadXml($template)\n$toast = [Windows.UI.Notifications.ToastNotification]::new($xml)\n[Windows.UI.Notifications.ToastNotificationManager]::CreateToastNotifier(\"Mini\").Show($toast)\n",
    );
    (m, script)
}

/// What the scheduling tool answers when the request has no "每隔".
pub open spec fn schedule_reply(t: Seq<char>) -> Seq<char> {
    if t.len() == 0 {
        "你想定时执行什么命令？"@
    } else {
        "定时任务已设置：每隔300秒执行「"@ + t + "」\n（提示：后台调度器将在下次启动时生效）"@
    }
}

/// The scheduling tool. Reading the interval after "每隔" cuts the text inside
/// the character "每", which the standard library refuses; such a request is
/// left out.
pub fn schedule_task(t: &Vec<char>) -> (r: ToolResult)
    requires
        !contains(t@, "每隔"@),
    ensures
        answer_is_given(r.model()),
        r.model() == simple(schedule_reply(t@)),
{
    if t.len() == 0 {
        return ToolResult::simple("你想定时执行什么命令？");
    }
    let mut v = chars_of("定时任务已设置：每隔300秒执行「");
    extend(&mut v, t);
    extend_str(&mut v, "」\n（提示：后台调度器将在下次启动时生效）");
    simple_of(&v)
}

/// One line of the task list: "{n}. {command} (每{interval}秒)".
pub open spec fn task_line(n: nat, command: Seq<char>, interval: int) -> Seq<char> {
    dec(n) + ". "@ + command + " (每"@ + dec_int(interval) + "秒)"@
}

pub open spec fn task_lines(tasks: Seq<ScheduledTask>) -> Seq<Seq<char>> {
    Seq::new(tasks.len(), |i: int| task_line((i + 1) as nat, tasks[i].command@, tasks[i].interval_secs as int))
}

/// One line of the phrase list: "{n}. {name} → \"{phrase}\"".
pub open spec fn phrase_line(n: nat, name: Seq<char>, text: Seq<char>) -> Seq<char> {
    dec(n) + ". "@ + name + " → \""@ + text + "\""@
}

pub open spec fn phrase_lines(p: Seq<(Seq<char>, Seq<char>)>) -> Seq<Seq<char>> {
    Seq::new(p.len(), |i: int| phrase_line((i + 1) as nat, p[i].0, p[i].1))
}

/// What the phrase tool lists.
pub open spec fn phrases_reply(p: Seq<(Seq<char>, Seq<char>)>) -> Seq<char> {
    "快捷短语：\n"@ + join(phrase_lines(p), "\n"@) + "\n\n说\"执行快捷1\"即可触发"@
}

/// The score that a rating request gives.
pub open spec fn score_of(t: Seq<char>) -> int {
    if contains(t, "五星"@) || contains(t, "好评"@) || contains(t, "👍"@) {
        5
    } else if contains(t, "四星"@) {
        4
    } else if contains(t, "三星"@) || contains(t, "一般"@) {
        3
    } else if contains(t, "二星"@) || contains(t, "差评"@) {
        2
    } else if contains(t, "一星"@) || contains(t, "👎"@) {
        1
    } else {
        3
    }
}

pub open spec fn score_emoji(score: int) -> Seq<char> {
    if score == 1 {
        "😢"@
    } else if score == 2 {
        "😐"@
    } else if score == 3 {
        "🙂"@
    } else if score == 4 {
        "😊"@
    } else if score == 5 {
        "🤩"@
    } else {
        "🙂"@
    }
}

pub open spec fn score_reply(score: int) -> Seq<char> {
    score_emoji(score) + " 感谢评分！你给了"@ + dec_int(score) + "星。我会继续努力的！"@
}

/// A rating's score follows its words: five stars for 五星, 好评 or 👍; else
/// four for 四星; else three for 三星 or 一般; else two for 二星 or 差评; else
/// one for 一星 or 👎; three when it names none. The answer repeats the score
/// with its face.
pub proof fn ratings_score_by_their_words(t: Seq<char>)
    ensures
        contains(t, "五星"@) || contains(t, "好评"@) || contains(t, "👍"@) ==> score_of(t) == 5,
        !(contains(t, "五星"@) || contains(t, "好评"@) || contains(t, "👍"@)) && contains(t, "四星"@)
            ==> score_of(t) == 4,
        !(contains(t, "五星"@) || contains(t, "好评"@) || contains(t, "👍"@) || contains(t, "四星"@))
            && (contains(t, "三星"@) || contains(t, "一般"@)) ==> score_of(t) == 3,
        !(contains(t, "五星"@) || contains(t, "好评"@) || contains(t, "👍"@) || contains(t, "四星"@)
            || contains(t, "三星"@) || contains(t, "一般"@)) && (contains(t, "二星"@) || contains(
            t,
            "差评"@,
        )) ==> score_of(t) == 2,
        !(contains(t, "五星"@) || contains(t, "好评"@) || contains(t, "👍"@) || contains(t, "四星"@)
            || contains(t, "三星"@) || contains(t, "一般"@) || contains(t, "二星"@) || contains(
            t,
            "差评"@,
        )) && (contains(t, "一星"@) || contains(t, "👎"@)) ==> score_of(t) == 1,
        !(contains(t, "五星"@) || contains(t, "好评"@) || contains(t, "👍"@) || contains(t, "四星"@)
            || contains(t, "三星"@) || contains(t, "一般"@) || contains(t, "二星"@) || contains(
            t,
            "差评"@,
        ) || contains(t, "一星"@) || contains(t, "👎"@)) ==> score_of(t) == 3,
        score_reply(4) == "😊 感谢评分！你给了4星。我会继续努力的！"@,
        score_reply(5) == "🤩 感谢评分！你给了5星。我会继续努力的！"@,
        score_reply(3) == "🙂 感谢评分！你给了3星。我会继续努力的！"@,
        score_reply(2) == "😐 感谢评分！你给了2星。我会继续努力的！"@,
        score_reply(1) == "😢 感谢评分！你给了1星。我会继续努力的！"@,
{
    reveal_strlit("😊");
    reveal_strlit("🤩");
    reveal_strlit("🙂");
    reveal_strlit("😐");
    reveal_strlit("😢");
    reveal_strlit(" 感谢评分！你给了");
    reveal_strlit("星。我会继续努力的！");
    reveal_strlit("😊 感谢评分！你给了4星。我会继续努力的！");
    reveal_strlit("🤩 感谢评分！你给了5星。我会继续努力的！");
    reveal_strlit("🙂 感谢评分！你给了3星。我会继续努力的！");
    reveal_strlit("😐 感谢评分！你给了2星。我会继续努力的！");
    reveal_strlit("😢 感谢评分！你给了1星。我会继续努力的！");
    assert(dec_int(4) =~= seq!['4']);
    assert(dec_int(5) =~= seq!['5']);
    assert(dec_int(3) =~= seq!['3']);
    assert(dec_int(2) =~= seq!['2']);
    assert(dec_int(1) =~= seq!['1']);
    assert(score_reply(4) =~= "😊 感谢评分！你给了4星。我会继续努力的！"@);
    assert(score_reply(5) =~= "🤩 感谢评分！你给了5星。我会继续努力的！"@);
    assert(score_reply(3) =~= "🙂 感谢评分！你给了3星。我会继续努力的！"@);
    assert(score_reply(2) =~= "😐 感谢评分！你给了2星。我会继续努力的！"@);
    assert(score_reply(1) =~= "😢 感谢评分！你给了1星。我会继续努力的！"@);
}

/// The note that a rating leaves in long-term memory.
pub open spec fn score_note(score: int) -> Seq<char> {
    "用户评分: "@ + dec_int(score) + "星"@
}

pub fn score_value(t: &Vec<char>) -> (s: i64)
    ensures
        s == score_of(t@),
        1 <= s <= 5,
{
    if has(t, "五星") || has(t, "好评") || has(t, "👍") {
        5
    } else if has(t, "四星") {
        4
    } else if has(t, "三星") || has(t, "一般") {
        3
    } else if has(t, "二星") || has(t, "差评") {
        2
    } else if has(t, "一星") || has(t, "👎") {
        1
    } else {
        3
    }
}

fn score_texts(score: i64) -> (r: (Vec<char>, Vec<char>))
    requires
        1 <= score <= 5,
    ensures
        r.0@ == score_reply(score as int),
        r.1@ == score_note(score as int),
{
    let mut v = if score == 1 {
        chars_of("😢")
    } else if score == 2 {
        chars_of("😐")
    } else if score == 3 {
        chars_of("🙂")
    } else if score == 4 {
        chars_of("😊")
    } else {
        chars_of("🤩")
    };
    extend_str(&mut v, " 感谢评分！你给了");
    let n = i64_chars(score);
    extend(&mut v, &n);
    extend_str(&mut v, "星。我会继续努力的！");
    let mut note = chars_of("用户评分: ");
    extend(&mut note, &n);
    extend_str(&mut note, "星");
    (v, note)
}

/// A byte that URL encoding keeps as it is: an ASCII letter or digit, or one
/// of `-`, `.`, `_`, `~`.
pub open spec fn is_url_safe(b: u8) -> bool {
    (48 <= b <= 57) || (65 <= b <= 90) || (97 <= b <= 122) || b == 45 || b == 46 || b == 95
        || b == 126
}

/// The uppercase hexadecimal digit of a value below 16.
pub open spec fn hex_upper(d: u8) -> char {
    if d < 10 {
        (48 + d) as char
    } else {
        (55 + d) as char
    }
}

/// Percent-encoding of bytes: safe bytes as their character, every other
/// byte as `%` and two uppercase hexadecimal digits.
pub open spec fn percent_encode(bytes: Seq<u8>) -> Seq<char>
    decreases bytes.len(),
{
    if bytes.len() == 0 {
        seq![]
    } else {
        let b = bytes.last();
        percent_encode(bytes.drop_last()) + if is_url_safe(b) {
            seq![b as char]
        } else {
            seq!['%', hex_upper(b / 16), hex_upper(b % 16)]
        }
    }
}

/// `urlencoding::encode`: percent-encodes every byte of the text's UTF-8 form
/// except ASCII letters, digits and `-`, `_`, `.`, `~`, as its documentation
/// and its `encode_into` and `to_hex_digit` show.
#[verifier::external_body]
fn url_encode(s: &str) -> (r: String)
    ensures
        r@ == percent_encode(vstd::utf8::encode_utf8(s@)),
{
    urlencoding::encode(s).into_owned()
}

/// The address of the search engine's text page for a query.
pub open spec fn search_url(q: Seq<char>) -> Seq<char> {
    "https://lite.duckduckgo.com/lite/?q="@ + percent_encode(vstd::utf8::encode_utf8(q))
}

impl ToolRegistry {
    /// The address that the search tool fetches for a query.
    pub fn search_url(q: &str) -> (r: String)
        ensures
            r@ == search_url(q@),
    {
        let mut v = chars_of("https://lite.duckduckgo.com/lite/?q=");
        let e = url_encode(q);
        extend_str(&mut v, e.as_str());
        string_of(&v)
    }
}

/// What the web search looks for: the request without its search words, trimmed.
pub open spec fn search_query(t: Seq<char>) -> Seq<char> {
    trim(
        replace(
            replace(
                replace(
                    replace(
                        replace(
                            replace(replace(replace(t, "搜索"@, ""@), "搜一下"@, ""@), "查一下"@, ""@),
                            "帮我搜"@,
                            ""@,
                        ),
                        "帮我查"@,
                        ""@,
                    ),
                    "百度"@,
                    ""@,
                ),
                "谷歌"@,
                ""@,
            ),
            "天气"@,
            ""@,
        ),
    )
}

fn search_query_of(t: &Vec<char>) -> (r: Vec<char>)
    ensures
        r@ == search_query(t@),
{
    proof {
        reveal_strlit("搜索");
        reveal_strlit("搜一下");
        reveal_strlit("查一下");
        reveal_strlit("帮我搜");
        reveal_strlit("帮我查");
        reveal_strlit("百度");
        reveal_strlit("谷歌");
        reveal_strlit("天气");
    }
    let a = replace_str(t, "搜索", "");
    let b = replace_str(&a, "搜一下", "");
    let c = replace_str(&b, "查一下", "");
    let d = replace_str(&c, "帮我搜", "");
    let e = replace_str(&d, "帮我查", "");
    let f = replace_str(&e, "百度", "");
    let g = replace_str(&f, "谷歌", "");
    let h = replace_str(&g, "天气", "");
    trim_chars(&h)
}

/// What the conversation search looks for.
pub open spec fn history_query(t: Seq<char>) -> Seq<char> {
    trim(
        replace(
            replace(
                replace(
                    replace(replace(replace(t, "搜索对话"@, ""@), "查找对话"@, ""@), "搜历史"@, ""@),
                    "找之前"@,
                    ""@,
                ),
                "搜索"@,
                ""@,
            ),
            "查找"@,
            ""@,
        ),
    )
}

fn history_query_of(t: &Vec<char>) -> (r: Vec<char>)
    ensures
        r@ == history_query(t@),
{
    proof {
        reveal_strlit("搜索对话");
        reveal_strlit("查找对话");
        reveal_strlit("搜历史");
        reveal_strlit("找之前");
        reveal_strlit("搜索");
        reveal_strlit("查找");
    }
    let a = replace_str(t, "搜索对话", "");
    let b = replace_str(&a, "查找对话", "");
    let c = replace_str(&b, "搜历史", "");
    let d = replace_str(&c, "找之前", "");
    let e = replace_str(&d, "搜索", "");
    let f = replace_str(&e, "查找", "");
    trim_chars(&f)
}

/// What the memory tool remembers: the text after the first of its words that occurs.
pub open spec fn remember_content(t: Seq<char>) -> Seq<char> {
    if find(t, "记住"@) is Some {
        trim(t.skip(find(t, "记住"@)->0 + 2))
    } else if find(t, "记一下"@) is Some {
        trim(t.skip(find(t, "记一下"@)->0 + 3))
    } else if find(t, "记着"@) is Some {
        trim(t.skip(find(t, "记着"@)->0 + 2))
    } else if find(t, "以后记得"@) is Some {
        trim(t.skip(find(t, "以后记得"@)->0 + 4))
    } else {
        Seq::empty()
    }
}

fn rest_after(t: &Vec<char>, m: &str, p: usize) -> (r: Vec<char>)
    requires
        find(t@, m@) == Some(p as int),
    ensures
        r@ == trim(t@.skip(p + m@.len())),
{
    proof {
        crate::text::lemma_find_from_bounds(t@, m@, 0);
        assert(match_at(t@, m@, p as int));
    }
    let mc = chars_of(m);
    assert(mc@.len() == m@.len());
    assert(p + mc.len() <= t.len());
    let rest = slice(t, p + mc.len(), t.len());
    trim_chars(&rest)
}

fn remember_content_of(t: &Vec<char>) -> (r: Vec<char>)
    ensures
        r@ == remember_content(t@),
{
    proof {
        reveal_strlit("记住");
        reveal_strlit("记一下");
        reveal_strlit("记着");
        reveal_strlit("以后记得");
    }
    if let Some(p) = find_str(t, "记住") {
        rest_after(t, "记住", p)
    } else if let Some(p) = find_str(t, "记一下") {
        rest_after(t, "记一下", p)
    } else if let Some(p) = find_str(t, "记着") {
        rest_after(t, "记着", p)
    } else if let Some(p) = find_str(t, "以后记得") {
        rest_after(t, "以后记得", p)
    } else {
        Vec::new()
    }
}

/// The code that the code tool runs.
pub open spec fn code_text(t: Seq<char>) -> Seq<char> {
    trim(
        replace(
            replace(replace(replace(t, "运行代码"@, ""@), "执行代码"@, ""@), "跑代码"@, ""@),
            "run code"@,
            ""@,
        ),
    )
}

/// Code that the code tool refuses to run.
pub open spec fn code_is_dangerous(code: Seq<char>) -> bool {
    contains(code, "import os"@) || contains(code, "subprocess"@) || contains(code, "exec("@)
        || contains(code, "__import__"@)
}

fn code_text_of(t: &Vec<char>) -> (r: Vec<char>)
    ensures
        r@ == code_text(t@),
{
    proof {
        reveal_strlit("运行代码");
        reveal_strlit("执行代码");
        reveal_strlit("跑代码");
        reveal_strlit("run code");
    }
    let a = replace_str(t, "运行代码", "");
    let b = replace_str(&a, "执行代码", "");
    let c = replace_str(&b, "跑代码", "");
    let d = replace_str(&c, "run code", "");
    trim_chars(&d)
}

/// The text whose emotion is analysed.
pub open spec fn emotion_text(t: Seq<char>) -> Seq<char> {
    trim(
        replace(
            replace(replace(replace(t, "分析情感"@, ""@), "你的情绪"@, ""@), "我的心情"@, ""@),
            "情绪分析"@,
            ""@,
        ),
    )
}

/// The emotion found in a text, its confidence in percent and the advice given.
pub open spec fn emotion_of(text: Seq<char>) -> (Seq<char>, int, Seq<char>) {
    if contains(text, "开心"@) || contains(text, "高兴"@) || contains(text, "快乐"@) || contains(
        text,
        "太好了"@,
    ) {
        ("😊 开心"@, 90, "保持好心情！"@)
    } else if contains(text, "难过"@) || contains(text, "伤心"@) || contains(text, "不开心"@)
        || contains(text, "郁闷"@) {
        ("😢 难过"@, 80, "需要聊聊吗？我在。"@)
    } else if contains(text, "生气"@) || contains(text, "愤怒"@) || contains(text, "烦"@)
        || contains(text, "讨厌"@) {
        ("😠 生气"@, 85, "深呼吸，冷静一下。"@)
    } else if contains(text, "担心"@) || contains(text, "焦虑"@) || contains(text, "紧张"@)
        || contains(text, "害怕"@) {
        ("😰 焦虑"@, 75, "别担心，一切都会好的。"@)
    } else if contains(text, "感谢"@) || contains(text, "谢谢"@) || contains(text, "感恩"@) {
        ("🙏 感激"@, 85, "不客气，很高兴能帮到你！"@)
    } else if contains(text, "无聊"@) || contains(text, "没意思"@) || contains(text, "没劲"@) {
        ("😒 无聊"@, 70, "要不要听个故事？"@)
    } else {
        ("😐 平静"@, 50, "有什么我能帮你的吗？"@)
    }
}

/// What the emotion tool answers.
pub open spec fn emotion_reply(t: Seq<char>) -> Seq<char> {
    let text = emotion_text(t);
    if text.len() == 0 {
        "你想分析什么内容的情感？"@
    } else {
        let (e, pct, advice) = emotion_of(text);
        "情感分析结果："@ + e + "\n置信度："@ + dec_int(pct) + "%\n建议："@ + advice
    }
}

pub open spec fn sounds_happy(x: Seq<char>) -> bool {
    contains(x, "开心"@) || contains(x, "高兴"@) || contains(x, "快乐"@) || contains(x, "太好了"@)
}

pub open spec fn sounds_sad(x: Seq<char>) -> bool {
    contains(x, "难过"@) || contains(x, "伤心"@) || contains(x, "不开心"@) || contains(x, "郁闷"@)
}

pub open spec fn sounds_angry(x: Seq<char>) -> bool {
    contains(x, "生气"@) || contains(x, "愤怒"@) || contains(x, "烦"@) || contains(x, "讨厌"@)
}

pub open spec fn sounds_anxious(x: Seq<char>) -> bool {
    contains(x, "担心"@) || contains(x, "焦虑"@) || contains(x, "紧张"@) || contains(x, "害怕"@)
}

pub open spec fn sounds_grateful(x: Seq<char>) -> bool {
    contains(x, "感谢"@) || contains(x, "谢谢"@) || contains(x, "感恩"@)
}

pub open spec fn sounds_bored(x: Seq<char>) -> bool {
    contains(x, "无聊"@) || contains(x, "没意思"@) || contains(x, "没劲"@)
}

/// The emotion that a text shows follows its words, in this order: happy,
/// sad, angry, anxious, grateful, bored, and calm when it names none; each
/// comes with its confidence and advice. "我今天很难过" is sad, 80%.
pub proof fn emotions_follow_their_words(t: Seq<char>, x: Seq<char>)
    requires
        x == emotion_text(t),
    ensures
        (x.len() > 0 && sounds_happy(x)) ==> emotion_reply(t) == "情感分析结果：😊 开心\n置信度：90%\n建议：保持好心情！"@,
        (x.len() > 0 && !sounds_happy(x) && sounds_sad(x)) ==> emotion_reply(t) == "情感分析结果：😢 难过\n置信度：80%\n建议：需要聊聊吗？我在。"@,
        (x.len() > 0 && !sounds_happy(x) && !sounds_sad(x) && sounds_angry(x)) ==> emotion_reply(t) == "情感分析结果：😠 生气\n置信度：85%\n建议：深呼吸，冷静一下。"@,
        (x.len() > 0 && !sounds_happy(x) && !sounds_sad(x) && !sounds_angry(x) && sounds_anxious(x)) ==> emotion_reply(t) == "情感分析结果：😰 焦虑\n置信度：75%\n建议：别担心，一切都会好的。"@,
        (x.len() > 0 && !sounds_happy(x) && !sounds_sad(x) && !sounds_angry(x) && !sounds_anxious(x) && sounds_grateful(x)) ==> emotion_reply(t) == "情感分析结果：🙏 感激\n置信度：85%\n建议：不客气，很高兴能帮到你！"@,
        (x.len() > 0 && !sounds_happy(x) && !sounds_sad(x) && !sounds_angry(x) && !sounds_anxious(x) && !sounds_grateful(x) && sounds_bored(x)) ==> emotion_reply(t) == "情感分析结果：😒 无聊\n置信度：70%\n建议：要不要听个故事？"@,
        (x.len() > 0 && !sounds_happy(x) && !sounds_sad(x) && !sounds_angry(x) && !sounds_anxious(x) && !sounds_grateful(x) && !sounds_bored(x)) ==> emotion_reply(t) == "情感分析结果：😐 平静\n置信度：50%\n建议：有什么我能帮你的吗？"@,
        x.len() == 0 ==> emotion_reply(t) == "你想分析什么内容的情感？"@,
{
    reveal_strlit("😊 开心");
    reveal_strlit("保持好心情！");
    reveal_strlit("情感分析结果：😊 开心\n置信度：90%\n建议：保持好心情！");
    reveal_strlit("😢 难过");
    reveal_strlit("需要聊聊吗？我在。");
    reveal_strlit("情感分析结果：😢 难过\n置信度：80%\n建议：需要聊聊吗？我在。");
    reveal_strlit("😠 生气");
    reveal_strlit("深呼吸，冷静一下。");
    reveal_strlit("情感分析结果：😠 生气\n置信度：85%\n建议：深呼吸，冷静一下。");
    reveal_strlit("😰 焦虑");
    reveal_strlit("别担心，一切都会好的。");
    reveal_strlit("情感分析结果：😰 焦虑\n置信度：75%\n建议：别担心，一切都会好的。");
    reveal_strlit("🙏 感激");
    reveal_strlit("不客气，很高兴能帮到你！");
    reveal_strlit("情感分析结果：🙏 感激\n置信度：85%\n建议：不客气，很高兴能帮到你！");
    reveal_strlit("😒 无聊");
    reveal_strlit("要不要听个故事？");
    reveal_strlit("情感分析结果：😒 无聊\n置信度：70%\n建议：要不要听个故事？");
    reveal_strlit("😐 平静");
    reveal_strlit("有什么我能帮你的吗？");
    reveal_strlit("情感分析结果：😐 平静\n置信度：50%\n建议：有什么我能帮你的吗？");
    reveal_strlit("情感分析结果：");
    reveal_strlit("\n置信度：");
    reveal_strlit("%\n建议：");
    assert(dec(9nat) =~= seq!['9']);
    assert(dec(90nat) == dec(9nat).push(digit_char(0nat)));
    assert(dec_int(90) =~= seq!['9', '0']);
    assert(dec(8nat) =~= seq!['8']);
    assert(dec(80nat) == dec(8nat).push(digit_char(0nat)));
    assert(dec_int(80) =~= seq!['8', '0']);
    assert(dec(8nat) =~= seq!['8']);
    assert(dec(85nat) == dec(8nat).push(digit_char(5nat)));
    assert(dec_int(85) =~= seq!['8', '5']);
    assert(dec(7nat) =~= seq!['7']);
    assert(dec(75nat) == dec(7nat).push(digit_char(5nat)));
    assert(dec_int(75) =~= seq!['7', '5']);
    assert(dec(7nat) =~= seq!['7']);
    assert(dec(70nat) == dec(7nat).push(digit_char(0nat)));
    assert(dec_int(70) =~= seq!['7', '0']);
    assert(dec(5nat) =~= seq!['5']);
    assert(dec(50nat) == dec(5nat).push(digit_char(0nat)));
    assert(dec_int(50) =~= seq!['5', '0']);
    if x.len() > 0 {
        let (e, pct, advice) = emotion_of(x);
        assert(emotion_reply(t) == "情感分析结果："@ + e + "\n置信度："@ + dec_int(pct) + "%\n建议："@ + advice);
        assert("情感分析结果："@ + "😊 开心"@ + "\n置信度："@ + dec_int(90) + "%\n建议："@ + "保持好心情！"@ =~= "情感分析结果：😊 开心\n置信度：90%\n建议：保持好心情！"@);
        assert("情感分析结果："@ + "😢 难过"@ + "\n置信度："@ + dec_int(80) + "%\n建议："@ + "需要聊聊吗？我在。"@ =~= "情感分析结果：😢 难过\n置信度：80%\n建议：需要聊聊吗？我在。"@);
        assert("情感分析结果："@ + "😠 生气"@ + "\n置信度："@ + dec_int(85) + "%\n建议："@ + "深呼吸，冷静一下。"@ =~= "情感分析结果：😠 生气\n置信度：85%\n建议：深呼吸，冷静一下。"@);
        assert("情感分析结果："@ + "😰 焦虑"@ + "\n置信度："@ + dec_int(75) + "%\n建议："@ + "别担心，一切都会好的。"@ =~= "情感分析结果：😰 焦虑\n置信度：75%\n建议：别担心，一切都会好的。"@);
        assert("情感分析结果："@ + "🙏 感激"@ + "\n置信度："@ + dec_int(85) + "%\n建议："@ + "不客气，很高兴能帮到你！"@ =~= "情感分析结果：🙏 感激\n置信度：85%\n建议：不客气，很高兴能帮到你！"@);
        assert("情感分析结果："@ + "😒 无聊"@ + "\n置信度："@ + dec_int(70) + "%\n建议："@ + "要不要听个故事？"@ =~= "情感分析结果：😒 无聊\n置信度：70%\n建议：要不要听个故事？"@);
        assert("情感分析结果："@ + "😐 平静"@ + "\n置信度："@ + dec_int(50) + "%\n建议："@ + "有什么我能帮你的吗？"@ =~= "情感分析结果：😐 平静\n置信度：50%\n建议：有什么我能帮你的吗？"@);
    }
}

/// The emotion tool.
pub fn analyze_emotion(t: &Vec<char>) -> (r: ToolResult)
    ensures
        answer_is_given(r.model()),
        r.model() == simple(emotion_reply(t@)),
{
    proof {
        reveal_strlit("分析情感");
        reveal_strlit("你的情绪");
        reveal_strlit("我的心情");
        reveal_strlit("情绪分析");
    }
    let a = replace_str(t, "分析情感", "");
    let b = replace_str(&a, "你的情绪", "");
    let c = replace_str(&b, "我的心情", "");
    let d = replace_str(&c, "情绪分析", "");
    let text = trim_chars(&d);
    if text.len() == 0 {
        return ToolResult::simple("你想分析什么内容的情感？");
    }
    let (e, pct, advice): (&str, i64, &str) = if has(&text, "开心") || has(&text, "高兴") || has(
        &text,
        "快乐",
    ) || has(&text, "太好了") {
        ("😊 开心", 90, "保持好心情！")
    } else if has(&text, "难过") || has(&text, "伤心") || has(&text, "不开心") || has(&text, "郁闷") {
        ("😢 难过", 80, "需要聊聊吗？我在。")
    } else if has(&text, "生气") || has(&text, "愤怒") || has(&text, "烦") || has(&text, "讨厌") {
        ("😠 生气", 85, "深呼吸，冷静一下。")
    } else if has(&text, "担心") || has(&text, "焦虑") || has(&text, "紧张") || has(&text, "害怕") {
        ("😰 焦虑", 75, "别担心，一切都会好的。")
    } else if has(&text, "感谢") || has(&text, "谢谢") || has(&text, "感恩") {
        ("🙏 感激", 85, "不客气，很高兴能帮到你！")
    } else if has(&text, "无聊") || has(&text, "没意思") || has(&text, "没劲") {
        ("😒 无聊", 70, "要不要听个故事？")
    } else {
        ("😐 平静", 50, "有什么我能帮你的吗？")
    };
    let mut v = chars_of("情感分析结果：");
    extend_str(&mut v, e);
    extend_str(&mut v, "\n置信度：");
    let n = i64_chars(pct);
    extend(&mut v, &n);
    extend_str(&mut v, "%\n建议：");
    extend_str(&mut v, advice);
    simple_of(&v)
}


// ===================================================================
// Reminders
// ===================================================================

/// The longest run of ASCII digits that ends `s`.
pub open spec fn digit_suffix(s: Seq<char>) -> Seq<char>
    decreases s.len(),
{
    if s.len() > 0 && is_digit(s.last()) {
        digit_suffix(s.drop_last()).push(s.last())
    } else {
        seq![]
    }
}

/// `s.parse::<i64>().unwrap_or(d)` on a string of digits.
pub open spec fn parsed_or(s: Seq<char>, d: int) -> int {
    match parse_digits_i64(s) {
        Some(v) => v,
        None => d,
    }
}

/// A reminder request read as (count, seconds per unit, message): "N分钟后…"
/// counts minutes (5 when no number stands before the marker), "N小时后…"
/// counts hours (1 by default); the message is the request from the marker's
/// second character on (three bytes into the marker), trimmed. Any other
/// request is five minutes with the whole request as message.
pub open spec fn reminder_parts(t: Seq<char>) -> (int, int, Seq<char>) {
    match find(t, "分钟后"@) {
        Some(p) => (parsed_or(digit_suffix(t.take(p)), 5), 60, trim(t.skip(p + 1))),
        None => match find(t, "小时后"@) {
            Some(p) => (parsed_or(digit_suffix(t.take(p)), 1), 3600, trim(t.skip(p + 1))),
            None => (5, 60, t),
        },
    }
}

/// How the answer names a reminder's delay: the count and its unit, as in
/// "5分钟后" or "2小时后".
pub open spec fn reminder_delay(t: Seq<char>) -> Seq<char> {
    dec(reminder_parts(t).0 as nat) + if reminder_parts(t).1 == 3600 {
        "小时后"@
    } else {
        "分钟后"@
    }
}

/// What the answer says of a reminder that was set: "提醒事项（5分钟后）".
pub open spec fn reminder_confirmation(delay: Seq<char>) -> Seq<char> {
    "提醒事项（"@ + delay + "）"@
}

/// The delay of a reminder in seconds.
pub open spec fn reminder_seconds(t: Seq<char>) -> int {
    reminder_parts(t).0 * reminder_parts(t).1
}

/// A message longer than 50 bytes keeps its first 47 bytes and gains "...".
pub open spec fn reminder_message(m: Seq<char>) -> Seq<char> {
    if utf8_len(m) > 50 {
        m.take(char_boundary_at(m, 47)->0) + "..."@
    } else {
        m
    }
}

/// A reminder's message, once cut, takes at most 50 bytes.
pub proof fn reminder_message_fits(m: Seq<char>)
    requires
        utf8_len(m) > 50 ==> char_boundary_at(m, 47) is Some,
    ensures
        utf8_len(reminder_message(m)) <= 50,
{
    if utf8_len(m) > 50 {
        let k = char_boundary_at(m, 47)->0;
        assert(utf8_len(m.take(k)) == 47);
        reveal_strlit("...");
        crate::text::lemma_utf8_len_concat(m.take(k), "..."@);
        assert(utf8_len("..."@) == 3) by {
            reveal_strlit("...");
            let d = "..."@;
            assert(d =~= seq!['.', '.', '.']);
            assert forall|i: int| 0 <= i < d.len() implies (#[trigger] d[i] as u32) < 0x80 by {
                assert(d[i] == '.');
            }
            crate::text::lemma_ascii_utf8_len(d);
        }
    }
}

/// The reminder tool computes without fault: the delay fits in `i64`, and a
/// long message can be cut after its 47th byte (which must end a character).
pub open spec fn reminder_defined(t: Seq<char>) -> bool {
    let (n, unit, m) = reminder_parts(t);
    &&& n * unit <= i64::MAX
    &&& (utf8_len(m) > 50 ==> char_boundary_at(m, 47) is Some)
}

proof fn lemma_digit_suffix_run(s: Seq<char>, j: int, p: int)
    requires
        0 <= j <= p <= s.len(),
        forall|k: int| j <= k < p ==> is_digit(#[trigger] s[k]),
        j == 0 || !is_digit(s[j - 1]),
    ensures
        digit_suffix(s.take(p)) == s.subrange(j, p),
    decreases p - j,
{
    if p == j {
        assert(s.take(p).len() == 0 || !is_digit(s.take(p).last()));
        assert(s.subrange(j, p) =~= Seq::<char>::empty());
    } else {
        lemma_digit_suffix_run(s, j, p - 1);
        assert(s.take(p).drop_last() =~= s.take(p - 1));
        assert(s.subrange(j, p) =~= s.subrange(j, p - 1).push(s[p - 1]));
    }
}

fn digit_suffix_of(t: &Vec<char>, p: usize) -> (r: Vec<char>)
    requires
        p <= t.len(),
    ensures
        r@ == digit_suffix(t@.take(p as int)),
        forall|k: int| 0 <= k < r@.len() ==> is_digit(#[trigger] r@[k]),
{
    let mut j: usize = p;
    while j > 0 && is_digit_char(t[j - 1])
        invariant
            j <= p <= t.len(),
            forall|k: int| j <= k < p ==> is_digit(#[trigger] t@[k]),
        decreases j,
    {
        j = j - 1;
    }
    proof {
        lemma_digit_suffix_run(t@, j as int, p as int);
    }
    slice(t, j, p)
}

/// The reminder request as (count, seconds per unit, message).
pub fn reminder_parts_of(t: &Vec<char>) -> (r: (i64, i64, Vec<char>))
    ensures
        (r.0 as int, r.1 as int, r.2@) == reminder_parts(t@),
        r.0 >= 0,
        r.1 > 0,
{
    proof {
        reveal_strlit("分钟后");
        reveal_strlit("小时后");
        crate::text::lemma_find_from_bounds(t@, "分钟后"@, 0);
        crate::text::lemma_find_from_bounds(t@, "小时后"@, 0);
    }
    if let Some(p) = find_str(t, "分钟后") {
        assert(match_at(t@, "分钟后"@, p as int));
        assert(p + 3 <= t.len());
        let ds = digit_suffix_of(t, p);
        let n = match parse_digits(&ds) {
            Some(v) => v,
            None => 5,
        };
        let rest = slice(t, p + 1, t.len());
        (n, 60, trim_chars(&rest))
    } else if let Some(p) = find_str(t, "小时后") {
        assert(match_at(t@, "小时后"@, p as int));
        assert(p + 3 <= t.len());
        let ds = digit_suffix_of(t, p);
        let n = match parse_digits(&ds) {
            Some(v) => v,
            None => 1,
        };
        let rest = slice(t, p + 1, t.len());
        (n, 3600, trim_chars(&rest))
    } else {
        (5, 60, slice(t, 0, t.len()))
    }
}

/// Whether the reminder tool computes without fault on the request.
pub fn reminder_is_defined(t: &Vec<char>) -> (b: bool)
    ensures
        b == reminder_defined(t@),
{
    let (n, unit, m) = reminder_parts_of(t);
    if n > i64::MAX / unit {
        assert(n * unit > i64::MAX) by (nonlinear_arith)
            requires
                n > i64::MAX / unit,
                unit > 0,
        ;
        return false;
    }
    assert(n * unit <= i64::MAX) by (nonlinear_arith)
        requires
            n <= i64::MAX / unit,
            unit > 0,
    ;
    if utf8_len_exceeds(&m, 50) {
        match boundary_index(&m, 47) {
            Some(k) => {
                proof {
                    lemma_boundary_unique(m@, k as int, 47);
                }
                true
            },
            None => false,
        }
    } else {
        true
    }
}

/// The delay in seconds, the message and the spoken delay that a reminder
/// request sets.
pub fn reminder_plan(t: &Vec<char>) -> (r: (i64, Vec<char>, Vec<char>))
    requires
        reminder_defined(t@),
    ensures
        r.0 as int == reminder_seconds(t@),
        r.1@ == reminder_message(reminder_parts(t@).2),
        r.2@ == reminder_delay(t@),
{
    let (n, unit, m) = reminder_parts_of(t);
    let secs = n * unit;
    let mut delay = i64_chars(n);
    if unit == 3600 {
        extend_str(&mut delay, "小时后");
    } else {
        extend_str(&mut delay, "分钟后");
    }
    if utf8_len_exceeds(&m, 50) {
        match boundary_index(&m, 47) {
            Some(k) => {
                proof {
                    lemma_boundary_unique(m@, k as int, 47);
                }
                let mut cut = slice(&m, 0, k);
                extend_str(&mut cut, "...");
                (secs, cut, delay)
            },
            None => {
                assert(false);
                (secs, m, delay)
            },
        }
    } else {
        (secs, m, delay)
    }
}

// ===================================================================
// Lists
// ===================================================================

fn numbered(n: u64) -> (v: Vec<char>)
    ensures
        v@ == dec(n as nat) + ". "@,
{
    let mut v = u64_chars(n);
    extend_str(&mut v, ". ");
    v
}

/// What the task tool answers.
pub open spec fn tasks_reply(t: Seq<char>, tasks: Seq<ScheduledTask>) -> Seq<char> {
    if contains(t, "取消"@) {
        "已取消所有定时任务"@
    } else if tasks.len() == 0 {
        "没有定时任务"@
    } else {
        "定时任务：\n"@ + join(task_lines(tasks), "\n"@)
    }
}

impl ToolRegistry {
    /// The task tool: cancels all tasks or lists them.
    pub fn manage_tasks(&self, t: &Vec<char>) -> (r: ToolResult)
        ensures
            answer_is_given(r.model()),
            r.model() == simple(tasks_reply(t@, self.scheduled_tasks@)),
    {
        if has(t, "取消") {
            return ToolResult::simple("已取消所有定时任务");
        }
        if self.scheduled_tasks.len() == 0 {
            return ToolResult::simple("没有定时任务");
        }
        let mut lines: Vec<Vec<char>> = Vec::new();
        let mut i: usize = 0;
        while i < self.scheduled_tasks.len()
            invariant
                i <= self.scheduled_tasks.len(),
                lines@.map_values(|l: Vec<char>| l@) == task_lines(self.scheduled_tasks@).take(
                    i as int,
                ),
            decreases self.scheduled_tasks.len() - i,
        {
            let task = &self.scheduled_tasks[i];
            let mut line = numbered((i as u64) + 1);
            let cmd = chars_of(task.command.as_str());
            extend(&mut line, &cmd);
            extend_str(&mut line, " (每");
            let n = i64_chars(task.interval_secs);
            extend(&mut line, &n);
            extend_str(&mut line, "秒)");
            let ghost before = lines@.map_values(|l: Vec<char>| l@);
            assert(line@ == task_lines(self.scheduled_tasks@)[i as int]);
            lines.push(line);
            assert(lines@.map_values(|l: Vec<char>| l@) =~= before.push(line@));
            assert(task_lines(self.scheduled_tasks@).take(i + 1) =~= task_lines(
                self.scheduled_tasks@,
            ).take(i as int).push(line@));
            i = i + 1;
        }
        assert(task_lines(self.scheduled_tasks@).take(i as int) =~= task_lines(
            self.scheduled_tasks@,
        ));
        let nl = chars_of("\n");
        let body = join_chars(&lines, &nl);
        simple_with("定时任务：\n", &body)
    }

    /// The phrase tool: lists the preset phrases.
    pub fn list_phrases(&self) -> (r: ToolResult)
        ensures
            answer_is_given(r.model()),
            r.model() == simple(phrases_reply(phrases_model(self.quick_phrases@))),
    {
        let ghost pm = phrases_model(self.quick_phrases@);
        let mut lines: Vec<Vec<char>> = Vec::new();
        let mut i: usize = 0;
        while i < self.quick_phrases.len()
            invariant
                i <= self.quick_phrases.len(),
                pm == phrases_model(self.quick_phrases@),
                lines@.map_values(|l: Vec<char>| l@) == phrase_lines(pm).take(i as int),
            decreases self.quick_phrases.len() - i,
        {
            let q = &self.quick_phrases[i];
            let mut line = numbered((i as u64) + 1);
            extend_str(&mut line, q.name.as_str());
            extend_str(&mut line, " → \"");
            extend_str(&mut line, q.phrase.as_str());
            extend_str(&mut line, "\"");
            let ghost before = lines@.map_values(|l: Vec<char>| l@);
            assert(line@ == phrase_lines(pm)[i as int]);
            lines.push(line);
            assert(lines@.map_values(|l: Vec<char>| l@) =~= before.push(line@));
            assert(phrase_lines(pm).take(i + 1) =~= phrase_lines(pm).take(i as int).push(line@));
            i = i + 1;
        }
        assert(phrase_lines(pm).take(i as int) =~= phrase_lines(pm));
        let nl = chars_of("\n");
        let mut v = chars_of("快捷短语：\n");
        let body = join_chars(&lines, &nl);
        extend(&mut v, &body);
        extend_str(&mut v, "\n\n说\"执行快捷1\"即可触发");
        simple_of(&v)
    }

    /// The time tool's answer for a weekday and a formatted date.
    pub fn time_answer(weekday: u32, date: &str) -> (r: ToolResult)
        requires
            weekday < 7,
        ensures
            answer_is_given(r.model()),
            r.model() == simple(time_reply(weekday as int, date@)),
    {
        let mut v = chars_of("现在是");
        extend_str(&mut v, weekday_name_of(weekday));
        extend_str(&mut v, " ");
        extend_str(&mut v, date);
        simple_of(&v)
    }

    /// The time tool: the weekday and date of the local clock.
    pub fn get_time(&self) -> (r: ToolResult)
        ensures
            answer_is_given(r.model()),
            exists|t: LocalTime|
                #[trigger] t.wf() && r.model() == simple(
                    time_reply(t.weekday as int, time_text(t, tool_time_pattern())),
                ),
    {
        let now = local_now();
        let date = format_time(&now, "%Y-%m-%d %H:%M");
        let r = Self::time_answer(now.weekday, date.as_str());
        assert(now.wf());
        r
    }
}

/// The time tool's answer.
pub open spec fn time_reply(weekday: int, date: Seq<char>) -> Seq<char> {
    "现在是"@ + weekday_name(weekday) + " "@ + date
}


// ===================================================================
// The plan for a request
// ===================================================================

/// A note for long-term memory; its importance is counted in tenths.
#[derive(Debug)]
pub struct MemoryNote {
    pub content: String,
    pub category: String,
    pub source: String,
    pub importance_tenths: u32,
}

impl MemoryNote {
    /// Content, category, source and importance in tenths.
    pub open spec fn model(&self) -> (Seq<char>, Seq<char>, Seq<char>, nat) {
        (self.content@, self.category@, self.source@, self.importance_tenths as nat)
    }
}

/// What a request asks of the application: an answer that is ready, or the
/// outside work (with what the library computed for it) after which the
/// answer is made.
#[derive(Debug)]
pub enum ToolStep {
    /// The answer is complete.
    Reply(ToolResult),
    /// Save the note when a database is present, then give the answer.
    NoteThenReply(MemoryNote, ToolResult),
    /// Read the clock.
    Time,
    /// Evaluate the tree; `expr` is the expression as read from the request,
    /// with a spoken 乘 written as `*`.
    Calculate { expr: String, tree: Expr },
    Screenshot,
    RunSystem { command: String, desc: String },
    ReadClipboard,
    WriteClipboard(String),
    Notify { message: String, script: String },
    WebSearch(String),
    Export,
    /// Store a reminder `seconds` from now; `delay` is how the answer names
    /// that time.
    SetReminder { seconds: i64, message: String, delay: String },
    ListReminders,
    CancelReminders,
    Remember(String),
    SearchConversation(String),
    RunCode(String),
}

pub open spec fn replies(r: ToolStep, m: ToolResultModel) -> bool {
    r matches ToolStep::Reply(x) && x.model() == m
}

/// The plan computes without fault on the (trimmed) request.
pub open spec fn plan_defined(t: Seq<char>, has_db: bool) -> bool {
    &&& route(t) == Some(Route::Schedule) ==> !contains(t, "每隔"@)
    &&& route(t) == Some(Route::SetReminder) && has_db ==> reminder_defined(t)
}

impl ToolRegistry {
    /// The step that the tool `route(t)` takes for the trimmed request `t`.
    pub open spec fn step_for(&self, t: Seq<char>, has_db: bool, r: ToolStep) -> bool {
        match route(t) {
            None => false,
            Some(Route::Time) => r is Time,
            Some(Route::Calc) => r matches ToolStep::Calculate { expr, tree } && expr@ == calc_expr(
                t,
            ) && tree.model() == calc_tree(calc_expr(t)),
            Some(Route::Screenshot) => r is Screenshot,
            Some(Route::SysCmd) => match system_command(t) {
                Some((c, d)) => r matches ToolStep::RunSystem { command, desc } && command@ == c
                    && desc@ == d,
                None => replies(r, simple(system_help())),
            },
            Some(Route::ClipGet) => r is ReadClipboard,
            Some(Route::ClipSet) => if clip_text(t).len() == 0 {
                replies(r, simple("你想复制什么？"@))
            } else {
                r matches ToolStep::WriteClipboard(c) && c@ == clip_text(t)
            },
            Some(Route::Translate) => replies(r, translate_result(t)),
            Some(Route::Notify) => r matches ToolStep::Notify { message, script } && message@
                == notify_message(t) && script@ == notify_script(notify_message(t)),
            Some(Route::Schedule) => replies(r, simple(schedule_reply(t))),
            Some(Route::ManageTasks) => replies(r, simple(tasks_reply(t, self.scheduled_tasks@))),
            Some(Route::Phrases) => replies(
                r,
                simple(phrases_reply(phrases_model(self.quick_phrases@))),
            ),
            Some(Route::Score) => if has_db {
                r matches ToolStep::NoteThenReply(note, x) && note.content@ == score_note(
                    score_of(t),
                ) && note.category@ == "feedback"@ && note.source@ == "user"@
                    && note.importance_tenths == 4 && x.model() == simple(score_reply(score_of(t)))
            } else {
                replies(r, simple(score_reply(score_of(t))))
            },
            Some(Route::Search) => if search_query(t).len() == 0 {
                replies(r, simple("你想搜索什么？"@))
            } else {
                r matches ToolStep::WebSearch(q) && q@ == search_query(t)
            },
            Some(Route::Export) => if has_db {
                r is Export
            } else {
                replies(r, simple("数据库不可用"@))
            },
            Some(Route::SetReminder) => if has_db {
                r matches ToolStep::SetReminder { seconds, message, delay } && seconds
                    == reminder_seconds(t) && message@ == reminder_message(reminder_parts(t).2)
                    && delay@ == reminder_delay(t)
            } else {
                replies(r, simple("提醒不可用"@))
            },
            Some(Route::ListReminders) => if has_db {
                r is ListReminders
            } else {
                replies(r, simple("提醒不可用"@))
            },
            Some(Route::CancelReminders) => if has_db {
                r is CancelReminders
            } else {
                replies(r, simple("提醒不可用"@))
            },
            Some(Route::Remember) => if remember_content(t).len() == 0 {
                replies(r, simple("你想让我记住什么？"@))
            } else if !has_db {
                replies(r, simple("记忆不可用"@))
            } else {
                r matches ToolStep::Remember(c) && c@ == remember_content(t)
            },
            Some(Route::SearchConversation) => if history_query(t).len() == 0 {
                replies(r, simple("你想搜索什么对话？"@))
            } else if !has_db {
                replies(r, simple("数据库不可用"@))
            } else {
                r matches ToolStep::SearchConversation(q) && q@ == history_query(t)
            },
            Some(Route::RunCode) => if code_text(t).len() == 0 {
                replies(r, simple("你想运行什么代码？说\"运行代码 print('hello')\""@))
            } else if code_is_dangerous(code_text(t)) {
                replies(r, simple("⚠️ 安全限制：不允许执行危险代码"@))
            } else {
                r matches ToolStep::RunCode(c) && c@ == code_text(t)
            },
            Some(Route::Emotion) => replies(r, simple(emotion_reply(t))),
        }
    }

    /// Whether `plan` computes without fault on the request; where it does
    /// not, the tools would cut a string inside a character or overflow.
    pub fn plan_is_defined(text: &str, has_db: bool) -> (b: bool)
        ensures
            b == plan_defined(trim(text@), has_db),
    {
        let t = trim_str(text);
        let r = route_of(&t);
        if r == Some(Route::Schedule) && has(&t, "每隔") {
            return false;
        }
        if r == Some(Route::SetReminder) && has_db {
            return reminder_is_defined(&t);
        }
        true
    }

    /// The step for a request: which tool it calls and what that tool needs
    /// done (`None` when no tool matches). `has_db` tells whether the
    /// memory database is open.
    pub fn plan(&self, text: &str, has_db: bool) -> (r: Option<ToolStep>)
        requires
            plan_defined(trim(text@), has_db),
        ensures
            match r {
                None => route(trim(text@)) is None,
                Some(step) => self.step_for(trim(text@), has_db, step),
            },
    {
        let t = trim_str(text);
        let route = match route_of(&t) {
            None => {
                return None;
            },
            Some(x) => x,
        };
        let step = match route {
            Route::Time => ToolStep::Time,
            Route::Calc => {
                let e = trim_chars(&keep_calc(&t));
                let tree = parse_calculation(&e);
                ToolStep::Calculate { expr: string_of(&e), tree }
            },
            Route::Screenshot => ToolStep::Screenshot,
            Route::SysCmd => match system_command_of(&t) {
                Some((c, d)) => ToolStep::RunSystem { command: c.to_owned(), desc: d.to_owned() },
                None => ToolStep::Reply(
                    ToolResult::simple(
                        "我支持：打开浏览器/计算器/记事本/文件夹/微信/VS Code、锁屏、关机、重启、休眠",
                    ),
                ),
            },
            Route::ClipGet => ToolStep::ReadClipboard,
            Route::ClipSet => {
                proof {
                    reveal_strlit("复制");
                }
                let raw = replace_str(&t, "复制", "");
                let c = trim_chars(&raw);
                if c.len() == 0 {
                    ToolStep::Reply(ToolResult::simple("你想复制什么？"))
                } else {
                    ToolStep::WriteClipboard(string_of(&c))
                }
            },
            Route::Translate => ToolStep::Reply(translate(&t)),
            Route::Notify => {
                let (m, sc) = notify_parts(&t);
                ToolStep::Notify { message: string_of(&m), script: string_of(&sc) }
            },
            Route::Schedule => ToolStep::Reply(schedule_task(&t)),
            Route::ManageTasks => ToolStep::Reply(self.manage_tasks(&t)),
            Route::Phrases => ToolStep::Reply(self.list_phrases()),
            Route::Score => {
                let score = score_value(&t);
                let (reply, note) = score_texts(score);
                let answer = simple_of(&reply);
                if has_db {
                    ToolStep::NoteThenReply(
                        MemoryNote {
                            content: string_of(&note),
                            category: "feedback".to_owned(),
                            source: "user".to_owned(),
                            importance_tenths: 4,
                        },
                        answer,
                    )
                } else {
                    ToolStep::Reply(answer)
                }
            },
            Route::Search => {
                let q = search_query_of(&t);
                if q.len() == 0 {
                    ToolStep::Reply(ToolResult::simple("你想搜索什么？"))
                } else {
                    ToolStep::WebSearch(string_of(&q))
                }
            },
            Route::Export => if has_db {
                ToolStep::Export
            } else {
                ToolStep::Reply(ToolResult::simple("数据库不可用"))
            },
            Route::SetReminder => if has_db {
                let (secs, msg, delay) = reminder_plan(&t);
                ToolStep::SetReminder {
                    seconds: secs,
                    message: string_of(&msg),
                    delay: string_of(&delay),
                }
            } else {
                ToolStep::Reply(ToolResult::simple("提醒不可用"))
            },
            Route::ListReminders => if has_db {
                ToolStep::ListReminders
            } else {
                ToolStep::Reply(ToolResult::simple("提醒不可用"))
            },
            Route::CancelReminders => if has_db {
                ToolStep::CancelReminders
            } else {
                ToolStep::Reply(ToolResult::simple("提醒不可用"))
            },
            Route::Remember => {
                let c = remember_content_of(&t);
                if c.len() == 0 {
                    ToolStep::Reply(ToolResult::simple("你想让我记住什么？"))
                } else if !has_db {
                    ToolStep::Reply(ToolResult::simple("记忆不可用"))
                } else {
                    ToolStep::Remember(string_of(&c))
                }
            },
            Route::SearchConversation => {
                let q = history_query_of(&t);
                if q.len() == 0 {
                    ToolStep::Reply(ToolResult::simple("你想搜索什么对话？"))
                } else if !has_db {
                    ToolStep::Reply(ToolResult::simple("数据库不可用"))
                } else {
                    ToolStep::SearchConversation(string_of(&q))
                }
            },
            Route::RunCode => {
                let code = code_text_of(&t);
                if code.len() == 0 {
                    ToolStep::Reply(
                        ToolResult::simple("你想运行什么代码？说\"运行代码 print('hello')\""),
                    )
                } else if has(&code, "import os") || has(&code, "subprocess") || has(&code, "exec(")
                    || has(&code, "__import__") {
                    ToolStep::Reply(ToolResult::simple("⚠️ 安全限制：不允许执行危险代码"))
                } else {
                    ToolStep::RunCode(string_of(&code))
                }
            },
            Route::Emotion => ToolStep::Reply(analyze_emotion(&t)),
        };
        Some(step)
    }
}


// ===================================================================
// Answers after the outside work
// ===================================================================

/// A plain answer that depends on whether the outside work succeeded: the
/// success prefix and text, or the failure prefix and the error.
pub open spec fn outcome_reply(
    ok_prefix: Seq<char>,
    ok_text: Seq<char>,
    err_prefix: Seq<char>,
    outcome: Result<(), Seq<char>>,
) -> ToolResultModel {
    match outcome {
        Ok(_) => simple(ok_prefix + ok_text),
        Err(e) => simple(err_prefix + e),
    }
}

pub open spec fn unit_outcome(o: Result<(), String>) -> Result<(), Seq<char>> {
    match o {
        Ok(_) => Ok(()),
        Err(e) => Err(e@),
    }
}

fn outcome_answer(ok_prefix: &str, ok_text: &str, err_prefix: &str, outcome: &Result<(), String>) -> (r:
    ToolResult)
    ensures
        r.model() == outcome_reply(ok_prefix@, ok_text@, err_prefix@, unit_outcome(*outcome)),
{
    match outcome {
        Ok(_) => simple_with_str(ok_prefix, ok_text),
        Err(e) => simple_with_str(err_prefix, e.as_str()),
    }
}

/// A tool's answer is given: it is spoken, it asks the language model exactly
/// when it carries a prompt, and one that asks the model holds no text of its
/// own.
pub open spec fn answer_is_given(m: ToolResultModel) -> bool {
    &&& m.1
    &&& (m.2 <==> m.3 is Some)
    &&& (m.2 ==> m.0.len() == 0)
}

/// Every answer that a tool function gives is given, whatever came of the
/// outside work: a plain answer (what each answer function returns, on success
/// and on failure) is spoken and asks nothing of the language model, and the
/// translation's answer asks the model with a prompt and no text of its own.
pub proof fn tool_answers_are_given(
    s: Seq<char>,
    ok_prefix: Seq<char>,
    ok_text: Seq<char>,
    err_prefix: Seq<char>,
    outcome: Result<(), Seq<char>>,
    t: Seq<char>,
)
    ensures
        answer_is_given(simple(s)),
        answer_is_given(outcome_reply(ok_prefix, ok_text, err_prefix, outcome)),
        answer_is_given(translate_result(t)),
{
}

/// With a database, a request that goes to the memory tool and holds "记住"
/// remembers what follows the first "记住", trimmed: "记住我喜欢喝咖啡"
/// remembers "我喜欢喝咖啡".
pub proof fn remembering_keeps_what_follows(tools: ToolRegistry, t: Seq<char>, step: ToolStep, p: int)
    requires
        tools.step_for(t, true, step),
        route(t) == Some(Route::Remember),
        find(t, "记住"@) == Some(p),
        trim(t.skip(p + 2)).len() > 0,
    ensures
        step matches ToolStep::Remember(c) && c@ == trim(t.skip(p + 2)),
{
}

/// Every answer that a plan carries, for any request, is given: the tools
/// never plan an answer that stays silent, and only the translation asks the
/// language model, with a prompt and no text of its own.
pub proof fn planned_answers_are_given(
    tools: ToolRegistry,
    t: Seq<char>,
    has_db: bool,
    step: ToolStep,
)
    requires
        tools.step_for(t, has_db, step),
    ensures
        step matches ToolStep::Reply(r) ==> answer_is_given(r.model()),
        step matches ToolStep::NoteThenReply(_, r) ==> answer_is_given(r.model()),
        step matches ToolStep::Reply(r) && r.needs_llm ==> route(t) == Some(Route::Translate),
{
}


impl ToolRegistry {
    /// The calculator's answer: "{expr} = {value}", or the evaluation error.
    pub fn calc_answer(expr: &str, value: &Result<String, String>) -> (r: ToolResult)
        ensures
            answer_is_given(r.model()),
            r.model() == match value {
                Ok(v) => simple(expr@ + " = "@ + v@),
                Err(e) => simple("计算错误: "@ + e@),
            },
    {
        match value {
            Ok(v) => {
                let mut out = chars_of(expr);
                extend_str(&mut out, " = ");
                extend_str(&mut out, v.as_str());
                simple_of(&out)
            },
            Err(e) => simple_with_str("计算错误: ", e.as_str()),
        }
    }

    /// The screenshot tool's answer, given where the picture went or why it failed.
    pub fn screenshot_answer(outcome: &Result<String, String>) -> (r: ToolResult)
        ensures
            answer_is_given(r.model()),
            r.model() == match outcome {
                Ok(p) => simple("截图已保存: "@ + p@),
                Err(e) => simple("截图失败: "@ + e@),
            },
    {
        match outcome {
            Ok(p) => simple_with_str("截图已保存: ", p.as_str()),
            Err(e) => simple_with_str("截图失败: ", e.as_str()),
        }
    }

    /// The system tool's answer after starting its command.
    pub fn system_answer(desc: &str, outcome: &Result<(), String>) -> (r: ToolResult)
        ensures
            answer_is_given(r.model()),
            r.model() == outcome_reply("已"@, desc@, "执行失败: "@, unit_outcome(*outcome)),
    {
        outcome_answer("已", desc, "执行失败: ", outcome)
    }

    /// The clipboard tool's answer, given the clipboard's (trimmed) text.
    pub fn clipboard_answer(outcome: &Result<String, String>) -> (r: ToolResult)
        ensures
            answer_is_given(r.model()),
            r.model() == match outcome {
                Ok(t) => if t@.len() == 0 {
                    simple("剪贴板是空的"@)
                } else {
                    simple("剪贴板："@ + t@)
                },
                Err(e) => simple("读取失败: "@ + e@),
            },
    {
        match outcome {
            Ok(t) => if t.as_str().is_empty() {
                ToolResult::simple("剪贴板是空的")
            } else {
                simple_with_str("剪贴板：", t.as_str())
            },
            Err(e) => simple_with_str("读取失败: ", e.as_str()),
        }
    }

    /// The note that clipboard text leaves in long-term memory.
    pub fn clipboard_note(t: &str) -> (n: MemoryNote)
        ensures
            n.content@ == t@,
            n.category@ == "clipboard"@,
            n.source@ == "system"@,
            n.importance_tenths == 3,
    {
        MemoryNote {
            content: t.to_owned(),
            category: "clipboard".to_owned(),
            source: "system".to_owned(),
            importance_tenths: 3,
        }
    }

    /// The answer after writing text to the clipboard.
    pub fn clipboard_write_answer(content: &str, outcome: &Result<(), String>) -> (r: ToolResult)
        ensures
            answer_is_given(r.model()),
            r.model() == outcome_reply("已复制："@, content@, "失败: "@, unit_outcome(*outcome)),
    {
        outcome_answer("已复制：", content, "失败: ", outcome)
    }

    /// The answer after showing a notification.
    pub fn notify_answer(message: &str, outcome: &Result<(), String>) -> (r: ToolResult)
        ensures
            answer_is_given(r.model()),
            r.model() == outcome_reply(
                "通知已发送："@,
                message@,
                "通知失败: "@,
                unit_outcome(*outcome),
            ),
    {
        outcome_answer("通知已发送：", message, "通知失败: ", outcome)
    }

    /// The web search's answer, given the formatted results or the error.
    pub fn search_answer(query: &str, outcome: &Result<String, String>) -> (r: ToolResult)
        ensures
            answer_is_given(r.model()),
            r.model() == match outcome {
                Ok(x) => if x@.len() == 0 {
                    simple("没找到「"@ + query@ + "」的结果"@)
                } else {
                    simple(x@)
                },
                Err(e) => simple("搜索失败: "@ + e@),
            },
    {
        match outcome {
            Ok(x) => if x.as_str().is_empty() {
                let mut v = chars_of("没找到「");
                extend_str(&mut v, query);
                extend_str(&mut v, "」的结果");
                simple_of(&v)
            } else {
                ToolResult::simple(x.as_str())
            },
            Err(e) => simple_with_str("搜索失败: ", e.as_str()),
        }
    }

    /// The answer after setting a reminder with the spoken delay `delay`.
    pub fn reminder_answer(delay: &str, outcome: &Result<(), String>) -> (r: ToolResult)
        ensures
            answer_is_given(r.model()),
            r.model() == outcome_reply(
                "好的，已设置提醒："@,
                reminder_confirmation(delay@),
                "设置失败: "@,
                unit_outcome(*outcome),
            ),
    {
        let mut v = chars_of("提醒事项（");
        extend_str(&mut v, delay);
        extend_str(&mut v, "）");
        let text = string_of(&v);
        outcome_answer("好的，已设置提醒：", text.as_str(), "设置失败: ", outcome)
    }

    /// The answer after saving a memory.
    pub fn remember_answer(content: &str, outcome: &Result<(), String>) -> (r: ToolResult)
        ensures
            answer_is_given(r.model()),
            r.model() == outcome_reply("好的，记住了："@, content@, "保存失败: "@, unit_outcome(*outcome)),
    {
        outcome_answer("好的，记住了：", content, "保存失败: ", outcome)
    }

    /// The note that a remembered text leaves in long-term memory.
    pub fn remember_note(content: &str) -> (n: MemoryNote)
        ensures
            n.content@ == content@,
            n.category@ == "preference"@,
            n.source@ == "user"@,
            n.importance_tenths == 5,
    {
        MemoryNote {
            content: content.to_owned(),
            category: "preference".to_owned(),
            source: "user".to_owned(),
            importance_tenths: 5,
        }
    }

    /// The answer after cancelling the pending reminders.
    pub fn cancel_answer(outcome: &Result<usize, String>) -> (r: ToolResult)
        ensures
            answer_is_given(r.model()),
            r.model() == match outcome {
                Ok(n) => simple("已取消"@ + dec(*n as nat) + "个提醒"@),
                Err(e) => simple("失败: "@ + e@),
            },
    {
        match outcome {
            Ok(n) => {
                let mut v = chars_of("已取消");
                let d = u64_chars(*n as u64);
                extend(&mut v, &d);
                extend_str(&mut v, "个提醒");
                simple_of(&v)
            },
            Err(e) => simple_with_str("失败: ", e.as_str()),
        }
    }
}

/// "- {time}: {message}" for each of the first five pending reminders.
pub open spec fn reminder_lines(rs: Seq<(Seq<char>, Seq<char>)>) -> Seq<Seq<char>> {
    Seq::new(
        if rs.len() < 5 {
            rs.len()
        } else {
            5
        },
        |i: int| "- "@ + rs[i].0 + ": "@ + rs[i].1,
    )
}

/// The reminder list: the count, then the first five reminders.
pub open spec fn reminders_reply(rs: Seq<(Seq<char>, Seq<char>)>) -> Seq<char> {
    if rs.len() == 0 {
        "没有提醒"@
    } else {
        join(seq![dec(rs.len()) + "个提醒："@] + reminder_lines(rs), "\n"@)
    }
}

pub open spec fn pairs_model(rs: Seq<(String, String)>) -> Seq<(Seq<char>, Seq<char>)> {
    rs.map_values(|p: (String, String)| (p.0@, p.1@))
}

/// "- [{category}] {content}" for each found memory.
pub open spec fn history_lines(rs: Seq<(Seq<char>, Seq<char>)>) -> Seq<Seq<char>> {
    Seq::new(rs.len(), |i: int| "- ["@ + rs[i].1 + "] "@ + rs[i].0)
}

/// The conversation search's answer for the found (content, category) pairs.
pub open spec fn history_reply(query: Seq<char>, rs: Seq<(Seq<char>, Seq<char>)>) -> Seq<char> {
    if rs.len() == 0 {
        "没找到关于「"@ + query + "」的对话记录"@
    } else {
        join(seq!["找到"@ + dec(rs.len()) + "条相关记录："@] + history_lines(rs), "\n"@)
    }
}

fn lines_after_head(head: Vec<char>, items: Vec<Vec<char>>) -> (r: Vec<char>)
    ensures
        r@ == join(seq![head@] + items@.map_values(|l: Vec<char>| l@), "\n"@),
{
    let mut all: Vec<Vec<char>> = Vec::new();
    let ghost h = head@;
    all.push(head);
    let mut i: usize = 0;
    while i < items.len()
        invariant
            i <= items.len(),
            all@.map_values(|l: Vec<char>| l@) == seq![h] + items@.map_values(|l: Vec<char>| l@).take(
                i as int,
            ),
        decreases items.len() - i,
    {
        let ghost before = all@.map_values(|l: Vec<char>| l@);
        let x = slice(&items[i], 0, items[i].len());
        all.push(x);
        assert(all@.map_values(|l: Vec<char>| l@) =~= before.push(x@));
        assert(items@.map_values(|l: Vec<char>| l@).take(i + 1) =~= items@.map_values(
            |l: Vec<char>| l@,
        ).take(i as int).push(items@[i as int]@));
        assert(x@ == items@[i as int]@);
        assert(all@.map_values(|l: Vec<char>| l@) =~= seq![h] + items@.map_values(|l: Vec<char>| l@).take(
            i + 1,
        ));
        i = i + 1;
    }
    assert(items@.map_values(|l: Vec<char>| l@).take(i as int) =~= items@.map_values(
        |l: Vec<char>| l@,
    ));
    let nl = chars_of("\n");
    join_chars(&all, &nl)
}

impl ToolRegistry {
    /// The reminder list's answer, given the pending (time, message) pairs.
    pub fn reminders_answer(outcome: &Result<Vec<(String, String)>, String>) -> (r: ToolResult)
        ensures
            answer_is_given(r.model()),
            r.model() == match outcome {
                Ok(rs) => simple(reminders_reply(pairs_model(rs@))),
                Err(e) => simple("查询失败: "@ + e@),
            },
    {
        match outcome {
            Err(e) => simple_with_str("查询失败: ", e.as_str()),
            Ok(rs) => {
                if rs.len() == 0 {
                    return ToolResult::simple("没有提醒");
                }
                let ghost pm = pairs_model(rs@);
                let mut head = u64_chars(rs.len() as u64);
                extend_str(&mut head, "个提醒：");
                let n: usize = if rs.len() < 5 {
                    rs.len()
                } else {
                    5
                };
                let mut items: Vec<Vec<char>> = Vec::new();
                let mut i: usize = 0;
                while i < n
                    invariant
                        i <= n <= rs.len(),
                        n == (if rs.len() < 5 {
                            rs.len()
                        } else {
                            5
                        }),
                        pm == pairs_model(rs@),
                        items@.map_values(|l: Vec<char>| l@) == reminder_lines(pm).take(i as int),
                    decreases n - i,
                {
                    let mut line = chars_of("- ");
                    extend_str(&mut line, rs[i].0.as_str());
                    extend_str(&mut line, ": ");
                    extend_str(&mut line, rs[i].1.as_str());
                    let ghost before = items@.map_values(|l: Vec<char>| l@);
                    assert(line@ == reminder_lines(pm)[i as int]);
                    items.push(line);
                    assert(items@.map_values(|l: Vec<char>| l@) =~= before.push(line@));
                    assert(reminder_lines(pm).take(i + 1) =~= reminder_lines(pm).take(i as int).push(
                        line@,
                    ));
                    i = i + 1;
                }
                assert(reminder_lines(pm).take(i as int) =~= reminder_lines(pm));
                let v = lines_after_head(head, items);
                simple_of(&v)
            },
        }
    }

    /// The conversation search's answer, given the found (content, category) pairs.
    pub fn history_answer(query: &str, outcome: &Result<Vec<(String, String)>, String>) -> (r:
        ToolResult)
        ensures
            answer_is_given(r.model()),
            r.model() == match outcome {
                Ok(rs) => simple(history_reply(query@, pairs_model(rs@))),
                Err(e) => simple("搜索失败: "@ + e@),
            },
    {
        match outcome {
            Err(e) => simple_with_str("搜索失败: ", e.as_str()),
            Ok(rs) => {
                if rs.len() == 0 {
                    let mut v = chars_of("没找到关于「");
                    extend_str(&mut v, query);
                    extend_str(&mut v, "」的对话记录");
                    return simple_of(&v);
                }
                let ghost pm = pairs_model(rs@);
                let mut head = chars_of("找到");
                let d = u64_chars(rs.len() as u64);
                extend(&mut head, &d);
                extend_str(&mut head, "条相关记录：");
                let mut items: Vec<Vec<char>> = Vec::new();
                let mut i: usize = 0;
                while i < rs.len()
                    invariant
                        i <= rs.len(),
                        pm == pairs_model(rs@),
                        items@.map_values(|l: Vec<char>| l@) == history_lines(pm).take(i as int),
                    decreases rs.len() - i,
                {
                    let mut line = chars_of("- [");
                    extend_str(&mut line, rs[i].1.as_str());
                    extend_str(&mut line, "] ");
                    extend_str(&mut line, rs[i].0.as_str());
                    let ghost before = items@.map_values(|l: Vec<char>| l@);
                    assert(line@ == history_lines(pm)[i as int]);
                    items.push(line);
                    assert(items@.map_values(|l: Vec<char>| l@) =~= before.push(line@));
                    assert(history_lines(pm).take(i + 1) =~= history_lines(pm).take(i as int).push(
                        line@,
                    ));
                    i = i + 1;
                }
                assert(history_lines(pm).take(i as int) =~= history_lines(pm));
                let v = lines_after_head(head, items);
                simple_of(&v)
            },
        }
    }
}


// ===================================================================
// Search results page
// ===================================================================

/// The title of the result that a line of the search page links to, or
/// nothing: the line must mention a result link, hold `href="`, a closing
/// quote after it, then `>` and `</a>`; the title between them is trimmed and
/// loses its `<b>` and `</b>` tags.
pub open spec fn result_text(line: Seq<char>) -> Seq<char> {
    let l = trim(line);
    if !(contains(l, "result-link"@) || contains(l, "result__a"@)) {
        Seq::empty()
    } else {
        match find(l, "href=\""@) {
            None => Seq::empty(),
            Some(s) => {
                let r = l.skip(s + 6);
                if find(r, "\""@) is None {
                    Seq::empty()
                } else {
                    match find(r, ">"@) {
                        None => Seq::empty(),
                        Some(ts) => match find(r.skip(ts), "</a>"@) {
                            None => Seq::empty(),
                            Some(te) => replace(
                                replace(trim(r.subrange(ts + 1, ts + te)), "<b>"@, ""@),
                                "</b>"@,
                                ""@,
                            ),
                        },
                    }
                }
            },
        }
    }
}

/// The non-empty result titles of the lines, in order.
pub open spec fn found_texts(ls: Seq<Seq<char>>) -> Seq<Seq<char>>
    decreases ls.len(),
{
    if ls.len() == 0 {
        seq![]
    } else {
        let x = result_text(ls.last());
        found_texts(ls.drop_last()) + if x.len() > 0 {
            seq![x]
        } else {
            Seq::<Seq<char>>::empty()
        }
    }
}

pub open spec fn first_five(f: Seq<Seq<char>>) -> Seq<Seq<char>> {
    f.take(
        if f.len() < 5 {
            f.len() as int
        } else {
            5
        },
    )
}

/// The numbered titles of the first five results of a page.
pub open spec fn search_items(html: Seq<char>) -> Seq<Seq<char>> {
    let f = first_five(found_texts(lines(html)));
    Seq::new(f.len(), |i: int| dec((i + 1) as nat) + ". "@ + f[i])
}

/// What the web search makes of a results page.
pub open spec fn search_page_text(html: Seq<char>) -> Seq<char> {
    if search_items(html).len() == 0 {
        "搜索解析失败"@
    } else {
        "搜索结果：\n"@ + join(search_items(html), "\n"@)
    }
}

fn result_text_of(line: &Vec<char>) -> (r: Vec<char>)
    ensures
        r@ == result_text(line@),
{
    proof {
        reveal_strlit("href=\"");
        reveal_strlit("<b>");
        reveal_strlit("</b>");
        reveal_strlit("</a>");
        reveal_strlit(">");
    }
    let l = trim_chars(line);
    if !(has(&l, "result-link") || has(&l, "result__a")) {
        return Vec::new();
    }
    let s = match find_str(&l, "href=\"") {
        None => {
            return Vec::new();
        },
        Some(s) => s,
    };
    proof {
        crate::text::lemma_find_from_bounds(l@, "href=\""@, 0);
        assert(match_at(l@, "href=\""@, s as int));
        assert("href=\""@.len() == 6);
        assert(s + 6 <= l.len());
    }
    let r = slice(&l, s + 6, l.len());
    assert(r@ =~= l@.skip(s + 6));
    if find_str(&r, "\"").is_none() {
        return Vec::new();
    }
    let ts = match find_str(&r, ">") {
        None => {
            return Vec::new();
        },
        Some(ts) => ts,
    };
    proof {
        crate::text::lemma_find_from_bounds(r@, ">"@, 0);
        assert(match_at(r@, ">"@, ts as int));
    }
    let tail = slice(&r, ts, r.len());
    assert(tail@ =~= r@.skip(ts as int));
    let te = match find_str(&tail, "</a>") {
        None => {
            return Vec::new();
        },
        Some(te) => te,
    };
    proof {
        crate::text::lemma_find_from_bounds(tail@, "</a>"@, 0);
        assert(match_at(tail@, "</a>"@, te as int));
        assert(tail@[0] == '>');
        if te == 0 {
            assert(tail@.subrange(0, 4)[0] == '<');
        }
    }
    let inner = slice(&r, ts + 1, ts + te);
    let trimmed = trim_chars(&inner);
    let a = replace_str(&trimmed, "<b>", "");
    replace_str(&a, "</b>", "")
}

proof fn lemma_first_five_step(a: Seq<Seq<char>>, x: Seq<Seq<char>>)
    requires
        x.len() <= 1,
    ensures
        first_five(a + x) == if a.len() < 5 {
            first_five(a) + x
        } else {
            first_five(a)
        },
{
    if a.len() < 5 {
        assert(first_five(a + x) =~= first_five(a) + x);
    } else {
        assert(first_five(a + x) =~= first_five(a));
    }
}

/// The web search's summary of a DuckDuckGo lite results page.
pub fn parse_search_page(html: &str) -> (r: String)
    ensures
        r@ == search_page_text(html@),
{
    let hc = chars_of(html);
    let ls = lines_of(&hc);
    let ghost lv = ls@.map_values(|l: Vec<char>| l@);
    let mut texts: Vec<Vec<char>> = Vec::new();
    let mut i: usize = 0;
    while i < ls.len()
        invariant
            i <= ls.len(),
            lv == ls@.map_values(|l: Vec<char>| l@),
            texts@.map_values(|l: Vec<char>| l@) == first_five(found_texts(lv.take(i as int))),
        decreases ls.len() - i,
    {
        let x = result_text_of(&ls[i]);
        let ghost prev = found_texts(lv.take(i as int));
        let ghost xs = if x@.len() > 0 {
            seq![x@]
        } else {
            Seq::<Seq<char>>::empty()
        };
        proof {
            assert(lv.take(i + 1).drop_last() =~= lv.take(i as int));
            assert(lv.take(i + 1).last() == ls@[i as int]@);
            assert(found_texts(lv.take(i + 1)) == prev + xs);
            lemma_first_five_step(prev, xs);
        }
        if x.len() > 0 && texts.len() < 5 {
            let ghost before = texts@.map_values(|l: Vec<char>| l@);
            texts.push(x);
            assert(texts@.map_values(|l: Vec<char>| l@) =~= before + xs);
        } else {
            proof {
                if x@.len() == 0 {
                    assert(prev + xs =~= prev);
                }
            }
        }
        i = i + 1;
    }
    assert(lv.take(ls.len() as int) =~= lv);
    let ghost f = first_five(found_texts(lv));
    if texts.len() == 0 {
        assert(search_items(html@).len() == 0);
        return "搜索解析失败".to_owned();
    }
    let mut items: Vec<Vec<char>> = Vec::new();
    let mut k: usize = 0;
    while k < texts.len()
        invariant
            k <= texts.len() <= 5,
            texts@.map_values(|l: Vec<char>| l@) == f,
            f == first_five(found_texts(lines(html@))),
            items@.map_values(|l: Vec<char>| l@) == search_items(html@).take(k as int),
        decreases texts.len() - k,
    {
        let mut item = numbered((k as u64) + 1);
        extend(&mut item, &texts[k]);
        let ghost before = items@.map_values(|l: Vec<char>| l@);
        assert(item@ == search_items(html@)[k as int]);
        items.push(item);
        assert(items@.map_values(|l: Vec<char>| l@) =~= before.push(item@));
        assert(search_items(html@).take(k + 1) =~= search_items(html@).take(k as int).push(item@));
        k = k + 1;
    }
    assert(search_items(html@).take(k as int) =~= search_items(html@));
    let nl = chars_of("\n");
    let body = join_chars(&items, &nl);
    let mut v = chars_of("搜索结果：\n");
    extend(&mut v, &body);
    string_of(&v)
}

// ===================================================================
// Export, code, scripts
// ===================================================================

/// One exported message: "**{icon}** [{time}]\n{text}\n\n".
pub open spec fn export_entry(role: Seq<char>, text: Seq<char>, time: Seq<char>) -> Seq<char> {
    "**"@ + (if role == "user"@ {
        "🎤"@
    } else {
        "🤖"@
    }) + "** ["@ + time + "]\n"@ + text + "\n\n"@
}

pub open spec fn export_entries(cs: Seq<(Seq<char>, Seq<char>, Seq<char>)>) -> Seq<char>
    decreases cs.len(),
{
    if cs.len() == 0 {
        seq![]
    } else {
        export_entries(cs.drop_last()) + export_entry(cs.last().0, cs.last().1, cs.last().2)
    }
}

/// The Markdown file that exports the conversation.
pub open spec fn export_markdown(time: Seq<char>, cs: Seq<(Seq<char>, Seq<char>, Seq<char>)>) -> Seq<
    char,
> {
    "# Mini 对话记录\n\n导出时间："@ + time + "\n\n---\n\n"@ + export_entries(cs)
}

pub open spec fn triples_model(cs: Seq<(String, String, String)>) -> Seq<
    (Seq<char>, Seq<char>, Seq<char>),
> {
    cs.map_values(|c: (String, String, String)| (c.0@, c.1@, c.2@))
}

impl ToolRegistry {
    /// The export file for the (role, text, time) messages, with the export time.
    pub fn export_content(time: &str, conversations: &Vec<(String, String, String)>) -> (r: String)
        ensures
            r@ == export_markdown(time@, triples_model(conversations@)),
    {
        let ghost cm = triples_model(conversations@);
        let mut v = chars_of("# Mini 对话记录\n\n导出时间：");
        extend_str(&mut v, time);
        extend_str(&mut v, "\n\n---\n\n");
        let ghost head = v@;
        let mut i: usize = 0;
        while i < conversations.len()
            invariant
                i <= conversations.len(),
                cm == triples_model(conversations@),
                v@ == head + export_entries(cm.take(i as int)),
            decreases conversations.len() - i,
        {
            let c = &conversations[i];
            extend_str(&mut v, "**");
            let role = chars_of(c.0.as_str());
            if same_str(&role, "user") {
                extend_str(&mut v, "🎤");
            } else {
                extend_str(&mut v, "🤖");
            }
            extend_str(&mut v, "** [");
            extend_str(&mut v, c.2.as_str());
            extend_str(&mut v, "]\n");
            extend_str(&mut v, c.1.as_str());
            extend_str(&mut v, "\n\n");
            assert(cm.take(i + 1).drop_last() =~= cm.take(i as int));
            assert(v@ =~= head + export_entries(cm.take(i + 1)));
            i = i + 1;
        }
        assert(cm.take(i as int) =~= cm);
        string_of(&v)
    }

    /// The export's answer: where the file went, or why saving failed.
    pub fn export_answer(outcome: &Result<String, String>) -> (r: ToolResult)
        ensures
            answer_is_given(r.model()),
            r.model() == match outcome {
                Ok(p) => simple("已导出: "@ + p@),
                Err(e) => simple("保存失败: "@ + e@),
            },
    {
        match outcome {
            Ok(p) => simple_with_str("已导出: ", p.as_str()),
            Err(e) => simple_with_str("保存失败: ", e.as_str()),
        }
    }

    /// The export's answer when reading the conversations failed.
    pub fn export_read_error(e: &str) -> (r: ToolResult)
        ensures
            answer_is_given(r.model()),
            r.model() == simple("导出失败: "@ + e@),
    {
        simple_with_str("导出失败: ", e)
    }
}

/// What the code tool shows of a run: the output cut after 500 bytes with
/// "...", or the error output.
pub open spec fn code_reply(success: bool, stdout: Seq<char>, stderr: Seq<char>) -> Seq<char> {
    if success {
        "✅ 执行结果：\n"@ + if utf8_len(stdout) > 500 {
            stdout.take(char_boundary_at(stdout, 500)->0) + "..."@
        } else {
            stdout
        }
    } else {
        "❌ 执行错误：\n"@ + stderr
    }
}

/// The code tool's answer computes without fault: long output is cut at a
/// character boundary.
pub open spec fn code_reply_defined(success: bool, stdout: Seq<char>) -> bool {
    success && utf8_len(stdout) > 500 ==> char_boundary_at(stdout, 500) is Some
}

impl ToolRegistry {
    /// Whether the code tool's answer computes without fault.
    pub fn code_answer_is_defined(success: bool, stdout: &str) -> (b: bool)
        ensures
            b == code_reply_defined(success, stdout@),
    {
        if !success {
            return true;
        }
        let out = chars_of(stdout);
        if !utf8_len_exceeds(&out, 500) {
            return true;
        }
        match boundary_index(&out, 500) {
            Some(k) => {
                proof {
                    lemma_boundary_unique(out@, k as int, 500);
                }
                true
            },
            None => false,
        }
    }

    /// The code tool's answer, given (success, output, error output) or the
    /// error that kept the program from running.
    pub fn code_answer(outcome: &Result<(bool, String, String), String>) -> (r: ToolResult)
        requires
            outcome matches Ok(o) ==> code_reply_defined(o.0, o.1@),
        ensures
            answer_is_given(r.model()),
            r.model() == match outcome {
                Ok(o) => simple(code_reply(o.0, o.1@, o.2@)),
                Err(e) => simple("执行失败: "@ + e@),
            },
    {
        match outcome {
            Err(e) => simple_with_str("执行失败: ", e.as_str()),
            Ok(o) => {
                if !o.0 {
                    return simple_with_str("❌ 执行错误：\n", o.2.as_str());
                }
                let out = chars_of(o.1.as_str());
                if utf8_len_exceeds(&out, 500) {
                    match boundary_index(&out, 500) {
                        Some(k) => {
                            proof {
                                lemma_boundary_unique(out@, k as int, 500);
                            }
                            let mut cut = slice(&out, 0, k);
                            extend_str(&mut cut, "...");
                            simple_with("✅ 执行结果：\n", &cut)
                        },
                        None => {
                            assert(false);
                            simple_with("✅ 执行结果：\n", &out)
                        },
                    }
                } else {
                    simple_with("✅ 执行结果：\n", &out)
                }
            },
        }
    }
}

/// The PowerShell script that saves a screenshot to `path`, with each
/// backslash of the path doubled.
pub open spec fn screenshot_script(path: Seq<char>) -> Seq<char> {
    "Add-Type -AssemblyName System.Windows.Forms,System.Drawing;$s=[System.Windows.Forms.Screen]::PrimaryScreen.Bounds;$b=New-Object System.Drawing.Bitmap($s.Width,$s.Height);$g=[System.Drawing.Graphics]::FromImage($b);$g.CopyFromScreen($s.Location,[System.Drawing.Point]::Empty,$s.Size);$b.Save('"@
        + replace(path, "\\"@, "\\\\"@) + "');$g.Dispose();$b.Dispose()"@
}

/// The PowerShell command that puts text on the clipboard, each quote doubled.
pub open spec fn clipboard_script(t: Seq<char>) -> Seq<char> {
    "Set-Clipboard -Value '"@ + replace(t, "'"@, "''"@) + "'"@
}

impl ToolRegistry {
    pub fn screenshot_script(path: &str) -> (s: String)
        ensures
            s@ == screenshot_script(path@),
    {
        proof {
            reveal_strlit("\\");
        }
        let p = chars_of(path);
        let esc = replace_str(&p, "\\", "\\\\");
        let mut v = chars_of(
            "Add-Type -AssemblyName System.Windows.Forms,System.Drawing;$s=[System.Windows.Forms.Screen]::PrimaryScreen.Bounds;$b=New-Object System.Drawing.Bitmap($s.Width,$s.Height);$g=[System.Drawing.Graphics]::FromImage($b);$g.CopyFromScreen($s.Location,[System.Drawing.Point]::Empty,$s.Size);$b.Save('",
        );
        extend(&mut v, &esc);
        extend_str(&mut v, "');$g.Dispose();$b.Dispose()");
        string_of(&v)
    }

    pub fn clipboard_script(t: &str) -> (s: String)
        ensures
            s@ == clipboard_script(t@),
    {
        proof {
            reveal_strlit("'");
        }
        let c = chars_of(t);
        let esc = replace_str(&c, "'", "''");
        let mut v = chars_of("Set-Clipboard -Value '");
        extend(&mut v, &esc);
        extend_str(&mut v, "'");
        string_of(&v)
    }
}

} // verus!
