//! The chat window's logic: the status texts of each state, the markdown
//! reader that turns an assistant reply into display lines, and the texts
//! that the input box and the history list show.
pub mod tray;

use vstd::prelude::*;

use crate::text::{
    begins_with, byte_cuttable, byte_prefix, byte_prefix_of, chars_of, contains, ends_with,
    extend, extend_str, finishes_with, has, is_digit, is_digit_char, lines, lines_of, same_str,
    slice, split_chars, split_on, starts_with, string_of, trim, trim_chars, trim_str,
};

verus! {

/// One message of the chat window.
#[derive(Debug, Clone)]
pub struct ChatMessage {
    pub role: String,
    pub content: String,
    pub timestamp: String,
}

/// What the assistant is doing.
#[derive(Debug, Clone, PartialEq)]
pub enum AppState {
    Idle,
    Listening,
    Transcribing,
    Thinking,
    Speaking,
    Error(String),
}

/// What the window shows of the conversation: the assistant's state, the
/// status line, and the messages.
pub struct ChatState {
    pub state: AppState,
    pub status_message: String,
    pub chat_history: Vec<ChatMessage>,
    pub scroll_to_bottom: bool,
}

/// A message as (role, content, time of day).
pub open spec fn message_model(m: ChatMessage) -> (Seq<char>, Seq<char>, Seq<char>) {
    (m.role@, m.content@, m.timestamp@)
}

pub open spec fn history_model(h: Seq<ChatMessage>) -> Seq<(Seq<char>, Seq<char>, Seq<char>)> {
    h.map_values(|m: ChatMessage| message_model(m))
}

impl ChatState {
    /// An idle window without messages.
    pub fn new() -> (c: Self)
        ensures
            c.state == AppState::Idle,
            c.status_message@ == status_text(AppState::Idle),
            c.chat_history@.len() == 0,
            c.scroll_to_bottom,
    {
        ChatState {
            state: AppState::Idle,
            status_message: status_message(&AppState::Idle),
            chat_history: Vec::new(),
            scroll_to_bottom: true,
        }
    }

    /// Enters a state; the status line follows it.
    pub fn set_state(&mut self, state: AppState)
        ensures
            final(self).state == state,
            final(self).status_message@ == status_text(state),
            history_model(final(self).chat_history@) == history_model(old(self).chat_history@),
            final(self).scroll_to_bottom == old(self).scroll_to_bottom,
    {
        self.status_message = status_message(&state);
        self.state = state;
    }

    /// Adds a message at the end and scrolls to it.
    pub fn add_message(&mut self, role: &str, content: &str, timestamp: String)
        ensures
            history_model(final(self).chat_history@) == history_model(old(self).chat_history@).push(
                (role@, content@, timestamp@),
            ),
            final(self).scroll_to_bottom,
            final(self).state == old(self).state,
            final(self).status_message@ == old(self).status_message@,
    {
        let ghost before = history_model(self.chat_history@);
        self.chat_history.push(
            ChatMessage { role: role.to_owned(), content: content.to_owned(), timestamp },
        );
        assert(history_model(self.chat_history@) =~= before.push((role@, content@, timestamp@)));
        self.scroll_to_bottom = true;
    }
}

// ===================================================================
// Status texts
// ===================================================================

/// The status line shown for each state.
pub open spec fn status_text(state: AppState) -> Seq<char> {
    match state {
        AppState::Idle => "就绪"@,
        AppState::Listening => "🎤 正在监听..."@,
        AppState::Transcribing => "📝 正在识别语音..."@,
        AppState::Thinking => "🧠 正在思考..."@,
        AppState::Speaking => "🔊 正在播放..."@,
        AppState::Error(msg) => "❌ 错误: "@ + msg@,
    }
}

/// The status line for a state.
pub fn status_message(state: &AppState) -> (r: String)
    ensures
        r@ == status_text(*state),
{
    match state {
        AppState::Idle => "就绪".to_owned(),
        AppState::Listening => "🎤 正在监听...".to_owned(),
        AppState::Transcribing => "📝 正在识别语音...".to_owned(),
        AppState::Thinking => "🧠 正在思考...".to_owned(),
        AppState::Speaking => "🔊 正在播放...".to_owned(),
        AppState::Error(msg) => {
            let mut v: Vec<char> = Vec::new();
            extend_str(&mut v, "❌ 错误: ");
            extend_str(&mut v, msg.as_str());
            string_of(&v)
        },
    }
}

/// The badge of the status bar for each state.
pub open spec fn badge_text(state: AppState) -> Seq<char> {
    match state {
        AppState::Idle => "● 就绪"@,
        AppState::Listening => "● 监听中"@,
        AppState::Transcribing => "● 识别中"@,
        AppState::Thinking => "● 思考中"@,
        AppState::Speaking => "● 播放中"@,
        AppState::Error(_) => "● 错误"@,
    }
}

/// The badge of the status bar for a state.
pub fn status_badge(state: &AppState) -> (r: &'static str)
    ensures
        r@ == badge_text(*state),
{
    match state {
        AppState::Idle => "● 就绪",
        AppState::Listening => "● 监听中",
        AppState::Transcribing => "● 识别中",
        AppState::Thinking => "● 思考中",
        AppState::Speaking => "● 播放中",
        AppState::Error(_) => "● 错误",
    }
}

// ===================================================================
// Markdown
// ===================================================================

/// A word of a plain markdown line.
#[derive(Debug, Clone)]
pub enum MdWord {
    Strong(String),
    Code(String),
    Plain(String),
}

/// A display line of a markdown reply.
#[derive(Debug, Clone)]
pub enum MdLine {
    Heading(String),
    Bold(String),
    Bullet(String),
    Numbered(String),
    Fence,
    Quote(String),
    Rule,
    Words(Vec<MdWord>),
    Blank,
}

pub enum WordModel {
    Strong(Seq<char>),
    Code(Seq<char>),
    Plain(Seq<char>),
}

pub enum LineModel {
    Heading(Seq<char>),
    Bold(Seq<char>),
    Bullet(Seq<char>),
    Numbered(Seq<char>),
    Fence,
    Quote(Seq<char>),
    Rule,
    Words(Seq<WordModel>),
    Blank,
}

impl MdWord {
    pub open spec fn model(&self) -> WordModel {
        match self {
            MdWord::Strong(s) => WordModel::Strong(s@),
            MdWord::Code(s) => WordModel::Code(s@),
            MdWord::Plain(s) => WordModel::Plain(s@),
        }
    }
}

impl MdLine {
    pub open spec fn model(&self) -> LineModel {
        match self {
            MdLine::Heading(s) => LineModel::Heading(s@),
            MdLine::Bold(s) => LineModel::Bold(s@),
            MdLine::Bullet(s) => LineModel::Bullet(s@),
            MdLine::Numbered(s) => LineModel::Numbered(s@),
            MdLine::Fence => LineModel::Fence,
            MdLine::Quote(s) => LineModel::Quote(s@),
            MdLine::Rule => LineModel::Rule,
            MdLine::Words(ws) => LineModel::Words(ws@.map_values(|w: MdWord| w.model())),
            MdLine::Blank => LineModel::Blank,
        }
    }
}

/// Where the text of a heading starts: after "### ", "## " or "# ", and 0
/// for a line that is no heading.
pub open spec fn heading_cut(l: Seq<char>) -> int {
    if starts_with(l, "### "@) {
        4
    } else if starts_with(l, "## "@) {
        3
    } else if starts_with(l, "# "@) {
        2
    } else {
        0
    }
}

pub open spec fn is_bold_line(l: Seq<char>) -> bool {
    starts_with(l, "**"@) && ends_with(l, "**"@)
}

pub open spec fn is_bullet_line(l: Seq<char>) -> bool {
    starts_with(l, "- "@) || starts_with(l, "* "@)
}

pub open spec fn is_numbered_line(l: Seq<char>) -> bool {
    l.len() > 0 && is_digit(l[0]) && contains(l, ". "@)
}

pub open spec fn is_fence_line(l: Seq<char>) -> bool {
    starts_with(l, "```"@)
}

pub open spec fn is_quote_line(l: Seq<char>) -> bool {
    starts_with(l, "> "@)
}

pub open spec fn is_rule_line(l: Seq<char>) -> bool {
    l == "---"@ || l == "***"@ || l == "___"@
}

pub open spec fn is_strong_word(w: Seq<char>) -> bool {
    starts_with(w, "**"@) && ends_with(w, "**"@)
}

pub open spec fn is_code_word(w: Seq<char>) -> bool {
    starts_with(w, "`"@) && ends_with(w, "`"@)
}

/// A word between single spaces: `**strong**`, `` `code` `` or plain.
pub open spec fn word_model(w: Seq<char>) -> WordModel {
    if is_strong_word(w) {
        WordModel::Strong(w.subrange(2, w.len() - 2))
    } else if is_code_word(w) {
        WordModel::Code(w.subrange(1, w.len() - 1))
    } else {
        WordModel::Plain(w)
    }
}

/// A word whose markers do not overlap: "**", "***" and "`" alone are not.
pub open spec fn word_renders(w: Seq<char>) -> bool {
    if is_strong_word(w) {
        w.len() >= 4
    } else if is_code_word(w) {
        w.len() >= 2
    } else {
        true
    }
}

/// Whether a trimmed line is read word by word.
pub open spec fn is_words_line(l: Seq<char>) -> bool {
    heading_cut(l) == 0 && !is_bold_line(l) && !is_bullet_line(l) && !is_numbered_line(l)
        && !is_fence_line(l) && !is_quote_line(l) && !is_rule_line(l) && l.len() > 0
}

/// What a trimmed line shows, tested in this order: a heading, a bold line,
/// a bullet, a numbered item, a code fence, a quote, a rule, a line of words,
/// and an empty line.
pub open spec fn line_model(l: Seq<char>) -> LineModel {
    if heading_cut(l) > 0 {
        LineModel::Heading(l.subrange(heading_cut(l), l.len() as int))
    } else if is_bold_line(l) {
        LineModel::Bold(l.subrange(2, l.len() - 2))
    } else if is_bullet_line(l) {
        LineModel::Bullet(l.subrange(2, l.len() as int))
    } else if is_numbered_line(l) {
        LineModel::Numbered(l)
    } else if is_fence_line(l) {
        LineModel::Fence
    } else if is_quote_line(l) {
        LineModel::Quote(l.subrange(2, l.len() as int))
    } else if is_rule_line(l) {
        LineModel::Rule
    } else if l.len() > 0 {
        LineModel::Words(split_on(l, ' ').map_values(|w: Seq<char>| word_model(w)))
    } else {
        LineModel::Blank
    }
}

/// A trimmed line whose markers do not overlap: a bold line of fewer than four
/// characters ("**", "***") and a plain line with such a word cannot be shown.
pub open spec fn line_renders(l: Seq<char>) -> bool {
    if heading_cut(l) > 0 {
        true
    } else if is_bold_line(l) {
        l.len() >= 4
    } else if is_words_line(l) {
        forall|k: int|
            0 <= k < split_on(l, ' ').len() ==> word_renders(#[trigger] split_on(l, ' ')[k])
    } else {
        true
    }
}

/// Every line of the text, trimmed, can be shown.
pub open spec fn markdown_renders(text: Seq<char>) -> bool {
    forall|k: int| 0 <= k < lines(text).len() ==> line_renders(trim(#[trigger] lines(text)[k]))
}

/// The display lines of a text: one per line, each line trimmed.
pub open spec fn markdown_model(text: Seq<char>) -> Seq<LineModel> {
    lines(text).map_values(|l: Seq<char>| line_model(trim(l)))
}

/// A reply shows as exactly one display line per line of its text.
pub proof fn one_display_line_per_line(text: Seq<char>)
    ensures
        markdown_model(text).len() == lines(text).len(),
{
}

fn reveal_markers()
    ensures
        "### "@ =~= seq!['#', '#', '#', ' '],
        "## "@ =~= seq!['#', '#', ' '],
        "# "@ =~= seq!['#', ' '],
        "**"@ =~= seq!['*', '*'],
        "- "@ =~= seq!['-', ' '],
        "* "@ =~= seq!['*', ' '],
        ". "@ =~= seq!['.', ' '],
        "```"@ =~= seq!['`', '`', '`'],
        "> "@ =~= seq!['>', ' '],
        "---"@ =~= seq!['-', '-', '-'],
        "***"@ =~= seq!['*', '*', '*'],
        "___"@ =~= seq!['_', '_', '_'],
        "`"@ =~= seq!['`'],
{
    proof {
        reveal_strlit("### ");
        reveal_strlit("## ");
        reveal_strlit("# ");
        reveal_strlit("**");
        reveal_strlit("- ");
        reveal_strlit("* ");
        reveal_strlit(". ");
        reveal_strlit("```");
        reveal_strlit("> ");
        reveal_strlit("---");
        reveal_strlit("***");
        reveal_strlit("___");
        reveal_strlit("`");
    }
}

fn word_kind(w: &Vec<char>) -> (r: (bool, bool))
    ensures
        r.0 == is_strong_word(w@),
        r.1 == is_code_word(w@),
{
    let strong = begins_with(w, "**") && finishes_with(w, "**");
    let code = begins_with(w, "`") && finishes_with(w, "`");
    (strong, code)
}

/// Whether a word can be shown.
pub fn word_ok(w: &Vec<char>) -> (b: bool)
    ensures
        b == word_renders(w@),
{
    reveal_markers();
    let (strong, code) = word_kind(w);
    if strong {
        w.len() >= 4
    } else if code {
        w.len() >= 2
    } else {
        true
    }
}

/// Reads one word of a plain line.
pub fn markdown_word(w: &Vec<char>) -> (r: MdWord)
    requires
        word_renders(w@),
    ensures
        r.model() == word_model(w@),
{
    reveal_markers();
    let (strong, code) = word_kind(w);
    if strong {
        MdWord::Strong(string_of(&slice(w, 2, w.len() - 2)))
    } else if code {
        MdWord::Code(string_of(&slice(w, 1, w.len() - 1)))
    } else {
        MdWord::Plain(string_of(w))
    }
}

/// The tests that decide a line's kind, in the order in which they are made.
fn line_kind(l: &Vec<char>) -> (r: (usize, bool, bool, bool, bool, bool, bool))
    ensures
        r.0 == heading_cut(l@),
        r.1 == is_bold_line(l@),
        r.2 == is_bullet_line(l@),
        r.3 == is_numbered_line(l@),
        r.4 == is_fence_line(l@),
        r.5 == is_quote_line(l@),
        r.6 == is_rule_line(l@),
{
    reveal_markers();
    let cut: usize = if begins_with(l, "### ") {
        4
    } else if begins_with(l, "## ") {
        3
    } else if begins_with(l, "# ") {
        2
    } else {
        0
    };
    let bold = begins_with(l, "**") && finishes_with(l, "**");
    let bullet = begins_with(l, "- ") || begins_with(l, "* ");
    let numbered = l.len() > 0 && is_digit_char(l[0]) && has(l, ". ");
    let fence = begins_with(l, "```");
    let quote = begins_with(l, "> ");
    let rule = same_str(l, "---") || same_str(l, "***") || same_str(l, "___");
    (cut, bold, bullet, numbered, fence, quote, rule)
}

/// Whether a trimmed line can be shown.
pub fn line_ok(l: &Vec<char>) -> (b: bool)
    ensures
        b == line_renders(l@),
{
    let (cut, bold, bullet, numbered, fence, quote, rule) = line_kind(l);
    if cut > 0 {
        return true;
    }
    if bold {
        return l.len() >= 4;
    }
    if bullet || numbered || fence || quote || rule || l.len() == 0 {
        return true;
    }
    let ws = split_chars(l, ' ');
    let ghost pieces = split_on(l@, ' ');
    let mut i: usize = 0;
    while i < ws.len()
        invariant
            i <= ws.len(),
            ws@.map_values(|p: Vec<char>| p@) == pieces,
            pieces == split_on(l@, ' '),
            is_words_line(l@),
            forall|k: int| 0 <= k < i ==> word_renders(#[trigger] pieces[k]),
        decreases ws.len() - i,
    {
        assert(pieces[i as int] == ws@[i as int]@);
        if !word_ok(&ws[i]) {
            return false;
        }
        i = i + 1;
    }
    true
}

/// Reads one trimmed line of a markdown reply.
pub fn markdown_line(l: &Vec<char>) -> (r: MdLine)
    requires
        line_renders(l@),
    ensures
        r.model() == line_model(l@),
{
    reveal_markers();
    let (cut, bold, bullet, numbered, fence, quote, rule) = line_kind(l);
    let n = l.len();
    if cut > 0 {
        return MdLine::Heading(string_of(&slice(l, cut, n)));
    }
    if bold {
        return MdLine::Bold(string_of(&slice(l, 2, n - 2)));
    }
    if bullet {
        return MdLine::Bullet(string_of(&slice(l, 2, n)));
    }
    if numbered {
        return MdLine::Numbered(string_of(l));
    }
    if fence {
        return MdLine::Fence;
    }
    if quote {
        return MdLine::Quote(string_of(&slice(l, 2, n)));
    }
    if rule {
        return MdLine::Rule;
    }
    if n == 0 {
        return MdLine::Blank;
    }
    let ws = split_chars(l, ' ');
    let ghost pieces = split_on(l@, ' ');
    let mut out: Vec<MdWord> = Vec::new();
    let mut i: usize = 0;
    while i < ws.len()
        invariant
            i <= ws.len(),
            ws@.map_values(|p: Vec<char>| p@) == pieces,
            pieces == split_on(l@, ' '),
            forall|k: int| 0 <= k < pieces.len() ==> word_renders(#[trigger] pieces[k]),
            out@.map_values(|w: MdWord| w.model()) == pieces.take(i as int).map_values(
                |w: Seq<char>| word_model(w),
            ),
        decreases ws.len() - i,
    {
        assert(pieces[i as int] == ws@[i as int]@);
        let w = markdown_word(&ws[i]);
        let ghost before = out@.map_values(|w: MdWord| w.model());
        out.push(w);
        assert(out@.map_values(|w: MdWord| w.model()) =~= before.push(w.model()));
        assert(pieces.take(i + 1).map_values(|w: Seq<char>| word_model(w)) =~= pieces.take(
            i as int,
        ).map_values(|w: Seq<char>| word_model(w)).push(word_model(pieces[i as int])));
        i = i + 1;
    }
    assert(pieces.take(ws.len() as int) =~= pieces);
    MdLine::Words(out)
}

/// Whether every line of a reply can be shown.
pub fn can_render_markdown(text: &str) -> (b: bool)
    ensures
        b == markdown_renders(text@),
{
    let c = chars_of(text);
    let ls = lines_of(&c);
    let ghost all = lines(text@);
    let mut i: usize = 0;
    while i < ls.len()
        invariant
            i <= ls.len(),
            ls@.map_values(|l: Vec<char>| l@) == all,
            all == lines(text@),
            forall|k: int| 0 <= k < i ==> line_renders(trim(#[trigger] all[k])),
        decreases ls.len() - i,
    {
        assert(all[i as int] == ls@[i as int]@);
        let t = trim_chars(&ls[i]);
        if !line_ok(&t) {
            return false;
        }
        i = i + 1;
    }
    true
}

/// Reads a markdown reply into display lines.
pub fn render_markdown(text: &str) -> (r: Vec<MdLine>)
    requires
        markdown_renders(text@),
    ensures
        r@.map_values(|x: MdLine| x.model()) == markdown_model(text@),
{
    let c = chars_of(text);
    let ls = lines_of(&c);
    let ghost all = lines(text@);
    let mut out: Vec<MdLine> = Vec::new();
    let mut i: usize = 0;
    while i < ls.len()
        invariant
            i <= ls.len(),
            ls@.map_values(|l: Vec<char>| l@) == all,
            all == lines(text@),
            markdown_renders(text@),
            out@.map_values(|x: MdLine| x.model()) == all.take(i as int).map_values(
                |l: Seq<char>| line_model(trim(l)),
            ),
        decreases ls.len() - i,
    {
        assert(all[i as int] == ls@[i as int]@);
        let t = trim_chars(&ls[i]);
        let x = markdown_line(&t);
        let ghost before = out@.map_values(|x: MdLine| x.model());
        out.push(x);
        assert(out@.map_values(|x: MdLine| x.model()) =~= before.push(x.model()));
        assert(all.take(i + 1).map_values(|l: Seq<char>| line_model(trim(l))) =~= all.take(
            i as int,
        ).map_values(|l: Seq<char>| line_model(trim(l))).push(line_model(trim(all[i as int]))));
        i = i + 1;
    }
    assert(all.take(ls.len() as int) =~= all);
    out
}

// ===================================================================
// Input box and history list
// ===================================================================

/// What the input box sends: its text trimmed, or nothing when that is empty.
pub fn submitted_text(input: &str) -> (r: Option<String>)
    ensures
        r is None <==> trim(input@).len() == 0,
        r matches Some(s) ==> s@ == trim(input@),
{
    let t = trim_str(input);
    if t.len() == 0 {
        None
    } else {
        Some(string_of(&t))
    }
}

/// The speaker's label above a message.
pub open spec fn speaker_text(role: Seq<char>) -> Seq<char> {
    if role == "user"@ {
        "👤 你"@
    } else if role == "system"@ {
        "ℹ️ 系统"@
    } else {
        "🤖 Mini"@
    }
}

/// The icon of a message in the history list.
pub open spec fn history_icon(role: Seq<char>) -> Seq<char> {
    if role == "user"@ {
        "👤"@
    } else if role == "system"@ {
        "ℹ️"@
    } else {
        "🤖"@
    }
}

/// The speaker's label and the time above a message: "label [time]".
pub fn message_header(msg: &ChatMessage) -> (r: String)
    ensures
        r@ == speaker_text(msg.role@) + " ["@ + msg.timestamp@ + "]"@,
{
    let role = chars_of(msg.role.as_str());
    let mut v: Vec<char> = Vec::new();
    if same_str(&role, "user") {
        extend_str(&mut v, "👤 你");
    } else if same_str(&role, "system") {
        extend_str(&mut v, "ℹ️ 系统");
    } else {
        extend_str(&mut v, "🤖 Mini");
    }
    extend_str(&mut v, " [");
    extend_str(&mut v, msg.timestamp.as_str());
    extend_str(&mut v, "]");
    string_of(&v)
}

/// The line of a message in the history list: "icon [time] preview".
pub fn history_line(msg: &ChatMessage) -> (r: String)
    requires
        byte_cuttable(msg.content@, 100),
    ensures
        r@ == history_icon(msg.role@) + " ["@ + msg.timestamp@ + "] "@ + byte_prefix(
            msg.content@,
            100,
        ),
{
    let role = chars_of(msg.role.as_str());
    let content = chars_of(msg.content.as_str());
    let mut v: Vec<char> = Vec::new();
    if same_str(&role, "user") {
        extend_str(&mut v, "👤");
    } else if same_str(&role, "system") {
        extend_str(&mut v, "ℹ️");
    } else {
        extend_str(&mut v, "🤖");
    }
    extend_str(&mut v, " [");
    extend_str(&mut v, msg.timestamp.as_str());
    extend_str(&mut v, "] ");
    let shown = byte_prefix_of(&content, 100);
    extend(&mut v, &shown);
    string_of(&v)
}

} // verus!
