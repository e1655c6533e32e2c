//! The conversation core: the short-term history and its bound, the turn
//! counter that decides when memories are extracted and when the wake word
//! is needed again, and the texts and decisions of a conversation turn.
use vstd::prelude::*;

use crate::agent::persona::AgentPersona;
use crate::agent::tools::{MemoryNote, ToolResult, ToolResultModel};
use crate::llm::rig_client::{messages_model, ChatMessage};
use crate::memory::database::MemoryStats;
use crate::memory::rag::scored_view;
use crate::text::{
    begins_with, byte_cuttable, concat_all, lemma_concat_push, byte_prefix, byte_prefix_of,
    chars_of, dec, extend, extend_str, find, find_str, join, join_chars, lemma_ascii_utf8_len,
    lemma_boundary_unique, lines, lines_of, same_str, slice, string_of, trim, trim_chars, trim_str,
    u128_chars, u64_chars, utf8_len, utf8_len_exceeds,
};

verus! {

// ===================================================================
// History and turns
// ===================================================================

/// The last `max` items of a sequence, or all of them when there are no more.
pub open spec fn keep_recent<T>(h: Seq<T>, max: nat) -> Seq<T> {
    if h.len() > max {
        h.skip(h.len() - max)
    } else {
        h
    }
}

/// Messages as (role, content) pairs.
pub open spec fn pairs_view(v: Seq<(String, String)>) -> Seq<(Seq<char>, Seq<char>)> {
    v.map_values(|p: (String, String)| (p.0@, p.1@))
}

/// The state of a conversation between turns.
pub struct ConversationCore {
    history: Vec<ChatMessage>,
    max_history_turns: usize,
    extract_interval: usize,
    turn_count: usize,
    running: bool,
}

impl ConversationCore {
    /// The short-term history, oldest first, as (role, content) pairs.
    pub closed spec fn messages(&self) -> Seq<(Seq<char>, Seq<char>)> {
        messages_model(self.history@)
    }

    /// The number of turns (a user message and its answer) the history keeps.
    pub closed spec fn max_turns(&self) -> nat {
        self.max_history_turns as nat
    }

    /// Every how many turns memories are extracted.
    pub closed spec fn interval(&self) -> nat {
        self.extract_interval as nat
    }

    /// The turns since the wake word was last needed.
    pub closed spec fn turns(&self) -> nat {
        self.turn_count as nat
    }

    pub closed spec fn running(&self) -> bool {
        self.running
    }

    /// The doubled limits fit in a `usize`.
    pub closed spec fn wf(&self) -> bool {
        self.max_history_turns * 2 <= usize::MAX && self.extract_interval * 2 <= usize::MAX
    }

    /// A conversation with an empty history that is not running.
    pub fn new(max_history_turns: usize, extract_interval: usize) -> (c: Self)
        requires
            max_history_turns * 2 <= usize::MAX,
            extract_interval * 2 <= usize::MAX,
        ensures
            c.wf(),
            c.messages() == Seq::<(Seq<char>, Seq<char>)>::empty(),
            c.max_turns() == max_history_turns,
            c.interval() == extract_interval,
            c.turns() == 0,
            !c.running(),
    {
        ConversationCore {
            history: Vec::new(),
            max_history_turns,
            extract_interval,
            turn_count: 0,
            running: false,
        }
    }

    /// The short-term history.
    pub fn history(&self) -> (h: &Vec<ChatMessage>)
        ensures
            messages_model(h@) == self.messages(),
    {
        &self.history
    }

    pub fn turn_count(&self) -> (n: usize)
        ensures
            n == self.turns(),
    {
        self.turn_count
    }

    pub fn is_running(&self) -> (b: bool)
        ensures
            b == self.running(),
    {
        self.running
    }

    /// Marks the conversation as running.
    pub fn start(&mut self)
        ensures
            final(self).running(),
            final(self).messages() == old(self).messages(),
            final(self).turns() == old(self).turns(),
            final(self).max_turns() == old(self).max_turns(),
            final(self).interval() == old(self).interval(),
            old(self).wf() ==> final(self).wf(),
    {
        self.running = true;
    }

    /// Asks the conversation loop to end.
    pub fn stop(&mut self)
        ensures
            !final(self).running(),
            final(self).messages() == old(self).messages(),
            final(self).turns() == old(self).turns(),
            final(self).max_turns() == old(self).max_turns(),
            final(self).interval() == old(self).interval(),
            old(self).wf() ==> final(self).wf(),
    {
        self.running = false;
    }

    /// Appends stored (role, content) messages to the history.
    pub fn load_history(&mut self, conversations: &Vec<(String, String)>)
        ensures
            final(self).messages() == old(self).messages() + pairs_view(conversations@),
            final(self).turns() == old(self).turns(),
            final(self).max_turns() == old(self).max_turns(),
            final(self).interval() == old(self).interval(),
            final(self).running() == old(self).running(),
            old(self).wf() ==> final(self).wf(),
    {
        let ghost start = messages_model(self.history@);
        let mut i: usize = 0;
        while i < conversations.len()
            invariant
                i <= conversations.len(),
                messages_model(self.history@) == start + pairs_view(conversations@).take(i as int),
                self.turn_count == old(self).turn_count,
                self.max_history_turns == old(self).max_history_turns,
                self.extract_interval == old(self).extract_interval,
                self.running == old(self).running,
            decreases conversations.len() - i,
        {
            let (role, content) = &conversations[i];
            let m = ChatMessage { role: role.clone(), content: content.clone() };
            let ghost before = messages_model(self.history@);
            self.history.push(m);
            assert(messages_model(self.history@) =~= before.push((role@, content@)));
            assert(pairs_view(conversations@).take(i + 1) =~= pairs_view(conversations@).take(
                i as int,
            ).push((role@, content@)));
            i = i + 1;
        }
        assert(pairs_view(conversations@).take(i as int) =~= pairs_view(conversations@));
    }

    /// Drops the oldest messages beyond the bound of twice the kept turns.
    pub fn trim_history(&mut self)
        requires
            old(self).wf(),
        ensures
            final(self).wf(),
            final(self).messages() == keep_recent(old(self).messages(), 2 * old(self).max_turns()),
            final(self).turns() == old(self).turns(),
            final(self).max_turns() == old(self).max_turns(),
            final(self).interval() == old(self).interval(),
            final(self).running() == old(self).running(),
    {
        let max_messages = self.max_history_turns * 2;
        if self.history.len() > max_messages {
            let excess = self.history.len() - max_messages;
            let ghost before = self.history@;
            let kept = self.history.split_off(excess);
            self.history = kept;
            assert(messages_model(self.history@) =~= messages_model(before).skip(excess as int));
        }
    }

    /// Records a finished turn: the user's message and the answer join the
    /// history, which is trimmed, and the turn is counted. Returns whether
    /// memories are due to be extracted now.
    pub fn record_turn(&mut self, user_text: &str, response: &str) -> (extract: bool)
        requires
            old(self).wf(),
            old(self).turns() < usize::MAX,
        ensures
            final(self).wf(),
            final(self).messages() == keep_recent(
                old(self).messages().push(("user"@, user_text@)).push(("assistant"@, response@)),
                2 * old(self).max_turns(),
            ),
            final(self).turns() == old(self).turns() + 1,
            final(self).max_turns() == old(self).max_turns(),
            final(self).interval() == old(self).interval(),
            final(self).running() == old(self).running(),
            extract == (final(self).interval() > 0 && final(self).turns() % final(self).interval()
                == 0),
    {
        let ghost before = messages_model(self.history@);
        self.history.push(ChatMessage::new("user", user_text));
        self.history.push(ChatMessage::new("assistant", response));
        assert(messages_model(self.history@) =~= before.push(("user"@, user_text@)).push(
            ("assistant"@, response@),
        ));
        self.trim_history();
        self.turn_count = self.turn_count + 1;
        self.turn_count > 0 && self.extract_interval > 0 && self.turn_count % self.extract_interval
            == 0
    }

    /// The first turn needs the wake word; later ones listen on directly.
    pub fn needs_wake_word(&self) -> (b: bool)
        ensures
            b == (self.turns() == 0),
    {
        self.turn_count == 0
    }

    /// After listening: when continuous listening timed out, the conversation
    /// starts over and the next turn needs the wake word again.
    pub fn end_listening(&mut self, timed_out: bool)
        ensures
            final(self).turns() == if old(self).turns() > 0 && timed_out {
                0
            } else {
                old(self).turns()
            },
            final(self).messages() == old(self).messages(),
            final(self).max_turns() == old(self).max_turns(),
            final(self).interval() == old(self).interval(),
            final(self).running() == old(self).running(),
            old(self).wf() ==> final(self).wf(),
    {
        if self.turn_count > 0 && timed_out {
            self.turn_count = 0;
        }
    }

    /// The recent conversation for memory extraction: the last
    /// `2 * interval` messages, newest first, one "role: content" line each;
    /// nothing when there are none.
    pub fn recent_conversation(&self) -> (r: Option<String>)
        requires
            self.wf(),
        ensures
            r is None <==> recent_lines(self.messages(), 2 * self.interval()).len() == 0,
            r matches Some(s) ==> s@ == join(
                recent_lines(self.messages(), 2 * self.interval()),
                "\n"@,
            ),
    {
        let ghost h = messages_model(self.history@);
        let ghost want = recent_lines(h, 2 * self.interval());
        let k = self.extract_interval * 2;
        let len = self.history.len();
        let n = if k < len {
            k
        } else {
            len
        };
        let mut out: Vec<Vec<char>> = Vec::new();
        let mut i: usize = 0;
        while i < n
            invariant
                i <= n,
                n == want.len(),
                len == self.history@.len(),
                h == messages_model(self.history@),
                want == recent_lines(h, 2 * self.interval()),
                out@.map_values(|l: Vec<char>| l@) == want.take(i as int),
            decreases n - i,
        {
            let m = &self.history[len - 1 - i];
            let mut line = chars_of(m.role.as_str());
            extend_str(&mut line, ": ");
            extend_str(&mut line, m.content.as_str());
            assert(h[len - 1 - i] == m.model());
            let ghost before = out@.map_values(|l: Vec<char>| l@);
            out.push(line);
            assert(out@.map_values(|l: Vec<char>| l@) =~= before.push(line@));
            assert(want.take(i + 1) =~= want.take(i as int).push(want[i as int]));
            i = i + 1;
        }
        assert(want.take(n as int) =~= want);
        if n == 0 {
            None
        } else {
            let sep = chars_of("\n");
            let joined = join_chars(&out, &sep);
            Some(string_of(&joined))
        }
    }
}

/// After a turn is recorded, the history never holds more than twice the
/// kept turns, it is the most recent part of the conversation, and it ends
/// with the turn just recorded whenever at least one turn is kept.
pub proof fn recorded_history_keeps_latest(
    h: Seq<(Seq<char>, Seq<char>)>,
    user: Seq<char>,
    answer: Seq<char>,
    max_turns: nat,
)
    ensures
        ({
            let x = h.push(("user"@, user)).push(("assistant"@, answer));
            let k = keep_recent(x, 2 * max_turns);
            &&& k.len() <= 2 * max_turns
            &&& k == x.skip(x.len() - k.len())
            &&& max_turns > 0 ==> k.len() >= 2 && k[k.len() - 1] == ("assistant"@, answer) && k[k.len()
                - 2] == ("user"@, user)
        }),
{
    let x = h.push(("user"@, user)).push(("assistant"@, answer));
    let k = keep_recent(x, 2 * max_turns);
    if x.len() > 2 * max_turns {
        assert(k == x.skip(x.len() - 2 * max_turns));
        if max_turns > 0 {
            assert(k[k.len() - 1] == x[x.len() - 1]);
            assert(k[k.len() - 2] == x[x.len() - 2]);
        }
    } else {
        assert(x.skip(0) =~= x);
    }
}

/// One line of the recent conversation: "role: content".
pub open spec fn recent_line(m: (Seq<char>, Seq<char>)) -> Seq<char> {
    m.0 + ": "@ + m.1
}

/// The lines of the last `k` messages, newest first.
pub open spec fn recent_lines(h: Seq<(Seq<char>, Seq<char>)>, k: nat) -> Seq<Seq<char>> {
    Seq::new(
        if k < h.len() {
            k
        } else {
            h.len()
        },
        |i: int| recent_line(h[h.len() - 1 - i]),
    )
}

// ===================================================================
// Memory extraction
// ===================================================================

pub open spec fn extraction_intro() -> Seq<char> {
    "分析以下对话，提取用户提到的**关键事实和偏好**（如姓名、喜好、习惯、重要事件等）。\n\n格式要求：\n- 每行一条记忆\n- 格式为 \"类别: 内容\"（类别如: preference, fact, personal, habit）\n- 只提取确定的事实，不要推测\n- 如果没有值得记住的内容，返回空\n\n对话内容：\n"@
}

/// The prompt that asks the model for the memories of a conversation.
pub fn extraction_prompt(conversation: &str) -> (r: String)
    ensures
        r@ == extraction_intro() + conversation@,
{
    let mut v = chars_of(
        "分析以下对话，提取用户提到的**关键事实和偏好**（如姓名、喜好、习惯、重要事件等）。\n\n格式要求：\n- 每行一条记忆\n- 格式为 \"类别: 内容\"（类别如: preference, fact, personal, habit）\n- 只提取确定的事实，不要推测\n- 如果没有值得记住的内容，返回空\n\n对话内容：\n",
    );
    extend_str(&mut v, conversation);
    string_of(&v)
}

/// The system message of a memory extraction.
pub fn extraction_system() -> (s: &'static str)
    ensures
        s@ == "你是一个记忆提取助手。只输出提取的记忆列表，每行一条。"@,
{
    "你是一个记忆提取助手。只输出提取的记忆列表，每行一条。"
}

/// The note that a trimmed, non-empty line of the model's answer gives:
/// "category: content" gives the content (if it is not empty) in that
/// category at importance 6; a line without a colon is a fact at importance 5.
pub open spec fn note_of_line(l: Seq<char>) -> Option<(Seq<char>, Seq<char>, Seq<char>, nat)> {
    match find(l, ":"@) {
        Some(p) => if trim(l.skip(p + 1)).len() > 0 {
            Some((trim(l.skip(p + 1)), trim(l.take(p)), "llm_extract"@, 6))
        } else {
            None
        },
        None => Some((l, "fact"@, "llm_extract"@, 5)),
    }
}

/// The notes of the lines `ls`, each trimmed, blank lines skipped.
pub open spec fn notes_of(ls: Seq<Seq<char>>) -> Seq<(Seq<char>, Seq<char>, Seq<char>, nat)>
    decreases ls.len(),
{
    if ls.len() == 0 {
        seq![]
    } else {
        notes_of(ls.drop_last()) + if trim(ls.last()).len() == 0 {
            Seq::empty()
        } else {
            match note_of_line(trim(ls.last())) {
                Some(n) => seq![n],
                None => Seq::empty(),
            }
        }
    }
}

/// The notes in the model's answer: none when the trimmed answer is empty,
/// "无" or shorter than five bytes.
pub open spec fn extracted_notes(text: Seq<char>) -> Seq<(Seq<char>, Seq<char>, Seq<char>, nat)> {
    let t = trim(text);
    if t.len() == 0 || t == "无"@ || utf8_len(t) < 5 {
        seq![]
    } else {
        notes_of(lines(t))
    }
}

proof fn lemma_notes_of(ls: Seq<Seq<char>>)
    ensures
        forall|k: int|
            0 <= k < notes_of(ls).len() ==> {
                let n = #[trigger] notes_of(ls)[k];
                &&& n.0.len() > 0
                &&& n.2 == "llm_extract"@
                &&& n.3 == 5 || n.3 == 6
            },
    decreases ls.len(),
{
    if ls.len() > 0 {
        lemma_notes_of(ls.drop_last());
        let a = notes_of(ls.drop_last());
        let r = notes_of(ls);
        assert forall|k: int| 0 <= k < r.len() implies {
            let n = #[trigger] r[k];
            &&& n.0.len() > 0
            &&& n.2 == "llm_extract"@
            &&& n.3 == 5 || n.3 == 6
        } by {
            if k < a.len() {
                assert(r[k] == a[k]);
            }
        }
    }
}

/// Every note extracted from the model's answer has content, comes from the
/// extraction ("llm_extract") and has importance 5 or 6 tenths.
pub proof fn extracted_notes_are_well_formed(text: Seq<char>)
    ensures
        forall|k: int|
            0 <= k < extracted_notes(text).len() ==> {
                let n = #[trigger] extracted_notes(text)[k];
                &&& n.0.len() > 0
                &&& n.2 == "llm_extract"@
                &&& n.3 == 5 || n.3 == 6
            },
{
    lemma_notes_of(lines(trim(text)));
}

fn note_from_line(l: &Vec<char>) -> (r: Option<MemoryNote>)
    requires
        l@.len() > 0,
    ensures
        match r {
            Some(n) => note_of_line(l@) == Some(n.model()),
            None => note_of_line(l@) is None,
        },
{
    proof {
        reveal_strlit(":");
    }
    let n = l.len();
    match find_str(l, ":") {
        Some(pos) => {
            proof {
                crate::text::lemma_find_from_bounds(l@, ":"@, 0);
                assert(":"@.len() == 1);
                assert(crate::text::match_at(l@, ":"@, pos as int));
            }
            let content = trim_chars(&slice(l, pos + 1, n));
            if content.len() == 0 {
                return None;
            }
            let category = trim_chars(&slice(l, 0, pos));
            assert(l@.skip(pos + 1) =~= l@.subrange(pos + 1, l@.len() as int));
            assert(l@.take(pos as int) =~= l@.subrange(0, pos as int));
            Some(
                MemoryNote {
                    content: string_of(&content),
                    category: string_of(&category),
                    source: "llm_extract".to_owned(),
                    importance_tenths: 6,
                },
            )
        },
        None => Some(
            MemoryNote {
                content: string_of(l),
                category: "fact".to_owned(),
                source: "llm_extract".to_owned(),
                importance_tenths: 5,
            },
        ),
    }
}

pub open spec fn notes_view(v: Seq<MemoryNote>) -> Seq<(Seq<char>, Seq<char>, Seq<char>, nat)> {
    v.map_values(|n: MemoryNote| n.model())
}

/// The memory notes in the model's answer to an extraction prompt.
pub fn parse_extracted(extracted: &str) -> (r: Vec<MemoryNote>)
    ensures
        notes_view(r@) == extracted_notes(extracted@),
{
    let t = trim_str(extracted);
    let mut out: Vec<MemoryNote> = Vec::new();
    if t.len() == 0 || same_str(&t, "无") || !utf8_len_exceeds(&t, 4) {
        return out;
    }
    let ls = lines_of(&t);
    let ghost lv = ls@.map_values(|l: Vec<char>| l@);
    let mut i: usize = 0;
    while i < ls.len()
        invariant
            i <= ls.len(),
            lv == ls@.map_values(|l: Vec<char>| l@),
            notes_view(out@) == notes_of(lv.take(i as int)),
        decreases ls.len() - i,
    {
        assert(lv.take(i + 1).drop_last() =~= lv.take(i as int));
        assert(lv.take(i + 1).last() == ls@[i as int]@);
        let ghost before = notes_view(out@);
        let l = trim_chars(&ls[i]);
        if l.len() == 0 {
            assert(before + Seq::<(Seq<char>, Seq<char>, Seq<char>, nat)>::empty() =~= before);
        } else {
            match note_from_line(&l) {
                Some(n) => {
                    let ghost nm = n.model();
                    out.push(n);
                    assert(notes_view(out@) =~= before + seq![nm]);
                },
                None => {
                    assert(before + Seq::<(Seq<char>, Seq<char>, Seq<char>, nat)>::empty()
                        =~= before);
                },
            }
        }
        i = i + 1;
    }
    assert(lv.take(i as int) =~= lv);
    out
}

// ===================================================================
// Memory context
// ===================================================================

/// A knowledge base hit: "- [相关度:score.0] content".
pub open spec fn rag_line(e: (Seq<char>, nat)) -> Seq<char> {
    "- [相关度:"@ + dec(e.1) + ".0] "@ + e.0 + "\n"@
}

/// A stored memory, given as (content, category): "- [category] content".
pub open spec fn memory_line(e: (Seq<char>, Seq<char>)) -> Seq<char> {
    "- ["@ + e.1 + "] "@ + e.0 + "\n"@
}

/// "用户" for the user's messages, "助手" for all others.
pub open spec fn speaker_prefix(role: Seq<char>) -> Seq<char> {
    if role == "user"@ {
        "用户"@
    } else {
        "助手"@
    }
}

/// A recent message, given as (role, content): "speaker: content".
pub open spec fn conversation_line(e: (Seq<char>, Seq<char>)) -> Seq<char> {
    speaker_prefix(e.0) + ": "@ + e.1 + "\n"@
}

/// The memory context of a request: knowledge base hits, stored memories and
/// recent messages, each section present only when it has entries.
pub open spec fn memory_context_text(
    rag: Seq<(Seq<char>, nat)>,
    memories: Seq<(Seq<char>, Seq<char>)>,
    conversations: Seq<(Seq<char>, Seq<char>)>,
) -> Seq<char> {
    (if rag.len() == 0 {
        Seq::empty()
    } else {
        "相关知识：\n"@ + concat_all(rag.map_values(|e: (Seq<char>, nat)| rag_line(e))) + "\n"@
    }) + (if memories.len() == 0 {
        Seq::empty()
    } else {
        "相关记忆：\n"@ + concat_all(
            memories.map_values(|e: (Seq<char>, Seq<char>)| memory_line(e)),
        ) + "\n"@
    }) + (if conversations.len() == 0 {
        Seq::empty()
    } else {
        "最近对话：\n"@ + concat_all(
            conversations.map_values(|e: (Seq<char>, Seq<char>)| conversation_line(e)),
        )
    })
}

fn rag_section(v: &mut Vec<char>, rag: &Vec<(String, u128)>)
    ensures
        final(v)@ == old(v)@ + if rag@.len() == 0 {
            Seq::<char>::empty()
        } else {
            "相关知识：\n"@ + concat_all(
                scored_view(rag@).map_values(|e: (Seq<char>, nat)| rag_line(e)),
            ) + "\n"@
        },
{
    if rag.len() == 0 {
        assert(old(v)@ + Seq::<char>::empty() =~= old(v)@);
        return;
    }
    let ghost ls = scored_view(rag@).map_values(|e: (Seq<char>, nat)| rag_line(e));
    extend_str(v, "相关知识：\n");
    let ghost head = v@;
    let mut i: usize = 0;
    while i < rag.len()
        invariant
            i <= rag.len(),
            ls == scored_view(rag@).map_values(|e: (Seq<char>, nat)| rag_line(e)),
            v@ == head + concat_all(ls.take(i as int)),
        decreases rag.len() - i,
    {
        let (content, score) = &rag[i];
        let ghost before = v@;
        extend_str(v, "- [相关度:");
        let d = u128_chars(*score);
        extend(v, &d);
        extend_str(v, ".0] ");
        extend_str(v, content.as_str());
        extend_str(v, "\n");
        proof {
            assert(ls[i as int] == rag_line((content@, *score as nat)));
            assert(ls.take(i + 1) =~= ls.take(i as int).push(ls[i as int]));
            lemma_concat_push(ls.take(i as int), ls[i as int]);
            assert(v@ =~= before + ls[i as int]);
        }
        i = i + 1;
    }
    assert(ls.take(i as int) =~= ls);
    extend_str(v, "\n");
}

fn pair_section(v: &mut Vec<char>, items: &Vec<(String, String)>, memories: bool)
    ensures
        final(v)@ == old(v)@ + if items@.len() == 0 {
            Seq::<char>::empty()
        } else if memories {
            "相关记忆：\n"@ + concat_all(
                pairs_view(items@).map_values(|e: (Seq<char>, Seq<char>)| memory_line(e)),
            ) + "\n"@
        } else {
            "最近对话：\n"@ + concat_all(
                pairs_view(items@).map_values(|e: (Seq<char>, Seq<char>)| conversation_line(e)),
            )
        },
{
    if items.len() == 0 {
        assert(old(v)@ + Seq::<char>::empty() =~= old(v)@);
        return;
    }
    let ghost ls = if memories {
        pairs_view(items@).map_values(|e: (Seq<char>, Seq<char>)| memory_line(e))
    } else {
        pairs_view(items@).map_values(|e: (Seq<char>, Seq<char>)| conversation_line(e))
    };
    if memories {
        extend_str(v, "相关记忆：\n");
    } else {
        extend_str(v, "最近对话：\n");
    }
    let ghost head = v@;
    let mut i: usize = 0;
    while i < items.len()
        invariant
            i <= items.len(),
            ls == if memories {
                pairs_view(items@).map_values(|e: (Seq<char>, Seq<char>)| memory_line(e))
            } else {
                pairs_view(items@).map_values(|e: (Seq<char>, Seq<char>)| conversation_line(e))
            },
            v@ == head + concat_all(ls.take(i as int)),
        decreases items.len() - i,
    {
        let (a, b) = &items[i];
        let ghost before = v@;
        if memories {
            extend_str(v, "- [");
            extend_str(v, b.as_str());
            extend_str(v, "] ");
            extend_str(v, a.as_str());
        } else {
            let ac = chars_of(a.as_str());
            if same_str(&ac, "user") {
                extend_str(v, "用户");
            } else {
                extend_str(v, "助手");
            }
            extend_str(v, ": ");
            extend_str(v, b.as_str());
        }
        extend_str(v, "\n");
        proof {
            if memories {
                assert(ls[i as int] == memory_line((a@, b@)));
            } else {
                assert(ls[i as int] == conversation_line((a@, b@)));
            }
            assert(ls.take(i + 1) =~= ls.take(i as int).push(ls[i as int]));
            lemma_concat_push(ls.take(i as int), ls[i as int]);
            assert(v@ =~= before + ls[i as int]);
        }
        i = i + 1;
    }
    assert(ls.take(i as int) =~= ls);
    if memories {
        extend_str(v, "\n");
    }
}

/// The memory context of a request, from the knowledge base hits (content,
/// score), the stored memories (content, category) and the recent messages
/// (role, content).
pub fn memory_context(
    rag: &Vec<(String, u128)>,
    memories: &Vec<(String, String)>,
    conversations: &Vec<(String, String)>,
) -> (r: String)
    ensures
        r@ == memory_context_text(scored_view(rag@), pairs_view(memories@), pairs_view(conversations@)),
{
    let mut v: Vec<char> = Vec::new();
    rag_section(&mut v, rag);
    pair_section(&mut v, memories, true);
    pair_section(&mut v, conversations, false);
    assert(v@ =~= memory_context_text(
        scored_view(rag@),
        pairs_view(memories@),
        pairs_view(conversations@),
    ));
    string_of(&v)
}

// ===================================================================
// What was heard
// ===================================================================

/// What a turn makes of what the microphone and the recognizer gave.
#[derive(Debug)]
pub enum Heard {
    /// Speech was recorded but not recognized: this is said, and the turn
    /// listens again.
    Unclear(String),
    /// The user said this.
    Said(String),
}

/// A recording is handed to the recognizer only when it holds samples; an
/// empty one makes the turn listen again.
pub fn should_transcribe(samples: usize) -> (b: bool)
    ensures
        b == (samples > 0),
{
    samples > 0
}

/// What was heard, from the recognizer's transcript: nothing recognized is
/// answered with the persona's "not heard" text.
pub fn heard(persona: &AgentPersona, transcript: Option<String>) -> (r: Heard)
    ensures
        match transcript {
            None => r matches Heard::Unclear(a) && a@ == "抱歉，我没听清。你能再说一遍吗？"@,
            Some(t) => r matches Heard::Said(u) && u@ == t@,
        },
{
    match transcript {
        None => Heard::Unclear(persona.get_no_voice_response()),
        Some(t) => Heard::Said(t),
    }
}

// ===================================================================
// A request's way through the tools and the model
// ===================================================================

/// What a request leads to once the tools have looked at it.
#[derive(Debug)]
pub enum RequestStep {
    /// The tools answered.
    Answer(String),
    /// A tool asks the language model this prompt.
    AskModel(String),
    /// No tool answers: the request goes to the language model as conversation.
    Converse,
}

pub enum StepModel {
    Answer(Seq<char>),
    AskModel(Seq<char>),
    Converse,
}

impl RequestStep {
    pub open spec fn model(&self) -> StepModel {
        match self {
            RequestStep::Answer(s) => StepModel::Answer(s@),
            RequestStep::AskModel(s) => StepModel::AskModel(s@),
            RequestStep::Converse => StepModel::Converse,
        }
    }
}

/// A tool's answer that should be given is given, unless it asks the model
/// with a prompt; no answer, or one that should not be given, leaves the
/// request to the conversation.
pub open spec fn request_step_model(tool: Option<ToolResultModel>) -> StepModel {
    match tool {
        Some(t) => if !t.1 {
            StepModel::Converse
        } else if t.2 && t.3 is Some {
            StepModel::AskModel(t.3->0)
        } else {
            StepModel::Answer(t.0)
        },
        None => StepModel::Converse,
    }
}

/// Search results are answered as they are.
pub fn summarize_search(query: &str, search_results: &str) -> (r: String)
    ensures
        r@ == search_results@,
{
    search_results.to_owned()
}

/// Decides what a request leads to from the tools' answer.
pub fn request_step(user_text: &str, tool: Option<ToolResult>) -> (r: RequestStep)
    ensures
        r.model() == request_step_model(
            match tool {
                Some(t) => Some(t.model()),
                None => None,
            },
        ),
{
    match tool {
        Some(t) => {
            if !t.should_respond {
                return RequestStep::Converse;
            }
            if t.needs_llm {
                if let Some(p) = t.llm_prompt {
                    return RequestStep::AskModel(p);
                }
            }
            let out = chars_of(t.output.as_str());
            if begins_with(&out, "搜索结果：") {
                return RequestStep::Answer(summarize_search(user_text, t.output.as_str()));
            }
            RequestStep::Answer(t.output)
        },
        None => RequestStep::Converse,
    }
}

/// What came of asking the language model.
#[derive(Debug)]
pub enum ModelReply {
    /// There is no model client, or the server does not answer.
    Unavailable,
    Replied(String),
    Failed(String),
}

/// The system message of a tool's question to the model.
pub fn tool_model_system() -> (s: &'static str)
    ensures
        s@ == "你是Mini，简洁回答。"@,
{
    "你是Mini，简洁回答。"
}

/// The answer to a tool's question to the model.
pub fn tool_model_answer(reply: &ModelReply) -> (r: String)
    ensures
        r@ == match reply {
            ModelReply::Unavailable => "LLM 不可用"@,
            ModelReply::Replied(t) => t@,
            ModelReply::Failed(e) => "LLM 错误: "@ + e@,
        },
{
    match reply {
        ModelReply::Unavailable => "LLM 不可用".to_owned(),
        ModelReply::Replied(t) => t.clone(),
        ModelReply::Failed(e) => {
            let mut v = chars_of("LLM 错误: ");
            extend_str(&mut v, e.as_str());
            string_of(&v)
        },
    }
}

/// The answer to a request that went to the model as conversation.
pub fn conversation_answer(persona: &AgentPersona, reply: &ModelReply) -> (r: String)
    ensures
        r@ == match reply {
            ModelReply::Unavailable => "抱歉，模型服务似乎不可用。我现在无法回答问题。"@,
            ModelReply::Replied(t) => t@,
            ModelReply::Failed(_) => "抱歉，我遇到了一些问题。请稍后再试。"@,
        },
{
    match reply {
        ModelReply::Unavailable => persona.get_service_unavailable_response(),
        ModelReply::Replied(t) => t.clone(),
        ModelReply::Failed(_) => persona.get_error_response(),
    }
}

// ===================================================================
// Session and banner
// ===================================================================

/// A lowercase hexadecimal digit.
pub open spec fn is_lower_hex(c: char) -> bool {
    ('0' <= c && c <= '9') || ('a' <= c && c <= 'f')
}

/// The hyphenated lowercase form of a UUID: 8-4-4-4-12 hexadecimal digits.
pub open spec fn uuid_shape(s: Seq<char>) -> bool {
    s.len() == 36 && forall|i: int|
        0 <= i < 36 ==> if i == 8 || i == 13 || i == 18 || i == 23 {
            #[trigger] s[i] == '-'
        } else {
            is_lower_hex(s[i])
        }
}

/// `uuid::Uuid::new_v4().to_string()`: a random version 4 UUID in its
/// hyphenated lowercase form. The contract states that form only, which the
/// crate's `Display` (through `LowerHex` and `format_hyphenated`) writes for
/// every value; which digits come out is chance.
#[verifier::external_body]
fn random_uuid() -> (s: String)
    ensures
        uuid_shape(s@),
{
    uuid::Uuid::new_v4().to_string()
}

/// The session identifier made from an identifier: "session_" and its first
/// eight bytes.
pub fn session_id_from(uuid: &str) -> (r: String)
    requires
        byte_cuttable(uuid@, 8),
    ensures
        r@ == "session_"@ + byte_prefix(uuid@, 8),
{
    let u = chars_of(uuid);
    let head = byte_prefix_of(&u, 8);
    let mut v = chars_of("session_");
    extend(&mut v, &head);
    string_of(&v)
}

/// A new session identifier: "session_" and eight random lowercase
/// hexadecimal digits.
pub fn new_session_id() -> (r: String)
    ensures
        r@.len() == 16,
        r@.take(8) == "session_"@,
        forall|i: int| 8 <= i < 16 ==> is_lower_hex(#[trigger] r@[i]),
{
    let u = random_uuid();
    proof {
        reveal_strlit("session_");
        let s = u@;
        assert forall|i: int| 0 <= i < s.take(8).len() implies (#[trigger] s.take(8)[i] as u32)
            < 0x80 by {
            assert(s.take(8)[i] == s[i]);
            assert(is_lower_hex(s[i]));
        }
        lemma_ascii_utf8_len(s.take(8));
        lemma_boundary_unique(s, 8, 8);
        crate::text::lemma_utf8_len_concat(s.take(8), s.skip(8));
        assert(s.take(8) + s.skip(8) =~= s);
    }
    let r = session_id_from(u.as_str());
    proof {
        assert forall|i: int| 8 <= i < 16 implies is_lower_hex(#[trigger] r@[i]) by {
            assert(r@[i] == u@[i - 8]);
        }
        assert(r@.take(8) =~= "session_"@);
    }
    r
}

/// The banner printed when the conversation starts.
pub open spec fn banner(
    name: Seq<char>,
    personality_head: Seq<char>,
    memories: nat,
    conversations: nat,
    pending: nat,
    language: Seq<char>,
) -> Seq<char> {
    "\n╔═══════════════════════════════════════════════╗\n║         Mini 语音助手 v0.1.0 (Rust)          ║\n║  Features: Stream | Multi-turn | Memory       ║\n╠═══════════════════════════════════════════════╣\n║  Agent: "@
        + name + " ("@ + personality_head + "...)         ║\n║  Memory: "@ + dec(memories)
        + " long-term | "@ + dec(conversations) + " conversations     ║\n║  Reminders: "@ + dec(
        pending,
    )
        + " pending                       ║\n╠═══════════════════════════════════════════════╣\n║  Say '"@
        + language
        + "' to start | Type 'exit' to quit     ║\n╚═══════════════════════════════════════════════╝\n"@
}

/// The banner for a persona (its character cut after 15 bytes), the memory
/// counts and the recognition language.
pub fn banner_text(persona: &AgentPersona, stats: &MemoryStats, language: &str) -> (r: String)
    requires
        byte_cuttable(persona.personality@, 15),
    ensures
        r@ == banner(
            persona.name@,
            byte_prefix(persona.personality@, 15),
            stats.memories as nat,
            stats.conversations as nat,
            stats.pending_reminders as nat,
            language@,
        ),
{
    let p = chars_of(persona.personality.as_str());
    let head = byte_prefix_of(&p, 15);
    let mut v = chars_of(
        "\n╔═══════════════════════════════════════════════╗\n║         Mini 语音助手 v0.1.0 (Rust)          ║\n║  Features: Stream | Multi-turn | Memory       ║\n╠═══════════════════════════════════════════════╣\n║  Agent: ",
    );
    extend_str(&mut v, persona.name.as_str());
    extend_str(&mut v, " (");
    extend(&mut v, &head);
    extend_str(&mut v, "...)         ║\n║  Memory: ");
    extend(&mut v, &u64_chars(stats.memories as u64));
    extend_str(&mut v, " long-term | ");
    extend(&mut v, &u64_chars(stats.conversations as u64));
    extend_str(&mut v, " conversations     ║\n║  Reminders: ");
    extend(&mut v, &u64_chars(stats.pending_reminders as u64));
    extend_str(
        &mut v,
        " pending                       ║\n╠═══════════════════════════════════════════════╣\n║  Say '",
    );
    extend_str(&mut v, language);
    extend_str(
        &mut v,
        "' to start | Type 'exit' to quit     ║\n╚═══════════════════════════════════════════════╝\n",
    );
    string_of(&v)
}

} // verus!
