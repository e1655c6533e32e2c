//! Messages for an OpenAI-compatible chat API, and what the library makes of
//! its streamed replies.
use vstd::prelude::*;

use crate::text::{
    concat_all, chars_of, extend, lines, lines_of, same_str, slice, starts_with, string_of, trim,
    trim_chars, begins_with,
};

verus! {

/// A chat message: its role ("system", "user" or "assistant") and content.
#[derive(Debug)]
pub struct ChatMessage {
    pub role: String,
    pub content: String,
}

impl ChatMessage {
    pub open spec fn model(&self) -> (Seq<char>, Seq<char>) {
        (self.role@, self.content@)
    }

    pub fn new(role: &str, content: &str) -> (m: Self)
        ensures
            m.model() == (role@, content@),
    {
        ChatMessage { role: role.to_owned(), content: content.to_owned() }
    }
}

impl Clone for ChatMessage {
    fn clone(&self) -> (m: Self)
        ensures
            m.model() == self.model(),
    {
        ChatMessage { role: self.role.clone(), content: self.content.clone() }
    }
}

pub open spec fn messages_model(v: Seq<ChatMessage>) -> Seq<(Seq<char>, Seq<char>)> {
    v.map_values(|m: ChatMessage| m.model())
}

/// The messages sent to the model: the system message if any, the history,
/// then the user's message.
pub open spec fn request_messages(
    user: Seq<char>,
    system: Option<Seq<char>>,
    history: Seq<(Seq<char>, Seq<char>)>,
) -> Seq<(Seq<char>, Seq<char>)> {
    (match system {
        Some(s) => seq![("system"@, s)],
        None => Seq::empty(),
    }) + history + seq![("user"@, user)]
}

/// Builds the message list of a request.
pub fn build_messages(user_message: &str, system_message: Option<&str>, history: &Vec<ChatMessage>) -> (r:
    Vec<ChatMessage>)
    ensures
        messages_model(r@) == request_messages(
            user_message@,
            match system_message {
                Some(s) => Some(s@),
                None => None,
            },
            messages_model(history@),
        ),
{
    let mut messages: Vec<ChatMessage> = Vec::new();
    if let Some(system) = system_message {
        messages.push(ChatMessage::new("system", system));
    }
    let ghost head = messages_model(messages@);
    let mut i: usize = 0;
    while i < history.len()
        invariant
            i <= history.len(),
            messages_model(messages@) == head + messages_model(history@).take(i as int),
        decreases history.len() - i,
    {
        let ghost before = messages_model(messages@);
        let m = history[i].clone();
        messages.push(m);
        assert(messages_model(messages@) =~= before.push(history@[i as int].model()));
        assert(messages_model(history@).take(i + 1) =~= messages_model(history@).take(i as int).push(
            history@[i as int].model(),
        ));
        i = i + 1;
    }
    assert(messages_model(history@).take(i as int) =~= messages_model(history@));
    let ghost before = messages_model(messages@);
    messages.push(ChatMessage::new("user", user_message));
    assert(messages_model(messages@) =~= before.push(("user"@, user_message@)));
    assert(messages_model(messages@) =~= request_messages(
        user_message@,
        match system_message {
            Some(s) => Some(s@),
            None => None,
        },
        messages_model(history@),
    ));
    messages
}

/// A chunk of a streamed reply.
#[derive(Debug)]
pub struct StreamChunk {
    pub choices: Vec<StreamChoice>,
}

#[derive(Debug)]
pub struct StreamChoice {
    pub delta: Option<StreamDelta>,
    pub finish_reason: Option<String>,
}

#[derive(Debug)]
pub struct StreamDelta {
    pub content: Option<String>,
    pub role: Option<String>,
}

/// The text that a stream chunk adds: the content of its first choice's delta.
pub open spec fn chunk_token(c: StreamChunk) -> Option<Seq<char>> {
    if c.choices@.len() == 0 {
        None
    } else {
        match c.choices@[0].delta {
            Some(d) => match d.content {
                Some(s) => Some(s@),
                None => None,
            },
            None => None,
        }
    }
}

impl StreamChunk {
    /// The text that this chunk adds, if any.
    pub fn token(&self) -> (r: Option<&String>)
        ensures
            match r {
                Some(s) => chunk_token(*self) == Some(s@),
                None => chunk_token(*self) is None,
            },
    {
        if self.choices.len() == 0 {
            return None;
        }
        match &self.choices[0].delta {
            Some(d) => match &d.content {
                Some(s) => Some(s),
                None => None,
            },
            None => None,
        }
    }
}

/// The payload of a line of a server-sent event stream: the trimmed line
/// after "data: ", unless the line is blank or "data: [DONE]".
pub open spec fn sse_payload(line: Seq<char>) -> Option<Seq<char>> {
    let l = trim(line);
    if l.len() == 0 || l == "data: [DONE]"@ {
        None
    } else if starts_with(l, "data: "@) {
        Some(l.skip(6))
    } else {
        None
    }
}

pub open spec fn payloads_of(ls: Seq<Seq<char>>) -> Seq<Seq<char>>
    decreases ls.len(),
{
    if ls.len() == 0 {
        seq![]
    } else {
        payloads_of(ls.drop_last()) + match sse_payload(ls.last()) {
            Some(p) => seq![p],
            None => Seq::<Seq<char>>::empty(),
        }
    }
}

/// The data payloads of a streamed reply's body, in order.
pub open spec fn sse_payloads(body: Seq<char>) -> Seq<Seq<char>> {
    payloads_of(lines(body))
}

/// The data payloads of a streamed reply's body, in order.
pub fn stream_payloads(body: &str) -> (r: Vec<String>)
    ensures
        r@.map_values(|s: String| s@) == sse_payloads(body@),
{
    proof {
        reveal_strlit("data: ");
    }
    let bc = chars_of(body);
    let ls = lines_of(&bc);
    let ghost lv = ls@.map_values(|l: Vec<char>| l@);
    let mut out: Vec<String> = Vec::new();
    let mut i: usize = 0;
    while i < ls.len()
        invariant
            i <= ls.len(),
            lv == ls@.map_values(|l: Vec<char>| l@),
            out@.map_values(|s: String| s@) == payloads_of(lv.take(i as int)),
        decreases ls.len() - i,
    {
        proof {
            reveal_strlit("data: ");
        }
        let l = trim_chars(&ls[i]);
        assert(lv.take(i + 1).drop_last() =~= lv.take(i as int));
        assert(lv.take(i + 1).last() == ls@[i as int]@);
        let ghost before = out@.map_values(|s: String| s@);
        if l.len() == 0 || same_str(&l, "data: [DONE]") {
            assert(before + Seq::<Seq<char>>::empty() =~= before);
        } else if begins_with(&l, "data: ") {
            let p = slice(&l, 6, l.len());
            let s = string_of(&p);
            out.push(s);
            assert(out@.map_values(|s: String| s@) =~= before.push(p@));
        } else {
            assert(before + Seq::<Seq<char>>::empty() =~= before);
        }
        i = i + 1;
    }
    assert(lv.take(i as int) =~= lv);
    out
}

/// The tokens that the parsed chunks add, in order (`None` is a payload
/// that did not parse as a chunk).
pub open spec fn stream_tokens(chunks: Seq<Option<StreamChunk>>) -> Seq<Seq<char>>
    decreases chunks.len(),
{
    if chunks.len() == 0 {
        seq![]
    } else {
        stream_tokens(chunks.drop_last()) + match chunks.last() {
            Some(c) => match chunk_token(c) {
                Some(t) => seq![t],
                None => Seq::<Seq<char>>::empty(),
            },
            None => Seq::<Seq<char>>::empty(),
        }
    }
}

/// The streamed reply: the tokens of the parsed chunks, and their concatenation.
pub fn stream_reply(chunks: &Vec<Option<StreamChunk>>) -> (r: (String, Vec<String>))
    ensures
        r.1@.map_values(|s: String| s@) == stream_tokens(chunks@),
        r.0@ == concat_all(stream_tokens(chunks@)),
{
    let mut full: Vec<char> = Vec::new();
    let mut tokens: Vec<String> = Vec::new();
    let mut i: usize = 0;
    while i < chunks.len()
        invariant
            i <= chunks.len(),
            tokens@.map_values(|s: String| s@) == stream_tokens(chunks@.take(i as int)),
            full@ == concat_all(stream_tokens(chunks@.take(i as int))),
        decreases chunks.len() - i,
    {
        assert(chunks@.take(i + 1).drop_last() =~= chunks@.take(i as int));
        assert(chunks@.take(i + 1).last() == chunks@[i as int]);
        let ghost before = tokens@.map_values(|s: String| s@);
        let ghost st = stream_tokens(chunks@.take(i as int));
        match &chunks[i] {
            Some(c) => match c.token() {
                Some(t) => {
                    let tc = chars_of(t.as_str());
                    extend(&mut full, &tc);
                    tokens.push(t.clone());
                    assert(tokens@.map_values(|s: String| s@) =~= before.push(t@));
                    assert(stream_tokens(chunks@.take(i + 1)) =~= st.push(t@));
                    assert(st.push(t@).drop_last() =~= st);
                },
                None => {
                    assert(before + Seq::<Seq<char>>::empty() =~= before);
                },
            },
            None => {
                assert(before + Seq::<Seq<char>>::empty() =~= before);
            },
        }
        i = i + 1;
    }
    assert(chunks@.take(i as int) =~= chunks@);
    (string_of(&full), tokens)
}

/// What the client says when the model server cannot be reached.
pub fn unavailable_message() -> (s: String)
    ensures
        s@ == "抱歉，模型服务不可用。请检查 llama-server 是否运行。"@,
{
    "抱歉，模型服务不可用。请检查 llama-server 是否运行。".to_owned()
}

/// The reply of a non-streamed answer: the first choice's content, or nothing.
pub fn sync_reply(choices: &Vec<ChatMessage>) -> (s: String)
    ensures
        s@ == if choices@.len() == 0 {
            Seq::<char>::empty()
        } else {
            choices@[0].content@
        },
{
    if choices.len() == 0 {
        String::new()
    } else {
        choices[0].content.clone()
    }
}

} // verus!
