//! Settings of the agent that the library reads.
use vstd::prelude::*;

verus! {

/// Agent settings: name, personality and limits.
#[derive(Debug, Clone)]
pub struct AgentConfig {
    pub name: String,
    pub personality: String,
    pub max_reply_sentences: usize,
    /// Reminder check interval (seconds).
    pub reminder_check_interval: u64,
    pub max_reminders: usize,
}

impl Default for AgentConfig {
    /// Mini, a friendly, brief and now and then humorous voice assistant.
    fn default() -> (c: Self)
        ensures
            c.name@ == "Mini"@,
            c.personality@ == "友好、简洁、偶尔幽默的语音助手"@,
            c.max_reply_sentences == 3,
            c.reminder_check_interval == 1,
            c.max_reminders == 20,
    {
        AgentConfig {
            name: "Mini".to_owned(),
            personality: "友好、简洁、偶尔幽默的语音助手".to_owned(),
            max_reply_sentences: 3,
            reminder_check_interval: 1,
            max_reminders: 20,
        }
    }
}

} // verus!
