//! Chat conversation state.
//!
//! A conversation holds a bounded message history and builds the prompt
//! sent to an AI provider; the manager tracks the set of conversations
//! and which one is active. Reading and writing conversation files, and
//! the provider calls themselves, are the embedding application's part:
//! it performs the transport and feeds the results back in as values.

use vstd::prelude::*;
use vstd::string::*;
use crate::text;

verus! {

/// One message in a conversation.
#[derive(Debug)]
pub struct ConversationMessage {
    /// Who sent it: `user` or `assistant`
    pub role: String,
    /// What was said
    pub content: String,
    /// Seconds since the epoch when it was added
    pub timestamp: u64,
}

impl Clone for ConversationMessage {
    /// A copy equal to the original in every field.
    fn clone(&self) -> (r: Self)
        ensures
            r == *self,
    {
        ConversationMessage {
            role: self.role.clone(),
            content: self.content.clone(),
            timestamp: self.timestamp,
        }
    }
}

/// How many messages a conversation keeps; older ones are dropped.
pub const MAX_HISTORY_MESSAGES: usize = 20;

/// A chat session: its identity, its recent messages, and where it is
/// stored.
#[derive(Debug)]
pub struct Conversation {
    /// Unique identifier, derived from the creation instant
    pub id: String,
    /// Message history, oldest first, at most [`MAX_HISTORY_MESSAGES`]
    pub messages: Vec<ConversationMessage>,
    /// Seconds since the epoch at creation
    pub created_at: u64,
    /// Seconds since the epoch at the last message
    pub last_used: u64,
    /// Where the conversation's file lives
    pub storage_path: String,
    /// Which AI provider the conversation talks to
    pub provider_name: String,
}

/// One prompt line: `User: ` or `Assistant: ` before the content and a
/// line break after it; other roles contribute nothing.
pub open spec fn line_of(m: ConversationMessage) -> Seq<char> {
    if m.role@ == "user"@ {
        "User: "@ + m.content@ + "\n"@
    } else if m.role@ == "assistant"@ {
        "Assistant: "@ + m.content@ + "\n"@
    } else {
        Seq::<char>::empty()
    }
}

/// The prompt lines of all messages, in order.
pub open spec fn prompt_body(msgs: Seq<ConversationMessage>) -> Seq<char>
    decreases msgs.len(),
{
    if msgs.len() == 0 {
        Seq::<char>::empty()
    } else {
        prompt_body(msgs.drop_last()) + line_of(msgs.last())
    }
}

impl Conversation {
    /// A fresh conversation: its identifier encodes the creation
    /// instant, its file sits under `storage_dir`.
    pub fn new(storage_dir: &str, provider_name: &str, now_secs: u64) -> (r: Self)
        ensures
            r.id@ == "conv_"@ + text::spec_decimal(now_secs as nat),
            r.messages@.len() == 0,
            r.created_at == now_secs,
            r.last_used == now_secs,
            r.storage_path@ == storage_dir@ + "/"@ + r.id@ + ".json"@,
            r.provider_name@ == provider_name@,
    {
        let id = "conv_".to_owned().concat(text::u64_to_string(now_secs).as_str());
        let storage_path = storage_dir.to_owned().concat("/").concat(id.as_str()).concat(".json");
        Conversation {
            id,
            messages: Vec::new(),
            created_at: now_secs,
            last_used: now_secs,
            storage_path,
            provider_name: provider_name.to_owned(),
        }
    }

    /// Appends a message from the user.
    pub fn add_user_message(&mut self, content: &str, now_secs: u64)
        ensures
            added_message(*old(self), *final(self), "user"@, content@, now_secs),
    {
        self.add_message("user", content, now_secs);
    }

    /// Appends a message from the assistant.
    pub fn add_assistant_message(&mut self, content: &str, now_secs: u64)
        ensures
            added_message(*old(self), *final(self), "assistant"@, content@, now_secs),
    {
        self.add_message("assistant", content, now_secs);
    }

    /// Appends a message and drops the oldest ones beyond the cap.
    #[verifier::loop_isolation(false)]
    fn add_message(&mut self, role: &str, content: &str, now_secs: u64)
        ensures
            added_message(*old(self), *final(self), role@, content@, now_secs),
    {
        self.messages.push(
            ConversationMessage {
                role: role.to_owned(),
                content: content.to_owned(),
                timestamp: now_secs,
            },
        );
        self.last_used = now_secs;
        let ghost appended = self.messages@;
        proof {
            assert(self.messages@ =~= appended.subrange(
                appended.len() - self.messages@.len(),
                appended.len() as int,
            ));
        }
        while self.messages.len() > MAX_HISTORY_MESSAGES
            invariant
                1 <= self.messages@.len() <= appended.len(),
                self.messages@ == appended.subrange(
                    appended.len() - self.messages@.len(),
                    appended.len() as int,
                ),
                self.messages@.len() >= MAX_HISTORY_MESSAGES || self.messages@.len()
                    == appended.len(),
                self.id == old(self).id,
                self.created_at == old(self).created_at,
                self.last_used == now_secs,
                self.storage_path == old(self).storage_path,
                self.provider_name == old(self).provider_name,
            decreases self.messages@.len(),
        {
            let ghost prev = self.messages@;
            self.messages.remove(0);
            proof {
                prev.remove_ensures(0);
                let n = appended.len() as int;
                let a = n - self.messages@.len();
                assert(prev == appended.subrange(a - 1, n));
                assert forall|k: int| 0 <= k < self.messages@.len() implies self.messages@[k]
                    == appended.subrange(a, n)[k] by {
                    assert(self.messages@[k] == prev[k + 1]);
                    assert(prev[k + 1] == appended.subrange(a - 1, n)[k + 1]);
                    assert(appended.subrange(a - 1, n)[k + 1] == appended[a + k]);
                }
                assert(self.messages@ =~= appended.subrange(a, n));
            }
        }
        proof {
            let n0 = old(self).messages@.len() as int;
            let excess: int = if n0 + 1 > MAX_HISTORY_MESSAGES {
                n0 + 1 - MAX_HISTORY_MESSAGES
            } else {
                0
            };
            assert(self.messages@.len() == n0 + 1 - excess);
            assert(forall|i: int|
                0 <= i < self.messages@.len() - 1 ==> #[trigger] self.messages@[i] == old(self).messages@[i + excess]);
        }
    }

    /// The messages, oldest first.
    pub fn get_messages(&self) -> (r: Vec<ConversationMessage>)
        ensures
            r@ == self.messages@,
    {
        let mut r: Vec<ConversationMessage> = Vec::new();
        let mut i: usize = 0;
        while i < self.messages.len()
            invariant
                0 <= i <= self.messages@.len(),
                r@ =~= self.messages@.subrange(0, i as int),
            decreases self.messages@.len() - i,
        {
            r.push(self.messages[i].clone());
            proof {
                assert(r@ =~= self.messages@.subrange(0, i + 1));
            }
            i = i + 1;
        }
        proof {
            assert(r@ =~= self.messages@);
        }
        r
    }

    /// The conversation's identifier.
    pub fn id(&self) -> (r: &str)
        ensures
            r@ == self.id@,
    {
        self.id.as_str()
    }

    /// The provider this conversation talks to.
    pub fn provider_name(&self) -> (r: &str)
        ensures
            r@ == self.provider_name@,
    {
        self.provider_name.as_str()
    }

    /// The prompt for the next provider call: every message on its own
    /// line, then the bare `Assistant:` cue.
    #[verifier::loop_isolation(false)]
    pub fn build_prompt(&self) -> (r: String)
        ensures
            r@ == prompt_body(self.messages@) + "Assistant:"@,
    {
        let mut prompt = String::new();
        let mut i: usize = 0;
        proof {
            assert(prompt@ =~= prompt_body(self.messages@.subrange(0, 0)));
        }
        while i < self.messages.len()
            invariant
                0 <= i <= self.messages@.len(),
                prompt@ == prompt_body(self.messages@.subrange(0, i as int)),
            decreases self.messages@.len() - i,
        {
            let m = &self.messages[i];
            if text::str_eq(m.role.as_str(), "user") {
                prompt.append("User: ");
                prompt.append(m.content.as_str());
                prompt.append("\n");
            } else if text::str_eq(m.role.as_str(), "assistant") {
                prompt.append("Assistant: ");
                prompt.append(m.content.as_str());
                prompt.append("\n");
            }
            proof {
                let prev = self.messages@.subrange(0, i as int);
                let next = self.messages@.subrange(0, i + 1);
                assert(next.drop_last() =~= prev);
                assert(next.last() == self.messages@[i as int]);
                assert(prompt@ =~= prompt_body(next));
            }
            i = i + 1;
        }
        proof {
            assert(self.messages@.subrange(0, self.messages@.len() as int) =~= self.messages@);
        }
        prompt.concat("Assistant:")
    }
}

/// The new state holds the old messages, shifted when the cap was hit,
/// then the new message; the last-used stamp is updated and everything
/// else kept.
pub open spec fn added_message(
    old_c: Conversation,
    new_c: Conversation,
    role: Seq<char>,
    content: Seq<char>,
    now_secs: u64,
) -> bool {
    let n0 = old_c.messages@.len() as int;
    let excess: int = if n0 + 1 > MAX_HISTORY_MESSAGES {
        n0 + 1 - MAX_HISTORY_MESSAGES
    } else {
        0
    };
    &&& new_c.messages@.len() == n0 + 1 - excess
    &&& (forall|i: int|
        0 <= i < new_c.messages@.len() - 1 ==> #[trigger] new_c.messages@[i] == old_c.messages@[i
            + excess])
    &&& new_c.messages@.last().role@ == role
    &&& new_c.messages@.last().content@ == content
    &&& new_c.messages@.last().timestamp == now_secs
    &&& new_c.id == old_c.id
    &&& new_c.created_at == old_c.created_at
    &&& new_c.last_used == now_secs
    &&& new_c.storage_path == old_c.storage_path
    &&& new_c.provider_name == old_c.provider_name
}

/// What the interactive session does with one line of input.
#[derive(Clone, Copy, Debug, PartialEq, Eq, Structural)]
pub enum SessionAction {
    /// Leave the session
    Exit,
    /// Start a fresh conversation
    NewConversation,
    /// Ignore the line
    Skip,
    /// Send the line to the provider
    Send,
}

/// The session's decision for one trimmed input line: `exit` and `quit`
/// leave, `clear` starts over, an empty line is ignored, anything else
/// is sent; the keywords are matched regardless of ASCII case.
pub fn session_step(input: &str) -> (r: SessionAction)
    ensures
        r == (if text::spec_eq_ignore_ascii_case(input@, "exit"@) || text::spec_eq_ignore_ascii_case(
            input@,
            "quit"@,
        ) {
            SessionAction::Exit
        } else if text::spec_eq_ignore_ascii_case(input@, "clear"@) {
            SessionAction::NewConversation
        } else if input@.len() == 0 {
            SessionAction::Skip
        } else {
            SessionAction::Send
        }),
{
    if text::str_eq_ignore_ascii_case(input, "exit") || text::str_eq_ignore_ascii_case(
        input,
        "quit",
    ) {
        SessionAction::Exit
    } else if text::str_eq_ignore_ascii_case(input, "clear") {
        SessionAction::NewConversation
    } else if input.is_empty() {
        SessionAction::Skip
    } else {
        SessionAction::Send
    }
}

/// Whether some conversation carries the identifier `a`.
pub open spec fn has_conversation(s: Seq<Conversation>, a: Seq<char>) -> bool {
    exists|i: int| 0 <= i < s.len() && #[trigger] s[i].id@ == a
}

/// The set of conversations and which one is active.
pub struct ConversationManager {
    /// All known conversations
    pub conversations: Vec<Conversation>,
    /// The identifier of the active conversation, if any
    pub active_conversation_id: Option<String>,
    /// The directory the conversation files live in
    pub storage_dir: String,
}

impl ConversationManager {
    /// An empty manager over `storage_dir`. Loading existing
    /// conversation files is the embedding application's part; it hands
    /// each loaded conversation to [`Self::register_loaded`].
    pub fn new(storage_dir: &str) -> (r: Self)
        ensures
            r.conversations@.len() == 0,
            r.active_conversation_id is None,
            r.storage_dir@ == storage_dir@,
    {
        ConversationManager {
            conversations: Vec::new(),
            active_conversation_id: None,
            storage_dir: storage_dir.to_owned(),
        }
    }

    /// Takes in one conversation loaded from disk.
    pub fn register_loaded(&mut self, c: Conversation)
        ensures
            final(self).conversations@ == old(self).conversations@.push(c),
            final(self).active_conversation_id == old(self).active_conversation_id,
            final(self).storage_dir == old(self).storage_dir,
    {
        self.conversations.push(c);
    }

    /// Makes the most recently used conversation active: the earliest
    /// one among those with the maximal last-used stamp, or none when
    /// there are no conversations.
    #[verifier::loop_isolation(false)]
    pub fn activate_most_recent(&mut self)
        ensures
            final(self).conversations@ == old(self).conversations@,
            final(self).storage_dir == old(self).storage_dir,
            old(self).conversations@.len() == 0 ==> final(self).active_conversation_id is None,
            old(self).conversations@.len() > 0 ==> exists|i: int|
                {
                    &&& 0 <= i < old(self).conversations@.len()
                    &&& (final(self).active_conversation_id matches Some(id) && id@
                        == #[trigger] old(self).conversations@[i].id@)
                    &&& forall|j: int|
                        0 <= j < old(self).conversations@.len()
                            ==> #[trigger] old(self).conversations@[j].last_used <= old(self).conversations@[i].last_used
                    &&& forall|j: int|
                        0 <= j < i ==> #[trigger] old(self).conversations@[j].last_used < old(self).conversations@[i].last_used
                },
    {
        if self.conversations.len() == 0 {
            self.active_conversation_id = None;
            return;
        }
        let mut best: usize = 0;
        let mut i: usize = 1;
        while i < self.conversations.len()
            invariant
                0 <= best < i <= self.conversations@.len(),
                forall|j: int|
                    0 <= j < i ==> #[trigger] self.conversations@[j].last_used
                        <= self.conversations@[best as int].last_used,
                forall|j: int|
                    0 <= j < best ==> #[trigger] self.conversations@[j].last_used
                        < self.conversations@[best as int].last_used,
            decreases self.conversations@.len() - i,
        {
            if self.conversations[i].last_used > self.conversations[best].last_used {
                best = i;
            }
            i = i + 1;
        }
        self.active_conversation_id = Some(self.conversations[best].id.clone());
        proof {
            let cs = old(self).conversations@;
            assert(cs[best as int].id@ == cs[best as int].id@);
            assert(forall|j: int|
                0 <= j < cs.len() ==> #[trigger] cs[j].last_used <= cs[best as int].last_used);
        }
    }

    /// Starts a new conversation and makes it active; the new
    /// identifier is returned. Writing its file is the embedding
    /// application's part.
    pub fn new_conversation(&mut self, provider_name: &str, now_secs: u64) -> (r: String)
        ensures
            final(self).conversations@.len() == old(self).conversations@.len() + 1,
            final(self).conversations@.subrange(0, old(self).conversations@.len() as int) == old(self).conversations@,
            final(self).conversations@.last().id@ == "conv_"@ + text::spec_decimal(
                now_secs as nat,
            ),
            final(self).conversations@.last().messages@.len() == 0,
            final(self).conversations@.last().provider_name@ == provider_name@,
            (final(self).active_conversation_id matches Some(id) && id@ == final(self).conversations@.last().id@),
            r@ == final(self).conversations@.last().id@,
            final(self).storage_dir == old(self).storage_dir,
    {
        let conversation = Conversation::new(self.storage_dir.as_str(), provider_name, now_secs);
        let id = conversation.id.clone();
        let id2 = id.clone();
        self.conversations.push(conversation);
        self.active_conversation_id = Some(id);
        proof {
            assert(final(self).conversations@.subrange(0, old(self).conversations@.len() as int)
                =~= old(self).conversations@);
        }
        id2
    }

    /// The index of the active conversation, creating one for
    /// `provider_name` when none exists.
    #[verifier::loop_isolation(false)]
    pub fn get_active_conversation(&mut self, provider_name: &str, now_secs: u64) -> (idx: usize)
        ensures
            idx < final(self).conversations@.len(),
            (final(self).active_conversation_id matches Some(id) && id@ == final(self).conversations@[idx as int].id@),
            final(self).storage_dir == old(self).storage_dir,
            (old(self).active_conversation_id matches Some(a) && has_conversation(
                old(self).conversations@,
                a@,
            )) ==> (*final(self) == *old(self) && (old(self).active_conversation_id matches Some(
                a2,
            ) && final(self).conversations@[idx as int].id@ == a2@)),
            !(old(self).active_conversation_id matches Some(a) && has_conversation(
                old(self).conversations@,
                a@,
            )) ==> {
                &&& final(self).conversations@.len() == old(self).conversations@.len() + 1
                &&& final(self).conversations@.subrange(
                    0,
                    old(self).conversations@.len() as int,
                ) == old(self).conversations@
                &&& idx == old(self).conversations@.len()
                &&& final(self).conversations@.last().messages@.len() == 0
                &&& final(self).conversations@.last().provider_name@ == provider_name@
            },
    {
        let need_new = match &self.active_conversation_id {
            Some(id) => {
                let mut i: usize = 0;
                let mut found = self.conversations.len();
                while i < self.conversations.len()
                    invariant
                        0 <= i <= self.conversations@.len(),
                        found == self.conversations@.len() || (found < i
                            && self.conversations@[found as int].id@ == id@),
                        found == self.conversations@.len() ==> forall|j: int|
                            0 <= j < i ==> #[trigger] self.conversations@[j].id@ != id@,
                    decreases self.conversations@.len() - i,
                {
                    if found == self.conversations.len() && text::str_eq(
                        self.conversations[i].id.as_str(),
                        id.as_str(),
                    ) {
                        found = i;
                    }
                    i = i + 1;
                }
                if found < self.conversations.len() {
                    return found;
                }
                true
            },
            None => true,
        };
        if need_new {
            self.new_conversation(provider_name, now_secs);
        }
        self.conversations.len() - 1
    }

    /// Makes the conversation with the given identifier active; an
    /// unknown identifier is reported and changes nothing.
    #[verifier::loop_isolation(false)]
    pub fn set_active_conversation(&mut self, id: &str) -> (r: Result<(), String>)
        ensures
            final(self).conversations@ == old(self).conversations@,
            final(self).storage_dir == old(self).storage_dir,
            (r is Ok) == (exists|i: int|
                0 <= i < old(self).conversations@.len() && #[trigger] old(self).conversations@[i].id@ == id@),
            r is Ok ==> (final(self).active_conversation_id matches Some(a) && a@ == id@),
            r is Err ==> final(self).active_conversation_id == old(self).active_conversation_id,
    {
        let mut i: usize = 0;
        while i < self.conversations.len()
            invariant
                0 <= i <= self.conversations@.len(),
                self.conversations@ == old(self).conversations@,
                self.active_conversation_id == old(self).active_conversation_id,
                self.storage_dir == old(self).storage_dir,
                forall|j: int| 0 <= j < i ==> #[trigger] self.conversations@[j].id@ != id@,
            decreases self.conversations@.len() - i,
        {
            if text::str_eq(self.conversations[i].id.as_str(), id) {
                self.active_conversation_id = Some(id.to_owned());
                return Ok(());
            }
            i = i + 1;
        }
        Err("conversation not found".to_owned())
    }

    /// Every conversation's identifier and last-used stamp.
    pub fn list_conversations(&self) -> (r: Vec<(String, u64)>)
        ensures
            r@.len() == self.conversations@.len(),
            forall|i: int|
                0 <= i < r@.len() ==> (#[trigger] r@[i]).0@ == self.conversations@[i].id@
                    && r@[i].1 == self.conversations@[i].last_used,
    {
        let mut r: Vec<(String, u64)> = Vec::new();
        let mut i: usize = 0;
        while i < self.conversations.len()
            invariant
                0 <= i <= self.conversations@.len(),
                r@.len() == i,
                forall|j: int|
                    0 <= j < i ==> (#[trigger] r@[j]).0@ == self.conversations@[j].id@ && r@[j].1
                        == self.conversations@[j].last_used,
            decreases self.conversations@.len() - i,
        {
            r.push((self.conversations[i].id.clone(), self.conversations[i].last_used));
            i = i + 1;
        }
        r
    }

    /// Removes the conversation with the given identifier and reports
    /// the path of its file, for the embedding application to delete;
    /// when the active conversation goes, the first remaining one takes
    /// its place.
    #[verifier::loop_isolation(false)]
    pub fn delete_conversation(&mut self, id: &str) -> (r: Result<String, String>)
        ensures
            final(self).storage_dir == old(self).storage_dir,
            (r is Ok) == (exists|i: int|
                0 <= i < old(self).conversations@.len() && #[trigger] old(self).conversations@[i].id@ == id@),
            r is Err ==> final(self).conversations@ == old(self).conversations@
                && final(self).active_conversation_id == old(self).active_conversation_id,
            r matches Ok(path) ==> exists|i: int|
                {
                    &&& 0 <= i < old(self).conversations@.len()
                    &&& #[trigger] old(self).conversations@[i].id@ == id@
                    &&& path@ == old(self).conversations@[i].storage_path@
                    &&& final(self).conversations@ == old(self).conversations@.remove(i)
                },
    {
        let mut i: usize = 0;
        while i < self.conversations.len()
            invariant
                0 <= i <= self.conversations@.len(),
                self.conversations@ == old(self).conversations@,
                self.active_conversation_id == old(self).active_conversation_id,
                self.storage_dir == old(self).storage_dir,
                forall|j: int| 0 <= j < i ==> #[trigger] self.conversations@[j].id@ != id@,
            decreases self.conversations@.len() - i,
        {
            if text::str_eq(self.conversations[i].id.as_str(), id) {
                let removed = self.conversations.remove(i);
                let was_active = match &self.active_conversation_id {
                    Some(a) => text::str_eq(a.as_str(), id),
                    None => false,
                };
                if was_active {
                    if self.conversations.len() > 0 {
                        self.active_conversation_id = Some(self.conversations[0].id.clone());
                    } else {
                        self.active_conversation_id = None;
                    }
                }
                return Ok(removed.storage_path);
            }
            i = i + 1;
        }
        Err("conversation not found".to_owned())
    }
}

} // verus!
