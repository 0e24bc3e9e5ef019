//! One conversation with a model: the turns that are finished, and the turn
//! that is being written or answered.

use vstd::prelude::*;
use vstd::string::*;
use std::time::SystemTime;
use crate::api::LocalModel;
use crate::history::{flattened, rehydrated, Party, SavedChat};
use crate::output::{ChatOutput, OutputView};
use crate::stamp::{fresh_ulid, local_creation_time, now};

verus! {

/// A conversation that is open: its finished turns, and what happens now.
pub struct Chat {
    pub previous: SavedChat<ChatOutput>,
    pub state: ChatState,
}

/// What happens now in a conversation: the user writes a prompt, or the model
/// answers one.
pub enum ChatState {
    Prompting(String),
    Generating(ChatGenerating),
}

impl Default for ChatState {
    /// The state of a conversation that waits for a prompt: an empty draft.
    fn default() -> (r: Self)
        ensures
            r matches ChatState::Prompting(draft) && draft@ == Seq::<char>::empty(),
    {
        ChatState::Prompting(String::new())
    }
}

/// A prompt that is being answered: when it was sent, and the answer so far.
pub struct ChatGenerating {
    pub prompt: String,
    pub start: SystemTime,
    pub output: ChatOutput,
}

impl ChatGenerating {
    /// The answer to `prompt`, sent at `start`, of which nothing has arrived.
    pub fn started(prompt: String, start: SystemTime) -> (r: Self)
        ensures
            r.prompt == prompt,
            r.start == start,
            r.output@ == OutputView::empty(),
    {
        Self { prompt, start, output: ChatOutput::new() }
    }
}

/// How the time at which a conversation was made is written in its title:
/// year-month-day, a space, hour:minute:second.
pub const DATE_FORMAT: &'static str = "%Y-%m-%d %H:%M:%S";

/// The title of a conversation made at `date`.
pub open spec fn chat_title(date: Seq<char>) -> Seq<char> {
    "Chat "@ + date
}

impl Chat {
    /// A conversation with `model` that has the identifier `ulid` and no turn
    /// yet, waiting for its first prompt.
    pub fn with_ulid(ulid: u128, model: LocalModel) -> (r: Self)
        ensures
            r.previous.ulid == ulid,
            r.previous.model@ == model.name@,
            r.previous.content@ == Seq::<Party<ChatOutput>>::empty(),
            r.state matches ChatState::Prompting(draft) && draft@ == Seq::<char>::empty(),
    {
        Self {
            previous: SavedChat { ulid, model: model.name().clone(), content: Vec::new() },
            state: ChatState::default(),
        }
    }

    /// A new conversation with `model`, under a fresh identifier: no turn yet,
    /// waiting for its first prompt.
    pub fn new(model: LocalModel) -> (r: Self)
        ensures
            r.previous.model@ == model.name@,
            r.previous.content@ == Seq::<Party<ChatOutput>>::empty(),
            r.state matches ChatState::Prompting(draft) && draft@ == Seq::<char>::empty(),
    {
        Self::with_ulid(fresh_ulid(), model)
    }

    /// The identifier of the conversation.
    pub fn ulid(&self) -> (r: u128)
        ensures
            r == self.previous.ulid,
    {
        self.previous.ulid
    }

    /// The name of the model that the conversation is held with.
    pub fn model(&self) -> (r: String)
        ensures
            r@ == self.previous.model@,
    {
        self.previous.model.clone()
    }

    /// Opens a conversation that was kept: its replies are cut into blocks
    /// again, and it waits for the next prompt.
    pub fn from_saved(chat: SavedChat<String>) -> (r: Self)
        ensures
            r.previous@ == rehydrated(chat@),
            r.state matches ChatState::Prompting(draft) && draft@ == Seq::<char>::empty(),
    {
        let previous = chat.to_chat_output();
        Self { previous, state: ChatState::default() }
    }

    /// The finished turns in the form in which they are kept.
    pub fn to_saved(&self) -> (r: SavedChat<String>)
        ensures
            r@ == flattened(self.previous@),
    {
        self.previous.to_flat()
    }

    /// The title made of the word Chat and `date`.
    pub fn title(date: &str) -> (r: String)
        ensures
            r@ == chat_title(date@),
    {
        let mut title = "Chat ".to_owned();
        title.append(date);
        title
    }

    /// The title of the conversation: the word Chat and the local time at
    /// which the conversation was made, which its identifier holds.
    pub fn name(&self) -> (r: String)
        ensures
            exists|date: Seq<char>| r@ == chat_title(date),
    {
        let date = local_creation_time(self.previous.ulid, DATE_FORMAT);
        Self::title(date.as_str())
    }

    /// Replaces the draft. While a prompt is being answered nothing changes.
    pub fn edit_draft(&mut self, draft: String)
        ensures
            match old(self).state {
                ChatState::Prompting(_) => {
                    &&& final(self).previous == old(self).previous
                    &&& final(self).state == ChatState::Prompting(draft)
                },
                ChatState::Generating(_) => *final(self) == *old(self),
            },
    {
        match &self.state {
            ChatState::Prompting(_) => {
                self.state = ChatState::Prompting(draft);
            },
            ChatState::Generating(_) => {},
        }
    }

    /// Sends the draft, at `start`: the draft becomes the prompt that is
    /// being answered, with nothing received yet, and is returned. While a
    /// prompt is being answered nothing changes, and the empty string is
    /// returned.
    pub fn set_generating_at(&mut self, start: SystemTime) -> (r: String)
        ensures
            sent(*old(self), *final(self), r@),
            final(self).state matches ChatState::Generating(generating) && (old(self).state
                is Prompting ==> generating.start == start),
    {
        match &self.state {
            ChatState::Prompting(prompt) => {
                let prompt = prompt.clone();
                self.state = ChatState::Generating(ChatGenerating::started(prompt.clone(), start));
                prompt
            },
            ChatState::Generating(_) => String::new(),
        }
    }

    /// Sends the draft now: as `set_generating_at`, with the time of the
    /// system clock.
    pub fn set_generating(&mut self) -> (r: String)
        ensures
            sent(*old(self), *final(self), r@),
    {
        self.set_generating_at(now())
    }

    /// Ends the answer: the prompt and the answer received so far become the
    /// last two turns, whether or not the answer ends in a finished block, and
    /// the conversation waits for the next prompt with an empty draft. While
    /// no prompt is being answered nothing changes.
    pub fn set_finish(&mut self)
        ensures
            finished(*old(self), *final(self)),
    {
        let mut prev_state = ChatState::default();
        core::mem::swap(&mut prev_state, &mut self.state);
        match prev_state {
            ChatState::Prompting(content) => {
                self.state = ChatState::Prompting(content);
            },
            ChatState::Generating(generating) => {
                self.previous.content.push(Party::Query(generating.prompt));
                self.previous.content.push(Party::Reply(generating.output));
            },
        }
    }

    /// Receives a piece of the answer. While no prompt is being answered
    /// nothing changes.
    pub fn add_content(&mut self, text: &str)
        ensures
            received(*old(self), text@, *final(self)),
    {
        match &mut self.state {
            ChatState::Prompting(_) => {},
            ChatState::Generating(generating) => {
                generating.output.add_content(text);
            },
        }
    }
}

/// What sending the draft does to a conversation. From the draft: the draft
/// is returned and becomes the prompt that is being answered, of whose answer
/// nothing has arrived; the finished turns stay. Otherwise: nothing changes,
/// and the empty string is returned.
pub open spec fn sent(before: Chat, after: Chat, returned: Seq<char>) -> bool {
    match before.state {
        ChatState::Prompting(draft) => {
            &&& returned == draft@
            &&& after.previous == before.previous
            &&& after.state matches ChatState::Generating(generating) && generating.prompt == draft
                && generating.output@ == OutputView::empty()
        },
        ChatState::Generating(_) => returned == Seq::<char>::empty() && after == before,
    }
}

/// What receiving `text` does to a conversation. While a prompt is being
/// answered: the answer takes the text in, and nothing else changes; an empty
/// text leaves the answer as it is. Otherwise: nothing changes.
pub open spec fn received(before: Chat, text: Seq<char>, after: Chat) -> bool {
    match before.state {
        ChatState::Prompting(_) => after == before,
        ChatState::Generating(generating) => {
            &&& after.previous == before.previous
            &&& after.state matches ChatState::Generating(now) && now.prompt == generating.prompt
                && now.start == generating.start && now.output@ == generating.output@.fed(text)
                && (text.len() == 0 ==> now.output@ == generating.output@)
        },
    }
}

/// What ending the answer does to a conversation. While a prompt is being
/// answered: the prompt and the answer become the last two turns, and the
/// draft is empty. Otherwise: nothing changes.
pub open spec fn finished(before: Chat, after: Chat) -> bool {
    match before.state {
        ChatState::Prompting(_) => after == before,
        ChatState::Generating(generating) => {
            &&& after.previous.ulid == before.previous.ulid
            &&& after.previous.model == before.previous.model
            &&& after.previous.content@ == before.previous.content@.push(
                Party::Query(generating.prompt),
            ).push(Party::Reply(generating.output))
            &&& after.state matches ChatState::Prompting(draft) && draft@ == Seq::<char>::empty()
        },
    }
}

} // verus!
