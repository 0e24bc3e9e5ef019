//! A conversation as it is kept: flat, with every reply a plain string, and
//! live, with every reply cut into blocks again.

use vstd::prelude::*;
use vstd::string::*;
use crate::output::{lemma_fed_raw, ChatOutput, OutputView};

verus! {

/// One turn of a conversation: what the user asked, or what the model said.
#[derive(Debug, PartialEq, Eq)]
pub enum Party<T> {
    Query(String),
    Reply(T),
}

/// One turn as a mathematical value.
pub enum PartyView<V> {
    Query(Seq<char>),
    Reply(V),
}

impl<T: View> View for Party<T> {
    type V = PartyView<T::V>;

    open spec fn view(&self) -> PartyView<T::V> {
        match self {
            Party::Query(q) => PartyView::Query(q@),
            Party::Reply(r) => PartyView::Reply(r@),
        }
    }
}

/// A conversation: its identifier, whose order is the order of creation, the
/// model it was held with, and its turns in order.
#[derive(Debug, PartialEq, Eq)]
pub struct SavedChat<T> {
    pub ulid: u128,
    pub model: String,
    pub content: Vec<Party<T>>,
}

/// A conversation as a mathematical value.
pub struct SavedChatView<V> {
    pub ulid: u128,
    pub model: Seq<char>,
    pub content: Seq<PartyView<V>>,
}

impl<T: View> View for SavedChat<T> {
    type V = SavedChatView<T::V>;

    open spec fn view(&self) -> SavedChatView<T::V> {
        SavedChatView {
            ulid: self.ulid,
            model: self.model@,
            content: self.content@.map_values(|p: Party<T>| p@),
        }
    }
}

impl<T: Clone> Clone for Party<T> {
    /// A copy of the turn: the same question, or a copy of the reply.
    fn clone(&self) -> (r: Self)
        ensures
            match (*self, r) {
                (Party::Query(a), Party::Query(b)) => a == b,
                (Party::Reply(a), Party::Reply(b)) => cloned::<T>(a, b),
                _ => false,
            },
    {
        match self {
            Party::Query(q) => Party::Query(q.clone()),
            Party::Reply(t) => Party::Reply(t.clone()),
        }
    }
}

impl<T: Clone> Clone for SavedChat<T> {
    /// A copy of the conversation, turn by turn.
    fn clone(&self) -> (r: Self)
        ensures
            r.ulid == self.ulid,
            r.model == self.model,
            r.content@.len() == self.content@.len(),
            forall|i: int|
                0 <= i < self.content@.len() ==> cloned::<Party<T>>(
                    #[trigger] self.content@[i],
                    r.content@[i],
                ),
    {
        SavedChat { ulid: self.ulid, model: self.model.clone(), content: self.content.clone() }
    }
}

/// The live form of a flat turn: a reply is taken in by a fresh output, all
/// at once; a query stays as it is.
pub open spec fn rehydrated_party(p: PartyView<Seq<char>>) -> PartyView<OutputView> {
    match p {
        PartyView::Query(q) => PartyView::Query(q),
        PartyView::Reply(text) => PartyView::Reply(OutputView::empty().fed(text)),
    }
}

/// The flat form of a live turn: a reply becomes its raw text; a query stays
/// as it is.
pub open spec fn flattened_party(p: PartyView<OutputView>) -> PartyView<Seq<char>> {
    match p {
        PartyView::Query(q) => PartyView::Query(q),
        PartyView::Reply(output) => PartyView::Reply(output.raw()),
    }
}

/// The live form of a flat conversation, turn by turn.
pub open spec fn rehydrated(s: SavedChatView<Seq<char>>) -> SavedChatView<OutputView> {
    SavedChatView {
        ulid: s.ulid,
        model: s.model,
        content: s.content.map_values(|p: PartyView<Seq<char>>| rehydrated_party(p)),
    }
}

/// The flat form of a live conversation, turn by turn.
pub open spec fn flattened(s: SavedChatView<OutputView>) -> SavedChatView<Seq<char>> {
    SavedChatView {
        ulid: s.ulid,
        model: s.model,
        content: s.content.map_values(|p: PartyView<OutputView>| flattened_party(p)),
    }
}

/// The round trip. Bringing a flat conversation to life and flattening it
/// again gives the flat conversation back, whatever its replies hold.
pub proof fn lemma_round_trip(s: SavedChatView<Seq<char>>)
    ensures
        flattened(rehydrated(s)) == s,
{
    let back = flattened(rehydrated(s));
    assert forall|i: int| 0 <= i < s.content.len() implies back.content[i] == s.content[i] by {
        match s.content[i] {
            PartyView::Query(q) => {},
            PartyView::Reply(text) => {
                lemma_fed_raw(OutputView::empty(), text);
                assert(Seq::<char>::empty() + text =~= text);
            },
        }
    }
    assert(back.content =~= s.content);
}

/// The name of the file that keeps the conversations.
pub const HISTORY_FILE_NAME: &'static str = "history.json";

/// The conversations to start with, from what loading the history gave:
/// what was loaded, and none where nothing could be loaded.
pub fn history_or_empty(loaded: Option<Vec<SavedChat<String>>>) -> (r: Vec<SavedChat<String>>)
    ensures
        match loaded {
            Some(chats) => r == chats,
            None => r@ == Seq::<SavedChat<String>>::empty(),
        },
{
    match loaded {
        Some(chats) => chats,
        None => Vec::new(),
    }
}

/// How many characters of the first question describe a conversation.
pub const DESCRIPTION_LEN: usize = 40;

/// What describes a conversation in a list: the first characters of its first
/// turn where that is a question, and nothing otherwise.
pub open spec fn description_of(s: SavedChatView<Seq<char>>) -> Seq<char> {
    if s.content.len() == 0 {
        Seq::empty()
    } else {
        match s.content[0] {
            PartyView::Query(q) => if q.len() <= DESCRIPTION_LEN {
                q
            } else {
                q.subrange(0, DESCRIPTION_LEN as int)
            },
            PartyView::Reply(_) => Seq::empty(),
        }
    }
}

impl SavedChat<String> {
    /// Brings the conversation to life: every reply is replayed through a
    /// fresh output, which cuts it into blocks again.
    pub fn to_chat_output(self) -> (r: SavedChat<ChatOutput>)
        ensures
            r@ == rehydrated(self@),
    {
        let ghost want = rehydrated(self@).content;
        let ghost turns = self.content@;
        let mut content: Vec<Party<ChatOutput>> = Vec::new();
        for p in it: self.content.into_iter()
            invariant
                it.seq() == turns,
                want == turns.map_values(|p: Party<String>| p@).map_values(
                    |p: PartyView<Seq<char>>| rehydrated_party(p),
                ),
                content@.map_values(|p: Party<ChatOutput>| p@) == want.subrange(0, it.index()),
        {
            let ghost before = content@;
            let turn = match p {
                Party::Query(q) => Party::Query(q),
                Party::Reply(s) => {
                    let mut chat_output = ChatOutput::new();
                    chat_output.add_content(s.as_str());
                    Party::Reply(chat_output)
                },
            };
            proof {
                assert(turn@ == want[it.index()]);
                assert(before.map_values(|p: Party<ChatOutput>| p@).push(turn@) =~= want.subrange(
                    0,
                    it.index() + 1,
                ));
                assert(before.push(turn).map_values(|p: Party<ChatOutput>| p@) =~= before.map_values(
                    |p: Party<ChatOutput>| p@,
                ).push(turn@));
            }
            content.push(turn);
        }
        assert(want.subrange(0, want.len() as int) =~= want);
        SavedChat { ulid: self.ulid, model: self.model, content }
    }

    /// A copy of the conversation that holds the same turns.
    pub fn duplicate(&self) -> (r: Self)
        ensures
            r@ == self@,
    {
        let r = self.clone();
        assert(r@.content =~= self@.content);
        r
    }

    /// What describes the conversation in a list.
    pub fn description(&self) -> (r: String)
        ensures
            r@ == description_of(self@),
    {
        if self.content.len() == 0 {
            String::new()
        } else {
            match &self.content[0] {
                Party::Query(p) => {
                    let len: usize = p.as_str().unicode_len();
                    if len <= DESCRIPTION_LEN {
                        p.clone()
                    } else {
                        p.as_str().substring_char(0, DESCRIPTION_LEN).to_owned()
                    }
                },
                Party::Reply(_) => String::new(),
            }
        }
    }
}

impl SavedChat<ChatOutput> {
    /// The flat form of the conversation, without consuming it.
    pub fn to_flat(&self) -> (r: SavedChat<String>)
        ensures
            r@ == flattened(self@),
    {
        let mut content: Vec<Party<String>> = Vec::new();
        let n: usize = self.content.len();
        let mut i: usize = 0;
        while i < n
            invariant
                n == self.content@.len(),
                i <= n,
                content@.map_values(|p: Party<String>| p@) == flattened(self@).content.subrange(
                    0,
                    i as int,
                ),
            decreases n - i,
        {
            let ghost before = content@;
            let turn = match &self.content[i] {
                Party::Query(q) => Party::Query(q.clone()),
                Party::Reply(s) => Party::Reply(s.raw()),
            };
            proof {
                let want = flattened(self@).content;
                assert(want[i as int] == flattened_party(self.content@[i as int]@));
                assert(turn@ == want[i as int]);
                assert(before.map_values(|p: Party<String>| p@).push(turn@) =~= want.subrange(
                    0,
                    i + 1,
                ));
                assert(before.push(turn).map_values(|p: Party<String>| p@) =~= before.map_values(
                    |p: Party<String>| p@,
                ).push(turn@));
            }
            content.push(turn);
            i += 1;
        }
        assert(flattened(self@).content.subrange(0, n as int) =~= flattened(self@).content);
        SavedChat { ulid: self.ulid, model: self.model.clone(), content }
    }

    /// The flat form of the conversation: every reply becomes its raw text.
    pub fn flatten_output(self) -> (r: SavedChat<String>)
        ensures
            r@ == flattened(self@),
    {
        self.to_flat()
    }
}

} // verus!
