//! The open conversations, one tab each, beside the list of those kept.

use vstd::prelude::*;
use crate::api::LocalModel;
use crate::chat::{finished, received, sent, Chat, ChatState};
use crate::history::{flattened, rehydrated, Party, SavedChat};
use crate::output::ChatOutput;
use crate::sidebar::{
    first_kept, is_first_with_ulid, is_stable_sort_of, lemma_first_kept, lemma_first_kept_is, Sidebar,
};

verus! {

/// Whether the list of kept conversations is shown in full.
#[derive(Clone, Copy, Debug, PartialEq, Eq, Structural)]
pub enum SidebarVisibility {
    Expanded,
    Collapsed,
}

impl Default for SidebarVisibility {
    /// The list is shown in full to begin with.
    fn default() -> (r: Self)
        ensures
            r == SidebarVisibility::Expanded,
    {
        SidebarVisibility::Expanded
    }
}

impl SidebarVisibility {
    /// The other of the two.
    pub fn toggle(self) -> (r: Self)
        ensures
            r != self,
    {
        match self {
            SidebarVisibility::Expanded => SidebarVisibility::Collapsed,
            SidebarVisibility::Collapsed => SidebarVisibility::Expanded,
        }
    }
}

/// What is shown while no conversation is open.
#[derive(Clone, Copy, Debug, PartialEq, Eq, Structural)]
pub struct EmptyChats {}

impl EmptyChats {
    /// The one value of the type.
    pub fn new() -> (r: Self)
        ensures
            r == (EmptyChats {  }),
    {
        EmptyChats {  }
    }
}

/// The open conversations and the one in view, and the list of those kept.
pub struct Main {
    pub home: EmptyChats,
    pub chat_view: usize,
    pub tabs: Vec<Chat>,
    pub sidebar: Sidebar,
    pub sidebar_visibility: SidebarVisibility,
}

/// The first tab whose conversation has the identifier `ulid` is tab `i`.
pub open spec fn is_first_tab(tabs: Seq<Chat>, ulid: u128, i: int) -> bool {
    &&& 0 <= i < tabs.len()
    &&& tabs[i].previous.ulid == ulid
    &&& forall|j: int| 0 <= j < i ==> tabs[j].previous.ulid != ulid
}

/// No tab holds a conversation with the identifier `ulid`.
pub open spec fn no_tab(tabs: Seq<Chat>, ulid: u128) -> bool {
    forall|j: int| 0 <= j < tabs.len() ==> tabs[j].previous.ulid != ulid
}

/// A conversation that has just been opened from `saved`: its turns brought
/// to life, and an empty draft.
pub open spec fn opened_from(chat: Chat, saved: SavedChat<String>) -> bool {
    &&& chat.previous@ == rehydrated(saved@)
    &&& chat.state matches ChatState::Prompting(draft) && draft@ == Seq::<char>::empty()
}

/// A conversation with `model` that has just been started: no turn, and an
/// empty draft.
pub open spec fn started_with(chat: Chat, model: LocalModel) -> bool {
    &&& chat.previous.model@ == model.name@
    &&& chat.previous.content@ == Seq::<Party<ChatOutput>>::empty()
    &&& chat.state matches ChatState::Prompting(draft) && draft@ == Seq::<char>::empty()
}

impl Main {
    /// No conversation open, the first tab in view, the list of kept
    /// conversations as given and shown in full.
    pub fn new(chats: Vec<SavedChat<String>>) -> (r: Self)
        ensures
            r.chat_view == 0,
            r.tabs@ == Seq::<Chat>::empty(),
            r.sidebar.chats == chats,
            r.sidebar_visibility == SidebarVisibility::Expanded,
    {
        Self {
            home: EmptyChats::new(),
            chat_view: 0,
            tabs: Vec::new(),
            sidebar: Sidebar::new(chats),
            sidebar_visibility: SidebarVisibility::default(),
        }
    }

    /// Everything but the tabs is as it was in `before`.
    pub open spec fn same_but_tabs(&self, before: &Main) -> bool {
        &&& self.home == before.home
        &&& self.chat_view == before.chat_view
        &&& self.sidebar == before.sidebar
        &&& self.sidebar_visibility == before.sidebar_visibility
    }

    /// The tabs are those of `before`, but for tab `i`.
    pub open spec fn same_tabs_but(&self, before: &Main, i: int) -> bool {
        &&& self.tabs@.len() == before.tabs@.len()
        &&& forall|j: int| 0 <= j < self.tabs@.len() && j != i ==> self.tabs@[j] == before.tabs@[j]
    }

    /// Opens a new conversation with `model` in a new last tab.
    pub fn add_new(&mut self, model: LocalModel)
        ensures
            final(self).same_but_tabs(old(self)),
            final(self).tabs@.len() == old(self).tabs@.len() + 1,
            final(self).tabs@.drop_last() == old(self).tabs@,
            started_with(final(self).tabs@.last(), model),
    {
        self.tabs.push(Chat::new(model));
        assert(self.tabs@.drop_last() =~= old(self).tabs@);
    }

    /// Opens a kept conversation in a new last tab.
    pub fn add_saved(&mut self, saved_chat: SavedChat<String>)
        ensures
            final(self).same_but_tabs(old(self)),
            final(self).tabs@.len() == old(self).tabs@.len() + 1,
            final(self).tabs@.drop_last() == old(self).tabs@,
            opened_from(final(self).tabs@.last(), saved_chat),
    {
        self.tabs.push(Chat::from_saved(saved_chat));
        assert(self.tabs@.drop_last() =~= old(self).tabs@);
    }

    /// The first tab whose conversation has the identifier `ulid`.
    pub fn find_chat_position(&self, ulid: u128) -> (r: Option<usize>)
        ensures
            match r {
                Some(i) => is_first_tab(self.tabs@, ulid, i as int),
                None => no_tab(self.tabs@, ulid),
            },
    {
        let mut i: usize = 0;
        while i < self.tabs.len()
            invariant
                i <= self.tabs@.len(),
                forall|j: int| 0 <= j < i ==> self.tabs@[j].previous.ulid != ulid,
            decreases self.tabs@.len() - i,
        {
            if self.tabs[i].ulid() == ulid {
                return Some(i);
            }
            i += 1;
        }
        None
    }

    /// The conversation of the first tab that has the identifier `ulid`.
    pub fn find_chat(&self, ulid: u128) -> (r: Option<&Chat>)
        ensures
            match r {
                Some(chat) => exists|i: int|
                    is_first_tab(self.tabs@, ulid, i) && *chat == self.tabs@[i],
                None => no_tab(self.tabs@, ulid),
            },
    {
        match self.find_chat_position(ulid) {
            Some(i) => Some(&self.tabs[i]),
            None => None,
        }
    }

    /// The conversation of the first tab that has the identifier `ulid`, to
    /// be changed in place.
    pub fn find_chat_mut(&mut self, ulid: u128) -> (r: Option<&mut Chat>)
        ensures
            match r {
                Some(chat) => exists|i: int|
                    {
                        &&& is_first_tab(old(self).tabs@, ulid, i)
                        &&& *chat == old(self).tabs@[i]
                        &&& final(self).tabs@ == old(self).tabs@.update(i, *final(chat))
                        &&& final(self).same_but_tabs(old(self))
                    },
                None => no_tab(old(self).tabs@, ulid) && *final(self) == *old(self),
            },
    {
        match self.find_chat_position(ulid) {
            Some(i) => Some(&mut self.tabs[i]),
            None => None,
        }
    }

    /// Closes the first tab whose conversation has the identifier `ulid`, and
    /// says whether there was one. The tab in view keeps its number.
    pub fn close_chat(&mut self, ulid: u128) -> (r: bool)
        ensures
            final(self).same_but_tabs(old(self)),
            r ==> exists|i: int|
                is_first_tab(old(self).tabs@, ulid, i) && final(self).tabs@ == old(self).tabs@.remove(i),
            !r ==> no_tab(old(self).tabs@, ulid) && final(self).tabs@ == old(self).tabs@,
    {
        match self.find_chat_position(ulid) {
            Some(idx) => {
                self.tabs.remove(idx);
                true
            },
            None => false,
        }
    }

    /// Brings the first tab whose conversation has the identifier `ulid` into
    /// view, and says whether there was one.
    pub fn select_chat(&mut self, ulid: u128) -> (r: bool)
        ensures
            final(self).home == old(self).home,
            final(self).tabs == old(self).tabs,
            final(self).sidebar == old(self).sidebar,
            final(self).sidebar_visibility == old(self).sidebar_visibility,
            r ==> is_first_tab(old(self).tabs@, ulid, final(self).chat_view as int),
            !r ==> no_tab(old(self).tabs@, ulid) && final(self).chat_view == old(self).chat_view,
    {
        match self.find_chat_position(ulid) {
            Some(idx) => {
                self.chat_view = idx;
                true
            },
            None => false,
        }
    }

    /// Shows the list of kept conversations in full if it was collapsed, and
    /// collapses it if it was shown in full.
    pub fn toggle_sidebar(&mut self)
        ensures
            final(self).home == old(self).home,
            final(self).chat_view == old(self).chat_view,
            final(self).tabs == old(self).tabs,
            final(self).sidebar == old(self).sidebar,
            final(self).sidebar_visibility != old(self).sidebar_visibility,
    {
        self.sidebar_visibility = self.sidebar_visibility.toggle();
    }

    /// Replaces the draft of the conversation in view, and says whether a
    /// conversation is in view. A conversation that is being answered keeps
    /// its state.
    pub fn edit_prompt(&mut self, draft: String) -> (r: bool)
        ensures
            final(self).same_but_tabs(old(self)),
            r == (old(self).chat_view < old(self).tabs@.len()),
            r ==> {
                let i = old(self).chat_view as int;
                &&& final(self).same_tabs_but(old(self), i)
                &&& match old(self).tabs@[i].state {
                    ChatState::Prompting(_) => {
                        &&& final(self).tabs@[i].previous == old(self).tabs@[i].previous
                        &&& final(self).tabs@[i].state == ChatState::Prompting(draft)
                    },
                    ChatState::Generating(_) => final(self).tabs@[i] == old(self).tabs@[i],
                }
            },
            !r ==> final(self).tabs@ == old(self).tabs@,
    {
        if self.chat_view < self.tabs.len() {
            let chat = &mut self.tabs[self.chat_view];
            chat.edit_draft(draft);
            true
        } else {
            false
        }
    }

    /// Sends the draft of the conversation in view, if that conversation
    /// waits for a prompt, and returns what the request to the model needs:
    /// the identifier of the conversation, the name of its model and the
    /// prompt. `None`, and nothing changes, where no conversation is in view
    /// or the one in view is being answered: a conversation has one answer
    /// under way at a time.
    pub fn send_prompt(&mut self) -> (r: Option<(u128, String, String)>)
        ensures
            final(self).same_but_tabs(old(self)),
            r is Some == (old(self).chat_view < old(self).tabs@.len() && old(self).tabs@[old(self).chat_view as int].state is Prompting),
            match r {
                Some((ulid, model, prompt)) => {
                    let i = old(self).chat_view as int;
                    &&& ulid == old(self).tabs@[i].previous.ulid
                    &&& model@ == old(self).tabs@[i].previous.model@
                    &&& final(self).same_tabs_but(old(self), i)
                    &&& sent(old(self).tabs@[i], final(self).tabs@[i], prompt@)
                },
                None => final(self).tabs@ == old(self).tabs@,
            },
    {
        if self.chat_view < self.tabs.len() {
            if let ChatState::Prompting(_) = &self.tabs[self.chat_view].state {
                let chat = &mut self.tabs[self.chat_view];
                let ulid = chat.ulid();
                let model = chat.model();
                let prompt = chat.set_generating();
                return Some((ulid, model, prompt));
            }
        }
        None
    }

    /// Hands a piece of an answer to the first tab whose conversation has
    /// the identifier `ulid`, and says whether there was one.
    pub fn stream_content(&mut self, ulid: u128, text: &str) -> (r: bool)
        ensures
            final(self).same_but_tabs(old(self)),
            r ==> exists|i: int|
                {
                    &&& is_first_tab(old(self).tabs@, ulid, i)
                    &&& final(self).same_tabs_but(old(self), i)
                    &&& received(old(self).tabs@[i], text@, final(self).tabs@[i])
                },
            !r ==> no_tab(old(self).tabs@, ulid) && final(self).tabs@ == old(self).tabs@,
    {
        match self.find_chat_position(ulid) {
            Some(idx) => {
                let chat = &mut self.tabs[idx];
                chat.add_content(text);
                proof {
                    let i = idx as int;
                    assert(is_first_tab(old(self).tabs@, ulid, i));
                    assert(self.same_tabs_but(old(self), i));
                    assert(received(old(self).tabs@[i], text@, self.tabs@[i]));
                }
                true
            },
            None => false,
        }
    }

    /// Ends the answer in the first tab whose conversation has the identifier
    /// `ulid`, if that conversation is being answered, and adds the
    /// conversation as it then stands to the list of those kept. Says whether
    /// it did, which is when the list has changed and is to be written. Where
    /// there is no such tab, or its conversation waits for a prompt, nothing
    /// was finished and nothing changes.
    pub fn stream_finished(&mut self, ulid: u128) -> (r: bool)
        ensures
            final(self).home == old(self).home,
            final(self).chat_view == old(self).chat_view,
            final(self).sidebar_visibility == old(self).sidebar_visibility,
            r == exists|i: int|
                is_first_tab(old(self).tabs@, ulid, i) && old(self).tabs@[i].state is Generating,
            r ==> exists|i: int, saved: SavedChat<String>|
                {
                    &&& is_first_tab(old(self).tabs@, ulid, i)
                    &&& final(self).same_tabs_but(old(self), i)
                    &&& finished(old(self).tabs@[i], final(self).tabs@[i])
                    &&& saved@ == flattened(final(self).tabs@[i].previous@)
                    &&& is_stable_sort_of(
                        final(self).sidebar.chats@,
                        old(self).sidebar.chats@.push(saved),
                    )
                },
            !r ==> final(self).tabs@ == old(self).tabs@ && final(self).sidebar == old(self).sidebar,
    {
        if let Some(idx) = self.find_chat_position(ulid) {
            if let ChatState::Generating(_) = &self.tabs[idx].state {
                let chat = &mut self.tabs[idx];
                chat.set_finish();
                let saved = chat.to_saved();
                self.sidebar.add_chat(saved);
                proof {
                    let i = idx as int;
                    assert(is_first_tab(old(self).tabs@, ulid, i));
                    assert(old(self).tabs@[i].state is Generating);
                    assert(self.same_tabs_but(old(self), i));
                    assert(finished(old(self).tabs@[i], self.tabs@[i]));
                    assert(saved@ == flattened(self.tabs@[i].previous@));
                    assert(is_stable_sort_of(
                        self.sidebar.chats@,
                        old(self).sidebar.chats@.push(saved),
                    ));
                }
                return true;
            }
            proof {
                assert forall|i: int| is_first_tab(old(self).tabs@, ulid, i) implies i == idx by {
                    if i < idx {
                    }
                    if idx < i {
                    }
                }
            }
        }
        false
    }

    /// Goes to a kept conversation. Where a tab holds a conversation with the
    /// identifier `ulid`, the first such tab comes into view. Otherwise the
    /// first kept conversation with that identifier, if there is one, is
    /// opened in a new last tab, and the tab in view keeps its number.
    pub fn open_history(&mut self, ulid: u128)
        ensures
            final(self).home == old(self).home,
            final(self).sidebar == old(self).sidebar,
            final(self).sidebar_visibility == old(self).sidebar_visibility,
            !no_tab(old(self).tabs@, ulid) ==> {
                &&& final(self).tabs == old(self).tabs
                &&& is_first_tab(old(self).tabs@, ulid, final(self).chat_view as int)
            },
            no_tab(old(self).tabs@, ulid) ==> {
                &&& final(self).chat_view == old(self).chat_view
                &&& match first_kept(old(self).sidebar.chats@, ulid) {
                    Some(k) => {
                        &&& final(self).tabs@.len() == old(self).tabs@.len() + 1
                        &&& final(self).tabs@.drop_last() == old(self).tabs@
                        &&& opened_from(final(self).tabs@.last(), old(self).sidebar.chats@[k])
                    },
                    None => final(self).tabs@ == old(self).tabs@,
                }
            },
    {
        if let Some(chat_idx) = self.find_chat_position(ulid) {
            self.chat_view = chat_idx;
            return ;
        }
        proof {
            lemma_first_kept(self.sidebar.chats@, ulid);
        }
        if let Some(idx) = self.sidebar.position(ulid) {
            proof {
                lemma_first_kept_is(self.sidebar.chats@, ulid, idx as int);
            }
            let saved_chat = self.sidebar.chats[idx].duplicate();
            self.add_saved(saved_chat);
        }
    }

    /// Removes the first kept conversation that has the identifier `ulid`
    /// from the list, and says whether there was one, which is when the list
    /// is to be written.
    pub fn delete_history(&mut self, ulid: u128) -> (r: bool)
        ensures
            final(self).home == old(self).home,
            final(self).chat_view == old(self).chat_view,
            final(self).tabs == old(self).tabs,
            final(self).sidebar_visibility == old(self).sidebar_visibility,
            r ==> exists|i: int|
                is_first_with_ulid(old(self).sidebar.chats@, ulid, i) && final(self).sidebar.chats@ == old(self).sidebar.chats@.remove(i),
            !r ==> final(self).sidebar.chats@ == old(self).sidebar.chats@ && forall|i: int|
                0 <= i < old(self).sidebar.chats@.len() ==> old(self).sidebar.chats@[i].ulid
                    != ulid,
    {
        self.sidebar.remove_chat(ulid)
    }
}

} // verus!
