//! The conversations that are kept, in the order of their identifiers.

use vstd::prelude::*;
use crate::history::SavedChat;

verus! {

/// The list of the conversations that are kept.
pub struct Sidebar {
    pub chats: Vec<SavedChat<String>>,
}

/// The identifiers never go down along the list.
pub open spec fn sorted_by_ulid(chats: Seq<SavedChat<String>>) -> bool {
    forall|i: int, j: int| 0 <= i < j < chats.len() ==> chats[i].ulid <= chats[j].ulid
}

/// The conversations of the list that have the identifier `ulid`, in the
/// order of the list.
pub open spec fn with_ulid(chats: Seq<SavedChat<String>>, ulid: u128) -> Seq<SavedChat<String>> {
    chats.filter(|c: SavedChat<String>| c.ulid == ulid)
}

/// `sorted` holds the conversations of `chats` in the order of their
/// identifiers, and those with the same identifier in the order in which
/// `chats` holds them.
pub open spec fn is_stable_sort_of(
    sorted: Seq<SavedChat<String>>,
    chats: Seq<SavedChat<String>>,
) -> bool {
    &&& sorted_by_ulid(sorted)
    &&& forall|ulid: u128| with_ulid(sorted, ulid) == with_ulid(chats, ulid)
}

/// The first place in the list at which a conversation has the identifier
/// `ulid`, if there is one.
pub open spec fn is_first_with_ulid(chats: Seq<SavedChat<String>>, ulid: u128, i: int) -> bool {
    &&& 0 <= i < chats.len()
    &&& chats[i].ulid == ulid
    &&& forall|j: int| 0 <= j < i ==> chats[j].ulid != ulid
}

/// The first place in the list at which a conversation has the identifier
/// `ulid`, if there is one.
pub open spec fn first_kept(chats: Seq<SavedChat<String>>, ulid: u128) -> Option<int> {
    if exists|i: int| is_first_with_ulid(chats, ulid, i) {
        Some(choose|i: int| is_first_with_ulid(chats, ulid, i))
    } else {
        None
    }
}

/// What `first_kept` returns is the first place with the identifier, and
/// `None` means that no conversation of the list has it.
pub proof fn lemma_first_kept(chats: Seq<SavedChat<String>>, ulid: u128)
    ensures
        match first_kept(chats, ulid) {
            Some(i) => is_first_with_ulid(chats, ulid, i),
            None => forall|i: int| 0 <= i < chats.len() ==> chats[i].ulid != ulid,
        },
{
    if first_kept(chats, ulid) is None {
        assert forall|i: int| 0 <= i < chats.len() implies chats[i].ulid != ulid by {
            if chats[i].ulid == ulid {
                lemma_least_with_ulid(chats, ulid, i);
            }
        }
    }
}

/// Below any conversation with the identifier there is a first one.
proof fn lemma_least_with_ulid(chats: Seq<SavedChat<String>>, ulid: u128, i: int)
    requires
        0 <= i < chats.len(),
        chats[i].ulid == ulid,
    ensures
        exists|k: int| is_first_with_ulid(chats, ulid, k),
    decreases i,
{
    if forall|j: int| 0 <= j < i ==> chats[j].ulid != ulid {
        assert(is_first_with_ulid(chats, ulid, i));
    } else {
        let j = choose|j: int| 0 <= j < i && chats[j].ulid == ulid;
        lemma_least_with_ulid(chats, ulid, j);
    }
}

/// The first place with the identifier is the one that `first_kept` returns.
pub proof fn lemma_first_kept_is(chats: Seq<SavedChat<String>>, ulid: u128, i: int)
    requires
        is_first_with_ulid(chats, ulid, i),
    ensures
        first_kept(chats, ulid) == Some(i),
{
    let c = choose|k: int| is_first_with_ulid(chats, ulid, k);
    if c < i {
    }
    if i < c {
    }
}

/// Nothing is kept of a list in which no conversation has the identifier.
proof fn lemma_with_ulid_none(chats: Seq<SavedChat<String>>, ulid: u128)
    requires
        forall|i: int| 0 <= i < chats.len() ==> chats[i].ulid != ulid,
    ensures
        with_ulid(chats, ulid) == Seq::<SavedChat<String>>::empty(),
{
    let pred = |c: SavedChat<String>| c.ulid == ulid;
    let kept = chats.filter(pred);
    if kept.len() > 0 {
        chats.lemma_filter_pred(pred, 0);
        chats.lemma_filter_contains_rev(pred, kept[0]);
        assert(kept.contains(kept[0]));
    }
    assert(kept =~= Seq::empty());
}

/// Putting `chat` into a sorted list behind the last conversation whose
/// identifier is not larger gives the stable sort of the list with `chat`
/// added at its end.
proof fn lemma_insert_in_order(chats: Seq<SavedChat<String>>, chat: SavedChat<String>, p: int)
    requires
        sorted_by_ulid(chats),
        0 <= p <= chats.len(),
        forall|j: int| 0 <= j < p ==> chats[j].ulid <= chat.ulid,
        forall|j: int| p <= j < chats.len() ==> chats[j].ulid > chat.ulid,
    ensures
        is_stable_sort_of(chats.insert(p, chat), chats.push(chat)),
{
    let out = chats.insert(p, chat);
    let front = chats.subrange(0, p);
    let back = chats.subrange(p, chats.len() as int);
    let one = seq![chat];
    chats.insert_ensures(p, chat);
    assert forall|i: int, j: int| 0 <= i < j < out.len() implies out[i].ulid <= out[j].ulid by {
        if j < p {
        } else if j == p {
        } else if i < p {
            assert(out[j] == chats[j - 1]);
        } else if i == p {
            assert(out[j] == chats[j - 1]);
        } else {
            assert(out[i] == chats[i - 1]);
            assert(out[j] == chats[j - 1]);
        }
    }
    assert forall|ulid: u128| with_ulid(out, ulid) == with_ulid(chats.push(chat), ulid) by {
        let pred = |c: SavedChat<String>| c.ulid == ulid;
        assert(out =~= (front + one) + back);
        assert(chats.push(chat) =~= (front + back) + one);
        Seq::filter_distributes_over_add(front + one, back, pred);
        Seq::filter_distributes_over_add(front, one, pred);
        Seq::filter_distributes_over_add(front + back, one, pred);
        Seq::filter_distributes_over_add(front, back, pred);
        if ulid == chat.ulid {
            lemma_with_ulid_none(back, ulid);
        } else {
            lemma_with_ulid_none(one, ulid);
        }
        assert((front.filter(pred) + one.filter(pred)) + back.filter(pred) =~= (front.filter(pred)
            + back.filter(pred)) + one.filter(pred));
    }
}

/// A list has one stable sort only: two lists that are both a stable sort of
/// `chats` are equal.
pub proof fn lemma_stable_sort_unique(
    a: Seq<SavedChat<String>>,
    b: Seq<SavedChat<String>>,
    chats: Seq<SavedChat<String>>,
)
    requires
        is_stable_sort_of(a, chats),
        is_stable_sort_of(b, chats),
    ensures
        a == b,
{
    assert forall|ulid: u128| with_ulid(a, ulid) == with_ulid(b, ulid) by {
        assert(with_ulid(a, ulid) == with_ulid(chats, ulid));
        assert(with_ulid(b, ulid) == with_ulid(chats, ulid));
    }
    lemma_sorted_with_same_groups(a, b);
}

/// Two sorted lists that agree on the conversations of every identifier, in
/// their order, are equal.
proof fn lemma_sorted_with_same_groups(a: Seq<SavedChat<String>>, b: Seq<SavedChat<String>>)
    requires
        sorted_by_ulid(a),
        sorted_by_ulid(b),
        forall|ulid: u128| with_ulid(a, ulid) == with_ulid(b, ulid),
    ensures
        a == b,
    decreases a.len() + b.len(),
{
    reveal(Seq::filter);
    if a.len() == 0 && b.len() == 0 {
        assert(a =~= b);
    } else if a.len() == 0 {
        let m = b.last().ulid;
        assert(with_ulid(b, m).len() > 0);
        assert(with_ulid(a, m).len() == 0);
    } else if b.len() == 0 {
        let m = a.last().ulid;
        assert(with_ulid(a, m).len() > 0);
        assert(with_ulid(b, m).len() == 0);
    } else {
        let ma = a.last().ulid;
        let mb = b.last().ulid;
        let pa = |c: SavedChat<String>| c.ulid == ma;
        let pb = |c: SavedChat<String>| c.ulid == mb;
        // The largest identifier of either list occurs in the other.
        assert(with_ulid(a, ma).last() == a.last());
        assert(with_ulid(b, mb).last() == b.last());
        b.lemma_filter_contains_rev(pa, with_ulid(b, ma).last());
        assert(with_ulid(b, ma).contains(with_ulid(b, ma).last()));
        a.lemma_filter_contains_rev(pb, with_ulid(a, mb).last());
        assert(with_ulid(a, mb).contains(with_ulid(a, mb).last()));
        let ia = choose|i: int| 0 <= i < a.len() && a[i] == with_ulid(a, mb).last();
        let ib = choose|i: int| 0 <= i < b.len() && b[i] == with_ulid(b, ma).last();
        a.lemma_filter_pred(pb, with_ulid(a, mb).len() - 1);
        b.lemma_filter_pred(pa, with_ulid(b, ma).len() - 1);
        assert(a[ia].ulid == mb);
        assert(b[ib].ulid == ma);
        assert(ma == mb);
        assert(a.last() == b.last());
        let a0 = a.drop_last();
        let b0 = b.drop_last();
        assert forall|ulid: u128| with_ulid(a0, ulid) == with_ulid(b0, ulid) by {
            assert(with_ulid(a, ulid) == with_ulid(b, ulid));
            if ulid == ma {
                assert(with_ulid(a, ulid).drop_last() =~= with_ulid(a0, ulid));
                assert(with_ulid(b, ulid).drop_last() =~= with_ulid(b0, ulid));
            }
        }
        lemma_sorted_with_same_groups(a0, b0);
        assert(a =~= a0.push(a.last()));
        assert(b =~= b0.push(b.last()));
    }
}

/// Puts `chat` into a sorted list, behind the conversations whose identifier
/// is not larger than its own.
fn insert_in_order(chats: &mut Vec<SavedChat<String>>, chat: SavedChat<String>)
    requires
        sorted_by_ulid(old(chats)@),
    ensures
        is_stable_sort_of(final(chats)@, old(chats)@.push(chat)),
{
    let mut p: usize = chats.len();
    while p > 0 && chats[p - 1].ulid > chat.ulid
        invariant
            p <= chats@.len(),
            forall|j: int| p <= j < chats@.len() ==> chats@[j].ulid > chat.ulid,
        decreases p,
    {
        p -= 1;
    }
    proof {
        lemma_insert_in_order(chats@, chat, p as int);
    }
    chats.insert(p, chat);
}

impl Sidebar {
    /// The list that holds `chats`, in their order.
    pub fn new(chats: Vec<SavedChat<String>>) -> (r: Self)
        ensures
            r.chats == chats,
    {
        Self { chats }
    }

    /// Adds a conversation at the end and sorts the list by identifier.
    /// Conversations with the same identifier keep their order.
    pub fn add_chat(&mut self, chat: SavedChat<String>)
        ensures
            is_stable_sort_of(final(self).chats@, old(self).chats@.push(chat)),
    {
        self.chats.push(chat);
        let mut unsorted: Vec<SavedChat<String>> = Vec::new();
        core::mem::swap(&mut unsorted, &mut self.chats);
        let ghost input = unsorted@;
        proof {
            assert forall|ulid: u128| with_ulid(self.chats@, ulid) == with_ulid(
                input.subrange(0, 0),
                ulid,
            ) by {
                assert(input.subrange(0, 0) =~= self.chats@);
            }
        }
        for next in it: unsorted.into_iter()
            invariant
                it.seq() == input,
                is_stable_sort_of(self.chats@, input.subrange(0, it.index())),
        {
            let ghost before = self.chats@;
            insert_in_order(&mut self.chats, next);
            proof {
                let done = input.subrange(0, it.index());
                assert(input.subrange(0, it.index() + 1) =~= done.push(next));
                assert forall|ulid: u128| with_ulid(self.chats@, ulid) == with_ulid(
                    done.push(next),
                    ulid,
                ) by {
                    let pred = |c: SavedChat<String>| c.ulid == ulid;
                    assert(with_ulid(before, ulid) == with_ulid(done, ulid));
                    assert(done.push(next) =~= done + seq![next]);
                    assert(before.push(next) =~= before + seq![next]);
                    Seq::filter_distributes_over_add(done, seq![next], pred);
                    Seq::filter_distributes_over_add(before, seq![next], pred);
                }
            }
        }
        assert(input.subrange(0, input.len() as int) =~= input);
    }

    /// The place of the first conversation that has the identifier.
    pub fn position(&self, chat_id: u128) -> (r: Option<usize>)
        ensures
            match r {
                Some(i) => is_first_with_ulid(self.chats@, chat_id, i as int),
                None => forall|i: int| 0 <= i < self.chats@.len() ==> self.chats@[i].ulid != chat_id,
            },
    {
        let mut idx: usize = 0;
        while idx < self.chats.len()
            invariant
                idx <= self.chats@.len(),
                forall|j: int| 0 <= j < idx ==> self.chats@[j].ulid != chat_id,
            decreases self.chats@.len() - idx,
        {
            if self.chats[idx].ulid == chat_id {
                return Some(idx);
            }
            idx += 1;
        }
        None
    }

    /// Removes the first conversation that has the identifier, and says
    /// whether there was one.
    pub fn remove_chat(&mut self, chat_id: u128) -> (r: bool)
        ensures
            r ==> exists|i: int|
                is_first_with_ulid(old(self).chats@, chat_id, i) && final(self).chats@ == old(self).chats@.remove(i),
            !r ==> final(self).chats@ == old(self).chats@ && forall|i: int|
                0 <= i < old(self).chats@.len() ==> old(self).chats@[i].ulid != chat_id,
    {
        if let Some(idx) = self.position(chat_id) {
            self.chats.remove(idx);
            true
        } else {
            false
        }
    }
}

} // verus!
