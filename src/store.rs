use vstd::prelude::*;
use crate::role::ChatRole;

verus! {

/// A titled, ordered thread of chat turns.
#[derive(Clone, Debug)]
pub struct Conversation {
    pub id: u32,
    pub title: String,
}

/// One role-tagged message belonging to exactly one conversation.
#[derive(Clone, Debug)]
pub struct ChatTurn {
    pub id: u32,
    pub conversation_id: u32,
    pub role: ChatRole,
    pub content: String,
}

/// Why a store operation did not take place.
#[derive(Clone, Copy, Debug, PartialEq, Eq, Structural)]
pub enum StoreError {
    /// The referenced conversation does not exist.
    NotFound,
    /// No identifier is left to assign to a new record.
    IdsExhausted,
}

/// The turns of conversation `cid`, in the order they were appended.
pub open spec fn turns_of(turns: Seq<ChatTurn>, cid: u32) -> Seq<ChatTurn> {
    turns.filter(|t: ChatTurn| t.conversation_id == cid)
}

/// The turns of every conversation but `cid`, in the order they were appended.
pub open spec fn turns_not_of(turns: Seq<ChatTurn>, cid: u32) -> Seq<ChatTurn> {
    turns.filter(|t: ChatTurn| t.conversation_id != cid)
}

/// The first element of `s`, if there is one.
pub open spec fn first_of(s: Seq<ChatTurn>) -> Option<ChatTurn> {
    if s.len() > 0 { Some(s[0]) } else { None }
}

pub open spec fn has_conversation(convs: Seq<Conversation>, id: u32) -> bool {
    exists|i: int| 0 <= i < convs.len() && (#[trigger] convs[i]).id == id
}

/// The position of the conversation with identifier `id`.
pub open spec fn index_of(convs: Seq<Conversation>, id: u32) -> int {
    choose|i: int| 0 <= i < convs.len() && (#[trigger] convs[i]).id == id
}

/// The conversation with identifier `id`, if there is one.
pub open spec fn lookup(convs: Seq<Conversation>, id: u32) -> Option<Conversation> {
    if has_conversation(convs, id) { Some(convs[index_of(convs, id)]) } else { None }
}

pub open spec fn conversation_ids_increasing(convs: Seq<Conversation>) -> bool {
    forall|i: int, j: int| 0 <= i < j < convs.len() ==> convs[i].id < convs[j].id
}

pub open spec fn turn_ids_increasing(turns: Seq<ChatTurn>) -> bool {
    forall|i: int, j: int| 0 <= i < j < turns.len() ==> turns[i].id < turns[j].id
}

/// Saved records from which a store can be rebuilt: identifiers positive,
/// below the largest `u32`, increasing in order of creation, and every turn
/// belonging to one of the conversations.
pub open spec fn records_valid(convs: Seq<Conversation>, turns: Seq<ChatTurn>) -> bool {
    &&& conversation_ids_increasing(convs)
    &&& forall|i: int| 0 <= i < convs.len() ==> 1 <= #[trigger] convs[i].id < u32::MAX
    &&& turn_ids_increasing(turns)
    &&& forall|i: int| 0 <= i < turns.len() ==> 1 <= #[trigger] turns[i].id < u32::MAX
    &&& forall|i: int|
        0 <= i < turns.len() ==> has_conversation(convs, #[trigger] turns[i].conversation_id)
}

fn copy_conversation(c: &Conversation) -> (r: Conversation)
    ensures
        r == *c,
{
    Conversation { id: c.id, title: c.title.clone() }
}

fn copy_turn(t: &ChatTurn) -> (r: ChatTurn)
    ensures
        r == *t,
{
    ChatTurn { id: t.id, conversation_id: t.conversation_id, role: t.role, content: t.content.clone() }
}

/// In a well-formed store, a conversation's position is the one `index_of`
/// gives for its identifier.
pub proof fn lemma_index_of_unique(store: MessageStore, i: int)
    requires
        store.wf(),
        0 <= i < store.conversations().len(),
    ensures
        has_conversation(store.conversations(), store.conversations()[i].id),
        index_of(store.conversations(), store.conversations()[i].id) == i,
{
    let convs = store.conversations();
    assert(has_conversation(convs, convs[i].id));
    let j = index_of(convs, convs[i].id);
    if j < i {
        assert(convs[j].id < convs[i].id);
    }
    if j > i {
        assert(convs[i].id < convs[j].id);
    }
}

/// Appending a turn extends the turns of its own conversation by that turn
/// and leaves those of every other conversation as they were.
pub proof fn lemma_turns_of_push(turns: Seq<ChatTurn>, t: ChatTurn, cid: u32)
    ensures
        turns_of(turns.push(t), cid) == (if t.conversation_id == cid {
            turns_of(turns, cid).push(t)
        } else {
            turns_of(turns, cid)
        }),
{
    lemma_filter_push(turns, t, |u: ChatTurn| u.conversation_id == cid);
}

proof fn lemma_filter_push(s: Seq<ChatTurn>, x: ChatTurn, pred: spec_fn(ChatTurn) -> bool)
    ensures
        s.push(x).filter(pred) == (if pred(x) { s.filter(pred).push(x) } else { s.filter(pred) }),
{
    reveal(Seq::filter);
    assert(s.push(x).drop_last() =~= s);
}

/// Every element of a filtered sequence satisfies the filter and comes from
/// the sequence.
pub proof fn lemma_filter_from(s: Seq<ChatTurn>, pred: spec_fn(ChatTurn) -> bool)
    ensures
        forall|k: int|
            0 <= k < s.filter(pred).len() ==> pred(#[trigger] s.filter(pred)[k]) && s.contains(
                s.filter(pred)[k],
            ),
    decreases s.len(),
{
    reveal(Seq::filter);
    if s.len() > 0 {
        let d = s.drop_last();
        lemma_filter_from(d, pred);
        assert forall|k: int| 0 <= k < s.filter(pred).len() implies pred(
            #[trigger] s.filter(pred)[k],
        ) && s.contains(s.filter(pred)[k]) by {
            if k < d.filter(pred).len() {
                let e = d.filter(pred)[k];
                assert(s.filter(pred)[k] == e);
                let m = choose|m: int| 0 <= m < d.len() && d[m] == e;
                assert(s[m] == e);
            } else {
                assert(s[s.len() - 1] == s.filter(pred)[k]);
            }
        }
    }
}

proof fn lemma_filter_increasing(s: Seq<ChatTurn>, pred: spec_fn(ChatTurn) -> bool)
    requires
        turn_ids_increasing(s),
    ensures
        turn_ids_increasing(s.filter(pred)),
    decreases s.len(),
{
    reveal(Seq::filter);
    if s.len() > 0 {
        let d = s.drop_last();
        assert(turn_ids_increasing(d));
        lemma_filter_increasing(d, pred);
        lemma_filter_from(d, pred);
        assert forall|k: int| 0 <= k < d.filter(pred).len() implies (#[trigger] d.filter(pred)[k]).id < s.last().id by {
            let m = choose|m: int| 0 <= m < d.len() && d[m] == d.filter(pred)[k];
            assert(s[m] == d[m]);
        }
    }
}

/// An in-memory table of conversations and their ordered chat turns. Every turn
/// belongs to a conversation that exists; identifiers are assigned in
/// increasing order and never reused.
#[derive(Clone)]
pub struct MessageStore {
    conversations: Vec<Conversation>,
    turns: Vec<ChatTurn>,
    next_conversation_id: u32,
    next_turn_id: u32,
}

impl MessageStore {
    /// The conversations, in the order they were created.
    pub closed spec fn conversations(&self) -> Seq<Conversation> {
        self.conversations@
    }

    /// Every turn of every conversation, in the order they were appended.
    pub closed spec fn turns(&self) -> Seq<ChatTurn> {
        self.turns@
    }

    /// The identifier the next created conversation receives.
    pub closed spec fn next_conversation_id(&self) -> u32 {
        self.next_conversation_id
    }

    /// The identifier the next appended turn receives.
    pub closed spec fn next_turn_id(&self) -> u32 {
        self.next_turn_id
    }

    pub open spec fn wf(&self) -> bool {
        &&& 1 <= self.next_conversation_id()
        &&& 1 <= self.next_turn_id()
        &&& conversation_ids_increasing(self.conversations())
        &&& forall|i: int|
            0 <= i < self.conversations().len() ==> 1 <= #[trigger] self.conversations()[i].id
                < self.next_conversation_id()
        &&& turn_ids_increasing(self.turns())
        &&& forall|i: int|
            0 <= i < self.turns().len() ==> 1 <= #[trigger] self.turns()[i].id < self.next_turn_id()
        &&& forall|i: int|
            0 <= i < self.turns().len() ==> has_conversation(
                self.conversations(),
                #[trigger] self.turns()[i].conversation_id,
            )
    }

    /// An empty store.
    pub fn new() -> (r: MessageStore)
        ensures
            r.wf(),
            r.conversations() == Seq::<Conversation>::empty(),
            r.turns() == Seq::<ChatTurn>::empty(),
            r.next_conversation_id() == 1,
            r.next_turn_id() == 1,
    {
        MessageStore { conversations: Vec::new(), turns: Vec::new(), next_conversation_id: 1, next_turn_id: 1 }
    }

    fn find_index(&self, id: u32) -> (r: Option<usize>)
        requires
            self.wf(),
        ensures
            r is None <==> !has_conversation(self.conversations(), id),
            r matches Some(i) ==> i == index_of(self.conversations(), id),
    {
        let mut i: usize = 0;
        while i < self.conversations.len()
            invariant
                self.wf(),
                i <= self.conversations@.len(),
                forall|k: int| 0 <= k < i ==> (#[trigger] self.conversations@[k]).id != id,
            decreases self.conversations@.len() - i,
        {
            if self.conversations[i].id == id {
                proof {
                    let j = index_of(self.conversations(), id);
                    assert(has_conversation(self.conversations(), id));
                    assert(self.conversations()[j].id == id);
                    assert(0 <= j < self.conversations().len());
                    if j < i {
                        assert(self.conversations()[j].id < self.conversations()[i as int].id);
                    }
                    if j > i {
                        assert(conversation_ids_increasing(self.conversations()));
                        assert(0 <= i < j < self.conversations().len());
                        assert(self.conversations()[j].id > self.conversations()[i as int].id);
                    }
                }
                return Some(i);
            }
            i = i + 1;
        }
        None
    }

    /// The conversation with identifier `id`, or `None` when there is none.
    pub fn get_conversation(&self, id: u32) -> (r: Option<Conversation>)
        requires
            self.wf(),
        ensures
            r == lookup(self.conversations(), id),
    {
        match self.find_index(id) {
            Some(i) => Some(copy_conversation(&self.conversations[i])),
            None => None,
        }
    }

    /// Every conversation, in the order they were created.
    pub fn list_conversations(&self) -> (r: Vec<Conversation>)
        ensures
            r@ == self.conversations(),
    {
        let mut r: Vec<Conversation> = Vec::new();
        let mut i: usize = 0;
        while i < self.conversations.len()
            invariant
                i <= self.conversations@.len(),
                r@ == self.conversations@.subrange(0, i as int),
            decreases self.conversations@.len() - i,
        {
            r.push(copy_conversation(&self.conversations[i]));
            i = i + 1;
            assert(r@ =~= self.conversations@.subrange(0, i as int));
        }
        assert(r@ =~= self.conversations@);
        r
    }

    /// Creates a conversation with the given title and the next identifier.
    pub fn create_conversation(&mut self, title: String) -> (r: Result<Conversation, StoreError>)
        requires
            old(self).wf(),
        ensures
            final(self).wf(),
            r is Ok <==> old(self).next_conversation_id() < u32::MAX,
            r matches Ok(c) ==> {
                &&& c.id == old(self).next_conversation_id()
                &&& c.title == title
                &&& final(self).conversations() == old(self).conversations().push(c)
                &&& final(self).turns() == old(self).turns()
                &&& final(self).next_conversation_id() == old(self).next_conversation_id() + 1
                &&& final(self).next_turn_id() == old(self).next_turn_id()
            },
            r matches Err(e) ==> e == StoreError::IdsExhausted && *final(self) == *old(self),
    {
        if self.next_conversation_id == u32::MAX {
            return Err(StoreError::IdsExhausted);
        }
        let c = Conversation { id: self.next_conversation_id, title };
        let ghost old_convs = self.conversations@;
        self.conversations.push(copy_conversation(&c));
        self.next_conversation_id = self.next_conversation_id + 1;
        proof {
            assert(self.conversations() == old_convs.push(c));
            assert forall|i: int| 0 <= i < self.turns().len() implies has_conversation(
                self.conversations(),
                #[trigger] self.turns()[i].conversation_id,
            ) by {
                let cid = self.turns()[i].conversation_id;
                assert(has_conversation(old_convs, cid));
                let j = choose|j: int| 0 <= j < old_convs.len() && (#[trigger] old_convs[j]).id == cid;
                assert(self.conversations()[j] == old_convs[j]);
            }
            assert forall|i: int| 0 <= i < self.conversations().len() implies 1 <= #[trigger] self.conversations()[i].id < self.next_conversation_id() by {
                if i < old_convs.len() {
                    assert(self.conversations()[i] == old_convs[i]);
                }
            }
            assert forall|i: int, j: int| 0 <= i < j < self.conversations().len() implies self.conversations()[i].id < self.conversations()[j].id by {
                assert(self.conversations()[i] == old_convs[i]);
                if j < old_convs.len() {
                    assert(self.conversations()[j] == old_convs[j]);
                }
            }
        }
        Ok(c)
    }

    /// Sets the title of conversation `id`.
    pub fn update_conversation_title(&mut self, id: u32, title: String) -> (r: Result<
        Conversation,
        StoreError,
    >)
        requires
            old(self).wf(),
        ensures
            final(self).wf(),
            r is Ok <==> has_conversation(old(self).conversations(), id),
            r matches Ok(c) ==> {
                &&& c == (Conversation { id, title })
                &&& final(self).conversations() == old(self).conversations().update(
                    index_of(old(self).conversations(), id),
                    c,
                )
                &&& final(self).turns() == old(self).turns()
                &&& final(self).next_conversation_id() == old(self).next_conversation_id()
                &&& final(self).next_turn_id() == old(self).next_turn_id()
            },
            r matches Err(e) ==> e == StoreError::NotFound && *final(self) == *old(self),
    {
        match self.find_index(id) {
            None => Err(StoreError::NotFound),
            Some(i) => {
                let ghost old_convs = self.conversations@;
                let ghost old_convs_turns = self.turns();
                let c = Conversation { id, title };
                self.conversations.set(i, copy_conversation(&c));
                proof {
                    assert forall|k: int| 0 <= k < self.conversations().len() implies (#[trigger] self.conversations()[k]).id == old_convs[k].id by {}
                    assert(conversation_ids_increasing(self.conversations()));
                    assert forall|k: int| 0 <= k < self.conversations().len() implies 1 <= #[trigger] self.conversations()[k].id < self.next_conversation_id() by {
                        assert(self.conversations()[k].id == old_convs[k].id);
                    }
                    assert forall|k: int| 0 <= k < self.turns().len() implies has_conversation(
                        self.conversations(),
                        #[trigger] self.turns()[k].conversation_id,
                    ) by {
                        let cid = self.turns()[k].conversation_id;
                        assert(has_conversation(old_convs, cid));
                        let j = choose|j: int| 0 <= j < old_convs.len() && (#[trigger] old_convs[j]).id == cid;
                        assert(self.conversations@[j].id == old_convs[j].id);
                    }
                    assert(self.turns() == old_convs_turns);
                    assert(turn_ids_increasing(self.turns()));
                    assert forall|k: int| 0 <= k < self.turns().len() implies 1 <= #[trigger] self.turns()[k].id < self.next_turn_id() by {
                        assert(self.turns()[k] == old_convs_turns[k]);
                    }
                    assert(self.wf());
                }
                Ok(c)
            },
        }
    }

    /// The turns of conversation `cid`, in the order they were appended.
    pub fn list_turns(&self, cid: u32) -> (r: Vec<ChatTurn>)
        ensures
            r@ == turns_of(self.turns(), cid),
    {
        let mut r: Vec<ChatTurn> = Vec::new();
        let mut i: usize = 0;
        while i < self.turns.len()
            invariant
                i <= self.turns@.len(),
                r@ == turns_of(self.turns@.subrange(0, i as int), cid),
            decreases self.turns@.len() - i,
        {
            proof {
                assert(self.turns@.subrange(0, i + 1) =~= self.turns@.subrange(0, i as int).push(self.turns@[i as int]));
                lemma_filter_push(self.turns@.subrange(0, i as int), self.turns@[i as int], |t: ChatTurn| t.conversation_id == cid);
            }
            if self.turns[i].conversation_id == cid {
                r.push(copy_turn(&self.turns[i]));
            }
            i = i + 1;
        }
        assert(self.turns@.subrange(0, self.turns@.len() as int) =~= self.turns@);
        r
    }

    /// The first turn of conversation `cid`, or `None` when it has none yet.
    pub fn get_first_turn(&self, cid: u32) -> (r: Option<ChatTurn>)
        ensures
            r == first_of(turns_of(self.turns(), cid)),
    {
        let ts = self.list_turns(cid);
        if ts.len() > 0 {
            Some(copy_turn(&ts[0]))
        } else {
            None
        }
    }

    /// Appends a turn with the next identifier to conversation `cid`.
    pub fn append_turn(&mut self, cid: u32, role: ChatRole, content: String) -> (r: Result<
        ChatTurn,
        StoreError,
    >)
        requires
            old(self).wf(),
        ensures
            final(self).wf(),
            r is Ok <==> has_conversation(old(self).conversations(), cid)
                && old(self).next_turn_id() < u32::MAX,
            r matches Ok(t) ==> {
                &&& t == (ChatTurn { id: old(self).next_turn_id(), conversation_id: cid, role, content })
                &&& final(self).turns() == old(self).turns().push(t)
                &&& final(self).conversations() == old(self).conversations()
                &&& final(self).next_conversation_id() == old(self).next_conversation_id()
                &&& final(self).next_turn_id() == old(self).next_turn_id() + 1
            },
            r matches Err(e) ==> {
                &&& *final(self) == *old(self)
                &&& e == StoreError::NotFound <==> !has_conversation(old(self).conversations(), cid)
            },
    {
        if self.find_index(cid).is_none() {
            return Err(StoreError::NotFound);
        }
        if self.next_turn_id == u32::MAX {
            return Err(StoreError::IdsExhausted);
        }
        let t = ChatTurn { id: self.next_turn_id, conversation_id: cid, role, content };
        let ghost old_turns = self.turns();
        self.turns.push(copy_turn(&t));
        self.next_turn_id = self.next_turn_id + 1;
        proof {
            assert(self.turns() == old_turns.push(t));
            assert forall|i: int| 0 <= i < self.turns().len() implies has_conversation(
                self.conversations(),
                #[trigger] self.turns()[i].conversation_id,
            ) by {
                if i < old_turns.len() {
                    assert(self.turns()[i] == old_turns[i]);
                }
            }
            assert forall|i: int| 0 <= i < self.turns().len() implies 1 <= #[trigger] self.turns()[i].id < self.next_turn_id() by {
                if i < old_turns.len() {
                    assert(self.turns()[i] == old_turns[i]);
                }
            }
            assert forall|i: int, j: int| 0 <= i < j < self.turns().len() implies self.turns()[i].id < self.turns()[j].id by {
                assert(self.turns()[i] == old_turns[i]);
                if j < old_turns.len() {
                    assert(self.turns()[j] == old_turns[j]);
                }
            }
        }
        Ok(t)
    }

    /// Deletes conversation `id` together with all of its turns.
    pub fn delete_conversation(&mut self, id: u32) -> (r: Result<(), StoreError>)
        requires
            old(self).wf(),
        ensures
            final(self).wf(),
            r is Ok <==> has_conversation(old(self).conversations(), id),
            r is Ok ==> {
                &&& final(self).conversations() == old(self).conversations().remove(
                    index_of(old(self).conversations(), id),
                )
                &&& final(self).turns() == turns_not_of(old(self).turns(), id)
                &&& final(self).next_conversation_id() == old(self).next_conversation_id()
                &&& final(self).next_turn_id() == old(self).next_turn_id()
            },
            r matches Err(e) ==> e == StoreError::NotFound && *final(self) == *old(self),
    {
        let i = match self.find_index(id) {
            None => { return Err(StoreError::NotFound); },
            Some(i) => i,
        };
        let ghost old_convs = self.conversations();
        let ghost old_turns = self.turns();
        let mut kept: Vec<ChatTurn> = Vec::new();
        let mut k: usize = 0;
        while k < self.turns.len()
            invariant
                k <= self.turns@.len(),
                kept@ == turns_not_of(self.turns@.subrange(0, k as int), id),
            decreases self.turns@.len() - k,
        {
            proof {
                assert(self.turns@.subrange(0, k + 1) =~= self.turns@.subrange(0, k as int).push(self.turns@[k as int]));
                lemma_filter_push(self.turns@.subrange(0, k as int), self.turns@[k as int], |t: ChatTurn| t.conversation_id != id);
            }
            if self.turns[k].conversation_id != id {
                kept.push(copy_turn(&self.turns[k]));
            }
            k = k + 1;
        }
        assert(self.turns@.subrange(0, self.turns@.len() as int) =~= self.turns@);
        self.conversations.remove(i);
        self.turns = kept;
        proof {
            let pred = |t: ChatTurn| t.conversation_id != id;
            let nc = self.conversations();
            assert(nc == old_convs.remove(i as int));
            assert forall|a: int| 0 <= a < nc.len() implies #[trigger] nc[a] == (if a < i { old_convs[a] } else { old_convs[a + 1] }) by {}
            lemma_filter_from(old_turns, pred);
            lemma_filter_increasing(old_turns, pred);
            assert forall|a: int| 0 <= a < self.turns().len() implies 1 <= #[trigger] self.turns()[a].id < self.next_turn_id() by {
                let m = choose|m: int| 0 <= m < old_turns.len() && old_turns[m] == self.turns()[a];
                assert(old_turns[m] == self.turns()[a]);
            }
            assert forall|a: int| 0 <= a < self.turns().len() implies has_conversation(
                nc,
                #[trigger] self.turns()[a].conversation_id,
            ) by {
                let t = self.turns()[a];
                let m = choose|m: int| 0 <= m < old_turns.len() && old_turns[m] == t;
                assert(old_turns[m] == t);
                assert(has_conversation(old_convs, t.conversation_id));
                let j = choose|j: int| 0 <= j < old_convs.len() && (#[trigger] old_convs[j]).id == t.conversation_id;
                assert(j != i);
                if j < i {
                    assert(nc[j] == old_convs[j]);
                } else {
                    assert(nc[j - 1] == old_convs[j]);
                }
            }
            assert forall|a: int| 0 <= a < nc.len() implies 1 <= #[trigger] nc[a].id < self.next_conversation_id() by {}
            assert forall|a: int, b: int| 0 <= a < b < nc.len() implies nc[a].id < nc[b].id by {
                let a2 = if a < i { a } else { a + 1 };
                let b2 = if b < i { b } else { b + 1 };
                assert(nc[a] == old_convs[a2]);
                assert(nc[b] == old_convs[b2]);
            }
        }
        Ok(())
    }

    /// Rebuilds a store from saved records, conversations and turns each in
    /// order of creation; `None` when the records are not valid. The next
    /// identifiers follow the last ones in use.
    pub fn restore(conversations: Vec<Conversation>, turns: Vec<ChatTurn>) -> (r: Option<
        MessageStore,
    >)
        ensures
            r is Some <==> records_valid(conversations@, turns@),
            r matches Some(s) ==> {
                &&& s.wf()
                &&& s.conversations() == conversations@
                &&& s.turns() == turns@
                &&& s.next_conversation_id() as int == if conversations@.len() == 0 {
                    1
                } else {
                    conversations@.last().id + 1
                }
                &&& s.next_turn_id() as int == if turns@.len() == 0 {
                    1
                } else {
                    turns@.last().id + 1
                }
            },
    {
        let ghost convs = conversations@;
        let mut i: usize = 0;
        let mut next_c: u32 = 1;
        while i < conversations.len()
            invariant
                convs == conversations@,
                i <= convs.len(),
                next_c as int == if i == 0 { 1 } else { convs[i - 1].id + 1 },
                conversation_ids_increasing(convs.subrange(0, i as int)),
                forall|k: int| 0 <= k < i ==> 1 <= #[trigger] convs[k].id < u32::MAX,
                forall|k: int| 0 <= k < i ==> #[trigger] convs[k].id < next_c,
            decreases convs.len() - i,
        {
            let id = conversations[i].id;
            if id < next_c || id == u32::MAX {
                proof {
                    if i > 0 && id != u32::MAX {
                        assert(!(convs[i - 1].id < convs[i as int].id));
                    }
                }
                return None;
            }
            proof {
                let pre = convs.subrange(0, i as int);
                let ext = convs.subrange(0, i + 1);
                assert forall|a: int, b: int| 0 <= a < b < i + 1 implies (#[trigger] ext[a]).id
                    < (#[trigger] ext[b]).id by {
                    assert(ext[a] == convs[a]);
                    assert(ext[b] == convs[b]);
                    if b < i {
                        assert(pre[a] == convs[a]);
                        assert(pre[b] == convs[b]);
                    }
                }
            }
            next_c = id + 1;
            i = i + 1;
        }
        assert(convs.subrange(0, convs.len() as int) =~= convs);
        let mut s = MessageStore {
            conversations,
            turns: Vec::new(),
            next_conversation_id: next_c,
            next_turn_id: 1,
        };
        let mut j: usize = 0;
        while j < turns.len()
            invariant
                s.wf(),
                convs == conversations@,
                s.conversations() == convs,
                s.turns() == turns@.subrange(0, j as int),
                j <= turns@.len(),
                s.next_conversation_id() as int == if convs.len() == 0 {
                    1
                } else {
                    convs.last().id + 1
                },
                s.next_turn_id() as int == if j == 0 { 1 } else { turns@[j - 1].id + 1 },
                records_valid(convs, Seq::<ChatTurn>::empty()),
                forall|k: int| 0 <= k < j ==> 1 <= #[trigger] turns@[k].id < u32::MAX,
            decreases turns@.len() - j,
        {
            let t = &turns[j];
            if t.id < s.next_turn_id || t.id == u32::MAX || s.find_index(t.conversation_id).is_none() {
                proof {
                    assert(turns@[j as int] == *t);
                    if t.id < s.next_turn_id() {
                        if j > 0 {
                            assert(!(turns@[j - 1].id < turns@[j as int].id));
                        } else {
                            assert(!(1 <= turns@[j as int].id));
                        }
                    } else if t.id == u32::MAX {
                        assert(!(turns@[j as int].id < u32::MAX));
                    } else {
                        assert(!has_conversation(convs, turns@[j as int].conversation_id));
                    }
                    assert(!records_valid(convs, turns@));
                }
                return None;
            }
            let ghost old_turns = s.turns();
            s.turns.push(copy_turn(t));
            s.next_turn_id = t.id + 1;
            proof {
                let nt = s.turns();
                assert(nt =~= turns@.subrange(0, j + 1));
                assert(nt == old_turns.push(*t));
                assert forall|a: int| 0 <= a < nt.len() implies has_conversation(
                    s.conversations(),
                    #[trigger] nt[a].conversation_id,
                ) by {
                    if a < old_turns.len() {
                        assert(nt[a] == old_turns[a]);
                    }
                }
                assert forall|a: int| 0 <= a < nt.len() implies 1 <= #[trigger] nt[a].id < s.next_turn_id() by {
                    if a < old_turns.len() {
                        assert(nt[a] == old_turns[a]);
                    }
                }
                assert forall|a: int, b: int| 0 <= a < b < nt.len() implies nt[a].id < nt[b].id by {
                    assert(nt[a] == old_turns[a]);
                    if b < old_turns.len() {
                        assert(nt[b] == old_turns[b]);
                    }
                }
            }
            j = j + 1;
        }
        assert(turns@.subrange(0, turns@.len() as int) =~= turns@);
        Some(s)
    }
}

} // verus!
