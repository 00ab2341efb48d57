use vstd::prelude::*;
use crate::store::{
    first_of, lemma_filter_from, has_conversation, index_of, lookup, turns_of, ChatTurn, Conversation, MessageStore,
    StoreError,
};
use crate::text::{decimal, decimal_string};

verus! {

/// The title a conversation with identifier `id` carries: the content of its
/// first turn, or its identifier in decimal while it has no turn.
pub open spec fn derived_title(first: Option<ChatTurn>, id: u32) -> Seq<char> {
    match first {
        Some(t) => t.content@,
        None => decimal(id as nat),
    }
}

/// Whether a request for conversation `requested` continues an existing one.
pub open spec fn reuses(convs: Seq<Conversation>, requested: Option<u32>) -> bool {
    match requested {
        Some(id) => has_conversation(convs, id),
        None => false,
    }
}

/// The position the resolved conversation takes in the conversation list:
/// that of the requested one when it exists, else a new last position.
pub open spec fn resolved_index(convs: Seq<Conversation>, requested: Option<u32>) -> int {
    match requested {
        Some(id) if has_conversation(convs, id) => index_of(convs, id),
        _ => convs.len() as int,
    }
}

/// The identifier of the conversation a request resolves to: the requested
/// one when it exists, else the next identifier, which a new conversation
/// receives.
pub open spec fn resolved_id(store: MessageStore, requested: Option<u32>) -> u32 {
    match requested {
        Some(id) if has_conversation(store.conversations(), id) => id,
        _ => store.next_conversation_id(),
    }
}

/// The title for conversation `id`, given its first turn.
pub fn derive_title(first: Option<ChatTurn>, id: u32) -> (r: String)
    ensures
        r@ == derived_title(first, id),
{
    match first {
        Some(t) => t.content,
        None => decimal_string(id),
    }
}

/// Finds the requested conversation, or creates one when no identifier is
/// given or the given one does not resolve, then recomputes and stores its
/// title.
pub fn resolve_conversation(store: &mut MessageStore, requested: Option<u32>) -> (r: Result<
    Conversation,
    StoreError,
>)
    requires
        old(store).wf(),
    ensures
        final(store).wf(),
        r is Ok <==> reuses(old(store).conversations(), requested)
            || old(store).next_conversation_id() < u32::MAX,
        r matches Ok(c) ==> {
            &&& c.id == resolved_id(*old(store), requested)
            &&& c.title@ == derived_title(first_of(turns_of(old(store).turns(), c.id)), c.id)
            &&& final(store).conversations() == if reuses(old(store).conversations(), requested) {
                old(store).conversations().update(index_of(old(store).conversations(), c.id), c)
            } else {
                old(store).conversations().push(c)
            }
            &&& !reuses(old(store).conversations(), requested) ==> {
                &&& !has_conversation(old(store).conversations(), c.id)
                &&& turns_of(old(store).turns(), c.id).len() == 0
            }
            &&& final(store).turns() == old(store).turns()
            &&& final(store).next_turn_id() == old(store).next_turn_id()
            &&& final(store).next_conversation_id() as int == if reuses(
                old(store).conversations(),
                requested,
            ) {
                old(store).next_conversation_id() as int
            } else {
                old(store).next_conversation_id() + 1
            }
        },
        r matches Err(e) ==> e == StoreError::IdsExhausted && *final(store) == *old(store),
{
    let found = match requested {
        Some(id) => store.get_conversation(id),
        None => None,
    };
    let ghost s0 = *store;
    let conv = match found {
        Some(c) => c,
        None => match store.create_conversation(String::new()) {
            Ok(c) => c,
            Err(e) => {
                return Err(e);
            },
        },
    };
    let ghost s1 = *store;
    proof {
        let convs0 = s0.conversations();
        if !reuses(convs0, requested) {
            assert(s1.conversations()[convs0.len() as int] == conv);
            assert(has_conversation(s1.conversations(), conv.id));
            let j = index_of(s1.conversations(), conv.id);
            if j < convs0.len() {
                assert(s1.conversations()[j] == convs0[j]);
                assert(convs0[j].id < s0.next_conversation_id());
            }
            assert(j == convs0.len());
            assert forall|i: int| 0 <= i < convs0.len() implies (#[trigger] convs0[i]).id != conv.id by {}
            assert forall|i: int| 0 <= i < s0.turns().len() implies (#[trigger] s0.turns()[i]).conversation_id != conv.id by {
                let cid = s0.turns()[i].conversation_id;
                assert(has_conversation(convs0, cid));
            }
            let pred = |t: ChatTurn| t.conversation_id == conv.id;
            s0.turns().filter_lemma(pred);
            if turns_of(s0.turns(), conv.id).len() > 0 {
                assert(pred(s0.turns().filter(pred)[0]));
                lemma_filter_from(s0.turns(), pred);
                assert(s0.turns().contains(s0.turns().filter(pred)[0]));
            }
        } else {
            assert(lookup(convs0, conv.id) == Some(conv));
        }
    }
    let first = store.get_first_turn(conv.id);
    let title = derive_title(first, conv.id);
    match store.update_conversation_title(conv.id, title) {
        Ok(c) => {
            proof {
                if !reuses(s0.conversations(), requested) {
                    assert(store.conversations() =~= s0.conversations().push(c));
                }
            }
            Ok(c)
        },
        Err(e) => Err(e),
    }
}

} // verus!
