use vstd::prelude::*;
use crate::resolver::{
    derive_title, derived_title, resolve_conversation, resolved_id, resolved_index, reuses,
};
use crate::role::{role_tag, ChatRole};
use crate::store::{
    first_of, has_conversation, index_of, lemma_index_of_unique, lemma_turns_of_push, turns_of, ChatTurn, Conversation,
    MessageStore, StoreError,
};

verus! {

/// One role-tagged entry of the transcript handed to the completion service.
#[derive(Clone, Debug)]
pub struct PromptMessage {
    pub role: String,
    pub content: String,
}

/// Why the completion service gave no usable reply.
#[derive(Clone, Copy, Debug, PartialEq, Eq, Structural)]
pub enum CompletionError {
    /// The service could not be reached, refused the request, or did not
    /// answer in time.
    Transport,
    /// The answer held no reply.
    MalformedResponse,
}

/// Why a message send failed.
#[derive(Clone, Copy, Debug, PartialEq, Eq, Structural)]
pub enum SendError {
    Storage(StoreError),
    Completion(CompletionError),
}

/// The state between persisting the user's turn and receiving the reply: the
/// resolved conversation, the user's new turn, and the transcript to complete.
#[derive(Clone, Debug)]
pub struct PendingSend {
    pub conversation: Conversation,
    pub user_turn: ChatTurn,
    pub prompt: Vec<PromptMessage>,
}

/// `p` is `turns` in order, each with its lowercase role tag and its content.
pub open spec fn prompt_matches(p: Seq<PromptMessage>, turns: Seq<ChatTurn>) -> bool {
    &&& p.len() == turns.len()
    &&& forall|i: int|
        0 <= i < p.len() ==> (#[trigger] p[i]).role@ == role_tag(turns[i].role) && p[i].content
            == turns[i].content
}

/// The user turn a send appends to conversation `cid` of `store`.
pub open spec fn user_turn(store: MessageStore, cid: u32, message: String) -> ChatTurn {
    ChatTurn { id: store.next_turn_id(), conversation_id: cid, role: ChatRole::User, content: message }
}

/// The assistant turn that a reply appends to conversation `cid` of `store`.
pub open spec fn assistant_turn(store: MessageStore, cid: u32, reply: String) -> ChatTurn {
    ChatTurn {
        id: store.next_turn_id(),
        conversation_id: cid,
        role: ChatRole::Assistant,
        content: reply,
    }
}

/// Maps turns to the completion service's input, keeping their order.
pub fn build_prompt(turns: &Vec<ChatTurn>) -> (r: Vec<PromptMessage>)
    ensures
        prompt_matches(r@, turns@),
{
    let mut r: Vec<PromptMessage> = Vec::new();
    let mut i: usize = 0;
    while i < turns.len()
        invariant
            i <= turns@.len(),
            prompt_matches(r@, turns@.subrange(0, i as int)),
        decreases turns@.len() - i,
    {
        let m = PromptMessage { role: turns[i].role.to_string(), content: turns[i].content.clone() };
        r.push(m);
        i = i + 1;
    }
    assert(turns@.subrange(0, turns@.len() as int) =~= turns@);
    r
}

/// The reply among the choices the completion service returned: the first
/// one, or an error when there is none.
pub fn first_choice(choices: Vec<String>) -> (r: Result<String, CompletionError>)
    ensures
        choices@.len() == 0 ==> r == Err::<String, CompletionError>(
            CompletionError::MalformedResponse,
        ),
        choices@.len() > 0 ==> r == Ok::<String, CompletionError>(choices@[0]),
{
    let mut choices = choices;
    if choices.len() == 0 {
        Err(CompletionError::MalformedResponse)
    } else {
        Ok(choices.swap_remove(0))
    }
}

/// First half of a send: resolves the conversation, persists the user's
/// message as a new turn, recomputes the title from the conversation's first
/// turn, and returns the whole transcript to complete.
pub fn begin_send(store: &mut MessageStore, conversation_id: Option<u32>, message: String) -> (r:
    Result<PendingSend, SendError>)
    requires
        old(store).wf(),
    ensures
        final(store).wf(),
        r is Ok <==> (reuses(old(store).conversations(), conversation_id)
            || old(store).next_conversation_id() < u32::MAX) && old(store).next_turn_id()
            < u32::MAX,
        r matches Ok(p) ==> {
            let cid = p.conversation.id;
            let before = turns_of(old(store).turns(), cid);
            &&& cid == resolved_id(*old(store), conversation_id)
            &&& p.conversation.title@ == turns_of(final(store).turns(), cid)[0].content@
            &&& p.conversation.title@ == if before.len() > 0 {
                before[0].content@
            } else {
                message@
            }
            &&& !reuses(old(store).conversations(), conversation_id) ==> {
                &&& !has_conversation(old(store).conversations(), cid)
                &&& before.len() == 0
            }
            &&& final(store).conversations() == if reuses(
                old(store).conversations(),
                conversation_id,
            ) {
                old(store).conversations().update(
                    index_of(old(store).conversations(), cid),
                    p.conversation,
                )
            } else {
                old(store).conversations().push(p.conversation)
            }
            &&& has_conversation(final(store).conversations(), cid)
            &&& p.user_turn == user_turn(*old(store), cid, message)
            &&& final(store).turns() == old(store).turns().push(p.user_turn)
            &&& turns_of(final(store).turns(), cid) == before.push(
                user_turn(*old(store), cid, message),
            )
            &&& prompt_matches(p.prompt@, turns_of(final(store).turns(), cid))
            &&& final(store).next_turn_id() == old(store).next_turn_id() + 1
            &&& final(store).next_conversation_id() as int == if reuses(
                old(store).conversations(),
                conversation_id,
            ) {
                old(store).next_conversation_id() as int
            } else {
                old(store).next_conversation_id() + 1
            }
        },
        r matches Err(e) ==> {
            &&& e == SendError::Storage(StoreError::IdsExhausted)
            &&& final(store).turns() == old(store).turns()
            &&& final(store).next_turn_id() == old(store).next_turn_id()
            &&& !(reuses(old(store).conversations(), conversation_id)
                || old(store).next_conversation_id() < u32::MAX) ==> *final(store) == *old(store)
            &&& (reuses(old(store).conversations(), conversation_id)
                || old(store).next_conversation_id() < u32::MAX) ==> {
                let convs = old(store).conversations();
                let rid = resolved_id(*old(store), conversation_id);
                let ridx = resolved_index(convs, conversation_id);
                &&& final(store).conversations().len() as int == if reuses(convs, conversation_id) {
                    convs.len() as int
                } else {
                    convs.len() + 1int
                }
                &&& forall|i: int|
                    0 <= i < convs.len() && i != ridx ==> #[trigger] final(store).conversations()[i]
                        == convs[i]
                &&& final(store).conversations()[ridx].id == rid
                &&& final(store).conversations()[ridx].title@ == derived_title(
                    first_of(turns_of(old(store).turns(), rid)),
                    rid,
                )
                &&& final(store).next_conversation_id() as int == if reuses(convs, conversation_id) {
                    old(store).next_conversation_id() as int
                } else {
                    old(store).next_conversation_id() + 1
                }
            }
        },
{
    let ghost s0 = *store;
    let resolved = match resolve_conversation(store, conversation_id) {
        Ok(c) => c,
        Err(e) => {
            return Err(SendError::Storage(e));
        },
    };
    let ghost s1 = *store;
    let ghost idx = resolved_index(s0.conversations(), conversation_id);
    let mut history = store.list_turns(resolved.id);
    proof {
        assert(s1.conversations()[idx] == resolved);
        lemma_index_of_unique(s1, idx);
    }
    let turn = match store.append_turn(resolved.id, ChatRole::User, message) {
        Ok(t) => t,
        Err(e) => {
            return Err(SendError::Storage(e));
        },
    };
    let ghost s2 = *store;
    proof {
        lemma_turns_of_push(s1.turns(), turn, resolved.id);
    }
    let first = store.get_first_turn(resolved.id);
    let title = derive_title(first, resolved.id);
    let conversation = match store.update_conversation_title(resolved.id, title) {
        Ok(c) => c,
        Err(e) => {
            return Err(SendError::Storage(e));
        },
    };
    proof {
        let cid = resolved.id;
        let before = turns_of(s0.turns(), cid);
        assert(s1.turns() == s0.turns());
        assert(turns_of(s2.turns(), cid) == before.push(turn));
        assert(turns_of(s2.turns(), cid)[0] == if before.len() > 0 { before[0] } else { turn });
        assert(conversation.id == cid);
        assert(conversation.title@ == turns_of(s2.turns(), cid)[0].content@);
        assert(store.turns() == s2.turns());
        assert(store.conversations()[idx] == conversation);
        assert(has_conversation(store.conversations(), cid));
        if reuses(s0.conversations(), conversation_id) {
            assert(store.conversations() =~= s0.conversations().update(idx, conversation));
        } else {
            assert(store.conversations() =~= s0.conversations().push(conversation));
        }
    }
    let saved = ChatTurn {
        id: turn.id,
        conversation_id: turn.conversation_id,
        role: turn.role,
        content: turn.content.clone(),
    };
    history.push(turn);
    let prompt = build_prompt(&history);
    Ok(PendingSend { conversation, user_turn: saved, prompt })
}

/// Second half of a send: persists the completion service's reply to
/// conversation `conversation_id` and returns its whole transcript. A failed
/// completion changes nothing: the user's turn stays without a reply.
pub fn finish_send(
    store: &mut MessageStore,
    conversation_id: u32,
    outcome: Result<String, CompletionError>,
) -> (r: Result<Vec<ChatTurn>, SendError>)
    requires
        old(store).wf(),
    ensures
        final(store).wf(),
        outcome matches Err(e) ==> {
            &&& r == Err::<Vec<ChatTurn>, SendError>(SendError::Completion(e))
            &&& *final(store) == *old(store)
        },
        outcome matches Ok(reply) ==> {
            &&& r is Ok <==> has_conversation(old(store).conversations(), conversation_id)
                && old(store).next_turn_id() < u32::MAX
            &&& r matches Ok(ts) ==> {
                &&& final(store).turns() == old(store).turns().push(
                    assistant_turn(*old(store), conversation_id, reply),
                )
                &&& final(store).conversations() == old(store).conversations()
                &&& final(store).next_turn_id() == old(store).next_turn_id() + 1
                &&& final(store).next_conversation_id() == old(store).next_conversation_id()
                &&& ts@ == turns_of(final(store).turns(), conversation_id)
                &&& ts@ == turns_of(old(store).turns(), conversation_id).push(
                    assistant_turn(*old(store), conversation_id, reply),
                )
            }
            &&& r matches Err(e) ==> {
                &&& *final(store) == *old(store)
                &&& e == SendError::Storage(StoreError::NotFound) <==> !has_conversation(
                    old(store).conversations(),
                    conversation_id,
                )
                &&& e is Storage
            }
        },
{
    let reply = match outcome {
        Ok(reply) => reply,
        Err(e) => {
            return Err(SendError::Completion(e));
        },
    };
    let ghost s0 = *store;
    match store.append_turn(conversation_id, ChatRole::Assistant, reply) {
        Ok(t) => {
            proof {
                lemma_turns_of_push(s0.turns(), t, conversation_id);
            }
            Ok(store.list_turns(conversation_id))
        },
        Err(e) => Err(SendError::Storage(e)),
    }
}

} // verus!
