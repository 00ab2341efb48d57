use vstd::prelude::*;
use crate::role::ChatRole;
use crate::store::{lemma_turns_of_push, turns_not_of, turns_of, ChatTurn};

verus! {

/// `ts` is the record of completed exchanges: the k-th message sent as a user
/// turn, directly followed by the k-th reply as an assistant turn.
pub open spec fn is_exchange_log(
    ts: Seq<ChatTurn>,
    messages: Seq<Seq<char>>,
    replies: Seq<Seq<char>>,
) -> bool {
    &&& messages.len() == replies.len()
    &&& ts.len() == 2 * messages.len()
    &&& forall|k: int|
        0 <= k < messages.len() ==> {
            &&& (#[trigger] ts[2 * k]).role == ChatRole::User
            &&& ts[2 * k].content@ == messages[k]
            &&& ts[2 * k + 1].role == ChatRole::Assistant
            &&& ts[2 * k + 1].content@ == replies[k]
        }
}

/// A conversation without turns holds the record of no exchange.
pub proof fn lemma_empty_exchange_log(ts: Seq<ChatTurn>)
    requires
        ts.len() == 0,
    ensures
        is_exchange_log(ts, Seq::empty(), Seq::empty()),
{
}

/// Appending a user turn and then an assistant turn to a record of exchanges
/// extends it by that message and that reply.
pub proof fn lemma_exchange_log_push(
    ts: Seq<ChatTurn>,
    messages: Seq<Seq<char>>,
    replies: Seq<Seq<char>>,
    user: ChatTurn,
    assistant: ChatTurn,
)
    requires
        is_exchange_log(ts, messages, replies),
        user.role == ChatRole::User,
        assistant.role == ChatRole::Assistant,
    ensures
        is_exchange_log(
            ts.push(user).push(assistant),
            messages.push(user.content@),
            replies.push(assistant.content@),
        ),
{
    let nts = ts.push(user).push(assistant);
    let n = messages.len() as int;
    assert forall|k: int| 0 <= k < n + 1 implies {
        &&& (#[trigger] nts[2 * k]).role == ChatRole::User
        &&& nts[2 * k].content@ == messages.push(user.content@)[k]
        &&& nts[2 * k + 1].role == ChatRole::Assistant
        &&& nts[2 * k + 1].content@ == replies.push(assistant.content@)[k]
    } by {
        if k < n {
            assert(nts[2 * k] == ts[2 * k]);
            assert(nts[2 * k + 1] == ts[2 * k + 1]);
        } else {
            assert(nts[2 * k] == user);
            assert(nts[2 * k + 1] == assistant);
        }
    }
}

/// A successful send (its user turn, then its assistant turn, appended to
/// conversation `cid`) extends that conversation's record of exchanges by
/// exactly that message and that reply.
pub proof fn lemma_successful_send_extends_log(
    before: Seq<ChatTurn>,
    user: ChatTurn,
    assistant: ChatTurn,
    cid: u32,
    messages: Seq<Seq<char>>,
    replies: Seq<Seq<char>>,
)
    requires
        is_exchange_log(turns_of(before, cid), messages, replies),
        user.conversation_id == cid,
        user.role == ChatRole::User,
        assistant.conversation_id == cid,
        assistant.role == ChatRole::Assistant,
    ensures
        is_exchange_log(
            turns_of(before.push(user).push(assistant), cid),
            messages.push(user.content@),
            replies.push(assistant.content@),
        ),
{
    lemma_turns_of_push(before, user, cid);
    lemma_turns_of_push(before.push(user), assistant, cid);
    lemma_exchange_log_push(turns_of(before, cid), messages, replies, user, assistant);
}

/// After N successful sends to a conversation that started without turns,
/// it holds exactly 2N turns, alternating user and assistant, with the
/// messages and the replies in send order. `logs[k]` is the conversation's
/// turns after the k-th send; each send appends its user turn `users[k]` and
/// then its assistant turn `assistants[k]`.
pub proof fn lemma_sends_alternate(
    logs: Seq<Seq<ChatTurn>>,
    users: Seq<ChatTurn>,
    assistants: Seq<ChatTurn>,
)
    requires
        logs.len() == users.len() + 1,
        assistants.len() == users.len(),
        logs[0].len() == 0,
        forall|k: int|
            0 <= k < users.len() ==> {
                &&& (#[trigger] users[k]).role == ChatRole::User
                &&& assistants[k].role == ChatRole::Assistant
                &&& logs[k + 1] == logs[k].push(users[k]).push(assistants[k])
            },
    ensures
        logs.last().len() == 2 * users.len(),
        is_exchange_log(
            logs.last(),
            users.map_values(|t: ChatTurn| t.content@),
            assistants.map_values(|t: ChatTurn| t.content@),
        ),
    decreases users.len(),
{
    let ms = users.map_values(|t: ChatTurn| t.content@);
    let rs = assistants.map_values(|t: ChatTurn| t.content@);
    if users.len() == 0 {
        assert(ms =~= Seq::<Seq<char>>::empty());
        assert(rs =~= Seq::<Seq<char>>::empty());
    } else {
        let n = users.len() - 1;
        let pl = logs.drop_last();
        let pu = users.drop_last();
        let pa = assistants.drop_last();
        assert forall|k: int| 0 <= k < pu.len() implies {
            &&& (#[trigger] pu[k]).role == ChatRole::User
            &&& pa[k].role == ChatRole::Assistant
            &&& pl[k + 1] == pl[k].push(pu[k]).push(pa[k])
        } by {
            assert(users[k].role == ChatRole::User);
        }
        lemma_sends_alternate(pl, pu, pa);
        let pms = pu.map_values(|t: ChatTurn| t.content@);
        let prs = pa.map_values(|t: ChatTurn| t.content@);
        assert(users[n].role == ChatRole::User);
        lemma_exchange_log_push(pl.last(), pms, prs, users[n], assistants[n]);
        assert(pms.push(users[n].content@) =~= ms);
        assert(prs.push(assistants[n].content@) =~= rs);
        assert(logs.last() == pl.last().push(users[n]).push(assistants[n]));
    }
}

/// A send whose completion fails leaves conversation `cid` with the user's
/// turn appended last and with as many assistant turns as before.
pub proof fn lemma_failed_send_keeps_user_turn(
    before: Seq<ChatTurn>,
    user: ChatTurn,
    after: Seq<ChatTurn>,
    cid: u32,
)
    requires
        user.conversation_id == cid,
        user.role == ChatRole::User,
        after == before.push(user),
    ensures
        turns_of(after, cid) == turns_of(before, cid).push(user),
        turns_of(after, cid).last() == user,
        turns_of(after, cid).filter(|t: ChatTurn| t.role == ChatRole::Assistant) == turns_of(
            before,
            cid,
        ).filter(|t: ChatTurn| t.role == ChatRole::Assistant),
{
    lemma_turns_of_push(before, user, cid);
    reveal(Seq::filter);
    assert(turns_of(before, cid).push(user).drop_last() =~= turns_of(before, cid));
}

/// Deleting conversation `id` (keeping the turns of every other one) leaves
/// it no turns and leaves every other conversation's turns as they were.
pub proof fn lemma_cascade_delete(turns: Seq<ChatTurn>, id: u32, other: u32)
    requires
        other != id,
    ensures
        turns_of(turns_not_of(turns, id), id).len() == 0,
        turns_of(turns_not_of(turns, id), other) == turns_of(turns, other),
    decreases turns.len(),
{
    if turns.len() > 0 {
        let d = turns.drop_last();
        let t = turns.last();
        assert(turns == d.push(t));
        lemma_cascade_delete(d, id, other);
        lemma_turns_of_push(d, t, id);
        lemma_turns_of_push(d, t, other);
        reveal(Seq::filter);
        assert(d.push(t).drop_last() =~= d);
        let kept = turns_not_of(d, id);
        if t.conversation_id != id {
            assert(turns_not_of(turns, id) == kept.push(t));
            lemma_turns_of_push(kept, t, id);
            lemma_turns_of_push(kept, t, other);
        } else {
            assert(turns_not_of(turns, id) == kept);
        }
    } else {
        reveal(Seq::filter);
    }
}

} // verus!
