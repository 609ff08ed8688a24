//! Which conversation an event goes to.

use vstd::prelude::*;

use crate::pipeline::chat_pipeline::key_of;
use crate::text::{is_listed, listed, same_text, texts};
use crate::transport::{conversation_kind_as_str, MessageTarget};

verus! {

/// The key of the conversation that a target names.
pub fn conversation_key(target: &MessageTarget) -> (r: String)
    ensures
        r@ == key_of(target.source@, target.conversation.kind, target.conversation.id@),
{
    let mut r = target.source.clone();
    r.push_str(":");
    r.push_str(conversation_kind_as_str(target.conversation.kind));
    r.push_str(":");
    r.push_str(&target.conversation.id);
    r
}

/// The conversations that run.
#[derive(Debug, PartialEq, Eq)]
pub struct ConversationDispatcher {
    /// The keys of the conversations that run, each of them once.
    actors: Vec<String>,
}

impl View for ConversationDispatcher {
    /// The keys of the conversations that run.
    type V = Set<Seq<char>>;

    closed spec fn view(&self) -> Set<Seq<char>> {
        texts(self.actors@).to_set()
    }
}

/// What to do with a conversation that an event is for.
#[derive(Debug, Clone, Copy, PartialEq, Eq, Structural)]
pub enum ActorStep {
    /// It runs: the event goes to it.
    Existing,
    /// It is to be started first.
    Spawn,
}

/// What to do once an event was sent.
#[derive(Debug, Clone, Copy, PartialEq, Eq, Structural)]
pub enum DeliveryStep {
    Delivered,
    /// The conversation has stopped: it is started anew, and the event sent once more.
    Replace,
    /// The event is lost.
    Lost,
}

proof fn lemma_to_set(list: Seq<String>, key: Seq<char>)
    ensures
        texts(list).to_set().contains(key) == listed(list, key),
{
    if listed(list, key) {
        let i = choose|i: int| 0 <= i < list.len() && (#[trigger] list[i])@ == key;
        assert(texts(list)[i] == key);
    }
    if texts(list).to_set().contains(key) {
        let i = texts(list).index_of(key);
        assert(list[i]@ == key);
    }
}

impl ConversationDispatcher {
    /// No conversation runs.
    pub fn new() -> (r: ConversationDispatcher)
        ensures
            r@ == Set::<Seq<char>>::empty(),
    {
        let r = ConversationDispatcher { actors: Vec::new() };
        assert(r@ =~= Set::empty());
        r
    }

    /// Looks up a conversation; one that does not run is listed as running from now on.
    pub fn get_or_spawn_actor(&mut self, key: &str) -> (r: ActorStep)
        ensures
            final(self)@ == old(self)@.insert(key@),
            r == (if old(self)@.contains(key@) {
                ActorStep::Existing
            } else {
                ActorStep::Spawn
            }),
    {
        proof {
            lemma_to_set(self.actors@, key@);
        }
        if is_listed(&self.actors, key) {
            assert(self@ =~= self@.insert(key@));
            return ActorStep::Existing;
        }
        let ghost before = self.actors@;
        self.actors.push(key.to_owned());
        assert(self@ =~= old(self)@.insert(key@)) by {
            assert forall|k: Seq<char>| self@.contains(k) == old(self)@.insert(key@).contains(
                k,
            ) by {
                lemma_to_set(self.actors@, k);
                lemma_to_set(before, k);
                if listed(before, k) {
                    let i = choose|i: int| 0 <= i < before.len() && (#[trigger] before[i])@ == k;
                    assert(self.actors@[i]@ == k);
                }
                assert(self.actors@[before.len() as int]@ == key@);
                if listed(self.actors@, k) {
                    let i = choose|i: int|
                        0 <= i < self.actors@.len() && (#[trigger] self.actors@[i])@ == k;
                    if i < before.len() {
                        assert(before[i]@ == k);
                    }
                }
            }
        }
        ActorStep::Spawn
    }

    /// Forgets a conversation that has stopped.
    pub fn remove_actor(&mut self, key: &str)
        ensures
            final(self)@ == old(self)@.remove(key@),
    {
        let ghost all = self.actors@;
        let mut rest: Vec<String> = Vec::new();
        std::mem::swap(&mut rest, &mut self.actors);
        let mut kept: Vec<String> = Vec::new();
        let ghost mut done: int = 0;
        while rest.len() > 0
            invariant
                0 <= done <= all.len(),
                rest@ =~= all.skip(done),
                forall|i: int|
                    0 <= i < kept@.len() ==> (#[trigger] kept@[i])@ != key@ && listed(
                        all,
                        kept@[i]@,
                    ),
                forall|i: int|
                    0 <= i < done && (#[trigger] all[i])@ != key@ ==> listed(kept@, all[i]@),
            decreases rest@.len(),
        {
            let one = rest.remove(0);
            assert(one == all[done]);
            if !same_text(&one, key) {
                let ghost before = kept@;
                kept.push(one);
                assert(kept@[before.len() as int]@ == all[done]@);
                assert forall|i: int|
                    0 <= i < done + 1 && (#[trigger] all[i])@ != key@ implies listed(
                    kept@,
                    all[i]@,
                ) by {
                    if i < done {
                        let j = choose|j: int|
                            0 <= j < before.len() && (#[trigger] before[j])@ == all[i]@;
                        assert(kept@[j]@ == all[i]@);
                    }
                }
            }
            proof {
                done = done + 1;
            }
        }
        self.actors = kept;
        assert(self@ =~= old(self)@.remove(key@)) by {
            assert forall|k: Seq<char>| self@.contains(k) == old(self)@.remove(key@).contains(
                k,
            ) by {
                lemma_to_set(self.actors@, k);
                lemma_to_set(all, k);
                if listed(self.actors@, k) {
                    let i = choose|i: int|
                        0 <= i < self.actors@.len() && (#[trigger] self.actors@[i])@ == k;
                    assert(listed(all, kept@[i]@));
                }
                if listed(all, k) && k != key@ {
                    let i = choose|i: int| 0 <= i < all.len() && (#[trigger] all[i])@ == k;
                    assert(listed(kept@, all[i]@));
                }
            }
        }
    }

    /// What to do once an event was sent to a conversation, the first time or again; one that has
    /// stopped is forgotten.
    pub fn after_send(&mut self, key: &str, sent: bool, retried: bool) -> (r: DeliveryStep)
        ensures
            final(self)@ == (if sent {
                old(self)@
            } else {
                old(self)@.remove(key@)
            }),
            r == (if sent {
                DeliveryStep::Delivered
            } else if retried {
                DeliveryStep::Lost
            } else {
                DeliveryStep::Replace
            }),
    {
        if sent {
            return DeliveryStep::Delivered;
        }
        self.remove_actor(key);
        if retried {
            DeliveryStep::Lost
        } else {
            DeliveryStep::Replace
        }
    }
}

} // verus!
