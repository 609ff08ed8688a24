//! Which messages of a group are caught up on when the program starts.

use vstd::prelude::*;

use crate::text::{parse_i64, parse_i64_of, same_text, texts, trim, trim_of};
use crate::transport::IncomingMessage;

verus! {

/// How many messages of a group are asked for.
pub const STARTUP_GROUP_HISTORY_COUNT: u32 = 99;

/// The numbers that texts write, trimmed; others are passed over.
pub open spec fn numbers_in(list: Seq<Seq<char>>) -> Seq<i64>
    decreases list.len(),
{
    if list.len() == 0 {
        Seq::empty()
    } else {
        let rest = numbers_in(list.drop_last());
        match parse_i64_of(trim_of(list.last())) {
            Some(n) => with_number(rest, n),
            None => rest,
        }
    }
}

/// An ordered list with a number more, unless it is there already.
pub open spec fn with_number(list: Seq<i64>, n: i64) -> Seq<i64>
    decreases list.len(),
{
    if list.len() == 0 {
        Seq::empty().push(n)
    } else if list.last() == n {
        list
    } else if list.last() < n {
        list.push(n)
    } else {
        with_number(list.drop_last(), n).push(list.last())
    }
}

/// Whether each number is larger than those before it.
pub open spec fn rising(list: Seq<i64>) -> bool {
    forall|i: int, j: int| 0 <= i < j < list.len() ==> list[i] < list[j]
}

proof fn lemma_with_number(list: Seq<i64>, n: i64)
    requires
        rising(list),
    ensures
        rising(with_number(list, n)),
        forall|m: i64| #[trigger] with_number(list, n).contains(m) <==> list.contains(m) || m == n,
    decreases list.len(),
{
    let r = with_number(list, n);
    if list.len() == 0 {
        assert(r[0] == n);
    } else if list.last() == n {
        assert(list[list.len() - 1] == n);
    } else if list.last() < n {
        assert(r.last() == n);
        assert forall|m: i64| #[trigger] r.contains(m) <==> list.contains(m) || m == n by {
            if list.contains(m) {
                let i = list.index_of(m);
                assert(r[i] == m);
            }
            if r.contains(m) && m != n {
                let i = r.index_of(m);
                assert(list[i] == m);
            }
            assert(r[r.len() - 1] == n);
        }
    } else {
        let front = list.drop_last();
        let inner = with_number(front, n);
        lemma_with_number(front, n);
        assert forall|i: int, j: int| 0 <= i < j < r.len() implies r[i] < r[j] by {
            if j == r.len() - 1 {
                assert(inner.contains(inner[i]));
                if inner[i] != n {
                    let k = front.index_of(inner[i]);
                    assert(list[k] < list[list.len() - 1]);
                }
            } else {
                assert(r[i] == inner[i] && r[j] == inner[j]);
            }
        }
        assert forall|m: i64| #[trigger] r.contains(m) <==> list.contains(m) || m == n by {
            if r.contains(m) {
                let i = r.index_of(m);
                if i < r.len() - 1 {
                    assert(inner[i] == m);
                    assert(inner.contains(m));
                    if m != n {
                        let k = front.index_of(m);
                        assert(list[k] == m);
                    }
                } else {
                    assert(list[list.len() - 1] == m);
                }
            }
            if list.contains(m) {
                let k = list.index_of(m);
                if k < list.len() - 1 {
                    assert(front[k] == m);
                    assert(front.contains(m));
                    assert(inner.contains(m));
                    let i = inner.index_of(m);
                    assert(r[i] == m);
                } else {
                    assert(r[r.len() - 1] == m);
                }
            }
            if m == n {
                assert(inner.contains(n));
                let i = inner.index_of(n);
                assert(r[i] == n);
            }
        }
    }
}

/// The groups that are caught up on come in order, each once, and are those whose numbers the
/// list holds.
pub proof fn law_groups_are_caught_up_on_once(list: Seq<Seq<char>>, id: i64)
    ensures
        rising(numbers_in(list)),
        numbers_in(list).contains(id) <==> exists|i: int|
            0 <= i < list.len() && parse_i64_of(trim_of(#[trigger] list[i])) == Some(id),
    decreases list.len(),
{
    if list.len() > 0 {
        let front = list.drop_last();
        law_groups_are_caught_up_on_once(front, id);
        if let Some(n) = parse_i64_of(trim_of(list.last())) {
            lemma_with_number(numbers_in(front), n);
            if n == id {
                assert(parse_i64_of(trim_of(list[list.len() - 1])) == Some(id));
                assert(with_number(numbers_in(front), n).contains(id));
            }
            assert(with_number(numbers_in(front), n).contains(id) <==> numbers_in(front).contains(
                id,
            ) || id == n);
        }
        assert forall|i: int|
            0 <= i < list.len() && parse_i64_of(trim_of(#[trigger] list[i])) == Some(
                id,
            ) implies numbers_in(list).contains(id) by {
            if i < list.len() - 1 {
                assert(front[i] == list[i]);
            }
        }
        if numbers_in(front).contains(id) {
            let i = choose|i: int|
                0 <= i < front.len() && parse_i64_of(trim_of(#[trigger] front[i])) == Some(id);
            assert(list[i] == front[i]);
        }
    }
}

fn insert_number(list: &mut Vec<i64>, n: i64)
    ensures
        final(list)@ == with_number(old(list)@, n),
{
    let ghost all = list@;
    let mut at: usize = list.len();
    assert(all.take(at as int) =~= all);
    assert(with_number(all, n) =~= with_number(all.take(at as int), n) + all.skip(at as int));
    while at > 0 && list[at - 1] > n
        invariant
            at <= list@.len(),
            list@ == all,
            with_number(all, n) == with_number(all.take(at as int), n) + all.skip(at as int),
        decreases at,
    {
        proof {
            let shorter = all.take(at as int);
            assert(shorter.drop_last() =~= all.take(at - 1));
            assert(with_number(shorter, n) == with_number(all.take(at - 1), n).push(all[at - 1]));
            assert(with_number(all.take(at - 1), n).push(all[at - 1]) + all.skip(at as int)
                =~= with_number(all.take(at - 1), n) + all.skip(at - 1));
        }
        at -= 1;
    }
    if at > 0 && list[at - 1] == n {
        assert(with_number(all.take(at as int), n) == all.take(at as int));
        assert(all.take(at as int) + all.skip(at as int) =~= all);
        return;
    }
    assert(with_number(all.take(at as int), n) =~= all.take(at as int).push(n));
    list.insert(at, n);
    assert(list@ =~= all.take(at as int).push(n) + all.skip(at as int));
}

/// The groups that are caught up on, where a list of them is set: in order, each once.
pub fn target_group_ids(whitelist: &Vec<String>) -> (r: Vec<i64>)
    ensures
        r@ == numbers_in(texts(whitelist@)),
{
    let ghost all = texts(whitelist@);
    let mut ids: Vec<i64> = Vec::new();
    let mut i: usize = 0;
    assert(all.take(0) =~= Seq::empty());
    while i < whitelist.len()
        invariant
            i <= whitelist@.len(),
            all == texts(whitelist@),
            ids@ == numbers_in(all.take(i as int)),
        decreases whitelist@.len() - i,
    {
        assert(all.take(i + 1).drop_last() =~= all.take(i as int));
        if let Some(id) = parse_i64(&trim(&whitelist[i])) {
            insert_number(&mut ids, id);
        }
        i += 1;
    }
    assert(all.take(i as int) =~= all);
    ids
}

/// The messages before a moment, in order.
pub open spec fn sent_before(messages: Seq<IncomingMessage>, moment: i64) -> Seq<IncomingMessage>
    decreases messages.len(),
{
    if messages.len() == 0 {
        Seq::empty()
    } else {
        let rest = sent_before(messages.drop_last(), moment);
        if messages.last().timestamp < moment {
            rest.push(messages.last())
        } else {
            rest
        }
    }
}

/// The messages behind the last one of an account, in order.
pub open spec fn after_last_of(messages: Seq<IncomingMessage>, sender: Seq<char>) -> Seq<
    IncomingMessage,
>
    decreases messages.len(),
{
    if messages.len() == 0 || messages.last().sender.id@ == sender {
        Seq::empty()
    } else {
        after_last_of(messages.drop_last(), sender).push(messages.last())
    }
}

/// How many messages are passed over, so that none behind them is there already.
pub open spec fn known_prefix(exists: Seq<bool>) -> nat
    decreases exists.len(),
{
    if exists.len() == 0 {
        0
    } else if exists.last() {
        exists.len()
    } else {
        known_prefix(exists.drop_last())
    }
}

/// The messages before a moment, in order. What came in since then is left to the conversations
/// themselves.
pub fn messages_before(messages: Vec<IncomingMessage>, moment: i64) -> (r: Vec<IncomingMessage>)
    ensures
        r@ == sent_before(messages@, moment),
{
    let ghost all = messages@;
    let mut rest = messages;
    let mut kept: Vec<IncomingMessage> = Vec::new();
    let ghost mut done: int = 0;
    assert(all.take(0) =~= Seq::empty());
    while rest.len() > 0
        invariant
            0 <= done <= all.len(),
            rest@ =~= all.skip(done),
            kept@ == sent_before(all.take(done), moment),
        decreases rest@.len(),
    {
        proof {
            assert(all.take(done + 1).drop_last() =~= all.take(done));
            done = done + 1;
        }
        let message = rest.remove(0);
        if message.timestamp < moment {
            kept.push(message);
        }
    }
    assert(all.take(done) =~= all);
    kept
}

/// The messages behind the last one of the assistant, in order: what it has answered is not caught
/// up on, nor is what it said.
pub fn messages_after_last_bot(messages: Vec<IncomingMessage>, bot_id: &str) -> (r: Vec<
    IncomingMessage,
>)
    ensures
        r@ == after_last_of(messages@, bot_id@),
{
    let ghost all = messages@;
    let mut rest = messages;
    let mut kept: Vec<IncomingMessage> = Vec::new();
    let ghost mut done: int = 0;
    assert(all.take(0) =~= Seq::empty());
    while rest.len() > 0
        invariant
            0 <= done <= all.len(),
            rest@ =~= all.skip(done),
            kept@ == after_last_of(all.take(done), bot_id@),
        decreases rest@.len(),
    {
        proof {
            assert(all.take(done + 1).drop_last() =~= all.take(done));
            done = done + 1;
        }
        let message = rest.remove(0);
        if same_text(&message.sender.id, bot_id) {
            kept = Vec::new();
        } else {
            kept.push(message);
        }
    }
    assert(all.take(done) =~= all);
    kept
}

/// The messages behind the last one that is there already, in order.
pub fn messages_after_last_existing(messages: Vec<IncomingMessage>, exists: &Vec<bool>) -> (r: Vec<
    IncomingMessage,
>)
    requires
        exists@.len() == messages@.len(),
    ensures
        r@ == messages@.skip(known_prefix(exists@) as int),
{
    let ghost all = messages@;
    let mut rest = messages;
    let mut kept: Vec<IncomingMessage> = Vec::new();
    let mut i: usize = 0;
    assert(exists@.take(0) =~= Seq::empty());
    assert(all.subrange(0, 0) =~= Seq::empty());
    while i < exists.len()
        invariant
            i <= exists@.len() == all.len(),
            rest@ =~= all.skip(i as int),
            known_prefix(exists@.take(i as int)) <= i,
            kept@ == all.subrange(known_prefix(exists@.take(i as int)) as int, i as int),
        decreases exists@.len() - i,
    {
        assert(exists@.take(i + 1).drop_last() =~= exists@.take(i as int));
        let message = rest.remove(0);
        if exists[i] {
            kept = Vec::new();
            assert(all.subrange(i + 1, i + 1) =~= Seq::empty());
        } else {
            kept.push(message);
            assert(kept@ =~= all.subrange(known_prefix(exists@.take(i as int)) as int, i + 1));
        }
        i += 1;
    }
    assert(exists@.take(i as int) =~= exists@);
    assert(kept@ =~= all.skip(known_prefix(exists@) as int));
    kept
}

/// Nothing of the assistant is caught up on, and nothing before its last message.
pub proof fn law_own_messages_stay_out(messages: Seq<IncomingMessage>, bot_id: Seq<char>, i: int)
    requires
        0 <= i < after_last_of(messages, bot_id).len(),
    ensures
        after_last_of(messages, bot_id)[i].sender.id@ != bot_id,
        after_last_of(messages, bot_id).len() <= messages.len(),
        after_last_of(messages, bot_id) == messages.skip(
            messages.len() - after_last_of(messages, bot_id).len(),
        ),
    decreases messages.len(),
{
    let r = after_last_of(messages, bot_id);
    let front = messages.drop_last();
    let inner = after_last_of(front, bot_id);
    if i < inner.len() {
        law_own_messages_stay_out(front, bot_id, i);
    }
    if inner.len() > 0 {
        law_own_messages_stay_out(front, bot_id, 0);
        assert(r =~= messages.skip(messages.len() - r.len()));
    } else {
        assert(r =~= messages.skip(messages.len() - 1));
    }
}

/// What was sent before a moment is picked message by message: one message is kept where its own time
/// lies before the moment, and the messages of two stretches are those of the first and then those of
/// the second.
pub proof fn law_messages_before_a_moment_are_kept(
    a: Seq<IncomingMessage>,
    b: Seq<IncomingMessage>,
    message: IncomingMessage,
    moment: i64,
)
    ensures
        sent_before(Seq::<IncomingMessage>::empty(), moment).len() == 0,
        message.timestamp < moment ==> sent_before(seq![message], moment) == seq![message],
        message.timestamp >= moment ==> sent_before(seq![message], moment).len() == 0,
        sent_before(a + b, moment) == sent_before(a, moment) + sent_before(b, moment),
    decreases b.len(),
{
    let one = seq![message];
    assert(one.drop_last() =~= Seq::empty());
    assert(sent_before(one.drop_last(), moment) =~= Seq::empty());
    assert(one.last() == message);
    if message.timestamp < moment {
        assert(sent_before(one, moment) =~= one);
    }
    if b.len() == 0 {
        assert(a + b =~= a);
        assert(sent_before(a + b, moment) =~= sent_before(a, moment) + sent_before(b, moment));
    } else {
        law_messages_before_a_moment_are_kept(a, b.drop_last(), message, moment);
        assert((a + b).drop_last() =~= a + b.drop_last());
        assert((a + b).last() == b.last());
        assert(sent_before(a + b, moment) =~= sent_before(a, moment) + sent_before(b, moment));
    }
}

/// What is caught up on reaches back as far as it can: it is the end of the messages, and the message
/// before it, where there is one, is of the assistant.
pub proof fn law_catching_up_begins_behind_the_last_own_message(
    messages: Seq<IncomingMessage>,
    bot_id: Seq<char>,
)
    ensures
        ({
            let n = after_last_of(messages, bot_id).len();
            &&& n <= messages.len()
            &&& after_last_of(messages, bot_id) == messages.skip(messages.len() - n)
            &&& n < messages.len() ==> messages[messages.len() - n - 1].sender.id@ == bot_id
            &&& forall|i: int|
                messages.len() - n <= i < messages.len() ==> (#[trigger] messages[i]).sender.id@
                    != bot_id
        }),
    decreases messages.len(),
{
    let r = after_last_of(messages, bot_id);
    if messages.len() > 0 && messages.last().sender.id@ != bot_id {
        let front = messages.drop_last();
        law_catching_up_begins_behind_the_last_own_message(front, bot_id);
        let n = r.len();
        assert(r =~= messages.skip(messages.len() - n));
        if n < messages.len() {
            assert(front[front.len() - (n - 1) - 1] == messages[messages.len() - n - 1]);
        }
        assert forall|i: int| messages.len() - n <= i < messages.len() implies (
        #[trigger] messages[i]).sender.id@ != bot_id by {
            if i < front.len() {
                assert(front[i] == messages[i]);
            }
        }
    } else {
        assert(r =~= messages.skip(messages.len() as int));
    }
}

/// The messages that are passed over end with one that is there already, and none behind them is
/// there.
pub proof fn law_known_messages_are_passed_over(exists: Seq<bool>)
    ensures
        known_prefix(exists) <= exists.len(),
        known_prefix(exists) > 0 ==> exists[known_prefix(exists) - 1],
        forall|i: int| known_prefix(exists) <= i < exists.len() ==> !#[trigger] exists[i],
    decreases exists.len(),
{
    if exists.len() > 0 && !exists.last() {
        let front = exists.drop_last();
        law_known_messages_are_passed_over(front);
        assert forall|i: int| known_prefix(exists) <= i < exists.len() implies !#[trigger] exists[i] by {
            if i < front.len() {
                assert(front[i] == exists[i]);
            }
        }
    }
}

} // verus!
