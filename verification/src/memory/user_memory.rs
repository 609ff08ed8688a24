//! The people that a conversation is about, and what the assistant remembers of them.

use vstd::prelude::*;

use crate::json::{
    is_text, items_view, json_parsed, option_text, parse_json, Json, JsonView,
};
use crate::memory::member_profile::MemberProfile;
use crate::repository::db_manager::ChatMessage;
use crate::repository::user_memory::UserMemoryRecord;
use crate::scheduler::service::{is_random_suffix, random_suffix};
use crate::text::{
    decimal, decimal_of, lemma_made_of_more, lemma_made_of_none, made_of, occurs_at, replace,
    replace_of, same_text, signed_decimal, signed_decimal_of, texts, trim, trim_end, trim_end_of,
    trim_of,
};
use crate::transport::{ContentPart, IncomingMessage};

verus! {

/// How many messages are looked through for people at the beginning.
pub const INITIAL_MEMBER_MESSAGE_SCAN: usize = 10;

/// How many people a prompt shows at most.
pub const MAX_ACTIVE_MEMORY_USERS: usize = 20;

/// How many characters of a memory's number are drawn.
pub const MEMORY_ID_RANDOM_CHARS: usize = 8;

/// How often a number for a memory is drawn before giving up.
pub const MEMORY_ID_ATTEMPTS: u32 = 20;

/// A person that a prompt shows.
#[derive(Debug, PartialEq, Eq)]
pub struct ActiveMemoryUser {
    pub user_id: String,
    pub qq_nickname: String,
    pub group_card: Option<String>,
    /// The number of the latest message from or about them.
    pub last_relevant_message_id: i64,
}

/// A person that messages came from or are about.
#[derive(Debug, PartialEq, Eq)]
pub struct ActiveUserCandidate {
    pub user_id: String,
    pub qq_nickname: Option<String>,
    pub group_card: Option<String>,
    pub last_relevant_message_id: i64,
}

/// What is known of a person that a prompt shows.
pub struct UserView {
    pub user_id: Seq<char>,
    pub qq_nickname: Seq<char>,
    pub group_card: Option<Seq<char>>,
    pub last: i64,
}

/// What is known of a person that messages came from or are about.
pub struct CandidateView {
    pub user_id: Seq<char>,
    pub qq_nickname: Option<Seq<char>>,
    pub group_card: Option<Seq<char>>,
    pub last: i64,
}

impl View for ActiveMemoryUser {
    type V = UserView;

    open spec fn view(&self) -> UserView {
        UserView {
            user_id: self.user_id@,
            qq_nickname: self.qq_nickname@,
            group_card: option_text(self.group_card),
            last: self.last_relevant_message_id,
        }
    }
}

impl View for ActiveUserCandidate {
    type V = CandidateView;

    open spec fn view(&self) -> CandidateView {
        CandidateView {
            user_id: self.user_id@,
            qq_nickname: option_text(self.qq_nickname),
            group_card: option_text(self.group_card),
            last: self.last_relevant_message_id,
        }
    }
}

/// The people of a list.
pub open spec fn users_view(users: Seq<ActiveMemoryUser>) -> Seq<UserView> {
    Seq::new(users.len(), |i: int| users[i]@)
}

/// The people of a list.
pub open spec fn candidates_view(candidates: Seq<ActiveUserCandidate>) -> Seq<CandidateView> {
    Seq::new(candidates.len(), |i: int| candidates[i]@)
}

/// A text without white space around it, unless nothing is left.
pub open spec fn non_empty_of(value: Seq<char>) -> Option<Seq<char>> {
    if trim_of(value).len() == 0 {
        None
    } else {
        Some(trim_of(value))
    }
}

/// A text without white space around it, unless nothing is left.
pub fn non_empty(value: &str) -> (r: Option<String>)
    ensures
        option_text(r) == non_empty_of(value@),
{
    let value = trim(value);
    if value.is_empty() {
        None
    } else {
        Some(value)
    }
}

/// A text that may be absent, without white space around it, unless nothing is left.
pub open spec fn non_empty_option(value: Option<Seq<char>>) -> Option<Seq<char>> {
    match value {
        Some(text) => non_empty_of(text),
        None => None,
    }
}

fn keep_non_empty(value: &Option<String>) -> (r: Option<String>)
    ensures
        option_text(r) == non_empty_option(option_text(*value)),
{
    match value {
        Some(text) => non_empty(text),
        None => None,
    }
}

/// The account that a mention names: neither everybody nor the assistant.
pub open spec fn mentioned_user(value: JsonView, bot_id: Seq<char>) -> Option<Seq<char>> {
    let user_id = match value {
        JsonView::Text(text) => Some(text),
        JsonView::Unsigned(n) => Some(decimal_of(n as nat)),
        JsonView::Negative(n) => Some(signed_decimal_of(n as int)),
        JsonView::Decimal(text) => Some(text),
        _ => None,
    };
    match user_id {
        Some(id) => if id == "all"@ || id == bot_id {
            None
        } else {
            Some(id)
        },
        None => None,
    }
}

/// The account that a mention names.
pub fn mentioned_user_id(value: &Json, bot_id: &str) -> (r: Option<String>)
    ensures
        option_text(r) == mentioned_user(value@, bot_id@),
{
    let user_id = match value {
        Json::Text(text) => text.clone(),
        Json::Unsigned(n) => decimal(*n),
        Json::Negative(n) => signed_decimal(*n),
        Json::Decimal(text) => text.clone(),
        _ => {
            return None;
        },
    };
    if same_text(&user_id, "all") || same_text(&user_id, bot_id) {
        None
    } else {
        Some(user_id)
    }
}

/// The account that a piece of a message mentions.
pub open spec fn part_mention(kind: Option<Seq<char>>, qq: Option<JsonView>, bot_id: Seq<char>) -> Option<
    Seq<char>,
> {
    if kind != Some("at"@) {
        None
    } else {
        match qq {
            Some(value) => mentioned_user(value, bot_id),
            None => None,
        }
    }
}

/// The account that a piece of a stored message mentions.
pub open spec fn stored_part_mention(part: JsonView, bot_id: Seq<char>) -> Option<Seq<char>> {
    part_mention(
        part.text_field("kind"@),
        match part.field("data"@) {
            Some(data) => data.field("qq"@),
            None => None,
        },
        bot_id,
    )
}

/// The accounts that the pieces of a stored message mention.
pub open spec fn stored_mentions(parts: Seq<JsonView>, bot_id: Seq<char>) -> Seq<Seq<char>>
    decreases parts.len(),
{
    if parts.len() == 0 {
        Seq::empty()
    } else {
        match stored_part_mention(parts.last(), bot_id) {
            Some(id) => stored_mentions(parts.drop_last(), bot_id).push(id),
            None => stored_mentions(parts.drop_last(), bot_id),
        }
    }
}

/// The accounts that a stored message mentions, by what its pieces were read as.
pub open spec fn mentions_in(parsed: Option<JsonView>, bot_id: Seq<char>) -> Seq<Seq<char>> {
    match parsed {
        Some(JsonView::Array(parts)) => stored_mentions(parts, bot_id),
        _ => Seq::empty(),
    }
}

/// The accounts that the pieces of a stored message mention.
pub fn read_mentions(parsed: &Option<Json>, bot_id: &str) -> (r: Vec<String>)
    ensures
        texts(r@) == mentions_in(crate::json::option_json(*parsed), bot_id@),
{
    let mut mentions: Vec<String> = Vec::new();
    let parts = match parsed {
        Some(document) => match document.as_array() {
            Some(parts) => parts,
            None => {
                assert(texts(mentions@) =~= Seq::empty());
                return mentions;
            },
        },
        None => {
            assert(texts(mentions@) =~= Seq::empty());
            return mentions;
        },
    };
    let ghost all = items_view(parts@);
    let mut i: usize = 0;
    assert(all.take(0) =~= Seq::empty());
    assert(texts(mentions@) =~= Seq::empty());
    while i < parts.len()
        invariant
            i <= parts@.len(),
            all == items_view(parts@),
            texts(mentions@) == stored_mentions(all.take(i as int), bot_id@),
        decreases parts@.len() - i,
    {
        assert(all.take(i + 1).drop_last() =~= all.take(i as int));
        let part = &parts[i];
        if is_text(&part.text_at("kind"), "at") {
            if let Some(data) = part.get("data") {
                if let Some(value) = data.get("qq") {
                    if let Some(id) = mentioned_user_id(value, bot_id) {
                        let ghost before = texts(mentions@);
                        let ghost added = id@;
                        mentions.push(id);
                        assert(texts(mentions@) =~= before.push(added));
                    }
                }
            }
        }
        i += 1;
    }
    assert(all.take(i as int) =~= all);
    mentions
}

/// The accounts that a stored message mentions.
pub fn stored_message_mentions(message: &ChatMessage, bot_id: &str) -> (r: Vec<String>)
    ensures
        texts(r@) == mentions_in(json_parsed(message.content_parts_json@), bot_id@),
{
    read_mentions(&parse_json(&message.content_parts_json), bot_id)
}

/// The account that a piece of a message that came in mentions.
pub open spec fn content_part_mention(part: ContentPart, bot_id: Seq<char>) -> Option<Seq<char>> {
    part_mention(Some(part.kind@), part.data@.field("qq"@), bot_id)
}

/// The accounts that the pieces of a message that came in mention.
pub open spec fn content_mentions(parts: Seq<ContentPart>, bot_id: Seq<char>) -> Seq<Seq<char>>
    decreases parts.len(),
{
    if parts.len() == 0 {
        Seq::empty()
    } else {
        match content_part_mention(parts.last(), bot_id) {
            Some(id) => content_mentions(parts.drop_last(), bot_id).push(id),
            None => content_mentions(parts.drop_last(), bot_id),
        }
    }
}

/// The accounts that a message that came in mentions.
pub fn message_mentions(message: &IncomingMessage, bot_id: &str) -> (r: Vec<String>)
    ensures
        texts(r@) == content_mentions(message.content.parts@, bot_id@),
{
    let parts = &message.content.parts;
    let ghost all = parts@;
    let mut mentions: Vec<String> = Vec::new();
    let mut i: usize = 0;
    assert(all.take(0) =~= Seq::empty());
    assert(texts(mentions@) =~= Seq::empty());
    while i < parts.len()
        invariant
            i <= parts@.len(),
            all == parts@,
            parts == &message.content.parts,
            texts(mentions@) == content_mentions(all.take(i as int), bot_id@),
        decreases parts@.len() - i,
    {
        assert(all.take(i + 1).drop_last() =~= all.take(i as int));
        let part = &parts[i];
        if same_text(&part.kind, "at") {
            if let Some(value) = part.data.get("qq") {
                if let Some(id) = mentioned_user_id(value, bot_id) {
                    let ghost before = texts(mentions@);
                    let ghost added = id@;
                    mentions.push(id);
                    assert(texts(mentions@) =~= before.push(added));
                }
            }
        }
        i += 1;
    }
    assert(all.take(i as int) =~= all);
    mentions
}

/// Where a person stands in a list.
pub open spec fn candidate_position(candidates: Seq<CandidateView>, user_id: Seq<char>) -> Option<int>
    decreases candidates.len(),
{
    if candidates.len() == 0 {
        None
    } else {
        match candidate_position(candidates.drop_last(), user_id) {
            Some(i) => Some(i),
            None => if candidates.last().user_id == user_id {
                Some(candidates.len() - 1)
            } else {
                None
            },
        }
    }
}

proof fn lemma_candidate_position(candidates: Seq<CandidateView>, user_id: Seq<char>)
    ensures
        match candidate_position(candidates, user_id) {
            Some(i) => 0 <= i < candidates.len() && candidates[i].user_id == user_id && forall|
                j: int,
            |
                0 <= j < i ==> (#[trigger] candidates[j]).user_id != user_id,
            None => forall|j: int|
                0 <= j < candidates.len() ==> (#[trigger] candidates[j]).user_id != user_id,
        },
    decreases candidates.len(),
{
    if candidates.len() > 0 {
        let front = candidates.drop_last();
        lemma_candidate_position(front, user_id);
        assert forall|j: int| 0 <= j < front.len() implies front[j]
            == #[trigger] candidates[j] by {}
    }
}

/// The later of two messages.
pub open spec fn later(a: i64, b: i64) -> i64 {
    if a < b {
        b
    } else {
        a
    }
}

/// A text that may be absent, or another one.
pub open spec fn or_else(a: Option<Seq<char>>, b: Option<Seq<char>>) -> Option<Seq<char>> {
    if a is Some {
        a
    } else {
        b
    }
}

/// A list of people with one more; what is new of somebody who is listed fills what is missing.
pub open spec fn with_candidate(candidates: Seq<CandidateView>, candidate: CandidateView) -> Seq<
    CandidateView,
> {
    match candidate_position(candidates, candidate.user_id) {
        Some(i) => candidates.update(
            i,
            CandidateView {
                user_id: candidates[i].user_id,
                qq_nickname: or_else(candidates[i].qq_nickname, candidate.qq_nickname),
                group_card: or_else(candidates[i].group_card, candidate.group_card),
                last: later(candidates[i].last, candidate.last),
            },
        ),
        None => candidates.push(candidate),
    }
}

fn find_candidate(candidates: &Vec<ActiveUserCandidate>, user_id: &str) -> (r: Option<usize>)
    ensures
        match r {
            Some(i) => i < candidates@.len() && candidate_position(
                candidates_view(candidates@),
                user_id@,
            ) == Some(i as int),
            None => candidate_position(candidates_view(candidates@), user_id@) is None,
        },
{
    let ghost all = candidates_view(candidates@);
    let mut i: usize = 0;
    while i < candidates.len()
        invariant
            i <= candidates@.len(),
            all == candidates_view(candidates@),
            forall|j: int| 0 <= j < i ==> (#[trigger] all[j]).user_id != user_id@,
        decreases candidates@.len() - i,
    {
        if same_text(&candidates[i].user_id, user_id) {
            proof {
                assert(all[i as int].user_id == user_id@);
                lemma_candidate_position(all, user_id@);
            }
            return Some(i);
        }
        i += 1;
    }
    proof {
        lemma_candidate_position(all, user_id@);
    }
    None
}

/// Adds a person to a list; what is new of somebody who is listed fills what is missing.
pub fn push_candidate(candidates: &mut Vec<ActiveUserCandidate>, candidate: ActiveUserCandidate)
    ensures
        candidates_view(final(candidates)@) == with_candidate(
            candidates_view(old(candidates)@),
            candidate@,
        ),
{
    let ghost before = candidates_view(candidates@);
    match find_candidate(candidates, &candidate.user_id) {
        Some(i) => {
            let last: i64 = if candidates[i].last_relevant_message_id
                < candidate.last_relevant_message_id {
                candidate.last_relevant_message_id
            } else {
                candidates[i].last_relevant_message_id
            };
            let qq_nickname = if candidates[i].qq_nickname.is_none() {
                candidate.qq_nickname
            } else {
                candidates[i].qq_nickname.clone()
            };
            let group_card = if candidates[i].group_card.is_none() {
                candidate.group_card
            } else {
                candidates[i].group_card.clone()
            };
            let merged = ActiveUserCandidate {
                user_id: candidates[i].user_id.clone(),
                qq_nickname,
                group_card,
                last_relevant_message_id: last,
            };
            let ghost shown = merged@;
            candidates.set(i, merged);
            assert(candidates_view(candidates@) =~= before.update(i as int, shown));
        },
        None => {
            candidates.push(candidate);
            assert(candidates_view(candidates@) =~= before.push(candidate@));
        },
    }
}

/// A list of people with those that a message mentions.
pub open spec fn with_mentions(
    candidates: Seq<CandidateView>,
    mentions: Seq<Seq<char>>,
    message_id: i64,
) -> Seq<CandidateView>
    decreases mentions.len(),
{
    if mentions.len() == 0 {
        candidates
    } else {
        with_candidate(
            with_mentions(candidates, mentions.drop_last(), message_id),
            CandidateView {
                user_id: mentions.last(),
                qq_nickname: None,
                group_card: None,
                last: message_id,
            },
        )
    }
}

/// A list of people with the sender of a message and those that it mentions.
pub open spec fn with_message(
    candidates: Seq<CandidateView>,
    sender: CandidateView,
    mentions: Seq<Seq<char>>,
) -> Seq<CandidateView> {
    with_mentions(with_candidate(candidates, sender), mentions, sender.last)
}

fn push_message_people(
    candidates: &mut Vec<ActiveUserCandidate>,
    sender: ActiveUserCandidate,
    mentions: Vec<String>,
)
    ensures
        candidates_view(final(candidates)@) == with_message(
            candidates_view(old(candidates)@),
            sender@,
            texts(mentions@),
        ),
{
    let message_id: i64 = sender.last_relevant_message_id;
    push_candidate(candidates, sender);
    let ghost begun = candidates_view(candidates@);
    let ghost all = texts(mentions@);
    let mut i: usize = 0;
    assert(all.take(0) =~= Seq::empty());
    while i < mentions.len()
        invariant
            i <= mentions@.len(),
            all == texts(mentions@),
            candidates_view(candidates@) == with_mentions(begun, all.take(i as int), message_id),
        decreases mentions@.len() - i,
    {
        assert(all.take(i + 1).drop_last() =~= all.take(i as int));
        push_candidate(
            candidates,
            ActiveUserCandidate {
                user_id: mentions[i].clone(),
                qq_nickname: None,
                group_card: None,
                last_relevant_message_id: message_id,
            },
        );
        i += 1;
    }
    assert(all.take(i as int) =~= all);
}

/// The sender of a stored message.
pub open spec fn stored_sender(message: ChatMessage) -> CandidateView {
    CandidateView {
        user_id: message.sender_id@,
        qq_nickname: non_empty_of(message.sender_display_name@),
        group_card: non_empty_option(option_text(message.sender_nickname)),
        last: message.id,
    }
}

/// The positions of the latest messages that are not of the assistant, at most `limit` of them, the
/// latest first, in the first `n` messages.
pub open spec fn latest_of_others(
    history: Seq<ChatMessage>,
    n: int,
    bot_id: Seq<char>,
    limit: nat,
) -> Seq<int>
    decreases n,
{
    if n <= 0 || limit == 0 {
        Seq::empty()
    } else if history[n - 1].sender_id@ == bot_id {
        latest_of_others(history, n - 1, bot_id, limit)
    } else {
        seq![n - 1] + latest_of_others(history, n - 1, bot_id, (limit - 1) as nat)
    }
}

/// The people of stored messages.
pub open spec fn stored_people(history: Seq<ChatMessage>, chosen: Seq<int>, bot_id: Seq<char>) -> Seq<
    CandidateView,
>
    decreases chosen.len(),
{
    if chosen.len() == 0 {
        Seq::empty()
    } else {
        let message = history[chosen.last()];
        with_message(
            stored_people(history, chosen.drop_last(), bot_id),
            stored_sender(message),
            mentions_in(json_parsed(message.content_parts_json@), bot_id),
        )
    }
}

/// The people of the latest messages in a history, those of the latest message first.
pub fn collect_candidates(history: &Vec<ChatMessage>, bot_id: &str) -> (r: Vec<ActiveUserCandidate>)
    ensures
        candidates_view(r@) == stored_people(
            history@,
            latest_of_others(
                history@,
                history@.len() as int,
                bot_id@,
                INITIAL_MEMBER_MESSAGE_SCAN as nat,
            ),
            bot_id@,
        ),
{
    let ghost chosen = latest_of_others(
        history@,
        history@.len() as int,
        bot_id@,
        INITIAL_MEMBER_MESSAGE_SCAN as nat,
    );
    let mut candidates: Vec<ActiveUserCandidate> = Vec::new();
    let mut left: usize = INITIAL_MEMBER_MESSAGE_SCAN;
    let mut i: usize = history.len();
    let ghost mut done: Seq<int> = Seq::empty();
    assert(candidates_view(candidates@) =~= Seq::empty());
    assert(done + chosen =~= chosen);
    while i > 0 && left > 0
        invariant
            i <= history@.len(),
            left <= INITIAL_MEMBER_MESSAGE_SCAN,
            done + latest_of_others(history@, i as int, bot_id@, left as nat) =~= chosen,
            candidates_view(candidates@) == stored_people(history@, done, bot_id@),
        decreases i,
    {
        i -= 1;
        let message = &history[i];
        if !same_text(&message.sender_id, bot_id) {
            let sender = ActiveUserCandidate {
                user_id: message.sender_id.clone(),
                qq_nickname: non_empty(&message.sender_display_name),
                group_card: keep_non_empty(&message.sender_nickname),
                last_relevant_message_id: message.id,
            };
            let mentions = stored_message_mentions(message, bot_id);
            push_message_people(&mut candidates, sender, mentions);
            proof {
                let more = done.push(i as int);
                assert(more.drop_last() =~= done);
                done = more;
            }
            left -= 1;
        }
    }
    assert(done =~= chosen);
    candidates
}

/// The sender of a message that came in.
pub open spec fn incoming_sender(message: IncomingMessage, message_id: i64) -> CandidateView {
    CandidateView {
        user_id: message.sender.id@,
        qq_nickname: non_empty_of(message.sender.display_name@),
        group_card: non_empty_option(option_text(message.sender.nickname)),
        last: message_id,
    }
}

/// The people of the messages that came in from the `from`th of `n` on, those of the last first.
pub open spec fn incoming_people(
    messages: Seq<IncomingMessage>,
    ids: Seq<i64>,
    from: int,
    n: int,
    bot_id: Seq<char>,
) -> Seq<CandidateView>
    decreases n - from,
{
    if from >= n {
        Seq::empty()
    } else {
        let rest = incoming_people(messages, ids, from + 1, n, bot_id);
        if messages[from].sender.id@ == bot_id {
            rest
        } else {
            with_message(
                rest,
                incoming_sender(messages[from], ids[from]),
                content_mentions(messages[from].content.parts@, bot_id),
            )
        }
    }
}

/// The people of messages that came in, those of the last message first.
pub fn collect_current_candidates(
    messages: &Vec<IncomingMessage>,
    message_ids: &Vec<i64>,
    bot_id: &str,
) -> (r: Vec<ActiveUserCandidate>)
    ensures
        candidates_view(r@) == incoming_people(
            messages@,
            message_ids@,
            0,
            if messages@.len() < message_ids@.len() {
                messages@.len() as int
            } else {
                message_ids@.len() as int
            },
            bot_id@,
        ),
{
    let n: usize = if messages.len() < message_ids.len() {
        messages.len()
    } else {
        message_ids.len()
    };
    let mut candidates: Vec<ActiveUserCandidate> = Vec::new();
    let mut i: usize = n;
    assert(candidates_view(candidates@) =~= Seq::empty());
    while i > 0
        invariant
            i <= n <= messages@.len(),
            n <= message_ids@.len(),
            candidates_view(candidates@) == incoming_people(
                messages@,
                message_ids@,
                i as int,
                n as int,
                bot_id@,
            ),
        decreases i,
    {
        i -= 1;
        let message = &messages[i];
        if !same_text(&message.sender.id, bot_id) {
            let sender = ActiveUserCandidate {
                user_id: message.sender.id.clone(),
                qq_nickname: non_empty(&message.sender.display_name),
                group_card: keep_non_empty(&message.sender.nickname),
                last_relevant_message_id: message_ids[i],
            };
            let mentions = message_mentions(message, bot_id);
            push_message_people(&mut candidates, sender, mentions);
        }
    }
    candidates
}

/// Where a person stands among those that a prompt shows.
pub open spec fn user_position(users: Seq<UserView>, user_id: Seq<char>) -> Option<int>
    decreases users.len(),
{
    if users.len() == 0 {
        None
    } else {
        match user_position(users.drop_last(), user_id) {
            Some(i) => Some(i),
            None => if users.last().user_id == user_id {
                Some(users.len() - 1)
            } else {
                None
            },
        }
    }
}

proof fn lemma_user_position(users: Seq<UserView>, user_id: Seq<char>)
    ensures
        match user_position(users, user_id) {
            Some(i) => 0 <= i < users.len() && users[i].user_id == user_id && forall|j: int|
                0 <= j < i ==> (#[trigger] users[j]).user_id != user_id,
            None => forall|j: int|
                0 <= j < users.len() ==> (#[trigger] users[j]).user_id != user_id,
        },
    decreases users.len(),
{
    if users.len() > 0 {
        let front = users.drop_last();
        lemma_user_position(front, user_id);
        assert forall|j: int| 0 <= j < front.len() implies front[j] == #[trigger] users[j] by {}
    }
}

fn find_user(users: &Vec<ActiveMemoryUser>, user_id: &str) -> (r: Option<usize>)
    ensures
        match r {
            Some(i) => i < users@.len() && user_position(users_view(users@), user_id@) == Some(
                i as int,
            ),
            None => user_position(users_view(users@), user_id@) is None,
        },
{
    let ghost all = users_view(users@);
    let mut i: usize = 0;
    while i < users.len()
        invariant
            i <= users@.len(),
            all == users_view(users@),
            forall|j: int| 0 <= j < i ==> (#[trigger] all[j]).user_id != user_id@,
        decreases users@.len() - i,
    {
        if same_text(&users[i].user_id, user_id) {
            proof {
                assert(all[i as int].user_id == user_id@);
                lemma_user_position(all, user_id@);
            }
            return Some(i);
        }
        i += 1;
    }
    proof {
        lemma_user_position(all, user_id@);
    }
    None
}

/// Whether a person is among the first of a list.
pub open spec fn has_priority(candidates: Seq<CandidateView>, user_id: Seq<char>) -> bool {
    exists|i: int|
        0 <= i < candidates.len() && i < MAX_ACTIVE_MEMORY_USERS && (
        #[trigger] candidates[i]).user_id == user_id
}

/// The first of those who are not among the first of a list whose latest message is the oldest, in
/// the first `n` people.
pub open spec fn replaceable(
    users: Seq<UserView>,
    candidates: Seq<CandidateView>,
    n: nat,
) -> Option<int>
    decreases n,
{
    if n == 0 {
        None
    } else {
        let best = replaceable(users, candidates, (n - 1) as nat);
        let one = users[n - 1];
        if has_priority(candidates, one.user_id) {
            best
        } else {
            match best {
                None => Some(n - 1),
                Some(b) => if one.last < users[b].last {
                    Some(n - 1)
                } else {
                    best
                },
            }
        }
    }
}

/// The people that a prompt shows, with one of a list. Somebody who is shown stays where they are;
/// somebody new is shown where there is room, or in place of somebody who is not among the first of
/// the list.
pub open spec fn with_active(
    users: Seq<UserView>,
    candidates: Seq<CandidateView>,
    candidate: CandidateView,
) -> Seq<UserView> {
    match user_position(users, candidate.user_id) {
        Some(i) => users.update(
            i,
            UserView {
                user_id: users[i].user_id,
                qq_nickname: match candidate.qq_nickname {
                    Some(name) => name,
                    None => users[i].qq_nickname,
                },
                group_card: if candidate.qq_nickname is Some {
                    candidate.group_card
                } else {
                    users[i].group_card
                },
                last: later(users[i].last, candidate.last),
            },
        ),
        None => if !has_priority(candidates, candidate.user_id) {
            users
        } else {
            let user = UserView {
                user_id: candidate.user_id,
                qq_nickname: match candidate.qq_nickname {
                    Some(name) => name,
                    None => candidate.user_id,
                },
                group_card: candidate.group_card,
                last: candidate.last,
            };
            if users.len() < MAX_ACTIVE_MEMORY_USERS {
                users.push(user)
            } else {
                match replaceable(users, candidates, users.len()) {
                    Some(i) => users.update(i, user),
                    None => users,
                }
            }
        },
    }
}

/// The people that a prompt shows, with the first `n` of a list.
pub open spec fn with_all_active(
    users: Seq<UserView>,
    candidates: Seq<CandidateView>,
    n: nat,
) -> Seq<UserView>
    decreases n,
{
    if n == 0 {
        users
    } else {
        with_active(
            with_all_active(users, candidates, (n - 1) as nat),
            candidates,
            candidates[n - 1],
        )
    }
}

fn is_priority(candidates: &Vec<ActiveUserCandidate>, user_id: &str) -> (r: bool)
    ensures
        r == has_priority(candidates_view(candidates@), user_id@),
{
    let ghost all = candidates_view(candidates@);
    let mut i: usize = 0;
    while i < candidates.len() && i < MAX_ACTIVE_MEMORY_USERS
        invariant
            i <= candidates@.len(),
            all == candidates_view(candidates@),
            forall|j: int| 0 <= j < i ==> (#[trigger] all[j]).user_id != user_id@,
        decreases candidates@.len() - i,
    {
        if same_text(&candidates[i].user_id, user_id) {
            assert(all[i as int].user_id == user_id@);
            return true;
        }
        i += 1;
    }
    false
}

fn find_replaceable(users: &Vec<ActiveMemoryUser>, candidates: &Vec<ActiveUserCandidate>) -> (r:
    Option<usize>)
    ensures
        match r {
            Some(i) => i < users@.len() && replaceable(
                users_view(users@),
                candidates_view(candidates@),
                users@.len(),
            ) == Some(i as int),
            None => replaceable(
                users_view(users@),
                candidates_view(candidates@),
                users@.len(),
            ) is None,
        },
{
    let ghost all = users_view(users@);
    let ghost listed = candidates_view(candidates@);
    let mut best: Option<usize> = None;
    let mut i: usize = 0;
    while i < users.len()
        invariant
            i <= users@.len(),
            all == users_view(users@),
            listed == candidates_view(candidates@),
            match best {
                Some(b) => b < i && replaceable(all, listed, i as nat) == Some(b as int),
                None => replaceable(all, listed, i as nat) is None,
            },
        decreases users@.len() - i,
    {
        assert(all[i as int] == users@[i as int]@);
        if !is_priority(candidates, &users[i].user_id) {
            let takes = match best {
                None => true,
                Some(b) => users[i].last_relevant_message_id < users[b].last_relevant_message_id,
            };
            if takes {
                best = Some(i);
            }
        }
        i += 1;
    }
    best
}

/// The people of a conversation that a prompt shows.
#[derive(Debug, PartialEq, Eq)]
pub struct UserMemorySession {
    pub active_users: Vec<ActiveMemoryUser>,
}

/// The people whose latest message is still shown.
pub open spec fn still_visible(users: Seq<UserView>, oldest: Option<i64>) -> Seq<UserView>
    decreases users.len(),
{
    if users.len() == 0 {
        Seq::empty()
    } else if oldest matches Some(id) && users.last().last >= id {
        still_visible(users.drop_last(), oldest).push(users.last())
    } else {
        still_visible(users.drop_last(), oldest)
    }
}

impl UserMemorySession {
    /// A conversation with nobody in it.
    pub fn new() -> (r: UserMemorySession)
        ensures
            users_view(r.active_users@) == Seq::<UserView>::empty(),
    {
        let r = UserMemorySession { active_users: Vec::new() };
        assert(users_view(r.active_users@) =~= Seq::empty());
        r
    }

    /// Forgets who is in the conversation.
    pub fn reset(&mut self)
        ensures
            users_view(final(self).active_users@) == Seq::<UserView>::empty(),
    {
        self.active_users = Vec::new();
        assert(users_view(self.active_users@) =~= Seq::empty());
    }

    /// Leaves out the people whose latest message is no longer shown, and tells whether nobody is
    /// left.
    pub fn retain_visible(&mut self, oldest_visible_message_id: Option<i64>) -> (r: bool)
        ensures
            users_view(final(self).active_users@) == still_visible(
                users_view(old(self).active_users@),
                oldest_visible_message_id,
            ),
            r == (users_view(final(self).active_users@).len() == 0),
    {
        let ghost all = users_view(self.active_users@);
        let mut rest: Vec<ActiveMemoryUser> = Vec::new();
        std::mem::swap(&mut rest, &mut self.active_users);
        let mut kept: Vec<ActiveMemoryUser> = Vec::new();
        let ghost users = rest@;
        let ghost mut done: int = 0;
        assert(all.take(0) =~= Seq::empty());
        assert(users_view(kept@) =~= Seq::empty());
        while rest.len() > 0
            invariant
                0 <= done <= users.len(),
                all == users_view(users),
                rest@ =~= users.skip(done),
                users_view(kept@) == still_visible(all.take(done), oldest_visible_message_id),
            decreases rest@.len(),
        {
            let user = rest.remove(0);
            assert(user == users[done]);
            assert(all.take(done + 1).drop_last() =~= all.take(done));
            let visible = match oldest_visible_message_id {
                Some(id) => user.last_relevant_message_id >= id,
                None => false,
            };
            if visible {
                let ghost before = users_view(kept@);
                let ghost added = user@;
                kept.push(user);
                assert(users_view(kept@) =~= before.push(added));
            }
            proof {
                done = done + 1;
            }
        }
        assert(all.take(done) =~= all);
        self.active_users = kept;
        self.active_users.len() == 0
    }

    fn apply_candidate(&mut self, candidates: &Vec<ActiveUserCandidate>, at: usize)
        requires
            at < candidates@.len(),
        ensures
            users_view(final(self).active_users@) == with_active(
                users_view(old(self).active_users@),
                candidates_view(candidates@),
                candidates@[at as int]@,
            ),
    {
        let ghost before = users_view(self.active_users@);
        let candidate = &candidates[at];
        match find_user(&self.active_users, &candidate.user_id) {
            Some(i) => {
                let existing = &self.active_users[i];
                let last: i64 = if existing.last_relevant_message_id
                    < candidate.last_relevant_message_id {
                    candidate.last_relevant_message_id
                } else {
                    existing.last_relevant_message_id
                };
                let (qq_nickname, group_card) = match &candidate.qq_nickname {
                    Some(name) => (name.clone(), candidate.group_card.clone()),
                    None => (existing.qq_nickname.clone(), existing.group_card.clone()),
                };
                let user = ActiveMemoryUser {
                    user_id: existing.user_id.clone(),
                    qq_nickname,
                    group_card,
                    last_relevant_message_id: last,
                };
                let ghost shown = user@;
                self.active_users.set(i, user);
                assert(users_view(self.active_users@) =~= before.update(i as int, shown));
            },
            None => {
                if !is_priority(candidates, &candidate.user_id) {
                    return;
                }
                let user = ActiveMemoryUser {
                    user_id: candidate.user_id.clone(),
                    qq_nickname: match &candidate.qq_nickname {
                        Some(name) => name.clone(),
                        None => candidate.user_id.clone(),
                    },
                    group_card: candidate.group_card.clone(),
                    last_relevant_message_id: candidate.last_relevant_message_id,
                };
                let ghost shown = user@;
                if self.active_users.len() < MAX_ACTIVE_MEMORY_USERS {
                    self.active_users.push(user);
                    assert(users_view(self.active_users@) =~= before.push(shown));
                } else if let Some(i) = find_replaceable(&self.active_users, candidates) {
                    self.active_users.set(i, user);
                    assert(users_view(self.active_users@) =~= before.update(i as int, shown));
                }
            },
        }
    }

    /// Takes in the people of messages.
    pub fn apply_candidates(&mut self, candidates: &Vec<ActiveUserCandidate>)
        ensures
            users_view(final(self).active_users@) == with_all_active(
                users_view(old(self).active_users@),
                candidates_view(candidates@),
                candidates@.len(),
            ),
    {
        let ghost before = users_view(self.active_users@);
        let ghost listed = candidates_view(candidates@);
        let mut i: usize = 0;
        while i < candidates.len()
            invariant
                i <= candidates@.len(),
                listed == candidates_view(candidates@),
                users_view(self.active_users@) == with_all_active(before, listed, i as nat),
            decreases candidates@.len() - i,
        {
            assert(listed[i as int] == candidates@[i as int]@);
            self.apply_candidate(candidates, i);
            i += 1;
        }
    }

    /// Whether a person is shown.
    pub fn is_active(&self, user_id: &str) -> (r: bool)
        ensures
            r == (user_position(users_view(self.active_users@), user_id@) is Some),
    {
        find_user(&self.active_users, user_id).is_some()
    }
}

/// What is known of somebody without a name: they are shown already, or the platform is asked.
#[derive(Debug, Clone, Copy, PartialEq, Eq, Structural)]
pub enum ProfileStep {
    /// Their name is known.
    Known,
    /// The platform is asked.
    Fetch,
}

/// A person of a list, with what is known where their name is missing and they are shown.
pub open spec fn resolved(candidate: CandidateView, users: Seq<UserView>) -> CandidateView {
    if candidate.qq_nickname is Some {
        candidate
    } else {
        match user_position(users, candidate.user_id) {
            Some(i) => CandidateView {
                qq_nickname: Some(users[i].qq_nickname),
                group_card: or_else(candidate.group_card, users[i].group_card),
                ..candidate
            },
            None => candidate,
        }
    }
}

/// Fills in the names of somebody from those that are shown, or tells that the platform is to be
/// asked.
pub fn resolve_profile(candidate: &mut ActiveUserCandidate, session: &UserMemorySession) -> (r:
    ProfileStep)
    ensures
        final(candidate)@ == resolved(old(candidate)@, users_view(session.active_users@)),
        r == (if old(candidate).qq_nickname is None && user_position(
            users_view(session.active_users@),
            old(candidate).user_id@,
        ) is None {
            ProfileStep::Fetch
        } else {
            ProfileStep::Known
        }),
{
    if candidate.qq_nickname.is_some() {
        return ProfileStep::Known;
    }
    match find_user(&session.active_users, &candidate.user_id) {
        Some(i) => {
            let user = &session.active_users[i];
            assert(users_view(session.active_users@)[i as int] == user@);
            candidate.qq_nickname = Some(user.qq_nickname.clone());
            if candidate.group_card.is_none() {
                candidate.group_card = user.group_card.clone();
            }
            ProfileStep::Known
        },
        None => ProfileStep::Fetch,
    }
}

/// Fills in the names that the platform gave.
pub fn apply_profile(candidate: &mut ActiveUserCandidate, profile: &MemberProfile)
    ensures
        final(candidate)@ == (CandidateView {
            qq_nickname: non_empty_of(profile.nickname@),
            group_card: non_empty_option(option_text(profile.group_card)),
            ..old(candidate)@
        }),
{
    candidate.qq_nickname = non_empty(&profile.nickname);
    candidate.group_card = keep_non_empty(&profile.group_card);
}

/// Whether no two people of a list are the same.
pub open spec fn distinct_users(users: Seq<UserView>) -> bool {
    forall|i: int, j: int|
        0 <= i < j < users.len() ==> (#[trigger] users[i]).user_id != (#[trigger] users[j]).user_id
}

proof fn lemma_replaceable(users: Seq<UserView>, candidates: Seq<CandidateView>, n: nat)
    requires
        n <= users.len(),
    ensures
        match replaceable(users, candidates, n) {
            Some(i) => 0 <= i < n && !has_priority(candidates, users[i].user_id),
            None => forall|i: int|
                0 <= i < n ==> has_priority(candidates, (#[trigger] users[i]).user_id),
        },
    decreases n,
{
    if n > 0 {
        lemma_replaceable(users, candidates, (n - 1) as nat);
    }
}

/// Taking people in shows nobody twice, shows no more than may be shown, and leaves everybody
/// shown who is among the first of the list.
pub proof fn law_shown_people(users: Seq<UserView>, candidates: Seq<CandidateView>, n: nat)
    requires
        n <= candidates.len(),
        users.len() <= MAX_ACTIVE_MEMORY_USERS,
        distinct_users(users),
    ensures
        with_all_active(users, candidates, n).len() <= MAX_ACTIVE_MEMORY_USERS,
        distinct_users(with_all_active(users, candidates, n)),
        forall|i: int|
            0 <= i < users.len() && has_priority(candidates, (#[trigger] users[i]).user_id)
                ==> user_position(
                with_all_active(users, candidates, n),
                users[i].user_id,
            ) is Some,
    decreases n,
{
    if n == 0 {
        assert forall|i: int|
            0 <= i < users.len() && has_priority(
                candidates,
                (#[trigger] users[i]).user_id,
            ) implies user_position(users, users[i].user_id) is Some by {
            lemma_user_position(users, users[i].user_id);
        }
    } else {
        law_shown_people(users, candidates, (n - 1) as nat);
        let before = with_all_active(users, candidates, (n - 1) as nat);
        let candidate = candidates[n - 1];
        let after = with_active(before, candidates, candidate);
        lemma_user_position(before, candidate.user_id);
        lemma_replaceable(before, candidates, before.len());
        assert(distinct_users(after)) by {
            assert forall|i: int, j: int| 0 <= i < j < after.len() implies (
            #[trigger] after[i]).user_id != (#[trigger] after[j]).user_id by {
                if i < before.len() {
                    assert(before[i] == before[i]);
                }
                if j < before.len() {
                    assert(before[j] == before[j]);
                }
            }
        }
        assert forall|i: int|
            0 <= i < users.len() && has_priority(
                candidates,
                (#[trigger] users[i]).user_id,
            ) implies user_position(after, users[i].user_id) is Some by {
            let id = users[i].user_id;
            lemma_user_position(before, id);
            lemma_user_position(after, id);
            let k = user_position(before, id).unwrap();
            assert(before[k].user_id == id);
            assert(after[k].user_id == id);
        }
    }
}

/// Why nothing is remembered of a person.
#[derive(Debug, PartialEq, Eq)]
pub enum UserMemoryError {
    EmptyUser,
    NotActive { user_id: String },
    EmptyContent,
    EmptyId,
    NotFound { user_id: String, memory_id: String },
    NoFreeId,
}

/// What an error says.
pub open spec fn user_memory_error_text(error: UserMemoryError) -> Seq<char> {
    match error {
        UserMemoryError::EmptyUser => "用户 QQ 号不能为空"@,
        UserMemoryError::NotActive { user_id } => "QQ "@ + user_id@ + " 不在当前最近活跃用户中"@,
        UserMemoryError::EmptyContent => "记忆内容不能为空"@,
        UserMemoryError::EmptyId => "用户记忆 ID 不能为空"@,
        UserMemoryError::NotFound { user_id, memory_id } => "找不到 QQ "@ + user_id@ + " 的用户记忆 "@
            + memory_id@,
        UserMemoryError::NoFreeId => "生成用户记忆 ID 连续碰撞"@,
    }
}

impl UserMemoryError {
    /// What the error says.
    pub fn message(&self) -> (r: String)
        ensures
            r@ == user_memory_error_text(*self),
    {
        match self {
            UserMemoryError::EmptyUser => "用户 QQ 号不能为空".to_owned(),
            UserMemoryError::NotActive { user_id } => {
                let mut r = "QQ ".to_owned();
                r.push_str(user_id);
                r.push_str(" 不在当前最近活跃用户中");
                r
            },
            UserMemoryError::EmptyContent => "记忆内容不能为空".to_owned(),
            UserMemoryError::EmptyId => "用户记忆 ID 不能为空".to_owned(),
            UserMemoryError::NotFound { user_id, memory_id } => {
                let mut r = "找不到 QQ ".to_owned();
                r.push_str(user_id);
                r.push_str(" 的用户记忆 ");
                r.push_str(memory_id);
                r
            },
            UserMemoryError::NoFreeId => "生成用户记忆 ID 连续碰撞".to_owned(),
        }
    }
}

/// What an error of this kind is about.
pub enum UserMemoryFault {
    EmptyUser,
    NotActive(Seq<char>),
    EmptyContent,
    EmptyId,
}

/// Whether an error is about a fault.
pub open spec fn is_fault(error: UserMemoryError, fault: UserMemoryFault) -> bool {
    match (error, fault) {
        (UserMemoryError::EmptyUser, UserMemoryFault::EmptyUser) => true,
        (UserMemoryError::NotActive { user_id }, UserMemoryFault::NotActive(id)) => user_id@ == id,
        (UserMemoryError::EmptyContent, UserMemoryFault::EmptyContent) => true,
        (UserMemoryError::EmptyId, UserMemoryFault::EmptyId) => true,
        _ => false,
    }
}

/// What is wrong with a person: only somebody who is shown can be remembered.
pub open spec fn user_fault(users: Seq<UserView>, user_id: Seq<char>) -> Option<UserMemoryFault> {
    if user_id.len() == 0 {
        Some(UserMemoryFault::EmptyUser)
    } else if user_position(users, user_id) is None {
        Some(UserMemoryFault::NotActive(user_id))
    } else {
        None
    }
}

/// What is wrong with changing what is remembered of a person.
pub open spec fn change_fault(
    users: Seq<UserView>,
    user_id: Seq<char>,
    memory_id: Option<Seq<char>>,
    content: Option<Seq<char>>,
) -> Option<UserMemoryFault> {
    if user_fault(users, user_id) is Some {
        user_fault(users, user_id)
    } else if memory_id matches Some(id) && id.len() == 0 {
        Some(UserMemoryFault::EmptyId)
    } else if content matches Some(text) && text.len() == 0 {
        Some(UserMemoryFault::EmptyContent)
    } else {
        None
    }
}

/// A change of what is remembered of a person, with its texts trimmed.
#[derive(Debug, PartialEq, Eq)]
pub struct UserMemoryChange {
    pub user_id: String,
    /// The number of what is changed; a new memory has none yet.
    pub memory_id: Option<String>,
    /// The content; what is forgotten has none.
    pub content: Option<String>,
}

fn trim_option(text: Option<&str>) -> (r: Option<String>)
    ensures
        option_text(r) == (match text {
            Some(t) => Some(trim_of(t@)),
            None => None,
        }),
{
    match text {
        Some(t) => Some(trim(t)),
        None => None,
    }
}

impl UserMemorySession {
    /// Checks that a person can be remembered.
    pub fn ensure_active_user(&self, user_id: &str) -> (r: Result<(), UserMemoryError>)
        ensures
            match user_fault(users_view(self.active_users@), user_id@) {
                Some(fault) => r is Err && is_fault(r->Err_0, fault),
                None => r is Ok,
            },
    {
        if user_id.to_owned().is_empty() {
            return Err(UserMemoryError::EmptyUser);
        }
        if !self.is_active(user_id) {
            return Err(UserMemoryError::NotActive { user_id: user_id.to_owned() });
        }
        Ok(())
    }

    /// Plans a change of what is remembered of a person: a new memory has a content and no number,
    /// a changed one both, one that is forgotten a number and no content.
    pub fn plan_change(&self, user_id: &str, memory_id: Option<&str>, content: Option<&str>) -> (r:
        Result<UserMemoryChange, UserMemoryError>)
        ensures
            ({
                let id = match memory_id {
                    Some(t) => Some(trim_of(t@)),
                    None => None,
                };
                let text = match content {
                    Some(t) => Some(trim_of(t@)),
                    None => None,
                };
                match change_fault(
                    users_view(self.active_users@),
                    trim_of(user_id@),
                    id,
                    text,
                ) {
                    Some(fault) => r is Err && is_fault(r->Err_0, fault),
                    None => r is Ok && r->Ok_0.user_id@ == trim_of(user_id@) && option_text(
                        r->Ok_0.memory_id,
                    ) == id && option_text(r->Ok_0.content) == text,
                }
            }),
    {
        let user_id = trim(user_id);
        let memory_id = trim_option(memory_id);
        let content = trim_option(content);
        match self.ensure_active_user(&user_id) {
            Ok(()) => {},
            Err(e) => {
                return Err(e);
            },
        }
        if let Some(id) = &memory_id {
            if id.is_empty() {
                return Err(UserMemoryError::EmptyId);
            }
        }
        if let Some(text) = &content {
            if text.is_empty() {
                return Err(UserMemoryError::EmptyContent);
            }
        }
        Ok(UserMemoryChange { user_id, memory_id, content })
    }
}

/// What is answered once something new is remembered.
pub fn created_reply(memory_id: &str) -> (r: String)
    ensures
        r@ == "用户记忆添加成功，ID："@ + memory_id@,
{
    let mut r = "用户记忆添加成功，ID：".to_owned();
    r.push_str(memory_id);
    r
}

/// What is answered once a memory was to be changed.
pub fn updated_reply(user_id: &str, memory_id: &str, updated: bool) -> (r: Result<
    String,
    UserMemoryError,
>)
    ensures
        updated ==> r is Ok && r->Ok_0@ == "用户记忆 "@ + memory_id@ + " 修改成功"@,
        !updated ==> r is Err && (r->Err_0 matches UserMemoryError::NotFound { user_id: u, memory_id: m }
            && u@ == user_id@ && m@ == memory_id@),
{
    if !updated {
        return Err(
            UserMemoryError::NotFound {
                user_id: user_id.to_owned(),
                memory_id: memory_id.to_owned(),
            },
        );
    }
    let mut r = "用户记忆 ".to_owned();
    r.push_str(memory_id);
    r.push_str(" 修改成功");
    Ok(r)
}

/// What is answered once a memory was to be forgotten.
pub fn deleted_reply(user_id: &str, memory_id: &str, deleted: bool) -> (r: Result<
    String,
    UserMemoryError,
>)
    ensures
        deleted ==> r is Ok && r->Ok_0@ == "用户记忆 "@ + memory_id@ + " 删除成功"@,
        !deleted ==> r is Err && (r->Err_0 matches UserMemoryError::NotFound { user_id: u, memory_id: m }
            && u@ == user_id@ && m@ == memory_id@),
{
    if !deleted {
        return Err(
            UserMemoryError::NotFound {
                user_id: user_id.to_owned(),
                memory_id: memory_id.to_owned(),
            },
        );
    }
    let mut r = "用户记忆 ".to_owned();
    r.push_str(memory_id);
    r.push_str(" 删除成功");
    Ok(r)
}

/// Draws a number for a memory, unless it was tried too often; the caller sees whether it is taken.
pub fn draw_memory_id(attempt: u32) -> (r: Option<String>)
    ensures
        match r {
            Some(id) => attempt < MEMORY_ID_ATTEMPTS && exists|suffix: Seq<char>|
                #![trigger is_random_suffix(suffix, MEMORY_ID_RANDOM_CHARS)]
                is_random_suffix(suffix, MEMORY_ID_RANDOM_CHARS) && id@ == "mem_"@ + suffix,
            None => attempt >= MEMORY_ID_ATTEMPTS,
        },
{
    if attempt >= MEMORY_ID_ATTEMPTS {
        return None;
    }
    let suffix = random_suffix(MEMORY_ID_RANDOM_CHARS);
    let mut id = "mem_".to_owned();
    id.push_str(&suffix);
    assert(is_random_suffix(suffix@, MEMORY_ID_RANDOM_CHARS));
    Some(id)
}

/// The lines for what is remembered of a person.
pub open spec fn memory_lines(memories: Seq<UserMemoryRecord>) -> Seq<char>
    decreases memories.len(),
{
    if memories.len() == 0 {
        Seq::empty()
    } else {
        memory_lines(memories.drop_last()) + "    - ID："@ + memories.last().memory_id@
            + "\n      内容："@ + replace_of(memories.last().content@, "\n"@, "\n        "@) + "\n"@
    }
}

/// A person and what is remembered of them, as a prompt shows it.
pub open spec fn user_block(user: UserView, memories: Seq<UserMemoryRecord>) -> Seq<char> {
    "---\n- 群名片："@ + (match user.group_card {
        Some(card) => card,
        None => "无"@,
    }) + "\n- QQ号："@ + user.user_id + "\n- QQ昵称："@ + user.qq_nickname + "\n- 记忆：\n"@ + (
    if memories.len() == 0 {
        "    没有关于ta的记忆\n"@
    } else {
        memory_lines(memories)
    }) + "---\n"@
}

/// People and what is remembered of them, as a prompt shows it.
pub open spec fn user_blocks(users: Seq<UserView>, memories: Seq<Vec<UserMemoryRecord>>) -> Seq<char>
    decreases users.len(),
{
    if users.len() == 0 {
        Seq::empty()
    } else {
        user_blocks(users.drop_last(), memories) + user_block(
            users.last(),
            memories[users.len() - 1]@,
        )
    }
}

fn push_memory_lines(output: &mut String, memories: &Vec<UserMemoryRecord>)
    ensures
        final(output)@ == old(output)@ + memory_lines(memories@),
{
    let ghost before = output@;
    let mut i: usize = 0;
    assert(memories@.take(0) =~= Seq::empty());
    assert(before + Seq::empty() =~= before);
    while i < memories.len()
        invariant
            i <= memories@.len(),
            output@ == before + memory_lines(memories@.take(i as int)),
        decreases memories@.len() - i,
    {
        let ghost shown = memories@.take(i + 1);
        assert(shown.drop_last() =~= memories@.take(i as int));
        output.push_str("    - ID：");
        output.push_str(&memories[i].memory_id);
        output.push_str("\n      内容：");
        output.push_str(&replace(&memories[i].content, "\n", "\n        "));
        output.push_str("\n");
        assert(output@ =~= before + memory_lines(shown));
        i += 1;
    }
    assert(memories@.take(i as int) =~= memories@);
}

/// What a prompt shows of the people in a conversation; `memories` holds what is remembered of
/// each of them, in their order.
pub fn render_prompt(session: &UserMemorySession, memories: &Vec<Vec<UserMemoryRecord>>) -> (r: String)
    requires
        memories@.len() == session.active_users@.len(),
    ensures
        session.active_users@.len() == 0 ==> r@ == "当前没有最近活跃用户"@,
        session.active_users@.len() > 0 ==> r@ == trim_end_of(
            user_blocks(users_view(session.active_users@), memories@),
        ),
{
    if session.active_users.len() == 0 {
        return "当前没有最近活跃用户".to_owned();
    }
    let ghost all = users_view(session.active_users@);
    let mut output = String::new();
    let mut i: usize = 0;
    assert(all.take(0) =~= Seq::empty());
    assert(output@ =~= Seq::empty());
    while i < session.active_users.len()
        invariant
            i <= session.active_users@.len(),
            memories@.len() == session.active_users@.len(),
            all == users_view(session.active_users@),
            output@ == user_blocks(all.take(i as int), memories@),
        decreases session.active_users@.len() - i,
    {
        let ghost before = output@;
        assert(all.take(i + 1).drop_last() =~= all.take(i as int));
        let user = &session.active_users[i];
        assert(all[i as int] == user@);
        output.push_str("---\n- 群名片：");
        match &user.group_card {
            Some(card) => {
                output.push_str(card);
            },
            None => {
                output.push_str("无");
            },
        }
        output.push_str("\n- QQ号：");
        output.push_str(&user.user_id);
        output.push_str("\n- QQ昵称：");
        output.push_str(&user.qq_nickname);
        output.push_str("\n- 记忆：\n");
        if memories[i].len() == 0 {
            output.push_str("    没有关于ta的记忆\n");
        } else {
            push_memory_lines(&mut output, &memories[i]);
        }
        output.push_str("---\n");
        assert(output@ =~= before + user_block(user@, memories@[i as int]@));
        i += 1;
    }
    assert(all.take(i as int) =~= all);
    trim_end(&output)
}

/// What a prompt says of something that is remembered: its number and its content, whose lines are
/// set in.
pub open spec fn record_text(record: UserMemoryRecord) -> Seq<char> {
    "    - ID："@ + record.memory_id@ + "\n      内容："@ + replace_of(
        record.content@,
        "\n"@,
        "\n        "@,
    ) + "\n"@
}

/// Whether a text is what a prompt says of one person: who they are, and then what is remembered of
/// them, one thing right behind the other, or that there is nothing.
pub open spec fn tells_of(
    block: Seq<char>,
    user: UserView,
    records: Seq<UserMemoryRecord>,
    ends: Seq<int>,
) -> bool {
    let card = match user.group_card {
        Some(given) => given,
        None => "无"@,
    };
    let head = "---\n- 群名片："@ + card + "\n- QQ号："@ + user.user_id + "\n- QQ昵称："@
        + user.qq_nickname + "\n- 记忆：\n"@;
    let inner = block.subrange(head.len() as int, block.len() - "---\n"@.len());
    &&& head.len() + "---\n"@.len() <= block.len()
    &&& occurs_at(block, head, 0)
    &&& occurs_at(block, "---\n"@, block.len() - "---\n"@.len())
    &&& if records.len() == 0 {
        inner == "    没有关于ta的记忆\n"@
    } else {
        made_of(inner, Seq::new(records.len(), |k: int| record_text(records[k])), ends)
    }
}

proof fn lemma_memory_lines(records: Seq<UserMemoryRecord>) -> (ends: Seq<int>)
    ensures
        made_of(
            memory_lines(records),
            Seq::new(records.len(), |k: int| record_text(records[k])),
            ends,
        ),
    decreases records.len(),
{
    let told = Seq::new(records.len(), |k: int| record_text(records[k]));
    if records.len() == 0 {
        assert(told =~= Seq::empty());
        lemma_made_of_none();
        seq![0int]
    } else {
        let front = records.drop_last();
        let before = Seq::new(front.len(), |k: int| record_text(front[k]));
        let ends = lemma_memory_lines(front);
        let text = memory_lines(front);
        let piece = record_text(records.last());
        lemma_made_of_more(text, before, ends, piece);
        assert(told =~= before.push(piece));
        assert(memory_lines(records) =~= text + piece);
        ends.push((text.len() + piece.len()) as int)
    }
}

proof fn lemma_user_block(user: UserView, records: Seq<UserMemoryRecord>) -> (ends: Seq<int>)
    ensures
        tells_of(user_block(user, records), user, records, ends),
{
    let block = user_block(user, records);
    let card = match user.group_card {
        Some(given) => given,
        None => "无"@,
    };
    let head = "---\n- 群名片："@ + card + "\n- QQ号："@ + user.user_id + "\n- QQ昵称："@
        + user.qq_nickname + "\n- 记忆：\n"@;
    let inner = if records.len() == 0 {
        "    没有关于ta的记忆\n"@
    } else {
        memory_lines(records)
    };
    assert(block =~= head + inner + "---\n"@);
    assert(block.subrange(0, head.len() as int) =~= head);
    assert(block.subrange(block.len() - "---\n"@.len(), block.len() as int) =~= "---\n"@);
    assert(block.subrange(head.len() as int, block.len() - "---\n"@.len()) =~= inner);
    lemma_memory_lines(records)
}

/// Whether a text is made of blocks, one for each person in their order, and each block says who the
/// person is and what is remembered of that person and nothing else.
pub open spec fn blocks_tell_of(
    text: Seq<char>,
    users: Seq<UserView>,
    memories: Seq<Vec<UserMemoryRecord>>,
    blocks: Seq<Seq<char>>,
    ends: Seq<int>,
    inner_ends: Seq<Seq<int>>,
) -> bool {
    &&& blocks.len() == users.len()
    &&& inner_ends.len() == users.len()
    &&& made_of(text, blocks, ends)
    &&& forall|i: int|
        0 <= i < users.len() ==> tells_of(
            #[trigger] blocks[i],
            users[i],
            memories[i]@,
            inner_ends[i],
        )
}

/// What a prompt shows of people is one block for each of them, in their order; the block of a person
/// holds exactly what is remembered of that person, with number and content, in order.
pub proof fn law_everybody_has_their_own_memories(
    users: Seq<UserView>,
    memories: Seq<Vec<UserMemoryRecord>>,
)
    requires
        memories.len() >= users.len(),
    ensures
        exists|blocks: Seq<Seq<char>>, ends: Seq<int>, inner_ends: Seq<Seq<int>>| #[trigger]
            blocks_tell_of(
                user_blocks(users, memories),
                users,
                memories,
                blocks,
                ends,
                inner_ends,
            ),
    decreases users.len(),
{
    if users.len() == 0 {
        lemma_made_of_none();
        assert(blocks_tell_of(
            user_blocks(users, memories),
            users,
            memories,
            Seq::empty(),
            seq![0int],
            Seq::empty(),
        ));
    } else {
        let front = users.drop_last();
        let n = users.len() - 1;
        law_everybody_has_their_own_memories(front, memories);
        let text = user_blocks(front, memories);
        let (blocks, ends, inner_ends) = choose|
            blocks: Seq<Seq<char>>,
            ends: Seq<int>,
            inner_ends: Seq<Seq<int>>,
        | #[trigger]
            blocks_tell_of(text, front, memories, blocks, ends, inner_ends);
        let block = user_block(users[n], memories[n]@);
        let last_ends = lemma_user_block(users[n], memories[n]@);
        lemma_made_of_more(text, blocks, ends, block);
        let all = blocks.push(block);
        let all_ends = inner_ends.push(last_ends);
        assert forall|i: int| 0 <= i < users.len() implies tells_of(
            #[trigger] all[i],
            users[i],
            memories[i]@,
            all_ends[i],
        ) by {
            if i < n {
                assert(all[i] == blocks[i]);
                assert(front[i] == users[i]);
            }
        }
        assert(blocks_tell_of(
            user_blocks(users, memories),
            users,
            memories,
            all,
            ends.push((text.len() + block.len()) as int),
            all_ends,
        ));
    }
}

/// What is remembered of others makes no difference to what a prompt shows of a person: the block
/// that a person adds is the same, whatever is remembered of the others.
pub proof fn law_memories_of_others_do_not_matter(
    users: Seq<UserView>,
    memories: Seq<Vec<UserMemoryRecord>>,
    others: Seq<Vec<UserMemoryRecord>>,
    i: int,
)
    requires
        0 <= i < users.len(),
        memories.len() == users.len(),
        others.len() == users.len(),
        memories[i]@ == others[i]@,
    ensures
        exists|block: Seq<char>|
            user_blocks(users.take(i + 1), memories) == #[trigger] (user_blocks(
                users.take(i),
                memories,
            ) + block) && user_blocks(users.take(i + 1), others) == user_blocks(
                users.take(i),
                others,
            ) + block,
{
    assert(users.take(i + 1).drop_last() =~= users.take(i));
    let block = user_block(users[i], memories[i]@);
    assert(user_blocks(users.take(i + 1), memories) == user_blocks(users.take(i), memories)
        + block);
}

} // verus!
