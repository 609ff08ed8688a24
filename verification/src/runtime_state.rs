//! What is known of the platform while the program runs.

use vstd::prelude::*;

use crate::json::option_text;
use crate::text::{blank, is_blank, same_text, signed_decimal, signed_decimal_of};

verus! {

/// A group as the platform describes it.
#[derive(Debug, PartialEq, Eq)]
pub struct RuntimeGroupInfo {
    pub group_id: String,
    pub name: String,
    pub member_count: u64,
    pub max_member_count: Option<u64>,
}

impl Clone for RuntimeGroupInfo {
    fn clone(&self) -> (r: RuntimeGroupInfo)
        ensures
            r == *self,
    {
        RuntimeGroupInfo {
            group_id: self.group_id.clone(),
            name: self.name.clone(),
            member_count: self.member_count,
            max_member_count: self.max_member_count,
        }
    }
}

/// A member of a group as the platform describes them.
#[derive(Debug, PartialEq, Eq)]
pub struct RuntimeGroupMember {
    pub user_id: String,
    pub nickname: String,
    pub card: String,
    pub role: String,
}

impl Clone for RuntimeGroupMember {
    fn clone(&self) -> (r: RuntimeGroupMember)
        ensures
            r == *self,
    {
        RuntimeGroupMember {
            user_id: self.user_id.clone(),
            nickname: self.nickname.clone(),
            card: self.card.clone(),
            role: self.role.clone(),
        }
    }
}

/// The members of a group, and when they were fetched, in milliseconds on a clock that never goes
/// back.
#[derive(Debug, PartialEq, Eq)]
pub struct CachedGroupMembers {
    pub members: Vec<RuntimeGroupMember>,
    pub fetched_at: u64,
}

impl CachedGroupMembers {
    /// Whether less than `ttl` milliseconds have passed since the members were fetched.
    pub fn is_fresh(&self, now: u64, ttl: u64) -> (r: bool)
        ensures
            r == (if now < self.fetched_at {
                0 < ttl
            } else {
                now - self.fetched_at < ttl
            }),
    {
        if now < self.fetched_at {
            0 < ttl
        } else {
            now - self.fetched_at < ttl
        }
    }
}

/// What is known of the platform.
#[derive(Debug, PartialEq, Eq)]
pub struct RuntimeState {
    bot_id: Option<String>,
    bot_name: Option<String>,
    groups: Vec<RuntimeGroupInfo>,
    last_event_at: Option<i64>,
    onebot_online: Option<bool>,
    cached_members: Vec<(String, CachedGroupMembers)>,
}

/// What is known of the platform.
pub struct RuntimeView {
    pub bot_id: Option<Seq<char>>,
    pub bot_name: Option<Seq<char>>,
    pub groups: Seq<RuntimeGroupInfo>,
    pub last_event_at: Option<i64>,
    pub onebot_online: Option<bool>,
    pub cached_members: Seq<(String, CachedGroupMembers)>,
}

/// Where the members of a group stand among the first `n`.
pub open spec fn members_position(
    cached: Seq<(String, CachedGroupMembers)>,
    id: Seq<char>,
    n: nat,
) -> Option<int>
    decreases n,
{
    if n == 0 {
        None
    } else if cached[n - 1].0@ == id {
        Some(n - 1)
    } else {
        members_position(cached, id, (n - 1) as nat)
    }
}

/// The members of a group that were fetched last.
pub open spec fn members_in(cached: Seq<(String, CachedGroupMembers)>, id: Seq<char>) -> Option<
    CachedGroupMembers,
> {
    match members_position(cached, id, cached.len()) {
        Some(i) => Some(cached[i].1),
        None => None,
    }
}

/// Whether a list differs from another in the members of one group alone.
pub open spec fn members_replaced(
    before: Seq<(String, CachedGroupMembers)>,
    after: Seq<(String, CachedGroupMembers)>,
    id: Seq<char>,
    members: CachedGroupMembers,
) -> bool {
    &&& members_in(after, id) == Some(members)
    &&& forall|other: Seq<char>|
        other != id ==> #[trigger] members_in(after, other) == members_in(before, other)
}

proof fn lemma_members_position(cached: Seq<(String, CachedGroupMembers)>, id: Seq<char>, n: nat)
    requires
        n <= cached.len(),
    ensures
        match members_position(cached, id, n) {
            Some(i) => 0 <= i < n && cached[i].0@ == id && forall|j: int|
                i < j < n ==> (#[trigger] cached[j]).0@ != id,
            None => forall|j: int| 0 <= j < n ==> (#[trigger] cached[j]).0@ != id,
        },
    decreases n,
{
    if n > 0 {
        lemma_members_position(cached, id, (n - 1) as nat);
    }
}

proof fn lemma_members_updated(
    before: Seq<(String, CachedGroupMembers)>,
    after: Seq<(String, CachedGroupMembers)>,
    i: int,
    n: nat,
    other: Seq<char>,
)
    requires
        n <= before.len(),
        n <= after.len(),
        forall|j: int| 0 <= j < n ==> (#[trigger] after[j]).0@ == before[j].0@,
        forall|j: int| 0 <= j < n && j != i ==> #[trigger] after[j] == before[j],
    ensures
        members_position(after, other, n) == members_position(before, other, n),
    decreases n,
{
    if n > 0 {
        assert(after[n - 1].0@ == before[n - 1].0@);
        lemma_members_updated(before, after, i, (n - 1) as nat, other);
    }
}

fn find_members(cached: &Vec<(String, CachedGroupMembers)>, id: &str) -> (r: Option<usize>)
    ensures
        match r {
            Some(i) => i < cached@.len() && members_position(cached@, id@, cached@.len()) == Some(
                i as int,
            ),
            None => members_position(cached@, id@, cached@.len()) is None,
        },
{
    let mut i: usize = cached.len();
    while i > 0
        invariant
            i <= cached@.len(),
            members_position(cached@, id@, cached@.len()) == members_position(
                cached@,
                id@,
                i as nat,
            ),
        decreases i,
    {
        if same_text(&cached[i - 1].0, id) {
            return Some(i - 1);
        }
        i -= 1;
    }
    None
}

fn copy_members(members: &Vec<RuntimeGroupMember>) -> (r: Vec<RuntimeGroupMember>)
    ensures
        r@ == members@,
{
    let mut r: Vec<RuntimeGroupMember> = Vec::new();
    let mut i: usize = 0;
    while i < members.len()
        invariant
            i <= members@.len(),
            r@ == members@.take(i as int),
        decreases members@.len() - i,
    {
        r.push(members[i].clone());
        assert(members@.take(i + 1) =~= members@.take(i as int).push(members@[i as int]));
        i += 1;
    }
    assert(members@.take(i as int) =~= members@);
    r
}

/// Where a group stands in a list.
pub open spec fn group_position(groups: Seq<RuntimeGroupInfo>, id: Seq<char>) -> Option<int>
    decreases groups.len(),
{
    if groups.len() == 0 {
        None
    } else {
        match group_position(groups.drop_last(), id) {
            Some(i) => Some(i),
            None => if groups.last().group_id@ == id {
                Some(groups.len() - 1)
            } else {
                None
            },
        }
    }
}

/// A list with a group in place of the one with its number, or behind the others.
pub open spec fn with_group(groups: Seq<RuntimeGroupInfo>, group: RuntimeGroupInfo) -> Seq<
    RuntimeGroupInfo,
> {
    match group_position(groups, group.group_id@) {
        Some(i) => groups.update(i, group),
        None => groups.push(group),
    }
}

/// The group with a number.
pub open spec fn group_in(groups: Seq<RuntimeGroupInfo>, id: Seq<char>) -> Option<
    RuntimeGroupInfo,
> {
    match group_position(groups, id) {
        Some(i) => Some(groups[i]),
        None => None,
    }
}

proof fn lemma_group_position(groups: Seq<RuntimeGroupInfo>, id: Seq<char>)
    ensures
        match group_position(groups, id) {
            Some(i) => 0 <= i < groups.len() && groups[i].group_id@ == id && forall|j: int|
                0 <= j < i ==> (#[trigger] groups[j]).group_id@ != id,
            None => forall|j: int| 0 <= j < groups.len() ==> (#[trigger] groups[j]).group_id@ != id,
        },
    decreases groups.len(),
{
    if groups.len() > 0 {
        let front = groups.drop_last();
        lemma_group_position(front, id);
        assert forall|j: int| 0 <= j < front.len() implies front[j] == #[trigger] groups[j] by {}
    }
}

proof fn lemma_group_position_is(groups: Seq<RuntimeGroupInfo>, id: Seq<char>, i: int)
    requires
        0 <= i < groups.len(),
        groups[i].group_id@ == id,
        forall|j: int| 0 <= j < i ==> (#[trigger] groups[j]).group_id@ != id,
    ensures
        group_position(groups, id) == Some(i),
{
    lemma_group_position(groups, id);
}

fn find_group(groups: &Vec<RuntimeGroupInfo>, id: &str) -> (r: Option<usize>)
    ensures
        match r {
            Some(i) => group_position(groups@, id@) == Some(i as int) && i < groups@.len(),
            None => group_position(groups@, id@) is None,
        },
{
    let mut i: usize = 0;
    while i < groups.len()
        invariant
            i <= groups@.len(),
            forall|j: int| 0 <= j < i ==> (#[trigger] groups@[j]).group_id@ != id@,
        decreases groups@.len() - i,
    {
        if same_text(&groups[i].group_id, id) {
            proof {
                lemma_group_position_is(groups@, id@, i as int);
            }
            return Some(i);
        }
        i += 1;
    }
    proof {
        lemma_group_position(groups@, id@);
    }
    None
}

impl View for RuntimeState {
    type V = RuntimeView;

    closed spec fn view(&self) -> RuntimeView {
        RuntimeView {
            bot_id: option_text(self.bot_id),
            bot_name: option_text(self.bot_name),
            groups: self.groups@,
            last_event_at: self.last_event_at,
            onebot_online: self.onebot_online,
            cached_members: self.cached_members@,
        }
    }
}

impl Default for RuntimeState {
    fn default() -> (r: RuntimeState)
        ensures
            r@ == (RuntimeView {
                bot_id: None,
                bot_name: None,
                groups: Seq::empty(),
                last_event_at: None,
                onebot_online: None,
                cached_members: Seq::empty(),
            }),
    {
        RuntimeState {
            bot_id: None,
            bot_name: None,
            groups: Vec::new(),
            last_event_at: None,
            onebot_online: None,
            cached_members: Vec::new(),
        }
    }
}

impl RuntimeState {
    /// Sets the account of the assistant.
    pub fn set_bot_id(&mut self, bot_id: String)
        ensures
            final(self)@ == (RuntimeView { bot_id: Some(bot_id@), ..old(self)@ }),
    {
        self.bot_id = Some(bot_id);
    }

    /// The account of the assistant.
    pub fn bot_id(&self) -> (r: Option<String>)
        ensures
            option_text(r) == self@.bot_id,
    {
        self.bot_id.clone()
    }

    /// Sets the name of the assistant; a blank one means that it has none.
    pub fn set_bot_name(&mut self, bot_name: String)
        ensures
            final(self)@ == (RuntimeView {
                bot_name: if is_blank(bot_name@) {
                    None
                } else {
                    Some(bot_name@)
                },
                ..old(self)@
            }),
    {
        if blank(&bot_name) {
            self.bot_name = None;
        } else {
            self.bot_name = Some(bot_name);
        }
    }

    /// The name of the assistant.
    pub fn bot_name(&self) -> (r: Option<String>)
        ensures
            option_text(r) == self@.bot_name,
    {
        self.bot_name.clone()
    }

    /// Remembers when something last came in, and for which account.
    pub fn record_event(&mut self, timestamp: i64, bot_id: i64)
        ensures
            final(self)@ == (RuntimeView {
                bot_id: Some(signed_decimal_of(bot_id as int)),
                last_event_at: Some(timestamp),
                ..old(self)@
            }),
    {
        self.bot_id = Some(signed_decimal(bot_id));
        self.last_event_at = Some(timestamp);
    }

    /// When something last came in.
    pub fn last_event_at(&self) -> (r: Option<i64>)
        ensures
            r == self@.last_event_at,
    {
        self.last_event_at
    }

    /// Remembers whether the platform answers.
    pub fn set_onebot_online(&mut self, online: bool)
        ensures
            final(self)@ == (RuntimeView { onebot_online: Some(online), ..old(self)@ }),
    {
        self.onebot_online = Some(online);
    }

    /// Whether the platform answers.
    pub fn onebot_online(&self) -> (r: Option<bool>)
        ensures
            r == self@.onebot_online,
    {
        self.onebot_online
    }

    /// Remembers a group in place of what was known of it.
    pub fn update_group(&mut self, group: RuntimeGroupInfo)
        ensures
            final(self)@ == (RuntimeView {
                groups: with_group(old(self)@.groups, group),
                ..old(self)@
            }),
    {
        match find_group(&self.groups, &group.group_id) {
            Some(i) => {
                self.groups.set(i, group);
            },
            None => {
                self.groups.push(group);
            },
        }
    }

    /// A group by its number.
    pub fn group(&self, group_id: &str) -> (r: Option<RuntimeGroupInfo>)
        ensures
            r == group_in(self@.groups, group_id@),
    {
        match find_group(&self.groups, group_id) {
            Some(i) => Some(self.groups[i].clone()),
            None => None,
        }
    }

    /// All groups.
    pub fn groups(&self) -> (r: &Vec<RuntimeGroupInfo>)
        ensures
            r@ == self@.groups,
    {
        &self.groups
    }

    /// The members of a group as they were last fetched.
    pub fn cached_group_members(&self, group_id: &str) -> (r: Option<CachedGroupMembers>)
        ensures
            match r {
                Some(c) => match members_in(self@.cached_members, group_id@) {
                    Some(known) => c.members@ == known.members@ && c.fetched_at == known.fetched_at,
                    None => false,
                },
                None => members_in(self@.cached_members, group_id@) is None,
            },
    {
        match find_members(&self.cached_members, group_id) {
            Some(i) => {
                let known = &self.cached_members[i].1;
                Some(
                    CachedGroupMembers {
                        members: copy_members(&known.members),
                        fetched_at: known.fetched_at,
                    },
                )
            },
            None => None,
        }
    }

    /// Remembers the members of a group that were just fetched.
    pub fn cache_group_members(
        &mut self,
        group_id: &str,
        members: Vec<RuntimeGroupMember>,
        now: u64,
    )
        ensures
            members_replaced(
                old(self)@.cached_members,
                final(self)@.cached_members,
                group_id@,
                (CachedGroupMembers { members, fetched_at: now }),
            ),
            final(self)@ == (RuntimeView {
                cached_members: final(self)@.cached_members,
                ..old(self)@
            }),
    {
        let ghost before = self.cached_members@;
        let entry = (group_id.to_owned(), CachedGroupMembers { members, fetched_at: now });
        proof {
            lemma_members_position(before, group_id@, before.len());
        }
        match find_members(&self.cached_members, group_id) {
            Some(i) => {
                self.cached_members.set(i, entry);
                proof {
                    let after = self.cached_members@;
                    assert forall|other: Seq<char>| other != group_id@ implies #[trigger] members_in(
                        after,
                        other,
                    ) == members_in(before, other) by {
                        lemma_members_updated(before, after, i as int, before.len(), other);
                        lemma_members_position(before, other, before.len());
                    }
                    lemma_members_updated(before, after, i as int, before.len(), group_id@);
                }
            },
            None => {
                self.cached_members.push(entry);
                proof {
                    let after = self.cached_members@;
                    assert forall|other: Seq<char>| other != group_id@ implies #[trigger] members_in(
                        after,
                        other,
                    ) == members_in(before, other) by {
                        assert(members_position(after, other, after.len()) == members_position(
                            after,
                            other,
                            before.len(),
                        ));
                        lemma_members_updated(before, after, -1, before.len(), other);
                        lemma_members_position(before, other, before.len());
                    }
                }
            },
        }
    }
}

/// A group that was remembered is found under its number, and remembering it changes no other.
pub proof fn law_remembered_groups_are_found(
    groups: Seq<RuntimeGroupInfo>,
    group: RuntimeGroupInfo,
    other: Seq<char>,
)
    ensures
        group_in(with_group(groups, group), group.group_id@) == Some(group),
        other != group.group_id@ ==> group_in(with_group(groups, group), other) == group_in(
            groups,
            other,
        ),
{
    let after = with_group(groups, group);
    let id = group.group_id@;
    lemma_group_position(groups, id);
    lemma_group_position(groups, other);
    lemma_group_position(after, id);
    lemma_group_position(after, other);
    match group_position(groups, id) {
        Some(i) => {
            assert forall|j: int| 0 <= j < i implies (#[trigger] after[j]).group_id@ != id by {
                assert(after[j] == groups[j]);
            }
            lemma_group_position_is(after, id, i);
            if other != id {
                if let Some(k) = group_position(groups, other) {
                    assert forall|j: int| 0 <= j < k implies (#[trigger] after[j]).group_id@
                        != other by {
                        if j != i {
                            assert(after[j] == groups[j]);
                        }
                    }
                    assert(after[k] == groups[k]);
                    lemma_group_position_is(after, other, k);
                } else {
                    assert forall|j: int| 0 <= j < after.len() implies (#[trigger] after[j]).group_id@
                        != other by {
                        if j != i {
                            assert(after[j] == groups[j]);
                        }
                    }
                }
            }
        },
        None => {
            let n = groups.len() as int;
            assert forall|j: int| 0 <= j < n implies (#[trigger] after[j]).group_id@ != id by {
                assert(after[j] == groups[j]);
            }
            lemma_group_position_is(after, id, n);
            if other != id {
                if let Some(k) = group_position(groups, other) {
                    assert forall|j: int| 0 <= j < k implies (#[trigger] after[j]).group_id@
                        != other by {
                        assert(after[j] == groups[j]);
                    }
                    assert(after[k] == groups[k]);
                    lemma_group_position_is(after, other, k);
                } else {
                    assert forall|j: int| 0 <= j < after.len() implies (#[trigger] after[j]).group_id@
                        != other by {
                        if j < n {
                            assert(after[j] == groups[j]);
                        }
                    }
                }
            }
        },
    }
}

} // verus!
