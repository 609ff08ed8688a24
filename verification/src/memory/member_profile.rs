//! Names of members of a group, asked of the platform.

use vstd::prelude::*;

use crate::json::{object2, option_text, Fields, Json, JsonView};
use crate::text::{same_text, trim_end_char, trim_end_char_of};
use crate::transport::{ConversationKind, MessageTarget};

verus! {

/// The names of a member.
#[derive(Debug, PartialEq, Eq)]
pub struct MemberProfile {
    pub nickname: String,
    pub group_card: Option<String>,
}

/// Whether names can be asked for: only in groups of a platform that knows how to answer.
pub fn has_profiles(target: &MessageTarget) -> (r: bool)
    ensures
        r == (target.source@ == "onebot"@ && target.conversation.kind == ConversationKind::Group),
{
    same_text(&target.source, "onebot") && match target.conversation.kind {
        ConversationKind::Group => true,
        ConversationKind::Direct => false,
    }
}

/// Where names are asked for.
pub fn profile_url(onebot_api: &str) -> (r: String)
    ensures
        r@ == trim_end_char_of(onebot_api@, '/') + "/get_group_member_info"@,
{
    let mut r = trim_end_char(onebot_api, '/');
    r.push_str("/get_group_member_info");
    r
}

/// The request for the names of a member.
pub fn profile_request(group_id: &str, user_id: &str) -> (r: Json)
    ensures
        r@ == object2(
            "group_id"@,
            JsonView::Text(group_id@),
            "user_id"@,
            JsonView::Text(user_id@),
        ),
{
    let mut fields = Fields::new();
    fields.put_text("group_id", group_id);
    fields.put_text("user_id", user_id);
    fields.done()
}

/// The names in an answer: one without a fault, with a member that has a name.
pub open spec fn profile_in(v: JsonView) -> Option<(Seq<char>, Option<Seq<char>>)> {
    if v.field("retcode"@) != Some(JsonView::Unsigned(0)) {
        None
    } else {
        match v.field("data"@) {
            Some(data) => match (data.text_field("nickname"@), data.field("card"@)) {
                (Some(nickname), None) => Some((nickname, None)),
                (Some(nickname), Some(JsonView::Null)) => Some((nickname, None)),
                (Some(nickname), Some(JsonView::Text(card))) => Some((nickname, Some(card))),
                _ => None,
            },
            None => None,
        }
    }
}

/// The names in an answer.
pub fn read_profile(v: &Json) -> (r: Option<MemberProfile>)
    ensures
        match r {
            Some(p) => profile_in(v@) == Some((p.nickname@, option_text(p.group_card))),
            None => profile_in(v@) is None,
        },
{
    match v.get("retcode") {
        Some(Json::Unsigned(n)) => {
            if *n != 0 {
                return None;
            }
        },
        _ => {
            return None;
        },
    }
    match v.get("data") {
        Some(data) => match (data.text_at("nickname"), data.get("card")) {
            (Some(nickname), None) => Some(MemberProfile { nickname, group_card: None }),
            (Some(nickname), Some(Json::Null)) => Some(
                MemberProfile { nickname, group_card: None },
            ),
            (Some(nickname), Some(Json::Text(card))) => Some(
                MemberProfile { nickname, group_card: Some(card.clone()) },
            ),
            _ => None,
        },
        None => None,
    }
}

} // verus!
