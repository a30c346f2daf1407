//! The ArduPilot MAVLink dialect: message names, detail texts and field values
//! of payloads, as the `mavlink` crate decodes them.

use mavlink::dialects::ardupilotmega::MavMessage;
use mavlink::Message;

use vstd::prelude::*;
use crate::entry::MavlinkVersion;
use crate::value::{Datum, DatumView, Field, FieldView, JsonValue};
use crate::{numeral, text, value};

verus! {

/// One member of a message in its serialised form.
pub struct Member {
    pub key: String,
    /// The string, where the value is one.
    pub string: Option<String>,
    /// The value as JSON text.
    pub text: String,
    /// The members of the value, where it is an object, with their strings.
    pub members: Vec<(String, Option<String>)>,
    /// The value as an unsigned integer, where it is one.
    pub unsigned: Option<u64>,
    /// The bits of the value as a double, where it is a number.
    pub double: Option<u64>,
}

/// What a member holds.
#[verifier::ext_equal]
pub struct MemberView {
    pub key: Seq<char>,
    pub string: Option<Seq<char>>,
    pub text: Seq<char>,
    pub members: Seq<(Seq<char>, Option<Seq<char>>)>,
    pub unsigned: Option<u64>,
    pub double: Option<u64>,
}

impl View for Member {
    type V = MemberView;

    open spec fn view(&self) -> MemberView {
        MemberView {
            key: self.key@,
            string: value::text_of(self.string),
            text: self.text@,
            members: self.members@.map_values(
                |m: (String, Option<String>)| (m.0@, value::text_of(m.1)),
            ),
            unsigned: self.unsigned,
            double: self.double,
        }
    }
}

/// What the members of a list hold.
pub open spec fn member_views(members: Seq<Member>) -> Seq<MemberView> {
    members.map_values(|m: Member| m@)
}

/// The name that the dialect has for the message with this id, where it can
/// decode the payload.
pub uninterp spec fn message_name(version: MavlinkVersion, msg_id: u32, payload: Seq<u8>) -> Option<
    Seq<char>,
>;

/// The multi-line debug text of the message that the dialect decodes.
pub uninterp spec fn message_detail(
    version: MavlinkVersion,
    msg_id: u32,
    payload: Seq<u8>,
) -> Option<Seq<char>>;

/// The members of the serialised form of the message that the dialect decodes.
pub uninterp spec fn message_members(
    version: MavlinkVersion,
    msg_id: u32,
    payload: Seq<u8>,
) -> Option<Seq<MemberView>>;

/// `MavMessage::parse` on an id and a payload, then `message_name` of what it
/// decoded; `None` where it reports an error. The contract only says that the
/// version, the id and the payload determine the result.
#[verifier::external_body]
fn named(version: MavlinkVersion, msg_id: u32, payload: &[u8]) -> (r: Option<String>)
    ensures
        value::text_of(r) == message_name(version, msg_id, payload@),
{
    let version = match version {
        MavlinkVersion::V1 => mavlink::MavlinkVersion::V1,
        MavlinkVersion::V2 => mavlink::MavlinkVersion::V2,
    };
    MavMessage::parse(version, msg_id, payload).ok().map(|m| m.message_name().to_string())
}

/// `MavMessage::parse` on an id and a payload, then the alternate `Debug` text
/// of what it decoded; `None` where it reports an error. The contract only says
/// that the version, the id and the payload determine the result.
#[verifier::external_body]
fn detailed(version: MavlinkVersion, msg_id: u32, payload: &[u8]) -> (r: Option<String>)
    ensures
        value::text_of(r) == message_detail(version, msg_id, payload@),
{
    let version = match version {
        MavlinkVersion::V1 => mavlink::MavlinkVersion::V1,
        MavlinkVersion::V2 => mavlink::MavlinkVersion::V2,
    };
    MavMessage::parse(version, msg_id, payload).ok().map(|m| format!("{m:#?}"))
}

/// `MavMessage::parse` on an id and a payload, then the members of what
/// `serde_json::to_value` makes of it, in the order of the object; `None` where
/// either reports an error. The contract only says that the version, the id and
/// the payload determine the result.
#[verifier::external_body]
fn serialised(version: MavlinkVersion, msg_id: u32, payload: &[u8]) -> (r: Option<Vec<Member>>)
    ensures
        (match r {
            Some(v) => Some(member_views(v@)),
            None => None,
        }) == message_members(version, msg_id, payload@),
{
    let version = match version {
        MavlinkVersion::V1 => mavlink::MavlinkVersion::V1,
        MavlinkVersion::V2 => mavlink::MavlinkVersion::V2,
    };
    let value = serde_json::to_value(MavMessage::parse(version, msg_id, payload).ok()?).ok()?;
    Some(value.as_object()?.iter().map(|(k, v)| Member {
        key: k.clone(), string: v.as_str().map(String::from), text: v.to_string(),
        members: v.as_object().into_iter().flatten().map(
            |(k, v)| (k.clone(), v.as_str().map(String::from))
        ).collect(),
        unsigned: v.as_u64(), double: v.as_f64().map(|x| x.to_bits()),
    }).collect())
}

/// The list name of a message: the dialect's, or its id when the dialect cannot
/// decode it.
pub open spec fn label(name: Option<Seq<char>>, msg_id: u32) -> Seq<char> {
    match name {
        Some(n) => n,
        None => "UNKNOWN("@ + numeral::decimal(msg_id as nat) + ")"@,
    }
}

/// The list name of a message, from the dialect's name for it.
pub fn label_of(name: Option<String>, msg_id: u32) -> (r: String)
    ensures
        r@ == label(value::text_of(name), msg_id),
{
    match name {
        Some(n) => n,
        None => {
            let mut r = "UNKNOWN(".to_string();
            numeral::push_decimal(&mut r, msg_id as u128);
            r.append(")");
            r
        },
    }
}

/// The list name of the message with this id and payload.
pub fn message_label(version: MavlinkVersion, msg_id: u32, payload: &[u8]) -> (r: String)
    ensures
        r@ == label(message_name(version, msg_id, payload@), msg_id),
{
    label_of(named(version, msg_id, payload), msg_id)
}

/// The debug text of the message with this id and payload.
pub fn detail_text(version: MavlinkVersion, msg_id: u32, payload: &[u8]) -> (r: Option<String>)
    ensures
        value::text_of(r) == message_detail(version, msg_id, payload@),
{
    detailed(version, msg_id, payload)
}

/// The string of the first member with the given key.
pub open spec fn string_under(
    members: Seq<(Seq<char>, Option<Seq<char>>)>,
    key: Seq<char>,
) -> Option<Seq<char>>
    decreases members.len(),
{
    if members.len() == 0 {
        None
    } else if members[0].0 == key {
        members[0].1
    } else {
        string_under(members.drop_first(), key)
    }
}

/// The field that a member of a serialised message stands for.
pub open spec fn field_view(m: MemberView) -> FieldView {
    FieldView {
        key: m.key,
        value: match m.string {
            Some(s) => DatumView::Text(s),
            None => DatumView::Json {
                text: m.text,
                enum_name: string_under(m.members, "type"@),
                unsigned: m.unsigned,
                double: m.double,
            },
        },
    }
}

/// The fields that the members of a serialised message stand for.
pub open spec fn fields(members: Option<Seq<MemberView>>) -> Option<Seq<FieldView>> {
    match members {
        Some(list) => Some(list.map_values(|m: MemberView| field_view(m))),
        None => None,
    }
}

/// The string of the first member with the given key.
fn find_string(members: &[(String, Option<String>)], key: &str) -> (r: Option<String>)
    ensures
        value::text_of(r) == string_under(
            members@.map_values(|m: (String, Option<String>)| (m.0@, value::text_of(m.1))),
            key@,
        ),
{
    let ghost all = members@.map_values(
        |m: (String, Option<String>)| (m.0@, value::text_of(m.1)),
    );
    let mut i: usize = 0;
    assert(all.skip(0) =~= all);
    while i < members.len()
        invariant
            i <= members.len(),
            all == members@.map_values(
                |m: (String, Option<String>)| (m.0@, value::text_of(m.1)),
            ),
            string_under(all, key@) == string_under(all.skip(i as int), key@),
        decreases members.len() - i,
    {
        assert(all.skip(i as int)[0] == (members@[i as int].0@, value::text_of(
            members@[i as int].1,
        )));
        if text::same_str(members[i].0.as_str(), key) {
            return match &members[i].1 {
                Some(s) => Some(s.clone()),
                None => None,
            };
        }
        assert(all.skip(i as int).drop_first() =~= all.skip(i + 1));
        i += 1;
    }
    None
}

/// The field that a member of a serialised message stands for.
pub fn field_of(m: &Member) -> (r: Field)
    ensures
        r@ == field_view(m@),
{
    let value = match &m.string {
        Some(s) => Datum::Text(s.clone()),
        None => Datum::Json(
            JsonValue {
                text: m.text.clone(),
                enum_name: find_string(&m.members, "type"),
                unsigned: m.unsigned,
                double: m.double,
            },
        ),
    };
    Field { key: m.key.clone(), value }
}

/// The fields that the members of a serialised message stand for.
pub fn fields_of(members: &[Member]) -> (r: Vec<Field>)
    ensures
        Some(value::field_views(r@)) == fields(Some(member_views(members@))),
{
    let mut r: Vec<Field> = Vec::new();
    let ghost all = fields(Some(member_views(members@)))->Some_0;
    let mut i: usize = 0;
    while i < members.len()
        invariant
            i <= members.len(),
            all == member_views(members@).map_values(|m: MemberView| field_view(m)),
            value::field_views(r@) =~= all.take(i as int),
        decreases members.len() - i,
    {
        let f = field_of(&members[i]);
        let ghost before = r@;
        assert(member_views(members@)[i as int] == members@[i as int]@);
        assert(all[i as int] == f@);
        r.push(f);
        i += 1;
        assert(value::field_views(r@) =~= value::field_views(before).push(f@));
        assert(all.take(i as int) =~= all.take(i - 1).push(all[i - 1]));
    }
    assert(all.take(i as int) =~= all);
    r
}

/// The fields of the message with this id and payload, where the dialect can
/// decode it.
pub fn decoded(version: MavlinkVersion, msg_id: u32, payload: &[u8]) -> (r: Option<Vec<Field>>)
    ensures
        (match r {
            Some(v) => Some(value::field_views(v@)),
            None => None,
        }) == fields(message_members(version, msg_id, payload@)),
{
    match serialised(version, msg_id, payload) {
        Some(members) => Some(fields_of(&members)),
        None => None,
    }
}

/// A message is listed by the name that the dialect has for it, else by its id.
pub proof fn law_label(name: Seq<char>, msg_id: u32)
    ensures
        label(Some(name), msg_id) == name,
        label(None, msg_id) == seq!['U', 'N', 'K', 'N', 'O', 'W', 'N', '('] + numeral::decimal(
            msg_id as nat,
        ) + seq![')'],
{
    reveal_strlit("UNKNOWN(");
    reveal_strlit(")");
    assert("UNKNOWN("@ =~= seq!['U', 'N', 'K', 'N', 'O', 'W', 'N', '(']);
    assert(")"@ =~= seq![')']);
}

/// The fields of a message are its members, in order, each under its own key: a string
/// as text, any other value by its notation and its numbers, with the string under the
/// member `type` of an object as its name.
pub proof fn law_fields(members: Seq<MemberView>, i: int)
    ensures
        fields(None) is None,
        fields(Some(members)) matches Some(list) && {
            &&& list.len() == members.len()
            &&& 0 <= i < members.len() ==> {
                &&& list[i].key == members[i].key
                &&& members[i].string matches Some(s) ==> list[i].value == DatumView::Text(s)
                &&& members[i].string is None ==> list[i].value == (DatumView::Json {
                    text: members[i].text,
                    enum_name: string_under(members[i].members, seq!['t', 'y', 'p', 'e']),
                    unsigned: members[i].unsigned,
                    double: members[i].double,
                })
            }
        },
{
    reveal_strlit("type");
    assert("type"@ =~= seq!['t', 'y', 'p', 'e']);
}

/// The string under a key is that of the first member with the key, if it has one.
pub proof fn law_string_under(
    members: Seq<(Seq<char>, Option<Seq<char>>)>,
    i: int,
    key: Seq<char>,
)
    ensures
        0 <= i < members.len() && members[i].0 == key && (forall|k: int|
            0 <= k < i ==> (#[trigger] members[k]).0 != key) ==> string_under(members, key)
            == members[i].1,
        (forall|k: int| 0 <= k < members.len() ==> (#[trigger] members[k]).0 != key)
            ==> string_under(members, key) is None,
    decreases members.len(),
{
    if members.len() > 0 {
        let rest = members.drop_first();
        law_string_under(rest, i - 1, key);
        if members[0].0 != key {
            if 0 <= i < members.len() && members[i].0 == key && (forall|k: int|
                0 <= k < i ==> (#[trigger] members[k]).0 != key) {
                assert forall|k: int| 0 <= k < i - 1 implies (#[trigger] rest[k]).0 != key by {
                    assert(rest[k] == members[k + 1]);
                }
                assert(rest[i - 1] == members[i]);
            }
            if forall|k: int| 0 <= k < members.len() ==> (#[trigger] members[k]).0 != key {
                assert forall|k: int| 0 <= k < rest.len() implies (#[trigger] rest[k]).0 != key by {
                    assert(rest[k] == members[k + 1]);
                }
            }
        } else if i > 0 {
            assert(members[0].0 == key);
        }
    }
}

} // verus!
