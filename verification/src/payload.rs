//! The request bodies: the text of a state-change notification and of a
//! verification request.

use vstd::prelude::*;
use vstd::string::*;
use crate::state_change::TypeState;

verus! {

/// The JSON string literal that `serde_json` writes for a text: the text in
/// double quotes, with what JSON does not allow inside them escaped.
pub uninterp spec fn json_quoted(text: Seq<char>) -> Seq<char>;

/// Calls `serde_json::to_string` on a string slice, which writes it as a JSON
/// string literal. The result depends on the text alone.
#[verifier::external_body]
fn json_string(text: &str) -> (quoted: String)
    ensures
        quoted@ == json_quoted(text@),
{
    match serde_json::to_string(text) {
        Ok(quoted) => quoted,
        Err(_) => String::new(),
    }
}

/// The name under which a type is reported.
pub open spec fn name_of_type(type_state: TypeState) -> Seq<char> {
    match type_state {
        TypeState::Email => "Email"@,
        TypeState::EmailDelivery => "EmailDelivery"@,
        TypeState::EmailSubmission => "EmailSubmission"@,
        TypeState::Mailbox => "Mailbox"@,
        TypeState::Thread => "Thread"@,
        TypeState::Identity => "Identity"@,
    }
}

impl TypeState {
    /// The name under which the type is reported.
    pub fn name(&self) -> (name: &'static str)
        ensures
            name@ == name_of_type(*self),
    {
        match self {
            TypeState::Email => "Email",
            TypeState::EmailDelivery => "EmailDelivery",
            TypeState::EmailSubmission => "EmailSubmission",
            TypeState::Mailbox => "Mailbox",
            TypeState::Thread => "Thread",
            TypeState::Identity => "Identity",
        }
    }
}

/// The changes of one account with its ids written out as the subscriber
/// reads them.
#[derive(Debug)]
pub struct RenderedAccount {
    /// The account's id as text.
    pub account: String,
    /// For each type, the change id as text.
    pub types: Vec<(TypeState, String)>,
}

/// A [`RenderedAccount`] as a mathematical value.
pub struct RenderedAccountView {
    pub account: Seq<char>,
    pub types: Seq<(TypeState, Seq<char>)>,
}

impl View for RenderedAccount {
    type V = RenderedAccountView;

    open spec fn view(&self) -> RenderedAccountView {
        RenderedAccountView {
            account: self.account@,
            types: self.types@.map_values(|e: (TypeState, String)| (e.0, e.1@)),
        }
    }
}

/// The views of a sequence of rendered accounts, in the same order.
pub open spec fn rendered_view(changed: Seq<RenderedAccount>) -> Seq<RenderedAccountView> {
    changed.map_values(|a: RenderedAccount| a@)
}

/// The views of the members of a JSON object: each a name and a value, both as
/// they are to be written.
pub open spec fn members_view(members: Seq<(String, String)>) -> Seq<(Seq<char>, Seq<char>)> {
    members.map_values(|m: (String, String)| (m.0@, m.1@))
}

/// The members of a JSON object, each as name, colon and value, separated by
/// commas.
pub open spec fn members_text(members: Seq<(Seq<char>, Seq<char>)>) -> Seq<char>
    decreases members.len(),
{
    if members.len() == 0 {
        Seq::empty()
    } else if members.len() == 1 {
        members.last().0 + ":"@ + members.last().1
    } else {
        members_text(members.drop_last()) + ","@ + members.last().0 + ":"@ + members.last().1
    }
}

/// A JSON object with the given members: names and values are written as they
/// stand, in braces.
pub open spec fn object_text(members: Seq<(Seq<char>, Seq<char>)>) -> Seq<char> {
    "{"@ + members_text(members) + "}"@
}

/// The object of an account's types: each type's name and its change id, both
/// as JSON strings.
pub open spec fn types_object(types: Seq<(TypeState, Seq<char>)>) -> Seq<char> {
    object_text(
        types.map_values(
            |e: (TypeState, Seq<char>)| (json_quoted(name_of_type(e.0)), json_quoted(e.1)),
        ),
    )
}

/// The object of changes: each account's id as a JSON string and the object of
/// its types.
pub open spec fn changed_object(changed: Seq<RenderedAccountView>) -> Seq<char> {
    object_text(
        changed.map_values(
            |a: RenderedAccountView| (json_quoted(a.account), types_object(a.types)),
        ),
    )
}

/// The body of a state-change notification: a JSON object whose member
/// `changed` maps each account to the change ids of its types.
pub open spec fn state_change_text(changed: Seq<RenderedAccountView>) -> Seq<char> {
    "{\"changed\":"@ + changed_object(changed) + "}"@
}

/// The body of a verification request for subscription `id` with the code
/// `code`, both taken as they are.
pub open spec fn verification_text(id: Seq<char>, code: Seq<char>) -> Seq<char> {
    "{\"@type\":\"PushVerification\",\"pushSubscriptionId\":\""@ + id
        + "\",\"verificationCode\":\""@ + code + "\"}"@
}

/// Writes the body of a verification request.
pub fn verification_payload(id: &str, code: &str) -> (body: String)
    ensures
        body@ == verification_text(id@, code@),
{
    let mut body = String::from_str("{\"@type\":\"PushVerification\",\"pushSubscriptionId\":\"");
    body.append(id);
    body.append("\",\"verificationCode\":\"");
    body.append(code);
    body.append("\"}");
    body
}

/// Writes a JSON object from members whose names and values are already in
/// the form in which they are to stand.
pub fn json_object(members: &Vec<(String, String)>) -> (text: String)
    ensures
        text@ == object_text(members_view(members@)),
{
    let ghost all = members_view(members@);
    let mut text = String::from_str("{");
    let ghost start = text@;
    let mut i: usize = 0;
    proof {
        assert(all.take(0) =~= Seq::<(Seq<char>, Seq<char>)>::empty());
        assert(start + members_text(all.take(0)) =~= start);
    }
    while i < members.len()
        invariant
            i <= members.len(),
            all == members_view(members@),
            start == "{"@,
            text@ == start + members_text(all.take(i as int)),
        decreases members.len() - i,
    {
        proof {
            assert(all.take(i + 1).drop_last() =~= all.take(i as int));
            assert(all.take(i + 1).last() == (members@[i as int].0@, members@[i as int].1@));
        }
        if i > 0 {
            text.append(",");
        }
        text.append(members[i].0.as_str());
        text.append(":");
        text.append(members[i].1.as_str());
        proof {
            let name = members@[i as int].0@;
            let value = members@[i as int].1@;
            if i > 0 {
                assert(text@ =~= start + (members_text(all.take(i as int)) + ","@ + name + ":"@
                    + value));
            } else {
                assert(members_text(all.take(0)) =~= Seq::<char>::empty());
                assert(text@ =~= start + (name + ":"@ + value));
            }
        }
        i += 1;
    }
    text.append("}");
    proof {
        assert(all.take(members.len() as int) =~= all);
    }
    text
}

fn types_payload(types: &Vec<(TypeState, String)>) -> (text: String)
    ensures
        text@ == types_object(types@.map_values(|e: (TypeState, String)| (e.0, e.1@))),
{
    let ghost all = types@.map_values(|e: (TypeState, String)| (e.0, e.1@));
    let ghost quoted = all.map_values(
        |e: (TypeState, Seq<char>)| (json_quoted(name_of_type(e.0)), json_quoted(e.1)),
    );
    let mut members: Vec<(String, String)> = Vec::new();
    let mut i: usize = 0;
    while i < types.len()
        invariant
            i <= types.len(),
            all == types@.map_values(|e: (TypeState, String)| (e.0, e.1@)),
            quoted == all.map_values(
                |e: (TypeState, Seq<char>)| (json_quoted(name_of_type(e.0)), json_quoted(e.1)),
            ),
            members_view(members@) =~= quoted.take(i as int),
        decreases types.len() - i,
    {
        let ghost before = members@;
        let name = json_string(types[i].0.name());
        let value = json_string(types[i].1.as_str());
        members.push((name, value));
        proof {
            assert(members@ == before.push((name, value)));
            assert(members_view(before).len() == i);
            assert(all[i as int] == (types@[i as int].0, types@[i as int].1@));
            assert(quoted[i as int] == (name@, value@));
            assert forall|k: int| 0 <= k < i + 1 implies members_view(members@)[k]
                == quoted.take(i + 1)[k] by {
                if k < i {
                    assert(members_view(before)[k] == quoted.take(i as int)[k]);
                }
            }
        }
        i += 1;
    }
    proof {
        assert(quoted.take(types.len() as int) =~= quoted);
    }
    json_object(&members)
}

/// Writes the body of a state-change notification.
pub fn state_change_payload(changed: &Vec<RenderedAccount>) -> (body: String)
    ensures
        body@ == state_change_text(rendered_view(changed@)),
{
    let ghost all = rendered_view(changed@);
    let ghost quoted = all.map_values(
        |a: RenderedAccountView| (json_quoted(a.account), types_object(a.types)),
    );
    let mut members: Vec<(String, String)> = Vec::new();
    let mut i: usize = 0;
    while i < changed.len()
        invariant
            i <= changed.len(),
            all == rendered_view(changed@),
            quoted == all.map_values(
                |a: RenderedAccountView| (json_quoted(a.account), types_object(a.types)),
            ),
            members_view(members@) =~= quoted.take(i as int),
        decreases changed.len() - i,
    {
        let ghost before = members@;
        let account = json_string(changed[i].account.as_str());
        let types = types_payload(&changed[i].types);
        members.push((account, types));
        proof {
            assert(members@ == before.push((account, types)));
            assert(members_view(before).len() == i);
            assert(all[i as int] == changed@[i as int]@);
            assert(quoted[i as int] == (account@, types@));
            assert forall|k: int| 0 <= k < i + 1 implies members_view(members@)[k]
                == quoted.take(i + 1)[k] by {
                if k < i {
                    assert(members_view(before)[k] == quoted.take(i as int)[k]);
                }
            }
        }
        i += 1;
    }
    proof {
        assert(quoted.take(changed.len() as int) =~= quoted);
    }
    let object = json_object(&members);
    let mut body = String::from_str("{\"changed\":");
    body.append(object.as_str());
    body.append("}");
    body
}

} // verus!
