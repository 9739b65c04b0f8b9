//! What is read out of the router's answers and what is written into the
//! requests that change a device's policy.

use crate::clients::{reconcile, reconciled, text_member};
use crate::json::{
    json_views, lemma_object_view, lookup_from, member_views, JsonValue, JsonView, MemberView,
};
use crate::model::{client_views, opt_text, policy_views, texts, ClientInfo, ClientView, PolicyInfo, PolicyView};
use crate::text::text_eq;
use vstd::prelude::*;

verus! {

/// The `domain` members of `items`, in order; items without one are
/// passed over.
pub open spec fn domains_in(items: Seq<JsonView>) -> Seq<Seq<char>>
    decreases items.len(),
{
    if items.len() == 0 {
        Seq::empty()
    } else {
        let before = domains_in(items.drop_last());
        match items.last().text_member("domain"@) {
            Some(d) => before.push(d),
            None => before,
        }
    }
}

/// The domains of the certificates in the router's answer; none where the
/// answer is not an array.
pub open spec fn certificate_domains(data: JsonView) -> Seq<Seq<char>> {
    match data.elements() {
        Some(items) => domains_in(items),
        None => Seq::empty(),
    }
}

/// The domains of the certificates in the router's answer.
pub fn domains_of(data: &JsonValue) -> (out: Vec<String>)
    ensures
        texts(out@) == certificate_domains(data@),
{
    let mut out: Vec<String> = Vec::new();
    assert(texts(out@) =~= Seq::empty());
    match data.as_array() {
        Some(items) => {
            let ghost all = json_views(items@);
            let n: usize = items.len();
            let mut i: usize = 0;
            assert(all.subrange(0, 0) =~= Seq::empty());
            while i < n
                invariant
                    n == items@.len(),
                    i <= n,
                    all == json_views(items@),
                    texts(out@) == domains_in(all.subrange(0, i as int)),
                decreases n - i,
            {
                assert(all.subrange(0, i + 1).drop_last() =~= all.subrange(0, i as int));
                let ghost before = texts(out@);
                match text_member(&items[i], "domain") {
                    Some(d) => {
                        out.push(d);
                        assert(texts(out@) =~= before.push(d@));
                    },
                    None => {},
                }
                i += 1;
            }
            assert(all.subrange(0, n as int) =~= all);
            out
        },
        None => out,
    }
}

/// The address of the router's bridge in its answer.
pub open spec fn bridge_address(data: JsonView) -> Option<Seq<char>> {
    data.text_member("address"@)
}

/// The address of the router's bridge in its answer.
pub fn bridge_address_of(data: &JsonValue) -> (out: Option<String>)
    ensures
        opt_text(out) == bridge_address(data@),
{
    text_member(data, "address")
}

/// The index of the first policy at or after `from` whose name is `name`.
pub open spec fn policy_slot(table: Seq<PolicyView>, name: Seq<char>, from: int) -> Option<int>
    decreases table.len() - from,
{
    if from < 0 || from >= table.len() {
        None
    } else if table[from].name == name {
        Some(from)
    } else {
        policy_slot(table, name, from + 1)
    }
}

/// The policies that the members of an object name, in order, each with
/// the `description` of its value; of two members with one key the first
/// counts.
pub open spec fn policy_table(members: Seq<MemberView>) -> Seq<PolicyView>
    decreases members.len(),
{
    if members.len() == 0 {
        Seq::empty()
    } else {
        let before = policy_table(members.drop_last());
        let m = members.last();
        if policy_slot(before, m.key, 0) is Some {
            before
        } else {
            before.push(
                PolicyView { name: m.key, description: m.value.text_member("description"@) },
            )
        }
    }
}

/// The policies in the router's answer; none where the answer is not an
/// object.
pub open spec fn policies_in(data: JsonView) -> Seq<PolicyView> {
    match data.members() {
        Some(members) => policy_table(members),
        None => Seq::empty(),
    }
}

/// Looking a key up among all members is looking it up among all but
/// the last, and only then at the last.
pub proof fn lemma_lookup_last(members: Seq<MemberView>, key: Seq<char>, from: int)
    requires
        members.len() > 0,
        0 <= from,
    ensures
        lookup_from(members, key, from) == (match lookup_from(members.drop_last(), key, from) {
            Some(v) => Some(v),
            None => if from < members.len() && members.last().key == key {
                Some(members.last().value)
            } else {
                None
            },
        }),
    decreases members.len() - from,
{
    let earlier = members.drop_last();
    if from < earlier.len() {
        assert(earlier[from] == members[from]);
        if members[from].key != key {
            lemma_lookup_last(members, key, from + 1);
        }
    } else if from < members.len() {
        assert(members[from] == members.last());
        assert(lookup_from(members, key, from + 1) is None);
    }
}

/// `policy_slot` finds the first policy called `name` at or after `from`,
/// and finds one whenever there is one.
pub proof fn lemma_policy_slot(table: Seq<PolicyView>, name: Seq<char>, from: int)
    requires
        0 <= from,
    ensures
        match policy_slot(table, name, from) {
            Some(i) => from <= i < table.len() && table[i].name == name && forall|k: int|
                from <= k < i ==> (#[trigger] table[k]).name != name,
            None => forall|k: int| from <= k < table.len() ==> (#[trigger] table[k]).name != name,
        },
    decreases table.len() - from,
{
    if from < table.len() && table[from].name != name {
        lemma_policy_slot(table, name, from + 1);
    }
}

/// The table of policies agrees with the router's answer: a name is in
/// the table exactly where the answer has a member of that name, with
/// the description that this member holds; and no two policies of the
/// table share a name.
pub proof fn lemma_policy_table(members: Seq<MemberView>, name: Seq<char>)
    ensures
        match lookup_from(members, name, 0) {
            Some(v) => policy_slot(policy_table(members), name, 0) is Some && policy_table(
                members,
            )[policy_slot(policy_table(members), name, 0)->0] == (PolicyView {
                name,
                description: v.text_member("description"@),
            }),
            None => policy_slot(policy_table(members), name, 0) is None,
        },
        forall|i: int, j: int|
            0 <= i < j < policy_table(members).len() ==> (#[trigger] policy_table(members)[i]).name
                != (#[trigger] policy_table(members)[j]).name,
    decreases members.len(),
{
    if members.len() > 0 {
        let earlier = members.drop_last();
        let m = members.last();
        let before = policy_table(earlier);
        let after = policy_table(members);
        lemma_policy_table(earlier, name);
        lemma_policy_table(earlier, m.key);
        lemma_lookup_last(members, name, 0);
        lemma_policy_slot(before, name, 0);
        lemma_policy_slot(before, m.key, 0);
        lemma_policy_slot(after, name, 0);
        if policy_slot(before, m.key, 0) is None {
            assert(after == before.push(
                PolicyView { name: m.key, description: m.value.text_member("description"@) },
            ));
            assert forall|k: int| 0 <= k < before.len() implies after[k] == before[k] by {}
            assert(after[before.len() as int].name == m.key);
        }
    }
}

/// The index of the policy `name` in `table`.
pub fn find_policy(table: &Vec<(String, PolicyInfo)>, name: &str) -> (slot: Option<usize>)
    ensures
        match slot {
            Some(i) => i < table@.len() && policy_slot(policy_views(table@), name@, 0) == Some(
                i as int,
            ),
            None => policy_slot(policy_views(table@), name@, 0) is None,
        },
{
    let ghost all = policy_views(table@);
    let n: usize = table.len();
    let mut i: usize = 0;
    while i < n
        invariant
            n == table@.len(),
            i <= n,
            all == policy_views(table@),
            policy_slot(all, name@, 0) == policy_slot(all, name@, i as int),
        decreases n - i,
    {
        if text_eq(table[i].0.as_str(), name) {
            return Some(i);
        }
        i += 1;
    }
    None
}

/// The policies in the router's answer.
pub fn policies_of(data: &JsonValue) -> (out: Vec<(String, PolicyInfo)>)
    ensures
        policy_views(out@) == policies_in(data@),
{
    let mut out: Vec<(String, PolicyInfo)> = Vec::new();
    assert(policy_views(out@) =~= Seq::empty());
    match data.as_object() {
        Some(members) => {
            let ghost all = member_views(members@);
            let n: usize = members.len();
            let mut i: usize = 0;
            assert(all.subrange(0, 0) =~= Seq::empty());
            while i < n
                invariant
                    n == members@.len(),
                    i <= n,
                    all == member_views(members@),
                    policy_views(out@) == policy_table(all.subrange(0, i as int)),
                decreases n - i,
            {
                assert(all.subrange(0, i + 1).drop_last() =~= all.subrange(0, i as int));
                let ghost before = policy_views(out@);
                if find_policy(&out, members[i].0.as_str()).is_none() {
                    let name = members[i].0.clone();
                    let description = text_member(&members[i].1, "description");
                    out.push((name, PolicyInfo { description }));
                    assert(policy_views(out@) =~= before.push(
                        PolicyView {
                            name: members@[i as int].0@,
                            description: members@[i as int].1@.text_member("description"@),
                        },
                    ));
                }
                i += 1;
            }
            assert(all.subrange(0, n as int) =~= all);
            out
        },
        None => out,
    }
}

/// The devices in the router's answer, one record for each; none where
/// the answer is not an array.
pub open spec fn clients_in(data: JsonView) -> Seq<ClientView> {
    match data.elements() {
        Some(items) => reconciled(items),
        None => Seq::empty(),
    }
}

/// The devices in the router's answer, one record for each.
pub fn clients_of(data: &JsonValue) -> (out: Vec<ClientInfo>)
    ensures
        client_views(out@) == clients_in(data@),
{
    match data.as_array() {
        Some(items) => reconcile(items),
        None => {
            let out: Vec<ClientInfo> = Vec::new();
            assert(client_views(out@) =~= Seq::empty());
            out
        },
    }
}

/// A member of an object.
pub open spec fn member(key: Seq<char>, value: JsonView) -> MemberView {
    MemberView { key, value }
}

/// The body that assigns `policy` to the device `mac`. Where `policy` is
/// `None` the device goes back to the default policy, which the router
/// wants written as `false`.
pub open spec fn policy_payload(mac: Seq<char>, policy: Option<Seq<char>>) -> JsonView {
    JsonView::Object(
        seq![
            member("mac"@, JsonView::Text(mac)),
            member(
                "policy"@,
                match policy {
                    Some(name) => JsonView::Text(name),
                    None => JsonView::Bool(false),
                },
            ),
            member("permit"@, JsonView::Bool(true)),
            member("schedule"@, JsonView::Bool(false)),
        ],
    )
}

/// The body that blocks the device `mac`.
pub open spec fn block_payload(mac: Seq<char>) -> JsonView {
    JsonView::Object(
        seq![
            member("mac"@, JsonView::Text(mac)),
            member("schedule"@, JsonView::Bool(false)),
            member("deny"@, JsonView::Bool(true)),
        ],
    )
}

/// The body that assigns `policy` to the device `mac`.
pub fn build_policy_payload(mac: &str, policy: Option<&str>) -> (out: JsonValue)
    ensures
        out@ == policy_payload(
            mac@,
            match policy {
                Some(name) => Some(name@),
                None => None,
            },
        ),
{
    let value = match policy {
        Some(name) => JsonValue::Text(name.to_owned()),
        None => JsonValue::Bool(false),
    };
    let mut members: Vec<(String, JsonValue)> = Vec::new();
    members.push(("mac".to_owned(), JsonValue::Text(mac.to_owned())));
    members.push(("policy".to_owned(), value));
    members.push(("permit".to_owned(), JsonValue::Bool(true)));
    members.push(("schedule".to_owned(), JsonValue::Bool(false)));
    proof {
        lemma_object_view(members);
        assert(member_views(members@) =~= policy_payload(
            mac@,
            match policy {
                Some(name) => Some(name@),
                None => None,
            },
        )->Object_0);
    }
    JsonValue::Object(members)
}

/// The body that blocks the device `mac`.
pub fn build_block_payload(mac: &str) -> (out: JsonValue)
    ensures
        out@ == block_payload(mac@),
{
    let mut members: Vec<(String, JsonValue)> = Vec::new();
    members.push(("mac".to_owned(), JsonValue::Text(mac.to_owned())));
    members.push(("schedule".to_owned(), JsonValue::Bool(false)));
    members.push(("deny".to_owned(), JsonValue::Bool(true)));
    proof {
        lemma_object_view(members);
        assert(member_views(members@) =~= block_payload(mac@)->Object_0);
    }
    JsonValue::Object(members)
}

} // verus!
