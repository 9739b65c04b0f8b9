//! Merging the rows that a router reports into one record per device.
//!
//! A router may list one device several times, each row carrying part of
//! what is known of it. Rows are taken in the order given. Descriptive
//! fields keep the first value seen; the block state and the raw row follow
//! the latest row.

use crate::json::{json_views, JsonValue, JsonView};
use crate::model::{client_views, copy_opt_text, opt_text, ClientInfo, ClientView};
use crate::text::{lowered, text_eq, to_lowercase};
use vstd::prelude::*;

verus! {

/// The key under which a row is filed: its `mac` member in lower case, or
/// the lower case of the empty string where it has none.
pub open spec fn row_mac(row: JsonView) -> Seq<char> {
    lowered(
        match row.text_member("mac"@) {
            Some(m) => m,
            None => Seq::empty(),
        },
    )
}

/// A record for `mac` of which nothing else is known yet.
pub open spec fn fresh_client(mac: Seq<char>) -> ClientView {
    ClientView { name: None, ip: None, mac, policy: None, deny: false, raw: JsonView::Null }
}

/// A field that keeps its first value: `offered` is taken only while
/// nothing is held.
pub open spec fn keep_first(held: Option<Seq<char>>, offered: Option<Seq<char>>) -> Option<
    Seq<char>,
> {
    if held is None {
        offered
    } else {
        held
    }
}

/// The record `rec` after `row` has been merged into it.
pub open spec fn absorbed(rec: ClientView, row: JsonView) -> ClientView {
    ClientView {
        name: keep_first(rec.name, row.text_member("name"@)),
        ip: keep_first(rec.ip, row.text_member("ip"@)),
        mac: rec.mac,
        policy: keep_first(rec.policy, row.text_member("policy"@)),
        deny: match row.bool_member("deny"@) {
            Some(d) => d,
            None => rec.deny,
        },
        raw: if row is Null {
            rec.raw
        } else {
            row
        },
    }
}

/// The index of the first record at or after `from` whose address is `mac`.
pub open spec fn slot_of(table: Seq<ClientView>, mac: Seq<char>, from: int) -> Option<int>
    decreases table.len() - from,
{
    if from < 0 || from >= table.len() {
        None
    } else if table[from].mac == mac {
        Some(from)
    } else {
        slot_of(table, mac, from + 1)
    }
}

/// The table after a row filed under `mac` has been merged into it: into the
/// record for `mac` where there is one, else into a new record at the end.
pub open spec fn merged(table: Seq<ClientView>, mac: Seq<char>, row: JsonView) -> Seq<
    ClientView,
> {
    match slot_of(table, mac, 0) {
        Some(i) => table.update(i, absorbed(table[i], row)),
        None => table.push(absorbed(fresh_client(mac), row)),
    }
}

/// The table that `rows` give: each row in turn is merged under its key,
/// and rows with an empty key are passed over.
pub open spec fn reconciled(rows: Seq<JsonView>) -> Seq<ClientView>
    decreases rows.len(),
{
    if rows.len() == 0 {
        Seq::empty()
    } else {
        let before = reconciled(rows.drop_last());
        let key = row_mac(rows.last());
        if key.len() == 0 {
            before
        } else {
            merged(before, key, rows.last())
        }
    }
}

/// The string held by the member `key` of `row`, where there is one.
pub fn text_member(row: &JsonValue, key: &str) -> (out: Option<String>)
    ensures
        opt_text(out) == row@.text_member(key@),
{
    match row.get(key) {
        Some(v) => match v.as_str() {
            Some(t) => Some(t.to_owned()),
            None => None,
        },
        None => None,
    }
}

/// The boolean held by the member `key` of `row`, where there is one.
pub fn bool_member(row: &JsonValue, key: &str) -> (out: Option<bool>)
    ensures
        out == row@.bool_member(key@),
{
    match row.get(key) {
        Some(v) => v.as_bool(),
        None => None,
    }
}

/// The index of the record for `mac` in `table`.
pub fn find_client(table: &Vec<ClientInfo>, mac: &str) -> (slot: Option<usize>)
    ensures
        match slot {
            Some(i) => i < table@.len() && slot_of(client_views(table@), mac@, 0) == Some(
                i as int,
            ),
            None => slot_of(client_views(table@), mac@, 0) is None,
        },
{
    let ghost all = client_views(table@);
    let n: usize = table.len();
    let mut i: usize = 0;
    while i < n
        invariant
            n == table@.len(),
            i <= n,
            all == client_views(table@),
            slot_of(all, mac@, 0) == slot_of(all, mac@, i as int),
        decreases n - i,
    {
        if text_eq(table[i].mac.as_str(), mac) {
            return Some(i);
        }
        i += 1;
    }
    None
}

/// The record `rec` after `row` has been merged into it.
pub fn absorb_row(rec: &ClientInfo, row: &JsonValue) -> (out: ClientInfo)
    ensures
        out@ == absorbed(rec@, row@),
{
    let name = if rec.name.is_none() {
        text_member(row, "name")
    } else {
        copy_opt_text(&rec.name)
    };
    let ip = if rec.ip.is_none() {
        text_member(row, "ip")
    } else {
        copy_opt_text(&rec.ip)
    };
    let policy = if rec.policy.is_none() {
        text_member(row, "policy")
    } else {
        copy_opt_text(&rec.policy)
    };
    let deny = match bool_member(row, "deny") {
        Some(d) => d,
        None => rec.deny,
    };
    let raw = if row.is_null() {
        rec.raw.duplicate()
    } else {
        row.duplicate()
    };
    ClientInfo { name, ip, mac: rec.mac.clone(), policy, deny, raw }
}

/// Merges one row, filed under `mac`, into `table`.
pub fn merge_row(table: &mut Vec<ClientInfo>, mac: String, row: &JsonValue)
    ensures
        client_views(final(table)@) == merged(client_views(old(table)@), mac@, row@),
{
    let ghost before = client_views(table@);
    match find_client(table, mac.as_str()) {
        Some(i) => {
            let updated = absorb_row(&table[i], row);
            table.set(i, updated);
            assert(client_views(table@) =~= before.update(i as int, absorbed(before[i as int], row@)));
        },
        None => {
            let blank = ClientInfo {
                name: None,
                ip: None,
                mac,
                policy: None,
                deny: false,
                raw: JsonValue::Null,
            };
            let added = absorb_row(&blank, row);
            table.push(added);
            assert(client_views(table@) =~= before.push(absorbed(fresh_client(mac@), row@)));
        },
    }
}

/// The key under which `row` is filed.
pub fn row_key(row: &JsonValue) -> (key: String)
    ensures
        key@ == row_mac(row@),
{
    match text_member(row, "mac") {
        Some(m) => to_lowercase(m.as_str()),
        None => {
            proof {
                reveal_strlit("");
            }
            assert(""@ =~= Seq::<char>::empty());
            to_lowercase("")
        },
    }
}

/// Merges the rows that a router reports into one record per device, in the
/// order in which the devices first appear. No two records share an
/// address, and each record is what the rows filed under its address say
/// taken together.
pub fn reconcile(rows: &Vec<JsonValue>) -> (table: Vec<ClientInfo>)
    ensures
        client_views(table@) == reconciled(json_views(rows@)),
        forall|i: int, j: int|
            0 <= i < j < table@.len() ==> (#[trigger] table@[i]).mac@ != (#[trigger] table@[j]).mac@,
        forall|i: int|
            0 <= i < table@.len() ==> (#[trigger] table@[i])@ == summary(
                json_views(rows@),
                table@[i].mac@,
            ),
{
    let ghost all = json_views(rows@);
    let mut table: Vec<ClientInfo> = Vec::new();
    let n: usize = rows.len();
    let mut i: usize = 0;
    assert(client_views(table@) =~= reconciled(all.subrange(0, 0)));
    while i < n
        invariant
            n == rows@.len(),
            i <= n,
            all == json_views(rows@),
            client_views(table@) == reconciled(all.subrange(0, i as int)),
        decreases n - i,
    {
        let key = row_key(&rows[i]);
        assert(all.subrange(0, i + 1).drop_last() =~= all.subrange(0, i as int));
        assert(all.subrange(0, i + 1).last() == rows@[i as int]@);
        if key.as_str().unicode_len() != 0 {
            merge_row(&mut table, key, &rows[i]);
        }
        i += 1;
    }
    assert(all.subrange(0, n as int) =~= all);
    proof {
        lemma_reconciled(all);
        assert forall|i: int, j: int| 0 <= i < j < table@.len() implies (#[trigger] table@[i]).mac@
            != (#[trigger] table@[j]).mac@ by {
            assert(client_views(table@)[i].mac == table@[i].mac@);
            assert(client_views(table@)[j].mac == table@[j].mac@);
        }
        assert forall|i: int| 0 <= i < table@.len() implies (#[trigger] table@[i])@ == summary(
            all,
            table@[i].mac@,
        ) by {
            assert(client_views(table@)[i] == table@[i]@);
        }
    }
    table
}

/// The text of the member `field` in the first of `rows` that is filed
/// under `mac` and has one.
pub open spec fn first_text(rows: Seq<JsonView>, mac: Seq<char>, field: Seq<char>) -> Option<
    Seq<char>,
>
    decreases rows.len(),
{
    if rows.len() == 0 {
        None
    } else {
        let earlier = first_text(rows.drop_last(), mac, field);
        if earlier is Some || row_mac(rows.last()) != mac {
            earlier
        } else {
            rows.last().text_member(field)
        }
    }
}

/// The `deny` member of the last of `rows` that is filed under `mac` and
/// has one; `false` where there is no such row.
pub open spec fn last_deny(rows: Seq<JsonView>, mac: Seq<char>) -> bool
    decreases rows.len(),
{
    if rows.len() == 0 {
        false
    } else if row_mac(rows.last()) == mac && rows.last().bool_member("deny"@) is Some {
        rows.last().bool_member("deny"@)->0
    } else {
        last_deny(rows.drop_last(), mac)
    }
}

/// The last of `rows` that is filed under `mac` and is not `null`; `null`
/// where there is no such row.
pub open spec fn last_raw(rows: Seq<JsonView>, mac: Seq<char>) -> JsonView
    decreases rows.len(),
{
    if rows.len() == 0 {
        JsonView::Null
    } else if row_mac(rows.last()) == mac && !(rows.last() is Null) {
        rows.last()
    } else {
        last_raw(rows.drop_last(), mac)
    }
}

/// What `rows` say of the device `mac`, taken together.
pub open spec fn summary(rows: Seq<JsonView>, mac: Seq<char>) -> ClientView {
    ClientView {
        name: first_text(rows, mac, "name"@),
        ip: first_text(rows, mac, "ip"@),
        mac,
        policy: first_text(rows, mac, "policy"@),
        deny: last_deny(rows, mac),
        raw: last_raw(rows, mac),
    }
}

/// Whether `table` holds a record for `mac`.
pub open spec fn has_record(table: Seq<ClientView>, mac: Seq<char>) -> bool {
    exists|i: int| 0 <= i < table.len() && (#[trigger] table[i]).mac == mac
}

/// Whether one of `rows` is filed under `mac`.
pub open spec fn seen(rows: Seq<JsonView>, mac: Seq<char>) -> bool {
    exists|k: int| 0 <= k < rows.len() && row_mac(#[trigger] rows[k]) == mac
}

/// Whether row `k` is filed under `mac` and has text in `field`.
pub open spec fn offers(rows: Seq<JsonView>, mac: Seq<char>, field: Seq<char>, k: int) -> bool {
    0 <= k < rows.len() && row_mac(rows[k]) == mac && rows[k].text_member(field) is Some
}

/// First seen wins: a field that keeps its first value has the value of
/// the earliest row that is filed under the device and has one, and has
/// none where no such row has one.
pub proof fn lemma_first_text(rows: Seq<JsonView>, mac: Seq<char>, field: Seq<char>)
    ensures
        match first_text(rows, mac, field) {
            Some(v) => exists|k: int|
                {
                    &&& #[trigger] offers(rows, mac, field, k)
                    &&& rows[k].text_member(field) == Some(v)
                    &&& forall|j: int| 0 <= j < k ==> !offers(rows, mac, field, j)
                },
            None => forall|k: int| !offers(rows, mac, field, k),
        },
    decreases rows.len(),
{
    if rows.len() > 0 {
        let earlier = rows.drop_last();
        let last = rows.len() - 1;
        lemma_first_text(earlier, mac, field);
        assert(rows[last] == rows.last());
        assert forall|k: int| 0 <= k < last implies offers(earlier, mac, field, k) == offers(
            rows,
            mac,
            field,
            k,
        ) by {
            assert(earlier[k] == rows[k]);
        }
        match first_text(earlier, mac, field) {
            Some(v) => {
                let k = choose|k: int|
                    {
                        &&& #[trigger] offers(earlier, mac, field, k)
                        &&& earlier[k].text_member(field) == Some(v)
                        &&& forall|j: int| 0 <= j < k ==> !offers(earlier, mac, field, j)
                    };
                assert(offers(rows, mac, field, k));
                assert(forall|j: int| 0 <= j < k ==> !offers(rows, mac, field, j));
            },
            None => {
                assert(forall|j: int| 0 <= j < last ==> !offers(rows, mac, field, j));
                if offers(rows, mac, field, last) {
                    assert(first_text(rows, mac, field) == rows[last].text_member(field));
                } else {
                    assert forall|k: int| !offers(rows, mac, field, k) by {
                        if 0 <= k < last {
                            assert(!offers(rows, mac, field, k));
                        }
                    }
                }
            },
        }
    }
}

/// Where the rows of a device do not contradict each other, their order
/// does not matter: if every row that is filed under the device and has
/// the field has the value `v` there, and one such row exists, the field
/// ends up as `v`.
pub proof fn lemma_first_text_agreed(
    rows: Seq<JsonView>,
    mac: Seq<char>,
    field: Seq<char>,
    v: Seq<char>,
)
    requires
        forall|k: int| #[trigger]
            offers(rows, mac, field, k) ==> rows[k].text_member(field) == Some(v),
        exists|k: int| offers(rows, mac, field, k),
    ensures
        first_text(rows, mac, field) == Some(v),
{
    lemma_first_text(rows, mac, field);
}

/// Last seen wins: the block state is that of the last row that is filed
/// under the device and says one, and `false` where no such row does.
pub proof fn lemma_last_deny(rows: Seq<JsonView>, mac: Seq<char>)
    ensures
        (forall|k: int|
            0 <= k < rows.len() && row_mac(#[trigger] rows[k]) == mac ==> rows[k].bool_member(
                "deny"@,
            ) is None) ==> !last_deny(rows, mac),
        forall|k: int|
            {
                &&& 0 <= k < rows.len()
                &&& row_mac(#[trigger] rows[k]) == mac
                &&& rows[k].bool_member("deny"@) is Some
                &&& forall|j: int|
                    k < j < rows.len() && row_mac(#[trigger] rows[j]) == mac
                        ==> rows[j].bool_member("deny"@) is None
            } ==> last_deny(rows, mac) == rows[k].bool_member("deny"@)->0,
    decreases rows.len(),
{
    if rows.len() > 0 {
        let earlier = rows.drop_last();
        let last = rows.len() - 1;
        lemma_last_deny(earlier, mac);
        assert(rows[last] == rows.last());
        assert forall|k: int| 0 <= k < last implies earlier[k] == rows[k] by {}
        if row_mac(rows[last]) == mac && rows[last].bool_member("deny"@) is Some {
        } else {
            assert(last_deny(rows, mac) == last_deny(earlier, mac));
            assert forall|k: int|
                {
                    &&& 0 <= k < rows.len()
                    &&& row_mac(#[trigger] rows[k]) == mac
                    &&& rows[k].bool_member("deny"@) is Some
                    &&& forall|j: int|
                        k < j < rows.len() && row_mac(#[trigger] rows[j]) == mac
                            ==> rows[j].bool_member("deny"@) is None
                } implies last_deny(rows, mac) == rows[k].bool_member("deny"@)->0 by {
                assert(k < last);
                assert(earlier[k] == rows[k]);
                assert forall|j: int|
                    k < j < earlier.len() && row_mac(#[trigger] earlier[j]) == mac implies earlier[j].bool_member(
                    "deny"@,
                ) is None by {
                    assert(earlier[j] == rows[j]);
                }
            }
        }
    }
}

/// `slot_of` finds the first record for `mac` at or after `from`, and
/// finds one whenever there is one.
pub proof fn lemma_slot_of(table: Seq<ClientView>, mac: Seq<char>, from: int)
    requires
        0 <= from,
    ensures
        match slot_of(table, mac, from) {
            Some(i) => from <= i < table.len() && table[i].mac == mac && forall|k: int|
                from <= k < i ==> (#[trigger] table[k]).mac != mac,
            None => forall|k: int| from <= k < table.len() ==> (#[trigger] table[k]).mac != mac,
        },
    decreases table.len() - from,
{
    if from < table.len() && table[from].mac != mac {
        lemma_slot_of(table, mac, from + 1);
    }
}

/// Rows of which none is filed under `mac` say nothing of it.
pub proof fn lemma_unseen(rows: Seq<JsonView>, mac: Seq<char>)
    requires
        !seen(rows, mac),
    ensures
        summary(rows, mac) == fresh_client(mac),
    decreases rows.len(),
{
    if rows.len() > 0 {
        let earlier = rows.drop_last();
        assert(rows[rows.len() - 1] == rows.last());
        assert forall|k: int| 0 <= k < earlier.len() implies row_mac(#[trigger] earlier[k])
            != mac by {
            assert(earlier[k] == rows[k]);
        }
        lemma_unseen(earlier, mac);
    }
}

/// Merging is per device: each record of the table is what the rows filed
/// under its address say taken together. Its descriptive fields are those
/// of the first such row that has them, its block state and raw row those
/// of the last. No address is empty, no two records share one, every
/// record's address is the key of some row, and every row with a key has
/// its record.
pub proof fn lemma_reconciled(rows: Seq<JsonView>)
    ensures
        forall|i: int|
            0 <= i < reconciled(rows).len() ==> {
                &&& (#[trigger] reconciled(rows)[i]).mac.len() > 0
                &&& seen(rows, reconciled(rows)[i].mac)
                &&& reconciled(rows)[i] == summary(rows, reconciled(rows)[i].mac)
            },
        forall|i: int, j: int|
            0 <= i < j < reconciled(rows).len() ==> (#[trigger] reconciled(rows)[i]).mac != (
            #[trigger] reconciled(rows)[j]).mac,
        forall|k: int|
            0 <= k < rows.len() && row_mac(#[trigger] rows[k]).len() > 0 ==> has_record(
                reconciled(rows),
                row_mac(rows[k]),
            ),
    decreases rows.len(),
{
    if rows.len() > 0 {
        let earlier = rows.drop_last();
        let row = rows.last();
        let key = row_mac(row);
        let before = reconciled(earlier);
        let after = reconciled(rows);
        lemma_reconciled(earlier);
        assert(rows[rows.len() - 1] == row);
        assert forall|k: int| 0 <= k < earlier.len() implies earlier[k] == rows[k] by {}
        if key.len() == 0 {
            assert(after == before);
            assert forall|i: int| 0 <= i < after.len() implies {
                &&& (#[trigger] after[i]).mac.len() > 0
                &&& seen(rows, after[i].mac)
                &&& after[i] == summary(rows, after[i].mac)
            } by {
                let mac = before[i].mac;
                let k = choose|k: int| 0 <= k < earlier.len() && row_mac(#[trigger] earlier[k]) == mac;
                assert(row_mac(rows[k]) == mac);
            }
            assert forall|k: int|
                0 <= k < rows.len() && row_mac(#[trigger] rows[k]).len() > 0 implies has_record(
                after,
                row_mac(rows[k]),
            ) by {
                assert(k < earlier.len());
                assert(row_mac(earlier[k]).len() > 0);
            }
        } else {
            lemma_slot_of(before, key, 0);
            match slot_of(before, key, 0) {
                Some(s) => {
                    assert(after == before.update(s, absorbed(before[s], row)));
                    assert forall|i: int| 0 <= i < after.len() implies {
                        &&& (#[trigger] after[i]).mac.len() > 0
                        &&& seen(rows, after[i].mac)
                        &&& after[i] == summary(rows, after[i].mac)
                    } by {
                        let mac = before[i].mac;
                        assert(after[i].mac == mac);
                        let k = choose|k: int|
                            0 <= k < earlier.len() && row_mac(#[trigger] earlier[k]) == mac;
                        assert(row_mac(rows[k]) == mac);
                        if i == s {
                            assert(after[i] == absorbed(before[s], row));
                        } else {
                            assert(after[i] == before[i]);
                        }
                    }
                    assert forall|i: int, j: int| 0 <= i < j < after.len() implies (
                    #[trigger] after[i]).mac != (#[trigger] after[j]).mac by {
                        assert(after[i].mac == before[i].mac);
                        assert(after[j].mac == before[j].mac);
                    }
                    assert forall|k: int|
                        0 <= k < rows.len() && row_mac(#[trigger] rows[k]).len()
                            > 0 implies has_record(after, row_mac(rows[k])) by {
                        if k < earlier.len() {
                            assert(row_mac(earlier[k]).len() > 0);
                            let i = choose|i: int|
                                0 <= i < before.len() && (#[trigger] before[i]).mac == row_mac(
                                    earlier[k],
                                );
                            assert(after[i].mac == before[i].mac);
                        } else {
                            assert(after[s].mac == key);
                        }
                    }
                },
                None => {
                    let added = absorbed(fresh_client(key), row);
                    assert(after == before.push(added));
                    assert(!seen(earlier, key)) by {
                        if seen(earlier, key) {
                            let k = choose|k: int|
                                0 <= k < earlier.len() && row_mac(#[trigger] earlier[k]) == key;
                            assert(has_record(before, row_mac(earlier[k])));
                        }
                    }
                    lemma_unseen(earlier, key);
                    assert forall|i: int| 0 <= i < after.len() implies {
                        &&& (#[trigger] after[i]).mac.len() > 0
                        &&& seen(rows, after[i].mac)
                        &&& after[i] == summary(rows, after[i].mac)
                    } by {
                        if i < before.len() {
                            let mac = before[i].mac;
                            assert(after[i] == before[i]);
                            let k = choose|k: int|
                                0 <= k < earlier.len() && row_mac(#[trigger] earlier[k]) == mac;
                            assert(row_mac(rows[k]) == mac);
                        } else {
                            assert(after[i] == added);
                            assert(row_mac(rows[rows.len() - 1]) == key);
                        }
                    }
                    assert forall|i: int, j: int| 0 <= i < j < after.len() implies (
                    #[trigger] after[i]).mac != (#[trigger] after[j]).mac by {
                        assert(after[i] == before[i]);
                        if j < before.len() {
                            assert(after[j] == before[j]);
                        } else {
                            assert(after[j].mac == key);
                        }
                    }
                    assert forall|k: int|
                        0 <= k < rows.len() && row_mac(#[trigger] rows[k]).len()
                            > 0 implies has_record(after, row_mac(rows[k])) by {
                        if k < earlier.len() {
                            assert(row_mac(earlier[k]).len() > 0);
                            let i = choose|i: int|
                                0 <= i < before.len() && (#[trigger] before[i]).mac == row_mac(
                                    earlier[k],
                                );
                            assert(after[i] == before[i]);
                        } else {
                            assert(after[before.len() as int].mac == key);
                        }
                    }
                },
            }
        }
    }
}

/// Whether a raw row reports the device as connected: its `link` member, or
/// the `link` member of its `mws` member, is the string `up`.
pub open spec fn is_online(raw: JsonView) -> bool {
    ||| raw.text_member("link"@) == Some("up"@)
    ||| match raw.member("mws"@) {
        Some(mws) => mws.text_member("link"@) == Some("up"@),
        None => false,
    }
}

/// Whether the latest row of `client` reports it as connected.
pub fn client_is_online(client: &ClientInfo) -> (online: bool)
    ensures
        online == is_online(client@.raw),
{
    if let Some(link) = text_member(&client.raw, "link") {
        if text_eq(link.as_str(), "up") {
            return true;
        }
    }
    match client.raw.get("mws") {
        Some(mws) => match text_member(mws, "link") {
            Some(link) => text_eq(link.as_str(), "up"),
            None => false,
        },
        None => false,
    }
}

} // verus!
