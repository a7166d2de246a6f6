//! What holds of the reads and writes of a group, and of the requests to the
//! storage of a node, whatever the partitions.

use crate::backend::{
    backend_exist, backend_get, backend_put, local_operation, operation_for, put_remote,
    put_single, StorageView,
};
use crate::data::{BobKey, BobOptions, Payload};
use crate::error::ErrorKind;
use crate::group::{
    covering, get_result, healed_by_read, in_order, index_of_start, lemma_attach_then_detach,
    lemma_covering, lemma_position_for, lemma_put_in_order, lemma_successes, position_for,
    put_holders, shown, successes, GroupView,
};
use crate::holder::HolderView;
use crate::mapper::Virtual;
use crate::operation::OperationView;
use crate::pearl::{
    change_partition, engine_in_order, get_in, group_of_vdisk, put_alien_in, put_in, serving,
    EngineView,
};
use crate::settings::{
    align_down, empty_group, latest, lemma_latest, spec_alien_path, spec_holder_path, window_fits,
};
use vstd::prelude::*;

verus! {

/// True when the partition at position `i` is ready and holds `data` under
/// `key`, and every other record of the key, in whatever partition and
/// whatever the state of its log, is older, or as old and in an earlier partition.
pub open spec fn is_latest_at(hs: Seq<HolderView>, key: u64, data: Payload, i: int) -> bool {
    &&& 0 <= i < hs.len()
    &&& hs[i].log.shows(key)
    &&& hs[i].log.records[key] == data
    &&& forall|j: int|
        0 <= j < hs.len() && j != i && (#[trigger] hs[j]).log.has(key) ==> {
            ||| hs[j].log.records[key].timestamp < data.timestamp
            ||| (hs[j].log.records[key].timestamp == data.timestamp && j < i)
        }
}

/// True when `data` is the latest record of `key` in the group.
pub open spec fn is_latest(hs: Seq<HolderView>, key: u64, data: Payload) -> bool {
    exists|i: int| is_latest_at(hs, key, data, i)
}

/// Where a write of the timestamp `t` lands: in the partition whose window
/// holds `t`, or at the place where the partition made for `t` enters.
pub open spec fn landing(hs: Seq<HolderView>, period: int, t: int) -> int {
    if covering(hs, t) >= 0 {
        covering(hs, t)
    } else {
        position_for(hs, align_down(t, period))
    }
}

/// True when every record that the group holds under `key` is older than
/// the timestamp `t`, or as old and in a partition before position `at`.
pub open spec fn older_records(hs: Seq<HolderView>, key: u64, t: int, at: int) -> bool {
    forall|j: int|
        0 <= j < hs.len() && (#[trigger] hs[j]).log.has(key) ==> {
            ||| hs[j].log.records[key].timestamp < t
            ||| (hs[j].log.records[key].timestamp == t && j < at)
        }
}

/// Among the payloads that a read collects, the latest is that of a ready
/// partition whose record no other ready partition exceeds in timestamp and
/// no later one equals.
pub proof fn lemma_latest_success(hs: Seq<HolderView>, key: u64) -> (b: int)
    requires
        successes(hs, key).len() > 0,
    ensures
        0 <= b < hs.len(),
        hs[b].log.shows(key),
        successes(hs, key)[latest(successes(hs, key))] == hs[b].log.records[key],
        forall|j: int|
            0 <= j < hs.len() && (#[trigger] hs[j]).log.shows(key)
                ==> hs[j].log.records[key].timestamp <= hs[b].log.records[key].timestamp,
        forall|j: int|
            b < j < hs.len() && (#[trigger] hs[j]).log.shows(key)
                ==> hs[j].log.records[key].timestamp < hs[b].log.records[key].timestamp,
    decreases hs.len(),
{
    let rest = hs.drop_last();
    let found = successes(hs, key);
    let earlier = successes(rest, key);
    lemma_successes(rest, key);
    assert(forall|j: int| 0 <= j < rest.len() ==> rest[j] == hs[j]);
    if !hs.last().log.shows(key) {
        let b = lemma_latest_success(rest, key);
        assert(hs[b] == rest[b]);
        assert forall|j: int| 0 <= j < hs.len() && (#[trigger] hs[j]).log.shows(key) implies hs[j].log.records[key].timestamp
            <= hs[b].log.records[key].timestamp by {
            assert(rest[j] == hs[j]);
        }
        assert forall|j: int| b < j < hs.len() && (#[trigger] hs[j]).log.shows(key) implies hs[j].log.records[key].timestamp
            < hs[b].log.records[key].timestamp by {
            assert(rest[j] == hs[j]);
        }
        b
    } else {
        let p = hs.last().log.records[key];
        assert(found.drop_last() =~= earlier);
        assert(found.last() == p);
        if earlier.len() == 0 {
            assert(latest(found.drop_last()) == -1);
            assert(latest(found) == found.len() - 1);
            assert forall|j: int| 0 <= j < hs.len() && (#[trigger] hs[j]).log.shows(key) implies j
                == hs.len() - 1 by {
                if j < hs.len() - 1 {
                    assert(rest[j].log.shows(key));
                }
            }
            hs.len() - 1
        } else {
            let b = lemma_latest_success(rest, key);
            lemma_latest(earlier);
            assert(hs[b] == rest[b]);
            assert(found[latest(earlier)] == earlier[latest(earlier)]);
            if earlier[latest(earlier)].timestamp > p.timestamp {
                assert(latest(found) == latest(earlier));
                assert forall|j: int|
                    0 <= j < hs.len() && (#[trigger] hs[j]).log.shows(key) implies hs[j].log.records[key].timestamp
                    <= hs[b].log.records[key].timestamp by {
                    if j < hs.len() - 1 {
                        assert(rest[j] == hs[j]);
                    }
                }
                assert forall|j: int|
                    b < j < hs.len() && (#[trigger] hs[j]).log.shows(key) implies hs[j].log.records[key].timestamp
                    < hs[b].log.records[key].timestamp by {
                    if j < hs.len() - 1 {
                        assert(rest[j] == hs[j]);
                    }
                }
                b
            } else {
                assert(latest(found) == found.len() - 1);
                assert forall|j: int|
                    0 <= j < hs.len() && (#[trigger] hs[j]).log.shows(key) implies hs[j].log.records[key].timestamp
                    <= p.timestamp by {
                    if j < hs.len() - 1 {
                        assert(rest[j] == hs[j]);
                    }
                }
                hs.len() - 1
            }
        }
    }
}

/// A read answers with the latest record of the key.
pub proof fn lemma_read_gives_latest(hs: Seq<HolderView>, key: u64, data: Payload)
    requires
        is_latest(hs, key, data),
    ensures
        get_result(hs, key) == Ok::<Payload, crate::error::ErrorKind>(data),
{
    let i = choose|i: int| is_latest_at(hs, key, data, i);
    lemma_successes(hs, key);
    assert(shown(hs, key));
    let b = lemma_latest_success(hs, key);
    if b != i {
        assert(hs[b].log.has(key));
        assert(hs[i].log.records[key].timestamp <= hs[b].log.records[key].timestamp);
    }
}

/// After a write that succeeded, the record written is the latest of its
/// key, provided that every record that the group held under the key before
/// was older, or as old and in a partition before the one written to.
pub proof fn lemma_put_makes_latest(hs: Seq<HolderView>, period: int, key: u64, data: Payload)
    requires
        in_order(hs, period),
        put_holders(hs, period, key, data).1 is None,
        older_records(hs, key, data.timestamp as int, landing(hs, period, data.timestamp as int)),
    ensures
        is_latest(put_holders(hs, period, key, data).0, key, data),
        get_result(put_holders(hs, period, key, data).0, key) == Ok::<
            Payload,
            crate::error::ErrorKind,
        >(data),
{
    let t = data.timestamp as int;
    let after = put_holders(hs, period, key, data).0;
    let at = landing(hs, period, t);
    lemma_covering(hs, t);
    if covering(hs, t) >= 0 {
        assert(is_latest_at(after, key, data, at)) by {
            assert forall|j: int|
                0 <= j < after.len() && j != at && (#[trigger] after[j]).log.has(key) implies {
                ||| after[j].log.records[key].timestamp < data.timestamp
                ||| (after[j].log.records[key].timestamp == data.timestamp && j < at)
            } by {
                assert(after[j] == hs[j]);
            }
        }
    } else {
        lemma_position_for(hs, period, align_down(t, period));
        assert(is_latest_at(after, key, data, at)) by {
            assert forall|j: int|
                0 <= j < after.len() && j != at && (#[trigger] after[j]).log.has(key) implies {
                ||| after[j].log.records[key].timestamp < data.timestamp
                ||| (after[j].log.records[key].timestamp == data.timestamp && j < at)
            } by {
                if j < at {
                    assert(after[j] == hs[j]);
                } else {
                    assert(after[j] == hs[j - 1]);
                    assert(hs[j - 1].log.has(key));
                }
            }
        }
    }
    lemma_read_gives_latest(after, key, data);
}

/// The latest record of a key stays the latest through a write of another
/// key, and through a write of the same key with an older timestamp.
pub proof fn lemma_put_keeps_latest(
    hs: Seq<HolderView>,
    period: int,
    key: u64,
    data: Payload,
    other_key: u64,
    other: Payload,
)
    requires
        in_order(hs, period),
        is_latest(hs, key, data),
        other_key != key || other.timestamp < data.timestamp,
    ensures
        is_latest(put_holders(hs, period, other_key, other).0, key, data),
        get_result(put_holders(hs, period, other_key, other).0, key) == Ok::<
            Payload,
            crate::error::ErrorKind,
        >(data),
{
    let i = choose|i: int| is_latest_at(hs, key, data, i);
    let t = other.timestamp as int;
    let after = put_holders(hs, period, other_key, other).0;
    lemma_covering(hs, t);
    let m = covering(hs, t);
    if m >= 0 {
        assert(is_latest_at(after, key, data, i)) by {
            assert forall|j: int|
                0 <= j < after.len() && j != i && (#[trigger] after[j]).log.has(key) implies {
                ||| after[j].log.records[key].timestamp < data.timestamp
                ||| (after[j].log.records[key].timestamp == data.timestamp && j < i)
            } by {
                if j != m {
                    assert(after[j] == hs[j]);
                } else if hs[j].log.has(key) {
                    assert(after[j].log.records[key] == hs[j].log.records[key]);
                }
            }
        }
    } else if window_fits(t, period) {
        let p = position_for(hs, align_down(t, period));
        lemma_position_for(hs, period, align_down(t, period));
        let moved = if i < p {
            i
        } else {
            i + 1
        };
        assert(after[moved] == hs[i]);
        assert(is_latest_at(after, key, data, moved)) by {
            assert forall|j: int|
                0 <= j < after.len() && j != moved && (#[trigger] after[j]).log.has(key) implies {
                ||| after[j].log.records[key].timestamp < data.timestamp
                ||| (after[j].log.records[key].timestamp == data.timestamp && j < moved)
            } by {
                if j < p {
                    assert(after[j] == hs[j]);
                } else if j > p {
                    assert(after[j] == hs[j - 1]);
                    assert(hs[j - 1].log.has(key));
                }
            }
        }
    } else {
        assert(is_latest_at(after, key, data, i));
    }
    lemma_read_gives_latest(after, key, data);
}

/// The latest record of a key stays the latest through a read of any key.
pub proof fn lemma_get_keeps_latest(hs: Seq<HolderView>, key: u64, data: Payload, other_key: u64)
    requires
        is_latest(hs, key, data),
    ensures
        is_latest(healed_by_read(hs, other_key), key, data),
{
    let i = choose|i: int| is_latest_at(hs, key, data, i);
    let after = healed_by_read(hs, other_key);
    assert(is_latest_at(after, key, data, i));
}

/// Of two writes of one key that succeeded, with different timestamps and in
/// either order, a read answers with the one of the greater timestamp,
/// provided that the group held no record of the key before.
pub proof fn lemma_two_writes(hs: Seq<HolderView>, period: int, key: u64, first: Payload, second: Payload)
    requires
        in_order(hs, period),
        forall|j: int| 0 <= j < hs.len() ==> !(#[trigger] hs[j]).log.has(key),
        first.timestamp != second.timestamp,
        put_holders(hs, period, key, first).1 is None,
        put_holders(put_holders(hs, period, key, first).0, period, key, second).1 is None,
    ensures
        get_result(
            put_holders(put_holders(hs, period, key, first).0, period, key, second).0,
            key,
        ) == Ok::<Payload, crate::error::ErrorKind>(
            if first.timestamp < second.timestamp {
                second
            } else {
                first
            },
        ),
{
    let between = put_holders(hs, period, key, first).0;
    lemma_put_in_order(hs, period, key, first);
    lemma_put_makes_latest(hs, period, key, first);
    if first.timestamp < second.timestamp {
        let i = choose|i: int| is_latest_at(between, key, first, i);
        assert(older_records(
            between,
            key,
            second.timestamp as int,
            landing(between, period, second.timestamp as int),
        )) by {
            assert forall|j: int| 0 <= j < between.len() && (#[trigger] between[j]).log.has(key) implies {
                ||| between[j].log.records[key].timestamp < second.timestamp as int
                ||| (between[j].log.records[key].timestamp == second.timestamp as int && j < landing(
                    between,
                    period,
                    second.timestamp as int,
                ))
            } by {
                if j != i {
                    assert(between[j].log.records[key].timestamp <= first.timestamp);
                }
            }
        }
        lemma_put_makes_latest(between, period, key, second);
    } else {
        lemma_put_keeps_latest(between, period, key, first, key, second);
    }
}

/// In a group whose partitions are all ready, a key is shown exactly when
/// at least one partition holds it.
pub proof fn lemma_shown_when_ready(hs: Seq<HolderView>, key: u64)
    requires
        forall|i: int| 0 <= i < hs.len() ==> (#[trigger] hs[i]).log.is_ready(),
    ensures
        shown(hs, key) <==> exists|i: int| 0 <= i < hs.len() && (#[trigger] hs[i]).log.has(key),
{
    if shown(hs, key) {
        let i = choose|i: int| 0 <= i < hs.len() && (#[trigger] hs[i]).log.shows(key);
        assert(hs[i].log.has(key));
    }
    if exists|i: int| 0 <= i < hs.len() && (#[trigger] hs[i]).log.has(key) {
        let i = choose|i: int| 0 <= i < hs.len() && (#[trigger] hs[i]).log.has(key);
        assert(hs[i].log.shows(key));
    }
}

/// True when two lists of groups have the same groups but for their partitions.
pub open spec fn same_groups(a: Seq<GroupView>, b: Seq<GroupView>) -> bool {
    &&& a.len() == b.len()
    &&& forall|i: int| 0 <= i < a.len() ==> (#[trigger] b[i]).with_holders(a[i].holders) == a[i]
}

/// An operation goes to the same group whatever the partitions of the groups.
pub proof fn lemma_serving_same_groups(a: Seq<GroupView>, b: Seq<GroupView>, op: OperationView, from: int)
    requires
        same_groups(a, b),
        0 <= from <= a.len(),
    ensures
        serving(a, op, from) == serving(b, op, from),
    decreases a.len() - from,
{
    if from < a.len() {
        assert(b[from].with_holders(a[from].holders) == a[from]);
        assert(a[from].serves(op) == b[from].serves(op));
        if !a[from].serves(op) {
            lemma_serving_same_groups(a, b, op, from + 1);
        }
    }
}

/// What a write does to a list of groups: the group that the operation goes
/// to becomes what the write makes of it, every other group stays, and the
/// ordered lists stay ordered.
pub proof fn lemma_put_in(groups: Seq<GroupView>, op: OperationView, key: u64, data: Payload)
    requires
        forall|i: int| 0 <= i < groups.len() ==> in_order((#[trigger] groups[i]).holders, groups[i].period),
    ensures
        same_groups(groups, put_in(groups, op, key, data).0),
        forall|i: int|
            0 <= i < groups.len() ==> in_order(
                (#[trigger] put_in(groups, op, key, data).0[i]).holders,
                groups[i].period,
            ),
        forall|i: int|
            0 <= i < groups.len() && i != serving(groups, op, 0) ==> #[trigger] put_in(
                groups,
                op,
                key,
                data,
            ).0[i] == groups[i],
{
    let i = serving(groups, op, 0);
    let after = put_in(groups, op, key, data).0;
    crate::pearl::lemma_serving(groups, op, 0);
    if i < groups.len() {
        lemma_put_in_order(groups[i].holders, groups[i].period, key, data);
    }
    assert forall|k: int| 0 <= k < groups.len() implies in_order(
        (#[trigger] after[k]).holders,
        groups[k].period,
    ) by {
        if k != i {
            assert(after[k] == groups[k]);
        }
    }
}

/// A write of alien data leaves the groups of alien data ordered.
pub proof fn lemma_put_alien_in(
    groups: Seq<GroupView>,
    settings: crate::settings::SettingsView,
    op: OperationView,
    key: u64,
    data: Payload,
)
    requires
        0 < settings.period <= i64::MAX,
        forall|i: int| 0 <= i < groups.len() ==> in_order((#[trigger] groups[i]).holders, groups[i].period),
    ensures
        forall|i: int|
            0 <= i < put_alien_in(groups, settings, op, key, data).0.len() ==> in_order(
                (#[trigger] put_alien_in(groups, settings, op, key, data).0[i]).holders,
                put_alien_in(groups, settings, op, key, data).0[i].period,
            ),
{
    let after = put_alien_in(groups, settings, op, key, data).0;
    if serving(groups, op, 0) < groups.len() {
        lemma_put_in(groups, op, key, data);
        assert forall|i: int| 0 <= i < after.len() implies in_order(
            (#[trigger] after[i]).holders,
            after[i].period,
        ) by {
            assert(after[i].with_holders(groups[i].holders) == groups[i]);
        }
    } else {
        match op.remote_node_name {
            None => {},
            Some(name) => {
                let made = empty_group(
                    op.vdisk_id,
                    name,
                    settings.alien_disk,
                    spec_alien_path(settings.alien_folder, name, op.vdisk_id),
                    settings.period,
                );
                assert(in_order(made.holders, made.period));
                lemma_put_in_order(made.holders, made.period, key, data);
                assert forall|i: int| 0 <= i < after.len() implies in_order(
                    (#[trigger] after[i]).holders,
                    after[i].period,
                ) by {
                    if i < groups.len() {
                        assert(after[i] == groups[i]);
                    }
                }
            },
        }
    }
}

/// After a write request without remote nodes that succeeded, a read
/// request for the node's own data answers with the payload written,
/// provided that every record that the key's group held under the key
/// before was older, or as old and in a partition before the one written to.
pub proof fn lemma_backend_put_then_get(
    e: EngineView,
    mapper: Virtual,
    key: BobKey,
    data: Payload,
    put_options: BobOptions,
    get_options: BobOptions,
)
    requires
        engine_in_order(e),
        put_options.remote_nodes@.len() == 0,
        get_options.spec_get_normal(),
        backend_put(StorageView::Pearl(e), mapper, key, data, put_options).1 is None,
        mapper.spec_get_operation(key).1 matches Some(path) ==> {
            let op = local_operation(mapper.spec_get_operation(key).0, path);
            let i = serving(e.normal, op, 0);
            i < e.normal.len() ==> older_records(
                e.normal[i].holders,
                key.key,
                data.timestamp as int,
                landing(e.normal[i].holders, e.normal[i].period, data.timestamp as int),
            )
        },
    ensures
        backend_get(
            backend_put(StorageView::Pearl(e), mapper, key, data, put_options).0,
            mapper,
            key,
            get_options,
        ).1 == Ok::<Payload, ErrorKind>(data),
        latest_in_own_group(
            backend_put(StorageView::Pearl(e), mapper, key, data, put_options).0,
            mapper,
            key,
            data,
        ),
{
    let (vdisk_id, disk_path) = mapper.spec_get_operation(key);
    let path = disk_path->0;
    let op = local_operation(vdisk_id, path);
    let i = serving(e.normal, op, 0);
    crate::pearl::lemma_serving(e.normal, op, 0);
    let after = put_in(e.normal, op, key.key, data).0;
    lemma_put_in(e.normal, op, key.key, data);
    lemma_serving_same_groups(e.normal, after, op, 0);
    lemma_put_makes_latest(e.normal[i].holders, e.normal[i].period, key.key, data);
}

/// True when the storage is the time-partitioned engine, this node holds a
/// replica of the key's virtual disk, and `data` is the latest record of
/// the key in the group of the node's own data that the key goes to.
pub open spec fn latest_in_own_group(storage: StorageView, mapper: Virtual, key: BobKey, data: Payload) -> bool {
    &&& storage matches StorageView::Pearl(e)
    &&& mapper.spec_get_operation(key).1 matches Some(path)
    &&& serving(e.normal, local_operation(mapper.spec_get_operation(key).0, path), 0)
        < e.normal.len()
    &&& is_latest(
        e.normal[serving(
            e.normal,
            local_operation(mapper.spec_get_operation(key).0, path),
            0,
        )].holders,
        key.key,
        data,
    )
}

/// A read request for the node's own data answers with the latest record
/// of the key in the group that the key goes to.
pub proof fn lemma_backend_get_reads_latest(
    storage: StorageView,
    mapper: Virtual,
    key: BobKey,
    data: Payload,
    options: BobOptions,
)
    requires
        options.spec_get_normal(),
        latest_in_own_group(storage, mapper, key, data),
    ensures
        backend_get(storage, mapper, key, options).1 == Ok::<Payload, ErrorKind>(data),
        latest_in_own_group(backend_get(storage, mapper, key, options).0, mapper, key, data),
{
    let e = storage->Pearl_0;
    let path = mapper.spec_get_operation(key).1->0;
    let op = local_operation(mapper.spec_get_operation(key).0, path);
    let i = serving(e.normal, op, 0);
    crate::pearl::lemma_serving(e.normal, op, 0);
    lemma_read_gives_latest(e.normal[i].holders, key.key, data);
    lemma_get_keeps_latest(e.normal[i].holders, key.key, data, key.key);
    let after = get_in(e.normal, op, key.key).0;
    assert(same_groups(e.normal, after)) by {
        assert forall|k: int| 0 <= k < e.normal.len() implies (#[trigger] after[k]).with_holders(
            e.normal[k].holders,
        ) == e.normal[k] by {
            if k != i {
                assert(after[k] == e.normal[k]);
            }
        }
    }
    lemma_serving_same_groups(e.normal, after, op, 0);
}

/// The latest record of a key in the group of the node's own data that
/// the key goes to stays the latest through a write request for another
/// key, and through one for the same key with an older timestamp; a read
/// request for the node's own data then still answers with it.
pub proof fn lemma_backend_put_keeps_answer(
    e: EngineView,
    mapper: Virtual,
    key: BobKey,
    data: Payload,
    other_key: BobKey,
    other: Payload,
    put_options: BobOptions,
    get_options: BobOptions,
)
    requires
        engine_in_order(e),
        0 < e.settings.period <= i64::MAX,
        get_options.spec_get_normal(),
        latest_in_own_group(StorageView::Pearl(e), mapper, key, data),
        other_key != key || other.timestamp < data.timestamp,
    ensures
        latest_in_own_group(
            backend_put(StorageView::Pearl(e), mapper, other_key, other, put_options).0,
            mapper,
            key,
            data,
        ),
        backend_get(
            backend_put(StorageView::Pearl(e), mapper, other_key, other, put_options).0,
            mapper,
            key,
            get_options,
        ).1 == Ok::<Payload, ErrorKind>(data),
{
    let path = mapper.spec_get_operation(key).1->0;
    let op = local_operation(mapper.spec_get_operation(key).0, path);
    let i = serving(e.normal, op, 0);
    crate::pearl::lemma_serving(e.normal, op, 0);
    lemma_backend_put_touches_one_group(e, mapper, other_key, other, put_options);
    lemma_backend_put_keeps_latest(e, mapper, i, key.key, data, other_key, other, put_options);
    let after = backend_put(StorageView::Pearl(e), mapper, other_key, other, put_options).0;
    lemma_serving_same_groups(e.normal, after->Pearl_0.normal, op, 0);
    lemma_backend_get_reads_latest(after, mapper, key, data, get_options);
}

/// A write request leaves the groups of the node's own data as they are but
/// for the partitions of one group, which it leaves as a write of the
/// request's key and payload leaves them, or as they were; and it leaves
/// the engine ordered.
pub proof fn lemma_backend_put_touches_one_group(
    e: EngineView,
    mapper: Virtual,
    key: BobKey,
    data: Payload,
    options: BobOptions,
)
    requires
        engine_in_order(e),
        0 < e.settings.period <= i64::MAX,
    ensures
        backend_put(StorageView::Pearl(e), mapper, key, data, options).0 matches StorageView::Pearl(
            after,
        ) && {
            &&& engine_in_order(after)
            &&& after.settings == e.settings
            &&& same_groups(e.normal, after.normal)
            &&& forall|i: int|
                0 <= i < e.normal.len() ==> (#[trigger] after.normal[i]).holders
                    == e.normal[i].holders || after.normal[i].holders == put_holders(
                    e.normal[i].holders,
                    e.normal[i].period,
                    key.key,
                    data,
                ).0
        },
{
    let (vdisk_id, disk_path) = mapper.spec_get_operation(key);
    if options.remote_nodes@.len() > 0 {
        lemma_put_remote(e, vdisk_id, options.remote_nodes@, key.key, data, 0);
    } else {
        match disk_path {
            Some(path) => {
                let op = local_operation(vdisk_id, path);
                lemma_put_in(e.normal, op, key.key, data);
                let (normal, refused) = put_in(e.normal, op, key.key, data);
                assert forall|i: int| 0 <= i < e.normal.len() implies in_order(
                    (#[trigger] normal[i]).holders,
                    normal[i].period,
                ) by {
                    assert(normal[i].with_holders(e.normal[i].holders) == e.normal[i]);
                }
                match refused {
                    Some(kind) => {
                        if kind.write_needs_alien() {
                            let fallback = OperationView {
                                disk_path: None,
                                remote_node_name: Some(mapper.spec_local_node_name()),
                                ..op
                            };
                            lemma_put_alien_in(e.alien, e.settings, fallback, key.key, data);
                        }
                    },
                    None => {},
                }
            },
            None => {},
        }
    }
}

/// Writes of alien data for the nodes named from position `from` on leave
/// the groups of the node's own data as they are, and the engine ordered.
pub proof fn lemma_put_remote(
    e: EngineView,
    vdisk_id: crate::data::VDiskId,
    nodes: Seq<String>,
    key: u64,
    data: Payload,
    from: int,
)
    requires
        engine_in_order(e),
        0 < e.settings.period <= i64::MAX,
        0 <= from <= nodes.len(),
    ensures
        put_remote(StorageView::Pearl(e), vdisk_id, nodes, key, data, from).0 matches StorageView::Pearl(
            after,
        ) && engine_in_order(after) && after.normal == e.normal && after.settings == e.settings,
    decreases nodes.len() - from,
{
    if from < nodes.len() {
        let op = crate::backend::alien_operation(vdisk_id, Some(nodes[from]@));
        lemma_put_alien_in(e.alien, e.settings, op, key, data);
        let (alien, refused) = put_alien_in(e.alien, e.settings, op, key, data);
        let between = EngineView { alien, ..e };
        if refused is None {
            lemma_put_remote(between, vdisk_id, nodes, key, data, from + 1);
        }
    }
}

/// The latest record of a key in a group of the node's own data stays the
/// latest through a write request for another key, and through one for the
/// same key with an older timestamp.
pub proof fn lemma_backend_put_keeps_latest(
    e: EngineView,
    mapper: Virtual,
    group: int,
    key: u64,
    data: Payload,
    other_key: BobKey,
    other: Payload,
    options: BobOptions,
)
    requires
        engine_in_order(e),
        0 < e.settings.period <= i64::MAX,
        0 <= group < e.normal.len(),
        is_latest(e.normal[group].holders, key, data),
        other_key.key != key || other.timestamp < data.timestamp,
    ensures
        backend_put(StorageView::Pearl(e), mapper, other_key, other, options).0 matches StorageView::Pearl(
            after,
        ) && group < after.normal.len() && is_latest(after.normal[group].holders, key, data),
{
    lemma_backend_put_touches_one_group(e, mapper, other_key, other, options);
    lemma_put_keeps_latest(
        e.normal[group].holders,
        e.normal[group].period,
        key,
        data,
        other_key.key,
        other,
    );
}

/// Of two write requests without remote nodes for one key that succeeded,
/// with different timestamps and in either order, a read request for the
/// node's own data answers with the one of the greater timestamp, provided
/// that the key's group held no record of the key before.
pub proof fn lemma_backend_two_writes(
    e: EngineView,
    mapper: Virtual,
    key: BobKey,
    first: Payload,
    second: Payload,
    put_options: BobOptions,
    get_options: BobOptions,
)
    requires
        engine_in_order(e),
        0 < e.settings.period <= i64::MAX,
        put_options.remote_nodes@.len() == 0,
        get_options.spec_get_normal(),
        first.timestamp != second.timestamp,
        backend_put(StorageView::Pearl(e), mapper, key, first, put_options).1 is None,
        backend_put(
            backend_put(StorageView::Pearl(e), mapper, key, first, put_options).0,
            mapper,
            key,
            second,
            put_options,
        ).1 is None,
        mapper.spec_get_operation(key).1 matches Some(path) ==> {
            let op = local_operation(mapper.spec_get_operation(key).0, path);
            let i = serving(e.normal, op, 0);
            i < e.normal.len() ==> forall|j: int|
                0 <= j < e.normal[i].holders.len() ==> !(#[trigger] e.normal[i].holders[j]).log.has(
                    key.key,
                )
        },
    ensures
        backend_get(
            backend_put(
                backend_put(StorageView::Pearl(e), mapper, key, first, put_options).0,
                mapper,
                key,
                second,
                put_options,
            ).0,
            mapper,
            key,
            get_options,
        ).1 == Ok::<Payload, ErrorKind>(
            if first.timestamp < second.timestamp {
                second
            } else {
                first
            },
        ),
{
    let path = mapper.spec_get_operation(key).1->0;
    let op = local_operation(mapper.spec_get_operation(key).0, path);
    crate::pearl::lemma_serving(e.normal, op, 0);
    lemma_backend_put_then_get(e, mapper, key, first, put_options, get_options);
    lemma_backend_put_touches_one_group(e, mapper, key, first, put_options);
    let between = backend_put(StorageView::Pearl(e), mapper, key, first, put_options).0->Pearl_0;
    if first.timestamp < second.timestamp {
        let i = serving(between.normal, op, 0);
        let at = choose|at: int| is_latest_at(between.normal[i].holders, key.key, first, at);
        assert(older_records(
            between.normal[i].holders,
            key.key,
            second.timestamp as int,
            landing(between.normal[i].holders, between.normal[i].period, second.timestamp as int),
        )) by {
            assert forall|j: int|
                0 <= j < between.normal[i].holders.len() && (
                #[trigger] between.normal[i].holders[j]).log.has(key.key) implies between.normal[i].holders[j].log.records[key.key].timestamp
                < second.timestamp as int by {
                if j != at {
                    assert(between.normal[i].holders[j].log.records[key.key].timestamp
                        <= first.timestamp);
                }
            }
        }
        lemma_backend_put_then_get(between, mapper, key, second, put_options, get_options);
    } else {
        lemma_backend_put_keeps_answer(
            between,
            mapper,
            key,
            first,
            key,
            second,
            put_options,
            get_options,
        );
    }
}

/// A presence check answers `true` for a key exactly when a ready
/// partition of the group that the key is looked for in holds the key.
pub proof fn lemma_backend_exist(e: EngineView, mapper: Virtual, key: BobKey, options: BobOptions)
    ensures
        backend_exist(StorageView::Pearl(e), mapper, key, options) <==> (operation_for(
            mapper,
            key,
            options,
        ) matches Some(op) && {
            let groups = if op.disk_path is None {
                e.alien
            } else {
                e.normal
            };
            serving(groups, op, 0) < groups.len() && shown(
                groups[serving(groups, op, 0)].holders,
                key.key,
            )
        }),
{
}

/// The alien group that the fallback of a failed local write makes lies
/// under the alien folder, in the directory of this node and of the
/// virtual disk, and the partition written to lies in it under the start
/// of its window.
pub proof fn lemma_fallback_directory(
    groups: Seq<GroupView>,
    settings: crate::settings::SettingsView,
    local_node: Seq<char>,
    op: OperationView,
    key: u64,
    data: Payload,
)
    requires
        0 < settings.period <= i64::MAX,
        window_fits(data.timestamp as int, settings.period),
        serving(
            groups,
            OperationView { disk_path: None, remote_node_name: Some(local_node), ..op },
            0,
        ) == groups.len(),
    ensures
        ({
            let fallback = OperationView {
                disk_path: None,
                remote_node_name: Some(local_node),
                ..op
            };
            let after = put_alien_in(groups, settings, fallback, key, data).0;
            let made = after[groups.len() as int];
            &&& put_alien_in(groups, settings, fallback, key, data).1 is None
            &&& after.len() == groups.len() + 1
            &&& made.directory_path == spec_alien_path(settings.alien_folder, local_node, op.vdisk_id)
            &&& made.holders.len() == 1
            &&& made.holders[0].start == align_down(data.timestamp as int, settings.period)
            &&& made.holders[0].directory == crate::decimal::int_text(made.holders[0].start)
            &&& made.holders[0].log.records.contains_key(key)
            &&& spec_holder_path(made.directory_path, made.holders[0].start)
                == settings.alien_folder + local_node + seq!['/'] + crate::decimal::int_text(
                op.vdisk_id.spec_as_u32() as int,
            ) + seq!['/'] + crate::decimal::int_text(
                align_down(data.timestamp as int, settings.period),
            ) + seq!['/']
        }),
{
    let empty = Seq::<HolderView>::empty();
    assert(covering(empty, data.timestamp as int) == -1);
    assert(position_for(empty, align_down(data.timestamp as int, settings.period)) == 0);
}

/// The operation under which a record is written as alien data after its
/// local write failed: the alien one on the same virtual disk, under the
/// name of this node.
pub open spec fn fallback_operation(op: OperationView, local_node: Seq<char>) -> OperationView {
    OperationView { disk_path: None, remote_node_name: Some(local_node), ..op }
}

/// A local write that the engine refuses for another reason than a
/// duplicate key is followed by one alien write of the same key and payload,
/// on the same virtual disk and under the name of this node, and ends with
/// the error of the local write. Where this node has no alien group for
/// that virtual disk yet, the group is made in the alien folder, in the
/// directory of this node and of the virtual disk, and the record lies in
/// the partition whose directory is named by the start of its window.
pub proof fn lemma_failed_local_write_goes_alien(
    e: EngineView,
    local_node: Seq<char>,
    op: OperationView,
    key: u64,
    data: Payload,
)
    requires
        op.disk_path is Some,
        0 < e.settings.period <= i64::MAX,
        e.put(op, key, data).1 matches Some(kind) && kind.write_needs_alien(),
    ensures
        put_single(StorageView::Pearl(e), local_node, op, key, data) == (
            StorageView::Pearl(
                EngineView {
                    normal: put_in(e.normal, op, key, data).0,
                    alien: put_alien_in(
                        e.alien,
                        e.settings,
                        fallback_operation(op, local_node),
                        key,
                        data,
                    ).0,
                    ..e
                },
            ),
            e.put(op, key, data).1,
        ),
        window_fits(data.timestamp as int, e.settings.period) && serving(
            e.alien,
            fallback_operation(op, local_node),
            0,
        ) == e.alien.len() ==> ({
            let after = put_alien_in(
                e.alien,
                e.settings,
                fallback_operation(op, local_node),
                key,
                data,
            ).0;
            let made = after[e.alien.len() as int];
            &&& after.len() == e.alien.len() + 1
            &&& made.node_name == local_node
            &&& made.vdisk_id == op.vdisk_id
            &&& made.directory_path == spec_alien_path(
                e.settings.alien_folder,
                local_node,
                op.vdisk_id,
            )
            &&& made.holders.len() == 1
            &&& made.holders[0].start == align_down(data.timestamp as int, e.settings.period)
            &&& made.directory_path + made.holders[0].directory + seq!['/'] == spec_holder_path(
                spec_alien_path(e.settings.alien_folder, local_node, op.vdisk_id),
                align_down(data.timestamp as int, e.settings.period),
            )
            &&& made.holders[0].log.records.contains_key(key)
            &&& made.holders[0].log.records[key] == data
        }),
{
    if window_fits(data.timestamp as int, e.settings.period) && serving(
        e.alien,
        fallback_operation(op, local_node),
        0,
    ) == e.alien.len() {
        lemma_fallback_directory(e.alien, e.settings, local_node, op, key, data);
    }
}

/// Attaching a partition of a virtual disk and then detaching it leaves the
/// groups as they were, provided that the group of the virtual disk had no
/// partition with that start before.
pub proof fn lemma_engine_attach_then_detach(groups: Seq<GroupView>, vdisk: u32, start: int)
    requires
        forall|i: int| 0 <= i < groups.len() ==> in_order((#[trigger] groups[i]).holders, groups[i].period),
        group_of_vdisk(groups, vdisk, 0) < groups.len() ==> index_of_start(
            groups[group_of_vdisk(groups, vdisk, 0)].holders,
            start,
        ) < 0,
    ensures
        change_partition(change_partition(groups, vdisk, start, true).0, vdisk, start, false).0
            == groups,
{
    let i = group_of_vdisk(groups, vdisk, 0);
    lemma_group_of_vdisk(groups, vdisk, 0);
    if i < groups.len() {
        let attached = change_partition(groups, vdisk, start, true).0;
        lemma_attach_then_detach(groups[i].holders, groups[i].period, start);
        lemma_group_of_vdisk_same(groups, attached, vdisk, 0);
        assert(change_partition(attached, vdisk, start, false).0 =~= groups);
    }
}

/// What `group_of_vdisk` finds lies within the list.
pub proof fn lemma_group_of_vdisk(groups: Seq<GroupView>, vdisk: u32, from: int)
    requires
        0 <= from <= groups.len(),
    ensures
        from <= group_of_vdisk(groups, vdisk, from) <= groups.len(),
    decreases groups.len() - from,
{
    if from < groups.len() && groups[from].vdisk_id.spec_as_u32() != vdisk {
        lemma_group_of_vdisk(groups, vdisk, from + 1);
    }
}

/// The group of a virtual disk is the same whatever the partitions of the groups.
pub proof fn lemma_group_of_vdisk_same(a: Seq<GroupView>, b: Seq<GroupView>, vdisk: u32, from: int)
    requires
        same_groups(a, b),
        0 <= from <= a.len(),
    ensures
        group_of_vdisk(a, vdisk, from) == group_of_vdisk(b, vdisk, from),
    decreases a.len() - from,
{
    if from < a.len() {
        assert(b[from].with_holders(a[from].holders) == a[from]);
        if a[from].vdisk_id.spec_as_u32() != vdisk {
            lemma_group_of_vdisk_same(a, b, vdisk, from + 1);
        }
    }
}

} // verus!
