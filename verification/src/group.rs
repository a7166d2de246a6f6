//! The time partitions of one virtual disk on one disk, in the order of their
//! windows, and the reads and writes that go through them.

use crate::data::{BobData, BobKey, Payload, VDiskId};
use crate::error::{failure_kind, Error, ErrorKind};
use crate::holder::{HolderState, HolderView, LogView, PearlHolder, PearlTimestampHolder};
use crate::operation::{BackendGetResult, BackendOperation, BackendPutResult, GetResult, PutResult};
use crate::settings::{
    align_down, choose_data, holders_from_names, latest, lemma_align_down,
    lemma_holders_from_names, payloads_of, window_fits, window_in_range, Settings,
};
use crate::text::str_equal;
use std::sync::Arc;
use vstd::arithmetic::div_mod::lemma_fundamental_div_mod;
use vstd::prelude::*;
use vstd::string::*;

verus! {

/// True for the list of partitions of a group: each is a window of length
/// `period`, and they stand in the order of their starts, no start twice.
/// Windows of partitions found on disk may overlap; those of the partitions
/// made for a timestamp do not.
pub open spec fn in_order(hs: Seq<HolderView>, period: int) -> bool {
    &&& 0 < period <= i64::MAX
    &&& forall|i: int| 0 <= i < hs.len() ==> (#[trigger] hs[i]).is_window() && hs[i].period() == period
    &&& forall|i: int, j: int| 0 <= i < j < hs.len() ==> (#[trigger] hs[i]).start < (#[trigger] hs[j]).start
}

/// The position of the newest partition whose window holds `t`; -1 if there is none.
pub open spec fn covering(hs: Seq<HolderView>, t: int) -> int
    decreases hs.len(),
{
    if hs.len() == 0 {
        -1
    } else if hs.last().covers(t) {
        hs.len() - 1
    } else {
        covering(hs.drop_last(), t)
    }
}

/// The position of the partition that starts at `start`; -1 if there is none.
pub open spec fn index_of_start(hs: Seq<HolderView>, start: int) -> int
    decreases hs.len(),
{
    if hs.len() == 0 {
        -1
    } else if hs.last().start == start {
        hs.len() - 1
    } else {
        index_of_start(hs.drop_last(), start)
    }
}

/// The position at which a partition that starts at `start` enters the list:
/// behind the last partition that starts earlier.
pub open spec fn position_for(hs: Seq<HolderView>, start: int) -> int
    decreases hs.len(),
{
    if hs.len() == 0 {
        0
    } else if hs.last().start < start {
        hs.len() as int
    } else {
        position_for(hs.drop_last(), start)
    }
}

/// The payloads that the ready partitions hold under `key`, in the order of the list.
pub open spec fn successes(hs: Seq<HolderView>, key: u64) -> Seq<Payload>
    decreases hs.len(),
{
    if hs.len() == 0 {
        Seq::empty()
    } else if hs.last().log.shows(key) {
        successes(hs.drop_last(), key).push(hs.last().log.records[key])
    } else {
        successes(hs.drop_last(), key)
    }
}

/// True when every partition is ready and holds nothing under `key`.
pub open spec fn all_missing(hs: Seq<HolderView>, key: u64) -> bool {
    forall|i: int| 0 <= i < hs.len() ==> (#[trigger] hs[i]).log.is_ready() && !hs[i].log.has(key)
}

/// True when at least one ready partition holds a record under `key`.
pub open spec fn shown(hs: Seq<HolderView>, key: u64) -> bool {
    exists|i: int| 0 <= i < hs.len() && (#[trigger] hs[i]).log.shows(key)
}

/// A partition that was made for a write or attached: ready, over the window
/// that starts at `start`, in the directory named by `start` in decimal,
/// with the given records.
pub open spec fn ready_holder(start: int, period: int, records: Map<u64, Payload>) -> HolderView {
    HolderView {
        start,
        end: start + period,
        directory: crate::decimal::int_text(start),
        log: LogView { state: HolderState::Ready, failure: Seq::empty(), records },
    }
}

/// What a write does to the list, and the kind of error it ends with, if any.
/// The record goes to the partition whose window holds its timestamp. If
/// there is none, one is made, opened and put in its place in the order;
/// where its window would leave the range of the timestamps the write fails.
pub open spec fn put_holders(hs: Seq<HolderView>, period: int, key: u64, data: Payload) -> (
    Seq<HolderView>,
    Option<ErrorKind>,
) {
    let t = data.timestamp as int;
    let i = covering(hs, t);
    if i >= 0 {
        let (log, refused) = hs[i].log.write_and_heal(key, data);
        (hs.update(i, hs[i].with_log(log)), refused)
    } else if window_fits(t, period) {
        let start = align_down(t, period);
        let fresh = ready_holder(start, period, Map::<u64, Payload>::empty().insert(key, data));
        (hs.insert(position_for(hs, start), fresh), None)
    } else {
        (hs, Some(ErrorKind::Failed))
    }
}

/// The text of the failure that the log of the partition reported which takes
/// the writes of the timestamp `t`: the text that a storage error carries
/// with which such a write is refused.
pub open spec fn refusal_text(hs: Seq<HolderView>, t: int) -> Seq<char> {
    hs[covering(hs, t)].log.failure
}

/// What a read answers: the latest of the payloads that the ready partitions
/// hold under the key; if there is none, `KeyNotFound` when every partition
/// is ready and misses the key, else `Failed`.
pub open spec fn get_result(hs: Seq<HolderView>, key: u64) -> Result<Payload, ErrorKind> {
    let found = successes(hs, key);
    if found.len() > 0 {
        Ok(found[latest(found)])
    } else if all_missing(hs, key) {
        Err(ErrorKind::KeyNotFound)
    } else {
        Err(ErrorKind::Failed)
    }
}

/// The list after a read: each log restarted where its refusal asked for it.
pub open spec fn healed_by_read(hs: Seq<HolderView>, key: u64) -> Seq<HolderView> {
    Seq::new(hs.len(), |i: int| hs[i].with_log(hs[i].log.healed_by_read(key)))
}

/// What attaching the partition that starts at `start` does to the list: it
/// enters, ready and empty, at its place in the order. Attaching fails, and
/// the list stays, where a partition with that start is there already, or
/// where its window would end beyond the timestamps of 64 bits.
pub open spec fn attach_holders(hs: Seq<HolderView>, period: int, start: int) -> (
    Seq<HolderView>,
    Option<ErrorKind>,
) {
    if index_of_start(hs, start) >= 0 || !window_in_range(start, period) {
        (hs, Some(ErrorKind::Failed))
    } else {
        (hs.insert(position_for(hs, start), ready_holder(start, period, Map::empty())), None)
    }
}

/// What detaching the partition that starts at `start` does to the list: the
/// partition leaves it. Detaching fails, and the list stays, where no
/// partition starts at `start`.
pub open spec fn detach_holders(hs: Seq<HolderView>, start: int) -> (
    Seq<HolderView>,
    Option<ErrorKind>,
) {
    let i = index_of_start(hs, start);
    if i < 0 {
        (hs, Some(ErrorKind::Failed))
    } else {
        (hs.remove(i), None)
    }
}

/// Two multiples of the period that differ are at least a period apart.
pub proof fn lemma_multiples_apart(a: int, b: int, period: int)
    requires
        period > 0,
        a % period == 0,
        b % period == 0,
        a < b,
    ensures
        a + period <= b,
{
    lemma_fundamental_div_mod(a, period);
    lemma_fundamental_div_mod(b, period);
    let qa = a / period;
    let qb = b / period;
    assert(qa < qb) by (nonlinear_arith)
        requires
            period > 0,
            period * qa < period * qb,
    ;
    assert(period * qa + period <= period * qb) by (nonlinear_arith)
        requires
            period > 0,
            qa + 1 <= qb,
    ;
}

/// What `covering` finds: a partition whose window holds `t`, if there is one.
pub proof fn lemma_covering(hs: Seq<HolderView>, t: int)
    ensures
        -1 <= covering(hs, t) < hs.len(),
        covering(hs, t) >= 0 ==> hs[covering(hs, t)].covers(t),
        covering(hs, t) < 0 ==> forall|i: int| 0 <= i < hs.len() ==> !(#[trigger] hs[i]).covers(t),
        forall|i: int| covering(hs, t) < i < hs.len() ==> !(#[trigger] hs[i]).covers(t),
    decreases hs.len(),
{
    if hs.len() > 0 && !hs.last().covers(t) {
        lemma_covering(hs.drop_last(), t);
        assert forall|i: int| covering(hs, t) < i < hs.len() implies !(#[trigger] hs[i]).covers(
            t,
        ) by {
            if i < hs.len() - 1 {
                assert(hs[i] == hs.drop_last()[i]);
            }
        }
        if covering(hs, t) < 0 {
            assert forall|i: int| 0 <= i < hs.len() implies !(#[trigger] hs[i]).covers(t) by {
                if i < hs.len() - 1 {
                    assert(hs[i] == hs.drop_last()[i]);
                }
            }
        }
    }
}

/// What `index_of_start` finds: the partition that starts at `start`, if there is one.
pub proof fn lemma_index_of_start(hs: Seq<HolderView>, start: int)
    ensures
        -1 <= index_of_start(hs, start) < hs.len(),
        index_of_start(hs, start) >= 0 ==> hs[index_of_start(hs, start)].start == start,
        index_of_start(hs, start) < 0 ==> forall|i: int|
            0 <= i < hs.len() ==> (#[trigger] hs[i]).start != start,
    decreases hs.len(),
{
    if hs.len() > 0 && hs.last().start != start {
        lemma_index_of_start(hs.drop_last(), start);
        if index_of_start(hs, start) < 0 {
            assert forall|i: int| 0 <= i < hs.len() implies (#[trigger] hs[i]).start != start by {
                if i < hs.len() - 1 {
                    assert(hs[i] == hs.drop_last()[i]);
                }
            }
        }
    }
}

/// In an ordered list the partition at position `i` is the one that
/// `index_of_start` finds for its start.
pub proof fn lemma_index_of_start_is(hs: Seq<HolderView>, period: int, i: int)
    requires
        in_order(hs, period),
        0 <= i < hs.len(),
    ensures
        index_of_start(hs, hs[i].start) == i,
{
    lemma_index_of_start(hs, hs[i].start);
    let found = index_of_start(hs, hs[i].start);
    if found < i {
        assert(hs[found].start < hs[i].start);
    } else if found > i {
        assert(hs[i].start < hs[found].start);
    }
}

/// What `position_for` finds in an ordered list: the partitions before it
/// start earlier than `start`, those from it on do not.
pub proof fn lemma_position_for(hs: Seq<HolderView>, period: int, start: int)
    requires
        in_order(hs, period),
    ensures
        0 <= position_for(hs, start) <= hs.len(),
        forall|i: int| 0 <= i < position_for(hs, start) ==> (#[trigger] hs[i]).start < start,
        forall|i: int| position_for(hs, start) <= i < hs.len() ==> (#[trigger] hs[i]).start >= start,
    decreases hs.len(),
{
    if hs.len() > 0 {
        if hs.last().start < start {
            assert forall|i: int| 0 <= i < hs.len() implies (#[trigger] hs[i]).start < start by {
                if i < hs.len() - 1 {
                    assert(hs[i].start < hs[hs.len() - 1].start);
                }
            }
        } else {
            let rest = hs.drop_last();
            assert(in_order(rest, period)) by {
                assert forall|i: int| 0 <= i < rest.len() implies (#[trigger] rest[i]).is_window()
                    && rest[i].period() == period by {
                    assert(rest[i] == hs[i]);
                }
                assert forall|i: int, j: int| 0 <= i < j < rest.len() implies (
                #[trigger] rest[i]).start < (#[trigger] rest[j]).start by {
                    assert(rest[i] == hs[i] && rest[j] == hs[j]);
                }
            }
            lemma_position_for(rest, period, start);
            assert forall|i: int| 0 <= i < position_for(hs, start) implies (
            #[trigger] hs[i]).start < start by {
                assert(hs[i] == rest[i]);
            }
            assert forall|i: int| position_for(hs, start) <= i < hs.len() implies (
            #[trigger] hs[i]).start >= start by {
                if i < hs.len() - 1 {
                    assert(hs[i] == rest[i]);
                }
            }
        }
    }
}

/// A window that enters an ordered list at its position, and whose start no
/// partition of the list has, leaves the list ordered.
pub proof fn lemma_insert_in_order(hs: Seq<HolderView>, period: int, fresh: HolderView)
    requires
        in_order(hs, period),
        fresh.is_window(),
        fresh.period() == period,
        index_of_start(hs, fresh.start) < 0,
    ensures
        in_order(hs.insert(position_for(hs, fresh.start), fresh), period),
        index_of_start(hs.insert(position_for(hs, fresh.start), fresh), fresh.start)
            == position_for(hs, fresh.start),
{
    let p = position_for(hs, fresh.start);
    let grown = hs.insert(p, fresh);
    lemma_position_for(hs, period, fresh.start);
    lemma_index_of_start(hs, fresh.start);
    assert forall|i: int| 0 <= i < grown.len() implies (#[trigger] grown[i]).is_window()
        && grown[i].period() == period by {
        if i < p {
            assert(grown[i] == hs[i]);
        } else if i > p {
            assert(grown[i] == hs[i - 1]);
        }
    }
    assert forall|i: int, j: int| 0 <= i < j < grown.len() implies (#[trigger] grown[i]).start < (
    #[trigger] grown[j]).start by {
        if j < p {
            assert(grown[i] == hs[i] && grown[j] == hs[j]);
        } else if j == p {
            assert(grown[i] == hs[i]);
        } else if i < p {
            assert(grown[i] == hs[i] && grown[j] == hs[j - 1]);
            if i < j - 1 {
                assert(hs[i].start < hs[j - 1].start);
            }
        } else if i == p {
            assert(grown[j] == hs[j - 1]);
            assert(hs[j - 1].start >= fresh.start);
            assert(hs[j - 1].start != fresh.start);
        } else {
            assert(grown[i] == hs[i - 1] && grown[j] == hs[j - 1]);
            assert(hs[i - 1].start < hs[j - 1].start);
        }
    }
    lemma_index_of_start_is(grown, period, p);
}

/// Taking a partition out of an ordered list leaves the list ordered.
pub proof fn lemma_remove_in_order(hs: Seq<HolderView>, period: int, i: int)
    requires
        in_order(hs, period),
        0 <= i < hs.len(),
    ensures
        in_order(hs.remove(i), period),
{
    let rest = hs.remove(i);
    assert forall|k: int| 0 <= k < rest.len() implies (#[trigger] rest[k]).is_window()
        && rest[k].period() == period by {
        if k < i {
            assert(rest[k] == hs[k]);
        } else {
            assert(rest[k] == hs[k + 1]);
        }
    }
    assert forall|k: int, j: int| 0 <= k < j < rest.len() implies (#[trigger] rest[k]).start < (
    #[trigger] rest[j]).start by {
        let a = if k < i { k } else { k + 1 };
        let b = if j < i { j } else { j + 1 };
        assert(rest[k] == hs[a] && rest[j] == hs[b]);
        assert(hs[a].start < hs[b].start);
    }
}

/// True when every partition of the list starts at a multiple of the period.
pub open spec fn all_aligned(hs: Seq<HolderView>, period: int) -> bool {
    forall|i: int| 0 <= i < hs.len() ==> (#[trigger] hs[i]).start % period == 0
}

/// Windows that start at multiples of the period do not overlap: at any
/// time `t`, at most one partition of such a list has a window that holds `t`.
pub proof fn lemma_at_most_one_covers(hs: Seq<HolderView>, period: int, t: int, i: int, j: int)
    requires
        in_order(hs, period),
        all_aligned(hs, period),
        0 <= i < hs.len(),
        0 <= j < hs.len(),
        hs[i].covers(t),
        hs[j].covers(t),
    ensures
        i == j,
{
    if i < j {
        assert(hs[i].start < hs[j].start);
        lemma_multiples_apart(hs[i].start, hs[j].start, period);
    } else if j < i {
        assert(hs[j].start < hs[i].start);
        lemma_multiples_apart(hs[j].start, hs[i].start, period);
    }
}

/// Every partition of a group is as long as the configured period.
pub proof fn lemma_holders_have_the_period(hs: Seq<HolderView>, period: int, i: int)
    requires
        in_order(hs, period),
        0 <= i < hs.len(),
    ensures
        hs[i].end - hs[i].start == period,
{
}

/// A write keeps the windows at the multiples of the period: the partition
/// that it makes starts at one.
pub proof fn lemma_put_keeps_aligned(hs: Seq<HolderView>, period: int, key: u64, data: Payload)
    requires
        in_order(hs, period),
        all_aligned(hs, period),
    ensures
        all_aligned(put_holders(hs, period, key, data).0, period),
{
    let t = data.timestamp as int;
    let after = put_holders(hs, period, key, data).0;
    lemma_covering(hs, t);
    lemma_align_down(t, period);
    if covering(hs, t) < 0 && window_fits(t, period) {
        let p = position_for(hs, align_down(t, period));
        lemma_position_for(hs, period, align_down(t, period));
        assert forall|i: int| 0 <= i < after.len() implies (#[trigger] after[i]).start % period
            == 0 by {
            if i < p {
                assert(after[i] == hs[i]);
            } else if i > p {
                assert(after[i] == hs[i - 1]);
            }
        }
    } else {
        assert forall|i: int| 0 <= i < after.len() implies (#[trigger] after[i]).start % period
            == 0 by {
            assert(after[i].start == hs[i].start);
        }
    }
}

/// In a group that holds no partition at first, every partition that writes
/// make starts at a multiple of the period: after one write the windows
/// are at the multiples of the period.
pub proof fn lemma_first_put_is_aligned(period: int, key: u64, data: Payload)
    requires
        0 < period <= i64::MAX,
    ensures
        all_aligned(put_holders(Seq::empty(), period, key, data).0, period),
        in_order(put_holders(Seq::empty(), period, key, data).0, period),
{
    let empty = Seq::<HolderView>::empty();
    assert(in_order(empty, period));
    assert(all_aligned(empty, period));
    lemma_put_keeps_aligned(empty, period, key, data);
    lemma_put_in_order(empty, period, key, data);
}

/// Attaching a partition and then detaching it leaves the list as it was,
/// provided that no partition with that start was there before.
pub proof fn lemma_attach_then_detach(hs: Seq<HolderView>, period: int, start: int)
    requires
        in_order(hs, period),
        index_of_start(hs, start) < 0,
    ensures
        detach_holders(attach_holders(hs, period, start).0, start).0 == hs,
{
    if window_in_range(start, period) {
        let fresh = ready_holder(start, period, Map::empty());
        let p = position_for(hs, start);
        lemma_position_for(hs, period, start);
        lemma_insert_in_order(hs, period, fresh);
        assert(hs.insert(p, fresh).remove(p) =~= hs);
    }
}

/// True when two lists have the same windows, position by position.
pub open spec fn same_windows(a: Seq<HolderView>, b: Seq<HolderView>) -> bool {
    &&& a.len() == b.len()
    &&& forall|i: int| 0 <= i < a.len() ==> (#[trigger] a[i]).start == b[i].start && a[i].end == b[i].end
}

/// A list with the windows of an ordered list is ordered.
pub proof fn lemma_same_windows_in_order(a: Seq<HolderView>, b: Seq<HolderView>, period: int)
    requires
        in_order(a, period),
        same_windows(a, b),
    ensures
        in_order(b, period),
{
    assert forall|i: int| 0 <= i < b.len() implies (#[trigger] b[i]).is_window() && b[i].period()
        == period by {
        assert(a[i].is_window());
    }
    assert forall|i: int, j: int| 0 <= i < j < b.len() implies (#[trigger] b[i]).start < (
    #[trigger] b[j]).start by {
        assert(a[i].start < a[j].start);
    }
}

/// Where no window of an ordered list holds `t`, no partition of the list
/// starts where the window of `t` starts.
pub proof fn lemma_uncovered_start_is_new(hs: Seq<HolderView>, period: int, t: int)
    requires
        in_order(hs, period),
        covering(hs, t) < 0,
    ensures
        index_of_start(hs, align_down(t, period)) < 0,
{
    lemma_covering(hs, t);
    lemma_index_of_start(hs, align_down(t, period));
    lemma_align_down(t, period);
    let i = index_of_start(hs, align_down(t, period));
    if i >= 0 {
        assert(hs[i].is_window() && hs[i].period() == period);
        assert(hs[i].covers(t));
    }
}

/// A write leaves the list of a group ordered.
pub proof fn lemma_put_in_order(hs: Seq<HolderView>, period: int, key: u64, data: Payload)
    requires
        in_order(hs, period),
    ensures
        in_order(put_holders(hs, period, key, data).0, period),
{
    let t = data.timestamp as int;
    let i = covering(hs, t);
    lemma_covering(hs, t);
    if i >= 0 {
        lemma_same_windows_in_order(hs, put_holders(hs, period, key, data).0, period);
    } else if window_fits(t, period) {
        let start = align_down(t, period);
        lemma_align_down(t, period);
        lemma_uncovered_start_is_new(hs, period, t);
        let fresh = ready_holder(start, period, Map::<u64, Payload>::empty().insert(key, data));
        lemma_insert_in_order(hs, period, fresh);
    }
}

/// Adding a partition leaves the list of a group ordered.
pub proof fn lemma_add_in_order(hs: Seq<HolderView>, period: int, h: HolderView)
    requires
        in_order(hs, period),
        h.is_window(),
    ensures
        in_order(add_holder(hs, period, h).0, period),
{
    if h.period() == period && index_of_start(hs, h.start) < 0 {
        lemma_insert_in_order(hs, period, h);
    }
}

/// Attaching and detaching leave the list of a group ordered.
pub proof fn lemma_attach_detach_in_order(hs: Seq<HolderView>, period: int, start: int)
    requires
        in_order(hs, period),
    ensures
        in_order(attach_holders(hs, period, start).0, period),
        in_order(detach_holders(hs, start).0, period),
{
    if index_of_start(hs, start) < 0 && window_in_range(start, period) {
        lemma_insert_in_order(hs, period, ready_holder(start, period, Map::empty()));
    }
    lemma_index_of_start(hs, start);
    if index_of_start(hs, start) >= 0 {
        lemma_remove_in_order(hs, period, index_of_start(hs, start));
    }
}

/// The list after the storage of the partition that starts at `start`
/// reported a failure; the list itself where no partition starts there.
pub open spec fn failed_at(hs: Seq<HolderView>, start: int, description: Seq<char>) -> Seq<
    HolderView,
> {
    let i = index_of_start(hs, start);
    if i >= 0 {
        hs.update(i, hs[i].with_log(hs[i].log.fail(description)))
    } else {
        hs
    }
}

/// What the list of successes holds: nothing exactly when no ready partition
/// holds the key.
pub proof fn lemma_successes(hs: Seq<HolderView>, key: u64)
    ensures
        successes(hs, key).len() <= hs.len(),
        successes(hs, key).len() == 0 <==> !shown(hs, key),
        !shown(hs, key) ==> (all_missing(hs, key) <==> forall|k: int|
            0 <= k < hs.len() ==> (#[trigger] hs[k]).log.is_ready()),
    decreases hs.len(),
{
    if hs.len() > 0 {
        let rest = hs.drop_last();
        lemma_successes(rest, key);
        if shown(rest, key) {
            let k = choose|k: int| 0 <= k < rest.len() && (#[trigger] rest[k]).log.shows(key);
            assert(hs[k] == rest[k]);
        }
        if shown(hs, key) && !hs.last().log.shows(key) {
            let k = choose|k: int| 0 <= k < hs.len() && (#[trigger] hs[k]).log.shows(key);
            assert(rest[k] == hs[k]);
        }
        if hs.last().log.shows(key) {
            assert(hs[hs.len() - 1].log.shows(key));
        }
    }
}

/// One more partition shows a key exactly when it or an earlier one does.
pub proof fn lemma_shown_step(hs: Seq<HolderView>, j: int, key: u64)
    requires
        0 <= j < hs.len(),
    ensures
        shown(hs.take(j + 1), key) == (shown(hs.take(j), key) || hs[j].log.shows(key)),
{
    let longer = hs.take(j + 1);
    let shorter = hs.take(j);
    if shown(shorter, key) {
        let k = choose|k: int| 0 <= k < shorter.len() && (#[trigger] shorter[k]).log.shows(key);
        assert(longer[k] == shorter[k]);
    }
    if hs[j].log.shows(key) {
        assert(longer[j] == hs[j]);
    }
    if shown(longer, key) {
        let k = choose|k: int| 0 <= k < longer.len() && (#[trigger] longer[k]).log.shows(key);
        if k < j {
            assert(shorter[k] == longer[k]);
        } else {
            assert(longer[k] == hs[j]);
        }
    }
}

/// The views of a list of partitions.
pub open spec fn views(hs: Seq<PearlTimestampHolder>) -> Seq<HolderView> {
    Seq::new(hs.len(), |i: int| hs[i]@)
}

/// What adding a partition does to the list: it enters at its place in the
/// order. Where the partition is not as long as the period, or a partition
/// with its start is there already, adding fails and the list stays.
pub open spec fn add_holder(hs: Seq<HolderView>, period: int, h: HolderView) -> (
    Seq<HolderView>,
    Option<ErrorKind>,
) {
    if h.period() != period || index_of_start(hs, h.start) >= 0 {
        (hs, Some(ErrorKind::Failed))
    } else {
        (hs.insert(position_for(hs, h.start), h), None)
    }
}

/// The list after each of `news` was added in turn, those that cannot be
/// added left out.
pub open spec fn add_all(hs: Seq<HolderView>, period: int, news: Seq<HolderView>) -> Seq<HolderView>
    decreases news.len(),
{
    if news.len() == 0 {
        hs
    } else {
        add_all(add_holder(hs, period, news[0]).0, period, news.drop_first())
    }
}

/// The list with the current partition, the one that starts where the
/// window of the time `now` starts: the list itself where it has that
/// partition, else the list with a new, created partition for that window.
/// Where that window would leave the range of the timestamps there is
/// none, and the list stays.
pub open spec fn with_current(hs: Seq<HolderView>, period: int, now: int) -> (
    Seq<HolderView>,
    Option<ErrorKind>,
) {
    if index_of_start(hs, align_down(now, period)) >= 0 {
        (hs, None)
    } else if window_fits(now, period) {
        (hs.insert(position_for(hs, align_down(now, period)), Settings::fresh_holder(period, now)), None)
    } else {
        (hs, Some(ErrorKind::Failed))
    }
}

/// The list after the storage of each partition was opened.
pub open spec fn prepared(hs: Seq<HolderView>) -> Seq<HolderView> {
    Seq::new(hs.len(), |i: int| hs[i].with_log(hs[i].log.prepare().0))
}

/// What the start of a group does to its list: the partitions that the
/// names of the subdirectories stand for are added, a partition for the
/// window of the time `now` is made if there is none, and the storage of
/// each partition is opened. Where the window of `now` would leave the
/// range of the timestamps the start fails after the first stage.
pub open spec fn run_holders(hs: Seq<HolderView>, period: int, names: Seq<String>, now: int) -> (
    Seq<HolderView>,
    Option<ErrorKind>,
) {
    let scanned = add_all(hs, period, holders_from_names(names, period));
    let (populated, failed) = with_current(scanned, period, now);
    match failed {
        Some(_) => (populated, failed),
        None => (prepared(populated), None),
    }
}

/// Adding partitions leaves the list of a group ordered.
pub proof fn lemma_add_all_in_order(hs: Seq<HolderView>, period: int, news: Seq<HolderView>)
    requires
        in_order(hs, period),
        forall|i: int| 0 <= i < news.len() ==> (#[trigger] news[i]).is_window(),
    ensures
        in_order(add_all(hs, period, news), period),
    decreases news.len(),
{
    if news.len() > 0 {
        lemma_add_in_order(hs, period, news[0]);
        assert forall|i: int| 0 <= i < news.drop_first().len() implies (
        #[trigger] news.drop_first()[i]).is_window() by {
            assert(news.drop_first()[i] == news[i + 1]);
        }
        lemma_add_all_in_order(add_holder(hs, period, news[0]).0, period, news.drop_first());
    }
}

/// Making the current partition leaves the list of a group ordered, and
/// then one of its windows holds the current time.
pub proof fn lemma_with_current_in_order(hs: Seq<HolderView>, period: int, now: int)
    requires
        in_order(hs, period),
    ensures
        in_order(with_current(hs, period, now).0, period),
        with_current(hs, period, now).1 is None ==> covering(
            with_current(hs, period, now).0,
            now,
        ) >= 0 && index_of_start(with_current(hs, period, now).0, align_down(now, period)) >= 0,
{
    let start = align_down(now, period);
    lemma_align_down(now, period);
    lemma_index_of_start(hs, start);
    let grown = with_current(hs, period, now).0;
    if index_of_start(hs, start) >= 0 {
        lemma_covering(hs, now);
        assert(hs[index_of_start(hs, start)].covers(now));
    } else if window_fits(now, period) {
        let fresh = Settings::fresh_holder(period, now);
        lemma_insert_in_order(hs, period, fresh);
        let p = position_for(hs, fresh.start);
        lemma_position_for(hs, period, fresh.start);
        lemma_covering(grown, now);
        assert(grown[p] == fresh);
        assert(grown[p].covers(now));
    }
}

/// A list with one more partition that starts at a multiple of the period
/// keeps its windows at the multiples of the period.
pub proof fn lemma_insert_keeps_aligned(hs: Seq<HolderView>, period: int, at: int, h: HolderView)
    requires
        all_aligned(hs, period),
        0 <= at <= hs.len(),
        h.start % period == 0,
    ensures
        all_aligned(hs.insert(at, h), period),
{
    let grown = hs.insert(at, h);
    assert forall|i: int| 0 <= i < grown.len() implies (#[trigger] grown[i]).start % period == 0 by {
        if i < at {
            assert(grown[i] == hs[i]);
        } else if i > at {
            assert(grown[i] == hs[i - 1]);
        }
    }
}

/// Adding partitions that start at multiples of the period keeps the
/// windows of a list at the multiples of the period.
pub proof fn lemma_add_all_keeps_aligned(hs: Seq<HolderView>, period: int, news: Seq<HolderView>)
    requires
        in_order(hs, period),
        all_aligned(hs, period),
        all_aligned(news, period),
        forall|i: int| 0 <= i < news.len() ==> (#[trigger] news[i]).is_window(),
    ensures
        all_aligned(add_all(hs, period, news), period),
    decreases news.len(),
{
    if news.len() > 0 {
        let next = add_holder(hs, period, news[0]).0;
        lemma_add_in_order(hs, period, news[0]);
        if news[0].period() == period && index_of_start(hs, news[0].start) < 0 {
            lemma_position_for(hs, period, news[0].start);
            lemma_insert_keeps_aligned(hs, period, position_for(hs, news[0].start), news[0]);
        }
        assert forall|i: int| 0 <= i < news.drop_first().len() implies (
        #[trigger] news.drop_first()[i]).is_window() && news.drop_first()[i].start % period
            == 0 by {
            assert(news.drop_first()[i] == news[i + 1]);
        }
        lemma_add_all_keeps_aligned(next, period, news.drop_first());
    }
}

/// The start of a group keeps its windows at the multiples of the period,
/// where the directories found stand for partitions that start at such.
pub proof fn lemma_run_keeps_aligned(hs: Seq<HolderView>, period: int, names: Seq<String>, now: int)
    requires
        in_order(hs, period),
        all_aligned(hs, period),
        all_aligned(holders_from_names(names, period), period),
    ensures
        all_aligned(run_holders(hs, period, names, now).0, period),
{
    let news = holders_from_names(names, period);
    lemma_holders_from_names(names, period);
    lemma_add_all_in_order(hs, period, news);
    lemma_add_all_keeps_aligned(hs, period, news);
    let scanned = add_all(hs, period, news);
    let populated = with_current(scanned, period, now).0;
    lemma_align_down(now, period);
    if index_of_start(scanned, align_down(now, period)) < 0 && window_fits(now, period) {
        lemma_position_for(scanned, period, align_down(now, period));
        lemma_insert_keeps_aligned(
            scanned,
            period,
            position_for(scanned, align_down(now, period)),
            Settings::fresh_holder(period, now),
        );
    }
    assert forall|i: int| 0 <= i < prepared(populated).len() implies (#[trigger] prepared(
        populated,
    )[i]).start % period == 0 by {
        assert(populated[i].start % period == 0);
    }
}

/// The start of a group leaves its list ordered.
pub proof fn lemma_run_in_order(hs: Seq<HolderView>, period: int, names: Seq<String>, now: int)
    requires
        in_order(hs, period),
    ensures
        in_order(run_holders(hs, period, names, now).0, period),
{
    lemma_holders_from_names(names, period);
    lemma_add_all_in_order(hs, period, holders_from_names(names, period));
    let scanned = add_all(hs, period, holders_from_names(names, period));
    lemma_with_current_in_order(scanned, period, now);
    let populated = with_current(scanned, period, now).0;
    lemma_same_windows_in_order(populated, prepared(populated), period);
}

/// Finds the newest partition whose window holds `ts`.
fn find_covering(holders: &Vec<PearlTimestampHolder>, ts: i64) -> (r: Option<usize>)
    ensures
        match r {
            Some(i) => i < holders@.len() && i == covering(views(holders@), ts as int),
            None => covering(views(holders@), ts as int) == -1,
        },
{
    let ghost all = views(holders@);
    let mut i: usize = holders.len();
    proof {
        assert(all.take(i as int) =~= all);
    }
    while i > 0
        invariant
            i <= holders@.len(),
            all == views(holders@),
            covering(all, ts as int) == covering(all.take(i as int), ts as int),
        decreases i,
    {
        proof {
            assert(all.take(i as int).last() == holders@[i - 1]@);
            assert(all.take(i as int).drop_last() =~= all.take(i - 1));
        }
        if holders[i - 1].start_timestamp() <= ts && ts < holders[i - 1].end_timestamp() {
            return Some(i - 1);
        }
        i = i - 1;
    }
    None
}

/// Finds the partition that starts at `start`.
fn find_start(holders: &Vec<PearlTimestampHolder>, start: i64) -> (r: Option<usize>)
    ensures
        match r {
            Some(i) => i < holders@.len() && i == index_of_start(views(holders@), start as int),
            None => index_of_start(views(holders@), start as int) == -1,
        },
{
    let ghost all = views(holders@);
    let mut i: usize = holders.len();
    proof {
        assert(all.take(i as int) =~= all);
    }
    while i > 0
        invariant
            i <= holders@.len(),
            all == views(holders@),
            index_of_start(all, start as int) == index_of_start(all.take(i as int), start as int),
        decreases i,
    {
        proof {
            assert(all.take(i as int).last() == holders@[i - 1]@);
            assert(all.take(i as int).drop_last() =~= all.take(i - 1));
        }
        if holders[i - 1].start_timestamp() == start {
            return Some(i - 1);
        }
        i = i - 1;
    }
    None
}

/// Finds the position at which a partition that starts at `start` enters the list.
fn find_position(holders: &Vec<PearlTimestampHolder>, start: i64) -> (r: usize)
    ensures
        r == position_for(views(holders@), start as int),
        r <= holders@.len(),
{
    let ghost all = views(holders@);
    let mut i: usize = holders.len();
    proof {
        assert(all.take(i as int) =~= all);
    }
    while i > 0
        invariant
            i <= holders@.len(),
            all == views(holders@),
            position_for(all, start as int) == position_for(all.take(i as int), start as int),
        decreases i,
    {
        proof {
            assert(all.take(i as int).last() == holders@[i - 1]@);
            assert(all.take(i as int).drop_last() =~= all.take(i - 1));
        }
        if holders[i - 1].start_timestamp() < start {
            return i;
        }
        i = i - 1;
    }
    0
}

/// Puts a partition into the list at the given position.
fn insert_at(holders: &mut Vec<PearlTimestampHolder>, position: usize, holder: PearlTimestampHolder)
    requires
        position <= old(holders)@.len(),
    ensures
        views(final(holders)@) == views(old(holders)@).insert(position as int, holder@),
{
    holders.insert(position, holder);
    assert(views(holders@) =~= views(old(holders)@).insert(position as int, holder@));
}

/// Adds a partition to the list, if it can be added.
fn add_to(holders: &mut Vec<PearlTimestampHolder>, period: i64, holder: PearlTimestampHolder) -> (r:
    bool)
    requires
        holder.inv(),
    ensures
        views(final(holders)@) == add_holder(views(old(holders)@), period as int, holder@).0,
        r == add_holder(views(old(holders)@), period as int, holder@).1 is None,
{
    if holder.end_timestamp() - holder.start_timestamp() != period {
        return false;
    }
    match find_start(holders, holder.start_timestamp()) {
        Some(_) => false,
        None => {
            let position = find_position(holders, holder.start_timestamp());
            insert_at(holders, position, holder);
            true
        },
    }
}

/// A group as a mathematical value.
pub struct GroupView {
    pub vdisk_id: VDiskId,
    /// The node whose data the group holds.
    pub node_name: Seq<char>,
    /// The disk that holds the group.
    pub disk_name: Seq<char>,
    /// The directory of the group, with its closing slash.
    pub directory_path: Seq<char>,
    /// The length of a window.
    pub period: int,
    /// The partitions, in the order of their windows.
    pub holders: Seq<HolderView>,
}

impl GroupView {
    /// True when the group is the one that the operation goes to: an alien
    /// operation goes to the group of its node and virtual disk, any other
    /// to the group of its disk and virtual disk.
    pub open spec fn serves(self, op: crate::operation::OperationView) -> bool {
        match op.disk_path {
            None => op.remote_node_name == Some(self.node_name) && op.vdisk_id == self.vdisk_id,
            Some(path) => path.name == self.disk_name && op.vdisk_id == self.vdisk_id,
        }
    }

    /// The same group with another list of partitions.
    pub open spec fn with_holders(self, holders: Seq<HolderView>) -> GroupView {
        GroupView { holders, ..self }
    }
}

/// The time partitions of one virtual disk on one disk.
pub struct PearlGroup {
    holders: Vec<PearlTimestampHolder>,
    settings: Arc<Settings>,
    vdisk_id: VDiskId,
    node_name: String,
    directory_path: String,
    disk_name: String,
}

impl View for PearlGroup {
    type V = GroupView;

    closed spec fn view(&self) -> GroupView {
        GroupView {
            vdisk_id: self.vdisk_id,
            node_name: self.node_name@,
            disk_name: self.disk_name@,
            directory_path: self.directory_path@,
            period: self.settings@.period,
            holders: views(self.holders@),
        }
    }
}

impl PearlGroup {
    /// The partitions are windows of the period's length, in the order of
    /// their starts.
    #[verifier::type_invariant]
    pub open spec fn inv(&self) -> bool {
        in_order(self@.holders, self@.period)
    }

    /// The settings that the group works with.
    pub closed spec fn spec_settings(&self) -> Settings {
        *self.settings
    }

    /// A group without partitions.
    pub fn new(
        settings: Arc<Settings>,
        vdisk_id: VDiskId,
        node_name: String,
        disk_name: String,
        directory_path: String,
    ) -> (r: Self)
        ensures
            r.inv(),
            r.spec_settings() == *settings,
            r@ == (GroupView {
                vdisk_id,
                node_name: node_name@,
                disk_name: disk_name@,
                directory_path: directory_path@,
                period: settings@.period,
                holders: Seq::empty(),
            }),
    {
        proof {
            use_type_invariant(&*settings);
        }
        let r = PearlGroup {
            holders: Vec::new(),
            settings,
            vdisk_id,
            node_name,
            directory_path,
            disk_name,
        };
        assert(r@.holders =~= Seq::<HolderView>::empty());
        r
    }

    pub fn vdisk_id(&self) -> (r: VDiskId)
        ensures
            r == self@.vdisk_id,
    {
        self.vdisk_id
    }

    pub fn node_name(&self) -> (r: &str)
        ensures
            r@ == self@.node_name,
    {
        self.node_name.as_str()
    }

    pub fn disk_name(&self) -> (r: &str)
        ensures
            r@ == self@.disk_name,
    {
        self.disk_name.as_str()
    }

    pub fn directory_path(&self) -> (r: &str)
        ensures
            r@ == self@.directory_path,
    {
        self.directory_path.as_str()
    }

    pub fn settings(&self) -> (r: &Settings)
        ensures
            *r == self.spec_settings(),
            r@.period == self@.period,
    {
        &*self.settings
    }

    /// The partitions of the group, in the order of their windows.
    pub fn pearls(&self) -> (r: &Vec<PearlTimestampHolder>)
        ensures
            views(r@) == self@.holders,
            in_order(views(r@), self@.period),
    {
        proof {
            use_type_invariant(self);
        }
        &self.holders
    }

    /// True when the group is the one that the operation goes to.
    pub fn equal(&self, operation: &BackendOperation) -> (r: bool)
        ensures
            r == self@.serves(operation@),
    {
        proof {
            VDiskId::lemma_same_number(self.vdisk_id, operation.vdisk_id);
        }
        let same_vdisk = self.vdisk_id.as_u32() == operation.vdisk_id.as_u32();
        match &operation.disk_path {
            None => match &operation.remote_node_name {
                Some(name) => str_equal(name.as_str(), self.node_name.as_str()) && same_vdisk,
                None => false,
            },
            Some(path) => str_equal(path.name.as_str(), self.disk_name.as_str()) && same_vdisk,
        }
    }

    /// Writes a record to the partition whose window holds its timestamp.
    /// Where the group has no such partition, one is made, opened and put in
    /// its place. A log whose refusal asks for it is restarted.
    pub fn put(&mut self, key: BobKey, data: BobData) -> (r: PutResult)
        ensures
            final(self).inv(),
            final(self).spec_settings() == old(self).spec_settings(),
            final(self)@ == old(self)@.with_holders(
                put_holders(old(self)@.holders, old(self)@.period, key.key, data@).0,
            ),
            failure_kind(r) == put_holders(old(self)@.holders, old(self)@.period, key.key, data@).1,
            r matches Err(Error::StorageError(text)) ==> covering(
                old(self)@.holders,
                data@.timestamp as int,
            ) >= 0 && text@ == refusal_text(old(self)@.holders, data@.timestamp as int),
    {
        proof {
            use_type_invariant(&*self);
            use_type_invariant(&*self.settings);
            lemma_put_in_order(self@.holders, self@.period, key.key, data@);
            lemma_covering(self@.holders, data@.timestamp as int);
        }
        let ghost before = self@.holders;
        let mut holders: Vec<PearlTimestampHolder> = Vec::new();
        std::mem::swap(&mut self.holders, &mut holders);
        assert(self@.holders =~= Seq::<HolderView>::empty());
        let found = find_covering(&holders, data.meta.timestamp);
        let result: Result<(), Error> = match found {
            Some(i) => {
                let written = holders[i].write(key, data);
                let restart = match &written {
                    Ok(_) => false,
                    Err(e) => Error::is_put_error_need_restart(Some(e)),
                };
                if restart {
                    let proceed = holders[i].try_reinit();
                    match proceed {
                        Ok(true) => {
                            let _ = holders[i].reinit();
                        },
                        _ => {},
                    }
                }
                proof {
                    assert(views(holders@) =~= put_holders(
                        before,
                        self@.period,
                        key.key,
                        data@,
                    ).0);
                }
                written
            },
            None => {
                let made = self.settings.create_pearl(&data);
                match made {
                    Err(e) => Err(e),
                    Ok(holder) => {
                        let mut holder = holder;
                        let _ = holder.prepare();
                        let written = holder.write(key, data);
                        let position = find_position(&holders, holder.start_timestamp());
                        insert_at(&mut holders, position, holder);
                        proof {
                            assert(holder@.log.records =~= Map::<u64, Payload>::empty().insert(
                                key.key,
                                data@,
                            ));
                        }
                        written
                    },
                }
            },
        };
        self.holders = holders;
        match result {
            Ok(_) => Ok(BackendPutResult),
            Err(e) => Err(e),
        }
    }

    /// Reads the key from every partition and answers with the latest of the
    /// records found. A log whose refusal asks for it is restarted.
    pub fn get(&mut self, key: BobKey) -> (r: GetResult)
        ensures
            final(self).inv(),
            final(self).spec_settings() == old(self).spec_settings(),
            final(self)@ == old(self)@.with_holders(healed_by_read(old(self)@.holders, key.key)),
            match r {
                Ok(found) => get_result(old(self)@.holders, key.key) == Ok::<Payload, ErrorKind>(
                    found.data@,
                ),
                Err(e) => get_result(old(self)@.holders, key.key) == Err::<Payload, ErrorKind>(
                    e.spec_kind(),
                ),
            },
            r matches Err(Error::Failed(text)) ==> text@ == "cannot read from some pearls"@,
    {
        proof {
            use_type_invariant(&*self);
        }
        let ghost before = self@.holders;
        let ghost period = self@.period;
        let mut holders: Vec<PearlTimestampHolder> = Vec::new();
        std::mem::swap(&mut self.holders, &mut holders);
        assert(self@.holders =~= Seq::<HolderView>::empty());
        let mut results: Vec<BackendGetResult> = Vec::new();
        let mut refused = false;
        let mut i: usize = 0;
        proof {
            assert(before.take(0) =~= Seq::<HolderView>::empty());
            assert(payloads_of(results@) =~= successes(before.take(0), key.key));
        }
        while i < holders.len()
            invariant
                i <= holders@.len(),
                holders@.len() == before.len(),
                forall|k: int|
                    0 <= k < i ==> (#[trigger] holders@[k])@ == before[k].with_log(
                        before[k].log.healed_by_read(key.key),
                    ),
                forall|k: int| i <= k < holders@.len() ==> (#[trigger] holders@[k])@ == before[k],
                payloads_of(results@) == successes(before.take(i as int), key.key),
                refused == exists|k: int| 0 <= k < i && !(#[trigger] before[k]).log.is_ready(),
            decreases holders@.len() - i,
        {
            proof {
                assert(before.take(i + 1).drop_last() =~= before.take(i as int));
                assert(before.take(i + 1).last() == before[i as int]);
            }
            let ghost earlier = results@;
            let read = holders[i].read(key);
            match read {
                Ok(data) => {
                    results.push(BackendGetResult { data });
                    proof {
                        assert(payloads_of(results@) =~= payloads_of(earlier).push(data@));
                    }
                },
                Err(e) => {
                    if Error::is_get_error_need_restart(Some(&e)) {
                        let proceed = holders[i].try_reinit();
                        match proceed {
                            Ok(true) => {
                                let _ = holders[i].reinit();
                            },
                            _ => {},
                        }
                    }
                    match e {
                        Error::KeyNotFound => {},
                        _ => {
                            refused = true;
                        },
                    }
                },
            }
            i = i + 1;
        }
        proof {
            assert(before.take(i as int) =~= before);
            assert(views(holders@) =~= healed_by_read(before, key.key));
            lemma_same_windows_in_order(before, views(holders@), period);
            lemma_successes(before, key.key);
        }
        self.holders = holders;
        if results.len() == 0 {
            if refused {
                Err(Error::Failed(String::from_str("cannot read from some pearls")))
            } else {
                Err(Error::KeyNotFound)
            }
        } else {
            choose_data(results)
        }
    }

    /// Says for each key, position by position, whether a ready partition of
    /// the group holds it.
    pub fn exist(&self, keys: &Vec<BobKey>) -> (r: Result<Vec<bool>, Error>)
        ensures
            r matches Ok(found) && found@.len() == keys@.len() && forall|i: int|
                0 <= i < keys@.len() ==> found@[i] == shown(self@.holders, (#[trigger] keys@[i]).key),
    {
        let ghost all = self@.holders;
        let mut found: Vec<bool> = Vec::new();
        let mut i: usize = 0;
        while i < keys.len()
            invariant
                i <= keys@.len(),
                found@.len() == i,
                forall|k: int| 0 <= k < i ==> !found@[k],
            decreases keys@.len() - i,
        {
            found.push(false);
            i = i + 1;
        }
        let mut j: usize = 0;
        while j < self.holders.len()
            invariant
                j <= self.holders@.len(),
                all == views(self.holders@),
                found@.len() == keys@.len(),
                forall|k: int|
                    0 <= k < keys@.len() ==> found@[k] == shown(
                        all.take(j as int),
                        (#[trigger] keys@[k]).key,
                    ),
            decreases self.holders@.len() - j,
        {
            let answer = self.holders[j].exist(keys);
            let ghost earlier = found@;
            match answer {
                Ok(held) => {
                    let mut k: usize = 0;
                    while k < keys.len()
                        invariant
                            k <= keys@.len(),
                            held@.len() == keys@.len(),
                            found@.len() == keys@.len(),
                            earlier.len() == keys@.len(),
                            forall|m: int|
                                0 <= m < k ==> #[trigger] found@[m] == (earlier[m] || held@[m]),
                            forall|m: int|
                                k <= m < keys@.len() ==> #[trigger] found@[m] == earlier[m],
                        decreases keys@.len() - k,
                    {
                        if held[k] {
                            found.set(k, true);
                        }
                        k = k + 1;
                    }
                },
                Err(_) => {},
            }
            proof {
                assert forall|k: int| 0 <= k < keys@.len() implies found@[k] == shown(
                    all.take(j + 1),
                    (#[trigger] keys@[k]).key,
                ) by {
                    lemma_shown_step(all, j as int, keys@[k].key);
                }
            }
            j = j + 1;
        }
        proof {
            assert(all.take(j as int) =~= all);
        }
        Ok(found)
    }

    /// Adds a partition at its place in the order. Adding fails where the
    /// partition is not as long as the group's period or where the group has
    /// a partition with its start.
    pub fn add(&mut self, pearl: PearlTimestampHolder) -> (r: Result<(), Error>)
        ensures
            final(self).inv(),
            final(self).spec_settings() == old(self).spec_settings(),
            final(self)@ == old(self)@.with_holders(
                add_holder(old(self)@.holders, old(self)@.period, pearl@).0,
            ),
            match r {
                Ok(_) => add_holder(old(self)@.holders, old(self)@.period, pearl@).1 is None,
                Err(e) => add_holder(old(self)@.holders, old(self)@.period, pearl@).1 is Some
                    && e is Failed,
            },
    {
        proof {
            use_type_invariant(&*self);
            use_type_invariant(&pearl);
            lemma_add_in_order(self@.holders, self@.period, pearl@);
        }
        let period = self.settings.get_timestamp_period();
        let mut holders: Vec<PearlTimestampHolder> = Vec::new();
        std::mem::swap(&mut self.holders, &mut holders);
        assert(self@.holders =~= Seq::<HolderView>::empty());
        let added = add_to(&mut holders, period, pearl);
        self.holders = holders;
        if added {
            Ok(())
        } else {
            Err(Error::Failed(String::from_str("the partition cannot be added")))
        }
    }

    /// Adds each of the partitions in turn; those that cannot be added are left out.
    pub fn add_range(&mut self, new_pearls: Vec<PearlTimestampHolder>) -> (r: Result<(), Error>)
        ensures
            r is Ok,
            final(self).inv(),
            final(self).spec_settings() == old(self).spec_settings(),
            final(self)@ == old(self)@.with_holders(
                add_all(old(self)@.holders, old(self)@.period, views(new_pearls@)),
            ),
    {
        proof {
            use_type_invariant(&*self);
        }
        let ghost before = self@.holders;
        let ghost news = views(new_pearls@);
        let ghost period_int = self@.period;
        let period = self.settings.get_timestamp_period();
        let mut holders: Vec<PearlTimestampHolder> = Vec::new();
        std::mem::swap(&mut self.holders, &mut holders);
        assert(self@.holders =~= Seq::<HolderView>::empty());
        let mut rest = new_pearls;
        while rest.len() > 0
            invariant
                period == period_int,
                in_order(views(holders@), period_int),
                add_all(before, period_int, news) == add_all(
                    views(holders@),
                    period_int,
                    views(rest@),
                ),
            decreases rest@.len(),
        {
            let ghost current = views(holders@);
            let ghost waiting = views(rest@);
            let pearl = rest.remove(0);
            proof {
                use_type_invariant(&pearl);
                assert(views(rest@) =~= waiting.drop_first());
                assert(waiting[0] == pearl@);
                lemma_add_in_order(current, period_int, pearl@);
            }
            let _ = add_to(&mut holders, period, pearl);
        }
        self.holders = holders;
        Ok(())
    }

    /// Attaches the partition that starts at `start_timestamp`: it enters the
    /// group ready and empty. Attaching fails where the group has that
    /// partition already, or where the window of the partition would end
    /// beyond the timestamps of 64 bits.
    pub fn attach(&mut self, start_timestamp: i64) -> (r: Result<(), Error>)
        ensures
            final(self).inv(),
            final(self).spec_settings() == old(self).spec_settings(),
            final(self)@ == old(self)@.with_holders(
                attach_holders(old(self)@.holders, old(self)@.period, start_timestamp as int).0,
            ),
            match r {
                Ok(_) => attach_holders(
                    old(self)@.holders,
                    old(self)@.period,
                    start_timestamp as int,
                ).1 is None,
                Err(e) => attach_holders(
                    old(self)@.holders,
                    old(self)@.period,
                    start_timestamp as int,
                ).1 is Some && e is Failed,
            },
    {
        proof {
            use_type_invariant(&*self);
            lemma_attach_detach_in_order(self@.holders, self@.period, start_timestamp as int);
        }
        let period = self.settings.get_timestamp_period();
        let mut holders: Vec<PearlTimestampHolder> = Vec::new();
        std::mem::swap(&mut self.holders, &mut holders);
        assert(self@.holders =~= Seq::<HolderView>::empty());
        let present = find_start(&holders, start_timestamp);
        let aligned = start_timestamp <= i64::MAX - period;
        let attached = if present.is_some() || !aligned {
            false
        } else {
            match PearlTimestampHolder::new(
                PearlHolder::new(),
                start_timestamp,
                start_timestamp + period,
            ) {
                Some(holder) => {
                    let mut holder = holder;
                    let _ = holder.prepare();
                    let position = find_position(&holders, start_timestamp);
                    insert_at(&mut holders, position, holder);
                    true
                },
                None => false,
            }
        };
        self.holders = holders;
        if attached {
            Ok(())
        } else {
            Err(Error::Failed(String::from_str("the partition cannot be attached")))
        }
    }

    /// Detaches the partition that starts at `start_timestamp`: it leaves the
    /// group. Detaching fails where the group has no such partition.
    pub fn detach(&mut self, start_timestamp: i64) -> (r: Result<(), Error>)
        ensures
            final(self).inv(),
            final(self).spec_settings() == old(self).spec_settings(),
            final(self)@ == old(self)@.with_holders(
                detach_holders(old(self)@.holders, start_timestamp as int).0,
            ),
            match r {
                Ok(_) => detach_holders(old(self)@.holders, start_timestamp as int).1 is None,
                Err(e) => detach_holders(old(self)@.holders, start_timestamp as int).1 is Some
                    && e is Failed,
            },
    {
        proof {
            use_type_invariant(&*self);
            lemma_attach_detach_in_order(self@.holders, self@.period, start_timestamp as int);
        }
        let mut holders: Vec<PearlTimestampHolder> = Vec::new();
        std::mem::swap(&mut self.holders, &mut holders);
        assert(self@.holders =~= Seq::<HolderView>::empty());
        let present = find_start(&holders, start_timestamp);
        let detached = match present {
            Some(i) => {
                let ghost before = views(holders@);
                let _ = holders.remove(i);
                proof {
                    assert(views(holders@) =~= before.remove(i as int));
                }
                true
            },
            None => false,
        };
        self.holders = holders;
        if detached {
            Ok(())
        } else {
            Err(Error::Failed(String::from_str("the partition is not attached")))
        }
    }

    /// Records that the storage of the partition that starts at
    /// `start_timestamp` reported a failure. The answer says whether the
    /// group has that partition.
    pub fn report_failure(&mut self, start_timestamp: i64, description: &str) -> (r: bool)
        ensures
            final(self).inv(),
            final(self).spec_settings() == old(self).spec_settings(),
            r == (index_of_start(old(self)@.holders, start_timestamp as int) >= 0),
            final(self)@ == old(self)@.with_holders(
                failed_at(old(self)@.holders, start_timestamp as int, description@),
            ),
    {
        proof {
            use_type_invariant(&*self);
            lemma_index_of_start(self@.holders, start_timestamp as int);
        }
        let ghost before = self@.holders;
        let ghost period = self@.period;
        let mut holders: Vec<PearlTimestampHolder> = Vec::new();
        std::mem::swap(&mut self.holders, &mut holders);
        assert(self@.holders =~= Seq::<HolderView>::empty());
        let present = find_start(&holders, start_timestamp);
        let found = match present {
            Some(i) => {
                holders[i].fail(description);
                true
            },
            None => false,
        };
        proof {
            assert(views(holders@) =~= failed_at(before, start_timestamp as int, description@));
            lemma_same_windows_in_order(before, views(holders@), period);
        }
        self.holders = holders;
        found
    }

    /// Starts the group, from the names of the subdirectories of its
    /// directory and the current time in seconds: reads the partitions that
    /// the names stand for, makes the partition of the current window if
    /// there is none, and opens the storage of each partition. After an
    /// error the caller waits and starts the group again.
    pub fn run(&mut self, names: &Vec<String>, now: i64) -> (r: Result<(), Error>)
        ensures
            final(self).inv(),
            final(self).spec_settings() == old(self).spec_settings(),
            final(self)@ == old(self)@.with_holders(
                run_holders(old(self)@.holders, old(self)@.period, names@, now as int).0,
            ),
            match r {
                Ok(_) => run_holders(old(self)@.holders, old(self)@.period, names@, now as int).1
                    is None,
                Err(e) => run_holders(old(self)@.holders, old(self)@.period, names@, now as int).1
                    is Some && e is Failed,
            },
    {
        proof {
            use_type_invariant(&*self);
            lemma_run_in_order(self@.holders, self@.period, names@, now as int);
        }
        let ghost period = self@.period;
        let found = self.settings.read_vdisk_directory(names);
        let _ = self.add_range(found);
        proof {
            use_type_invariant(&*self);
            lemma_with_current_in_order(self@.holders, period, now as int);
        }
        let ghost scanned = self@.holders;
        let mut holders: Vec<PearlTimestampHolder> = Vec::new();
        std::mem::swap(&mut self.holders, &mut holders);
        assert(self@.holders =~= Seq::<HolderView>::empty());
        proof {
            lemma_index_of_start(scanned, align_down(now as int, period));
            lemma_align_down(now as int, period);
        }
        let made: Result<(), Error> = match self.settings.create_current_pearl(now) {
            Ok(holder) => {
                match find_start(&holders, holder.start_timestamp()) {
                    Some(_) => {},
                    None => {
                        let position = find_position(&holders, holder.start_timestamp());
                        insert_at(&mut holders, position, holder);
                    },
                }
                Ok(())
            },
            Err(e) => Err(e),
        };
        assert(views(holders@) == with_current(scanned, period, now as int).0);
        if made.is_ok() {
            let ghost populated = views(holders@);
            let mut i: usize = 0;
            while i < holders.len()
                invariant
                    i <= holders@.len(),
                    holders@.len() == populated.len(),
                    forall|k: int|
                        0 <= k < i ==> (#[trigger] holders@[k])@ == populated[k].with_log(
                            populated[k].log.prepare().0,
                        ),
                    forall|k: int| i <= k < holders@.len() ==> (#[trigger] holders@[k])@ == populated[k],
                decreases holders@.len() - i,
            {
                let _ = holders[i].prepare();
                i = i + 1;
            }
            proof {
                assert(views(holders@) =~= prepared(populated));
            }
        }
        self.holders = holders;
        made
    }
}

} // verus!
