//! The rules of time and of the layout on disk: where the window of a
//! timestamp starts, how directories are named, and which of several records
//! of a key is the latest.

use crate::configs::NodeConfig;
use crate::data::{BobData, DiskPath, DiskPathView, Payload, VDiskId};
use crate::group::{views, GroupView, PearlGroup};
use crate::decimal::{
    i64_to_string, int_text, parse_i64, parse_i64_spec, parse_u32, parse_u32_spec, u64_to_string,
};
use crate::error::Error;
use crate::holder::{HolderState, HolderView, LogView, PearlHolder, PearlTimestampHolder};
use crate::mapper::{disk_position, has_replica_on_node, ids_on_disk, Virtual};
use crate::operation::BackendOperation;
use crate::operation::{BackendGetResult, GetResult};
use crate::text::str_equal;
use std::sync::Arc;
use vstd::arithmetic::div_mod::{lemma_fundamental_div_mod, lemma_fundamental_div_mod_converse};
use vstd::prelude::*;
use vstd::string::*;

verus! {

/// The start of the window that holds the timestamp `ts`, for windows of
/// length `period` that start at the multiples of `period`.
pub open spec fn align_down(ts: int, period: int) -> int {
    (ts / period) * period
}

/// True when the window of `ts` lies within the timestamps of 64 bits.
pub open spec fn window_fits(ts: int, period: int) -> bool {
    i64::MIN <= align_down(ts, period) && align_down(ts, period) + period <= i64::MAX
}

/// True when the window of length `period` that starts at `start` lies
/// within the timestamps of 64 bits.
pub open spec fn window_in_range(start: int, period: int) -> bool {
    i64::MIN <= start && start + period <= i64::MAX
}

/// A number is a multiple of `d` exactly when its negation is.
pub proof fn lemma_negated_remainder(x: int, d: int)
    requires
        d > 0,
    ensures
        (x % d == 0) <==> ((-x) % d == 0),
{
    vstd::arithmetic::div_mod::lemma_fundamental_div_mod(x, d);
    vstd::arithmetic::div_mod::lemma_fundamental_div_mod(-x, d);
    if x % d == 0 {
        assert(-x == d * (-(x / d))) by (nonlinear_arith)
            requires
                x == d * (x / d),
        ;
        vstd::arithmetic::div_mod::lemma_mod_multiples_basic(-(x / d), d);
    }
    if (-x) % d == 0 {
        assert(x == d * (-((-x) / d))) by (nonlinear_arith)
            requires
                -x == d * ((-x) / d),
        ;
        vstd::arithmetic::div_mod::lemma_mod_multiples_basic(-((-x) / d), d);
    }
}


/// The window of a timestamp starts at a multiple of the period and holds the timestamp.
pub proof fn lemma_align_down(ts: int, period: int)
    requires
        period > 0,
    ensures
        align_down(ts, period) % period == 0,
        align_down(ts, period) <= ts < align_down(ts, period) + period,
{
    lemma_fundamental_div_mod(ts, period);
    vstd::arithmetic::div_mod::lemma_mod_multiples_basic(ts / period, period);
    assert((ts / period) * period == period * (ts / period)) by (nonlinear_arith);
}

/// The start of the window that holds `ts`, if the window lies within the
/// timestamps of 64 bits.
pub fn start_of_window(ts: i64, period: i64) -> (r: Option<i64>)
    requires
        period > 0,
    ensures
        r == if window_fits(ts as int, period as int) {
            Some(align_down(ts as int, period as int) as i64)
        } else {
            None
        },
{
    let rem: i64 = ts % period;
    proof {
        lemma_align_down(ts as int, period as int);
    }
    let start: i64 = if ts >= 0 {
        proof {
            lemma_fundamental_div_mod(ts as int, period as int);
            assert((ts as int / period as int) * period == period * (ts as int / period as int))
                by (nonlinear_arith);
        }
        ts - rem
    } else if rem == 0 {
        proof {
            lemma_negated_remainder(ts as int, period as int);
            lemma_fundamental_div_mod(ts as int, period as int);
            assert((ts as int / period as int) * period == period * (ts as int / period as int))
                by (nonlinear_arith);
        }
        ts
    } else {
        // here -period < rem < 0, and the window starts at ts - rem - period
        proof {
            let m = (-(ts as int)) % (period as int);
            let q = (-(ts as int)) / (period as int);
            lemma_fundamental_div_mod(-(ts as int), period as int);
            assert(ts as int == (-q - 1) * period + (period - m)) by (nonlinear_arith)
                requires
                    -(ts as int) == period * q + m,
            ;
            lemma_fundamental_div_mod_converse(ts as int, period as int, -q - 1, period - m);
            assert(align_down(ts as int, period as int) == ts - rem - period);
        }
        if ts - rem < i64::MIN + period {
            return None;
        }
        ts - rem - period
    };
    if start > i64::MAX - period {
        None
    } else {
        Some(start)
    }
}

/// The position of the latest payload: the one with the greatest timestamp,
/// and among those with the same timestamp the last. For an empty sequence, -1.
pub open spec fn latest(s: Seq<Payload>) -> int
    decreases s.len(),
{
    if s.len() == 0 {
        -1
    } else {
        let before = latest(s.drop_last());
        if before >= 0 && s[before].timestamp > s.last().timestamp {
            before
        } else {
            s.len() - 1
        }
    }
}

/// What `latest` finds: a position of the sequence whose timestamp no other
/// exceeds and no later one equals.
pub proof fn lemma_latest(s: Seq<Payload>)
    requires
        s.len() > 0,
    ensures
        0 <= latest(s) < s.len(),
        forall|j: int| 0 <= j < s.len() ==> (#[trigger] s[j]).timestamp <= s[latest(s)].timestamp,
        forall|j: int| latest(s) < j < s.len() ==> (#[trigger] s[j]).timestamp < s[latest(
            s,
        )].timestamp,
    decreases s.len(),
{
    if s.len() > 1 {
        lemma_latest(s.drop_last());
        let before = latest(s.drop_last());
        assert(forall|j: int| 0 <= j < s.len() - 1 ==> s[j] == s.drop_last()[j]);
        assert(s[before] == s.drop_last()[before]);
    } else {
        assert(latest(s.drop_last()) == -1);
    }
}

/// The payloads of a list of read results.
pub open spec fn payloads_of(records: Seq<BackendGetResult>) -> Seq<Payload> {
    Seq::new(records.len(), |i: int| records[i].data@)
}

/// Of several records of one key, the latest: the one with the greatest
/// timestamp, and among those with the same timestamp the last in the list.
/// An empty list means that the key was not found.
pub fn choose_data(records: Vec<BackendGetResult>) -> (r: GetResult)
    ensures
        records@.len() == 0 ==> r == Err::<BackendGetResult, Error>(Error::KeyNotFound),
        records@.len() > 0 ==> (r matches Ok(found) && found.data@ == payloads_of(
            records@,
        )[latest(payloads_of(records@))]),
{
    if records.len() == 0 {
        return Err(Error::KeyNotFound);
    }
    let ghost all = payloads_of(records@);
    let mut best: usize = 0;
    let mut i: usize = 1;
    proof {
        assert(all.take(1).drop_last() =~= Seq::<Payload>::empty());
        assert(latest(all.take(1).drop_last()) == -1);
    }
    while i < records.len()
        invariant
            1 <= i <= records@.len(),
            all == payloads_of(records@),
            best == latest(all.take(i as int)),
            0 <= best < i,
        decreases records@.len() - i,
    {
        proof {
            assert(all.take(i + 1).drop_last() =~= all.take(i as int));
            assert(all.take(i + 1).last() == records@[i as int].data@);
            assert(all.take(i + 1)[best as int] == records@[best as int].data@);
        }
        if !(records[best].data.meta.timestamp > records[i].data.meta.timestamp) {
            best = i;
        }
        i = i + 1;
    }
    proof {
        assert(all.take(i as int) =~= all);
    }
    let mut records = records;
    let found = records.remove(best);
    Ok(found)
}

/// The path of the directory of a virtual disk on one of the node's own
/// disks: the disk's path, the root directory, the id in decimal, each
/// followed by a slash.
pub open spec fn spec_normal_path(disk_path: Seq<char>, root: Seq<char>, vdisk_id: VDiskId) -> Seq<
    char,
> {
    disk_path + seq!['/'] + root + seq!['/'] + int_text(vdisk_id.spec_as_u32() as int) + seq!['/']
}

/// The path of the directory of the alien data of a node and a virtual disk:
/// the alien folder, the node's name, a slash, the id in decimal, a slash.
pub open spec fn spec_alien_path(alien_folder: Seq<char>, node_name: Seq<char>, vdisk_id: VDiskId) -> Seq<
    char,
> {
    alien_folder + node_name + seq!['/'] + int_text(vdisk_id.spec_as_u32() as int) + seq!['/']
}

/// The path of the directory of a time partition: the directory of its
/// group, the start of its window in decimal, a slash.
pub open spec fn spec_holder_path(group_path: Seq<char>, start: int) -> Seq<char> {
    group_path + int_text(start) + seq!['/']
}

/// The settings as a mathematical value.
pub struct SettingsView {
    /// The name of the directory of the node's own data.
    pub root_dir_name: Seq<char>,
    /// The path of the directory of alien data, with its closing slash.
    pub alien_folder: Seq<char>,
    /// The name of the disk reserved for alien data.
    pub alien_disk: Seq<char>,
    /// The length of a window, in seconds.
    pub period: int,
    /// The delay before a failed stage of a group's start is repeated, in milliseconds.
    pub fail_retry_timeout: int,
}

/// The rules of time and of the layout on disk for one node.
pub struct Settings {
    bob_prefix_path: String,
    alien_folder: String,
    alien_disk: String,
    timestamp_period: i64,
    fail_retry_timeout: u64,
    mapper: Arc<Virtual>,
}

impl View for Settings {
    type V = SettingsView;

    closed spec fn view(&self) -> SettingsView {
        SettingsView {
            root_dir_name: self.bob_prefix_path@,
            alien_folder: self.alien_folder@,
            alien_disk: self.alien_disk@,
            period: self.timestamp_period as int,
            fail_retry_timeout: self.fail_retry_timeout as int,
        }
    }
}

impl Settings {
    /// The period is positive.
    #[verifier::type_invariant]
    pub open spec fn inv(&self) -> bool {
        0 < self@.period <= i64::MAX
    }

    /// The placement map that the settings work with.
    pub closed spec fn spec_mapper(&self) -> Virtual {
        *self.mapper
    }

    /// The settings that the options of a node give: none if the options
    /// have no part for the time-partitioned engine, if the period is not
    /// positive, or if the node has no disk of the name given for the alien
    /// disk. The alien folder is the directory for alien data under the
    /// path of the first disk of that name.
    pub open spec fn view_for(config: NodeConfig, mapper: Virtual) -> Option<SettingsView> {
        match config.pearl {
            None => None,
            Some(pearl) => {
                let disks = mapper.spec_local_disks();
                let found = disk_position(disks, pearl.alien_disk@, 0);
                if pearl.settings.timestamp_period <= 0 || found >= disks.len() {
                    None
                } else {
                    Some(
                        SettingsView {
                            root_dir_name: pearl.settings.root_dir_name@,
                            alien_folder: disks[found].path@ + seq!['/']
                                + pearl.settings.alien_root_dir_name@ + seq!['/'],
                            alien_disk: pearl.alien_disk@,
                            period: pearl.settings.timestamp_period as int,
                            fail_retry_timeout: pearl.fail_retry_timeout as int,
                        },
                    )
                }
            },
        }
    }

    /// The settings of a node with the time-partitioned engine, if its
    /// options give any.
    pub fn new(config: &NodeConfig, mapper: Arc<Virtual>) -> (r: Option<Self>)
        ensures
            match r {
                Some(s) => s.inv() && s.spec_mapper() == *mapper && Self::view_for(*config, *mapper)
                    == Some(s@),
                None => Self::view_for(*config, *mapper) is None,
            },
    {
        let pearl = match &config.pearl {
            Some(pearl) => pearl,
            None => {
                return None;
            },
        };
        if pearl.settings.timestamp_period <= 0 {
            return None;
        }
        let disk = match mapper.get_disk_by_name(pearl.alien_disk.as_str()) {
            Some(disk) => disk,
            None => {
                return None;
            },
        };
        proof {
            reveal_strlit("/");
            assert("/"@ =~= seq!['/']);
        }
        let alien_folder = disk.path.clone().concat("/").concat(
            pearl.settings.alien_root_dir_name.as_str(),
        ).concat("/");
        Some(
            Settings {
                bob_prefix_path: pearl.settings.root_dir_name.clone(),
                alien_folder,
                alien_disk: pearl.alien_disk.clone(),
                timestamp_period: pearl.settings.timestamp_period,
                fail_retry_timeout: pearl.fail_retry_timeout,
                mapper,
            },
        )
    }

    pub fn mapper(&self) -> (r: &Virtual)
        ensures
            *r == self.spec_mapper(),
    {
        &*self.mapper
    }

    /// The length of a window, in seconds.
    pub fn get_timestamp_period(&self) -> (r: i64)
        ensures
            r == self@.period,
            r > 0,
    {
        proof {
            use_type_invariant(self);
        }
        self.timestamp_period
    }

    /// The delay before a failed stage of a group's start is repeated, in milliseconds.
    pub fn fail_retry_timeout(&self) -> (r: u64)
        ensures
            r == self@.fail_retry_timeout,
    {
        self.fail_retry_timeout
    }

    /// The path of the directory of alien data, with its closing slash.
    pub fn alien_folder(&self) -> (r: &str)
        ensures
            r@ == self@.alien_folder,
    {
        self.alien_folder.as_str()
    }

    /// The name of the disk reserved for alien data.
    pub fn alien_disk(&self) -> (r: &str)
        ensures
            r@ == self@.alien_disk,
    {
        self.alien_disk.as_str()
    }

    /// The start of the window that holds the time `now`, in seconds.
    pub fn get_current_timestamp_start(&self, now: i64) -> (r: Result<i64, Error>)
        ensures
            match r {
                Ok(start) => window_fits(now as int, self@.period) && start == align_down(
                    now as int,
                    self@.period,
                ),
                Err(e) => !window_fits(now as int, self@.period) && e is Failed,
            },
    {
        proof {
            use_type_invariant(self);
        }
        match start_of_window(now, self.timestamp_period) {
            Some(start) => Ok(start),
            None => Err(Error::Failed(String::from_str("the window of the timestamp is out of range"))),
        }
    }

    /// The view of the partition that `create_pearl` makes for a timestamp:
    /// created, without records, over the window of the timestamp, which
    /// starts at a multiple of the period.
    pub open spec fn fresh_holder(period: int, ts: int) -> HolderView {
        created_holder(align_down(ts, period), period, int_text(align_down(ts, period)))
    }

    /// A new partition over the window that holds the timestamp `ts`.
    fn create_pearl_by_timestamp(&self, ts: i64) -> (r: Result<PearlTimestampHolder, Error>)
        ensures
            match r {
                Ok(h) => window_fits(ts as int, self@.period) && h.inv() && h@
                    == Self::fresh_holder(self@.period, ts as int),
                Err(e) => !window_fits(ts as int, self@.period) && e is Failed,
            },
    {
        proof {
            use_type_invariant(self);
            lemma_align_down(ts as int, self@.period);
        }
        let start = match start_of_window(ts, self.timestamp_period) {
            Some(start) => start,
            None => {
                return Err(
                    Error::Failed(String::from_str("the window of the timestamp is out of range")),
                );
            },
        };
        let end: i64 = start + self.timestamp_period;
        match PearlTimestampHolder::new(PearlHolder::new(), start, end) {
            Some(holder) => Ok(holder),
            None => Err(Error::Internal),
        }
    }

    /// A new partition over the window that holds the time `now`.
    pub fn create_current_pearl(&self, now: i64) -> (r: Result<PearlTimestampHolder, Error>)
        ensures
            match r {
                Ok(h) => window_fits(now as int, self@.period) && h.inv() && h@
                    == Self::fresh_holder(self@.period, now as int),
                Err(e) => !window_fits(now as int, self@.period) && e is Failed,
            },
    {
        self.create_pearl_by_timestamp(now)
    }

    /// A new partition over the window that holds the timestamp of the payload.
    pub fn create_pearl(&self, data: &BobData) -> (r: Result<PearlTimestampHolder, Error>)
        ensures
            match r {
                Ok(h) => window_fits(data@.timestamp as int, self@.period) && h.inv() && h@
                    == Self::fresh_holder(self@.period, data@.timestamp as int),
                Err(e) => !window_fits(data@.timestamp as int, self@.period) && e is Failed,
            },
    {
        self.create_pearl_by_timestamp(data.meta.timestamp)
    }

    /// True when the window of the partition holds the timestamp of the payload.
    pub fn is_actual(&self, pearl: &PearlTimestampHolder, data: &BobData) -> (r: bool)
        ensures
            r == pearl@.covers(data@.timestamp as int),
    {
        pearl.is_actual(data)
    }

    /// True when the partition is the current one: its window starts where
    /// the window of the time `now` starts.
    pub fn is_actual_pearl(&self, pearl: &PearlTimestampHolder, now: i64) -> (r: Result<
        bool,
        Error,
    >)
        ensures
            match r {
                Ok(b) => window_fits(now as int, self@.period) && b == (pearl@.start == align_down(
                    now as int,
                    self@.period,
                )),
                Err(e) => !window_fits(now as int, self@.period) && e is Failed,
            },
    {
        match self.get_current_timestamp_start(now) {
            Ok(start) => Ok(pearl.start_timestamp() == start),
            Err(e) => Err(e),
        }
    }

    /// The path of the directory of a virtual disk on one of the node's own disks.
    pub fn normal_path(&self, disk_path: &str, vdisk_id: VDiskId) -> (r: String)
        ensures
            r@ == spec_normal_path(disk_path@, self@.root_dir_name, vdisk_id),
    {
        proof {
            reveal_strlit("/");
            assert("/"@ =~= seq!['/']);
        }
        let id = u64_to_string(vdisk_id.as_u32() as u64);
        String::from_str(disk_path).concat("/").concat(self.bob_prefix_path.as_str()).concat(
            "/",
        ).concat(id.as_str()).concat("/")
    }

    /// The path of the directory of the alien data of a node and a virtual disk.
    pub fn alien_path(&self, vdisk_id: VDiskId, node_name: &str) -> (r: String)
        ensures
            r@ == spec_alien_path(self@.alien_folder, node_name@, vdisk_id),
    {
        proof {
            reveal_strlit("/");
            assert("/"@ =~= seq!['/']);
        }
        let id = u64_to_string(vdisk_id.as_u32() as u64);
        self.alien_folder.clone().concat(node_name).concat("/").concat(id.as_str()).concat("/")
    }

    /// The path of the directory of a time partition in the group whose
    /// directory is `group_path`: the directory of the group, the name of
    /// the directory of the partition, a slash.
    pub fn holder_directory(group_path: &str, holder: &PearlTimestampHolder) -> (r: String)
        ensures
            r@ == group_path@ + holder@.directory + seq!['/'],
    {
        proof {
            reveal_strlit("/");
            assert("/"@ =~= seq!['/']);
        }
        String::from_str(group_path).concat(holder.directory_name()).concat("/")
    }

    /// The path of the directory of the time partition that starts at `start`
    /// in the group whose directory is `group_path`, for a partition that
    /// the library has made.
    pub fn holder_path(group_path: &str, start: i64) -> (r: String)
        ensures
            r@ == spec_holder_path(group_path@, start as int),
    {
        proof {
            reveal_strlit("/");
            assert("/"@ =~= seq!['/']);
        }
        let name = i64_to_string(start);
        String::from_str(group_path).concat(name.as_str()).concat("/")
    }
}

/// A partition that was made and not opened yet: over the window of length
/// `period` that starts at `start`, in the directory of the given name,
/// without records.
pub open spec fn created_holder(start: int, period: int, directory: Seq<char>) -> HolderView {
    HolderView {
        start,
        end: start + period,
        directory,
        log: LogView { state: HolderState::Created, failure: Seq::empty(), records: Map::empty() },
    }
}

/// The partition made for a timestamp is a window of the period's length
/// that starts at a multiple of the period and holds the timestamp.
pub proof fn lemma_fresh_holder(period: int, ts: int)
    requires
        0 < period <= i64::MAX,
        window_fits(ts, period),
    ensures
        Settings::fresh_holder(period, ts).is_window(),
        Settings::fresh_holder(period, ts).period() == period,
        Settings::fresh_holder(period, ts).start % period == 0,
        Settings::fresh_holder(period, ts).is_aligned(),
        Settings::fresh_holder(period, ts).covers(ts),
{
    lemma_align_down(ts, period);
}

/// The partitions that the names of the subdirectories of a group's
/// directory stand for, in the order of the names: one, created and without
/// records, for each name that writes a signed 64-bit integer `s`, over the
/// window `[s, s + period)` and in the directory of that name. A name that
/// writes no such integer is passed
/// over, and so is one whose window would end beyond the timestamps of 64 bits.
pub open spec fn holders_from_names(names: Seq<String>, period: int) -> Seq<HolderView>
    decreases names.len(),
{
    if names.len() == 0 {
        Seq::empty()
    } else {
        let rest = holders_from_names(names.drop_last(), period);
        match parse_i64_spec(names.last()@) {
            Some(start) => if window_in_range(start as int, period) {
                rest.push(created_holder(start as int, period, names.last()@))
            } else {
                rest
            },
            None => rest,
        }
    }
}

/// Each partition read from the names of directories is a window of the period's length.
pub proof fn lemma_holders_from_names(names: Seq<String>, period: int)
    requires
        0 < period <= i64::MAX,
    ensures
        forall|i: int|
            0 <= i < holders_from_names(names, period).len() ==> (#[trigger] holders_from_names(
                names,
                period,
            )[i]).is_window() && holders_from_names(names, period)[i].period() == period,
    decreases names.len(),
{
    if names.len() > 0 {
        let rest = holders_from_names(names.drop_last(), period);
        let all = holders_from_names(names, period);
        lemma_holders_from_names(names.drop_last(), period);
        match parse_i64_spec(names.last()@) {
            Some(start) => {
                if window_in_range(start as int, period) {
                    let fresh = created_holder(start as int, period, names.last()@);
                    assert(fresh.is_window() && fresh.period() == period);
                    assert(all == rest.push(fresh));
                    assert forall|i: int| 0 <= i < all.len() implies (#[trigger] all[i]).is_window()
                        && all[i].period() == period by {
                        if i < rest.len() {
                            assert(all[i] == rest[i]);
                        }
                    }
                }
            },
            None => {},
        }
    }
}

/// Where every name writes a signed 64-bit integer whose window lies within
/// the timestamps, the names stand for one partition each: the partition at
/// position `i` is the one over `[s, s + period)` for the integer `s` that
/// the name at position `i` writes, in the directory of that name.
pub proof fn lemma_one_holder_for_each_name(names: Seq<String>, period: int)
    requires
        forall|i: int|
            0 <= i < names.len() ==> (parse_i64_spec(#[trigger] names[i]@) matches Some(s)
                && window_in_range(s as int, period)),
    ensures
        holders_from_names(names, period).len() == names.len(),
        forall|i: int|
            0 <= i < names.len() ==> #[trigger] holders_from_names(names, period)[i]
                == created_holder(parse_i64_spec(names[i]@)->0 as int, period, names[i]@),
    decreases names.len(),
{
    if names.len() > 0 {
        let rest = names.drop_last();
        assert forall|i: int| 0 <= i < rest.len() implies (parse_i64_spec(
            #[trigger] rest[i]@,
        ) matches Some(s) && window_in_range(s as int, period)) by {
            assert(rest[i] == names[i]);
        }
        lemma_one_holder_for_each_name(rest, period);
        assert(names.last() == names[names.len() - 1]);
        assert forall|i: int| 0 <= i < names.len() implies #[trigger] holders_from_names(
            names,
            period,
        )[i] == created_holder(parse_i64_spec(names[i]@)->0 as int, period, names[i]@) by {
            if i < rest.len() {
                assert(rest[i] == names[i]);
                assert(holders_from_names(names, period)[i] == holders_from_names(rest, period)[i]);
            }
        }
    }
}

impl Settings {
    /// The partitions that the subdirectories of a group's directory stand
    /// for, from the names of those subdirectories.
    pub fn read_vdisk_directory(&self, names: &Vec<String>) -> (r: Vec<PearlTimestampHolder>)
        ensures
            views(r@) == holders_from_names(names@, self@.period),
            forall|i: int| 0 <= i < r@.len() ==> (#[trigger] r@[i]).inv(),
    {
        proof {
            use_type_invariant(self);
        }
        let period = self.timestamp_period;
        let mut pearls: Vec<PearlTimestampHolder> = Vec::new();
        let mut i: usize = 0;
        proof {
            assert(names@.take(0) =~= Seq::<String>::empty());
            assert(views(pearls@) =~= holders_from_names(names@.take(0), period as int));
        }
        while i < names.len()
            invariant
                i <= names@.len(),
                period == self@.period,
                period > 0,
                views(pearls@) == holders_from_names(names@.take(i as int), period as int),
                forall|k: int| 0 <= k < pearls@.len() ==> (#[trigger] pearls@[k]).inv(),
            decreases names@.len() - i,
        {
            proof {
                assert(names@.take(i + 1).drop_last() =~= names@.take(i as int));
                assert(names@.take(i + 1).last() == names@[i as int]);
            }
            let ghost earlier = views(pearls@);
            match parse_i64(names[i].as_str()) {
                Some(start) => {
                    if start <= i64::MAX - period {
                        match PearlTimestampHolder::in_directory(
                            PearlHolder::new(),
                            start,
                            start + period,
                            names[i].clone(),
                        ) {
                            Some(holder) => {
                                pearls.push(holder);
                                proof {
                                    assert(views(pearls@) =~= earlier.push(holder@));
                                }
                            },
                            None => {},
                        }
                    }
                },
                None => {},
            }
            i = i + 1;
        }
        proof {
            assert(names@.take(i as int) =~= names@);
        }
        pearls
    }

    /// True when the cluster has a node of this name.
    pub open spec fn knows_node(&self, name: Seq<char>) -> bool {
        exists|j: int|
            0 <= j < self.spec_mapper().spec_nodes().len() && (
            #[trigger] self.spec_mapper().spec_nodes()[j]).name@ == name
    }

    /// The id that the name of a directory stands for, if it writes the id of
    /// a virtual disk of the cluster.
    pub open spec fn vdisk_of_name(&self, name: Seq<char>) -> Option<VDiskId> {
        match parse_u32_spec(name) {
            Some(id) => if id < self.spec_mapper().spec_vdisks().len() {
                Some(self.spec_mapper().spec_vdisks()[id as int].id)
            } else {
                None
            },
            None => None,
        }
    }

    /// Reads the name of a directory as the name of a node of the cluster.
    pub fn try_parse_node_name(&self, name: &str) -> (r: Result<String, Error>)
        ensures
            match r {
                Ok(found) => self.knows_node(name@) && found@ == name@,
                Err(e) => !self.knows_node(name@) && e is Failed,
            },
    {
        let nodes = self.mapper.nodes();
        let mut j: usize = 0;
        while j < nodes.len()
            invariant
                j <= nodes@.len(),
                nodes@ == self.spec_mapper().spec_nodes(),
                forall|k: int| 0 <= k < j ==> (#[trigger] nodes@[k]).name@ != name@,
            decreases nodes@.len() - j,
        {
            if str_equal(nodes[j].name.as_str(), name) {
                assert(self.spec_mapper().spec_nodes()[j as int].name@ == name@);
                return Ok(nodes[j].name.clone());
            }
            j = j + 1;
        }
        Err(Error::Failed(String::from_str("cannot find node with this name")))
    }

    /// Reads the name of a directory as the id of a virtual disk of the cluster.
    pub fn try_parse_vdisk_id(&self, name: &str) -> (r: Result<VDiskId, Error>)
        ensures
            match r {
                Ok(id) => self.vdisk_of_name(name@) == Some(id),
                Err(e) => self.vdisk_of_name(name@) is None && e is Failed,
            },
    {
        match parse_u32(name) {
            Some(number) => {
                let vdisks = self.mapper.vdisks();
                if (number as usize) < vdisks.len() {
                    Ok(vdisks[number as usize].id)
                } else {
                    Err(Error::Failed(String::from_str("cannot find vdisk with this id")))
                }
            },
            None => Err(Error::Failed(String::from_str("cannot parse the name as vdisk id"))),
        }
    }
}

/// What a scan of the alien folder found: a directory, named after a node,
/// and the names of its subdirectories, each named after a virtual disk.
#[derive(Debug)]
pub struct AlienDirectory {
    pub node_name: String,
    pub vdisks: Vec<String>,
}

/// A group without partitions, as a mathematical value.
pub open spec fn empty_group(
    vdisk_id: VDiskId,
    node_name: Seq<char>,
    disk_name: Seq<char>,
    directory_path: Seq<char>,
    period: int,
) -> GroupView {
    GroupView { vdisk_id, node_name, disk_name, directory_path, period, holders: Seq::empty() }
}

/// The views of a list of groups.
pub open spec fn group_views(gs: Seq<PearlGroup>) -> Seq<GroupView> {
    Seq::new(gs.len(), |i: int| gs[i]@)
}

/// True when each group of the list is well formed and works with the given settings.
pub open spec fn groups_of(gs: Seq<PearlGroup>, settings: Settings) -> bool {
    forall|i: int| 0 <= i < gs.len() ==> (#[trigger] gs[i]).inv() && gs[i].spec_settings() == settings
}

impl Settings {
    /// The groups of one of the node's own disks: one for each virtual disk
    /// that has a replica on that disk of this node, in the order of the
    /// table of virtual disks.
    pub open spec fn groups_on_disk(&self, disk: DiskPathView) -> Seq<GroupView> {
        let local = self.spec_mapper().spec_local_node_name();
        let ids = ids_on_disk(self.spec_mapper().spec_vdisks(), local, disk.name);
        Seq::new(
            ids.len(),
            |k: int|
                empty_group(
                    ids[k],
                    local,
                    disk.name,
                    spec_normal_path(disk.path, self@.root_dir_name, ids[k]),
                    self@.period,
                ),
        )
    }

    /// The groups of the node's own disks, disk by disk.
    pub open spec fn groups_on_disks(&self, disks: Seq<DiskPath>) -> Seq<GroupView>
        decreases disks.len(),
    {
        if disks.len() == 0 {
            Seq::empty()
        } else {
            self.groups_on_disks(disks.drop_last()) + self.groups_on_disk(disks.last()@)
        }
    }

    /// The alien groups that the subdirectories of the directory of one node
    /// stand for, in their order: one for each name that writes the id of a
    /// virtual disk of the cluster of which that node holds a replica.
    pub open spec fn alien_groups_of_node(&self, node_name: Seq<char>, names: Seq<String>) -> Seq<
        GroupView,
    >
        decreases names.len(),
    {
        if names.len() == 0 {
            Seq::empty()
        } else {
            let rest = self.alien_groups_of_node(node_name, names.drop_last());
            match self.vdisk_of_name(names.last()@) {
                Some(id) => if has_replica_on_node(
                    self.spec_mapper().spec_vdisks()[id.spec_as_u32() as int].replicas@,
                    node_name,
                ) {
                    rest.push(
                        empty_group(
                            id,
                            node_name,
                            self@.alien_disk,
                            self@.alien_folder + node_name + seq!['/'] + names.last()@ + seq!['/'],
                            self@.period,
                        ),
                    )
                } else {
                    rest
                },
                None => rest,
            }
        }
    }

    /// The alien groups that a scan of the alien folder stands for:
    /// directory by directory, those of each directory that is named after
    /// a node of the cluster.
    pub open spec fn alien_groups(&self, listing: Seq<AlienDirectory>) -> Seq<GroupView>
        decreases listing.len(),
    {
        if listing.len() == 0 {
            Seq::empty()
        } else {
            let rest = self.alien_groups(listing.drop_last());
            if self.knows_node(listing.last().node_name@) {
                rest + self.alien_groups_of_node(listing.last().node_name@, listing.last().vdisks@)
            } else {
                rest
            }
        }
    }

    /// The groups of the node's own data: for each of its disks, one for
    /// each virtual disk that has a replica there.
    pub fn read_group_from_disk(settings: &Arc<Settings>) -> (r: Vec<PearlGroup>)
        ensures
            group_views(r@) == settings.groups_on_disks(settings.spec_mapper().spec_local_disks()),
            groups_of(r@, **settings),
    {
        let mut result: Vec<PearlGroup> = Vec::new();
        let disks = settings.mapper.local_disks();
        let mut d: usize = 0;
        proof {
            assert(disks@.take(0) =~= Seq::<DiskPath>::empty());
            assert(group_views(result@) =~= settings.groups_on_disks(disks@.take(0)));
        }
        while d < disks.len()
            invariant
                d <= disks@.len(),
                disks@ == settings.spec_mapper().spec_local_disks(),
                group_views(result@) == settings.groups_on_disks(disks@.take(d as int)),
                groups_of(result@, **settings),
            decreases disks@.len() - d,
        {
            let disk = &disks[d];
            let ids = settings.mapper.get_vdisks_by_disk(disk.name.as_str());
            let ghost done = group_views(result@);
            let ghost here = settings.groups_on_disk(disk@);
            proof {
                assert(disks@.take(d + 1).drop_last() =~= disks@.take(d as int));
                assert(disks@.take(d + 1).last() == disks@[d as int]);
                assert(here.take(0) =~= Seq::<GroupView>::empty());
                assert(group_views(result@) =~= done + here.take(0));
            }
            let mut k: usize = 0;
            while k < ids.len()
                invariant
                    k <= ids@.len(),
                    disk == disks@[d as int],
                    here == settings.groups_on_disk(disk@),
                    ids@ == ids_on_disk(
                        settings.spec_mapper().spec_vdisks(),
                        settings.spec_mapper().spec_local_node_name(),
                        disk.name@,
                    ),
                    group_views(result@) == done + here.take(k as int),
                    groups_of(result@, **settings),
                decreases ids@.len() - k,
            {
                let id = ids[k];
                let path = settings.normal_path(disk.path.as_str(), id);
                let group = PearlGroup::new(
                    settings.clone(),
                    id,
                    String::from_str(settings.mapper.local_node_name()),
                    disk.name.clone(),
                    path,
                );
                let ghost earlier = result@;
                result.push(group);
                proof {
                    assert(here.take(k + 1) =~= here.take(k as int).push(here[k as int]));
                    assert(group@ == here[k as int]);
                    assert(group_views(result@) =~= group_views(earlier).push(group@));
                    assert(group_views(result@) =~= done + here.take(k + 1));
                    assert forall|i: int| 0 <= i < result@.len() implies (#[trigger] result@[i]).inv()
                        && result@[i].spec_settings() == **settings by {
                        if i < earlier.len() {
                            assert(result@[i] == earlier[i]);
                        }
                    }
                }
                k = k + 1;
            }
            proof {
                assert(here.take(k as int) =~= here);
            }
            d = d + 1;
        }
        proof {
            assert(disks@.take(d as int) =~= disks@);
        }
        result
    }

    /// The alien groups that a scan of the alien folder found.
    pub fn read_alien_directory(settings: &Arc<Settings>, listing: &Vec<AlienDirectory>) -> (r: Vec<
        PearlGroup,
    >)
        ensures
            group_views(r@) == settings.alien_groups(listing@),
            groups_of(r@, **settings),
    {
        let mut result: Vec<PearlGroup> = Vec::new();
        let mut d: usize = 0;
        let table = settings.mapper.vdisks();
        proof {
            assert(listing@.take(0) =~= Seq::<AlienDirectory>::empty());
            assert(group_views(result@) =~= settings.alien_groups(listing@.take(0)));
        }
        while d < listing.len()
            invariant
                d <= listing@.len(),
                Virtual::table_in_order(settings.spec_mapper().spec_vdisks()),
                group_views(result@) == settings.alien_groups(listing@.take(d as int)),
                groups_of(result@, **settings),
            decreases listing@.len() - d,
        {
            let directory = &listing[d];
            proof {
                assert(listing@.take(d + 1).drop_last() =~= listing@.take(d as int));
                assert(listing@.take(d + 1).last() == listing@[d as int]);
            }
            match settings.try_parse_node_name(directory.node_name.as_str()) {
                Err(_) => {},
                Ok(node_name) => {
                    let ghost done = group_views(result@);
                    let names = &directory.vdisks;
                    let mut k: usize = 0;
                    proof {
                        assert(names@.take(0) =~= Seq::<String>::empty());
                        assert(group_views(result@) =~= done + settings.alien_groups_of_node(
                            node_name@,
                            names@.take(0),
                        ));
                    }
                    while k < names.len()
                        invariant
                            k <= names@.len(),
                            node_name@ == directory.node_name@,
                            Virtual::table_in_order(settings.spec_mapper().spec_vdisks()),
                            group_views(result@) == done + settings.alien_groups_of_node(
                                node_name@,
                                names@.take(k as int),
                            ),
                            groups_of(result@, **settings),
                        decreases names@.len() - k,
                    {
                        proof {
                            assert(names@.take(k + 1).drop_last() =~= names@.take(k as int));
                            assert(names@.take(k + 1).last() == names@[k as int]);
                        }
                        match settings.try_parse_vdisk_id(names[k].as_str()) {
                            Err(_) => {},
                            Ok(id) => {
                                if settings.mapper.does_node_holds_vdisk(node_name.as_str(), id) {
                                    proof {
                                        reveal_strlit("/");
                                        assert("/"@ =~= seq!['/']);
                                    }
                                    let path = settings.alien_folder.clone().concat(
                                        node_name.as_str(),
                                    ).concat("/").concat(names[k].as_str()).concat("/");
                                    let group = PearlGroup::new(
                                        settings.clone(),
                                        id,
                                        node_name.clone(),
                                        settings.alien_disk.clone(),
                                        path,
                                    );
                                    let ghost earlier = result@;
                                    let ghost so_far = settings.alien_groups_of_node(
                                        node_name@,
                                        names@.take(k as int),
                                    );
                                    result.push(group);
                                    proof {
                                        assert(group_views(result@) =~= group_views(earlier).push(
                                            group@,
                                        ));
                                        assert(group_views(result@) =~= done + so_far.push(group@));
                                        assert forall|i: int| 0 <= i < result@.len() implies (
                                        #[trigger] result@[i]).inv() && result@[i].spec_settings()
                                            == **settings by {
                                            if i < earlier.len() {
                                                assert(result@[i] == earlier[i]);
                                            }
                                        }
                                    }
                                }
                            },
                        }
                        k = k + 1;
                    }
                    proof {
                        assert(names@.take(k as int) =~= names@);
                    }
                },
            }
            d = d + 1;
        }
        proof {
            assert(listing@.take(d as int) =~= listing@);
        }
        result
    }

    /// A new group for the alien data that an operation names: that of its
    /// node and virtual disk. An operation that names no node has none.
    pub fn create_group(settings: &Arc<Settings>, operation: &BackendOperation) -> (r: Result<
        PearlGroup,
        Error,
    >)
        ensures
            match r {
                Ok(g) => {
                    &&& g.inv()
                    &&& g.spec_settings() == **settings
                    &&& operation@.remote_node_name matches Some(name)
                    &&& g@ == empty_group(
                        operation@.vdisk_id,
                        name,
                        settings@.alien_disk,
                        spec_alien_path(settings@.alien_folder, name, operation@.vdisk_id),
                        settings@.period,
                    )
                },
                Err(e) => operation@.remote_node_name is None && e is Internal,
            },
    {
        match &operation.remote_node_name {
            None => Err(Error::Internal),
            Some(name) => {
                let path = settings.alien_path(operation.vdisk_id, name.as_str());
                Ok(
                    PearlGroup::new(
                        settings.clone(),
                        operation.vdisk_id,
                        name.clone(),
                        settings.alien_disk.clone(),
                        path,
                    ),
                )
            },
        }
    }
}

} // verus!
