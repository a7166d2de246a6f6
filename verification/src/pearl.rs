//! The time-partitioned engine: the groups of the node's own data and the
//! groups of alien data, and the way an operation finds its group.

use crate::data::{BobData, BobKey, Payload, VDiskId};
use crate::error::{failure_kind, Error, ErrorKind};
use crate::group::{
    attach_holders, covering, detach_holders, failed_at, get_result, healed_by_read, in_order,
    put_holders, refusal_text, run_holders, shown, GroupView, PearlGroup,
};
use crate::holder::PearlHolder;
use crate::operation::{BackendOperation, GetResult, OperationView, PutResult};
use crate::settings::{
    empty_group, group_views, groups_of, spec_alien_path, AlienDirectory, Settings, SettingsView,
};
use crate::text::str_equal;
use std::sync::Arc;
use vstd::prelude::*;
use vstd::string::*;

verus! {

/// The position of the first group at or after `from` that the operation
/// goes to; the number of groups if there is none.
pub open spec fn serving(groups: Seq<GroupView>, op: OperationView, from: int) -> int
    decreases groups.len() - from,
{
    if from < 0 || from >= groups.len() {
        groups.len() as int
    } else if groups[from].serves(op) {
        from
    } else {
        serving(groups, op, from + 1)
    }
}

/// What `serving` finds is the first group that the operation goes to.
pub proof fn lemma_serving(groups: Seq<GroupView>, op: OperationView, from: int)
    requires
        0 <= from <= groups.len(),
    ensures
        from <= serving(groups, op, from) <= groups.len(),
        serving(groups, op, from) < groups.len() ==> groups[serving(groups, op, from)].serves(op),
        forall|k: int| from <= k < serving(groups, op, from) ==> !(#[trigger] groups[k]).serves(op),
    decreases groups.len() - from,
{
    if from < groups.len() && !groups[from].serves(op) {
        lemma_serving(groups, op, from + 1);
    }
}

/// The engine as a mathematical value.
pub struct EngineView {
    /// The settings that every group works with.
    pub settings: SettingsView,
    /// The groups of the node's own data.
    pub normal: Seq<GroupView>,
    /// The groups of alien data.
    pub alien: Seq<GroupView>,
}

impl EngineView {
    /// What a write of the node's own data does, and the kind of error it
    /// ends with, if any.
    pub open spec fn put(self, op: OperationView, key: u64, data: Payload) -> (
        EngineView,
        Option<ErrorKind>,
    ) {
        let (normal, refused) = put_in(self.normal, op, key, data);
        (EngineView { normal, ..self }, refused)
    }

    /// What a write of alien data does, and the kind of error it ends with, if any.
    pub open spec fn put_alien(self, op: OperationView, key: u64, data: Payload) -> (
        EngineView,
        Option<ErrorKind>,
    ) {
        let (alien, refused) = put_alien_in(self.alien, self.settings, op, key, data);
        (EngineView { alien, ..self }, refused)
    }

    /// What a read of the node's own data does, and what it answers.
    pub open spec fn get(self, op: OperationView, key: u64) -> (
        EngineView,
        Result<Payload, ErrorKind>,
    ) {
        let (normal, answer) = get_in(self.normal, op, key);
        (EngineView { normal, ..self }, answer)
    }

    /// What a read of alien data does, and what it answers.
    pub open spec fn get_alien(self, op: OperationView, key: u64) -> (
        EngineView,
        Result<Payload, ErrorKind>,
    ) {
        let (alien, answer) = get_in(self.alien, op, key);
        (EngineView { alien, ..self }, answer)
    }

    /// What a presence check answers for one key: whether the group that the
    /// operation goes to shows it; `false` where it goes to no group. An
    /// alien operation goes to the alien groups.
    pub open spec fn exist(self, op: OperationView, key: u64) -> bool {
        if op.disk_path is None {
            exist_in(self.alien, op, key) == Some(true)
        } else {
            exist_in(self.normal, op, key) == Some(true)
        }
    }
}

/// True when the partitions of every group of the engine are ordered.
pub open spec fn engine_in_order(e: EngineView) -> bool {
    &&& forall|i: int|
        0 <= i < e.normal.len() ==> in_order((#[trigger] e.normal[i]).holders, e.normal[i].period)
    &&& forall|i: int|
        0 <= i < e.alien.len() ==> in_order((#[trigger] e.alien[i]).holders, e.alien[i].period)
}

/// What a write does to a list of groups, and the kind of error it ends
/// with, if any: the record goes to the first group that the operation goes
/// to; where there is none the virtual disk is not found.
pub open spec fn put_in(groups: Seq<GroupView>, op: OperationView, key: u64, data: Payload) -> (
    Seq<GroupView>,
    Option<ErrorKind>,
) {
    let i = serving(groups, op, 0);
    if i < groups.len() {
        let (holders, refused) = put_holders(groups[i].holders, groups[i].period, key, data);
        (groups.update(i, groups[i].with_holders(holders)), refused)
    } else {
        (groups, Some(ErrorKind::VDiskNoFound))
    }
}

/// What a read does to a list of groups, and what it answers.
pub open spec fn get_in(groups: Seq<GroupView>, op: OperationView, key: u64) -> (
    Seq<GroupView>,
    Result<Payload, ErrorKind>,
) {
    let i = serving(groups, op, 0);
    if i < groups.len() {
        (
            groups.update(i, groups[i].with_holders(healed_by_read(groups[i].holders, key))),
            get_result(groups[i].holders, key),
        )
    } else {
        (groups, Err(ErrorKind::VDiskNoFound))
    }
}

/// What a presence check in a list of groups answers for one key; `None`
/// where the operation goes to no group.
pub open spec fn exist_in(groups: Seq<GroupView>, op: OperationView, key: u64) -> Option<bool> {
    let i = serving(groups, op, 0);
    if i < groups.len() {
        Some(shown(groups[i].holders, key))
    } else {
        None
    }
}

/// What the error of a request carries that finds no group or is refused by
/// a failed log: the number of the virtual disk that was not found is that
/// of the operation, and the text of a storage error is that of the failure
/// which the log reported that takes the writes of the timestamp `t` in the
/// group that the operation goes to.
pub open spec fn error_details(groups: Seq<GroupView>, op: OperationView, t: int, e: Error) -> bool {
    &&& e matches Error::VDiskNoFound(id) ==> id == op.vdisk_id.spec_as_u32()
    &&& e matches Error::StorageError(text) ==> {
        &&& serving(groups, op, 0) < groups.len()
        &&& covering(groups[serving(groups, op, 0)].holders, t) >= 0
        &&& text@ == refusal_text(groups[serving(groups, op, 0)].holders, t)
    }
}

/// What the error of a read carries: the number of the virtual disk that
/// was not found is that of the operation, and a read that met refusals
/// only says so.
pub open spec fn read_error_details(op: OperationView, e: Error) -> bool {
    &&& e matches Error::VDiskNoFound(id) ==> id == op.vdisk_id.spec_as_u32()
    &&& e matches Error::Failed(text) ==> text@ == "cannot read from some pearls"@
}

/// The alien groups after a write: the record goes to the group of the
/// operation's node and virtual disk, which is made where it is missing. An
/// operation that names no node and finds no group is a logic violation.
pub open spec fn put_alien_in(
    groups: Seq<GroupView>,
    settings: SettingsView,
    op: OperationView,
    key: u64,
    data: Payload,
) -> (Seq<GroupView>, Option<ErrorKind>) {
    if serving(groups, op, 0) < groups.len() {
        put_in(groups, op, key, data)
    } else {
        match op.remote_node_name {
            None => (groups, Some(ErrorKind::Internal)),
            Some(name) => {
                let made = empty_group(
                    op.vdisk_id,
                    name,
                    settings.alien_disk,
                    spec_alien_path(settings.alien_folder, name, op.vdisk_id),
                    settings.period,
                );
                let (holders, refused) = put_holders(made.holders, made.period, key, data);
                (groups.push(made.with_holders(holders)), refused)
            },
        }
    }
}

/// Finds the first group that the operation goes to.
fn find_group(groups: &Vec<PearlGroup>, operation: &BackendOperation) -> (r: Option<usize>)
    ensures
        match r {
            Some(i) => i < groups@.len() && i == serving(group_views(groups@), operation@, 0),
            None => serving(group_views(groups@), operation@, 0) == groups@.len(),
        },
{
    let ghost all = group_views(groups@);
    let mut i: usize = 0;
    while i < groups.len()
        invariant
            i <= groups@.len(),
            all == group_views(groups@),
            serving(all, operation@, 0) == serving(all, operation@, i as int),
        decreases groups@.len() - i,
    {
        if groups[i].equal(operation) {
            return Some(i);
        }
        i = i + 1;
    }
    None
}

/// The time-partitioned engine of one node.
pub struct Pearl {
    settings: Arc<Settings>,
    vdisks_groups: Vec<PearlGroup>,
    alien_vdisks_groups: Vec<PearlGroup>,
}

impl View for Pearl {
    type V = EngineView;

    closed spec fn view(&self) -> EngineView {
        EngineView {
            settings: self.settings@,
            normal: group_views(self.vdisks_groups@),
            alien: group_views(self.alien_vdisks_groups@),
        }
    }
}

impl Pearl {
    /// Every group is well formed and works with the settings of the engine.
    #[verifier::type_invariant]
    pub closed spec fn inv(&self) -> bool {
        &&& self.settings.inv()
        &&& groups_of(self.vdisks_groups@, *self.settings)
        &&& groups_of(self.alien_vdisks_groups@, *self.settings)
    }

    /// In every engine the period is positive, and the partitions of every
    /// group are windows of the period's length in the order of their starts.
    pub proof fn lemma_engine_in_order(&self)
        requires
            self.inv(),
        ensures
            0 < self@.settings.period <= i64::MAX,
            engine_in_order(self@),
    {
        assert forall|i: int| 0 <= i < self@.normal.len() implies in_order(
            (#[trigger] self@.normal[i]).holders,
            self@.normal[i].period,
        ) by {
            assert(self.vdisks_groups@[i].inv());
        }
        assert forall|i: int| 0 <= i < self@.alien.len() implies in_order(
            (#[trigger] self@.alien[i]).holders,
            self@.alien[i].period,
        ) by {
            assert(self.alien_vdisks_groups@[i].inv());
        }
    }

    /// The settings of the engine.
    pub closed spec fn spec_settings(&self) -> Settings {
        *self.settings
    }

    /// The engine of a node: with the groups of the node's own data, one for
    /// each of its disks and each virtual disk that has a replica there, and
    /// without alien groups.
    pub fn new(settings: Arc<Settings>) -> (r: Self)
        ensures
            r.inv(),
            r.spec_settings() == *settings,
            r@ == (EngineView {
                settings: settings@,
                normal: settings.groups_on_disks(settings.spec_mapper().spec_local_disks()),
                alien: Seq::empty(),
            }),
    {
        proof {
            use_type_invariant(&*settings);
        }
        let vdisks_groups = Settings::read_group_from_disk(&settings);
        let r = Pearl { settings, vdisks_groups, alien_vdisks_groups: Vec::new() };
        assert(r@.alien =~= Seq::<GroupView>::empty());
        r
    }

    /// Takes the alien groups that a scan of the alien folder found in
    /// place of those that the engine had.
    pub fn load_alien_groups(&mut self, listing: &Vec<AlienDirectory>)
        ensures
            final(self).inv(),
            final(self).spec_settings() == old(self).spec_settings(),
            final(self)@ == (EngineView {
                alien: old(self).spec_settings().alien_groups(listing@),
                ..old(self)@
            }),
    {
        proof {
            use_type_invariant(&*self);
        }
        let groups = Settings::read_alien_directory(&self.settings, listing);
        self.alien_vdisks_groups = groups;
    }

    pub fn settings(&self) -> (r: &Settings)
        ensures
            *r == self.spec_settings(),
            r@ == self@.settings,
    {
        &*self.settings
    }

    /// The groups of the node's own data, for the administrative interface.
    pub fn vdisks_groups(&self) -> (r: &Vec<PearlGroup>)
        ensures
            group_views(r@) == self@.normal,
            groups_of(r@, self.spec_settings()),
    {
        proof {
            use_type_invariant(self);
        }
        &self.vdisks_groups
    }

    /// The groups of alien data.
    pub fn alien_groups(&self) -> (r: &Vec<PearlGroup>)
        ensures
            group_views(r@) == self@.alien,
            groups_of(r@, self.spec_settings()),
    {
        proof {
            use_type_invariant(self);
        }
        &self.alien_vdisks_groups
    }
}

/// Writes a record to the first group of the list that the operation goes to.
fn put_to(
    groups: &mut Vec<PearlGroup>,
    Ghost(settings): Ghost<Settings>,
    operation: &BackendOperation,
    key: BobKey,
    data: BobData,
) -> (r: PutResult)
    requires
        groups_of(old(groups)@, settings),
    ensures
        groups_of(final(groups)@, settings),
        group_views(final(groups)@) == put_in(group_views(old(groups)@), operation@, key.key, data@).0,
        failure_kind(r) == put_in(group_views(old(groups)@), operation@, key.key, data@).1,
        r matches Err(e) ==> error_details(
            group_views(old(groups)@),
            operation@,
            data@.timestamp as int,
            e,
        ),
{
    let ghost before = groups@;
    match find_group(groups, operation) {
        Some(i) => {
            let r = groups[i].put(key, data);
            proof {
                assert(group_views(groups@) =~= put_in(
                    group_views(before),
                    operation@,
                    key.key,
                    data@,
                ).0);
                assert forall|k: int| 0 <= k < groups@.len() implies (#[trigger] groups@[k]).inv()
                    && groups@[k].spec_settings() == settings by {
                    if k != i {
                        assert(groups@[k] == before[k]);
                    }
                }
            }
            r
        },
        None => Err(Error::VDiskNoFound(operation.vdisk_id.as_u32())),
    }
}

/// Reads a key from the first group of the list that the operation goes to.
fn get_from(
    groups: &mut Vec<PearlGroup>,
    Ghost(settings): Ghost<Settings>,
    operation: &BackendOperation,
    key: BobKey,
) -> (r: GetResult)
    requires
        groups_of(old(groups)@, settings),
    ensures
        groups_of(final(groups)@, settings),
        group_views(final(groups)@) == get_in(group_views(old(groups)@), operation@, key.key).0,
        match r {
            Ok(found) => get_in(group_views(old(groups)@), operation@, key.key).1 == Ok::<
                Payload,
                ErrorKind,
            >(found.data@),
            Err(e) => get_in(group_views(old(groups)@), operation@, key.key).1 == Err::<
                Payload,
                ErrorKind,
            >(e.spec_kind()) && read_error_details(operation@, e),
        },
{
    let ghost before = groups@;
    match find_group(groups, operation) {
        Some(i) => {
            let r = groups[i].get(key);
            proof {
                assert(group_views(groups@) =~= get_in(group_views(before), operation@, key.key).0);
                assert forall|k: int| 0 <= k < groups@.len() implies (#[trigger] groups@[k]).inv()
                    && groups@[k].spec_settings() == settings by {
                    if k != i {
                        assert(groups@[k] == before[k]);
                    }
                }
            }
            r
        },
        None => Err(Error::VDiskNoFound(operation.vdisk_id.as_u32())),
    }
}

/// Checks the presence of keys in the first group of the list that the
/// operation goes to.
fn exist_among(groups: &Vec<PearlGroup>, operation: &BackendOperation, keys: &Vec<BobKey>) -> (r:
    Result<Vec<bool>, Error>)
    ensures
        match r {
            Ok(found) => found@.len() == keys@.len() && forall|i: int|
                0 <= i < keys@.len() ==> exist_in(
                    group_views(groups@),
                    operation@,
                    (#[trigger] keys@[i]).key,
                ) == Some(found@[i]),
            Err(e) => serving(group_views(groups@), operation@, 0) == groups@.len()
                && e == Error::VDiskNoFound(operation@.vdisk_id.spec_as_u32()),
        },
{
    match find_group(groups, operation) {
        Some(i) => groups[i].exist(keys),
        None => Err(Error::VDiskNoFound(operation.vdisk_id.as_u32())),
    }
}

impl Pearl {
    /// Writes a record of the node's own data: to the group of the
    /// operation's disk and virtual disk.
    pub fn put(&mut self, operation: BackendOperation, key: BobKey, data: BobData) -> (r: PutResult)
        ensures
            final(self).inv(),
            final(self).spec_settings() == old(self).spec_settings(),
            (final(self)@, failure_kind(r)) == old(self)@.put(operation@, key.key, data@),
            r matches Err(e) ==> error_details(
                old(self)@.normal,
                operation@,
                data@.timestamp as int,
                e,
            ),
    {
        proof {
            use_type_invariant(&*self);
        }
        let mut groups: Vec<PearlGroup> = Vec::new();
        std::mem::swap(&mut self.vdisks_groups, &mut groups);
        let ghost settings = self.spec_settings();
        let r = put_to(&mut groups, Ghost(settings), &operation, key, data);
        self.vdisks_groups = groups;
        r
    }

    /// Writes a record of alien data: to the group of the operation's node
    /// and virtual disk, which is made on the first write to it.
    pub fn put_alien(&mut self, operation: BackendOperation, key: BobKey, data: BobData) -> (r:
        PutResult)
        ensures
            final(self).inv(),
            final(self).spec_settings() == old(self).spec_settings(),
            (final(self)@, failure_kind(r)) == old(self)@.put_alien(operation@, key.key, data@),
            r matches Err(e) ==> error_details(
                old(self)@.alien,
                operation@,
                data@.timestamp as int,
                e,
            ),
    {
        proof {
            use_type_invariant(&*self);
        }
        let ghost settings = self.spec_settings();
        let mut groups: Vec<PearlGroup> = Vec::new();
        std::mem::swap(&mut self.alien_vdisks_groups, &mut groups);
        let r = if find_group(&groups, &operation).is_some() {
            put_to(&mut groups, Ghost(settings), &operation, key, data)
        } else {
            match Settings::create_group(&self.settings, &operation) {
                Err(e) => Err(e),
                Ok(group) => {
                    let mut group = group;
                    let written = group.put(key, data);
                    let ghost earlier = groups@;
                    groups.push(group);
                    proof {
                        assert(group_views(groups@) =~= group_views(earlier).push(group@));
                        assert forall|k: int| 0 <= k < groups@.len() implies (
                        #[trigger] groups@[k]).inv() && groups@[k].spec_settings()
                            == *self.settings by {
                            if k < earlier.len() {
                                assert(groups@[k] == earlier[k]);
                            }
                        }
                    }
                    written
                },
            }
        };
        self.alien_vdisks_groups = groups;
        r
    }

    /// Reads a key of the node's own data.
    pub fn get(&mut self, operation: BackendOperation, key: BobKey) -> (r: GetResult)
        ensures
            final(self).inv(),
            final(self).spec_settings() == old(self).spec_settings(),
            final(self)@ == old(self)@.get(operation@, key.key).0,
            match r {
                Ok(found) => old(self)@.get(operation@, key.key).1 == Ok::<Payload, ErrorKind>(
                    found.data@,
                ),
                Err(e) => old(self)@.get(operation@, key.key).1 == Err::<Payload, ErrorKind>(
                    e.spec_kind(),
                ) && read_error_details(operation@, e),
            },
    {
        proof {
            use_type_invariant(&*self);
        }
        let mut groups: Vec<PearlGroup> = Vec::new();
        std::mem::swap(&mut self.vdisks_groups, &mut groups);
        let ghost settings = self.spec_settings();
        let r = get_from(&mut groups, Ghost(settings), &operation, key);
        self.vdisks_groups = groups;
        r
    }

    /// Reads a key of alien data.
    pub fn get_alien(&mut self, operation: BackendOperation, key: BobKey) -> (r: GetResult)
        ensures
            final(self).inv(),
            final(self).spec_settings() == old(self).spec_settings(),
            final(self)@ == old(self)@.get_alien(operation@, key.key).0,
            match r {
                Ok(found) => old(self)@.get_alien(operation@, key.key).1 == Ok::<
                    Payload,
                    ErrorKind,
                >(found.data@),
                Err(e) => old(self)@.get_alien(operation@, key.key).1 == Err::<Payload, ErrorKind>(
                    e.spec_kind(),
                ) && read_error_details(operation@, e),
            },
    {
        proof {
            use_type_invariant(&*self);
        }
        let mut groups: Vec<PearlGroup> = Vec::new();
        std::mem::swap(&mut self.alien_vdisks_groups, &mut groups);
        let ghost settings = self.spec_settings();
        let r = get_from(&mut groups, Ghost(settings), &operation, key);
        self.alien_vdisks_groups = groups;
        r
    }

    /// Says for each key whether the group of the node's own data that the
    /// operation goes to shows it.
    pub fn exist(&self, operation: BackendOperation, keys: &Vec<BobKey>) -> (r: Result<
        Vec<bool>,
        Error,
    >)
        ensures
            match r {
                Ok(found) => found@.len() == keys@.len() && forall|i: int|
                    0 <= i < keys@.len() ==> exist_in(
                        self@.normal,
                        operation@,
                        (#[trigger] keys@[i]).key,
                    ) == Some(found@[i]),
                Err(e) => serving(self@.normal, operation@, 0) == self@.normal.len() && e
                    == Error::VDiskNoFound(operation@.vdisk_id.spec_as_u32()),
            },
    {
        exist_among(&self.vdisks_groups, &operation, keys)
    }

    /// Says for each key whether the group of alien data that the operation
    /// goes to shows it.
    pub fn exist_alien(&self, operation: BackendOperation, keys: &Vec<BobKey>) -> (r: Result<
        Vec<bool>,
        Error,
    >)
        ensures
            match r {
                Ok(found) => found@.len() == keys@.len() && forall|i: int|
                    0 <= i < keys@.len() ==> exist_in(
                        self@.alien,
                        operation@,
                        (#[trigger] keys@[i]).key,
                    ) == Some(found@[i]),
                Err(e) => serving(self@.alien, operation@, 0) == self@.alien.len() && e
                    == Error::VDiskNoFound(operation@.vdisk_id.spec_as_u32()),
            },
    {
        exist_among(&self.alien_vdisks_groups, &operation, keys)
    }
}

/// The groups after each was started with the names found in its directory.
pub open spec fn run_all(groups: Seq<GroupView>, names: Seq<Vec<String>>, now: int) -> Seq<GroupView> {
    Seq::new(
        groups.len(),
        |i: int|
            groups[i].with_holders(
                run_holders(groups[i].holders, groups[i].period, names[i]@, now).0,
            ),
    )
}

/// True when the start of each group succeeds.
pub open spec fn all_start(groups: Seq<GroupView>, names: Seq<Vec<String>>, now: int) -> bool {
    forall|i: int|
        0 <= i < groups.len() ==> run_holders(
            (#[trigger] groups[i]).holders,
            groups[i].period,
            names[i]@,
            now,
        ).1 is None
}

impl EngineView {
    /// What the start of the engine does, and the kind of error it ends
    /// with, if any. Each group is started with the names found in its
    /// directory; the lists of names stand in the order of the groups. Where
    /// their number is not that of the groups nothing is started, which is
    /// a logic violation. Where the start of a group fails the start of the
    /// engine fails, after every group was started.
    pub open spec fn run(self, normal_names: Seq<Vec<String>>, alien_names: Seq<Vec<String>>, now: int) -> (
        EngineView,
        Option<ErrorKind>,
    ) {
        if normal_names.len() != self.normal.len() || alien_names.len() != self.alien.len() {
            (self, Some(ErrorKind::Internal))
        } else {
            (
                EngineView {
                    normal: run_all(self.normal, normal_names, now),
                    alien: run_all(self.alien, alien_names, now),
                    ..self
                },
                if all_start(self.normal, normal_names, now) && all_start(
                    self.alien,
                    alien_names,
                    now,
                ) {
                    None
                } else {
                    Some(ErrorKind::Failed)
                },
            )
        }
    }
}

/// Starts each group of the list with the names found in its directory.
fn run_groups(
    groups: &mut Vec<PearlGroup>,
    Ghost(settings): Ghost<Settings>,
    names: &Vec<Vec<String>>,
    now: i64,
) -> (r: bool)
    requires
        groups_of(old(groups)@, settings),
        names@.len() == old(groups)@.len(),
    ensures
        groups_of(final(groups)@, settings),
        group_views(final(groups)@) == run_all(group_views(old(groups)@), names@, now as int),
        r == all_start(group_views(old(groups)@), names@, now as int),
{
    let ghost before = group_views(groups@);
    let mut started = true;
    let mut i: usize = 0;
    while i < groups.len()
        invariant
            i <= groups@.len(),
            groups@.len() == before.len(),
            names@.len() == before.len(),
            groups_of(groups@, settings),
            forall|k: int|
                0 <= k < i ==> (#[trigger] groups@[k])@ == before[k].with_holders(
                    run_holders(before[k].holders, before[k].period, names@[k]@, now as int).0,
                ),
            forall|k: int| i <= k < groups@.len() ==> (#[trigger] groups@[k])@ == before[k],
            started == forall|k: int|
                0 <= k < i ==> run_holders(
                    (#[trigger] before[k]).holders,
                    before[k].period,
                    names@[k]@,
                    now as int,
                ).1 is None,
        decreases groups@.len() - i,
    {
        let ghost earlier = groups@;
        let outcome = groups[i].run(&names[i], now);
        proof {
            assert forall|k: int| 0 <= k < groups@.len() implies (#[trigger] groups@[k]).inv()
                && groups@[k].spec_settings() == settings by {
                if k != i {
                    assert(groups@[k] == earlier[k]);
                }
            }
        }
        if outcome.is_err() {
            started = false;
        }
        i = i + 1;
    }
    proof {
        assert(group_views(groups@) =~= run_all(before, names@, now as int));
    }
    started
}

impl Pearl {
    /// Starts every group, from the names of the subdirectories found in the
    /// directory of each and the current time in seconds. The lists of names
    /// stand in the order of the groups; where their number is not that of
    /// the groups nothing is started. The engine is ready when every group
    /// has started; after an error the caller waits and starts it again.
    pub fn run_backend(
        &mut self,
        normal_names: &Vec<Vec<String>>,
        alien_names: &Vec<Vec<String>>,
        now: i64,
    ) -> (r: Result<(), Error>)
        ensures
            final(self).inv(),
            final(self).spec_settings() == old(self).spec_settings(),
            (final(self)@, failure_kind(r)) == old(self)@.run(normal_names@, alien_names@, now as int),
    {
        proof {
            use_type_invariant(&*self);
        }
        if normal_names.len() != self.vdisks_groups.len() || alien_names.len()
            != self.alien_vdisks_groups.len() {
            return Err(Error::Internal);
        }
        let ghost settings = self.spec_settings();
        let mut normal: Vec<PearlGroup> = Vec::new();
        std::mem::swap(&mut self.vdisks_groups, &mut normal);
        let normal_started = run_groups(&mut normal, Ghost(settings), normal_names, now);
        self.vdisks_groups = normal;
        let mut alien: Vec<PearlGroup> = Vec::new();
        std::mem::swap(&mut self.alien_vdisks_groups, &mut alien);
        let alien_started = run_groups(&mut alien, Ghost(settings), alien_names, now);
        self.alien_vdisks_groups = alien;
        if normal_started && alien_started {
            Ok(())
        } else {
            Err(Error::Failed(String::from_str("some groups did not start")))
        }
    }
}

/// The position of the first group at or after `from` that holds the
/// virtual disk with the given number; the number of groups if there is none.
pub open spec fn group_of_vdisk(groups: Seq<GroupView>, vdisk: u32, from: int) -> int
    decreases groups.len() - from,
{
    if from < 0 || from >= groups.len() {
        groups.len() as int
    } else if groups[from].vdisk_id.spec_as_u32() == vdisk {
        from
    } else {
        group_of_vdisk(groups, vdisk, from + 1)
    }
}

/// What attaching or detaching a partition of a virtual disk does to the
/// groups, and the kind of error it ends with, if any: the first group of
/// the virtual disk attaches or detaches the partition; where no group
/// holds the virtual disk it is not found.
pub open spec fn change_partition(groups: Seq<GroupView>, vdisk: u32, start: int, attach: bool) -> (
    Seq<GroupView>,
    Option<ErrorKind>,
) {
    let i = group_of_vdisk(groups, vdisk, 0);
    if i < groups.len() {
        let (holders, refused) = if attach {
            attach_holders(groups[i].holders, groups[i].period, start)
        } else {
            detach_holders(groups[i].holders, start)
        };
        (groups.update(i, groups[i].with_holders(holders)), refused)
    } else {
        (groups, Some(ErrorKind::VDiskNoFound))
    }
}

/// Finds the first group that holds the virtual disk with the given number.
pub fn find_group_of_vdisk(groups: &Vec<PearlGroup>, vdisk: u32) -> (r: Option<usize>)
    ensures
        match r {
            Some(i) => i < groups@.len() && i == group_of_vdisk(group_views(groups@), vdisk, 0),
            None => group_of_vdisk(group_views(groups@), vdisk, 0) == groups@.len(),
        },
{
    let ghost all = group_views(groups@);
    let mut i: usize = 0;
    while i < groups.len()
        invariant
            i <= groups@.len(),
            all == group_views(groups@),
            group_of_vdisk(all, vdisk, 0) == group_of_vdisk(all, vdisk, i as int),
        decreases groups@.len() - i,
    {
        if groups[i].vdisk_id().as_u32() == vdisk {
            return Some(i);
        }
        i = i + 1;
    }
    None
}

impl Pearl {
    /// Attaches to the first group of the virtual disk, or detaches from
    /// it, the partition that starts at `start_timestamp`.
    pub fn change_partition_state(&mut self, vdisk: u32, start_timestamp: i64, attach: bool) -> (r:
        Result<(), Error>)
        ensures
            final(self).inv(),
            final(self).spec_settings() == old(self).spec_settings(),
            final(self)@ == (EngineView {
                normal: change_partition(
                    old(self)@.normal,
                    vdisk,
                    start_timestamp as int,
                    attach,
                ).0,
                ..old(self)@
            }),
            failure_kind(r) == change_partition(
                old(self)@.normal,
                vdisk,
                start_timestamp as int,
                attach,
            ).1,
    {
        proof {
            use_type_invariant(&*self);
        }
        let ghost settings = self.spec_settings();
        let ghost before = self.vdisks_groups@;
        let mut groups: Vec<PearlGroup> = Vec::new();
        std::mem::swap(&mut self.vdisks_groups, &mut groups);
        let r = match find_group_of_vdisk(&groups, vdisk) {
            Some(i) => {
                let r = if attach {
                    groups[i].attach(start_timestamp)
                } else {
                    groups[i].detach(start_timestamp)
                };
                proof {
                    assert(group_views(groups@) =~= change_partition(
                        group_views(before),
                        vdisk,
                        start_timestamp as int,
                        attach,
                    ).0);
                    assert forall|k: int| 0 <= k < groups@.len() implies (
                    #[trigger] groups@[k]).inv() && groups@[k].spec_settings() == settings by {
                        if k != i {
                            assert(groups@[k] == before[k]);
                        }
                    }
                }
                r
            },
            None => Err(Error::VDiskNoFound(vdisk)),
        };
        self.vdisks_groups = groups;
        r
    }
}

/// The groups after the storage of a partition reported a failure: in the
/// first group that the operation goes to, the partition that starts at
/// `start` is failed. Where there is no such group the groups stay.
pub open spec fn failed_in(
    groups: Seq<GroupView>,
    op: OperationView,
    start: int,
    description: Seq<char>,
) -> Seq<GroupView> {
    let i = serving(groups, op, 0);
    if i < groups.len() {
        groups.update(i, groups[i].with_holders(failed_at(groups[i].holders, start, description)))
    } else {
        groups
    }
}

impl EngineView {
    /// The engine after the storage of a partition reported a failure. An
    /// alien operation names a partition of alien data.
    pub open spec fn report_failure(self, op: OperationView, start: int, description: Seq<char>) -> EngineView {
        if op.disk_path is None {
            EngineView { alien: failed_in(self.alien, op, start, description), ..self }
        } else {
            EngineView { normal: failed_in(self.normal, op, start, description), ..self }
        }
    }
}

/// Records the failure of a partition in the first group that the operation goes to.
fn fail_in(
    groups: &mut Vec<PearlGroup>,
    Ghost(settings): Ghost<Settings>,
    operation: &BackendOperation,
    start_timestamp: i64,
    description: &str,
)
    requires
        groups_of(old(groups)@, settings),
    ensures
        groups_of(final(groups)@, settings),
        group_views(final(groups)@) == failed_in(
            group_views(old(groups)@),
            operation@,
            start_timestamp as int,
            description@,
        ),
{
    let ghost before = groups@;
    match find_group(groups, operation) {
        Some(i) => {
            let _ = groups[i].report_failure(start_timestamp, description);
            proof {
                assert(group_views(groups@) =~= failed_in(
                    group_views(before),
                    operation@,
                    start_timestamp as int,
                    description@,
                ));
                assert forall|k: int| 0 <= k < groups@.len() implies (#[trigger] groups@[k]).inv()
                    && groups@[k].spec_settings() == settings by {
                    if k != i {
                        assert(groups@[k] == before[k]);
                    }
                }
            }
        },
        None => {},
    }
}

impl Pearl {
    /// Records that the storage of a partition reported a failure: that of
    /// the partition that starts at `start_timestamp` in the group that the
    /// operation goes to.
    pub fn report_failure(&mut self, operation: &BackendOperation, start_timestamp: i64, description: &str)
        ensures
            final(self).inv(),
            final(self).spec_settings() == old(self).spec_settings(),
            final(self)@ == old(self)@.report_failure(
                operation@,
                start_timestamp as int,
                description@,
            ),
    {
        proof {
            use_type_invariant(&*self);
        }
        let ghost settings = self.spec_settings();
        if operation.is_data_alien() {
            let mut groups: Vec<PearlGroup> = Vec::new();
            std::mem::swap(&mut self.alien_vdisks_groups, &mut groups);
            fail_in(&mut groups, Ghost(settings), operation, start_timestamp, description);
            self.alien_vdisks_groups = groups;
        } else {
            let mut groups: Vec<PearlGroup> = Vec::new();
            std::mem::swap(&mut self.vdisks_groups, &mut groups);
            fail_in(&mut groups, Ghost(settings), operation, start_timestamp, description);
            self.vdisks_groups = groups;
        }
    }
}

/// The id under which the alien data of a disk is kept where it has no
/// virtual disk of its own.
pub const ALIEN_VDISKID: u32 = 1500512323;

/// One virtual disk on one disk with its log, without time partitions.
pub struct PearlVDisk {
    pub path: String,
    pub name: String,
    pub vdisk: VDiskId,
    pub disk_path: String,
    pub storage: PearlHolder,
}

impl PearlVDisk {
    pub fn new(path: &str, name: &str, vdisk: VDiskId, disk_path: String, storage: PearlHolder) -> (r:
        Self)
        ensures
            r.path@ == path@,
            r.name@ == name@,
            r.vdisk == vdisk,
            r.disk_path == disk_path,
            r.storage == storage,
    {
        PearlVDisk {
            path: String::from_str(path),
            name: String::from_str(name),
            vdisk,
            disk_path,
            storage,
        }
    }

    /// The alien data of a disk, under the id reserved for it.
    pub fn new_alien(path: &str, name: &str, disk_path: String, storage: PearlHolder) -> (r: Self)
        ensures
            r.path@ == path@,
            r.name@ == name@,
            r.vdisk.spec_as_u32() == ALIEN_VDISKID,
            r.disk_path == disk_path,
            r.storage == storage,
    {
        PearlVDisk {
            path: String::from_str(path),
            name: String::from_str(name),
            vdisk: VDiskId::new(ALIEN_VDISKID),
            disk_path,
            storage,
        }
    }

    /// True when this is the virtual disk `vdisk` on the disk `name`.
    pub fn equal(&self, name: &str, vdisk: VDiskId) -> (r: bool)
        ensures
            r == (self.name@ == name@ && self.vdisk == vdisk),
    {
        proof {
            VDiskId::lemma_same_number(self.vdisk, vdisk);
        }
        str_equal(self.name.as_str(), name) && self.vdisk.as_u32() == vdisk.as_u32()
    }

    /// Appends a record to the log; the answer does not say why a write was refused.
    pub fn write(storage: &mut PearlHolder, key: BobKey, data: BobData) -> (r: Result<(), ()>)
        ensures
            final(storage)@ == old(storage)@.write(key.key, data@).0,
            r is Ok <==> old(storage)@.write(key.key, data@).1 is None,
    {
        match storage.write(key, data) {
            Ok(_) => Ok(()),
            Err(_) => Err(()),
        }
    }

    /// Reads the record under the key; the answer does not say why a read was refused.
    pub fn read(storage: &PearlHolder, key: BobKey) -> (r: Result<BobData, ()>)
        ensures
            match r {
                Ok(d) => storage@.read(key.key) == Ok::<Payload, ErrorKind>(d@),
                Err(_) => storage@.read(key.key) is Err,
            },
    {
        match storage.read(key) {
            Ok(d) => Ok(d),
            Err(_) => Err(()),
        }
    }
}

} // verus!
