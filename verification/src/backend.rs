//! The front door of the storage: it turns a request into operations, sends
//! each to the engine, and falls back to the alien area when a local write fails.

use crate::configs::{BackendType, NodeConfig};
use crate::data::{BobData, BobKey, BobOptions, DiskPathView, Payload, VDiskId};
use crate::error::{failure_kind, Error, ErrorKind};
use crate::mapper::Virtual;
use crate::mem_backend::{MemBackend, MemView};
use crate::operation::{BackendOperation, BackendPutResult, GetResult, OperationView, PutResult};
use crate::pearl::{EngineView, Pearl};
use crate::group::PearlGroup;
use crate::settings::{AlienDirectory, Settings};
use crate::stub_backend::StubBackend;
use std::sync::Arc;
use vstd::prelude::*;
use vstd::string::*;

verus! {

/// The payload with which the engine that stores nothing answers every read.
pub open spec fn stub_payload() -> Payload {
    Payload { data: seq![0u8], timestamp: 1 }
}

/// An engine as a mathematical value.
pub enum StorageView {
    InMemory(MemView),
    Stub,
    Pearl(EngineView),
}

impl StorageView {
    /// What a write of the node's own data does, and the kind of error it
    /// ends with, if any.
    pub open spec fn put(self, op: OperationView, key: u64, data: Payload) -> (
        StorageView,
        Option<ErrorKind>,
    ) {
        match self {
            StorageView::InMemory(m) => (
                StorageView::InMemory(m.put(op, key, data).0),
                m.put(op, key, data).1,
            ),
            StorageView::Stub => (self, None),
            StorageView::Pearl(e) => (
                StorageView::Pearl(e.put(op, key, data).0),
                e.put(op, key, data).1,
            ),
        }
    }

    /// What a write of alien data does, and the kind of error it ends with, if any.
    pub open spec fn put_alien(self, op: OperationView, key: u64, data: Payload) -> (
        StorageView,
        Option<ErrorKind>,
    ) {
        match self {
            StorageView::InMemory(m) => (StorageView::InMemory(m.put_alien(op, key, data)), None),
            StorageView::Stub => (self, None),
            StorageView::Pearl(e) => (
                StorageView::Pearl(e.put_alien(op, key, data).0),
                e.put_alien(op, key, data).1,
            ),
        }
    }

    /// What a read of the node's own data does, and what it answers.
    pub open spec fn get(self, op: OperationView, key: u64) -> (
        StorageView,
        Result<Payload, ErrorKind>,
    ) {
        match self {
            StorageView::InMemory(m) => (self, m.get(op, key)),
            StorageView::Stub => (self, Ok(stub_payload())),
            StorageView::Pearl(e) => (StorageView::Pearl(e.get(op, key).0), e.get(op, key).1),
        }
    }

    /// What a read of alien data does, and what it answers.
    pub open spec fn get_alien(self, op: OperationView, key: u64) -> (
        StorageView,
        Result<Payload, ErrorKind>,
    ) {
        match self {
            StorageView::InMemory(m) => (self, m.get_alien(op, key)),
            StorageView::Stub => (self, Ok(stub_payload())),
            StorageView::Pearl(e) => (
                StorageView::Pearl(e.get_alien(op, key).0),
                e.get_alien(op, key).1,
            ),
        }
    }

    /// What a presence check answers for one key.
    pub open spec fn exist(self, op: OperationView, key: u64) -> bool {
        match self {
            StorageView::InMemory(m) => m.exist(op, key),
            StorageView::Stub => false,
            StorageView::Pearl(e) => e.exist(op, key),
        }
    }
}

/// The engine of a node: one of the three kinds.
pub enum BackendStorage {
    InMemory(MemBackend),
    Stub(StubBackend),
    Pearl(Pearl),
}

impl View for BackendStorage {
    type V = StorageView;

    open spec fn view(&self) -> StorageView {
        match self {
            BackendStorage::InMemory(m) => StorageView::InMemory(m@),
            BackendStorage::Stub(_) => StorageView::Stub,
            BackendStorage::Pearl(p) => StorageView::Pearl(p@),
        }
    }
}

impl BackendStorage {
    /// Writes a record of the node's own data.
    pub fn put(&mut self, operation: BackendOperation, key: BobKey, data: BobData) -> (r: PutResult)
        ensures
            (final(self)@, failure_kind(r)) == old(self)@.put(operation@, key.key, data@),
    {
        match self {
            BackendStorage::InMemory(m) => m.put(operation, key, data),
            BackendStorage::Stub(s) => s.put(operation, key, data),
            BackendStorage::Pearl(p) => p.put(operation, key, data),
        }
    }

    /// Writes a record of alien data.
    pub fn put_alien(&mut self, operation: BackendOperation, key: BobKey, data: BobData) -> (r:
        PutResult)
        ensures
            (final(self)@, failure_kind(r)) == old(self)@.put_alien(operation@, key.key, data@),
    {
        match self {
            BackendStorage::InMemory(m) => m.put_alien(operation, key, data),
            BackendStorage::Stub(s) => s.put(operation, key, data),
            BackendStorage::Pearl(p) => p.put_alien(operation, key, data),
        }
    }

    /// Reads a key of the node's own data.
    pub fn get(&mut self, operation: BackendOperation, key: BobKey) -> (r: GetResult)
        ensures
            final(self)@ == old(self)@.get(operation@, key.key).0,
            match r {
                Ok(found) => old(self)@.get(operation@, key.key).1 == Ok::<Payload, ErrorKind>(
                    found.data@,
                ),
                Err(e) => old(self)@.get(operation@, key.key).1 == Err::<Payload, ErrorKind>(
                    e.spec_kind(),
                ),
            },
    {
        match self {
            BackendStorage::InMemory(m) => m.get(operation, key),
            BackendStorage::Stub(s) => s.get(operation, key),
            BackendStorage::Pearl(p) => p.get(operation, key),
        }
    }

    /// Reads a key of alien data.
    pub fn get_alien(&mut self, operation: BackendOperation, key: BobKey) -> (r: GetResult)
        ensures
            final(self)@ == old(self)@.get_alien(operation@, key.key).0,
            match r {
                Ok(found) => old(self)@.get_alien(operation@, key.key).1 == Ok::<
                    Payload,
                    ErrorKind,
                >(found.data@),
                Err(e) => old(self)@.get_alien(operation@, key.key).1 == Err::<Payload, ErrorKind>(
                    e.spec_kind(),
                ),
            },
    {
        match self {
            BackendStorage::InMemory(m) => m.get_alien(operation, key),
            BackendStorage::Stub(s) => s.get(operation, key),
            BackendStorage::Pearl(p) => p.get_alien(operation, key),
        }
    }

    /// Says for each key, position by position, whether the engine shows it
    /// for the operation. An engine that cannot answer shows nothing.
    pub fn exist(&self, operation: BackendOperation, keys: &Vec<BobKey>) -> (r: Vec<bool>)
        ensures
            r@.len() == keys@.len(),
            forall|i: int|
                0 <= i < keys@.len() ==> r@[i] == self@.exist(operation@, (#[trigger] keys@[i]).key),
    {
        let alien = operation.is_data_alien();
        let answer = match self {
            BackendStorage::InMemory(m) => m.exist(operation, keys),
            BackendStorage::Stub(s) => s.exist(operation, keys),
            BackendStorage::Pearl(p) => if alien {
                p.exist_alien(operation, keys)
            } else {
                p.exist(operation, keys)
            },
        };
        match answer {
            Ok(found) => found,
            Err(_) => {
                let mut found: Vec<bool> = Vec::new();
                let mut i: usize = 0;
                while i < keys.len()
                    invariant
                        i <= keys@.len(),
                        found@.len() == i,
                        forall|k: int| 0 <= k < i ==> !found@[k],
                    decreases keys@.len() - i,
                {
                    found.push(false);
                    i = i + 1;
                }
                found
            },
        }
    }

    /// The groups of the node's own data, where the engine has groups.
    pub fn vdisks_groups(&self) -> (r: Option<&Vec<PearlGroup>>)
        ensures
            match (r, self) {
                (Some(groups), BackendStorage::Pearl(p)) => crate::settings::group_views(groups@)
                    == p@.normal,
                (None, BackendStorage::Pearl(_)) => false,
                (Some(_), _) => false,
                (None, _) => true,
            },
    {
        match self {
            BackendStorage::Pearl(p) => Some(p.vdisks_groups()),
            _ => None,
        }
    }
}

/// The operation on the virtual disk as held by a local disk.
pub open spec fn local_operation(vdisk_id: VDiskId, path: DiskPathView) -> OperationView {
    OperationView { vdisk_id, disk_path: Some(path), remote_node_name: None }
}

/// The alien operation on the virtual disk under the name of a node.
pub open spec fn alien_operation(vdisk_id: VDiskId, node: Option<Seq<char>>) -> OperationView {
    OperationView { vdisk_id, disk_path: None, remote_node_name: node }
}

/// What one write does to the engine, and the kind of error it ends with,
/// if any. An alien operation is written as alien data. Any other is
/// written as the node's own data; where that fails for a reason other
/// than a duplicate key, the record is written as alien data under the
/// name of this node, and the write ends with the error of the local
/// write, whether or not the alien write went well.
pub open spec fn put_single(
    storage: StorageView,
    local_node: Seq<char>,
    op: OperationView,
    key: u64,
    data: Payload,
) -> (StorageView, Option<ErrorKind>) {
    if op.disk_path is None {
        storage.put_alien(op, key, data)
    } else {
        let (after, refused) = storage.put(op, key, data);
        match refused {
            Some(kind) => if kind.write_needs_alien() {
                let fallback = OperationView {
                    disk_path: None,
                    remote_node_name: Some(local_node),
                    ..op
                };
                (after.put_alien(fallback, key, data).0, refused)
            } else {
                (after, refused)
            },
            None => (after, None),
        }
    }
}

/// What a write for the nodes named from position `from` on does: an alien
/// write under each name in turn, up to the first that fails.
pub open spec fn put_remote(
    storage: StorageView,
    vdisk_id: VDiskId,
    nodes: Seq<String>,
    key: u64,
    data: Payload,
    from: int,
) -> (StorageView, Option<ErrorKind>)
    decreases nodes.len() - from,
{
    if from < 0 || from >= nodes.len() {
        (storage, None)
    } else {
        let (after, refused) = storage.put_alien(
            alien_operation(vdisk_id, Some(nodes[from]@)),
            key,
            data,
        );
        if refused is Some {
            (after, refused)
        } else {
            put_remote(after, vdisk_id, nodes, key, data, from + 1)
        }
    }
}

/// What a caller sees of the kind of error that a request ended with.
pub open spec fn masked(refused: Option<ErrorKind>) -> Option<ErrorKind> {
    match refused {
        Some(kind) => Some(kind.convert_backend()),
        None => None,
    }
}

/// What a write request does to the engine, and the kind of error that
/// the caller sees, if any. A request that names remote nodes is written as
/// alien data under the name of each. Any other is written to the local
/// disk that holds the key's virtual disk; where this node holds no replica
/// of it the request is a logic violation.
pub open spec fn backend_put(
    storage: StorageView,
    mapper: Virtual,
    key: BobKey,
    data: Payload,
    options: BobOptions,
) -> (StorageView, Option<ErrorKind>) {
    let (vdisk_id, disk_path) = mapper.spec_get_operation(key);
    if options.remote_nodes@.len() > 0 {
        let (after, refused) = put_remote(storage, vdisk_id, options.remote_nodes@, key.key, data, 0);
        (after, masked(refused))
    } else {
        match disk_path {
            Some(path) => {
                let (after, refused) = put_single(
                    storage,
                    mapper.spec_local_node_name(),
                    local_operation(vdisk_id, path),
                    key.key,
                    data,
                );
                (after, masked(refused))
            },
            None => (storage, Some(ErrorKind::Internal)),
        }
    }
}

/// What one read does to the engine, and what it answers: an alien
/// operation reads alien data, any other the node's own.
pub open spec fn get_single(storage: StorageView, op: OperationView, key: u64) -> (
    StorageView,
    Result<Payload, ErrorKind>,
) {
    if op.disk_path is None {
        storage.get_alien(op, key)
    } else {
        storage.get(op, key)
    }
}

/// What a caller sees of the answer to a read.
pub open spec fn masked_answer(answer: Result<Payload, ErrorKind>) -> Result<Payload, ErrorKind> {
    match answer {
        Ok(found) => Ok(found),
        Err(kind) => Err(kind.convert_backend()),
    }
}

/// What a read request does to the engine, and what the caller sees. A
/// request for the node's own data reads from the local disk that holds the
/// key's virtual disk, and is a logic violation where this node holds no
/// replica of it. A request for alien data reads alien data. A request for
/// neither is a logic violation.
pub open spec fn backend_get(storage: StorageView, mapper: Virtual, key: BobKey, options: BobOptions) -> (
    StorageView,
    Result<Payload, ErrorKind>,
) {
    let (vdisk_id, disk_path) = mapper.spec_get_operation(key);
    if options.spec_get_normal() {
        match disk_path {
            Some(path) => {
                let (after, answer) = get_single(storage, local_operation(vdisk_id, path), key.key);
                (after, masked_answer(answer))
            },
            None => (storage, Err(ErrorKind::Internal)),
        }
    } else if options.spec_get_alien() {
        let (after, answer) = get_single(storage, alien_operation(vdisk_id, None), key.key);
        (after, masked_answer(answer))
    } else {
        (storage, Err(ErrorKind::Internal))
    }
}

/// The operation under which a key is looked for: that on the local disk
/// which holds its virtual disk for a request for the node's own data, the
/// alien one for a request for alien data; none for a request for neither,
/// and none for the node's own data where this node holds no replica.
pub open spec fn operation_for(mapper: Virtual, key: BobKey, options: BobOptions) -> Option<
    OperationView,
> {
    let (vdisk_id, disk_path) = mapper.spec_get_operation(key);
    if options.spec_get_normal() {
        match disk_path {
            Some(path) => Some(local_operation(vdisk_id, path)),
            None => None,
        }
    } else if options.spec_get_alien() {
        Some(alien_operation(vdisk_id, None))
    } else {
        None
    }
}

/// What a presence check answers for one key: whether the engine shows the
/// key for the operation under which it is looked for.
pub open spec fn backend_exist(storage: StorageView, mapper: Virtual, key: BobKey, options: BobOptions) -> bool {
    match operation_for(mapper, key, options) {
        Some(op) => storage.exist(op, key.key),
        None => false,
    }
}

/// What follows the start of the engine.
#[derive(Debug, Clone, Copy, PartialEq, Eq, Structural)]
pub enum StartAction {
    /// The engine has started: the node serves requests.
    Serve,
    /// The start failed: it is repeated after this many milliseconds.
    RetryAfter(u64),
}

/// What follows a start of the engine that ended with the given kind of
/// error, if any. After a start that went well the node serves requests. A
/// failed start is repeated, without end, after the delay that the settings
/// of the time-partitioned engine give; the other engines have no settings
/// and no delay.
pub open spec fn action_after_start(storage: StorageView, failed: Option<ErrorKind>) -> StartAction {
    match failed {
        None => StartAction::Serve,
        Some(_) => match storage {
            StorageView::Pearl(e) => StartAction::RetryAfter(e.settings.fail_retry_timeout as u64),
            _ => StartAction::RetryAfter(0),
        },
    }
}

/// The front door of the storage of one node.
pub struct Backend {
    inner: BackendStorage,
    mapper: Arc<Virtual>,
}

impl View for Backend {
    type V = StorageView;

    open spec fn view(&self) -> StorageView {
        self.backend_storage()@
    }
}

impl Backend {
    /// The placement map of the node.
    pub closed spec fn spec_mapper(&self) -> Virtual {
        *self.mapper
    }

    /// The engine of the node.
    pub closed spec fn backend_storage(&self) -> BackendStorage {
        self.inner
    }

    /// The storage of a node with the engine that its options name: the
    /// engine in memory with one disk for each local disk, the engine that
    /// stores nothing, or the time-partitioned engine with the groups of
    /// the node's own data and no alien groups. There is none where the
    /// options name the time-partitioned engine and give no settings for it.
    pub fn new(mapper: Arc<Virtual>, config: &NodeConfig) -> (r: Option<Self>)
        ensures
            r matches Some(b) ==> b.spec_mapper() == *mapper,
            match config.backend_type {
                BackendType::InMemory => r matches Some(b) && b@ == StorageView::InMemory(
                    MemView::fresh(
                        crate::mem_backend::disk_names(mapper.spec_local_disks()),
                        crate::mem_backend::DEFAULT_VDISKS_COUNT,
                    ),
                ),
                BackendType::Stub => r matches Some(b) && b@ == StorageView::Stub,
                BackendType::Pearl => match Settings::view_for(*config, *mapper) {
                    None => r is None,
                    Some(view) => r matches Some(b) && (b.backend_storage() matches BackendStorage::Pearl(
                        p,
                    ) && {
                        &&& p.inv()
                        &&& p.spec_settings().spec_mapper() == *mapper
                        &&& p@ == (EngineView {
                            settings: view,
                            normal: p.spec_settings().groups_on_disks(mapper.spec_local_disks()),
                            alien: Seq::empty(),
                        })
                    }),
                },
            },
    {
        let inner = match config.backend_type {
            BackendType::InMemory => BackendStorage::InMemory(MemBackend::new2(&*mapper)),
            BackendType::Stub => BackendStorage::Stub(StubBackend {  }),
            BackendType::Pearl => {
                match Settings::new(config, mapper.clone()) {
                    Some(settings) => BackendStorage::Pearl(Pearl::new(Arc::new(settings))),
                    None => {
                        return None;
                    },
                }
            },
        };
        Some(Backend { inner, mapper })
    }

    /// The storage of a node over a given engine.
    pub fn with_storage(mapper: Arc<Virtual>, inner: BackendStorage) -> (r: Self)
        ensures
            r.spec_mapper() == *mapper,
            r@ == inner@,
    {
        Backend { inner, mapper }
    }

    pub fn mapper(&self) -> (r: &Virtual)
        ensures
            *r == self.spec_mapper(),
    {
        &*self.mapper
    }

    /// The engine of the node.
    pub fn backend(&self) -> (r: &BackendStorage)
        ensures
            *r == self.backend_storage(),
            r@ == self@,
    {
        &self.inner
    }

    /// Takes the alien groups that a scan of the alien folder found in place
    /// of those that the time-partitioned engine had. The other engines
    /// have no groups.
    pub fn load_alien_groups(&mut self, listing: &Vec<AlienDirectory>)
        ensures
            final(self).spec_mapper() == old(self).spec_mapper(),
            match (old(self).backend_storage(), final(self).backend_storage()) {
                (BackendStorage::Pearl(before), BackendStorage::Pearl(after)) => after@
                    == (EngineView {
                    alien: before.spec_settings().alien_groups(listing@),
                    ..before@
                }) && after.spec_settings() == before.spec_settings(),
                (BackendStorage::Pearl(_), _) => false,
                (_, _) => final(self)@ == old(self)@,
            },
    {
        match &mut self.inner {
            BackendStorage::Pearl(p) => p.load_alien_groups(listing),
            _ => {},
        }
    }

    /// Decides what follows a start of the engine, from its outcome.
    pub fn after_start(&self, outcome: &Result<(), Error>) -> (r: StartAction)
        ensures
            r == action_after_start(self@, failure_kind(*outcome)),
    {
        match outcome {
            Ok(_) => StartAction::Serve,
            Err(_) => match &self.inner {
                BackendStorage::Pearl(p) => StartAction::RetryAfter(
                    p.settings().fail_retry_timeout(),
                ),
                _ => StartAction::RetryAfter(0),
            },
        }
    }

    /// Starts the engine: see `Pearl::run_backend`. The other engines need no start.
    pub fn run_backend(
        &mut self,
        normal_names: &Vec<Vec<String>>,
        alien_names: &Vec<Vec<String>>,
        now: i64,
    ) -> (r: Result<(), Error>)
        ensures
            final(self).spec_mapper() == old(self).spec_mapper(),
            match old(self)@ {
                StorageView::Pearl(e) => final(self)@ == StorageView::Pearl(
                    e.run(normal_names@, alien_names@, now as int).0,
                ) && failure_kind(r) == e.run(normal_names@, alien_names@, now as int).1,
                _ => r is Ok && final(self)@ == old(self)@,
            },
    {
        match &mut self.inner {
            BackendStorage::Pearl(p) => p.run_backend(normal_names, alien_names, now),
            _ => Ok(()),
        }
    }

    /// Attaches to the first group of the virtual disk, or detaches from
    /// it, the partition that starts at `start_timestamp`. Only the
    /// time-partitioned engine has partitions.
    pub fn change_partition_state(&mut self, vdisk: u32, start_timestamp: i64, attach: bool) -> (r:
        Result<(), Error>)
        ensures
            final(self).spec_mapper() == old(self).spec_mapper(),
            match old(self)@ {
                StorageView::Pearl(e) => final(self)@ == StorageView::Pearl(
                    EngineView {
                        normal: crate::pearl::change_partition(
                            e.normal,
                            vdisk,
                            start_timestamp as int,
                            attach,
                        ).0,
                        ..e
                    },
                ) && failure_kind(r) == crate::pearl::change_partition(
                    e.normal,
                    vdisk,
                    start_timestamp as int,
                    attach,
                ).1,
                _ => final(self)@ == old(self)@ && r matches Err(Error::Internal),
            },
    {
        match &mut self.inner {
            BackendStorage::Pearl(p) => p.change_partition_state(vdisk, start_timestamp, attach),
            _ => Err(Error::Internal),
        }
    }

    /// Records that the storage of a partition of the time-partitioned
    /// engine reported a failure: see `Pearl::report_failure`.
    pub fn report_failure(&mut self, operation: &BackendOperation, start_timestamp: i64, description: &str)
        ensures
            final(self).spec_mapper() == old(self).spec_mapper(),
            match old(self)@ {
                StorageView::Pearl(e) => final(self)@ == StorageView::Pearl(
                    e.report_failure(operation@, start_timestamp as int, description@),
                ),
                _ => final(self)@ == old(self)@,
            },
    {
        match &mut self.inner {
            BackendStorage::Pearl(p) => p.report_failure(operation, start_timestamp, description),
            _ => {},
        }
    }

    /// Carries out one write with its fallback to the alien area.
    fn put_single(&mut self, key: BobKey, data: BobData, operation: BackendOperation) -> (r:
        PutResult)
        ensures
            final(self).spec_mapper() == old(self).spec_mapper(),
            (final(self)@, failure_kind(r)) == put_single(
                old(self)@,
                old(self).spec_mapper().spec_local_node_name(),
                operation@,
                key.key,
                data@,
            ),
    {
        if operation.is_data_alien() {
            self.inner.put_alien(operation, key, data)
        } else {
            let result = self.inner.put(operation.clone(), key, data.clone());
            match result {
                Ok(done) => Ok(done),
                Err(err) => {
                    if err.is_put_error_need_alien() {
                        let mut op = operation.clone_alien();
                        op.set_remote_folder(self.mapper.local_node_name());
                        let _ = self.inner.put_alien(op, key, data);
                    }
                    Err(err)
                },
            }
        }
    }

    /// Writes a payload under a key.
    pub fn put(&mut self, key: BobKey, data: BobData, options: BobOptions) -> (r: PutResult)
        ensures
            final(self).spec_mapper() == old(self).spec_mapper(),
            (final(self)@, failure_kind(r)) == backend_put(
                old(self)@,
                old(self).spec_mapper(),
                key,
                data@,
                options,
            ),
    {
        let (vdisk_id, disk_path) = self.mapper.get_operation(key);
        let result = if options.have_remote_node() {
            let ghost start = self@;
            let nodes = &options.remote_nodes;
            let mut outcome: PutResult = Ok(BackendPutResult);
            let mut i: usize = 0;
            while i < nodes.len() && outcome.is_ok()
                invariant
                    i <= nodes@.len(),
                    self.spec_mapper() == old(self).spec_mapper(),
                    outcome is Ok ==> put_remote(start, vdisk_id, nodes@, key.key, data@, 0)
                        == put_remote(self@, vdisk_id, nodes@, key.key, data@, i as int),
                    outcome is Err ==> put_remote(start, vdisk_id, nodes@, key.key, data@, 0) == (
                        self@,
                        failure_kind(outcome),
                    ),
                decreases nodes@.len() - i + if outcome is Ok { 1int } else { 0int },
            {
                let mut op = BackendOperation::new_alien(vdisk_id);
                op.set_remote_folder(nodes[i].as_str());
                outcome = self.put_single(key, data.clone(), op);
                i = i + 1;
            }
            outcome
        } else {
            match disk_path {
                Some(path) => self.put_single(key, data, BackendOperation::new_local(vdisk_id, path)),
                None => {
                    return Err(Error::Internal);
                },
            }
        };
        match result {
            Ok(done) => Ok(done),
            Err(e) => Err(e.convert_backend()),
        }
    }

    /// Carries out the write of an operation that the caller has made.
    pub fn put_local(&mut self, key: BobKey, data: BobData, operation: BackendOperation) -> (r:
        PutResult)
        ensures
            final(self).spec_mapper() == old(self).spec_mapper(),
            final(self)@ == put_single(
                old(self)@,
                old(self).spec_mapper().spec_local_node_name(),
                operation@,
                key.key,
                data@,
            ).0,
            failure_kind(r) == masked(
                put_single(
                    old(self)@,
                    old(self).spec_mapper().spec_local_node_name(),
                    operation@,
                    key.key,
                    data@,
                ).1,
            ),
    {
        match self.put_single(key, data, operation) {
            Ok(done) => Ok(done),
            Err(e) => Err(e.convert_backend()),
        }
    }

    /// Carries out one read.
    fn get_single(&mut self, key: BobKey, operation: BackendOperation) -> (r: GetResult)
        ensures
            final(self).spec_mapper() == old(self).spec_mapper(),
            final(self)@ == get_single(old(self)@, operation@, key.key).0,
            match r {
                Ok(found) => get_single(old(self)@, operation@, key.key).1 == Ok::<
                    Payload,
                    ErrorKind,
                >(found.data@),
                Err(e) => get_single(old(self)@, operation@, key.key).1 == Err::<Payload, ErrorKind>(
                    e.spec_kind(),
                ),
            },
    {
        if operation.is_data_alien() {
            self.inner.get_alien(operation, key)
        } else {
            self.inner.get(operation, key)
        }
    }

    /// Carries out the read of an operation that the caller has made.
    pub fn get_local(&mut self, key: BobKey, operation: BackendOperation) -> (r: GetResult)
        ensures
            final(self).spec_mapper() == old(self).spec_mapper(),
            final(self)@ == get_single(old(self)@, operation@, key.key).0,
            match r {
                Ok(found) => masked_answer(get_single(old(self)@, operation@, key.key).1) == Ok::<
                    Payload,
                    ErrorKind,
                >(found.data@),
                Err(e) => masked_answer(get_single(old(self)@, operation@, key.key).1) == Err::<
                    Payload,
                    ErrorKind,
                >(e.spec_kind()),
            },
    {
        match self.get_single(key, operation) {
            Ok(found) => Ok(found),
            Err(e) => Err(e.convert_backend()),
        }
    }

    /// Reads the payload of a key.
    pub fn get(&mut self, key: BobKey, options: &BobOptions) -> (r: GetResult)
        ensures
            final(self).spec_mapper() == old(self).spec_mapper(),
            final(self)@ == backend_get(old(self)@, old(self).spec_mapper(), key, *options).0,
            match r {
                Ok(found) => backend_get(old(self)@, old(self).spec_mapper(), key, *options).1
                    == Ok::<Payload, ErrorKind>(found.data@),
                Err(e) => backend_get(old(self)@, old(self).spec_mapper(), key, *options).1 == Err::<
                    Payload,
                    ErrorKind,
                >(e.spec_kind()),
            },
    {
        let (vdisk_id, disk_path) = self.mapper.get_operation(key);
        if options.get_normal() {
            match disk_path {
                Some(path) => self.get_local(key, BackendOperation::new_local(vdisk_id, path)),
                None => Err(Error::Internal),
            }
        } else if options.get_alien() {
            self.get_local(key, BackendOperation::new_alien(vdisk_id))
        } else {
            Err(Error::Internal)
        }
    }

    /// The operation under which a key is looked for.
    pub fn find_operation(&self, key: BobKey, options: &BobOptions) -> (r: Option<BackendOperation>)
        ensures
            match r {
                Some(op) => operation_for(self.spec_mapper(), key, *options) == Some(op@),
                None => operation_for(self.spec_mapper(), key, *options) is None,
            },
    {
        let (vdisk_id, path) = self.mapper.get_operation(key);
        if options.get_normal() {
            match path {
                Some(path) => Some(BackendOperation::new_local(vdisk_id, path)),
                None => None,
            }
        } else if options.get_alien() {
            Some(BackendOperation::new_alien(vdisk_id))
        } else {
            None
        }
    }
}

/// The keys of one request that go to one operation, each with its
/// position in the request.
#[derive(Debug)]
pub struct KeyBatch {
    pub operation: BackendOperation,
    pub keys: Vec<BobKey>,
    pub indexes: Vec<usize>,
}

/// True when the position `i` of the request stands among the first
/// `upto` positions of the batch.
pub open spec fn appears(batch: KeyBatch, upto: int, i: int) -> bool {
    exists|j: int| 0 <= j < upto && j < batch.indexes@.len() && #[trigger] batch.indexes@[j] == i
}

/// True when the position `i` of the request stands in one of the first
/// `upto` batches.
pub open spec fn covered(batches: Seq<KeyBatch>, upto: int, i: int) -> bool {
    exists|b: int|
        0 <= b < upto && b < batches.len() && appears(
            #[trigger] batches[b],
            batches[b].indexes@.len() as int,
            i,
        )
}

/// True when a batch holds keys of the request, at least one, each with
/// its position, in the order of their positions and so each position
/// once, and each of them is looked for under the operation of the batch.
pub open spec fn batch_is_sound(
    batch: KeyBatch,
    keys: Seq<BobKey>,
    mapper: Virtual,
    options: BobOptions,
    upto: int,
) -> bool {
    &&& batch.keys@.len() == batch.indexes@.len()
    &&& batch.indexes@.len() >= 1
    &&& forall|j: int, k: int|
        0 <= j < k < batch.indexes@.len() ==> (#[trigger] batch.indexes@[j]) < (
        #[trigger] batch.indexes@[k])
    &&& forall|j: int|
        0 <= j < batch.indexes@.len() ==> {
            &&& 0 <= (#[trigger] batch.indexes@[j]) < upto
            &&& batch.keys@[j] == keys[batch.indexes@[j] as int]
            &&& operation_for(mapper, keys[batch.indexes@[j] as int], options) == Some(
                batch.operation@,
            )
        }
}

/// True when the batches sort the first `upto` keys of a request by the
/// operation under which each is looked for: every batch is sound, no two
/// batches have the same operation, and every key that is looked for under
/// some operation stands in a batch.
pub open spec fn batches_sort(
    batches: Seq<KeyBatch>,
    keys: Seq<BobKey>,
    mapper: Virtual,
    options: BobOptions,
    upto: int,
) -> bool {
    &&& forall|b: int|
        0 <= b < batches.len() ==> batch_is_sound(#[trigger] batches[b], keys, mapper, options, upto)
    &&& forall|a: int, b: int|
        0 <= a < b < batches.len() ==> (#[trigger] batches[a]).operation@ != (
        #[trigger] batches[b]).operation@
    &&& forall|i: int|
        0 <= i < upto && operation_for(mapper, #[trigger] keys[i], options) is Some ==> covered(
            batches,
            batches.len() as int,
            i,
        )
}

impl Backend {
    /// Sorts the keys of a request into batches, one for each operation
    /// under which a key is looked for, in the order in which the operations
    /// first occur. A key that is looked for under no operation is left out.
    pub fn group_keys_by_operations(&self, keys: &Vec<BobKey>, options: &BobOptions) -> (r: Vec<
        KeyBatch,
    >)
        ensures
            batches_sort(r@, keys@, self.spec_mapper(), *options, keys@.len() as int),
    {
        let ghost mapper = self.spec_mapper();
        let mut batches: Vec<KeyBatch> = Vec::new();
        let mut ind: usize = 0;
        while ind < keys.len()
            invariant
                ind <= keys@.len(),
                mapper == self.spec_mapper(),
                batches_sort(batches@, keys@, mapper, *options, ind as int),
            decreases keys@.len() - ind,
        {
            let key = keys[ind];
            let ghost before = batches@;
            match self.find_operation(key, options) {
                None => {
                    proof {
                        assert forall|b: int| 0 <= b < batches@.len() implies batch_is_sound(
                            #[trigger] batches@[b],
                            keys@,
                            mapper,
                            *options,
                            ind + 1,
                        ) by {
                            assert(batch_is_sound(before[b], keys@, mapper, *options, ind as int));
                        }
                    }
                },
                Some(operation) => {
                    let mut place: usize = 0;
                    while place < batches.len() && !(batches[place].operation == operation)
                        invariant
                            place <= batches@.len(),
                            batches@ == before,
                            forall|b: int|
                                0 <= b < place ==> (#[trigger] batches@[b]).operation@
                                    != operation@,
                        decreases batches@.len() - place,
                    {
                        place = place + 1;
                    }
                    if place < batches.len() {
                        let mut batch = batches.remove(place);
                        batch.keys.push(key);
                        batch.indexes.push(ind);
                        batches.insert(place, batch);
                        proof {
                            assert(batches@ =~= before.update(place as int, batch));
                            lemma_batch_grows(
                                before,
                                batches@,
                                keys@,
                                mapper,
                                *options,
                                ind,
                                place as int,
                            );
                        }
                    } else {
                        let mut batch_keys: Vec<BobKey> = Vec::new();
                        batch_keys.push(key);
                        let mut indexes: Vec<usize> = Vec::new();
                        indexes.push(ind);
                        let batch = KeyBatch { operation, keys: batch_keys, indexes };
                        batches.push(batch);
                        proof {
                            assert(batches@ =~= before.push(batch));
                            lemma_batch_added(
                                before,
                                batches@,
                                keys@,
                                mapper,
                                *options,
                                ind,
                            );
                        }
                    }
                },
            }
            ind = ind + 1;
        }
        batches
    }
}

/// Sorting one more key into the batch of its operation keeps the batches sorted.
proof fn lemma_batch_grows(
    before: Seq<KeyBatch>,
    after: Seq<KeyBatch>,
    keys: Seq<BobKey>,
    mapper: Virtual,
    options: BobOptions,
    ind: usize,
    place: int,
)
    requires
        0 <= ind < keys.len(),
        0 <= place < before.len(),
        batches_sort(before, keys, mapper, options, ind as int),
        operation_for(mapper, keys[ind as int], options) == Some(before[place].operation@),
        after.len() == before.len(),
        forall|b: int| 0 <= b < before.len() && b != place ==> after[b] == before[b],
        after[place].operation == before[place].operation,
        after[place].keys@ == before[place].keys@.push(keys[ind as int]),
        after[place].indexes@ == before[place].indexes@.push(ind),
    ensures
        batches_sort(after, keys, mapper, options, ind + 1),
{
    assert forall|b: int| 0 <= b < after.len() implies batch_is_sound(
        #[trigger] after[b],
        keys,
        mapper,
        options,
        ind + 1,
    ) by {
        assert(batch_is_sound(before[b], keys, mapper, options, ind as int));
        if b == place {
            assert forall|j: int| 0 <= j < after[b].indexes@.len() implies {
                &&& 0 <= (#[trigger] after[b].indexes@[j]) < ind + 1
                &&& after[b].keys@[j] == keys[after[b].indexes@[j] as int]
                &&& operation_for(mapper, keys[after[b].indexes@[j] as int], options) == Some(
                    after[b].operation@,
                )
            } by {
                if j < before[b].indexes@.len() {
                    assert(after[b].indexes@[j] == before[b].indexes@[j]);
                }
            }
            assert forall|j: int, k: int| 0 <= j < k < after[b].indexes@.len() implies (
            #[trigger] after[b].indexes@[j]) < (#[trigger] after[b].indexes@[k]) by {
                assert(after[b].indexes@[j] == before[b].indexes@[j]);
                if k < before[b].indexes@.len() {
                    assert(after[b].indexes@[k] == before[b].indexes@[k]);
                } else {
                    assert(before[b].indexes@[j] < ind);
                }
            }
        }
    }
    assert forall|a: int, b: int| 0 <= a < b < after.len() implies (#[trigger] after[a]).operation@
        != (#[trigger] after[b]).operation@ by {
        assert(before[a].operation@ != before[b].operation@);
    }
    assert forall|i: int|
        0 <= i < ind + 1 && operation_for(mapper, #[trigger] keys[i], options) is Some implies covered(
        after,
        after.len() as int,
        i,
    ) by {
        if i < ind {
            assert(covered(before, before.len() as int, i));
            let b = choose|b: int|
                0 <= b < before.len() && appears(
                    #[trigger] before[b],
                    before[b].indexes@.len() as int,
                    i,
                );
            let j = choose|j: int|
                0 <= j < before[b].indexes@.len() && #[trigger] before[b].indexes@[j] == i;
            assert(after[b].indexes@[j] == i);
            assert(appears(after[b], after[b].indexes@.len() as int, i));
        } else {
            let j = before[place].indexes@.len() as int;
            assert(after[place].indexes@[j] == i);
            assert(appears(after[place], after[place].indexes@.len() as int, i));
        }
    }
}

/// Opening a batch for a key whose operation has none keeps the batches sorted.
proof fn lemma_batch_added(
    before: Seq<KeyBatch>,
    after: Seq<KeyBatch>,
    keys: Seq<BobKey>,
    mapper: Virtual,
    options: BobOptions,
    ind: usize,
)
    requires
        0 <= ind < keys.len(),
        batches_sort(before, keys, mapper, options, ind as int),
        after.len() == before.len() + 1,
        forall|b: int| 0 <= b < before.len() ==> after[b] == before[b],
        forall|b: int| 0 <= b < before.len() ==> (#[trigger] before[b]).operation@
            != after[before.len() as int].operation@,
        operation_for(mapper, keys[ind as int], options) == Some(
            after[before.len() as int].operation@,
        ),
        after[before.len() as int].keys@ == seq![keys[ind as int]],
        after[before.len() as int].indexes@ == seq![ind],
    ensures
        batches_sort(after, keys, mapper, options, ind + 1),
{
    let last = before.len() as int;
    assert forall|b: int| 0 <= b < after.len() implies batch_is_sound(
        #[trigger] after[b],
        keys,
        mapper,
        options,
        ind + 1,
    ) by {
        if b < last {
            assert(batch_is_sound(before[b], keys, mapper, options, ind as int));
        }
    }
    assert forall|a: int, b: int| 0 <= a < b < after.len() implies (#[trigger] after[a]).operation@
        != (#[trigger] after[b]).operation@ by {
        if b < last {
            assert(before[a].operation@ != before[b].operation@);
        } else {
            assert(before[a].operation@ != after[last].operation@);
        }
    }
    assert forall|i: int|
        0 <= i < ind + 1 && operation_for(mapper, #[trigger] keys[i], options) is Some implies covered(
        after,
        after.len() as int,
        i,
    ) by {
        if i < ind {
            assert(covered(before, before.len() as int, i));
            let b = choose|b: int|
                0 <= b < before.len() && appears(
                    #[trigger] before[b],
                    before[b].indexes@.len() as int,
                    i,
                );
            assert(after[b] == before[b]);
        } else {
            assert(after[last].indexes@[0] == i);
            assert(appears(after[last], after[last].indexes@.len() as int, i));
        }
    }
}

impl Backend {
    /// Says for each key of the request, position by position, whether the
    /// engine shows it. The keys are sorted by the operation under which
    /// each is looked for, the engine is asked once for each operation, and
    /// the answers are put back at the positions of the keys.
    pub fn exist(&self, keys: &Vec<BobKey>, options: &BobOptions) -> (r: Result<Vec<bool>, Error>)
        ensures
            r matches Ok(found) && found@.len() == keys@.len() && forall|i: int|
                0 <= i < keys@.len() ==> found@[i] == backend_exist(
                    self@,
                    self.spec_mapper(),
                    #[trigger] keys@[i],
                    *options,
                ),
    {
        let ghost mapper = self.spec_mapper();
        let ghost storage = self@;
        let mut exist: Vec<bool> = Vec::new();
        let mut n: usize = 0;
        while n < keys.len()
            invariant
                n <= keys@.len(),
                exist@.len() == n,
                forall|i: int| 0 <= i < n ==> !exist@[i],
            decreases keys@.len() - n,
        {
            exist.push(false);
            n = n + 1;
        }
        let batches = self.group_keys_by_operations(keys, options);
        let mut b: usize = 0;
        while b < batches.len()
            invariant
                b <= batches@.len(),
                mapper == self.spec_mapper(),
                storage == self@,
                exist@.len() == keys@.len(),
                batches_sort(batches@, keys@, mapper, *options, keys@.len() as int),
                forall|i: int|
                    0 <= i < keys@.len() ==> #[trigger] exist@[i] == (covered(
                        batches@,
                        b as int,
                        i,
                    ) && backend_exist(storage, mapper, keys@[i], *options)),
            decreases batches@.len() - b,
        {
            let batch = &batches[b];
            assert(batch_is_sound(batches@[b as int], keys@, mapper, *options, keys@.len() as int));
            let result = self.inner.exist(batch.operation.clone(), &batch.keys);
            let mut j: usize = 0;
            while j < batch.indexes.len()
                invariant
                    j <= batch.indexes@.len(),
                    b < batches@.len(),
                    *batch == batches@[b as int],
                    exist@.len() == keys@.len(),
                    result@.len() == batch.keys@.len(),
                    batch_is_sound(*batch, keys@, mapper, *options, keys@.len() as int),
                    forall|k: int|
                        0 <= k < batch.keys@.len() ==> result@[k] == storage.exist(
                            batch.operation@,
                            (#[trigger] batch.keys@[k]).key,
                        ),
                    forall|i: int|
                        0 <= i < keys@.len() ==> #[trigger] exist@[i] == ((covered(
                            batches@,
                            b as int,
                            i,
                        ) || appears(*batch, j as int, i)) && backend_exist(
                            storage,
                            mapper,
                            keys@[i],
                            *options,
                        )),
                decreases batch.indexes@.len() - j,
            {
                let ind = batch.indexes[j];
                let ghost earlier = exist@;
                assert(batch.keys@[j as int] == keys@[ind as int]);
                let merged = exist[ind] || result[j];
                exist.set(ind, merged);
                proof {
                    assert forall|i: int| 0 <= i < keys@.len() implies #[trigger] exist@[i] == ((
                    covered(batches@, b as int, i) || appears(*batch, j + 1, i)) && backend_exist(
                        storage,
                        mapper,
                        keys@[i],
                        *options,
                    )) by {
                        if i == ind {
                            assert(batch.indexes@[j as int] == i);
                        } else {
                            assert(exist@[i] == earlier[i]);
                            if appears(*batch, j + 1, i) {
                                let w = choose|w: int|
                                    0 <= w < j + 1 && w < batch.indexes@.len()
                                        && #[trigger] batch.indexes@[w] == i;
                                assert(w < j);
                            }
                            if appears(*batch, j as int, i) {
                                let w = choose|w: int|
                                    0 <= w < j && w < batch.indexes@.len()
                                        && #[trigger] batch.indexes@[w] == i;
                                assert(batch.indexes@[w] == i);
                            }
                        }
                    }
                }
                j = j + 1;
            }
            proof {
                assert forall|i: int| 0 <= i < keys@.len() implies covered(batches@, b + 1, i) == (
                covered(batches@, b as int, i) || appears(*batch, j as int, i)) by {
                    lemma_covered_step(batches@, b as int, i);
                }
            }
            b = b + 1;
        }
        proof {
            assert forall|i: int| 0 <= i < keys@.len() implies exist@[i] == backend_exist(
                storage,
                mapper,
                #[trigger] keys@[i],
                *options,
            ) by {
                if operation_for(mapper, keys@[i], *options) is Some {
                    assert(covered(batches@, batches@.len() as int, i));
                }
            }
        }
        Ok(exist)
    }
}

/// A position stands in one of the first `b + 1` batches exactly when it
/// stands in one of the first `b` or in the batch at position `b`.
proof fn lemma_covered_step(batches: Seq<KeyBatch>, b: int, i: int)
    requires
        0 <= b < batches.len(),
    ensures
        covered(batches, b + 1, i) == (covered(batches, b, i) || appears(
            batches[b],
            batches[b].indexes@.len() as int,
            i,
        )),
{
    if covered(batches, b + 1, i) {
        let w = choose|w: int|
            0 <= w < b + 1 && w < batches.len() && appears(
                #[trigger] batches[w],
                batches[w].indexes@.len() as int,
                i,
            );
        if w < b {
            assert(covered(batches, b, i));
        }
    }
    if covered(batches, b, i) {
        let w = choose|w: int|
            0 <= w < b && w < batches.len() && appears(
                #[trigger] batches[w],
                batches[w].indexes@.len() as int,
                i,
            );
        assert(appears(batches[w], batches[w].indexes@.len() as int, i));
    }
    if appears(batches[b], batches[b].indexes@.len() as int, i) {
        assert(covered(batches, b + 1, i));
    }
}

} // verus!
