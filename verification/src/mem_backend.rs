//! The engine that keeps its data in memory: named disks, each with a fixed
//! set of virtual disks, and one more disk for alien data.

use crate::data::{BobData, BobKey, Payload, VDiskId};
use crate::error::{failure_kind, Error, ErrorKind};
use crate::mapper::Virtual;
use crate::operation::{
    BackendGetResult, BackendOperation, BackendPutResult, GetResult, OperationView, PutResult,
};
use crate::text::str_equal;
use std::collections::HashMap;
use vstd::prelude::*;
use vstd::string::*;

verus! {

broadcast use vstd::std_specs::hash::group_hash_axioms;

/// The records of one virtual disk in memory.
pub struct VDisk {
    repo: HashMap<u64, BobData>,
}

impl View for VDisk {
    type V = Map<u64, Payload>;

    closed spec fn view(&self) -> Map<u64, Payload> {
        Map::new(|k: u64| self.repo@.contains_key(k), |k: u64| self.repo@[k]@)
    }
}

impl VDisk {
    /// A virtual disk without records.
    pub fn new() -> (r: VDisk)
        ensures
            r@ == Map::<u64, Payload>::empty(),
    {
        let r = VDisk { repo: HashMap::<u64, BobData>::new() };
        assert(r@ =~= Map::<u64, Payload>::empty());
        r
    }

    /// Keeps the payload under the key, in place of what was there.
    pub fn put(&mut self, key: BobKey, data: BobData)
        ensures
            final(self)@ == old(self)@.insert(key.key, data@),
    {
        self.repo.insert(key.key, data);
        assert(self@ =~= old(self)@.insert(key.key, data@));
    }

    /// The payload kept under the key.
    pub fn get(&self, key: BobKey) -> (r: Option<BobData>)
        ensures
            match r {
                Some(data) => self@.contains_key(key.key) && data@ == self@[key.key],
                None => !self@.contains_key(key.key),
            },
    {
        match self.repo.get(&key.key) {
            Some(data) => Some(data.clone()),
            None => None,
        }
    }
}

/// A disk in memory as a mathematical value.
pub struct MemDiskView {
    pub name: Seq<char>,
    /// For each virtual disk of the disk, its records.
    pub vdisks: Map<u32, Map<u64, Payload>>,
}

impl MemDiskView {
    /// A disk with the virtual disks `0` to `count - 1`, each without records.
    pub open spec fn fresh(name: Seq<char>, count: u32) -> MemDiskView {
        MemDiskView {
            name,
            vdisks: Map::new(|id: u32| id < count, |id: u32| Map::<u64, Payload>::empty()),
        }
    }

    /// The disk after a write: the virtual disk keeps the payload under the
    /// key; a write to a virtual disk that the disk does not have is dropped.
    pub open spec fn put(self, vdisk: u32, key: u64, data: Payload) -> MemDiskView {
        if self.vdisks.contains_key(vdisk) {
            MemDiskView {
                vdisks: self.vdisks.insert(vdisk, self.vdisks[vdisk].insert(key, data)),
                ..self
            }
        } else {
            self
        }
    }

    /// The payload that the virtual disk keeps under the key.
    pub open spec fn get(self, vdisk: u32, key: u64) -> Option<Payload> {
        if self.vdisks.contains_key(vdisk) && self.vdisks[vdisk].contains_key(key) {
            Some(self.vdisks[vdisk][key])
        } else {
            None
        }
    }
}

/// A named disk in memory with its virtual disks.
pub struct MemDisk {
    name: String,
    vdisks: HashMap<u32, VDisk>,
}

impl View for MemDisk {
    type V = MemDiskView;

    closed spec fn view(&self) -> MemDiskView {
        MemDiskView {
            name: self.name@,
            vdisks: Map::new(|id: u32| self.vdisks@.contains_key(id), |id: u32| self.vdisks@[id]@),
        }
    }
}

impl MemDisk {
    /// A disk with the virtual disks `0` to `vdisks_count - 1`, each without records.
    pub fn new(name: String, vdisks_count: u32) -> (r: MemDisk)
        ensures
            r@ == MemDiskView::fresh(name@, vdisks_count),
    {
        let mut b: HashMap<u32, VDisk> = HashMap::new();
        let mut i: u32 = 0;
        while i < vdisks_count
            invariant
                i <= vdisks_count,
                forall|id: u32| b@.contains_key(id) <==> id < i,
                forall|id: u32| id < i ==> b@[id]@ == Map::<u64, Payload>::empty(),
            decreases vdisks_count - i,
        {
            b.insert(i, VDisk::new());
            i = i + 1;
        }
        let r = MemDisk { name, vdisks: b };
        assert(r@.vdisks =~= MemDiskView::fresh(name@, vdisks_count).vdisks);
        r
    }

    pub fn name(&self) -> (r: &str)
        ensures
            r@ == self@.name,
    {
        self.name.as_str()
    }

    /// Keeps the payload under the key in the virtual disk.
    pub fn put(&mut self, vdisk_id: VDiskId, key: BobKey, data: BobData)
        ensures
            final(self)@ == old(self)@.put(vdisk_id.spec_as_u32(), key.key, data@),
    {
        let id: u32 = vdisk_id.as_u32();
        match self.vdisks.remove(&id) {
            Some(vdisk) => {
                let mut vdisk = vdisk;
                vdisk.put(key, data);
                self.vdisks.insert(id, vdisk);
                assert(self@.vdisks =~= old(self)@.put(id, key.key, data@).vdisks);
            },
            None => {
                assert(self@.vdisks =~= old(self)@.vdisks);
            },
        }
    }

    /// The payload that the virtual disk keeps under the key.
    pub fn get(&self, vdisk_id: VDiskId, key: BobKey) -> (r: Option<BobData>)
        ensures
            match r {
                Some(data) => self@.get(vdisk_id.spec_as_u32(), key.key) == Some(data@),
                None => self@.get(vdisk_id.spec_as_u32(), key.key) is None,
            },
    {
        let id: u32 = vdisk_id.as_u32();
        match self.vdisks.get(&id) {
            Some(vdisk) => vdisk.get(key),
            None => None,
        }
    }
}

/// The position of the first disk at or after `from` with the given name;
/// the number of disks if there is none.
pub open spec fn disk_named(disks: Seq<MemDiskView>, name: Seq<char>, from: int) -> int
    decreases disks.len() - from,
{
    if from < 0 || from >= disks.len() {
        disks.len() as int
    } else if disks[from].name == name {
        from
    } else {
        disk_named(disks, name, from + 1)
    }
}

/// The engine in memory as a mathematical value.
pub struct MemView {
    /// The disks of the node's own data.
    pub disks: Seq<MemDiskView>,
    /// The disk of alien data.
    pub foreign: MemDiskView,
}

impl MemView {
    /// What a write of the node's own data does, and the kind of error it
    /// ends with, if any: the first disk of the operation's name takes it.
    /// An operation without a local disk, or with one that the engine does
    /// not have, ends with `Internal`.
    pub open spec fn put(self, op: OperationView, key: u64, data: Payload) -> (
        MemView,
        Option<ErrorKind>,
    ) {
        match op.disk_path {
            None => (self, Some(ErrorKind::Internal)),
            Some(path) => {
                let i = disk_named(self.disks, path.name, 0);
                if i < self.disks.len() {
                    (
                        MemView {
                            disks: self.disks.update(
                                i,
                                self.disks[i].put(op.vdisk_id.spec_as_u32(), key, data),
                            ),
                            ..self
                        },
                        None,
                    )
                } else {
                    (self, Some(ErrorKind::Internal))
                }
            },
        }
    }

    /// What a read of the node's own data answers: the payload that the first
    /// disk of the operation's name keeps under the key, `KeyNotFound` where
    /// it keeps none, `Internal` where there is no such disk.
    pub open spec fn get(self, op: OperationView, key: u64) -> Result<Payload, ErrorKind> {
        match op.disk_path {
            None => Err(ErrorKind::Internal),
            Some(path) => {
                let i = disk_named(self.disks, path.name, 0);
                if i < self.disks.len() {
                    match self.disks[i].get(op.vdisk_id.spec_as_u32(), key) {
                        Some(data) => Ok(data),
                        None => Err(ErrorKind::KeyNotFound),
                    }
                } else {
                    Err(ErrorKind::Internal)
                }
            },
        }
    }

    /// What a read of alien data answers.
    pub open spec fn get_alien(self, op: OperationView, key: u64) -> Result<Payload, ErrorKind> {
        match self.foreign.get(op.vdisk_id.spec_as_u32(), key) {
            Some(data) => Ok(data),
            None => Err(ErrorKind::KeyNotFound),
        }
    }

    /// What a write of alien data does: the disk kept for alien data takes it.
    pub open spec fn put_alien(self, op: OperationView, key: u64, data: Payload) -> MemView {
        MemView { foreign: self.foreign.put(op.vdisk_id.spec_as_u32(), key, data), ..self }
    }

    /// What a presence check answers for one key: whether a read of the key
    /// would find it. An alien operation reads alien data.
    pub open spec fn exist(self, op: OperationView, key: u64) -> bool {
        if op.disk_path is None {
            self.get_alien(op, key) is Ok
        } else {
            self.get(op, key) is Ok
        }
    }
}

/// The views of a list of disks.
pub open spec fn disk_views(disks: Seq<MemDisk>) -> Seq<MemDiskView> {
    Seq::new(disks.len(), |i: int| disks[i]@)
}

/// The number of virtual disks that each disk of an engine made from a
/// placement map has.
pub const DEFAULT_VDISKS_COUNT: u32 = 10;

/// The engine that keeps its data in memory.
pub struct MemBackend {
    disks: Vec<MemDisk>,
    foreign_data: MemDisk,
}

impl View for MemBackend {
    type V = MemView;

    closed spec fn view(&self) -> MemView {
        MemView { disks: disk_views(self.disks@), foreign: self.foreign_data@ }
    }
}

impl MemView {
    /// An engine with one disk for each name, and a disk for alien data, each
    /// with the virtual disks `0` to `count - 1` and no records.
    pub open spec fn fresh(names: Seq<Seq<char>>, count: u32) -> MemView {
        MemView {
            disks: Seq::new(names.len(), |i: int| MemDiskView::fresh(names[i], count)),
            foreign: MemDiskView::fresh("foreign"@, count),
        }
    }
}

/// The names given as texts.
pub open spec fn texts(names: Seq<String>) -> Seq<Seq<char>> {
    Seq::new(names.len(), |i: int| names[i]@)
}

/// The names of the disks.
pub open spec fn disk_names(disks: Seq<crate::data::DiskPath>) -> Seq<Seq<char>> {
    Seq::new(disks.len(), |i: int| disks[i].name@)
}

impl MemBackend {
    /// An engine with one disk for each name, and a disk for alien data, each
    /// with the virtual disks `0` to `vdisks_count - 1` and no records.
    pub fn new_direct(paths: &[String], vdisks_count: u32) -> (r: MemBackend)
        ensures
            r@ == MemView::fresh(texts(paths@), vdisks_count),
    {
        let mut disks: Vec<MemDisk> = Vec::new();
        let mut i: usize = 0;
        while i < paths.len()
            invariant
                i <= paths@.len(),
                disks@.len() == i,
                forall|k: int|
                    0 <= k < i ==> (#[trigger] disks@[k])@ == MemDiskView::fresh(
                        paths@[k]@,
                        vdisks_count,
                    ),
            decreases paths@.len() - i,
        {
            disks.push(MemDisk::new(paths[i].clone(), vdisks_count));
            i = i + 1;
        }
        let r = MemBackend {
            disks,
            foreign_data: MemDisk::new(String::from_str("foreign"), vdisks_count),
        };
        assert(r@.disks =~= MemView::fresh(texts(paths@), vdisks_count).disks);
        r
    }

    /// An engine with one disk for each name.
    pub fn new(paths: &[String], vdisks_count: u32) -> (r: MemBackend)
        ensures
            r@ == MemView::fresh(texts(paths@), vdisks_count),
    {
        Self::new_direct(paths, vdisks_count)
    }

    /// An engine with one disk for each local disk of the placement map,
    /// each with ten virtual disks.
    pub fn new2(mapper: &Virtual) -> (r: MemBackend)
        ensures
            r@ == MemView::fresh(disk_names(mapper.spec_local_disks()), DEFAULT_VDISKS_COUNT),
    {
        let local = mapper.local_disks();
        let mut disks: Vec<MemDisk> = Vec::new();
        let mut i: usize = 0;
        while i < local.len()
            invariant
                i <= local@.len(),
                disks@.len() == i,
                forall|k: int|
                    0 <= k < i ==> (#[trigger] disks@[k])@ == MemDiskView::fresh(
                        local@[k].name@,
                        DEFAULT_VDISKS_COUNT,
                    ),
            decreases local@.len() - i,
        {
            disks.push(MemDisk::new(local[i].name.clone(), DEFAULT_VDISKS_COUNT));
            i = i + 1;
        }
        let r = MemBackend {
            disks,
            foreign_data: MemDisk::new(String::from_str("foreign"), DEFAULT_VDISKS_COUNT),
        };
        assert(r@.disks =~= MemView::fresh(
            disk_names(mapper.spec_local_disks()),
            DEFAULT_VDISKS_COUNT,
        ).disks);
        r
    }

    /// Finds the first disk with the given name.
    fn find_disk(&self, name: &str) -> (r: Option<usize>)
        ensures
            match r {
                Some(i) => i < self.disks@.len() && i == disk_named(self@.disks, name@, 0),
                None => disk_named(self@.disks, name@, 0) == self@.disks.len(),
            },
    {
        let ghost all = self@.disks;
        let mut i: usize = 0;
        while i < self.disks.len()
            invariant
                i <= self.disks@.len(),
                all == disk_views(self.disks@),
                disk_named(all, name@, 0) == disk_named(all, name@, i as int),
            decreases self.disks@.len() - i,
        {
            if str_equal(self.disks[i].name(), name) {
                return Some(i);
            }
            i = i + 1;
        }
        None
    }

    /// Writes a record of the node's own data.
    pub fn put(&mut self, op: BackendOperation, key: BobKey, data: BobData) -> (r: PutResult)
        ensures
            (final(self)@, failure_kind(r)) == old(self)@.put(op@, key.key, data@),
    {
        let name = match &op.disk_path {
            Some(path) => path.name.as_str(),
            None => {
                return Err(Error::Internal);
            },
        };
        match self.find_disk(name) {
            Some(i) => {
                self.disks[i].put(op.vdisk_id, key, data);
                assert(self@.disks =~= old(self)@.put(op@, key.key, data@).0.disks);
                Ok(BackendPutResult)
            },
            None => Err(Error::Internal),
        }
    }

    /// Reads a key of the node's own data.
    pub fn get(&self, op: BackendOperation, key: BobKey) -> (r: GetResult)
        ensures
            match r {
                Ok(found) => self@.get(op@, key.key) == Ok::<Payload, ErrorKind>(found.data@),
                Err(e) => self@.get(op@, key.key) == Err::<Payload, ErrorKind>(e.spec_kind()),
            },
    {
        let name = match &op.disk_path {
            Some(path) => path.name.as_str(),
            None => {
                return Err(Error::Internal);
            },
        };
        match self.find_disk(name) {
            Some(i) => match self.disks[i].get(op.vdisk_id, key) {
                Some(data) => Ok(BackendGetResult { data }),
                None => Err(Error::KeyNotFound),
            },
            None => Err(Error::Internal),
        }
    }

    /// Writes a record of alien data: to the disk kept for it.
    pub fn put_alien(&mut self, op: BackendOperation, key: BobKey, data: BobData) -> (r: PutResult)
        ensures
            r is Ok,
            final(self)@ == old(self)@.put_alien(op@, key.key, data@),
    {
        self.foreign_data.put(op.vdisk_id, key, data);
        Ok(BackendPutResult)
    }

    /// Reads a key of alien data.
    pub fn get_alien(&self, op: BackendOperation, key: BobKey) -> (r: GetResult)
        ensures
            match r {
                Ok(found) => self@.get_alien(op@, key.key) == Ok::<Payload, ErrorKind>(found.data@),
                Err(e) => self@.get_alien(op@, key.key) == Err::<Payload, ErrorKind>(
                    e.spec_kind(),
                ),
            },
    {
        match self.foreign_data.get(op.vdisk_id, key) {
            Some(data) => Ok(BackendGetResult { data }),
            None => Err(Error::KeyNotFound),
        }
    }

    /// Says for each key, position by position, whether a read of it would find it.
    pub fn exist(&self, op: BackendOperation, keys: &Vec<BobKey>) -> (r: Result<Vec<bool>, Error>)
        ensures
            r matches Ok(found) && found@.len() == keys@.len() && forall|i: int|
                0 <= i < keys@.len() ==> found@[i] == self@.exist(op@, (#[trigger] keys@[i]).key),
    {
        let mut found: Vec<bool> = Vec::new();
        let mut i: usize = 0;
        while i < keys.len()
            invariant
                i <= keys@.len(),
                found@.len() == i,
                forall|k: int|
                    0 <= k < i ==> found@[k] == self@.exist(op@, (#[trigger] keys@[k]).key),
            decreases keys@.len() - i,
        {
            let answer = if op.is_data_alien() {
                self.get_alien(op.clone(), keys[i])
            } else {
                self.get(op.clone(), keys[i])
            };
            found.push(answer.is_ok());
            i = i + 1;
        }
        Ok(found)
    }
}

} // verus!
