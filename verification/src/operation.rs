//! The operation that a request is turned into: the virtual disk it goes to,
//! and either the local disk that holds it or the node whose data it is.

use crate::data::{BobData, DiskPath, DiskPathView, VDiskId};
use crate::error::Error;
use crate::text::{opt_string_equal, opt_text, str_equal};
use vstd::prelude::*;
use vstd::std_specs::cmp::PartialEqSpecImpl;
use vstd::string::*;

verus! {

/// An operation as a mathematical value.
pub struct OperationView {
    pub vdisk_id: VDiskId,
    pub disk_path: Option<DiskPathView>,
    pub remote_node_name: Option<Seq<char>>,
}

/// Where a request is carried out. It is alien when it names no local disk;
/// its data then lies under the name of the node found in `remote_node_name`.
#[derive(Debug)]
pub struct BackendOperation {
    pub vdisk_id: VDiskId,
    pub disk_path: Option<DiskPath>,
    pub remote_node_name: Option<String>,
}

impl View for BackendOperation {
    type V = OperationView;

    open spec fn view(&self) -> OperationView {
        OperationView {
            vdisk_id: self.vdisk_id,
            disk_path: match self.disk_path {
                Some(p) => Some(p@),
                None => None,
            },
            remote_node_name: opt_text(self.remote_node_name),
        }
    }
}

impl Clone for BackendOperation {
    fn clone(&self) -> (r: Self)
        ensures
            r@ == self@,
    {
        BackendOperation {
            vdisk_id: self.vdisk_id,
            disk_path: match &self.disk_path {
                Some(p) => Some(p.clone()),
                None => None,
            },
            remote_node_name: match &self.remote_node_name {
                Some(n) => Some(n.clone()),
                None => None,
            },
        }
    }
}

impl PartialEq for BackendOperation {
    /// Two operations are the same when all three of their fields are.
    fn eq(&self, other: &BackendOperation) -> (r: bool) {
        let same_path = match (&self.disk_path, &other.disk_path) {
            (None, None) => true,
            (Some(a), Some(b)) => str_equal(a.name.as_str(), b.name.as_str()) && str_equal(
                a.path.as_str(),
                b.path.as_str(),
            ),
            _ => false,
        };
        proof {
            VDiskId::lemma_same_number(self.vdisk_id, other.vdisk_id);
            assert(same_path == (self@.disk_path == other@.disk_path));
        }
        self.vdisk_id.as_u32() == other.vdisk_id.as_u32() && same_path && opt_string_equal(
            &self.remote_node_name,
            &other.remote_node_name,
        )
    }
}

impl PartialEqSpecImpl for BackendOperation {
    open spec fn obeys_eq_spec() -> bool {
        true
    }

    open spec fn eq_spec(&self, other: &BackendOperation) -> bool {
        self@ == other@
    }
}

impl BackendOperation {
    /// True when the operation names no local disk.
    pub open spec fn spec_is_data_alien(&self) -> bool {
        self.disk_path is None
    }

    /// An alien operation on the virtual disk, with no node named yet.
    pub fn new_alien(vdisk_id: VDiskId) -> (r: BackendOperation)
        ensures
            r@ == (OperationView { vdisk_id, disk_path: None, remote_node_name: None }),
    {
        BackendOperation { vdisk_id, disk_path: None, remote_node_name: None }
    }

    /// An operation on the virtual disk as held by the local disk `path`.
    pub fn new_local(vdisk_id: VDiskId, path: DiskPath) -> (r: BackendOperation)
        ensures
            r@ == (OperationView { vdisk_id, disk_path: Some(path@), remote_node_name: None }),
    {
        BackendOperation { vdisk_id, disk_path: Some(path), remote_node_name: None }
    }

    /// The alien operation on the same virtual disk, under the same node name.
    pub fn clone_alien(&self) -> (r: Self)
        ensures
            r@ == (OperationView { disk_path: None, ..self@ }),
    {
        BackendOperation {
            vdisk_id: self.vdisk_id,
            disk_path: None,
            remote_node_name: match &self.remote_node_name {
                Some(n) => Some(n.clone()),
                None => None,
            },
        }
    }

    /// Names the node under whose name the data of the operation lies.
    pub fn set_remote_folder(&mut self, name: &str)
        ensures
            final(self)@ == (OperationView { remote_node_name: Some(name@), ..old(self)@ }),
    {
        self.remote_node_name = Some(String::from_str(name));
    }

    #[verifier::when_used_as_spec(spec_is_data_alien)]
    pub fn is_data_alien(&self) -> (r: bool)
        ensures
            r == self.spec_is_data_alien(),
    {
        self.disk_path.is_none()
    }

    pub fn vdisk_id(&self) -> (r: VDiskId)
        ensures
            r == self.vdisk_id,
    {
        self.vdisk_id
    }

    /// The name of the local disk of an operation that is not alien.
    pub fn disk_name_local(&self) -> (r: String)
        requires
            !self.spec_is_data_alien(),
        ensures
            r@ == self@.disk_path->0.name,
    {
        match &self.disk_path {
            Some(p) => p.name.clone(),
            None => String::new(),
        }
    }

    /// The name of the node of an operation that names one.
    pub fn remote_node_name(&self) -> (r: String)
        requires
            self.remote_node_name is Some,
        ensures
            self@.remote_node_name == Some(r@),
    {
        match &self.remote_node_name {
            Some(n) => n.clone(),
            None => String::new(),
        }
    }
}

/// The answer to a write that was carried out.
#[derive(Debug, Clone, Copy, PartialEq, Eq, Structural)]
pub struct BackendPutResult;

/// The answer to a read that found its record.
#[derive(Debug, PartialEq)]
pub struct BackendGetResult {
    pub data: BobData,
}

/// The answer to a ping.
#[derive(Debug, Clone, Copy, PartialEq, Eq, Structural)]
pub struct BackendPingResult;

pub type GetResult = Result<BackendGetResult, Error>;

pub type PutResult = Result<BackendPutResult, Error>;

} // verus!
