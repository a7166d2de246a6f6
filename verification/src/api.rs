//! What the administrative interface shows of a node: its virtual disks and
//! their replicas, the partitions of a virtual disk, and the answers to
//! attaching and detaching a partition.

use crate::backend::{Backend, StorageView};
use crate::data::{NodeDisk, VDisk as DataVDisk};
use crate::decimal::{i64_to_string, int_text, u64_to_string};
use crate::group::{index_of_start, views, PearlGroup};
use crate::pearl::{change_partition, find_group_of_vdisk, group_of_vdisk, EngineView};
use crate::text::str_equal;
use vstd::prelude::*;
use vstd::string::*;

verus! {

/// The status of an answer: the request was carried out.
pub const STATUS_OK: u16 = 200;

/// The status of an answer: what was asked for is not there.
pub const STATUS_NOT_FOUND: u16 = 404;

/// The status of an answer: the engine of the node cannot do what was asked.
pub const STATUS_NOT_ACCEPTABLE: u16 = 406;

/// What can be done with a partition.
#[derive(Debug, Clone, Copy, PartialEq, Eq, Structural)]
pub enum Action {
    Attach,
    Detach,
}

impl Action {
    /// Reads the name of an action from a request: `attach` or `detach`. Any
    /// other text is handed back.
    pub fn from_param(param: &str) -> (r: Result<Action, String>)
        ensures
            param@ == "attach"@ ==> r == Ok::<Action, String>(Action::Attach),
            param@ == "detach"@ ==> r == Ok::<Action, String>(Action::Detach),
            param@ != "attach"@ && param@ != "detach"@ ==> (r matches Err(text) && text@ == param@),
    {
        proof {
            reveal_strlit("attach");
            reveal_strlit("detach");
            assert("attach"@[0] != "detach"@[0]);
        }
        if str_equal(param, "attach") {
            Ok(Action::Attach)
        } else if str_equal(param, "detach") {
            Ok(Action::Detach)
        } else {
            Err(String::from_str(param))
        }
    }

    /// The name of the action.
    pub fn name(&self) -> (r: &'static str)
        ensures
            r@ == match self {
                Action::Attach => "Attach"@,
                Action::Detach => "Detach"@,
            },
    {
        match self {
            Action::Attach => "Attach",
            Action::Detach => "Detach",
        }
    }
}

/// A node as the interface shows it.
#[derive(Debug)]
pub struct Node {
    pub name: String,
    pub address: String,
    pub vdisks: Vec<VDisk>,
}

/// A virtual disk as the interface shows it.
#[derive(Debug)]
pub struct VDisk {
    pub id: u32,
    pub replicas: Vec<Replica>,
}

/// A replica as the interface shows it.
#[derive(Debug)]
pub struct Replica {
    pub node: String,
    pub disk: String,
    pub path: String,
}

/// The partitions of a virtual disk as the interface shows them.
#[derive(Debug)]
pub struct VDiskPartitions {
    pub vdisk_id: u32,
    pub node_name: String,
    pub disk_name: String,
    pub partitions: Vec<i64>,
}

/// One partition as the interface shows it.
#[derive(Debug)]
pub struct Partition {
    pub vdisk_id: u32,
    pub node_name: String,
    pub disk_name: String,
    pub timestamp: i64,
}

/// An answer of the interface that carries a status and a message.
#[derive(Debug)]
pub struct StatusExt {
    pub status: u16,
    pub ok: bool,
    pub msg: String,
}

impl StatusExt {
    pub fn new(status: u16, ok: bool, msg: String) -> (r: Self)
        ensures
            r.status == status,
            r.ok == ok,
            r.msg == msg,
    {
        StatusExt { status, ok, msg }
    }

    /// The answer that a bare status stands for: its reason is the message.
    pub fn from_status(status: u16, reason: &str) -> (r: Self)
        ensures
            r.status == status,
            r.ok,
            r.msg@ == reason@,
    {
        StatusExt { status, ok: true, msg: String::from_str(reason) }
    }

    /// The body of the answer.
    pub open spec fn spec_body(&self) -> Seq<char> {
        "{ \"ok\": "@ + (if self.ok {
            "true"@
        } else {
            "false"@
        }) + ", \"msg\": \""@ + self.msg@ + "\" }"@
    }

    /// The body of the answer: the flag and the message.
    pub fn body(&self) -> (r: String)
        ensures
            r@ == self.spec_body(),
    {
        let flag = if self.ok {
            "true"
        } else {
            "false"
        };
        String::from_str("{ \"ok\": ").concat(flag).concat(", \"msg\": \"").concat(
            self.msg.as_str(),
        ).concat("\" }")
    }
}

/// True when the shown replica is the given replica.
pub open spec fn shows_replica(shown: Replica, replica: NodeDisk) -> bool {
    &&& shown.node@ == replica.node.name@
    &&& shown.disk@ == replica.name@
    &&& shown.path@ == replica.path@
}

/// True when the shown virtual disk is the given virtual disk.
pub open spec fn shows_vdisk(shown: VDisk, vdisk: DataVDisk) -> bool {
    &&& shown.id == vdisk.id.spec_as_u32()
    &&& shown.replicas@.len() == vdisk.replicas@.len()
    &&& forall|i: int|
        0 <= i < shown.replicas@.len() ==> shows_replica(
            #[trigger] shown.replicas@[i],
            vdisk.replicas@[i],
        )
}

/// True when the shown virtual disks are the given virtual disks, in their order.
pub open spec fn shows_vdisks(shown: Seq<VDisk>, vdisks: Seq<DataVDisk>) -> bool {
    &&& shown.len() == vdisks.len()
    &&& forall|i: int| 0 <= i < shown.len() ==> shows_vdisk(#[trigger] shown[i], vdisks[i])
}

/// Shows the replicas of a virtual disk.
pub fn collect_replicas_info(replicas: &Vec<NodeDisk>) -> (r: Vec<Replica>)
    ensures
        r@.len() == replicas@.len(),
        forall|i: int| 0 <= i < r@.len() ==> shows_replica(#[trigger] r@[i], replicas@[i]),
{
    let mut shown: Vec<Replica> = Vec::new();
    let mut i: usize = 0;
    while i < replicas.len()
        invariant
            i <= replicas@.len(),
            shown@.len() == i,
            forall|k: int| 0 <= k < i ==> shows_replica(#[trigger] shown@[k], replicas@[k]),
        decreases replicas@.len() - i,
    {
        let replica = &replicas[i];
        shown.push(
            Replica {
                path: replica.path.clone(),
                disk: replica.name.clone(),
                node: replica.node.name.clone(),
            },
        );
        i = i + 1;
    }
    shown
}

/// Shows a virtual disk.
pub fn data_vdisk_to_scheme(disk: &DataVDisk) -> (r: VDisk)
    ensures
        shows_vdisk(r, *disk),
{
    VDisk { id: disk.id.as_u32(), replicas: collect_replicas_info(&disk.replicas) }
}

/// Shows the virtual disks of the cluster.
pub fn collect_disks_info(backend: &Backend) -> (r: Vec<VDisk>)
    ensures
        shows_vdisks(r@, backend.spec_mapper().spec_vdisks()),
{
    let vdisks = backend.mapper().vdisks();
    let mut shown: Vec<VDisk> = Vec::new();
    let mut i: usize = 0;
    while i < vdisks.len()
        invariant
            i <= vdisks@.len(),
            shown@.len() == i,
            forall|k: int| 0 <= k < i ==> shows_vdisk(#[trigger] shown@[k], vdisks@[k]),
        decreases vdisks@.len() - i,
    {
        shown.push(data_vdisk_to_scheme(&vdisks[i]));
        i = i + 1;
    }
    shown
}

/// Finds the virtual disk with the given number.
pub fn find_vdisk(backend: &Backend, id: u32) -> (r: Option<&DataVDisk>)
    ensures
        match r {
            Some(vdisk) => id < backend.spec_mapper().spec_vdisks().len() && *vdisk
                == backend.spec_mapper().spec_vdisks()[id as int] && vdisk.id.spec_as_u32() == id,
            None => id >= backend.spec_mapper().spec_vdisks().len(),
        },
{
    let vdisks = backend.mapper().vdisks();
    if (id as usize) < vdisks.len() {
        Some(&vdisks[id as usize])
    } else {
        None
    }
}

/// Shows the virtual disk with the given number.
pub fn get_vdisk_by_id(backend: &Backend, id: u32) -> (r: Option<VDisk>)
    ensures
        match r {
            Some(shown) => id < backend.spec_mapper().spec_vdisks().len() && shows_vdisk(
                shown,
                backend.spec_mapper().spec_vdisks()[id as int],
            ),
            None => id >= backend.spec_mapper().spec_vdisks().len(),
        },
{
    match find_vdisk(backend, id) {
        Some(vdisk) => Some(data_vdisk_to_scheme(vdisk)),
        None => None,
    }
}

/// Shows the node: its name, its address, empty where the cluster
/// description does not list the node, and the virtual disks of the cluster.
pub fn status(backend: &Backend) -> (r: Node)
    ensures
        r.name@ == backend.spec_mapper().spec_local_node_name(),
        r.address@ == match backend.spec_mapper().spec_local_node_address() {
            Some(address) => address,
            None => Seq::<char>::empty(),
        },
        shows_vdisks(r.vdisks@, backend.spec_mapper().spec_vdisks()),
{
    let mapper = backend.mapper();
    let name = String::from_str(mapper.local_node_name());
    let address = match mapper.local_node_address() {
        Some(address) => address,
        None => String::new(),
    };
    Node { name, address, vdisks: collect_disks_info(backend) }
}

/// Shows the virtual disks of the cluster.
pub fn vdisks(backend: &Backend) -> (r: Vec<VDisk>)
    ensures
        shows_vdisks(r@, backend.spec_mapper().spec_vdisks()),
{
    collect_disks_info(backend)
}

/// Shows the virtual disk with the given number.
pub fn vdisk_by_id(backend: &Backend, vdisk_id: u32) -> (r: Option<VDisk>)
    ensures
        match r {
            Some(shown) => vdisk_id < backend.spec_mapper().spec_vdisks().len() && shows_vdisk(
                shown,
                backend.spec_mapper().spec_vdisks()[vdisk_id as int],
            ),
            None => vdisk_id >= backend.spec_mapper().spec_vdisks().len(),
        },
{
    get_vdisk_by_id(backend, vdisk_id)
}

/// The answer of a node whose engine has no partitions.
pub fn not_acceptable_backend() -> (r: StatusExt)
    ensures
        r.status == STATUS_NOT_ACCEPTABLE,
        r.ok,
        r.msg@ == "only pearl backend supports partitions"@,
{
    StatusExt::from_status(STATUS_NOT_ACCEPTABLE, "only pearl backend supports partitions")
}

/// The message for a virtual disk that has no group.
pub open spec fn vdisk_not_found_text(vdisk_id: u32) -> Seq<char> {
    "vdisk with id: "@ + int_text(vdisk_id as int) + " not found"@
}

/// The message for a partition that a virtual disk does not have.
pub open spec fn partition_not_found_text(partition_id: i64, vdisk_id: u32) -> Seq<char> {
    "partition with id: "@ + int_text(partition_id as int) + " in vdisk "@ + int_text(
        vdisk_id as int,
    ) + " not found"@
}

/// The message for a partition that was attached or detached.
pub open spec fn partition_changed_text(partition_id: i64, vdisk_id: u32, action: Action) -> Seq<
    char,
> {
    "partition with id: "@ + int_text(partition_id as int) + " in vdisk "@ + int_text(
        vdisk_id as int,
    ) + " is successfully "@ + (match action {
        Action::Attach => "Attach"@,
        Action::Detach => "Detach"@,
    }) + "ed"@
}

/// Finds the first group of the node's own data that holds the virtual disk.
pub fn find_group(backend: &Backend, vdisk_id: u32) -> (r: Result<&PearlGroup, StatusExt>)
    ensures
        match (r, backend@) {
            (Ok(group), StorageView::Pearl(e)) => group_of_vdisk(e.normal, vdisk_id, 0)
                < e.normal.len() && group@ == e.normal[group_of_vdisk(e.normal, vdisk_id, 0)],
            (Err(answer), StorageView::Pearl(e)) => group_of_vdisk(e.normal, vdisk_id, 0)
                == e.normal.len() && answer.status == STATUS_NOT_FOUND && !answer.ok && answer.msg@
                == vdisk_not_found_text(vdisk_id),
            (Ok(_), _) => false,
            (Err(answer), _) => answer.status == STATUS_NOT_ACCEPTABLE && answer.ok && answer.msg@
                == "only pearl backend supports partitions"@,
        },
{
    let groups = match backend.backend().vdisks_groups() {
        Some(groups) => groups,
        None => {
            return Err(not_acceptable_backend());
        },
    };
    match find_group_of_vdisk(groups, vdisk_id) {
        Some(i) => Ok(&groups[i]),
        None => {
            let number = u64_to_string(vdisk_id as u64);
            let msg = String::from_str("vdisk with id: ").concat(number.as_str()).concat(
                " not found",
            );
            Err(StatusExt::new(STATUS_NOT_FOUND, false, msg))
        },
    }
}

/// Shows the partitions of a virtual disk: the starts of their windows, in order.
pub fn partitions(backend: &Backend, vdisk_id: u32) -> (r: Result<VDiskPartitions, StatusExt>)
    ensures
        match (r, backend@) {
            (Ok(shown), StorageView::Pearl(e)) => {
                let i = group_of_vdisk(e.normal, vdisk_id, 0);
                &&& i < e.normal.len()
                &&& shown.vdisk_id == e.normal[i].vdisk_id.spec_as_u32()
                &&& shown.node_name@ == e.normal[i].node_name
                &&& shown.disk_name@ == e.normal[i].disk_name
                &&& shown.partitions@.len() == e.normal[i].holders.len()
                &&& forall|k: int|
                    0 <= k < shown.partitions@.len() ==> #[trigger] shown.partitions@[k]
                        == e.normal[i].holders[k].start
            },
            (Err(answer), StorageView::Pearl(e)) => group_of_vdisk(e.normal, vdisk_id, 0)
                == e.normal.len() && answer.status == STATUS_NOT_FOUND && !answer.ok && answer.msg@
                == vdisk_not_found_text(vdisk_id),
            (Ok(_), _) => false,
            (Err(answer), _) => answer.status == STATUS_NOT_ACCEPTABLE && answer.ok && answer.msg@
                == "only pearl backend supports partitions"@,
        },
{
    let group = match find_group(backend, vdisk_id) {
        Ok(group) => group,
        Err(answer) => {
            return Err(answer);
        },
    };
    let pearls = group.pearls();
    let mut starts: Vec<i64> = Vec::new();
    let mut k: usize = 0;
    while k < pearls.len()
        invariant
            k <= pearls@.len(),
            starts@.len() == k,
            forall|m: int| 0 <= m < k ==> #[trigger] starts@[m] == views(pearls@)[m].start,
        decreases pearls@.len() - k,
    {
        starts.push(pearls[k].start_timestamp());
        k = k + 1;
    }
    Ok(
        VDiskPartitions {
            node_name: String::from_str(group.node_name()),
            disk_name: String::from_str(group.disk_name()),
            vdisk_id: group.vdisk_id().as_u32(),
            partitions: starts,
        },
    )
}

/// Shows the partition of a virtual disk that starts at `partition_id`.
#[verifier::loop_isolation(false)]
pub fn partition_by_id(backend: &Backend, vdisk_id: u32, partition_id: i64) -> (r: Result<
    Partition,
    StatusExt,
>)
    ensures
        match (r, backend@) {
            (Ok(shown), StorageView::Pearl(e)) => {
                let i = group_of_vdisk(e.normal, vdisk_id, 0);
                &&& i < e.normal.len()
                &&& index_of_start(e.normal[i].holders, partition_id as int) >= 0
                &&& shown.vdisk_id == e.normal[i].vdisk_id.spec_as_u32()
                &&& shown.node_name@ == e.normal[i].node_name
                &&& shown.disk_name@ == e.normal[i].disk_name
                &&& shown.timestamp == partition_id
            },
            (Err(answer), StorageView::Pearl(e)) => {
                let i = group_of_vdisk(e.normal, vdisk_id, 0);
                &&& answer.status == STATUS_NOT_FOUND
                &&& !answer.ok
                &&& if i == e.normal.len() {
                    answer.msg@ == vdisk_not_found_text(vdisk_id)
                } else {
                    index_of_start(e.normal[i].holders, partition_id as int) < 0 && answer.msg@
                        == partition_not_found_text(partition_id, vdisk_id)
                }
            },
            (Ok(_), _) => false,
            (Err(answer), _) => answer.status == STATUS_NOT_ACCEPTABLE && answer.ok && answer.msg@
                == "only pearl backend supports partitions"@,
        },
{
    let group = match find_group(backend, vdisk_id) {
        Ok(group) => group,
        Err(answer) => {
            return Err(answer);
        },
    };
    let pearls = group.pearls();
    let ghost all = views(pearls@);
    let mut k: usize = pearls.len();
    proof {
        assert(all.take(k as int) =~= all);
    }
    while k > 0
        invariant
            k <= pearls@.len(),
            all == views(pearls@),
            index_of_start(all, partition_id as int) == index_of_start(
                all.take(k as int),
                partition_id as int,
            ),
        decreases k,
    {
        proof {
            assert(all.take(k as int).last() == pearls@[k - 1]@);
            assert(all.take(k as int).drop_last() =~= all.take(k - 1));
        }
        if pearls[k - 1].start_timestamp() == partition_id {
            return Ok(
                Partition {
                    node_name: String::from_str(group.node_name()),
                    disk_name: String::from_str(group.disk_name()),
                    vdisk_id: group.vdisk_id().as_u32(),
                    timestamp: partition_id,
                },
            );
        }
        k = k - 1;
    }
    let partition = i64_to_string(partition_id);
    let number = u64_to_string(vdisk_id as u64);
    let msg = String::from_str("partition with id: ").concat(partition.as_str()).concat(
        " in vdisk ",
    ).concat(number.as_str()).concat(" not found");
    Err(StatusExt::new(STATUS_NOT_FOUND, false, msg))
}

/// What attaching or detaching a partition does to the storage, and how
/// the answer says that it went. With the time-partitioned engine the
/// first group of the virtual disk attaches or detaches the partition; the
/// answer is the first of the pair where that went well, and carries the
/// flag and the message of the outcome. With another engine nothing
/// changes, and the answer says that the engine cannot do it.
pub open spec fn partition_state_changed(
    before: Backend,
    after: Backend,
    vdisk_id: u32,
    partition_id: i64,
    action: Action,
    r: Result<StatusExt, StatusExt>,
) -> bool {
    &&& after.spec_mapper() == before.spec_mapper()
    &&& match before@ {
        StorageView::Pearl(e) => {
            let changed = change_partition(
                e.normal,
                vdisk_id,
                partition_id as int,
                action == Action::Attach,
            );
            &&& after@ == StorageView::Pearl(EngineView { normal: changed.0, ..e })
            &&& match r {
                Ok(answer) => changed.1 is None && answer.status == STATUS_OK && answer.ok
                    && answer.msg@ == partition_changed_text(partition_id, vdisk_id, action),
                Err(answer) => changed.1 is Some && !answer.ok && (if group_of_vdisk(
                    e.normal,
                    vdisk_id,
                    0,
                ) == e.normal.len() {
                    answer.status == STATUS_NOT_FOUND && answer.msg@ == vdisk_not_found_text(
                        vdisk_id,
                    )
                } else {
                    answer.status == STATUS_OK
                }),
            }
        },
        _ => after@ == before@ && (r matches Err(answer) && answer.status
            == STATUS_NOT_ACCEPTABLE),
    }
}

/// Attaches or detaches the partition of a virtual disk that starts at
/// `partition_id`, and says how it went.
pub fn change_partition_state(backend: &mut Backend, vdisk_id: u32, partition_id: i64, action: Action) -> (r:
    Result<StatusExt, StatusExt>)
    ensures
        partition_state_changed(*old(backend), *final(backend), vdisk_id, partition_id, action, r),
{
    match find_group(backend, vdisk_id) {
        Ok(_) => {},
        Err(answer) => {
            return Err(answer);
        },
    }
    let attach = match action {
        Action::Attach => true,
        Action::Detach => false,
    };
    match backend.change_partition_state(vdisk_id, partition_id, attach) {
        Ok(_) => {
            let partition = i64_to_string(partition_id);
            let number = u64_to_string(vdisk_id as u64);
            let msg = String::from_str("partition with id: ").concat(partition.as_str()).concat(
                " in vdisk ",
            ).concat(number.as_str()).concat(" is successfully ").concat(action.name()).concat("ed");
            Ok(StatusExt::new(STATUS_OK, true, msg))
        },
        Err(e) => Err(StatusExt::new(STATUS_OK, false, e.description())),
    }
}

/// The answer of the path kept for alien data.
pub fn alien() -> (r: &'static str)
    ensures
        r@ == "alien"@,
{
    "alien"
}

} // verus!
