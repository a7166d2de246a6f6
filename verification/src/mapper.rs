//! The placement map: which virtual disk a key belongs to, and which node and
//! disk hold the replicas of a virtual disk.

use crate::data::{BobKey, DiskPath, DiskPathView, Node, NodeDisk, VDisk, VDiskId};
use crate::text::str_equal;
use vstd::prelude::*;
use vstd::string::*;

verus! {

/// The position of the first replica at or after `from` that lies on the node
/// `node_name`; the number of replicas if there is none.
pub open spec fn first_replica_on_node(
    replicas: Seq<NodeDisk>,
    node_name: Seq<char>,
    from: int,
) -> int
    decreases replicas.len() - from,
{
    if from < 0 || from >= replicas.len() {
        replicas.len() as int
    } else if replicas[from].node.name@ == node_name {
        from
    } else {
        first_replica_on_node(replicas, node_name, from + 1)
    }
}

/// True when one of the replicas lies on the node `node_name`.
pub open spec fn has_replica_on_node(replicas: Seq<NodeDisk>, node_name: Seq<char>) -> bool {
    exists|j: int|
        0 <= j < replicas.len() && (#[trigger] replicas[j]).node.name@ == node_name
}

/// True when one of the replicas lies on the disk `disk_name` of the node `node_name`.
pub open spec fn has_replica_on_disk(
    replicas: Seq<NodeDisk>,
    node_name: Seq<char>,
    disk_name: Seq<char>,
) -> bool {
    exists|j: int|
        0 <= j < replicas.len() && (#[trigger] replicas[j]).node.name@ == node_name
            && replicas[j].name@ == disk_name
}

/// The ids of those virtual disks, in the order of the table, that have a
/// replica on the disk `disk_name` of the node `node_name`.
pub open spec fn ids_on_disk(
    vdisks: Seq<VDisk>,
    node_name: Seq<char>,
    disk_name: Seq<char>,
) -> Seq<VDiskId>
    decreases vdisks.len(),
{
    if vdisks.len() == 0 {
        Seq::empty()
    } else {
        let rest = ids_on_disk(vdisks.drop_last(), node_name, disk_name);
        if has_replica_on_disk(vdisks.last().replicas@, node_name, disk_name) {
            rest.push(vdisks.last().id)
        } else {
            rest
        }
    }
}

/// The position of the first disk at or after `from` with the given name;
/// the number of disks if there is none.
pub open spec fn disk_position(disks: Seq<DiskPath>, name: Seq<char>, from: int) -> int
    decreases disks.len() - from,
{
    if from < 0 || from >= disks.len() {
        disks.len() as int
    } else if disks[from].name@ == name {
        from
    } else {
        disk_position(disks, name, from + 1)
    }
}

/// The position of the first node at or after `from` with the given name;
/// the number of nodes if there is none.
pub open spec fn node_position(nodes: Seq<Node>, name: Seq<char>, from: int) -> int
    decreases nodes.len() - from,
{
    if from < 0 || from >= nodes.len() {
        nodes.len() as int
    } else if nodes[from].name@ == name {
        from
    } else {
        node_position(nodes, name, from + 1)
    }
}

/// The position of the first virtual disk at or after `from` with the given
/// number as its id; the number of virtual disks if there is none.
pub open spec fn id_position(vdisks: Seq<VDisk>, id: int, from: int) -> int
    decreases vdisks.len() - from,
{
    if from < 0 || from >= vdisks.len() {
        vdisks.len() as int
    } else if vdisks[from].id.spec_as_u32() == id {
        from
    } else {
        id_position(vdisks, id, from + 1)
    }
}

/// What `first_replica_on_node` finds is the first replica on that node.
pub proof fn lemma_first_replica_on_node(replicas: Seq<NodeDisk>, node_name: Seq<char>, from: int)
    requires
        0 <= from <= replicas.len(),
    ensures
        from <= first_replica_on_node(replicas, node_name, from) <= replicas.len(),
        forall|k: int|
            from <= k < first_replica_on_node(replicas, node_name, from) ==> (
            #[trigger] replicas[k]).node.name@ != node_name,
        first_replica_on_node(replicas, node_name, from) < replicas.len()
            ==> replicas[first_replica_on_node(replicas, node_name, from)].node.name@
            == node_name,
    decreases replicas.len() - from,
{
    if from < replicas.len() && replicas[from].node.name@ != node_name {
        lemma_first_replica_on_node(replicas, node_name, from + 1);
    }
}

/// The placement map of one node.
pub struct Virtual {
    local_node_name: String,
    disks: Vec<DiskPath>,
    nodes: Vec<Node>,
    vdisks: Vec<VDisk>,
}

impl Virtual {
    /// The table is not empty, and the virtual disk at position `i` has the id `i`.
    #[verifier::type_invariant]
    pub closed spec fn inv(&self) -> bool {
        Self::table_in_order(self.vdisks@)
    }

    /// The table of a placement map: not empty, and the virtual disk at
    /// position `i` has the id `i`.
    pub open spec fn table_in_order(vdisks: Seq<VDisk>) -> bool {
        &&& 0 < vdisks.len() <= u32::MAX
        &&& forall|i: int| 0 <= i < vdisks.len() ==> (#[trigger] vdisks[i]).id.spec_as_u32() == i
    }

    /// The name of this node.
    pub closed spec fn spec_local_node_name(&self) -> Seq<char> {
        self.local_node_name@
    }

    /// The disks of this node.
    pub closed spec fn spec_local_disks(&self) -> Seq<DiskPath> {
        self.disks@
    }

    /// The nodes of the cluster.
    pub closed spec fn spec_nodes(&self) -> Seq<Node> {
        self.nodes@
    }

    /// The virtual disks of the cluster.
    pub closed spec fn spec_vdisks(&self) -> Seq<VDisk> {
        self.vdisks@
    }

    /// The disk of this node that holds a replica of the virtual disk at
    /// position `index` of the table: that of the first replica on this node.
    pub open spec fn spec_local_disk_of(&self, index: int) -> Option<DiskPathView> {
        let replicas = self.spec_vdisks()[index].replicas@;
        let found = first_replica_on_node(replicas, self.spec_local_node_name(), 0);
        if found < replicas.len() {
            Some(DiskPathView { name: replicas[found].name@, path: replicas[found].path@ })
        } else {
            None
        }
    }

    /// Where a key is placed: its virtual disk, which is the one at the
    /// position of the key modulo the number of virtual disks, and the local
    /// disk that holds a replica of it, if this node holds one. The layout
    /// on disk depends on this rule.
    pub open spec fn spec_get_operation(&self, key: BobKey) -> (VDiskId, Option<DiskPathView>) {
        let index = (key.key as int) % (self.spec_vdisks().len() as int);
        (self.spec_vdisks()[index].id, self.spec_local_disk_of(index))
    }

    /// A list of virtual disks that a placement map can be made of: not
    /// empty, and with a virtual disk for each id from 0 to one less than
    /// their number, in whatever order.
    pub open spec fn accepts(vdisks: Seq<VDisk>) -> bool {
        &&& 0 < vdisks.len() <= u32::MAX
        &&& forall|id: int| 0 <= id < vdisks.len() ==> #[trigger] id_position(vdisks, id, 0)
            < vdisks.len()
    }

    /// True when `table` lists the given virtual disks in the order of
    /// their ids: at position `i` stands the virtual disk with the id `i`,
    /// with its replicas.
    pub open spec fn is_table_of(table: Seq<VDisk>, vdisks: Seq<VDisk>) -> bool {
        &&& table.len() == vdisks.len()
        &&& forall|i: int|
            0 <= i < table.len() ==> (#[trigger] table[i]).id.spec_as_u32() == i
                && table[i].replicas@ == vdisks[id_position(vdisks, i, 0)].replicas@
    }

    /// Builds the placement map of the node `local_node_name`, of virtual
    /// disks given in any order. There is none where the list is empty or
    /// lacks a virtual disk for one of the ids from 0 to one less than
    /// their number.
    pub fn new(
        local_node_name: &str,
        disks: Vec<DiskPath>,
        nodes: Vec<Node>,
        vdisks: Vec<VDisk>,
    ) -> (r: Option<Self>)
        ensures
            r is Some <==> Self::accepts(vdisks@),
            r matches Some(m) ==> {
                &&& m.inv()
                &&& m.spec_local_node_name() == local_node_name@
                &&& m.spec_local_disks() == disks@
                &&& m.spec_nodes() == nodes@
                &&& Self::is_table_of(m.spec_vdisks(), vdisks@)
            },
    {
        let n: usize = vdisks.len();
        if n == 0 || n > 0xffff_ffff {
            return None;
        }
        let mut table: Vec<VDisk> = Vec::new();
        let mut i: usize = 0;
        while i < n
            invariant
                i <= n,
                n == vdisks@.len(),
                0 < n <= u32::MAX,
                table@.len() == i,
                forall|k: int| 0 <= k < i ==> id_position(vdisks@, k, 0) < n,
                forall|k: int|
                    0 <= k < i ==> (#[trigger] table@[k]).id.spec_as_u32() == k
                        && table@[k].replicas@ == vdisks@[id_position(vdisks@, k, 0)].replicas@,
            decreases n - i,
        {
            let mut j: usize = 0;
            while j < n && vdisks[j].id.as_u32() != i as u32
                invariant
                    j <= n,
                    i < n,
                    n == vdisks@.len(),
                    n <= u32::MAX,
                    id_position(vdisks@, i as int, 0) == id_position(vdisks@, i as int, j as int),
                decreases n - j,
            {
                j = j + 1;
            }
            if j == n {
                return None;
            }
            table.push(vdisks[j].clone());
            i = i + 1;
        }
        Some(
            Virtual {
                local_node_name: String::from_str(local_node_name),
                disks,
                nodes,
                vdisks: table,
            },
        )
    }

    pub fn local_node_name(&self) -> (r: &str)
        ensures
            r@ == self.spec_local_node_name(),
    {
        self.local_node_name.as_str()
    }

    pub fn local_disks(&self) -> (r: &Vec<DiskPath>)
        ensures
            r@ == self.spec_local_disks(),
    {
        &self.disks
    }

    pub fn nodes(&self) -> (r: &Vec<Node>)
        ensures
            r@ == self.spec_nodes(),
    {
        &self.nodes
    }

    pub fn vdisks(&self) -> (r: &Vec<VDisk>)
        ensures
            r@ == self.spec_vdisks(),
            Self::table_in_order(r@),
    {
        proof {
            use_type_invariant(self);
        }
        &self.vdisks
    }

    /// The ids of all virtual disks, in the order of the table.
    pub fn get_vdisks_ids(&self) -> (r: Vec<VDiskId>)
        ensures
            r@.len() == self.spec_vdisks().len(),
            forall|i: int| 0 <= i < r@.len() ==> r@[i] == self.spec_vdisks()[i].id,
    {
        let mut ids: Vec<VDiskId> = Vec::new();
        let mut i: usize = 0;
        while i < self.vdisks.len()
            invariant
                i <= self.vdisks@.len(),
                ids@.len() == i,
                forall|k: int| 0 <= k < i ==> ids@[k] == self.vdisks@[k].id,
            decreases self.vdisks@.len() - i,
        {
            ids.push(self.vdisks[i].id);
            i = i + 1;
        }
        ids
    }

    /// The network address of this node: that of the first node of the
    /// cluster description with the name of this node, if there is one.
    pub open spec fn spec_local_node_address(&self) -> Option<Seq<char>> {
        let found = node_position(self.spec_nodes(), self.spec_local_node_name(), 0);
        if found < self.spec_nodes().len() {
            Some(self.spec_nodes()[found].spec_address())
        } else {
            None
        }
    }

    /// The network address of this node, if the cluster description lists
    /// this node.
    pub fn local_node_address(&self) -> (r: Option<String>)
        ensures
            match r {
                Some(a) => self.spec_local_node_address() == Some(a@),
                None => self.spec_local_node_address() is None,
            },
    {
        let mut i: usize = 0;
        while i < self.nodes.len()
            invariant
                i <= self.nodes@.len(),
                node_position(self.nodes@, self.local_node_name@, 0) == node_position(
                    self.nodes@,
                    self.local_node_name@,
                    i as int,
                ),
            decreases self.nodes@.len() - i,
        {
            if str_equal(self.nodes[i].name.as_str(), self.local_node_name.as_str()) {
                return Some(self.nodes[i].address());
            }
            i = i + 1;
        }
        None
    }

    /// The local disk with the given name: the first one in the list.
    pub fn get_disk_by_name(&self, name: &str) -> (r: Option<&DiskPath>)
        ensures
            match r {
                Some(d) => disk_position(self.spec_local_disks(), name@, 0)
                    < self.spec_local_disks().len() && *d == self.spec_local_disks()[disk_position(
                    self.spec_local_disks(),
                    name@,
                    0,
                )],
                None => disk_position(self.spec_local_disks(), name@, 0)
                    == self.spec_local_disks().len(),
            },
    {
        let mut i: usize = 0;
        while i < self.disks.len()
            invariant
                i <= self.disks@.len(),
                disk_position(self.disks@, name@, 0) == disk_position(self.disks@, name@, i as int),
            decreases self.disks@.len() - i,
        {
            if str_equal(self.disks[i].name.as_str(), name) {
                return Some(&self.disks[i]);
            }
            i = i + 1;
        }
        None
    }

    /// The virtual disk that a key belongs to, and the local disk that holds
    /// a replica of it, if this node holds one.
    #[verifier::loop_isolation(false)]
    pub fn get_operation(&self, key: BobKey) -> (r: (VDiskId, Option<DiskPath>))
        ensures
            r.0 == self.spec_get_operation(key).0,
            r.0.spec_as_u32() == (key.key as int) % (self.spec_vdisks().len() as int),
            match r.1 {
                Some(p) => self.spec_get_operation(key).1 == Some(p@),
                None => self.spec_get_operation(key).1 is None,
            },
    {
        proof {
            use_type_invariant(self);
        }
        let index: usize = (key.key % (self.vdisks.len() as u64)) as usize;
        let vdisk = &self.vdisks[index];
        let ghost replicas = vdisk.replicas@;
        let ghost local = self.local_node_name@;
        let mut j: usize = 0;
        while j < vdisk.replicas.len()
            invariant
                j <= vdisk.replicas@.len(),
                replicas == vdisk.replicas@,
                local == self.local_node_name@,
                first_replica_on_node(replicas, local, 0) == first_replica_on_node(
                    replicas,
                    local,
                    j as int,
                ),
            decreases vdisk.replicas@.len() - j,
        {
            let replica = &vdisk.replicas[j];
            if str_equal(replica.node.name.as_str(), self.local_node_name.as_str()) {
                let path = DiskPath { name: replica.name.clone(), path: replica.path.clone() };
                return (vdisk.id, Some(path));
            }
            j = j + 1;
        }
        proof {
            lemma_first_replica_on_node(replicas, local, 0);
        }
        (vdisk.id, None)
    }

    /// True when the virtual disk `id` has a replica on the node `node_name`.
    #[verifier::loop_isolation(false)]
    pub fn does_node_holds_vdisk(&self, node_name: &str, id: VDiskId) -> (r: bool)
        ensures
            r == (id.spec_as_u32() < self.spec_vdisks().len() && has_replica_on_node(
                self.spec_vdisks()[id.spec_as_u32() as int].replicas@,
                node_name@,
            )),
    {
        proof {
            use_type_invariant(self);
        }
        let index: usize = id.as_u32() as usize;
        if index >= self.vdisks.len() {
            return false;
        }
        let vdisk = &self.vdisks[index];
        let mut j: usize = 0;
        while j < vdisk.replicas.len()
            invariant
                j <= vdisk.replicas@.len(),
                forall|k: int| 0 <= k < j ==> (#[trigger] vdisk.replicas@[k]).node.name@
                    != node_name@,
            decreases vdisk.replicas@.len() - j,
        {
            if str_equal(vdisk.replicas[j].node.name.as_str(), node_name) {
                assert(vdisk.replicas@[j as int].node.name@ == node_name@);
                return true;
            }
            j = j + 1;
        }
        false
    }

    /// The ids of the virtual disks that have a replica on the disk
    /// `disk_name` of this node, in the order of the table.
    pub fn get_vdisks_by_disk(&self, disk_name: &str) -> (r: Vec<VDiskId>)
        ensures
            r@ == ids_on_disk(self.spec_vdisks(), self.spec_local_node_name(), disk_name@),
    {
        let mut ids: Vec<VDiskId> = Vec::new();
        let mut i: usize = 0;
        let ghost local = self.local_node_name@;
        while i < self.vdisks.len()
            invariant
                i <= self.vdisks@.len(),
                local == self.local_node_name@,
                ids@ == ids_on_disk(self.vdisks@.take(i as int), local, disk_name@),
            decreases self.vdisks@.len() - i,
        {
            let vdisk = &self.vdisks[i];
            let mut found = false;
            let mut j: usize = 0;
            while j < vdisk.replicas.len() && !found
                invariant
                    j <= vdisk.replicas@.len(),
                    local == self.local_node_name@,
                    found ==> has_replica_on_disk(vdisk.replicas@, local, disk_name@),
                    !found ==> forall|k: int|
                        0 <= k < j ==> !((#[trigger] vdisk.replicas@[k]).node.name@ == local
                            && vdisk.replicas@[k].name@ == disk_name@),
                decreases vdisk.replicas@.len() - j + if found { 0int } else { 1int },
            {
                let replica = &vdisk.replicas[j];
                if str_equal(replica.node.name.as_str(), self.local_node_name.as_str())
                    && str_equal(replica.name.as_str(), disk_name) {
                    found = true;
                } else {
                    j = j + 1;
                }
            }
            proof {
                assert(self.vdisks@.take(i + 1).drop_last() =~= self.vdisks@.take(i as int));
                assert(self.vdisks@.take(i + 1).last() == self.vdisks@[i as int]);
            }
            if found {
                ids.push(vdisk.id);
            }
            i = i + 1;
        }
        proof {
            assert(self.vdisks@.take(i as int) =~= self.vdisks@);
        }
        ids
    }
}

/// The placement of a key depends on nothing but the key, the table of
/// virtual disks and the name of the node: two placement maps that agree on
/// those place every key alike, in this process and in any later one.
pub proof fn lemma_get_operation_is_stable(a: Virtual, b: Virtual, key: BobKey)
    requires
        a.spec_vdisks() == b.spec_vdisks(),
        a.spec_local_node_name() == b.spec_local_node_name(),
    ensures
        a.spec_get_operation(key) == b.spec_get_operation(key),
{
}

} // verus!
