//! Keys, payloads, request options and the description of the cluster.

use crate::decimal::{int_text, u64_to_string};
use crate::text::str_equal;
use vstd::prelude::*;
use vstd::std_specs::cmp::PartialEqSpecImpl;
use vstd::string::*;

verus! {

/// A failure without detail, kept for the in-memory disks.
#[derive(Debug, Clone, Copy, PartialEq, Eq, Structural)]
pub struct BobError {}

/// The key of a blob: 64 bits, opaque to the core.
#[derive(Debug, Clone, Copy, PartialEq, Eq, Structural, Hash)]
pub struct BobKey {
    pub key: u64,
}

/// What travels with a payload: the timestamp that the caller gave it.
#[derive(Debug, Clone, Copy, PartialEq, Eq, Structural)]
pub struct BobMeta {
    pub timestamp: i64,
}

impl BobMeta {
    pub fn new(timestamp: i64) -> (r: Self)
        ensures
            r.timestamp == timestamp,
    {
        BobMeta { timestamp }
    }

    /// The meta data that tests and the stub backend use: timestamp 1.
    pub fn new_stub() -> (r: Self)
        ensures
            r.timestamp == 1,
    {
        BobMeta { timestamp: 1 }
    }
}

/// A payload as a mathematical value.
pub struct Payload {
    pub data: Seq<u8>,
    pub timestamp: i64,
}

/// A payload: bytes and their meta data.
#[derive(Debug, PartialEq)]
pub struct BobData {
    pub data: Vec<u8>,
    pub meta: BobMeta,
}

impl View for BobData {
    type V = Payload;

    open spec fn view(&self) -> Payload {
        Payload { data: self.data@, timestamp: self.meta.timestamp }
    }
}

impl Clone for BobData {
    fn clone(&self) -> (r: Self)
        ensures
            r@ == self@,
    {
        let data = self.data.clone();
        assert(data@ =~= self.data@);
        BobData { data, meta: self.meta }
    }
}

impl BobData {
    pub fn new(data: Vec<u8>, meta: BobMeta) -> (r: Self)
        ensures
            r.data == data,
            r.meta == meta,
    {
        BobData { data, meta }
    }
}

/// Request flags, one bit each.
#[derive(Debug, Clone, Copy, PartialEq, Eq, Structural)]
pub struct BobFlags {
    bits: u8,
}

/// The bit of the flag that keeps a request on the node that received it.
pub const FORCE_NODE_BIT: u8 = 0x01;

impl BobFlags {
    /// The bits of these flags.
    pub closed spec fn spec_bits(&self) -> u8 {
        self.bits
    }

    /// True when the flag that keeps a request on this node is set.
    pub open spec fn force_node(&self) -> bool {
        self.spec_bits() & FORCE_NODE_BIT == FORCE_NODE_BIT
    }

    /// No flag set.
    pub fn empty() -> (r: Self)
        ensures
            r.spec_bits() == 0,
            !r.force_node(),
    {
        assert(0u8 & 0x01u8 != 0x01u8) by (bit_vector);
        BobFlags { bits: 0 }
    }

    /// The flag that keeps a request on the node that received it.
    pub fn new_force_node() -> (r: Self)
        ensures
            r.spec_bits() == FORCE_NODE_BIT,
            r.force_node(),
    {
        assert(0x01u8 & 0x01u8 == 0x01u8) by (bit_vector);
        BobFlags { bits: FORCE_NODE_BIT }
    }

    /// Flags from their bits as they travel on the wire.
    pub fn from_bits(bits: u8) -> (r: Self)
        ensures
            r.spec_bits() == bits,
    {
        BobFlags { bits }
    }

    #[verifier::when_used_as_spec(spec_bits)]
    pub fn bits(&self) -> (r: u8)
        ensures
            r == self.spec_bits(),
    {
        self.bits
    }

    /// True when every flag of `other` is set in `self`.
    pub fn contains(&self, other: BobFlags) -> (r: bool)
        ensures
            r == (self.spec_bits() & other.spec_bits() == other.spec_bits()),
    {
        self.bits & other.bits == other.bits
    }
}

/// From where a read takes its data.
#[derive(Debug, Clone, Copy, PartialEq, Eq, Structural)]
pub enum GetSource {
    All,
    Normal,
    Alien,
}

/// The options of one request.
#[derive(Debug)]
pub struct BobOptions {
    pub flags: BobFlags,
    pub remote_nodes: Vec<String>,
    pub get_source: Option<GetSource>,
}

impl BobOptions {
    /// True when a read may take its data from the node's own area.
    pub open spec fn spec_get_normal(&self) -> bool {
        self.get_source == Some(GetSource::All) || self.get_source == Some(GetSource::Normal)
    }

    /// True when a read may take its data from the alien area.
    pub open spec fn spec_get_alien(&self) -> bool {
        self.get_source == Some(GetSource::All) || self.get_source == Some(GetSource::Alien)
    }

    /// Options of a write: its flags and the nodes whose data it is.
    pub fn new_put(flags: BobFlags, remote_nodes: Vec<String>) -> (r: Self)
        ensures
            r.flags == flags,
            r.remote_nodes == remote_nodes,
            r.get_source is None,
    {
        BobOptions { flags, remote_nodes, get_source: None }
    }

    /// Options of a read: its flags and where it reads from.
    pub fn new_get(flags: BobFlags, get_source: GetSource) -> (r: Self)
        ensures
            r.flags == flags,
            r.remote_nodes@.len() == 0,
            r.get_source == Some(get_source),
    {
        BobOptions { flags, remote_nodes: Vec::new(), get_source: Some(get_source) }
    }

    pub fn flags(&self) -> (r: BobFlags)
        ensures
            r == self.flags,
    {
        self.flags
    }

    pub fn remote_nodes(&self) -> (r: &Vec<String>)
        ensures
            r == &self.remote_nodes,
    {
        &self.remote_nodes
    }

    /// True when the write names nodes whose data it is.
    pub fn have_remote_node(&self) -> (r: bool)
        ensures
            r == (self.remote_nodes@.len() > 0),
    {
        self.remote_nodes.len() > 0
    }

    #[verifier::when_used_as_spec(spec_get_normal)]
    pub fn get_normal(&self) -> (r: bool)
        ensures
            r == self.spec_get_normal(),
    {
        match self.get_source {
            Some(GetSource::All) | Some(GetSource::Normal) => true,
            _ => false,
        }
    }

    #[verifier::when_used_as_spec(spec_get_alien)]
    pub fn get_alien(&self) -> (r: bool)
        ensures
            r == self.spec_get_alien(),
    {
        match self.get_source {
            Some(GetSource::All) | Some(GetSource::Alien) => true,
            _ => false,
        }
    }
}

/// The id of a virtual disk.
#[derive(Debug, Clone, Copy, PartialEq, Eq, Structural, Hash)]
pub struct VDiskId {
    id: u32,
}

impl VDiskId {
    pub closed spec fn spec_as_u32(&self) -> u32 {
        self.id
    }

    pub fn new(id: u32) -> (r: Self)
        ensures
            r.spec_as_u32() == id,
    {
        VDiskId { id }
    }

    #[verifier::when_used_as_spec(spec_as_u32)]
    pub fn as_u32(&self) -> (r: u32)
        ensures
            r == self.spec_as_u32(),
    {
        self.id
    }

    /// Two ids with the same number are the same id.
    pub proof fn lemma_same_number(a: VDiskId, b: VDiskId)
        ensures
            a.spec_as_u32() == b.spec_as_u32() <==> a == b,
    {
    }
}

/// A disk of this node as a mathematical value.
pub struct DiskPathView {
    pub name: Seq<char>,
    pub path: Seq<char>,
}

/// A disk of this node: its name, unique on the node, and where it is mounted.
#[derive(Debug, PartialEq)]
pub struct DiskPath {
    pub name: String,
    pub path: String,
}

impl View for DiskPath {
    type V = DiskPathView;

    open spec fn view(&self) -> DiskPathView {
        DiskPathView { name: self.name@, path: self.path@ }
    }
}

impl Clone for DiskPath {
    fn clone(&self) -> (r: Self)
        ensures
            r == *self,
    {
        DiskPath { name: self.name.clone(), path: self.path.clone() }
    }
}

impl DiskPath {
    pub fn new(name: &str, path: &str) -> (r: Self)
        ensures
            r.name@ == name@,
            r.path@ == path@,
    {
        DiskPath { name: String::from_str(name), path: String::from_str(path) }
    }

    pub fn name(&self) -> (r: &str)
        ensures
            r@ == self.name@,
    {
        self.name.as_str()
    }

    pub fn path(&self) -> (r: &str)
        ensures
            r@ == self.path@,
    {
        self.path.as_str()
    }
}

/// A node of the cluster: its name, unique in the cluster, and its network address.
#[derive(Debug)]
pub struct Node {
    pub name: String,
    pub host: String,
    pub port: u16,
}

impl Clone for Node {
    fn clone(&self) -> (r: Self)
        ensures
            r == *self,
    {
        Node { name: self.name.clone(), host: self.host.clone(), port: self.port }
    }
}

impl PartialEq for Node {
    /// Two nodes are the same when they listen on the same host and port.
    fn eq(&self, other: &Node) -> (r: bool) {
        str_equal(self.host.as_str(), other.host.as_str()) && self.port == other.port
    }
}

impl PartialEqSpecImpl for Node {
    open spec fn obeys_eq_spec() -> bool {
        true
    }

    open spec fn eq_spec(&self, other: &Node) -> bool {
        self.host@ == other.host@ && self.port == other.port
    }
}

impl Node {
    pub fn new(name: &str, host: &str, port: u16) -> (r: Self)
        ensures
            r.name@ == name@,
            r.host@ == host@,
            r.port == port,
    {
        Node { name: String::from_str(name), host: String::from_str(host), port }
    }

    pub fn name(&self) -> (r: &str)
        ensures
            r@ == self.name@,
    {
        self.name.as_str()
    }

    /// The network address as text: host, a colon, the port in decimal.
    pub open spec fn spec_address(&self) -> Seq<char> {
        self.host@ + seq![':'] + int_text(self.port as int)
    }

    /// The network address as text.
    pub fn address(&self) -> (r: String)
        ensures
            r@ == self.spec_address(),
    {
        proof {
            reveal_strlit(":");
            assert(":"@ =~= seq![':']);
        }
        let port = u64_to_string(self.port as u64);
        self.host.clone().concat(":").concat(port.as_str())
    }
}

/// One replica of a virtual disk: the node that holds it, and the name and
/// path of the disk on that node.
#[derive(Debug)]
pub struct NodeDisk {
    pub node: Node,
    pub name: String,
    pub path: String,
}

impl Clone for NodeDisk {
    fn clone(&self) -> (r: Self)
        ensures
            r == *self,
    {
        NodeDisk { node: self.node.clone(), name: self.name.clone(), path: self.path.clone() }
    }
}

impl PartialEq for NodeDisk {
    /// Two replicas are the same when they lie under the same path of the same node.
    fn eq(&self, other: &NodeDisk) -> (r: bool) {
        self.node == other.node && str_equal(self.path.as_str(), other.path.as_str())
    }
}

impl PartialEqSpecImpl for NodeDisk {
    open spec fn obeys_eq_spec() -> bool {
        true
    }

    open spec fn eq_spec(&self, other: &NodeDisk) -> bool {
        self.node.host@ == other.node.host@ && self.node.port == other.node.port && self.path@
            == other.path@
    }
}

impl NodeDisk {
    pub fn new(node: Node, name: &str, path: &str) -> (r: Self)
        ensures
            r.node == node,
            r.name@ == name@,
            r.path@ == path@,
    {
        NodeDisk { node, name: String::from_str(name), path: String::from_str(path) }
    }
}

/// A virtual disk: its id and the replicas that hold it. The set of replicas
/// does not change once the cluster description is loaded.
#[derive(Debug)]
pub struct VDisk {
    pub id: VDiskId,
    pub replicas: Vec<NodeDisk>,
}

impl Clone for VDisk {
    fn clone(&self) -> (r: Self)
        ensures
            r.id == self.id,
            r.replicas@ == self.replicas@,
    {
        let mut replicas: Vec<NodeDisk> = Vec::new();
        let mut i: usize = 0;
        while i < self.replicas.len()
            invariant
                i <= self.replicas@.len(),
                replicas@ == self.replicas@.take(i as int),
            decreases self.replicas@.len() - i,
        {
            replicas.push(self.replicas[i].clone());
            assert(replicas@ =~= self.replicas@.take(i + 1));
            i = i + 1;
        }
        assert(self.replicas@.take(i as int) =~= self.replicas@);
        VDisk { id: self.id, replicas }
    }
}

impl VDisk {
    pub fn new(id: VDiskId, replicas: Vec<NodeDisk>) -> (r: Self)
        ensures
            r.id == id,
            r.replicas == replicas,
    {
        VDisk { id, replicas }
    }
}

} // verus!
