//! The connections of a node to its peers: which peer has a connection, what
//! the periodic check does with each, and when a failed call costs a peer
//! its connection.

use crate::data::Node;
use crate::error::Error;
use crate::text::{join, str_equal};
use vstd::prelude::*;
use vstd::string::*;

verus! {

/// What the periodic check does with a peer: it pings the peer over its
/// connection, or it connects to the peer.
#[derive(Debug, Clone, Copy, PartialEq, Eq, Structural)]
pub enum CheckAction {
    Ping,
    Connect,
}

/// A peer and the connection to it, if there is one. `C` is the type of a connection.
pub struct NodeLinkHolder<C> {
    node: Node,
    conn: Option<C>,
}

impl<C> NodeLinkHolder<C> {
    pub closed spec fn spec_node(&self) -> Node {
        self.node
    }

    pub closed spec fn spec_connection(&self) -> Option<C> {
        self.conn
    }

    /// A peer without a connection.
    pub fn new(node: Node) -> (r: Self)
        ensures
            r.spec_node() == node,
            r.spec_connection() is None,
    {
        NodeLinkHolder { node, conn: None }
    }

    pub fn node(&self) -> (r: &Node)
        ensures
            *r == self.spec_node(),
    {
        &self.node
    }

    pub fn get_connection(&self) -> (r: Option<&C>)
        ensures
            match r {
                Some(c) => self.spec_connection() == Some(*c),
                None => self.spec_connection() is None,
            },
    {
        self.conn.as_ref()
    }

    pub fn set_connection(&mut self, client: C)
        ensures
            final(self).spec_node() == old(self).spec_node(),
            final(self).spec_connection() == Some(client),
    {
        self.conn = Some(client);
    }

    pub fn clear_connection(&mut self)
        ensures
            final(self).spec_node() == old(self).spec_node(),
            final(self).spec_connection() is None,
    {
        self.conn = None;
    }

    /// What the periodic check does with this peer.
    pub fn check(&self) -> (r: CheckAction)
        ensures
            r == if self.spec_connection() is Some {
                CheckAction::Ping
            } else {
                CheckAction::Connect
            },
    {
        match self.conn {
            Some(_) => CheckAction::Ping,
            None => CheckAction::Connect,
        }
    }

    /// Takes in the outcome of a ping: a peer that did not answer loses its connection.
    pub fn ping_finished(&mut self, answered: bool)
        ensures
            final(self).spec_node() == old(self).spec_node(),
            final(self).spec_connection() == if answered {
                old(self).spec_connection()
            } else {
                None
            },
    {
        if !answered {
            self.conn = None;
        }
    }

    /// Takes in the outcome of a call to the peer: after an error that
    /// makes the connection suspect the peer loses its connection.
    pub fn call_finished(&mut self, error: Option<&Error>)
        ensures
            final(self).spec_node() == old(self).spec_node(),
            final(self).spec_connection() == match error {
                Some(e) => if e is Timeout || e is Failed {
                    None
                } else {
                    old(self).spec_connection()
                },
                None => old(self).spec_connection(),
            },
    {
        match error {
            Some(e) => {
                if e.is_service() {
                    self.conn = None;
                }
            },
            None => {},
        }
    }
}

/// True when two nodes are the same peer: they listen on the same host and port.
pub open spec fn same_peer(a: Node, b: Node) -> bool {
    a.host@ == b.host@ && a.port == b.port
}

/// The position of the first peer at or after `from` that is the given
/// node; the number of peers if there is none.
pub open spec fn link_of<C>(links: Seq<NodeLinkHolder<C>>, node: Node, from: int) -> int
    decreases links.len() - from,
{
    if from < 0 || from >= links.len() {
        links.len() as int
    } else if same_peer(links[from].spec_node(), node) {
        from
    } else {
        link_of(links, node, from + 1)
    }
}

/// The peers of a node with their connections.
pub struct LinkManager<C> {
    repo: Vec<NodeLinkHolder<C>>,
    check_interval: u64,
}

impl<C> LinkManager<C> {
    pub closed spec fn spec_links(&self) -> Seq<NodeLinkHolder<C>> {
        self.repo@
    }

    pub closed spec fn spec_check_interval(&self) -> u64 {
        self.check_interval
    }

    /// The peers of a node, none with a connection yet.
    pub fn new(nodes: Vec<Node>, check_interval: u64) -> (r: Self)
        ensures
            r.spec_check_interval() == check_interval,
            r.spec_links().len() == nodes@.len(),
            forall|i: int|
                0 <= i < nodes@.len() ==> (#[trigger] r.spec_links()[i]).spec_node() == nodes@[i]
                    && r.spec_links()[i].spec_connection() is None,
    {
        let ghost all = nodes@;
        let mut repo: Vec<NodeLinkHolder<C>> = Vec::new();
        let mut rest = nodes;
        while rest.len() > 0
            invariant
                repo@.len() + rest@.len() == all.len(),
                forall|i: int| 0 <= i < rest@.len() ==> rest@[i] == all[repo@.len() + i],
                forall|i: int|
                    0 <= i < repo@.len() ==> (#[trigger] repo@[i]).spec_node() == all[i]
                        && repo@[i].spec_connection() is None,
            decreases rest@.len(),
        {
            let node = rest.remove(0);
            repo.push(NodeLinkHolder::new(node));
        }
        LinkManager { repo, check_interval }
    }

    /// How often the connections are checked, in milliseconds.
    pub fn check_interval(&self) -> (r: u64)
        ensures
            r == self.spec_check_interval(),
    {
        self.check_interval
    }

    /// The peers with their connections.
    pub fn links(&self) -> (r: &Vec<NodeLinkHolder<C>>)
        ensures
            r@ == self.spec_links(),
    {
        &self.repo
    }

    /// Finds the first peer that is the given node.
    pub fn get_link(&self, node: &Node) -> (r: Option<usize>)
        ensures
            match r {
                Some(i) => i < self.spec_links().len() && i == link_of(
                    self.spec_links(),
                    *node,
                    0,
                ),
                None => link_of(self.spec_links(), *node, 0) == self.spec_links().len(),
            },
    {
        let mut i: usize = 0;
        while i < self.repo.len()
            invariant
                i <= self.repo@.len(),
                link_of(self.repo@, *node, 0) == link_of(self.repo@, *node, i as int),
            decreases self.repo@.len() - i,
        {
            if str_equal(self.repo[i].node.host.as_str(), node.host.as_str()) && self.repo[i].node.port
                == node.port {
                return Some(i);
            }
            i = i + 1;
        }
        None
    }

    /// The connection of the first peer that is the node, if the node is a
    /// peer and has one.
    pub open spec fn connection_of(&self, node: Node) -> Option<C> {
        let i = link_of(self.spec_links(), node, 0);
        if i < self.spec_links().len() {
            self.spec_links()[i].spec_connection()
        } else {
            None
        }
    }

    /// True when `r` is what a call to the node starts with: the connection
    /// to the node, or the failure for want of one.
    pub open spec fn is_call_start(&self, node: Node, r: Result<&C, Error>) -> bool {
        match r {
            Ok(c) => self.connection_of(node) == Some(*c),
            Err(e) => self.connection_of(node) is None && (e matches Error::Failed(text) && text@
                == "No active connection "@ + node.name@),
        }
    }

    /// The connection over which a call to the node goes. Without a
    /// connection to the node the call fails.
    pub fn call_node(&self, node: &Node) -> (r: Result<&C, Error>)
        ensures
            self.is_call_start(*node, r),
    {
        match self.get_link(node) {
            Some(i) => match self.repo[i].get_connection() {
                Some(c) => Ok(c),
                None => Err(Error::Failed(join("No active connection ", node.name.as_str()))),
            },
            None => Err(Error::Failed(join("No active connection ", node.name.as_str()))),
        }
    }

    /// The connections to the nodes, node by node; none for a node that is
    /// no peer or has no connection.
    pub fn get_connections(&self, nodes: &Vec<Node>) -> (r: Vec<Option<&C>>)
        ensures
            r@.len() == nodes@.len(),
            forall|i: int|
                0 <= i < nodes@.len() ==> match #[trigger] r@[i] {
                    Some(c) => self.connection_of(nodes@[i]) == Some(*c),
                    None => self.connection_of(nodes@[i]) is None,
                },
    {
        let mut found: Vec<Option<&C>> = Vec::new();
        let mut i: usize = 0;
        while i < nodes.len()
            invariant
                i <= nodes@.len(),
                found@.len() == i,
                forall|k: int|
                    0 <= k < i ==> match #[trigger] found@[k] {
                        Some(c) => self.connection_of(nodes@[k]) == Some(*c),
                        None => self.connection_of(nodes@[k]) is None,
                    },
            decreases nodes@.len() - i,
        {
            let connection = match self.get_link(&nodes[i]) {
                Some(at) => self.repo[at].get_connection(),
                None => None,
            };
            found.push(connection);
            i = i + 1;
        }
        found
    }

    /// What a call to each of the nodes starts with, node by node.
    pub fn call_nodes(&self, nodes: &Vec<Node>) -> (r: Vec<Result<&C, Error>>)
        ensures
            r@.len() == nodes@.len(),
            forall|i: int| 0 <= i < nodes@.len() ==> self.is_call_start(nodes@[i], #[trigger] r@[i]),
    {
        let mut started: Vec<Result<&C, Error>> = Vec::new();
        let mut i: usize = 0;
        while i < nodes.len()
            invariant
                i <= nodes@.len(),
                started@.len() == i,
                forall|k: int|
                    0 <= k < i ==> self.is_call_start(nodes@[k], #[trigger] started@[k]),
            decreases nodes@.len() - i,
        {
            started.push(self.call_node(&nodes[i]));
            i = i + 1;
        }
        started
    }

    /// Keeps the connection made to the node, in place of what the node
    /// had. The other peers stay as they are.
    pub fn set_connection(&mut self, node: &Node, client: C)
        ensures
            final(self).spec_check_interval() == old(self).spec_check_interval(),
            final(self).spec_links().len() == old(self).spec_links().len(),
            forall|k: int|
                0 <= k < old(self).spec_links().len() && k != link_of(
                    old(self).spec_links(),
                    *node,
                    0,
                ) ==> final(self).spec_links()[k] == old(self).spec_links()[k],
            link_of(old(self).spec_links(), *node, 0) < old(self).spec_links().len() ==> {
                let i = link_of(old(self).spec_links(), *node, 0);
                &&& final(self).spec_links()[i].spec_node() == old(self).spec_links()[i].spec_node()
                &&& final(self).spec_links()[i].spec_connection() == Some(client)
            },
    {
        match self.get_link(node) {
            Some(i) => {
                self.repo[i].set_connection(client);
            },
            None => {},
        }
    }

    /// Takes in the outcome of a ping of the node: a node that did not
    /// answer loses its connection. The other peers stay as they are.
    pub fn ping_finished(&mut self, node: &Node, answered: bool)
        ensures
            final(self).spec_check_interval() == old(self).spec_check_interval(),
            final(self).spec_links().len() == old(self).spec_links().len(),
            forall|k: int|
                0 <= k < old(self).spec_links().len() && k != link_of(
                    old(self).spec_links(),
                    *node,
                    0,
                ) ==> final(self).spec_links()[k] == old(self).spec_links()[k],
            link_of(old(self).spec_links(), *node, 0) < old(self).spec_links().len() ==> {
                let i = link_of(old(self).spec_links(), *node, 0);
                &&& final(self).spec_links()[i].spec_node() == old(self).spec_links()[i].spec_node()
                &&& final(self).spec_links()[i].spec_connection() == if answered {
                    old(self).spec_links()[i].spec_connection()
                } else {
                    None
                }
            },
    {
        match self.get_link(node) {
            Some(i) => {
                self.repo[i].ping_finished(answered);
            },
            None => {},
        }
    }

    /// Takes in the outcome of a call to the node: after an error that makes
    /// the connection suspect the node loses its connection. The other
    /// peers stay as they are.
    pub fn call_finished(&mut self, node: &Node, error: Option<&Error>)
        ensures
            final(self).spec_check_interval() == old(self).spec_check_interval(),
            final(self).spec_links().len() == old(self).spec_links().len(),
            forall|k: int|
                0 <= k < old(self).spec_links().len() && k != link_of(
                    old(self).spec_links(),
                    *node,
                    0,
                ) ==> final(self).spec_links()[k] == old(self).spec_links()[k],
            link_of(old(self).spec_links(), *node, 0) < old(self).spec_links().len() ==> {
                let i = link_of(old(self).spec_links(), *node, 0);
                &&& final(self).spec_links()[i].spec_node() == old(self).spec_links()[i].spec_node()
                &&& final(self).spec_links()[i].spec_connection() == match error {
                    Some(e) => if e is Timeout || e is Failed {
                        None
                    } else {
                        old(self).spec_links()[i].spec_connection()
                    },
                    None => old(self).spec_links()[i].spec_connection(),
                }
            },
    {
        match self.get_link(node) {
            Some(i) => {
                self.repo[i].call_finished(error);
            },
            None => {},
        }
    }
}

} // verus!
