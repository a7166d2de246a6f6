//! The router at the boundary of the node: a request that carries the flag
//! to stay on this node goes to the local storage, any other is handed to
//! the cluster. Each path is counted.

use crate::backend::{backend_exist, backend_get, backend_put, Backend, BackendStorage, StorageView};
use crate::pearl::EngineView;
use crate::configs::NodeConfig;
use crate::data::{BobData, BobKey, BobOptions, Payload};
use crate::error::{failure_kind, Error, ErrorKind};
use crate::mapper::Virtual;
use crate::operation::{GetResult, PutResult};
use std::sync::Arc;
use vstd::prelude::*;

verus! {

/// The counters of the router. A counter that has reached the greatest
/// number of 64 bits stays there.
#[derive(Debug, Clone, Copy, PartialEq, Eq, Structural)]
pub struct Counters {
    /// Writes carried out by the local storage.
    pub client_put_count: u64,
    /// Those of them that failed.
    pub client_put_error_count: u64,
    /// Writes handed to the cluster.
    pub grinder_put_count: u64,
    /// Those of them that failed.
    pub grinder_put_error_count: u64,
    /// Reads carried out by the local storage.
    pub client_get_count: u64,
    /// Those of them that failed.
    pub client_get_error_count: u64,
    /// Reads handed to the cluster.
    pub grinder_get_count: u64,
    /// Those of them that failed.
    pub grinder_get_error_count: u64,
}

/// A counter after one more event.
pub open spec fn bumped(count: u64) -> u64 {
    if count < u64::MAX {
        (count + 1) as u64
    } else {
        count
    }
}

/// A counter after one more event, if there was one.
pub open spec fn bumped_if(count: u64, event: bool) -> u64 {
    if event {
        bumped(count)
    } else {
        count
    }
}

/// Counts one more event.
fn bump(count: u64) -> (r: u64)
    ensures
        r == bumped(count),
{
    if count < u64::MAX {
        count + 1
    } else {
        count
    }
}

/// Where a request went: the local storage answered it, or it is handed to
/// the cluster.
#[derive(Debug)]
pub enum Routed<T> {
    Local(T),
    Cluster,
}

/// The router of one node.
pub struct Grinder {
    backend: Backend,
    counters: Counters,
}

impl Grinder {
    /// The local storage.
    pub closed spec fn spec_backend(&self) -> Backend {
        self.backend
    }

    /// The counters.
    pub closed spec fn spec_counters(&self) -> Counters {
        self.counters
    }

    /// The counters before any request.
    pub open spec fn no_counts() -> Counters {
        Counters {
            client_put_count: 0,
            client_put_error_count: 0,
            grinder_put_count: 0,
            grinder_put_error_count: 0,
            client_get_count: 0,
            client_get_error_count: 0,
            grinder_get_count: 0,
            grinder_get_error_count: 0,
        }
    }

    /// The router of a node over the storage that `Backend::new` makes for
    /// its placement map and options, with all counters at zero. There is
    /// none where there is no such storage.
    pub fn new(mapper: Virtual, config: &NodeConfig) -> (r: Option<Grinder>)
        ensures
            r matches Some(g) ==> g.spec_backend().spec_mapper() == mapper && g.spec_counters()
                == Self::no_counts(),
            match config.backend_type {
                crate::configs::BackendType::InMemory => r matches Some(g) && g.spec_backend()@
                    is InMemory,
                crate::configs::BackendType::Stub => r matches Some(g) && g.spec_backend()@ is Stub,
                crate::configs::BackendType::Pearl => match crate::settings::Settings::view_for(
                    *config,
                    mapper,
                ) {
                    None => r is None,
                    Some(view) => r matches Some(g) && (g.spec_backend()@ matches StorageView::Pearl(
                        e,
                    ) && e.settings == view && e.alien.len() == 0),
                },
            },
    {
        match Backend::new(Arc::new(mapper), config) {
            Some(backend) => Some(
                Grinder {
                    backend,
                    counters: Counters {
                        client_put_count: 0,
                        client_put_error_count: 0,
                        grinder_put_count: 0,
                        grinder_put_error_count: 0,
                        client_get_count: 0,
                        client_get_error_count: 0,
                        grinder_get_count: 0,
                        grinder_get_error_count: 0,
                    },
                },
            ),
            None => None,
        }
    }

    pub fn backend(&self) -> (r: &Backend)
        ensures
            *r == self.spec_backend(),
    {
        &self.backend
    }

    pub fn counters(&self) -> (r: Counters)
        ensures
            r == self.spec_counters(),
    {
        self.counters
    }

    /// Takes the alien groups that a scan of the alien folder found in place
    /// of those that the engine of the local storage had.
    pub fn load_alien_groups(&mut self, listing: &Vec<crate::settings::AlienDirectory>)
        ensures
            final(self).spec_counters() == old(self).spec_counters(),
            final(self).spec_backend().spec_mapper() == old(self).spec_backend().spec_mapper(),
            match (
                old(self).spec_backend().backend_storage(),
                final(self).spec_backend().backend_storage(),
            ) {
                (BackendStorage::Pearl(before), BackendStorage::Pearl(after)) => after@
                    == (EngineView {
                    alien: before.spec_settings().alien_groups(listing@),
                    ..before@
                }) && after.spec_settings() == before.spec_settings(),
                (BackendStorage::Pearl(_), _) => false,
                (_, _) => final(self).spec_backend()@ == old(self).spec_backend()@,
            },
    {
        self.backend.load_alien_groups(listing)
    }

    /// Attaches or detaches the partition of a virtual disk that starts at
    /// `partition_id`, and says how it went.
    pub fn change_partition_state(
        &mut self,
        vdisk_id: u32,
        partition_id: i64,
        action: crate::api::Action,
    ) -> (r: Result<crate::api::StatusExt, crate::api::StatusExt>)
        ensures
            final(self).spec_counters() == old(self).spec_counters(),
            crate::api::partition_state_changed(
                old(self).spec_backend(),
                final(self).spec_backend(),
                vdisk_id,
                partition_id,
                action,
                r,
            ),
    {
        crate::api::change_partition_state(&mut self.backend, vdisk_id, partition_id, action)
    }

    /// Decides what follows a start of the engine of the local storage, from
    /// its outcome.
    pub fn after_start(&self, outcome: &Result<(), Error>) -> (r: crate::backend::StartAction)
        ensures
            r == crate::backend::action_after_start(self.spec_backend()@, failure_kind(*outcome)),
    {
        self.backend.after_start(outcome)
    }

    /// Starts the engine of the local storage.
    pub fn run_backend(
        &mut self,
        normal_names: &Vec<Vec<String>>,
        alien_names: &Vec<Vec<String>>,
        now: i64,
    ) -> (r: Result<(), Error>)
        ensures
            final(self).spec_counters() == old(self).spec_counters(),
            final(self).spec_backend().spec_mapper() == old(self).spec_backend().spec_mapper(),
            match old(self).spec_backend()@ {
                StorageView::Pearl(e) => final(self).spec_backend()@ == StorageView::Pearl(
                    e.run(normal_names@, alien_names@, now as int).0,
                ) && failure_kind(r) == e.run(normal_names@, alien_names@, now as int).1,
                _ => r is Ok && final(self).spec_backend()@ == old(self).spec_backend()@,
            },
    {
        self.backend.run_backend(normal_names, alien_names, now)
    }

    /// Routes a write. With the flag to stay on this node the local storage
    /// carries it out, and the write and its failure are counted as the
    /// client's. Without it the write is counted as one for the cluster and
    /// handed on; the storage stays as it is.
    pub fn put(&mut self, key: BobKey, data: BobData, opts: BobOptions) -> (r: Routed<PutResult>)
        ensures
            final(self).spec_backend().spec_mapper() == old(self).spec_backend().spec_mapper(),
            opts.flags.force_node() ==> {
                &&& r matches Routed::Local(answer)
                &&& (final(self).spec_backend()@, failure_kind(answer)) == backend_put(
                    old(self).spec_backend()@,
                    old(self).spec_backend().spec_mapper(),
                    key,
                    data@,
                    opts,
                )
                &&& final(self).spec_counters() == (Counters {
                    client_put_count: bumped(old(self).spec_counters().client_put_count),
                    client_put_error_count: bumped_if(
                        old(self).spec_counters().client_put_error_count,
                        answer is Err,
                    ),
                    ..old(self).spec_counters()
                })
            },
            !opts.flags.force_node() ==> {
                &&& r is Cluster
                &&& final(self).spec_backend()@ == old(self).spec_backend()@
                &&& final(self).spec_counters() == (Counters {
                    grinder_put_count: bumped(old(self).spec_counters().grinder_put_count),
                    ..old(self).spec_counters()
                })
            },
    {
        if opts.flags().contains(crate::data::BobFlags::new_force_node()) {
            self.counters.client_put_count = bump(self.counters.client_put_count);
            let result = self.backend.put(key, data, opts);
            if result.is_err() {
                self.counters.client_put_error_count = bump(self.counters.client_put_error_count);
            }
            Routed::Local(result)
        } else {
            self.counters.grinder_put_count = bump(self.counters.grinder_put_count);
            Routed::Cluster
        }
    }

    /// Counts the failure of a write that the cluster carried out.
    pub fn cluster_put_finished(&mut self, failed: bool)
        ensures
            final(self).spec_backend() == old(self).spec_backend(),
            final(self).spec_counters() == (Counters {
                grinder_put_error_count: bumped_if(
                    old(self).spec_counters().grinder_put_error_count,
                    failed,
                ),
                ..old(self).spec_counters()
            }),
    {
        if failed {
            self.counters.grinder_put_error_count = bump(self.counters.grinder_put_error_count);
        }
    }

    /// Routes a read, as `put` routes a write.
    pub fn get(&mut self, key: BobKey, opts: &BobOptions) -> (r: Routed<GetResult>)
        ensures
            final(self).spec_backend().spec_mapper() == old(self).spec_backend().spec_mapper(),
            opts.flags.force_node() ==> {
                &&& r matches Routed::Local(answer)
                &&& final(self).spec_backend()@ == backend_get(
                    old(self).spec_backend()@,
                    old(self).spec_backend().spec_mapper(),
                    key,
                    *opts,
                ).0
                &&& match answer {
                    Ok(found) => backend_get(
                        old(self).spec_backend()@,
                        old(self).spec_backend().spec_mapper(),
                        key,
                        *opts,
                    ).1 == Ok::<Payload, ErrorKind>(found.data@),
                    Err(e) => backend_get(
                        old(self).spec_backend()@,
                        old(self).spec_backend().spec_mapper(),
                        key,
                        *opts,
                    ).1 == Err::<Payload, ErrorKind>(e.spec_kind()),
                }
                &&& final(self).spec_counters() == (Counters {
                    client_get_count: bumped(old(self).spec_counters().client_get_count),
                    client_get_error_count: bumped_if(
                        old(self).spec_counters().client_get_error_count,
                        answer is Err,
                    ),
                    ..old(self).spec_counters()
                })
            },
            !opts.flags.force_node() ==> {
                &&& r is Cluster
                &&& final(self).spec_backend()@ == old(self).spec_backend()@
                &&& final(self).spec_counters() == (Counters {
                    grinder_get_count: bumped(old(self).spec_counters().grinder_get_count),
                    ..old(self).spec_counters()
                })
            },
    {
        if opts.flags().contains(crate::data::BobFlags::new_force_node()) {
            self.counters.client_get_count = bump(self.counters.client_get_count);
            let result = self.backend.get(key, opts);
            if result.is_err() {
                self.counters.client_get_error_count = bump(self.counters.client_get_error_count);
            }
            Routed::Local(result)
        } else {
            self.counters.grinder_get_count = bump(self.counters.grinder_get_count);
            Routed::Cluster
        }
    }

    /// Counts the failure of a read that the cluster carried out.
    pub fn cluster_get_finished(&mut self, failed: bool)
        ensures
            final(self).spec_backend() == old(self).spec_backend(),
            final(self).spec_counters() == (Counters {
                grinder_get_error_count: bumped_if(
                    old(self).spec_counters().grinder_get_error_count,
                    failed,
                ),
                ..old(self).spec_counters()
            }),
    {
        if failed {
            self.counters.grinder_get_error_count = bump(self.counters.grinder_get_error_count);
        }
    }

    /// Routes a presence check: with the flag to stay on this node the local
    /// storage answers it, else it is handed to the cluster.
    pub fn exist(&self, keys: &Vec<BobKey>, opts: &BobOptions) -> (r: Routed<Result<Vec<bool>, Error>>)
        ensures
            opts.flags.force_node() ==> (r matches Routed::Local(Ok(found)) && found@.len()
                == keys@.len() && forall|i: int|
                0 <= i < keys@.len() ==> found@[i] == backend_exist(
                    self.spec_backend()@,
                    self.spec_backend().spec_mapper(),
                    #[trigger] keys@[i],
                    *opts,
                )),
            !opts.flags.force_node() ==> r is Cluster,
    {
        if opts.flags().contains(crate::data::BobFlags::new_force_node()) {
            Routed::Local(self.backend.exist(keys, opts))
        } else {
            Routed::Cluster
        }
    }
}

} // verus!
