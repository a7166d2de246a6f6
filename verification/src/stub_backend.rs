//! The engine that stores nothing: every write succeeds, every read answers
//! with one zero byte.

use crate::data::{BobData, BobKey, BobMeta};
use crate::operation::{BackendGetResult, BackendOperation, BackendPutResult, GetResult, PutResult};
use vstd::prelude::*;

verus! {

/// The engine that stores nothing.
#[derive(Debug, Clone, Copy, PartialEq, Eq, Structural)]
pub struct StubBackend {}

impl StubBackend {
    /// Accepts the write and drops it.
    pub fn put(&self, _operation: BackendOperation, _key: BobKey, _data: BobData) -> (r: PutResult)
        ensures
            r is Ok,
    {
        Ok(BackendPutResult)
    }

    /// Finds no key.
    pub fn exist(&self, _operation: BackendOperation, keys: &Vec<BobKey>) -> (r: Result<
        Vec<bool>,
        crate::error::Error,
    >)
        ensures
            r matches Ok(found) && found@.len() == keys@.len() && forall|i: int|
                0 <= i < keys@.len() ==> !found@[i],
    {
        let mut found: Vec<bool> = Vec::new();
        let mut i: usize = 0;
        while i < keys.len()
            invariant
                i <= keys@.len(),
                found@.len() == i,
                forall|k: int| 0 <= k < i ==> !found@[k],
            decreases keys@.len() - i,
        {
            found.push(false);
            i = i + 1;
        }
        Ok(found)
    }

    /// Answers with one zero byte and the timestamp 1.
    pub fn get(&self, _operation: BackendOperation, _key: BobKey) -> (r: GetResult)
        ensures
            r matches Ok(found) && found.data@.data == seq![0u8] && found.data@.timestamp == 1,
    {
        let mut data: Vec<u8> = Vec::new();
        data.push(0);
        let found = BackendGetResult { data: BobData { data, meta: BobMeta::new_stub() } };
        assert(found.data@.data =~= seq![0u8]);
        Ok(found)
    }
}

} // verus!
