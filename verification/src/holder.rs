//! A time partition: one append log over a fixed window of timestamps.

use crate::data::{BobData, BobKey, Payload};
use crate::decimal::{i64_to_string, int_text};
use crate::error::{failure_kind, Error, ErrorKind};
use std::collections::HashMap;
use vstd::prelude::*;
use vstd::string::*;

verus! {

broadcast use vstd::std_specs::hash::group_hash_axioms;

/// Where a log stands in its life.
#[derive(Debug, Clone, Copy, PartialEq, Eq, Structural)]
pub enum HolderState {
    /// Made, its storage not opened yet.
    Created,
    /// Its storage is being opened.
    Initializing,
    /// Its storage is open: it takes reads and writes.
    Ready,
    /// Its storage has reported a failure.
    Failed,
    /// One caller is closing and reopening its storage.
    Reinitializing,
}

/// The log of a time partition as a mathematical value.
pub struct LogView {
    /// Where the log stands in its life.
    pub state: HolderState,
    /// The text of the failure that the storage reported last.
    pub failure: Seq<char>,
    /// For each key that was written, its payload.
    pub records: Map<u64, Payload>,
}

impl LogView {
    /// True when the log takes reads and writes.
    pub open spec fn is_ready(self) -> bool {
        self.state == HolderState::Ready
    }

    /// True when the log holds a record under `key`, whatever its state.
    pub open spec fn has(self, key: u64) -> bool {
        self.records.contains_key(key)
    }

    /// True when the log is ready and holds a record under `key`.
    pub open spec fn shows(self, key: u64) -> bool {
        self.is_ready() && self.has(key)
    }

    /// The kind of error that a log which is not ready answers with: a
    /// storage error after a failure, else "not ready".
    pub open spec fn refusal(self) -> ErrorKind {
        if self.state == HolderState::Failed {
            ErrorKind::StorageError
        } else {
            ErrorKind::VDiskIsNotReady
        }
    }

    /// A created log whose storage is about to be opened; any other log as it is.
    pub open spec fn begin_prepare(self) -> LogView {
        if self.state == HolderState::Created {
            LogView { state: HolderState::Initializing, ..self }
        } else {
            self
        }
    }

    /// A log that is created or being opened becomes ready and a ready one
    /// stays ready; one that failed or is being reinitialized refuses and
    /// stays as it is.
    pub open spec fn prepare(self) -> (LogView, Option<ErrorKind>) {
        match self.state {
            HolderState::Created | HolderState::Initializing | HolderState::Ready => (
                LogView { state: HolderState::Ready, ..self },
                None,
            ),
            _ => (self, Some(self.refusal())),
        }
    }

    /// The log after its storage reported a failure.
    pub open spec fn fail(self, description: Seq<char>) -> LogView {
        LogView { state: HolderState::Failed, failure: description, ..self }
    }

    /// A ready log takes a key that it does not hold and refuses one that it
    /// holds as a duplicate; a log that is not ready refuses every write.
    pub open spec fn write(self, key: u64, data: Payload) -> (LogView, Option<ErrorKind>) {
        if !self.is_ready() {
            (self, Some(self.refusal()))
        } else if self.has(key) {
            (self, Some(ErrorKind::DuplicateKey))
        } else {
            (LogView { records: self.records.insert(key, data), ..self }, None)
        }
    }

    /// A ready log answers with the record under the key, or says that it
    /// holds none; a log that is not ready refuses.
    pub open spec fn read(self, key: u64) -> Result<Payload, ErrorKind> {
        if !self.is_ready() {
            Err(self.refusal())
        } else if self.has(key) {
            Ok(self.records[key])
        } else {
            Err(ErrorKind::KeyNotFound)
        }
    }

    /// A write, and after a refusal that asks for it the restart of the log:
    /// the log is then ready again, and the write stays refused.
    pub open spec fn write_and_heal(self, key: u64, data: Payload) -> (LogView, Option<ErrorKind>) {
        let (log, refused) = self.write(key, data);
        match refused {
            Some(kind) => if kind.write_needs_restart() {
                (log.claim_reinit().reinit(), refused)
            } else {
                (log, refused)
            },
            None => (log, refused),
        }
    }

    /// The log after a read: restarted, and so ready again, after a refusal
    /// that asks for it; else as it was.
    pub open spec fn healed_by_read(self, key: u64) -> LogView {
        match self.read(key) {
            Err(kind) => if kind.read_needs_restart() {
                self.claim_reinit().reinit()
            } else {
                self
            },
            Ok(_) => self,
        }
    }

    /// The log while one caller reinitializes it.
    pub open spec fn claim_reinit(self) -> LogView {
        LogView { state: HolderState::Reinitializing, ..self }
    }

    /// The log after its storage was closed and opened again.
    pub open spec fn reinit(self) -> LogView {
        LogView { state: HolderState::Ready, ..self }
    }
}

/// The append log of one time partition, with the index of the keys it holds.
pub struct PearlHolder {
    state: HolderState,
    failure: String,
    records: HashMap<u64, BobData>,
}

impl View for PearlHolder {
    type V = LogView;

    closed spec fn view(&self) -> LogView {
        LogView {
            state: self.state,
            failure: self.failure@,
            records: Map::new(|k: u64| self.records@.contains_key(k), |k: u64| self.records@[k]@),
        }
    }
}

impl PearlHolder {
    /// A new log: created, with no records.
    pub fn new() -> (r: Self)
        ensures
            r@.state == HolderState::Created,
            r@.failure == Seq::<char>::empty(),
            r@.records == Map::<u64, Payload>::empty(),
    {
        let r = PearlHolder {
            state: HolderState::Created,
            failure: String::new(),
            records: HashMap::new(),
        };
        assert(r@.records =~= Map::<u64, Payload>::empty());
        r
    }

    pub fn state(&self) -> (r: HolderState)
        ensures
            r == self@.state,
    {
        self.state
    }

    pub fn is_ready(&self) -> (r: bool)
        ensures
            r == self@.is_ready(),
    {
        self.state == HolderState::Ready
    }

    /// The error with which a log that is not ready refuses.
    fn refuse(&self) -> (r: Error)
        requires
            !self@.is_ready(),
        ensures
            r.spec_kind() == self@.refusal(),
            r matches Error::StorageError(text) ==> text@ == self@.failure,
    {
        match self.state {
            HolderState::Failed => Error::StorageError(self.failure.clone()),
            _ => Error::VDiskIsNotReady,
        }
    }

    /// Marks a created log as being opened. The answer says whether the log
    /// was a created one.
    pub fn begin_prepare(&mut self) -> (r: bool)
        ensures
            r == (old(self)@.state == HolderState::Created),
            final(self)@ == old(self)@.begin_prepare(),
    {
        if self.state == HolderState::Created {
            self.state = HolderState::Initializing;
            true
        } else {
            false
        }
    }

    /// Opens the storage of the log.
    pub fn prepare(&mut self) -> (r: Result<(), Error>)
        ensures
            (final(self)@, failure_kind(r)) == old(self)@.prepare(),
            r matches Err(Error::StorageError(text)) ==> text@ == old(self)@.failure,
    {
        match self.state {
            HolderState::Created | HolderState::Initializing | HolderState::Ready => {
                self.state = HolderState::Ready;
                Ok(())
            },
            _ => Err(self.refuse()),
        }
    }

    /// Records that the storage reported a failure: the log is failed from now on.
    pub fn fail(&mut self, description: &str)
        ensures
            final(self)@ == old(self)@.fail(description@),
    {
        self.state = HolderState::Failed;
        self.failure = String::from_str(description);
    }

    /// Appends a record.
    pub fn write(&mut self, key: BobKey, data: BobData) -> (r: Result<(), Error>)
        ensures
            (final(self)@, failure_kind(r)) == old(self)@.write(key.key, data@),
            r matches Err(Error::StorageError(text)) ==> text@ == old(self)@.failure,
    {
        match self.state {
            HolderState::Ready => {
                if self.records.contains_key(&key.key) {
                    Err(Error::DuplicateKey)
                } else {
                    self.records.insert(key.key, data);
                    assert(self@.records =~= old(self)@.records.insert(key.key, data@));
                    Ok(())
                }
            },
            _ => Err(self.refuse()),
        }
    }

    /// Reads the record under `key`.
    pub fn read(&self, key: BobKey) -> (r: Result<BobData, Error>)
        ensures
            match r {
                Ok(d) => self@.read(key.key) == Ok::<Payload, ErrorKind>(d@),
                Err(e) => self@.read(key.key) == Err::<Payload, ErrorKind>(e.spec_kind()),
            },
            r matches Err(Error::StorageError(text)) ==> text@ == self@.failure,
    {
        match self.state {
            HolderState::Ready => {
                match self.records.get(&key.key) {
                    Some(data) => Ok(data.clone()),
                    None => Err(Error::KeyNotFound),
                }
            },
            _ => Err(self.refuse()),
        }
    }

    /// Says for each key, position by position, whether the log holds it.
    /// A log that is not ready refuses.
    pub fn exist(&self, keys: &Vec<BobKey>) -> (r: Result<Vec<bool>, Error>)
        ensures
            match r {
                Ok(found) => self@.is_ready() && found@.len() == keys@.len() && forall|i: int|
                    0 <= i < keys@.len() ==> found@[i] == self@.has((#[trigger] keys@[i]).key),
                Err(e) => !self@.is_ready() && e.spec_kind() == self@.refusal(),
            },
            r matches Err(Error::StorageError(text)) ==> text@ == self@.failure,
    {
        match self.state {
            HolderState::Ready => {
                let mut found: Vec<bool> = Vec::new();
                let mut i: usize = 0;
                while i < keys.len()
                    invariant
                        i <= keys@.len(),
                        found@.len() == i,
                        forall|k: int|
                            0 <= k < i ==> found@[k] == self@.has((#[trigger] keys@[k]).key),
                    decreases keys@.len() - i,
                {
                    found.push(self.records.contains_key(&keys[i].key));
                    i = i + 1;
                }
                Ok(found)
            },
            _ => Err(self.refuse()),
        }
    }

    /// Claims the reinitialization of the log: the caller that gets `true`
    /// proceeds, any other finds the log being reinitialized already.
    pub fn try_reinit(&mut self) -> (r: Result<bool, Error>)
        ensures
            r == Ok::<bool, Error>(old(self)@.state != HolderState::Reinitializing),
            final(self)@ == old(self)@.claim_reinit(),
    {
        if self.state == HolderState::Reinitializing {
            Ok(false)
        } else {
            self.state = HolderState::Reinitializing;
            Ok(true)
        }
    }

    /// Closes the storage and opens it again: the log is ready, with the
    /// records it had.
    pub fn reinit(&mut self) -> (r: Result<(), Error>)
        ensures
            r is Ok,
            final(self)@ == old(self)@.reinit(),
    {
        self.state = HolderState::Ready;
        Ok(())
    }
}

/// A time partition as a mathematical value.
pub struct HolderView {
    /// The first timestamp of the window.
    pub start: int,
    /// The end of the window: the first timestamp after it.
    pub end: int,
    /// The name of the directory of the partition within that of its group.
    pub directory: Seq<char>,
    /// The log of the partition.
    pub log: LogView,
}

impl HolderView {
    /// The length of the window.
    pub open spec fn period(self) -> int {
        self.end - self.start
    }

    /// True when the window holds the timestamp `t`.
    pub open spec fn covers(self, t: int) -> bool {
        self.start <= t < self.end
    }

    /// True when the window is one of a time partition: not empty, with
    /// timestamps of 64 bits, and of a length of 64 bits.
    pub open spec fn is_window(self) -> bool {
        &&& i64::MIN <= self.start < self.end <= i64::MAX
        &&& self.end - self.start <= i64::MAX
    }

    /// True when the window starts at a multiple of its length, as the
    /// windows do that are made for a timestamp.
    pub open spec fn is_aligned(self) -> bool {
        self.start % (self.end - self.start) == 0
    }

    /// The same partition with another state of its log.
    pub open spec fn with_log(self, log: LogView) -> HolderView {
        HolderView { log, ..self }
    }
}

/// A time partition: a log and the window of timestamps that it takes.
pub struct PearlTimestampHolder {
    pearl: PearlHolder,
    start_timestamp: i64,
    end_timestamp: i64,
    directory: String,
}

impl View for PearlTimestampHolder {
    type V = HolderView;

    closed spec fn view(&self) -> HolderView {
        HolderView {
            start: self.start_timestamp as int,
            end: self.end_timestamp as int,
            directory: self.directory@,
            log: self.pearl@,
        }
    }
}

impl PearlTimestampHolder {
    /// The window is not empty, and its length is one of 64 bits.
    #[verifier::type_invariant]
    pub open spec fn inv(&self) -> bool {
        self@.is_window()
    }

    /// A partition over `[start_timestamp, end_timestamp)`, if that is a
    /// window, in the directory named by the start of the window in decimal.
    pub fn new(pearl: PearlHolder, start_timestamp: i64, end_timestamp: i64) -> (r: Option<Self>)
        ensures
            match r {
                Some(h) => h.inv() && h@ == (HolderView {
                    start: start_timestamp as int,
                    end: end_timestamp as int,
                    directory: int_text(start_timestamp as int),
                    log: pearl@,
                }),
                None => !(HolderView {
                    start: start_timestamp as int,
                    end: end_timestamp as int,
                    directory: int_text(start_timestamp as int),
                    log: pearl@,
                }).is_window(),
            },
    {
        let directory = i64_to_string(start_timestamp);
        Self::in_directory(pearl, start_timestamp, end_timestamp, directory)
    }

    /// A partition over `[start_timestamp, end_timestamp)`, if that is a
    /// window, in the directory of the given name.
    pub fn in_directory(
        pearl: PearlHolder,
        start_timestamp: i64,
        end_timestamp: i64,
        directory: String,
    ) -> (r: Option<Self>)
        ensures
            match r {
                Some(h) => h.inv() && h@ == (HolderView {
                    start: start_timestamp as int,
                    end: end_timestamp as int,
                    directory: directory@,
                    log: pearl@,
                }),
                None => !(HolderView {
                    start: start_timestamp as int,
                    end: end_timestamp as int,
                    directory: directory@,
                    log: pearl@,
                }).is_window(),
            },
    {
        if start_timestamp >= end_timestamp {
            return None;
        }
        if start_timestamp < 0 && end_timestamp > i64::MAX + start_timestamp {
            return None;
        }
        Some(PearlTimestampHolder { pearl, start_timestamp, end_timestamp, directory })
    }

    /// The name of the directory of the partition within that of its group.
    pub fn directory_name(&self) -> (r: &str)
        ensures
            r@ == self@.directory,
    {
        self.directory.as_str()
    }

    pub fn start_timestamp(&self) -> (r: i64)
        ensures
            r == self@.start,
    {
        self.start_timestamp
    }

    pub fn end_timestamp(&self) -> (r: i64)
        ensures
            r == self@.end,
    {
        self.end_timestamp
    }

    pub fn pearl(&self) -> (r: &PearlHolder)
        ensures
            r@ == self@.log,
    {
        &self.pearl
    }

    /// Marks the partition's log, if it is a created one, as being opened.
    pub fn begin_prepare(&mut self) -> (r: bool)
        ensures
            r == (old(self)@.log.state == HolderState::Created),
            final(self)@ == old(self)@.with_log(old(self)@.log.begin_prepare()),
    {
        proof {
            use_type_invariant(&*self);
        }
        let mut pearl = PearlHolder::new();
        std::mem::swap(&mut self.pearl, &mut pearl);
        let r = pearl.begin_prepare();
        std::mem::swap(&mut self.pearl, &mut pearl);
        r
    }

    /// Opens the storage of the partition's log.
    pub fn prepare(&mut self) -> (r: Result<(), Error>)
        ensures
            final(self)@ == old(self)@.with_log(old(self)@.log.prepare().0),
            failure_kind(r) == old(self)@.log.prepare().1,
            r matches Err(Error::StorageError(text)) ==> text@ == old(self)@.log.failure,
    {
        proof {
            use_type_invariant(&*self);
        }
        let mut pearl = PearlHolder::new();
        std::mem::swap(&mut self.pearl, &mut pearl);
        let r = pearl.prepare();
        std::mem::swap(&mut self.pearl, &mut pearl);
        r
    }

    /// Records that the storage of the partition's log reported a failure.
    pub fn fail(&mut self, description: &str)
        ensures
            final(self)@ == old(self)@.with_log(old(self)@.log.fail(description@)),
    {
        proof {
            use_type_invariant(&*self);
        }
        let mut pearl = PearlHolder::new();
        std::mem::swap(&mut self.pearl, &mut pearl);
        pearl.fail(description);
        std::mem::swap(&mut self.pearl, &mut pearl);
    }

    /// Appends a record to the partition's log, whatever its timestamp.
    pub fn write(&mut self, key: BobKey, data: BobData) -> (r: Result<(), Error>)
        ensures
            final(self)@ == old(self)@.with_log(old(self)@.log.write(key.key, data@).0),
            failure_kind(r) == old(self)@.log.write(key.key, data@).1,
            r matches Err(Error::StorageError(text)) ==> text@ == old(self)@.log.failure,
    {
        proof {
            use_type_invariant(&*self);
        }
        let mut pearl = PearlHolder::new();
        std::mem::swap(&mut self.pearl, &mut pearl);
        let r = pearl.write(key, data);
        std::mem::swap(&mut self.pearl, &mut pearl);
        r
    }

    /// Reads the record under `key` from the partition's log.
    pub fn read(&self, key: BobKey) -> (r: Result<BobData, Error>)
        ensures
            match r {
                Ok(d) => self@.log.read(key.key) == Ok::<Payload, ErrorKind>(d@),
                Err(e) => self@.log.read(key.key) == Err::<Payload, ErrorKind>(e.spec_kind()),
            },
            r matches Err(Error::StorageError(text)) ==> text@ == self@.log.failure,
    {
        self.pearl.read(key)
    }

    /// Says for each key whether the partition's log holds it.
    pub fn exist(&self, keys: &Vec<BobKey>) -> (r: Result<Vec<bool>, Error>)
        ensures
            match r {
                Ok(found) => self@.log.is_ready() && found@.len() == keys@.len() && forall|i: int|
                    0 <= i < keys@.len() ==> found@[i] == self@.log.has((#[trigger] keys@[i]).key),
                Err(e) => !self@.log.is_ready() && e.spec_kind() == self@.log.refusal(),
            },
    {
        self.pearl.exist(keys)
    }

    /// Claims the reinitialization of the partition's log.
    pub fn try_reinit(&mut self) -> (r: Result<bool, Error>)
        ensures
            r == Ok::<bool, Error>(old(self)@.log.state != HolderState::Reinitializing),
            final(self)@ == old(self)@.with_log(old(self)@.log.claim_reinit()),
    {
        proof {
            use_type_invariant(&*self);
        }
        let mut pearl = PearlHolder::new();
        std::mem::swap(&mut self.pearl, &mut pearl);
        let r = pearl.try_reinit();
        std::mem::swap(&mut self.pearl, &mut pearl);
        r
    }

    /// Closes and reopens the storage of the partition's log.
    pub fn reinit(&mut self) -> (r: Result<(), Error>)
        ensures
            r is Ok,
            final(self)@ == old(self)@.with_log(old(self)@.log.reinit()),
    {
        proof {
            use_type_invariant(&*self);
        }
        let mut pearl = PearlHolder::new();
        std::mem::swap(&mut self.pearl, &mut pearl);
        let r = pearl.reinit();
        std::mem::swap(&mut self.pearl, &mut pearl);
        r
    }

    /// True when the window holds the timestamp of the payload.
    pub fn is_actual(&self, data: &BobData) -> (r: bool)
        ensures
            r == self@.covers(data.meta.timestamp as int),
    {
        self.start_timestamp <= data.meta.timestamp && data.meta.timestamp < self.end_timestamp
    }
}

} // verus!
