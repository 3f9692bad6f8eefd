//! The session context: the task store, its backing file path, the clock,
//! and the bytes most recently handed to the persistence layer.
//!
//! The surrounding binary reads the clock and the database file and passes
//! both in as plain values; after every update it writes `saved_image` back
//! to the file whenever `dirty` is set. Components thus "persist" by
//! re-encoding the store into `saved_image` synchronously, before their
//! `update` returns.

use vstd::prelude::*;
use crate::codec::LoadError;
use crate::codec::decode;
use crate::codec::encode;
use crate::codec::spec_decode;
use crate::codec::spec_encode;
use crate::store::Task;
use crate::store::TaskModel;
use crate::store::TaskStore;
use crate::store::live_tasks;
use crate::store::lemma_live_indices_push;

verus! {

/// The mathematical content of a session.
pub ghost struct SessionModel {
    pub slots: Seq<Option<TaskModel>>,
    pub path: Seq<char>,
    pub clock_ms: u64,
    pub saved_image: Seq<u8>,
    pub dirty: bool,
}

/// The shared application state threaded by reference into every component
/// call. No component keeps a copy of it.
pub struct AppState {
    /// The in-memory task collection.
    pub database: TaskStore,
    /// Where the snapshot lives on disk; only the surrounding binary uses it.
    pub path: String,
    /// Wall-clock milliseconds, refreshed by the surrounding binary before
    /// each event is dispatched; new tasks are stamped with it.
    pub clock_ms: u64,
    /// The snapshot bytes as last handed to the persistence layer.
    pub saved_image: Vec<u8>,
    /// True while `saved_image` awaits a write to disk.
    pub dirty: bool,
}

impl View for AppState {
    type V = SessionModel;

    open spec fn view(&self) -> SessionModel {
        SessionModel {
            slots: self.database@,
            path: self.path@,
            clock_ms: self.clock_ms,
            saved_image: self.saved_image@,
            dirty: self.dirty,
        }
    }
}

/// The image holds exactly the encoding of the store's current tasks.
pub open spec fn persisted(s: SessionModel) -> bool {
    s.saved_image == spec_encode(live_tasks(s.slots))
}

impl AppState {
    /// Re-encode the store into the snapshot image and mark it for writing.
    /// Every structural mutation calls this before its `update` returns.
    pub fn persist(&mut self)
        ensures
            final(self)@ == (SessionModel {
                saved_image: spec_encode(live_tasks(old(self)@.slots)),
                dirty: true,
                ..old(self)@
            }),
            persisted(final(self)@),
    {
        let snap = self.database.snapshot();
        self.saved_image = encode(&snap);
        self.dirty = true;
    }

    /// Build the session from what was found at the database path: `None`
    /// when the file does not exist (a fresh empty store is created and
    /// marked for writing — absence is not an error), or the file's bytes
    /// (which must parse, else the load fails with the parse error).
    pub fn create(path: String, disk: Option<Vec<u8>>, clock_ms: u64) -> (r: Result<
        AppState,
        LoadError,
    >)
        ensures
            disk is None ==> (r matches Ok(st) && st@ == (SessionModel {
                slots: Seq::<Option<TaskModel>>::empty(),
                path: path@,
                clock_ms,
                saved_image: spec_encode(Seq::<TaskModel>::empty()),
                dirty: true,
            })),
            disk matches Some(b) ==> match spec_decode(b@) {
                Ok(ts) => r matches Ok(st) && live_tasks(st@.slots) == ts && st@.path == path@
                    && st@.clock_ms == clock_ms && st@.saved_image == b@ && !st@.dirty,
                Err(e) => r == Result::<AppState, LoadError>::Err(e),
            },
    {
        match disk {
            None => {
                let mut st = AppState {
                    database: TaskStore::new(),
                    path,
                    clock_ms,
                    saved_image: Vec::new(),
                    dirty: false,
                };
                proof {
                    assert(live_tasks(st@.slots) =~= Seq::<TaskModel>::empty());
                }
                st.persist();
                Ok(st)
            },
            Some(b) => {
                match decode(&b) {
                    Ok(tasks) => {
                        let ghost ts = tasks@.map_values(|t: Task| t@);
                        let mut database = TaskStore::new();
                        let mut k: usize = 0;
                        proof {
                            assert(live_tasks(database@) =~= ts.take(0));
                        }
                        while k < tasks.len()
                            invariant
                                k <= tasks.len(),
                                ts == tasks@.map_values(|t: Task| t@),
                                live_tasks(database@) == ts.take(k as int),
                            decreases tasks.len() - k,
                        {
                            let t = tasks[k].clone();
                            proof {
                                lemma_live_indices_push(database@, t@);
                                assert(ts.take(k as int).push(ts[k as int]) =~= ts.take(
                                    k as int + 1,
                                ));
                            }
                            database.insert(t);
                            k += 1;
                        }
                        proof {
                            assert(ts.take(ts.len() as int) =~= ts);
                        }
                        Ok(
                            AppState {
                                database,
                                path,
                                clock_ms,
                                saved_image: b,
                                dirty: false,
                            },
                        )
                    },
                    Err(e) => Err(e),
                }
            },
        }
    }
}

} // verus!
