//! The process registry and the launcher's decisions around it: at
//! most one live handle per application identifier, evict-then-spawn
//! relaunch semantics, and exactly-once consumption of a child's
//! output streams. The registry is owned by one orchestration context;
//! callers serialize operations on the same identifier around it.

use vstd::prelude::*;

verus! {

use crate::apps::{is_known_app, spec_app_dir, spec_app_command, app_launch_spec};
use crate::errors::HubError;
use crate::relay::StreamKind;
use crate::text::str_eq;

/// The model of one spawned child process: its OS process identifier
/// and its two output streams, each of which can be taken exactly
/// once.
#[derive(Debug, PartialEq, Eq, Structural)]
pub struct ProcessHandle {
    pub pid: u64,
    pub stdout_available: bool,
    pub stderr_available: bool,
}

impl ProcessHandle {
    /// A freshly spawned child: both streams still attached.
    pub fn new(pid: u64) -> (h: ProcessHandle)
        ensures
            h.pid == pid,
            h.stdout_available,
            h.stderr_available,
    {
        ProcessHandle { pid, stdout_available: true, stderr_available: true }
    }

    /// Takes ownership of the standard-output stream. A second take
    /// fails rather than silently producing an empty stream.
    pub fn take_stdout(&mut self) -> (r: Result<(), HubError>)
        ensures
            final(self).pid == old(self).pid,
            final(self).stderr_available == old(self).stderr_available,
            old(self).stdout_available ==> r is Ok && !final(self).stdout_available,
            !old(self).stdout_available ==> r == Err::<(), HubError>(
                HubError::StreamCaptureFailed(StreamKind::Stdout),
            ) && final(self).stdout_available == old(self).stdout_available,
    {
        if self.stdout_available {
            self.stdout_available = false;
            Ok(())
        } else {
            Err(HubError::StreamCaptureFailed(StreamKind::Stdout))
        }
    }

    /// Takes ownership of the standard-error stream; see `take_stdout`.
    pub fn take_stderr(&mut self) -> (r: Result<(), HubError>)
        ensures
            final(self).pid == old(self).pid,
            final(self).stdout_available == old(self).stdout_available,
            old(self).stderr_available ==> r is Ok && !final(self).stderr_available,
            !old(self).stderr_available ==> r == Err::<(), HubError>(
                HubError::StreamCaptureFailed(StreamKind::Stderr),
            ) && final(self).stderr_available == old(self).stderr_available,
    {
        if self.stderr_available {
            self.stderr_available = false;
            Ok(())
        } else {
            Err(HubError::StreamCaptureFailed(StreamKind::Stderr))
        }
    }
}

struct RegistryEntry {
    app_id: String,
    handle: ProcessHandle,
}

/// The registry slot transitions, as mathematical functions of the
/// registry's map view. Evicting frees the identifier's slot and
/// hands back whatever occupied it; registering installs a fresh
/// handle.
pub open spec fn spec_evict(m: Map<Seq<char>, ProcessHandle>, id: Seq<char>) -> (
    Map<Seq<char>, ProcessHandle>,
    Option<ProcessHandle>,
) {
    if m.contains_key(id) {
        (m.remove(id), Some(m[id]))
    } else {
        (m, None)
    }
}

pub open spec fn spec_register(
    m: Map<Seq<char>, ProcessHandle>,
    id: Seq<char>,
    h: ProcessHandle,
) -> Map<Seq<char>, ProcessHandle> {
    m.insert(id, h)
}

spec fn ids_unique(s: Seq<RegistryEntry>) -> bool {
    forall|i: int, j: int|
        0 <= i < j < s.len() ==> (#[trigger] s[i].app_id@) != (#[trigger] s[j].app_id@)
}

spec fn all_known(s: Seq<RegistryEntry>) -> bool {
    forall|i: int| 0 <= i < s.len() ==> is_known_app((#[trigger] s[i]).app_id@)
}

spec fn entries_map(s: Seq<RegistryEntry>) -> Map<Seq<char>, ProcessHandle>
    decreases s.len(),
{
    if s.len() == 0 {
        Map::empty()
    } else {
        entries_map(s.drop_last()).insert(s.last().app_id@, s.last().handle)
    }
}

proof fn lemma_entries_map_contains(s: Seq<RegistryEntry>, k: Seq<char>)
    ensures
        entries_map(s).contains_key(k) <==> exists|i: int|
            0 <= i < s.len() && (#[trigger] s[i].app_id@) == k,
    decreases s.len(),
{
    if s.len() > 0 {
        lemma_entries_map_contains(s.drop_last(), k);
        if s.last().app_id@ == k {
            assert(s[s.len() - 1].app_id@ == k);
        } else {
            if entries_map(s).contains_key(k) {
                let i = choose|i: int| 0 <= i < s.drop_last().len() && (#[trigger] s.drop_last()[
                    i
                ].app_id@) == k;
                assert(s[i].app_id@ == k);
            }
            if exists|i: int| 0 <= i < s.len() && (#[trigger] s[i].app_id@) == k {
                let i = choose|i: int| 0 <= i < s.len() && (#[trigger] s[i].app_id@) == k;
                assert(i < s.len() - 1);
                assert(s.drop_last()[i].app_id@ == k);
            }
        }
    }
}

proof fn lemma_entries_map_index(s: Seq<RegistryEntry>, i: int)
    requires
        ids_unique(s),
        0 <= i < s.len(),
    ensures
        entries_map(s).contains_key(s[i].app_id@),
        entries_map(s)[s[i].app_id@] == s[i].handle,
    decreases s.len(),
{
    if i == s.len() - 1 {
    } else {
        assert(forall|a: int, b: int|
            0 <= a < b < s.drop_last().len() ==> (#[trigger] s.drop_last()[a].app_id@) != (
            #[trigger] s.drop_last()[b].app_id@));
        lemma_entries_map_index(s.drop_last(), i);
        assert(s.drop_last()[i] == s[i]);
        assert(s[i].app_id@ != s.last().app_id@);
    }
}

proof fn lemma_entries_map_remove(s: Seq<RegistryEntry>, i: int)
    requires
        ids_unique(s),
        0 <= i < s.len(),
    ensures
        entries_map(s.remove(i)) == entries_map(s).remove(s[i].app_id@),
    decreases s.len(),
{
    let k = s[i].app_id@;
    if i == s.len() - 1 {
        assert(s.remove(i) =~= s.drop_last());
        lemma_entries_map_contains(s.drop_last(), k);
        assert(forall|j: int| 0 <= j < s.drop_last().len() ==> (#[trigger] s.drop_last()[j].app_id@)
            != k);
        assert(!entries_map(s.drop_last()).contains_key(k));
        assert(entries_map(s.drop_last()) =~= entries_map(s.drop_last()).insert(
            k,
            s.last().handle,
        ).remove(k));
    } else {
        assert(forall|a: int, b: int|
            0 <= a < b < s.drop_last().len() ==> (#[trigger] s.drop_last()[a].app_id@) != (
            #[trigger] s.drop_last()[b].app_id@));
        lemma_entries_map_remove(s.drop_last(), i);
        assert(s.drop_last()[i] == s[i]);
        assert(s.remove(i).drop_last() =~= s.drop_last().remove(i));
        assert(s.remove(i).last() == s.last());
        assert(s[i].app_id@ != s.last().app_id@);
        assert(entries_map(s.remove(i)) == entries_map(s.drop_last().remove(i)).insert(
            s.last().app_id@,
            s.last().handle,
        ));
        assert(entries_map(s).remove(k) =~= entries_map(s.drop_last()).remove(k).insert(
            s.last().app_id@,
            s.last().handle,
        ));
    }
}

/// The concurrent-safe map from application identifier to its one
/// owned process handle. Never more than one live handle per
/// identifier; only identifiers of the static table are ever
/// registered.
pub struct ProcessRegistry {
    entries: Vec<RegistryEntry>,
}

impl View for ProcessRegistry {
    type V = Map<Seq<char>, ProcessHandle>;

    closed spec fn view(&self) -> Map<Seq<char>, ProcessHandle> {
        entries_map(self.entries@)
    }
}

/// What the launcher needs to spawn one application after its slot is
/// free: the resolved working directory and command line, and the
/// handle that occupied the slot, which the caller must terminate.
pub struct LaunchPlan {
    pub dir_name: String,
    pub command: String,
    pub evicted: Option<ProcessHandle>,
}

impl ProcessRegistry {
    /// No identifier ever has more than one entry, and every entry is
    /// a known application.
    pub closed spec fn wf(self) -> bool {
        ids_unique(self.entries@) && all_known(self.entries@)
    }

    pub fn new() -> (r: ProcessRegistry)
        ensures
            r.wf(),
            r@ == Map::<Seq<char>, ProcessHandle>::empty(),
    {
        ProcessRegistry { entries: Vec::new() }
    }

    fn find_index(&self, app_id: &str) -> (r: Option<usize>)
        ensures
            r matches Some(i) ==> i < self.entries@.len() && self.entries@[i as int].app_id@
                == app_id@,
            r is None ==> forall|i: int|
                0 <= i < self.entries@.len() ==> (#[trigger] self.entries@[i].app_id@) != app_id@,
    {
        let mut i: usize = 0;
        while i < self.entries.len()
            invariant
                0 <= i <= self.entries@.len(),
                forall|j: int| 0 <= j < i ==> (#[trigger] self.entries@[j].app_id@) != app_id@,
            decreases self.entries@.len() - i,
        {
            if str_eq(self.entries[i].app_id.as_str(), app_id) {
                return Some(i);
            }
            i = i + 1;
        }
        None
    }

    /// Whether a live handle is registered for this identifier.
    pub fn is_running(&self, app_id: &str) -> (r: bool)
        requires
            self.wf(),
        ensures
            r == self@.contains_key(app_id@),
    {
        proof {
            lemma_entries_map_contains(self.entries@, app_id@);
        }
        match self.find_index(app_id) {
            Some(_) => true,
            None => false,
        }
    }

    /// Frees the identifier's slot and returns what occupied it; the
    /// caller terminates the returned handle's process. No-op when the
    /// slot is already empty.
    fn evict(&mut self, app_id: &str) -> (r: Option<ProcessHandle>)
        requires
            old(self).wf(),
        ensures
            final(self).wf(),
            (final(self)@, r) == spec_evict(old(self)@, app_id@),
    {
        proof {
            lemma_entries_map_contains(self.entries@, app_id@);
        }
        match self.find_index(app_id) {
            Some(i) => {
                proof {
                    lemma_entries_map_index(self.entries@, i as int);
                    lemma_entries_map_remove(self.entries@, i as int);
                    let s = self.entries@;
                    assert(forall|a: int, b: int|
                        0 <= a < b < s.remove(i as int).len() ==> (#[trigger] s.remove(
                            i as int,
                        )[a].app_id@) != (#[trigger] s.remove(i as int)[b].app_id@)) by {
                        assert(forall|a: int|
                            0 <= a < s.remove(i as int).len() ==> s.remove(i as int)[a] == (if a < i
                                as int {
                                s[a]
                            } else {
                                s[a + 1]
                            }));
                    }
                    assert(forall|a: int|
                        0 <= a < s.remove(i as int).len() ==> is_known_app(
                            (#[trigger] s.remove(i as int)[a]).app_id@,
                        )) by {
                        assert(forall|a: int|
                            0 <= a < s.remove(i as int).len() ==> s.remove(i as int)[a] == (if a < i
                                as int {
                                s[a]
                            } else {
                                s[a + 1]
                            }));
                    }
                }
                let entry = self.entries.remove(i);
                Some(entry.handle)
            },
            None => {
                assert(!self@.contains_key(app_id@));
                None
            },
        }
    }

    /// The launcher's registry step for `launch`: resolve the
    /// identifier against the static table, then free the slot so the
    /// fresh spawn can take it. Fails exactly on unknown identifiers,
    /// leaving the registry unchanged; on success the slot is empty,
    /// the plan carries the resolved directory and command, and the
    /// evicted handle (if any) is the caller's to terminate.
    pub fn launch_prepare(&mut self, app_id: &str) -> (r: Result<LaunchPlan, HubError>)
        requires
            old(self).wf(),
        ensures
            final(self).wf(),
            !is_known_app(app_id@) ==> {
                &&& r matches Err(e) && e matches HubError::UnknownApp(s) && s@ == app_id@
                &&& final(self)@ == old(self)@
            },
            is_known_app(app_id@) ==> (r matches Ok(plan) && {
                &&& Some(plan.dir_name@) == spec_app_dir(app_id@)
                &&& plan.command@ == spec_app_command()
                &&& (final(self)@, plan.evicted) == spec_evict(old(self)@, app_id@)
                &&& !final(self)@.contains_key(app_id@)
            }),
    {
        match app_launch_spec(app_id) {
            Some(dc) => {
                let (dir_name, command) = dc;
                let evicted = self.evict(app_id);
                Ok(LaunchPlan { dir_name, command, evicted })
            },
            None => Err(HubError::UnknownApp(app_id.to_owned())),
        }
    }

    /// Installs the freshly spawned handle in the identifier's slot,
    /// overwriting any stale remnant. The caller has already taken
    /// both output streams (the relays own them).
    pub fn register(&mut self, app_id: &str, handle: ProcessHandle)
        requires
            old(self).wf(),
            is_known_app(app_id@),
            !handle.stdout_available,
            !handle.stderr_available,
        ensures
            final(self).wf(),
            final(self)@ == spec_register(old(self)@, app_id@, handle),
    {
        let _stale = self.evict(app_id);
        proof {
            if !old(self)@.contains_key(app_id@) {
                assert(self@ =~= old(self)@.remove(app_id@));
            }
            lemma_entries_map_contains(self.entries@, app_id@);
        }
        let ghost s0 = self.entries@;
        let entry = RegistryEntry { app_id: app_id.to_owned(), handle };
        self.entries.push(entry);
        proof {
            let s = self.entries@;
            assert(s.drop_last() =~= s0);
            assert(s.last().app_id@ == app_id@);
            assert(s.last().handle == handle);
            assert(self@ == entries_map(s0).insert(app_id@, handle));
            assert(forall|j: int| 0 <= j < s0.len() ==> s[j] == s0[j]);
            assert(forall|j: int| 0 <= j < s0.len() ==> (#[trigger] s0[j].app_id@) != app_id@);
            assert(ids_unique(s)) by {
                assert(forall|a: int, b: int|
                    0 <= a < b < s.len() && b < s.len() - 1 ==> (#[trigger] s[a].app_id@) != (
                    #[trigger] s[b].app_id@));
                assert(forall|a: int|
                    0 <= a < s.len() - 1 ==> (#[trigger] s[a].app_id@) != s[s.len() - 1].app_id@);
            }
            assert(all_known(s));
            assert(old(self)@.remove(app_id@).insert(app_id@, handle) =~= old(self)@.insert(
                app_id@,
                handle,
            ));
        }
    }

    /// Removes the slot for the identifier and returns the handle so
    /// the caller can signal the process and await its end; fails
    /// exactly when no handle is registered, leaving the registry
    /// unchanged. After success the slot stays empty until the next
    /// launch.
    pub fn kill_app(&mut self, app_id: &str) -> (r: Result<ProcessHandle, HubError>)
        requires
            old(self).wf(),
        ensures
            final(self).wf(),
            old(self)@.contains_key(app_id@) ==> {
                &&& r matches Ok(h) && h == old(self)@[app_id@]
                &&& final(self)@ == old(self)@.remove(app_id@)
            },
            !old(self)@.contains_key(app_id@) ==> {
                &&& r matches Err(e) && e matches HubError::NotRunning(s) && s@ == app_id@
                &&& final(self)@ == old(self)@
            },
    {
        match self.evict(app_id) {
            Some(h) => Ok(h),
            None => Err(HubError::NotRunning(app_id.to_owned())),
        }
    }
}

/// Law: launching an identifier twice in succession leaves exactly one
/// live entry for it — the fresh handle. The handle that the second
/// launch's evict step tears down is the one the first launch
/// registered; as long as the fresh handle differs from the old one,
/// it is never the fresh process that is torn down. Slots of other
/// identifiers are untouched.
pub proof fn lemma_relaunch_is_idempotent(
    m0: Map<Seq<char>, ProcessHandle>,
    id: Seq<char>,
    h1: ProcessHandle,
    h2: ProcessHandle,
)
    ensures
        ({
            let m1 = spec_register(spec_evict(m0, id).0, id, h1);
            let evicted2 = spec_evict(m1, id).1;
            let m2 = spec_register(spec_evict(m1, id).0, id, h2);
            &&& evicted2 == Some(h1)
            &&& (h1 != h2 ==> evicted2 != Some(h2))
            &&& m2.contains_key(id)
            &&& m2[id] == h2
            &&& m2 == m0.insert(id, h2)
        }),
{
    let m1 = spec_register(spec_evict(m0, id).0, id, h1);
    let m2 = spec_register(spec_evict(m1, id).0, id, h2);
    assert(m1.contains_key(id));
    assert(m1[id] == h1);
    assert(m2 =~= m0.insert(id, h2));
}

/// Law: a successful kill empties the identifier's slot, so an
/// immediate second kill of the same identifier finds nothing running
/// and changes nothing.
pub proof fn lemma_kill_twice(m0: Map<Seq<char>, ProcessHandle>, id: Seq<char>)
    requires
        m0.contains_key(id),
    ensures
        spec_evict(m0, id).1 == Some(m0[id]),
        !spec_evict(m0, id).0.contains_key(id),
        spec_evict(spec_evict(m0, id).0, id).0 == spec_evict(m0, id).0,
        spec_evict(spec_evict(m0, id).0, id).1 == Option::<ProcessHandle>::None,
{
}

} // verus!
