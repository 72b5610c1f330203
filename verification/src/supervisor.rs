//! Module registry and process supervisor.
//!
//! The registry maps module name to a running/stopped flag.  The supervisor
//! owns it, is its sole mutator, and exposes start, stop, toggle, stop-all
//! and snapshot operations.  Each operation is one call on `&mut self`, so
//! read-then-act pairs such as `toggle` happen in a single critical section
//! when the host shares the supervisor behind one lock.
//!
//! The `running` flag is supervisor-authoritative state: it records the last
//! successful start/stop decision, not a live poll of the scheduler.  The
//! launching and signalling of the underlying operating-system processes is
//! the host's side of the protocol: `start` and `toggle` answer with the
//! action to perform, and a launch that failed is recorded afterwards with
//! [`Supervisor::record_launch_failure`].

use vstd::prelude::*;

verus! {

/// The mathematical registry: an ordered sequence of (name, running) pairs.
pub type RegView = Seq<(Seq<char>, bool)>;

/// The views of a sequence of entries.
pub open spec fn views_of(s: Seq<ModuleEntry>) -> RegView {
    s.map_values(|e: ModuleEntry| e@)
}

/// Module names are unique within the registry.
pub open spec fn wf_view(v: RegView) -> bool {
    forall|i: int, j: int|
        #![trigger v[i], v[j]]
        0 <= i < v.len() && 0 <= j < v.len() && i != j ==> v[i].0 != v[j].0
}

/// Whether the registry holds an entry named `n`.
pub open spec fn has_module(v: RegView, n: Seq<char>) -> bool {
    exists|i: int| #![trigger v[i]] 0 <= i < v.len() && v[i].0 == n
}

/// The position of the entry named `n` (meaningful when `has_module` and
/// names are unique).
pub open spec fn index_of(v: RegView, n: Seq<char>) -> int {
    choose|i: int| 0 <= i < v.len() && v[i].0 == n
}

/// The running flag of the entry named `n`.
pub open spec fn running_of(v: RegView, n: Seq<char>) -> bool {
    v[index_of(v, n)].1
}

/// The registry with the flag of `n` set to `b` and all else unchanged.
pub open spec fn set_running(v: RegView, n: Seq<char>, b: bool) -> RegView {
    v.update(index_of(v, n), (n, b))
}

/// The effect of `start(n)`: a no-op on an unknown or already-running
/// module, otherwise the flag becomes true.
pub open spec fn start_spec(v: RegView, n: Seq<char>) -> RegView {
    if !has_module(v, n) {
        v
    } else if running_of(v, n) {
        v
    } else {
        set_running(v, n, true)
    }
}

/// The effect of `stop(n)`: a no-op on an unknown or already-stopped
/// module, otherwise the flag becomes false.
pub open spec fn stop_spec(v: RegView, n: Seq<char>) -> RegView {
    if !has_module(v, n) {
        v
    } else if !running_of(v, n) {
        v
    } else {
        set_running(v, n, false)
    }
}

/// The effect of `toggle(n)`: stop if running, else start, decided and
/// applied in one step.
pub open spec fn toggle_spec(v: RegView, n: Seq<char>) -> RegView {
    if !has_module(v, n) {
        v
    } else if running_of(v, n) {
        stop_spec(v, n)
    } else {
        start_spec(v, n)
    }
}

/// Every flag cleared, names and order kept.
pub open spec fn all_stopped(v: RegView) -> RegView {
    v.map_values(|p: (Seq<char>, bool)| (p.0, false))
}

/// Every flag set, names and order kept.
pub open spec fn all_started(v: RegView) -> RegView {
    v.map_values(|p: (Seq<char>, bool)| (p.0, true))
}

/// The names of the currently stopped modules, in registry order.
pub open spec fn stopped_names(v: RegView) -> Seq<Seq<char>>
    decreases v.len(),
{
    if v.len() == 0 {
        Seq::empty()
    } else {
        stopped_names(v.drop_last()) + if !v.last().1 {
            seq![v.last().0]
        } else {
            Seq::<Seq<char>>::empty()
        }
    }
}

/// The names of the currently running modules, in registry order.
pub open spec fn running_names(v: RegView) -> Seq<Seq<char>>
    decreases v.len(),
{
    if v.len() == 0 {
        Seq::empty()
    } else {
        running_names(v.drop_last()) + if v.last().1 {
            seq![v.last().0]
        } else {
            Seq::<Seq<char>>::empty()
        }
    }
}

/// The registry created from a configured name list: one entry per distinct
/// name in first-occurrence order, every flag false.
pub open spec fn init_view(ns: Seq<Seq<char>>) -> RegView
    decreases ns.len(),
{
    if ns.len() == 0 {
        Seq::empty()
    } else {
        let prev = init_view(ns.drop_last());
        if has_module(prev, ns.last()) {
            prev
        } else {
            prev.push((ns.last(), false))
        }
    }
}

/// One supervised background process: its stable name and its
/// supervisor-authoritative running flag.
pub struct ModuleEntry {
    /// Unique, stable identifier of the module.
    pub name: String,
    /// Whether the last supervisor decision left the module running.
    pub running: bool,
}

impl View for ModuleEntry {
    type V = (Seq<char>, bool);

    open spec fn view(&self) -> (Seq<char>, bool) {
        (self.name@, self.running)
    }
}

/// A consistent, point-in-time copy of the registry, safe to read without
/// any lock.
pub type ModuleRegistrySnapshot = Vec<ModuleEntry>;

/// The process supervisor: owner and sole mutator of the module registry.
pub struct Supervisor {
    entries: Vec<ModuleEntry>,
}

impl View for Supervisor {
    type V = RegView;

    closed spec fn view(&self) -> RegView {
        views_of(self.entries@)
    }
}

/// If some position holds the name, it is the position `index_of` denotes,
/// and `running_of` reads that entry.
pub proof fn lemma_index_of_unique(v: RegView, n: Seq<char>, i: int)
    requires
        wf_view(v),
        0 <= i < v.len(),
        v[i].0 == n,
    ensures
        has_module(v, n),
        index_of(v, n) == i,
        running_of(v, n) == v[i].1,
{
    assert(has_module(v, n));
    let k = index_of(v, n);
    assert(0 <= k < v.len() && v[k].0 == n);
    assert(k == i);
}

/// What updating one flag does to the registry: names, order and every
/// other entry are untouched.
pub proof fn lemma_set_running(v: RegView, n: Seq<char>, b: bool)
    requires
        wf_view(v),
        has_module(v, n),
    ensures
        set_running(v, n, b).len() == v.len(),
        wf_view(set_running(v, n, b)),
        0 <= index_of(v, n) < v.len(),
        set_running(v, n, b)[index_of(v, n)] == (n, b),
        forall|j: int|
            0 <= j < v.len() && j != index_of(v, n) ==> #[trigger] set_running(v, n, b)[j] == v[j],
        index_of(set_running(v, n, b), n) == index_of(v, n),
        running_of(set_running(v, n, b), n) == b,
        forall|m: Seq<char>|
            #[trigger] has_module(set_running(v, n, b), m) == has_module(v, m),
        forall|m: Seq<char>|
            m != n && has_module(v, m) ==> #[trigger] running_of(set_running(v, n, b), m)
                == running_of(v, m),
{
    let k = index_of(v, n);
    assert(0 <= k < v.len() && v[k].0 == n);
    let w = set_running(v, n, b);
    assert(wf_view(w)) by {
        assert forall|i: int, j: int|
            0 <= i < w.len() && 0 <= j < w.len() && i != j implies #[trigger] w[i].0
            != #[trigger] w[j].0 by {
            assert(v[i].0 != v[j].0);
        }
    }
    lemma_index_of_unique(w, n, k);
    assert forall|m: Seq<char>| #[trigger] has_module(w, m) == has_module(v, m) by {
        if has_module(v, m) {
            let j = index_of(v, m);
            assert(0 <= j < v.len() && v[j].0 == m);
            if j == k {
                assert(w[k].0 == n);
            } else {
                assert(w[j].0 == m);
            }
            assert(has_module(w, m));
        }
        if has_module(w, m) {
            let j = index_of(w, m);
            assert(0 <= j < w.len() && w[j].0 == m);
            assert(v[j].0 == m);
            assert(has_module(v, m));
        }
    }
    assert forall|m: Seq<char>| m != n && has_module(v, m) implies #[trigger] running_of(w, m)
        == running_of(v, m) by {
        let j = index_of(v, m);
        assert(0 <= j < v.len() && v[j].0 == m);
        assert(j != k);
        lemma_index_of_unique(v, m, j);
        lemma_index_of_unique(w, m, j);
    }
}

/// Updating one entry updates one pair of the view.
proof fn lemma_views_of_update(s: Seq<ModuleEntry>, i: int, e: ModuleEntry)
    requires
        0 <= i < s.len(),
    ensures
        views_of(s.update(i, e)) =~= views_of(s).update(i, e@),
{
}

/// Appending one entry appends one pair to the view.
proof fn lemma_views_of_push(s: Seq<ModuleEntry>, e: ModuleEntry)
    ensures
        views_of(s.push(e)) =~= views_of(s).push(e@),
{
}

/// Outcome of a `start` request.
pub enum StartOutcome {
    /// No module of that name is registered; nothing changed.
    UnknownModule,
    /// The module already runs; the request is a no-op success.
    AlreadyRunning,
    /// The flag is set; the host must now launch the underlying process
    /// and report a failed launch with `record_launch_failure`.
    Launch,
}

/// Outcome of a `stop` request.
pub enum StopOutcome {
    /// No module of that name is registered; nothing changed.
    UnknownModule,
    /// The module is already stopped; the request is a no-op success.
    AlreadyStopped,
    /// The flag is cleared; the host must now signal the underlying
    /// process to terminate.
    Signal,
}

/// Outcome of a `toggle` request.
pub enum ToggleOutcome {
    /// No module of that name is registered; nothing changed.
    UnknownModule,
    /// The module was stopped: the toggle starts it, as `start` would.
    Launch,
    /// The module was running: the toggle stops it, as `stop` would.
    Signal,
}

impl Supervisor {
    /// Names are unique; established by `initialize` and preserved by every
    /// operation.
    pub open spec fn wf(&self) -> bool {
        wf_view(self@)
    }

    /// The number of registered modules.
    pub fn module_count(&self) -> (n: usize)
        ensures
            n == self@.len(),
    {
        self.entries.len()
    }

    /// The position of the entry named `name`, if any.
    fn find(&self, name: &String) -> (r: Option<usize>)
        requires
            self.wf(),
        ensures
            match r {
                Some(i) => {
                    &&& i < self@.len()
                    &&& self@[i as int].0 == name@
                    &&& has_module(self@, name@)
                    &&& index_of(self@, name@) == i
                    &&& running_of(self@, name@) == self@[i as int].1
                },
                None => !has_module(self@, name@),
            },
    {
        let mut i: usize = 0;
        while i < self.entries.len()
            invariant
                self.wf(),
                i <= self.entries.len(),
                forall|j: int| 0 <= j < i ==> (#[trigger] self@[j]).0 != name@,
            decreases self.entries.len() - i,
        {
            if self.entries[i].name == *name {
                proof {
                    lemma_index_of_unique(self@, name@, i as int);
                }
                return Some(i);
            }
            i += 1;
        }
        None
    }

    /// Creates one entry per configured module name with `running = false`.
    /// A name that repeats is registered once, at its first occurrence.
    /// The start attempts that follow initialization are driven through
    /// `start` and, for a launch that failed, `record_launch_failure`.
    pub fn initialize(names: &Vec<String>) -> (s: Supervisor)
        ensures
            s.wf(),
            s@ == init_view(names@.map_values(|n: String| n@)),
    {
        let ghost ns = names@.map_values(|n: String| n@);
        let mut s = Supervisor { entries: Vec::new() };
        assert(s@ =~= init_view(ns.take(0)));
        let mut i: usize = 0;
        while i < names.len()
            invariant
                s.wf(),
                i <= names.len(),
                ns == names@.map_values(|n: String| n@),
                s@ == init_view(ns.take(i as int)),
            decreases names.len() - i,
        {
            proof {
                assert(ns.take(i + 1).drop_last() =~= ns.take(i as int));
                assert(ns.take(i + 1).last() == ns[i as int]);
            }
            match s.find(&names[i]) {
                Some(_) => {
                    assert(s@ =~= init_view(ns.take(i + 1)));
                }
                None => {
                    let entry = ModuleEntry { name: names[i].clone(), running: false };
                    proof {
                        lemma_views_of_push(s.entries@, entry);
                        assert(!has_module(s@, ns[i as int]));
                    }
                    s.entries.push(entry);
                    assert(s@ =~= init_view(ns.take(i + 1)));
                    assert(s.wf()) by {
                        let v = init_view(ns.take(i as int));
                        assert forall|a: int, b: int|
                            0 <= a < s@.len() && 0 <= b < s@.len() && a != b implies (
                        #[trigger] s@[a]).0 != (#[trigger] s@[b]).0 by {
                            if a < v.len() && b < v.len() {
                                assert(v[a].0 != v[b].0);
                            } else if a < v.len() {
                                assert(!has_module(v, s@[b].0));
                            } else {
                                assert(!has_module(v, s@[a].0));
                            }
                        }
                    }
                }
            }
            i += 1;
        }
        proof {
            assert(ns.take(names@.len() as int) =~= ns);
        }
        s
    }

    /// Whether a module of that name is registered.
    pub fn contains(&self, name: &String) -> (b: bool)
        requires
            self.wf(),
        ensures
            b == has_module(self@, name@),
    {
        self.find(name).is_some()
    }

    /// The running flag of the named module, `None` for an unknown name.
    pub fn is_running(&self, name: &String) -> (r: Option<bool>)
        requires
            self.wf(),
        ensures
            match r {
                Some(b) => has_module(self@, name@) && b == running_of(self@, name@),
                None => !has_module(self@, name@),
            },
    {
        match self.find(name) {
            Some(i) => Some(self.entries[i].running),
            None => None,
        }
    }

    /// Starts the named module.  Idempotent: starting a module that already
    /// runs is a no-op success.  On `Launch` the flag is set and the host
    /// launches the process inside the same critical section; a launch that
    /// failed is recorded with `record_launch_failure`, so that a module
    /// that could not start is shown as stopped and nothing else fails.
    pub fn start(&mut self, name: &String) -> (r: StartOutcome)
        requires
            old(self).wf(),
        ensures
            final(self).wf(),
            final(self)@ == start_spec(old(self)@, name@),
            r is UnknownModule <==> !has_module(old(self)@, name@),
            r is AlreadyRunning <==> has_module(old(self)@, name@) && running_of(
                old(self)@,
                name@,
            ),
            r is Launch <==> has_module(old(self)@, name@) && !running_of(old(self)@, name@),
    {
        match self.find(name) {
            None => StartOutcome::UnknownModule,
            Some(i) => {
                if self.entries[i].running {
                    StartOutcome::AlreadyRunning
                } else {
                    proof {
                        lemma_set_running(self@, name@, true);
                        lemma_views_of_update(
                            self.entries@,
                            i as int,
                            ModuleEntry { name: *name, running: true },
                        );
                    }
                    let entry = ModuleEntry { name: name.clone(), running: true };
                    self.entries[i] = entry;
                    assert(self@ =~= set_running(old(self)@, name@, true));
                    StartOutcome::Launch
                }
            }
        }
    }

    /// Records that the launch requested by the last `start` or `toggle` of
    /// this module failed: the flag is cleared again, every other entry is
    /// untouched, and the failure stays terminal at this layer.
    pub fn record_launch_failure(&mut self, name: &String) -> (known: bool)
        requires
            old(self).wf(),
        ensures
            final(self).wf(),
            final(self)@ == stop_spec(old(self)@, name@),
            known == has_module(old(self)@, name@),
    {
        match self.stop(name) {
            StopOutcome::UnknownModule => false,
            _ => true,
        }
    }

    /// Stops the named module.  Idempotent: stopping a stopped module is a
    /// no-op.  On `Signal` the flag is cleared once termination is
    /// requested; the host then signals the process, and a failure to
    /// signal is reported by the host without touching the registry.
    pub fn stop(&mut self, name: &String) -> (r: StopOutcome)
        requires
            old(self).wf(),
        ensures
            final(self).wf(),
            final(self)@ == stop_spec(old(self)@, name@),
            r is UnknownModule <==> !has_module(old(self)@, name@),
            r is AlreadyStopped <==> has_module(old(self)@, name@) && !running_of(
                old(self)@,
                name@,
            ),
            r is Signal <==> has_module(old(self)@, name@) && running_of(old(self)@, name@),
    {
        match self.find(name) {
            None => StopOutcome::UnknownModule,
            Some(i) => {
                if !self.entries[i].running {
                    StopOutcome::AlreadyStopped
                } else {
                    proof {
                        lemma_set_running(self@, name@, false);
                        lemma_views_of_update(
                            self.entries@,
                            i as int,
                            ModuleEntry { name: *name, running: false },
                        );
                    }
                    let entry = ModuleEntry { name: name.clone(), running: false };
                    self.entries[i] = entry;
                    assert(self@ =~= set_running(old(self)@, name@, false));
                    StopOutcome::Signal
                }
            }
        }
    }

    /// Reads the flag and stops or starts accordingly, in one exclusive
    /// call, so that no concurrent toggle can slip between the read and the
    /// action: the state change equals exactly the one `stop` or `start`
    /// would make.
    pub fn toggle(&mut self, name: &String) -> (r: ToggleOutcome)
        requires
            old(self).wf(),
        ensures
            final(self).wf(),
            final(self)@ == toggle_spec(old(self)@, name@),
            r is UnknownModule <==> !has_module(old(self)@, name@),
            r is Signal <==> has_module(old(self)@, name@) && running_of(old(self)@, name@),
            r is Launch <==> has_module(old(self)@, name@) && !running_of(old(self)@, name@),
            r is Signal ==> final(self)@ == stop_spec(old(self)@, name@),
            r is Launch ==> final(self)@ == start_spec(old(self)@, name@),
    {
        match self.find(name) {
            None => ToggleOutcome::UnknownModule,
            Some(i) => {
                if self.entries[i].running {
                    let outcome = self.stop(name);
                    assert(outcome is Signal);
                    ToggleOutcome::Signal
                } else {
                    let outcome = self.start(name);
                    assert(outcome is Launch);
                    ToggleOutcome::Launch
                }
            }
        }
    }

    /// Starts every module not currently running, used right after
    /// initialization.  The returned names are all the modules that were
    /// stopped, in registry order, for the host to launch one by one; each
    /// attempt is independent, and a launch that fails is recorded
    /// afterwards with `record_launch_failure`, so one failure never makes
    /// initialization as a whole fail.
    pub fn start_all(&mut self) -> (r: Vec<String>)
        requires
            old(self).wf(),
        ensures
            final(self).wf(),
            final(self)@ == all_started(old(self)@),
            r@.map_values(|s: String| s@) == stopped_names(old(self)@),
    {
        let ghost v0 = self@;
        let mut r: Vec<String> = Vec::new();
        assert(r@.map_values(|s: String| s@) =~= stopped_names(v0.take(0)));
        let mut i: usize = 0;
        while i < self.entries.len()
            invariant
                self.wf(),
                i <= self.entries.len(),
                self@.len() == v0.len(),
                forall|j: int| 0 <= j < i ==> #[trigger] self@[j] == (v0[j].0, true),
                forall|j: int| i <= j < v0.len() ==> #[trigger] self@[j] == v0[j],
                r@.map_values(|s: String| s@) == stopped_names(v0.take(i as int)),
            decreases self.entries.len() - i,
        {
            proof {
                assert(v0.take(i + 1).drop_last() =~= v0.take(i as int));
                assert(v0.take(i + 1).last() == v0[i as int]);
                assert(self@[i as int] == v0[i as int]);
                assert(self@[i as int] == self.entries@[i as int]@);
            }
            let ghost r_pre = r@;
            if !self.entries[i].running {
                let started_name = self.entries[i].name.clone();
                assert(started_name@ == v0[i as int].0);
                r.push(started_name);
                assert(r@.map_values(|s: String| s@) =~= r_pre.map_values(|s: String| s@).push(
                    v0[i as int].0,
                ));
                let entry = ModuleEntry { name: self.entries[i].name.clone(), running: true };
                proof {
                    lemma_views_of_update(self.entries@, i as int, entry);
                }
                self.entries[i] = entry;
                proof {
                    let m = r_pre.map_values(|s: String| s@);
                    assert(m.push(v0[i as int].0) =~= m + seq![v0[i as int].0]);
                }
            } else {
                proof {
                    let m = r_pre.map_values(|s: String| s@);
                    assert(m + Seq::<Seq<char>>::empty() =~= m);
                }
            }
            assert(r@.map_values(|s: String| s@) =~= stopped_names(v0.take(i + 1)));
            assert(self.wf()) by {
                assert forall|a: int, b: int|
                    0 <= a < self@.len() && 0 <= b < self@.len() && a != b implies (
                #[trigger] self@[a]).0 != (#[trigger] self@[b]).0 by {
                    assert(self@[a].0 == v0[a].0 && self@[b].0 == v0[b].0);
                    assert(v0[a].0 != v0[b].0);
                }
            }
            i += 1;
        }
        proof {
            assert(v0.take(v0.len() as int) =~= v0);
            assert(self@ =~= all_started(v0));
        }
        r
    }

    /// Stops every currently-running module, used on quit.  Every module's
    /// stop attempt is independent: the returned names are all the modules
    /// that were running, in registry order, for the host to signal one by
    /// one; a signal that fails never aborts the remaining stops.
    pub fn stop_all(&mut self) -> (r: Vec<String>)
        requires
            old(self).wf(),
        ensures
            final(self).wf(),
            final(self)@ == all_stopped(old(self)@),
            r@.map_values(|s: String| s@) == running_names(old(self)@),
    {
        let ghost v0 = self@;
        let mut r: Vec<String> = Vec::new();
        assert(r@.map_values(|s: String| s@) =~= running_names(v0.take(0)));
        let mut i: usize = 0;
        while i < self.entries.len()
            invariant
                self.wf(),
                i <= self.entries.len(),
                self@.len() == v0.len(),
                forall|j: int| 0 <= j < i ==> #[trigger] self@[j] == (v0[j].0, false),
                forall|j: int| i <= j < v0.len() ==> #[trigger] self@[j] == v0[j],
                r@.map_values(|s: String| s@) == running_names(v0.take(i as int)),
            decreases self.entries.len() - i,
        {
            proof {
                assert(v0.take(i + 1).drop_last() =~= v0.take(i as int));
                assert(v0.take(i + 1).last() == v0[i as int]);
                assert(self@[i as int] == v0[i as int]);
                assert(self@[i as int] == self.entries@[i as int]@);
            }
            let ghost r_pre = r@;
            if self.entries[i].running {
                let stopped_name = self.entries[i].name.clone();
                assert(stopped_name@ == v0[i as int].0);
                r.push(stopped_name);
                assert(r@.map_values(|s: String| s@) =~= r_pre.map_values(|s: String| s@).push(
                    v0[i as int].0,
                ));
                let entry = ModuleEntry { name: self.entries[i].name.clone(), running: false };
                proof {
                    lemma_views_of_update(self.entries@, i as int, entry);
                }
                self.entries[i] = entry;
                proof {
                    let m = r_pre.map_values(|s: String| s@);
                    assert(m.push(v0[i as int].0) =~= m + seq![v0[i as int].0]);
                }
            } else {
                proof {
                    let m = r_pre.map_values(|s: String| s@);
                    assert(m + Seq::<Seq<char>>::empty() =~= m);
                }
            }
            assert(r@.map_values(|s: String| s@) =~= running_names(v0.take(i + 1)));
            assert(self.wf()) by {
                assert forall|a: int, b: int|
                    0 <= a < self@.len() && 0 <= b < self@.len() && a != b implies (
                #[trigger] self@[a]).0 != (#[trigger] self@[b]).0 by {
                    assert(self@[a].0 == v0[a].0 && self@[b].0 == v0[b].0);
                    assert(v0[a].0 != v0[b].0);
                }
            }
            i += 1;
        }
        proof {
            assert(v0.take(v0.len() as int) =~= v0);
            assert(self@ =~= all_stopped(v0));
        }
        r
    }

    /// A consistent, point-in-time ordered copy of the registry, taken in
    /// one exclusive call so no entry is observed mid-mutation; the copy is
    /// safe to read with no lock held.
    pub fn snapshot(&self) -> (r: ModuleRegistrySnapshot)
        ensures
            views_of(r@) == self@,
    {
        let mut r: Vec<ModuleEntry> = Vec::new();
        assert(views_of(r@) =~= self@.take(0));
        let mut i: usize = 0;
        while i < self.entries.len()
            invariant
                i <= self.entries.len(),
                views_of(r@) == self@.take(i as int),
            decreases self.entries.len() - i,
        {
            let entry = ModuleEntry {
                name: self.entries[i].name.clone(),
                running: self.entries[i].running,
            };
            proof {
                lemma_views_of_push(r@, entry);
            }
            r.push(entry);
            assert(views_of(r@) =~= self@.take(i + 1));
            i += 1;
        }
        proof {
            assert(self@.take(self@.len() as int) =~= self@);
        }
        r
    }
}

/// One supervisor operation on a fixed module name, for stating laws about
/// operation sequences.
pub enum ModuleOp {
    /// A `start` call (with its launch succeeding).
    Start,
    /// A `stop` call.
    Stop,
    /// A `toggle` call.
    Toggle,
}

/// The registry after one operation on the module named `n`.
pub open spec fn op_spec(v: RegView, n: Seq<char>, op: ModuleOp) -> RegView {
    match op {
        ModuleOp::Start => start_spec(v, n),
        ModuleOp::Stop => stop_spec(v, n),
        ModuleOp::Toggle => toggle_spec(v, n),
    }
}

/// The registry after a whole sequence of operations on the module named
/// `n`, applied left to right.
pub open spec fn apply_ops(v: RegView, n: Seq<char>, ops: Seq<ModuleOp>) -> RegView
    decreases ops.len(),
{
    if ops.len() == 0 {
        v
    } else {
        op_spec(apply_ops(v, n, ops.drop_last()), n, ops.last())
    }
}

/// Every operation preserves well-formedness and which modules exist.
pub proof fn lemma_op_preserves(v: RegView, n: Seq<char>, op: ModuleOp)
    requires
        wf_view(v),
    ensures
        wf_view(op_spec(v, n, op)),
        forall|m: Seq<char>| #[trigger] has_module(op_spec(v, n, op), m) == has_module(v, m),
{
    if has_module(v, n) {
        lemma_set_running(v, n, true);
        lemma_set_running(v, n, false);
    }
}

/// So does a whole sequence of operations.
pub proof fn lemma_ops_preserve(v: RegView, n: Seq<char>, ops: Seq<ModuleOp>)
    requires
        wf_view(v),
    ensures
        wf_view(apply_ops(v, n, ops)),
        forall|m: Seq<char>| #[trigger] has_module(apply_ops(v, n, ops), m) == has_module(v, m),
    decreases ops.len(),
{
    if ops.len() > 0 {
        lemma_ops_preserve(v, n, ops.drop_last());
        lemma_op_preserves(apply_ops(v, n, ops.drop_last()), n, ops.last());
    }
}

/// Law: repeated `start` is idempotent — the second application changes
/// nothing.
pub proof fn lemma_start_idempotent(v: RegView, n: Seq<char>)
    requires
        wf_view(v),
    ensures
        start_spec(start_spec(v, n), n) == start_spec(v, n),
{
    if has_module(v, n) && !running_of(v, n) {
        lemma_set_running(v, n, true);
    }
}

/// Law: repeated `stop` is idempotent — the second application changes
/// nothing.
pub proof fn lemma_stop_idempotent(v: RegView, n: Seq<char>)
    requires
        wf_view(v),
    ensures
        stop_spec(stop_spec(v, n), n) == stop_spec(v, n),
{
    if has_module(v, n) && running_of(v, n) {
        lemma_set_running(v, n, false);
    }
}

/// Law: a `start` of a running module and a `stop` of a stopped module are
/// no-ops — they leave the whole registry untouched.
pub proof fn lemma_noop_calls(v: RegView, n: Seq<char>)
    requires
        wf_view(v),
        has_module(v, n),
    ensures
        running_of(v, n) ==> start_spec(v, n) == v,
        !running_of(v, n) ==> stop_spec(v, n) == v,
{
}

/// Law: over any sequence of `start`/`stop`/`toggle` calls on one module,
/// the final running flag is the net effect of the last call alone — true
/// after a `start`, false after a `stop`, and the negation of the flag the
/// last `toggle` observed.  Repeated `start` or `stop` calls beyond the
/// first are therefore no-ops.
pub proof fn lemma_last_op_decides(v: RegView, n: Seq<char>, ops: Seq<ModuleOp>)
    requires
        wf_view(v),
        has_module(v, n),
        ops.len() > 0,
    ensures
        ops.last() is Start ==> running_of(apply_ops(v, n, ops), n),
        ops.last() is Stop ==> !running_of(apply_ops(v, n, ops), n),
        ops.last() is Toggle ==> running_of(apply_ops(v, n, ops), n) == !running_of(
            apply_ops(v, n, ops.drop_last()),
            n,
        ),
{
    let w = apply_ops(v, n, ops.drop_last());
    lemma_ops_preserve(v, n, ops.drop_last());
    lemma_set_running(w, n, true);
    lemma_set_running(w, n, false);
}

/// Law: `toggle` is exactly "if running then stop else start" in one atomic
/// step — its effect on the registry is the effect of the branch taken.
pub proof fn lemma_toggle_matches_start_stop(v: RegView, n: Seq<char>)
    requires
        wf_view(v),
        has_module(v, n),
    ensures
        running_of(v, n) ==> toggle_spec(v, n) == stop_spec(v, n),
        !running_of(v, n) ==> toggle_spec(v, n) == start_spec(v, n),
{
}

/// Law: two toggles never start a module twice.  A `toggle` that starts the
/// module leaves it running, so the interleaved `toggle` that follows stops
/// it — under the exclusive critical section, any interleaving of two
/// toggles is one of the two orders this covers.
pub proof fn lemma_toggle_no_double_start(v: RegView, n: Seq<char>)
    requires
        wf_view(v),
        has_module(v, n),
        !running_of(v, n),
    ensures
        running_of(toggle_spec(v, n), n),
        toggle_spec(toggle_spec(v, n), n) == stop_spec(toggle_spec(v, n), n),
{
    lemma_set_running(v, n, true);
    lemma_toggle_matches_start_stop(toggle_spec(v, n), n);
}

/// The registry built from a configured name list: well-formed, one entry
/// exactly per configured name, every flag false.
pub proof fn lemma_init_view(ns: Seq<Seq<char>>)
    ensures
        wf_view(init_view(ns)),
        forall|m: Seq<char>| #[trigger] has_module(init_view(ns), m) == ns.contains(m),
        forall|j: int| 0 <= j < init_view(ns).len() ==> !(#[trigger] init_view(ns)[j]).1,
    decreases ns.len(),
{
    let v = init_view(ns);
    if ns.len() == 0 {
        assert forall|m: Seq<char>| #[trigger] has_module(v, m) == ns.contains(m) by {
            if ns.contains(m) {
                let i = choose|i: int| 0 <= i < ns.len() && ns[i] == m;
            }
        }
    } else {
        lemma_init_view(ns.drop_last());
        let prev = init_view(ns.drop_last());
        assert forall|m: Seq<char>| #[trigger] has_module(v, m) == ns.contains(m) by {
            if has_module(v, m) {
                let i = index_of(v, m);
                assert(0 <= i < v.len() && v[i].0 == m);
                if i < prev.len() {
                    assert(has_module(prev, m));
                    assert(ns.drop_last().contains(m));
                    let k = choose|k: int| 0 <= k < ns.drop_last().len() && ns.drop_last()[k] == m;
                    assert(ns[k] == m);
                } else {
                    assert(v[i].0 == ns.last());
                    assert(ns[ns.len() - 1] == m);
                }
                assert(ns.contains(m));
            }
            if ns.contains(m) {
                let k = choose|k: int| 0 <= k < ns.len() && ns[k] == m;
                if k < ns.len() - 1 {
                    assert(ns.drop_last()[k] == m);
                    assert(ns.drop_last().contains(m));
                    assert(has_module(prev, m));
                    let i = index_of(prev, m);
                    assert(0 <= i < prev.len() && prev[i].0 == m);
                    if v != prev {
                        assert(v[i] == prev[i]);
                    }
                    assert(has_module(v, m));
                } else {
                    if has_module(prev, m) {
                        let i = index_of(prev, m);
                        assert(0 <= i < prev.len() && prev[i].0 == m);
                        if v != prev {
                            assert(v[i] == prev[i]);
                        }
                        assert(has_module(v, m));
                    } else {
                        assert(v[v.len() - 1].0 == m);
                        assert(has_module(v, m));
                    }
                }
            }
        }
        assert(wf_view(v)) by {
            assert forall|a: int, b: int|
                0 <= a < v.len() && 0 <= b < v.len() && a != b implies (#[trigger] v[a]).0 != (
            #[trigger] v[b]).0 by {
                if a < prev.len() && b < prev.len() {
                    assert(prev[a].0 != prev[b].0);
                } else if a < prev.len() {
                    assert(!has_module(prev, v[b].0));
                    assert(prev[a] == v[a]);
                    lemma_index_of_unique(prev, prev[a].0, a);
                } else if b < prev.len() {
                    assert(!has_module(prev, v[a].0));
                    assert(prev[b] == v[b]);
                    lemma_index_of_unique(prev, prev[b].0, b);
                }
            }
        }
    }
}

/// After `stop_all`, nothing is running, and which modules exist is
/// unchanged, in unchanged order.
pub proof fn lemma_all_stopped(v: RegView)
    requires
        wf_view(v),
    ensures
        wf_view(all_stopped(v)),
        all_stopped(v).len() == v.len(),
        forall|j: int| 0 <= j < v.len() ==> #[trigger] all_stopped(v)[j] == (v[j].0, false),
        forall|m: Seq<char>| #[trigger] has_module(all_stopped(v), m) == has_module(v, m),
        forall|m: Seq<char>|
            has_module(v, m) ==> !(#[trigger] running_of(all_stopped(v), m)),
{
    let w = all_stopped(v);
    assert forall|m: Seq<char>| #[trigger] has_module(w, m) == has_module(v, m) by {
        if has_module(v, m) {
            let i = index_of(v, m);
            assert(0 <= i < v.len() && v[i].0 == m);
            assert(w[i].0 == m);
            assert(has_module(w, m));
        }
        if has_module(w, m) {
            let i = index_of(w, m);
            assert(0 <= i < w.len() && w[i].0 == m);
            assert(v[i].0 == m);
            assert(has_module(v, m));
        }
    }
    assert forall|m: Seq<char>| has_module(v, m) implies !(#[trigger] running_of(w, m)) by {
        assert(has_module(w, m));
        let i = index_of(w, m);
        assert(0 <= i < w.len() && w[i].0 == m);
        assert(!w[i].1);
    }
}

} // verus!
