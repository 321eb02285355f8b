//! Decisions of the shell's event loop: the control flow requested by the
//! application, and the session lock.
use vstd::prelude::*;

verus! {

/// How the event loop proceeds after an iteration.
#[derive(Debug, Clone, Copy, PartialEq, Eq, Structural)]
pub enum ControlFlow {
    /// Run the next iteration at once.
    Poll,
    /// Wait for the next event.
    Wait,
    /// Stop, exiting with the given code.
    ExitWithCode(i32),
}

/// Hands the control flow to `callback`. Once an exit was requested it sticks:
/// the callback then sees a copy of the exit request and its answer is dropped.
pub fn sticky_exit_callback<F: FnOnce(ControlFlow) -> ControlFlow>(control_flow: &mut ControlFlow, callback: F)
    requires
        callback.requires((*old(control_flow),)),
    ensures
        *old(control_flow) is ExitWithCode ==> *final(control_flow) == *old(control_flow),
        !(*old(control_flow) is ExitWithCode) ==> callback.ensures((*old(control_flow),), *final(control_flow)),
{
    if let ControlFlow::ExitWithCode(code) = *control_flow {
        let _ = callback(ControlFlow::ExitWithCode(code));
    } else {
        *control_flow = callback(*control_flow);
    }
}

/// A session lock request from the application.
#[derive(Debug, Clone, Copy, PartialEq, Eq, Structural)]
pub enum SessionLockAction {
    /// Lock the session.
    Lock,
    /// Unlock the session.
    Unlock,
    /// Create a lock surface with the given id on the given output.
    LockSurface { id: u64, output: u32 },
    /// Destroy the lock surface with the given id.
    DestroyLockSurface { id: u64 },
}

/// What the shell does with the compositor for a session lock request.
#[derive(Debug, Clone, Copy, PartialEq, Eq, Structural)]
pub enum LockStep {
    /// Nothing to do.
    Nothing,
    /// Ask the compositor to lock; report the outcome with [`SessionLock::lock_result`].
    RequestLock,
    /// Release the lock if one is held, then wait for the compositor to
    /// process it (a roundtrip) before reporting that the session is unlocked,
    /// so that the process cannot exit before the unlock lands.
    Unlock { release: bool },
    /// Create the lock surface; once it exists, record it with [`SessionLock::surface_created`].
    CreateSurface { id: u64, output: u32 },
    /// Report that the lock surface is done.
    SurfaceDone { id: u64 },
}

/// The session lock as the shell holds it: whether a lock is held, and the
/// ids of the live lock surfaces.
#[derive(Debug)]
pub struct SessionLock {
    held: bool,
    surfaces: Vec<u64>,
}

impl SessionLock {
    pub closed spec fn held(&self) -> bool {
        self.held
    }

    pub closed spec fn surfaces(&self) -> Seq<u64> {
        self.surfaces@
    }

    /// No lock and no lock surface.
    pub fn new() -> (r: Self)
        ensures
            !r.held(),
            r.surfaces() == Seq::<u64>::empty(),
    {
        SessionLock { held: false, surfaces: Vec::new() }
    }

    /// Whether a lock is held.
    pub fn is_locked(&self) -> (r: bool)
        ensures
            r == self.held(),
    {
        self.held
    }

    /// Decides what a request asks of the compositor, and updates the lock.
    pub fn on_action(&mut self, action: SessionLockAction) -> (r: LockStep)
        ensures
            match action {
                SessionLockAction::Lock => {
                    &&& r == (if old(self).held() { LockStep::Nothing } else { LockStep::RequestLock })
                    &&& final(self).held() == old(self).held()
                    &&& final(self).surfaces() == old(self).surfaces()
                },
                SessionLockAction::Unlock => {
                    &&& r == LockStep::Unlock { release: old(self).held() }
                    &&& !final(self).held()
                    &&& final(self).surfaces() == old(self).surfaces()
                },
                SessionLockAction::LockSurface { id, output } => {
                    &&& r == LockStep::CreateSurface { id, output }
                    &&& final(self).held() == old(self).held()
                    &&& final(self).surfaces() == old(self).surfaces()
                },
                SessionLockAction::DestroyLockSurface { id } => {
                    &&& final(self).held() == old(self).held()
                    &&& if old(self).surfaces().contains(id) {
                        let i = choose|i: int| 0 <= i < old(self).surfaces().len() && old(self).surfaces()[i] == id
                            && forall|j: int| 0 <= j < i ==> old(self).surfaces()[j] != id;
                        &&& r == LockStep::SurfaceDone { id }
                        &&& final(self).surfaces() == old(self).surfaces().remove(i)
                    } else {
                        &&& r == LockStep::Nothing
                        &&& final(self).surfaces() == old(self).surfaces()
                    }
                },
            },
    {
        match action {
            SessionLockAction::Lock => {
                if self.held {
                    LockStep::Nothing
                } else {
                    LockStep::RequestLock
                }
            },
            SessionLockAction::Unlock => {
                let release = self.held;
                self.held = false;
                LockStep::Unlock { release }
            },
            SessionLockAction::LockSurface { id, output } => LockStep::CreateSurface { id, output },
            SessionLockAction::DestroyLockSurface { id } => {
                let mut i: usize = 0;
                while i < self.surfaces.len()
                    invariant
                        i <= self.surfaces.len(),
                        self.surfaces@ == old(self).surfaces@,
                        self.held == old(self).held,
                        action == (SessionLockAction::DestroyLockSurface { id }),
                        forall|j: int| 0 <= j < i ==> self.surfaces@[j] != id,
                    decreases self.surfaces.len() - i,
                {
                    if self.surfaces[i] == id {
                        let ghost s0 = self.surfaces@;
                        assert(s0.contains(id));
                        let ghost c = choose|c: int| 0 <= c < s0.len() && s0[c] == id && forall|j: int| 0 <= j < c ==> s0[j] != id;
                        assert(0 <= i < s0.len() && s0[i as int] == id && forall|j: int| 0 <= j < i ==> s0[j] != id);
                        assert(c == i as int) by {
                            if c < i as int {
                                assert(s0[c] != id);
                            } else if c > i as int {
                                assert(s0[i as int] != id);
                            }
                        }
                        self.surfaces.remove(i);
                        return LockStep::SurfaceDone { id };
                    }
                    i = i + 1;
                }
                assert(!self.surfaces@.contains(id));
                LockStep::Nothing
            },
        }
    }

    /// The compositor answered a lock request: `ok` when the lock is held.
    pub fn lock_result(&mut self, ok: bool)
        ensures
            final(self).held() == (old(self).held() || ok),
            final(self).surfaces() == old(self).surfaces(),
    {
        if ok {
            self.held = true;
        }
    }

    /// A lock surface with the given id now exists.
    pub fn surface_created(&mut self, id: u64)
        ensures
            final(self).held() == old(self).held(),
            final(self).surfaces() == old(self).surfaces().push(id),
    {
        self.surfaces.push(id);
    }
}


/// `s` with each run of equal neighbours kept once.
pub open spec fn dedup_spec(s: Seq<u32>) -> Seq<u32>
    decreases s.len(),
{
    if s.len() == 0 {
        s
    } else {
        let p = dedup_spec(s.drop_last());
        if p.len() > 0 && p.last() == s.last() {
            p
        } else {
            p.push(s.last())
        }
    }
}

/// The redraws requested while one batch of events is handled. They are only
/// handed out when the batch is over, so that every surface is redrawn from
/// the state left by the whole batch.
#[derive(Debug)]
pub struct RedrawBatch {
    pending: Vec<u32>,
}

impl RedrawBatch {
    /// The requests so far, in order, by surface object id.
    pub closed spec fn requests(&self) -> Seq<u32> {
        self.pending@
    }

    /// A batch with no request yet.
    pub fn new() -> (r: Self)
        ensures
            r.requests() == Seq::<u32>::empty(),
    {
        RedrawBatch { pending: Vec::new() }
    }

    /// A redraw of the surface with object id `o` was requested.
    pub fn request(&mut self, o: u32)
        ensures
            final(self).requests() == old(self).requests().push(o),
    {
        self.pending.push(o);
    }

    /// Ends the batch: the surfaces to redraw, in order of request, with
    /// repeated neighbouring requests made once.
    pub fn finish(self) -> (r: Vec<u32>)
        ensures
            r@ == dedup_spec(self.requests()),
    {
        let mut out: Vec<u32> = Vec::new();
        let mut i: usize = 0;
        assert(self.pending@.take(0) =~= Seq::<u32>::empty());
        while i < self.pending.len()
            invariant
                i <= self.pending.len(),
                out@ == dedup_spec(self.pending@.take(i as int)),
            decreases self.pending.len() - i,
        {
            let x = self.pending[i];
            assert(self.pending@.take(i + 1).drop_last() =~= self.pending@.take(i as int));
            assert(self.pending@.take(i + 1).last() == x);
            let n = out.len();
            if n == 0 || out[n - 1] != x {
                out.push(x);
            }
            i = i + 1;
        }
        assert(self.pending@.take(i as int) =~= self.pending@);
        out
    }
}

} // verus!
