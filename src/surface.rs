//! The lifecycle of the surfaces a shell keeps alive: creation, configuration
//! and removal, decided from the platform's surface events.
use vstd::prelude::*;

verus! {

/// A surface id together with the role of the surface.
#[derive(Debug, Clone, Copy, PartialEq, Eq, Structural)]
pub enum SurfaceIdWrapper {
    LayerSurface(u64),
    Window(u64),
    Popup(u64),
    Dnd(u64),
    SessionLock(u64),
}

/// The surface id inside a wrapper.
pub open spec fn inner_id(w: SurfaceIdWrapper) -> u64 {
    match w {
        SurfaceIdWrapper::LayerSurface(i) => i,
        SurfaceIdWrapper::Window(i) => i,
        SurfaceIdWrapper::Popup(i) => i,
        SurfaceIdWrapper::Dnd(i) => i,
        SurfaceIdWrapper::SessionLock(i) => i,
    }
}

impl SurfaceIdWrapper {
    /// The surface id, whatever the role.
    pub fn inner(&self) -> (r: u64)
        ensures
            r == inner_id(*self),
    {
        match self {
            SurfaceIdWrapper::LayerSurface(i) => *i,
            SurfaceIdWrapper::Window(i) => *i,
            SurfaceIdWrapper::Popup(i) => *i,
            SurfaceIdWrapper::Dnd(i) => *i,
            SurfaceIdWrapper::SessionLock(i) => *i,
        }
    }
}

/// A live surface: its protocol object id, its id and role, and whether it has
/// been configured (and so has a drawable and a user interface).
#[derive(Debug, Clone, Copy, PartialEq, Eq, Structural)]
pub struct LiveSurface {
    pub object: u32,
    pub id: SurfaceIdWrapper,
    pub configured: bool,
}

/// What a configure event asks the shell to do for a known surface.
#[derive(Debug, Clone, Copy, PartialEq, Eq, Structural)]
pub struct ConfigureSteps {
    /// Create the drawable: the surface had none yet.
    pub create_surface: bool,
    /// Build the user interface: this is the surface's first configure.
    pub build_interface: bool,
}

/// What removing a surface leads to.
#[derive(Debug, Clone, Copy, PartialEq, Eq, Structural)]
pub struct Removal {
    /// The surface removed, if the object was a live surface.
    pub removed: Option<SurfaceIdWrapper>,
    /// Whether the run loop should end.
    pub exit: bool,
}

/// Whether a live surface belongs to the object `o`.
pub open spec fn has_object(s: Seq<LiveSurface>, o: u32) -> bool {
    exists|i: int| 0 <= i < s.len() && (#[trigger] s[i]).object == o
}

/// The position of the live surface of the object `o`.
pub open spec fn object_idx(s: Seq<LiveSurface>, o: u32) -> int {
    choose|i: int| 0 <= i < s.len() && (#[trigger] s[i]).object == o
}

/// No object has two live surfaces.
pub open spec fn objects_unique(s: Seq<LiveSurface>) -> bool {
    forall|i: int, j: int| 0 <= i < s.len() && 0 <= j < s.len() && i != j ==> (#[trigger] s[i]).object != (#[trigger] s[j]).object
}

/// Whether closing a surface of this role may end the run loop.
pub open spec fn closes_app(w: SurfaceIdWrapper) -> bool {
    w is Window || w is LayerSurface
}

/// The live surfaces after a creation event: the object now names `id`, unconfigured.
pub open spec fn created_spec(s: Seq<LiveSurface>, o: u32, id: SurfaceIdWrapper) -> Seq<LiveSurface> {
    let e = LiveSurface { object: o, id, configured: false };
    if has_object(s, o) {
        s.update(object_idx(s, o), e)
    } else {
        s.push(e)
    }
}

/// The live surfaces left after the drag-and-drop icons are dropped.
pub open spec fn without_dnd(s: Seq<LiveSurface>) -> Seq<LiveSurface>
    decreases s.len(),
{
    if s.len() == 0 {
        s
    } else {
        let p = without_dnd(s.drop_last());
        if s.last().id is Dnd {
            p
        } else {
            p.push(s.last())
        }
    }
}

/// The drag-and-drop icons among the live surfaces, as destroyed entries.
pub open spec fn dnd_only(s: Seq<LiveSurface>) -> Seq<(u32, SurfaceIdWrapper)>
    decreases s.len(),
{
    if s.len() == 0 {
        seq![]
    } else {
        let p = dnd_only(s.drop_last());
        if s.last().id is Dnd {
            p.push((s.last().object, s.last().id))
        } else {
            p
        }
    }
}

/// The surfaces of one shell, keyed by protocol object id.
#[derive(Debug)]
pub struct Surfaces {
    live: Vec<LiveSurface>,
    destroyed: Vec<(u32, SurfaceIdWrapper)>,
}

impl Surfaces {
    pub closed spec fn live(&self) -> Seq<LiveSurface> {
        self.live@
    }

    /// The surfaces removed so far, in order of removal.
    pub closed spec fn destroyed(&self) -> Seq<(u32, SurfaceIdWrapper)> {
        self.destroyed@
    }

    pub open spec fn wf(&self) -> bool {
        objects_unique(self.live())
    }

    /// No surface yet.
    pub fn new() -> (r: Self)
        ensures
            r.wf(),
            r.live() == Seq::<LiveSurface>::empty(),
            r.destroyed() == Seq::<(u32, SurfaceIdWrapper)>::empty(),
    {
        Surfaces { live: Vec::new(), destroyed: Vec::new() }
    }

    /// The number of live surfaces.
    pub fn len(&self) -> (r: usize)
        ensures
            r == self.live().len(),
    {
        self.live.len()
    }

    fn position(&self, o: u32) -> (r: Option<usize>)
        requires
            self.wf(),
        ensures
            match r {
                Some(i) => has_object(self.live(), o) && i as int == object_idx(self.live(), o) && i < self.live().len(),
                None => !has_object(self.live(), o),
            },
    {
        let mut i: usize = 0;
        while i < self.live.len()
            invariant
                i <= self.live.len(),
                self.wf(),
                forall|j: int| 0 <= j < i ==> (#[trigger] self.live@[j]).object != o,
            decreases self.live.len() - i,
        {
            if self.live[i].object == o {
                let ghost c = object_idx(self.live(), o);
                assert(self.live@[i as int].object == o);
                assert(0 <= c < self.live@.len() && self.live@[c].object == o);
                assert(c == i as int) by {
                    if c != i as int {
                        assert(self.live@[c].object != self.live@[i as int].object);
                    }
                }
                return Some(i);
            }
            i = i + 1;
        }
        None
    }

    /// The surface the object belongs to.
    pub fn get(&self, o: u32) -> (r: Option<LiveSurface>)
        requires
            self.wf(),
        ensures
            match r {
                Some(l) => has_object(self.live(), o) && l == self.live()[object_idx(self.live(), o)],
                None => !has_object(self.live(), o),
            },
    {
        match self.position(o) {
            Some(i) => Some(self.live[i]),
            None => None,
        }
    }

    /// Whether a redraw requested for the object `o` is carried out: only for
    /// a live surface that is not a drag icon (drag icons are drawn once, when
    /// the drag starts, and never redrawn).
    pub fn may_redraw(&self, o: u32) -> (r: bool)
        requires
            self.wf(),
        ensures
            r == (has_object(self.live(), o) && !(self.live()[object_idx(self.live(), o)].id is Dnd)),
    {
        match self.position(o) {
            Some(i) => match self.live[i].id {
                SurfaceIdWrapper::Dnd(_) => false,
                _ => true,
            },
            None => false,
        }
    }

    /// A surface was created for the object `o`.
    pub fn created(&mut self, o: u32, id: SurfaceIdWrapper)
        requires
            old(self).wf(),
        ensures
            final(self).wf(),
            final(self).live() == created_spec(old(self).live(), o, id),
            final(self).destroyed() == old(self).destroyed(),
    {
        let e = LiveSurface { object: o, id, configured: false };
        match self.position(o) {
            Some(i) => {
                self.live.set(i, e);
                assert forall|a: int, b: int| 0 <= a < self.live@.len() && 0 <= b < self.live@.len() && a != b implies (#[trigger] self.live@[a]).object != (#[trigger] self.live@[b]).object by {
                    if a != i as int && b != i as int {
                        assert(old(self).live@[a] == self.live@[a] && old(self).live@[b] == self.live@[b]);
                    } else if a == i as int {
                        assert(old(self).live@[b] == self.live@[b]);
                        assert(old(self).live@[i as int].object == o);
                    } else {
                        assert(old(self).live@[a] == self.live@[a]);
                        assert(old(self).live@[i as int].object == o);
                    }
                }
            },
            None => {
                self.live.push(e);
                assert forall|a: int, b: int| 0 <= a < self.live@.len() && 0 <= b < self.live@.len() && a != b implies (#[trigger] self.live@[a]).object != (#[trigger] self.live@[b]).object by {
                    let n = old(self).live@.len() as int;
                    if a < n && b < n {
                        assert(old(self).live@[a] == self.live@[a] && old(self).live@[b] == self.live@[b]);
                    } else if a < n {
                        assert(old(self).live@[a] == self.live@[a]);
                        assert(!(0 <= a < n && old(self).live@[a].object == o));
                    } else {
                        assert(old(self).live@[b] == self.live@[b]);
                        assert(!(0 <= b < n && old(self).live@[b].object == o));
                    }
                }
            },
        }
    }

    /// A configure event arrived for the object `o`. For an unknown object it
    /// is ignored; otherwise the surface is marked configured, and the steps say
    /// whether its drawable must be created and its interface built.
    pub fn configure(&mut self, o: u32, first: bool) -> (r: Option<ConfigureSteps>)
        requires
            old(self).wf(),
        ensures
            final(self).wf(),
            final(self).destroyed() == old(self).destroyed(),
            !has_object(old(self).live(), o) ==> r is None && final(self).live() == old(self).live(),
            has_object(old(self).live(), o) ==> {
                let i = object_idx(old(self).live(), o);
                let l = old(self).live()[i];
                &&& r == Some(ConfigureSteps { create_surface: !l.configured, build_interface: first })
                &&& final(self).live() == old(self).live().update(i, LiveSurface { configured: true, ..l })
            },
    {
        match self.position(o) {
            Some(i) => {
                let l = self.live[i];
                self.live.set(i, LiveSurface { object: l.object, id: l.id, configured: true });
                assert forall|a: int, b: int| 0 <= a < self.live@.len() && 0 <= b < self.live@.len() && a != b implies (#[trigger] self.live@[a]).object != (#[trigger] self.live@[b]).object by {
                    assert(self.live@[a].object == old(self).live@[a].object);
                    assert(self.live@[b].object == old(self).live@[b].object);
                }
                Some(ConfigureSteps { create_surface: !l.configured, build_interface: first })
            },
            None => None,
        }
    }

    /// The object `o` was closed or is done. A live surface is removed and
    /// recorded as destroyed; the run loop ends when `exit_on_close_request`
    /// is set, the surface was a window or layer surface, and none is left.
    pub fn remove(&mut self, o: u32, exit_on_close_request: bool) -> (r: Removal)
        requires
            old(self).wf(),
        ensures
            final(self).wf(),
            !has_object(old(self).live(), o) ==> {
                &&& r == Removal { removed: None, exit: false }
                &&& final(self).live() == old(self).live()
                &&& final(self).destroyed() == old(self).destroyed()
            },
            has_object(old(self).live(), o) ==> {
                let i = object_idx(old(self).live(), o);
                let l = old(self).live()[i];
                &&& final(self).live() == old(self).live().remove(i)
                &&& final(self).destroyed() == old(self).destroyed().push((o, l.id))
                &&& r == Removal {
                    removed: Some(l.id),
                    exit: exit_on_close_request && closes_app(l.id) && old(self).live().len() == 1,
                }
            },
    {
        match self.position(o) {
            Some(i) => {
                let l = self.live.remove(i);
                self.destroyed.push((o, l.id));
                assert forall|a: int, b: int| 0 <= a < self.live@.len() && 0 <= b < self.live@.len() && a != b implies (#[trigger] self.live@[a]).object != (#[trigger] self.live@[b]).object by {
                    let a2 = if a < i { a } else { a + 1 };
                    let b2 = if b < i { b } else { b + 1 };
                    assert(self.live@[a] == old(self).live@[a2]);
                    assert(self.live@[b] == old(self).live@[b2]);
                }
                let closes = match l.id {
                    SurfaceIdWrapper::Window(_) => true,
                    SurfaceIdWrapper::LayerSurface(_) => true,
                    _ => false,
                };
                Removal { removed: Some(l.id), exit: exit_on_close_request && closes && self.live.len() == 0 }
            },
            None => Removal { removed: None, exit: false },
        }
    }

    /// The drag-and-drop operation finished or was cancelled: every drag icon
    /// surface is removed and recorded as destroyed.
    pub fn drop_dnd_icons(&mut self)
        requires
            old(self).wf(),
        ensures
            final(self).wf(),
            final(self).live() == without_dnd(old(self).live()),
            final(self).destroyed() == old(self).destroyed() + dnd_only(old(self).live()),
    {
        let ghost s0 = self.live@;
        let ghost d0 = self.destroyed@;
        let mut kept: Vec<LiveSurface> = Vec::new();
        let mut k: usize = 0;
        while k < self.live.len()
            invariant
                k <= self.live.len(),
                self.live@ == s0,
                objects_unique(s0),
                kept@ == without_dnd(s0.take(k as int)),
                self.destroyed@ == d0 + dnd_only(s0.take(k as int)),
                forall|a: int| 0 <= a < kept.len() ==> exists|b: int| 0 <= b < k && (#[trigger] kept@[a]) == s0[b],
                forall|a: int, b: int| 0 <= a < kept.len() && 0 <= b < kept.len() && a < b ==> exists|x: int, y: int|
                    0 <= x < y < k && #[trigger] kept@[a] == s0[x] && #[trigger] kept@[b] == s0[y],
            decreases self.live.len() - k,
        {
            let l = self.live[k];
            assert(s0.take(k + 1).drop_last() =~= s0.take(k as int));
            assert(s0.take(k + 1).last() == l);
            let ghost kept_before = kept@;
            match l.id {
                SurfaceIdWrapper::Dnd(_) => {
                    self.destroyed.push((l.object, l.id));
                },
                _ => {
                    kept.push(l);
                    assert forall|a: int| 0 <= a < kept.len() implies exists|b: int| 0 <= b < k + 1 && (#[trigger] kept@[a]) == s0[b] by {
                        if a < kept_before.len() {
                            assert(kept@[a] == kept_before[a]);
                        } else {
                            assert(kept@[a] == s0[k as int]);
                        }
                    }
                    assert forall|a: int, b: int| 0 <= a < kept.len() && 0 <= b < kept.len() && a < b implies exists|x: int, y: int|
                        0 <= x < y < k + 1 && #[trigger] kept@[a] == s0[x] && #[trigger] kept@[b] == s0[y] by {
                        if b < kept_before.len() {
                            assert(kept@[a] == kept_before[a] && kept@[b] == kept_before[b]);
                        } else {
                            assert(kept@[a] == kept_before[a]);
                            let x = choose|x: int| 0 <= x < k && kept_before[a] == s0[x];
                            assert(kept@[b] == s0[k as int]);
                            assert(0 <= x < k as int && kept@[a] == s0[x]);
                        }
                    }
                },
            }
            k = k + 1;
            assert(self.destroyed@ =~= d0 + dnd_only(s0.take(k as int)));
        }
        assert(s0.take(k as int) =~= s0);
        assert forall|a: int, b: int| 0 <= a < kept.len() && 0 <= b < kept.len() && a != b implies (#[trigger] kept@[a]).object != (#[trigger] kept@[b]).object by {
            if a < b {
                let (x, y) = choose|x: int, y: int| 0 <= x < y < k && kept@[a] == s0[x] && kept@[b] == s0[y];
                assert(s0[x].object != s0[y].object);
            } else {
                let (x, y) = choose|x: int, y: int| 0 <= x < y < k && kept@[b] == s0[x] && kept@[a] == s0[y];
                assert(s0[x].object != s0[y].object);
            }
        }
        self.live = kept;
    }
}


/// Which surfaces a platform event concerns, as routing sees it.
#[derive(Debug, Clone, Copy, PartialEq, Eq, Structural)]
pub enum EventRoute {
    /// The surface with this protocol object id (windows, layer surfaces,
    /// popups, lock surfaces, scale changes, seats, keyboard leave).
    Object(u32),
    /// The surface with this object id, or the surface owning a subsurface
    /// with this id (pointer, touch and drag-and-drop offer events).
    ObjectOrSubsurface(u32),
    /// The surface with keyboard focus (keyboard events other than leave).
    KeyboardFocus,
    /// Every surface (data source events).
    All,
    /// No surface (output and global session lock events).
    Nowhere,
}

/// Whether an event is broadcast to every surface.
pub fn event_is_for_all_surfaces(route: &EventRoute) -> (r: bool)
    ensures
        r == (*route is All),
{
    match route {
        EventRoute::All => true,
        _ => false,
    }
}

/// Whether an event concerns the surface with object id `object_id`, whose
/// subsurfaces have the ids `subsurfaces`.
pub fn event_is_for_surface(route: &EventRoute, object_id: u32, subsurfaces: &Vec<u32>, has_kbd_focus: bool) -> (r: bool)
    ensures
        r == match *route {
            EventRoute::Object(o) => o == object_id,
            EventRoute::ObjectOrSubsurface(o) => o == object_id || subsurfaces@.contains(o),
            EventRoute::KeyboardFocus => has_kbd_focus,
            EventRoute::All => true,
            EventRoute::Nowhere => false,
        },
{
    match route {
        EventRoute::Object(o) => *o == object_id,
        EventRoute::ObjectOrSubsurface(o) => {
            if *o == object_id {
                return true;
            }
            let mut i: usize = 0;
            while i < subsurfaces.len()
                invariant
                    i <= subsurfaces.len(),
                    *route == EventRoute::ObjectOrSubsurface(*o),
                    *o != object_id,
                    forall|j: int| 0 <= j < i ==> subsurfaces@[j] != *o,
                decreases subsurfaces.len() - i,
            {
                if subsurfaces[i] == *o {
                    assert(subsurfaces@[i as int] == *o);
                    return true;
                }
                i = i + 1;
            }
            false
        },
        EventRoute::KeyboardFocus => has_kbd_focus,
        EventRoute::All => true,
        EventRoute::Nowhere => false,
    }
}

} // verus!
