//! Persistent widget state trees and their reconciliation.
use vstd::prelude::*;
use crate::id::{Id, Internal, name_of, same_id};
use crate::tag::Tag;

verus! {

/// The internal state of a widget.
#[derive(Debug, Clone, Copy)]
pub enum State<S> {
    /// No meaningful internal state.
    Empty,
    /// Some meaningful internal state.
    Value(S),
}

impl<S> State<S> {
    /// Creates a new [`State`] holding `state`.
    pub fn new(state: S) -> (r: Self)
        ensures
            r == State::Value(state),
    {
        State::Value(state)
    }

    /// Returns a reference to the held state.
    pub fn downcast_ref(&self) -> (r: &S)
        requires
            self is Value,
        ensures
            *self == State::Value(*r),
    {
        match self {
            State::Value(s) => s,
            State::Empty => vstd::pervasive::unreached(),
        }
    }

    /// Returns a mutable reference to the held state.
    pub fn downcast_mut(&mut self) -> (r: &mut S)
        requires
            *old(self) is Value,
        ensures
            *old(self) == State::Value(*r),
            *final(self) == State::Value(*final(r)),
    {
        match self {
            State::Value(s) => s,
            State::Empty => vstd::pervasive::unreached(),
        }
    }
}

/// A tree as a mathematical value: a widget description or a state tree.
pub struct Node<S> {
    pub tag: Tag,
    pub id: Option<Id>,
    pub state: State<S>,
    pub children: Seq<Node<S>>,
}

/// What the named-state registry holds for one name: the detached state and
/// the detached unnamed children, each with its position under the named node.
pub type Entry<S> = (Seq<char>, State<S>, Seq<(usize, Node<S>)>);

/// A widget description: the shape a state tree is reconciled against.
///
/// `state` is the state that a freshly created node for this widget starts with.
#[derive(Debug)]
pub struct Element<S> {
    pub tag: Tag,
    pub id: Option<Id>,
    pub state: State<S>,
    pub children: Vec<Element<S>>,
}

/// A persistent state widget tree.
#[derive(Debug)]
pub struct Tree<S> {
    /// The tag of the state held here.
    pub tag: Tag,
    /// The identifier of the widget this node belongs to.
    pub id: Option<Id>,
    /// The state of the widget.
    pub state: State<S>,
    /// The state trees of the widget's children.
    pub children: Vec<Tree<S>>,
}

impl<S> Element<S> {
    pub open spec fn view(self) -> Node<S>
        decreases self,
    {
        Node {
            tag: self.tag,
            id: self.id,
            state: self.state,
            children: Seq::new(
                self.children.len() as nat,
                |i: int| if 0 <= i < self.children.len() { self.children@[i].view() } else { arbitrary() },
            ),
        }
    }
}

impl<S> Tree<S> {
    pub open spec fn view(self) -> Node<S>
        decreases self,
    {
        Node {
            tag: self.tag,
            id: self.id,
            state: self.state,
            children: Seq::new(
                self.children.len() as nat,
                |i: int| if 0 <= i < self.children.len() { self.children@[i].view() } else { arbitrary() },
            ),
        }
    }
}

/// The models of a sequence of state trees.
pub open spec fn trees_view<S>(v: Seq<Tree<S>>) -> Seq<Node<S>> {
    Seq::new(v.len(), |i: int| v[i]@)
}

/// The models of a sequence of widget descriptions.
pub open spec fn elements_view<S>(v: Seq<Element<S>>) -> Seq<Node<S>> {
    Seq::new(v.len(), |i: int| v[i]@)
}

/// Whether the registry holds an entry named `n`.
pub open spec fn reg_has<S>(r: Seq<Entry<S>>, n: Seq<char>) -> bool {
    exists|i: int| 0 <= i < r.len() && (#[trigger] r[i]).0 == n
}

/// The position of the entry named `n`.
pub open spec fn reg_idx<S>(r: Seq<Entry<S>>, n: Seq<char>) -> int {
    choose|i: int| 0 <= i < r.len() && (#[trigger] r[i]).0 == n
}

/// No name occurs twice in the registry.
pub open spec fn reg_unique<S>(r: Seq<Entry<S>>) -> bool {
    forall|i: int, j: int| 0 <= i < r.len() && 0 <= j < r.len() && i != j ==> (#[trigger] r[i]).0 != (#[trigger] r[j]).0
}

/// Stores `st` under `n` with no children recorded yet, replacing any earlier entry.
pub open spec fn reg_insert<S>(r: Seq<Entry<S>>, n: Seq<char>, st: State<S>) -> Seq<Entry<S>> {
    if reg_has(r, n) {
        r.update(reg_idx(r, n), (n, st, seq![]))
    } else {
        r.push((n, st, seq![]))
    }
}

/// Records child `c` at position `k` under the entry named `n`.
pub open spec fn reg_record<S>(r: Seq<Entry<S>>, n: Seq<char>, k: usize, c: Node<S>) -> Seq<Entry<S>> {
    if reg_has(r, n) {
        let i = reg_idx(r, n);
        r.update(i, (n, r[i].1, r[i].2.push((k, c))))
    } else {
        r
    }
}

/// Removes the entry named `n`, if any.
pub open spec fn reg_remove<S>(r: Seq<Entry<S>>, n: Seq<char>) -> Seq<Entry<S>> {
    if reg_has(r, n) {
        r.remove(reg_idx(r, n))
    } else {
        r
    }
}

/// The detached state of one named widget.
#[derive(Debug)]
pub struct NamedState<S> {
    /// The widget's name.
    pub name: String,
    /// The widget's state.
    pub state: State<S>,
    /// The widget's unnamed children, each with its position under the widget.
    pub children: Vec<(usize, Tree<S>)>,
}

impl<S> NamedState<S> {
    pub open spec fn view(self) -> Entry<S> {
        (self.name@, self.state, Seq::new(self.children.len() as nat, |j: int| (self.children@[j].0, self.children@[j].1@)))
    }
}

/// The named widget states detached from a tree, keyed by name.
#[derive(Debug)]
pub struct Named<S> {
    entries: Vec<NamedState<S>>,
}

impl<S> Named<S> {
    pub closed spec fn view(self) -> Seq<Entry<S>> {
        Seq::new(self.entries.len() as nat, |i: int| self.entries@[i]@)
    }

    /// No name occurs twice.
    pub open spec fn wf(self) -> bool {
        reg_unique(self@)
    }

    /// Creates an empty registry.
    pub fn new() -> (r: Self)
        ensures
            r@ == Seq::<Entry<S>>::empty(),
            r.wf(),
    {
        let r = Named { entries: Vec::new() };
        assert(r@ =~= Seq::<Entry<S>>::empty());
        r
    }

    /// The number of names held.
    pub fn len(&self) -> (r: usize)
        ensures
            r == self@.len(),
    {
        self.entries.len()
    }

    /// Whether no name is held.
    pub fn is_empty(&self) -> (r: bool)
        ensures
            r == (self@.len() == 0),
    {
        self.entries.len() == 0
    }

    /// The position of the entry named `n`.
    fn position(&self, n: &String) -> (r: Option<usize>)
        requires
            self.wf(),
        ensures
            match r {
                Some(i) => reg_has(self@, n@) && i as int == reg_idx(self@, n@) && i < self@.len(),
                None => !reg_has(self@, n@),
            },
    {
        let mut i: usize = 0;
        while i < self.entries.len()
            invariant
                i <= self.entries.len(),
                self.wf(),
                forall|j: int| 0 <= j < i ==> (#[trigger] self@[j]).0 != n@,
            decreases self.entries.len() - i,
        {
            if self.entries[i].name == *n {
                assert(self@[i as int].0 == n@);
                assert(reg_has(self@, n@));
                let ghost c = reg_idx(self@, n@);
                assert(0 <= c < self@.len() && self@[c].0 == n@);
                assert(c == i as int) by {
                    if c != i as int {
                        assert(self@[c].0 != self@[i as int].0);
                    }
                }
                return Some(i);
            }
            i = i + 1;
        }
        None
    }

    /// Looks up the entry named `n`.
    pub fn get(&self, n: &String) -> (r: Option<&NamedState<S>>)
        requires
            self.wf(),
        ensures
            match r {
                Some(e) => reg_has(self@, n@) && e@ == self@[reg_idx(self@, n@)],
                None => !reg_has(self@, n@),
            },
    {
        match self.position(n) {
            Some(i) => Some(&self.entries[i]),
            None => None,
        }
    }

    /// Stores `state` under `n` with no children yet, replacing an earlier entry of that name.
    pub fn insert(&mut self, n: String, state: State<S>)
        requires
            old(self).wf(),
        ensures
            final(self).wf(),
            final(self)@ == reg_insert(old(self)@, n@, state),
    {
        let ghost nm = n@;
        let e = NamedState { name: n, state, children: Vec::new() };
        assert(e@ =~= (nm, state, Seq::<(usize, Node<S>)>::empty()));
        match self.position(&e.name) {
            Some(i) => {
                self.entries.set(i, e);
                assert(self@ =~= reg_insert(old(self)@, nm, state));
            },
            None => {
                self.entries.push(e);
                assert(self@ =~= reg_insert(old(self)@, nm, state));
            },
        }
    }

    /// Records the detached child `c`, found at position `k`, under the entry named `n`.
    pub fn record(&mut self, n: &String, k: usize, c: Tree<S>)
        requires
            old(self).wf(),
        ensures
            final(self).wf(),
            final(self)@ == reg_record(old(self)@, n@, k, c@),
    {
        match self.position(n) {
            Some(i) => {
                let ghost old_e = self.entries@[i as int];
                self.entries[i].children.push((k, c));
                assert(self.entries@[i as int]@ =~= (n@, old_e@.1, old_e@.2.push((k, c@))));
                assert(self@ =~= reg_record(old(self)@, n@, k, c@));
            },
            None => {},
        }
    }

    /// Removes and returns the entry named `n`.
    pub fn remove(&mut self, n: &String) -> (r: Option<NamedState<S>>)
        requires
            old(self).wf(),
        ensures
            final(self).wf(),
            final(self)@ == reg_remove(old(self)@, n@),
            match r {
                Some(e) => reg_has(old(self)@, n@) && e@ == old(self)@[reg_idx(old(self)@, n@)],
                None => !reg_has(old(self)@, n@),
            },
    {
        match self.position(n) {
            Some(i) => {
                let e = self.entries.remove(i);
                assert(self@ =~= reg_remove(old(self)@, n@));
                Some(e)
            },
            None => None,
        }
    }
}

/// What stays in the tree in place of an unnamed child handed to the registry.
pub open spec fn placeholder<S>(c: Node<S>) -> Node<S> {
    Node { tag: c.tag, id: c.id, state: State::Empty, children: seq![] }
}

/// The tree and registry after extracting every named node of `t` into `r`.
pub open spec fn take_spec<S>(t: Node<S>, r: Seq<Entry<S>>) -> (Node<S>, Seq<Entry<S>>)
    decreases t, t.children.len() + 1,
{
    match name_of(t.id) {
        Some(n) => {
            let (cs, r2) = take_kids(t, Some(n), t.children.len() as int, reg_insert(r, n, t.state));
            (Node { tag: t.tag, id: t.id, state: State::Empty, children: cs }, r2)
        },
        None => {
            let (cs, r2) = take_kids(t, None, t.children.len() as int, r);
            (Node { tag: t.tag, id: t.id, state: t.state, children: cs }, r2)
        },
    }
}

/// The children of `t` and the registry after extracting from the first `k` children.
/// Under a named node (`owner`), each unnamed child is moved into the owner's entry.
pub open spec fn take_kids<S>(t: Node<S>, owner: Option<Seq<char>>, k: int, r: Seq<Entry<S>>) -> (
    Seq<Node<S>>,
    Seq<Entry<S>>,
)
    decreases t, k,
{
    if k <= 0 || k > t.children.len() {
        (t.children, r)
    } else {
        let (cs, r1) = take_kids(t, owner, k - 1, r);
        let (c2, r2) = take_spec(t.children[k - 1], r1);
        match owner {
            Some(n) => if name_of(t.children[k - 1].id) is None {
                (cs.update(k - 1, placeholder(c2)), reg_record(r2, n, (k - 1) as usize, c2))
            } else {
                (cs.update(k - 1, c2), r2)
            },
            None => (cs.update(k - 1, c2), r2),
        }
    }
}

/// The name of an optional identifier, as an owned string.
fn name_string(id: &Option<Id>) -> (r: Option<String>)
    ensures
        match r {
            Some(s) => name_of(*id) == Some(s@),
            None => name_of(*id) is None,
        },
{
    match id {
        Some(Id(Internal::Custom(_, n))) => Some(n.clone()),
        _ => None,
    }
}

/// Whether an optional identifier is a named one.
fn is_named(id: &Option<Id>) -> (r: bool)
    ensures
        r == (name_of(*id) is Some),
{
    match id {
        Some(Id(Internal::Custom(_, _))) => true,
        _ => false,
    }
}

impl<S> Tree<S> {
    /// Takes all named widgets from the tree.
    ///
    /// Each named node gives up its state, and each unnamed child of a named
    /// node is moved, with its whole subtree, into the registry under its
    /// parent's name, leaving an empty node with the same tag and id behind.
    /// Named nodes further down are extracted first, into entries of their own.
    pub fn take_all_named(&mut self) -> (r: Named<S>)
        ensures
            r.wf(),
            (final(self)@, r@) == take_spec(old(self)@, Seq::<Entry<S>>::empty()),
    {
        let mut named = Named::new();
        self.take_named_into(&mut named);
        named
    }

    /// Extracts the named nodes of this tree into `named`.
    pub fn take_named_into(&mut self, named: &mut Named<S>)
        requires
            old(named).wf(),
        ensures
            final(named).wf(),
            (final(self)@, final(named)@) == take_spec(old(self)@, old(named)@),
        decreases *old(self),
    {
        let ghost t0 = self@;
        let owner = name_string(&self.id);
        if let Some(n) = &owner {
            let mut st = State::Empty;
            std::mem::swap(&mut self.state, &mut st);
            named.insert(n.clone(), st);
        }
        let ghost r0 = named@;
        let ghost own: Option<Seq<char>> = match owner { Some(ref n) => Some(n@), None => None };
        assert(own == name_of(t0.id));
        assert(trees_view(self.children@) =~= t0.children);
        let mut k: usize = 0;
        while k < self.children.len()
            invariant
                k <= self.children.len(),
                self.children.len() == old(self).children.len(),
                self.tag == old(self).tag,
                self.id == old(self).id,
                t0 == old(self)@,
                named.wf(),
                own is Some ==> self.state == State::<S>::Empty,
                own is None ==> self.state == old(self).state,
                own matches Some(n) ==> r0 == reg_insert(old(named)@, n, old(self).state),
                own is None ==> r0 == old(named)@,
                match owner { Some(n) => own == Some(n@), None => own is None },
                forall|j: int| k <= j < self.children.len() ==> self.children@[j] == old(self).children@[j],
                (trees_view(self.children@), named@) == take_kids(t0, own, k as int, r0),
            decreases self.children.len() - k,
        {
            assert(t0.children[k as int] == old(self).children@[k as int]@);
            self.children[k].take_named_into(named);
            let unnamed = !is_named(&self.children[k].id);
            match &owner {
                Some(n) => {
                    if unnamed {
                        let hole = Tree {
                            tag: self.children[k].tag,
                            id: self.children[k].id.clone(),
                            state: State::Empty,
                            children: Vec::new(),
                        };
                        assert(hole@.children =~= Seq::<Node<S>>::empty());
                        let mut moved = hole;
                        std::mem::swap(&mut self.children[k], &mut moved);
                        named.record(n, k, moved);
                    }
                },
                None => {},
            }
            k = k + 1;
            assert(trees_view(self.children@) =~= take_kids(t0, own, k as int, r0).0);
        }
        let ghost cs = trees_view(self.children@);
        assert(self@.children =~= cs);
        assert(self.children.len() == t0.children.len());
    }
}

/// Puts detached children back at their recorded positions, in order.
pub open spec fn put_back<S>(cs: Seq<Node<S>>, kids: Seq<(usize, Node<S>)>) -> Seq<Node<S>>
    decreases kids.len(),
{
    if kids.len() == 0 {
        cs
    } else {
        let p = put_back(cs, kids.drop_last());
        let (i, c) = kids.last();
        if (i as int) < p.len() {
            p.update(i as int, c)
        } else {
            p
        }
    }
}

/// The last of the first `j` nodes that carries the name `n`.
pub open spec fn last_named_upto<S>(cs: Seq<Node<S>>, n: Seq<char>, j: int) -> Option<int>
    decreases j,
{
    if j <= 0 {
        None
    } else if name_of(cs[j - 1].id) == Some(n) {
        Some(j - 1)
    } else {
        last_named_upto(cs, n, j - 1)
    }
}

/// The positions, in order, of the unnamed nodes among the first `j`.
pub open spec fn unnamed_upto<S>(cs: Seq<Node<S>>, j: int) -> Seq<usize>
    decreases j,
{
    if j <= 0 {
        seq![]
    } else {
        let p = unnamed_upto(cs, j - 1);
        if name_of(cs[j - 1].id) is None {
            p.push((j - 1) as usize)
        } else {
            p
        }
    }
}

/// Inserts each new node at its index, in order.
pub open spec fn insert_all<S>(cs: Seq<Node<S>>, news: Seq<(Node<S>, int)>) -> Seq<Node<S>>
    decreases news.len(),
{
    if news.len() == 0 {
        cs
    } else {
        let (t, i) = news[0];
        let c1 = if 0 <= i <= cs.len() { cs.insert(i, t) } else { cs };
        insert_all(c1, news.drop_first())
    }
}

/// Where the reconciliation of a list of children stands after some of the new children.
pub struct KidState<S> {
    /// The old children, reconciled in place so far.
    pub cs: Seq<Node<S>>,
    /// The new children.
    pub es: Seq<Node<S>>,
    /// The named-state registry.
    pub reg: Seq<Entry<S>>,
    /// Which old named children have been matched by name.
    pub taken: Seq<bool>,
    /// How many old unnamed children have been paired off.
    pub p: int,
    /// The nodes created for new children that found no old one, with their index.
    pub news: Seq<(Node<S>, int)>,
}

/// Reconciliation of a state tree `t` against the widget `e`, with the
/// registry `r` of detached named states. Gives the new tree, the widget
/// (whose id may have been set from the tree) and the registry.
pub open spec fn diff_spec<S>(t: Node<S>, e: Node<S>, r: Seq<Entry<S>>) -> (Node<S>, Node<S>, Seq<Entry<S>>)
    decreases e, 0int,
{
    let tag_match = t.tag == e.tag;
    match name_of(e.id) {
        Some(n) => if reg_has(r, n) {
            let en = r[reg_idx(r, n)];
            let cs = if !tag_match || t.children.len() != e.children.len() {
                e.children
            } else {
                put_back(t.children, en.2)
            };
            let (ks, es, r2) = kids_spec(cs, e.children, reg_remove(r, n));
            (
                Node { tag: e.tag, id: e.id, state: en.1, children: ks },
                Node { tag: e.tag, id: e.id, state: e.state, children: es },
                r2,
            )
        } else {
            let (ks, es, r2) = kids_spec(e.children, e.children, r);
            (
                Node { tag: e.tag, id: e.id, state: e.state, children: ks },
                Node { tag: e.tag, id: e.id, state: e.state, children: es },
                r2,
            )
        },
        None => if tag_match {
            let eid = if t.id is Some { t.id } else { e.id };
            let cs = if t.children.len() != e.children.len() { e.children } else { t.children };
            let (ks, es, r2) = kids_spec(cs, e.children, r);
            (
                Node { tag: t.tag, id: eid, state: t.state, children: ks },
                Node { tag: e.tag, id: eid, state: e.state, children: es },
                r2,
            )
        } else {
            let (ks, es, r2) = kids_spec(e.children, e.children, r);
            (
                Node { tag: e.tag, id: e.id, state: e.state, children: ks },
                Node { tag: e.tag, id: e.id, state: e.state, children: es },
                r2,
            )
        },
    }
}

/// The identifiers of the given widgets.
pub open spec fn ids_of<S>(es: Seq<Node<S>>) -> Seq<Option<Id>> {
    Seq::new(es.len(), |i: int| es[i].id)
}

/// Reconciliation of the children `cs` against the new children `es`, each
/// matched by its own id.
pub open spec fn kids_spec<S>(cs: Seq<Node<S>>, es: Seq<Node<S>>, r: Seq<Entry<S>>) -> (
    Seq<Node<S>>,
    Seq<Node<S>>,
    Seq<Entry<S>>,
)
    decreases es, es.len() + 2,
{
    kids_custom_spec(cs, es, ids_of(es), r)
}

/// Reconciliation of the children `cs` against the new children `es`, the
/// new child `i` being matched by `ids[i]`: old children beyond the new count
/// are dropped; a named new child takes the old child of the same name (the
/// last one, if several share it), wherever it stands; an unnamed one pairs
/// off with the next old unnamed child, in order, which takes its id when the
/// counts differ; old named children that no new child claims are dropped;
/// the rest of the new children get new nodes, inserted at their index. Only
/// as many new children as there are ids are reconciled.
pub open spec fn kids_custom_spec<S>(cs: Seq<Node<S>>, es: Seq<Node<S>>, ids: Seq<Option<Id>>, r: Seq<Entry<S>>) -> (
    Seq<Node<S>>,
    Seq<Node<S>>,
    Seq<Entry<S>>,
)
    decreases es, es.len() + 1,
{
    let cs0 = if cs.len() > es.len() { cs.take(es.len() as int) } else { cs };
    let n = if ids.len() < es.len() { ids.len() as int } else { es.len() as int };
    let s = kid_steps(cs0, es, ids, n, r);
    (insert_all(kept_upto(s.cs, cs0, s.taken, cs0.len() as int), s.news), s.es, s.reg)
}

/// The first `j` of the reconciled children `cs` that stay: those that were
/// unnamed in `cs0`, and the named ones that a new child claimed by name.
pub open spec fn kept_upto<S>(cs: Seq<Node<S>>, cs0: Seq<Node<S>>, taken: Seq<bool>, j: int) -> Seq<Node<S>>
    decreases j,
{
    if j <= 0 {
        seq![]
    } else {
        let p = kept_upto(cs, cs0, taken, j - 1);
        if name_of(cs0[j - 1].id) is None || taken[j - 1] {
            p.push(cs[j - 1])
        } else {
            p
        }
    }
}

/// The reconciliation of `cs0` against the first `k` new children.
pub open spec fn kid_steps<S>(cs0: Seq<Node<S>>, es: Seq<Node<S>>, ids: Seq<Option<Id>>, k: int, r: Seq<Entry<S>>) -> KidState<S>
    decreases es, k,
{
    if k <= 0 || k > es.len() || k > ids.len() {
        KidState { cs: cs0, es, reg: r, taken: Seq::new(cs0.len(), |j: int| false), p: 0, news: seq![] }
    } else {
        let s = kid_steps(cs0, es, ids, k - 1, r);
        let i = k - 1;
        let w = es[i];
        let slot = match name_of(ids[i]) {
            Some(n) => last_named_upto(cs0, n, cs0.len() as int),
            None => None,
        };
        let list = unnamed_upto(cs0, cs0.len() as int);
        if slot is Some && !s.taken[slot->0] {
            let j = slot->0;
            let (t2, w2, r2) = diff_spec(s.cs[j], w, s.reg);
            KidState { cs: s.cs.update(j, t2), es: s.es.update(i, w2), reg: r2, taken: s.taken.update(j, true), ..s }
        } else if s.p < list.len() {
            let j = list[s.p] as int;
            let c = if cs0.len() != es.len() {
                Node { tag: s.cs[j].tag, id: ids[i], state: s.cs[j].state, children: s.cs[j].children }
            } else {
                s.cs[j]
            };
            let (t2, w2, r2) = diff_spec(c, w, s.reg);
            KidState { cs: s.cs.update(j, t2), es: s.es.update(i, w2), reg: r2, p: s.p + 1, ..s }
        } else {
            let (t2, w2, r2) = diff_spec(w, w, s.reg);
            KidState { es: s.es.update(i, w2), reg: r2, news: s.news.push((t2, i)), ..s }
        }
    }
}

impl<S: Copy> Tree<S> {
    /// Creates an empty, stateless [`Tree`] with no children.
    pub fn empty() -> (r: Self)
        ensures
            r@ == (Node::<S> { tag: r.tag, id: None, state: State::Empty, children: seq![] }),
    {
        let r = Tree { tag: Tag::stateless(), id: None, state: State::Empty, children: Vec::new() };
        assert(r@.children =~= seq![]);
        r
    }

    /// Creates a new [`Tree`] for the provided widget: every node starts with
    /// the widget's own initial state.
    pub fn new(widget: &Element<S>) -> (r: Self)
        ensures
            r@ == widget@,
        decreases widget,
    {
        let mut children: Vec<Tree<S>> = Vec::new();
        let mut i: usize = 0;
        while i < widget.children.len()
            invariant
                i <= widget.children.len(),
                children.len() == i,
                forall|j: int| 0 <= j < i ==> (#[trigger] children@[j])@ == widget.children@[j]@,
            decreases widget.children.len() - i,
        {
            let c = Tree::new(&widget.children[i]);
            children.push(c);
            i = i + 1;
        }
        let r = Tree { tag: widget.tag, id: widget.id.clone(), state: widget.state, children };
        assert(r@.children =~= widget@.children);
        r
    }
}

/// `names` holds the name of each node of `cs`.
pub open spec fn names_of<S>(names: Seq<Option<String>>, cs: Seq<Node<S>>) -> bool {
    &&& names.len() == cs.len()
    &&& forall|j: int|
        0 <= j < cs.len() ==> match #[trigger] names[j] {
            Some(s) => name_of(cs[j].id) == Some(s@),
            None => name_of(cs[j].id) is None,
        }
}

/// The models of the created nodes waiting for insertion.
pub open spec fn news_view<S>(v: Seq<(Tree<S>, usize)>) -> Seq<(Node<S>, int)> {
    Seq::new(v.len(), |i: int| (v[i].0@, v[i].1 as int))
}

/// The position of the last node of `cs` named `n`.
fn find_last_named<S>(names: &Vec<Option<String>>, n: &String, Ghost(cs): Ghost<Seq<Node<S>>>) -> (r: Option<usize>)
    requires
        names_of(names@, cs),
    ensures
        match r {
            Some(j) => last_named_upto(cs, n@, cs.len() as int) == Some(j as int) && j < cs.len(),
            None => last_named_upto(cs, n@, cs.len() as int) is None,
        },
{
    let mut j: usize = names.len();
    while j > 0
        invariant
            j <= names.len(),
            names_of(names@, cs),
            last_named_upto(cs, n@, cs.len() as int) == last_named_upto(cs, n@, j as int),
        decreases j,
    {
        let hit = match &names[j - 1] {
            Some(m) => *m == *n,
            None => false,
        };
        if hit {
            return Some(j - 1);
        }
        j = j - 1;
    }
    None
}

impl<S: Copy> Element<S> {
    /// Fresh state trees for the children of this widget.
    pub fn fresh_children(&self) -> (r: Vec<Tree<S>>)
        ensures
            trees_view(r@) == self@.children,
    {
        let mut v: Vec<Tree<S>> = Vec::new();
        let mut i: usize = 0;
        while i < self.children.len()
            invariant
                i <= self.children.len(),
                v.len() == i,
                forall|j: int| 0 <= j < i ==> (#[trigger] v@[j])@ == self.children@[j]@,
            decreases self.children.len() - i,
        {
            v.push(Tree::new(&self.children[i]));
            i = i + 1;
        }
        assert(trees_view(v@) =~= self@.children);
        v
    }
}

impl<S: Copy> Tree<S> {
    /// Reconciles this tree with the provided widget.
    ///
    /// A named widget takes back the state detached under its name, if the
    /// registry holds one, and the node takes the widget's tag and id.
    /// Otherwise, if the tags match, the state is kept and the ids are joined:
    /// the tree's id is handed to the widget, or, when the tree has none, the
    /// node adopts the widget's. If the tags differ, the tree is recreated from
    /// the widget. The children are then reconciled.
    pub fn diff(&mut self, new: &mut Element<S>, named: &mut Named<S>)
        requires
            old(named).wf(),
        ensures
            final(named).wf(),
            (final(self)@, final(new)@, final(named)@) == diff_spec(old(self)@, old(new)@, old(named)@),
        decreases *old(new), 1int,
    {
        let ghost t0 = self@;
        let ghost e0 = new@;
        let ghost r0 = named@;
        let tag_match = self.tag.same(&new.tag);
        assert(e0.children =~= elements_view(new.children@));
        match name_string(&new.id) {
            Some(n) => match named.remove(&n) {
                Some(entry) => {
                    let NamedState { name: _, state, children: mut kids } = entry;
                    let ghost kids0 = entry@.2;
                    self.state = state;
                    self.tag = new.tag;
                    self.id = new.id.clone();
                    if !tag_match || self.children.len() != new.children.len() {
                        self.children = new.fresh_children();
                    } else {
                        let ghost base = trees_view(self.children@);
                        assert(base =~= t0.children);
                        let ghost m: int = 0;
                        assert(kids0.take(0) =~= Seq::<(usize, Node<S>)>::empty());
                        while kids.len() > 0
                            invariant
                                0 <= m <= kids0.len(),
                                kids.len() == kids0.len() - m,
                                forall|q: int| 0 <= q < kids.len() ==> (kids@[q].0, kids@[q].1@) == kids0[q + m],
                                trees_view(self.children@) == put_back(base, kids0.take(m)),
                                self.children.len() == base.len(),
                                self.tag == new.tag,
                                self.id == new.id,
                                self.state == state,
                            decreases kids.len(),
                        {
                            let (i, c) = kids.remove(0);
                            assert(kids0.take(m + 1).drop_last() =~= kids0.take(m));
                            if i < self.children.len() {
                                self.children.set(i, c);
                            }
                            proof { m = m + 1; }
                            assert(trees_view(self.children@) =~= put_back(base, kids0.take(m)));
                        }
                        assert(kids0.take(m) =~= kids0);
                    }
                    self.diff_children(&mut new.children, named);
                    assert(self@.children =~= trees_view(self.children@));
                    assert(new@.children =~= elements_view(new.children@));
                },
                None => {
                    *self = Tree::new(new);
                    assert(trees_view(self.children@) =~= e0.children);
                    self.diff_children(&mut new.children, named);
                    assert(self@.children =~= trees_view(self.children@));
                    assert(new@.children =~= elements_view(new.children@));
                },
            },
            None => {
                if tag_match {
                    if self.id.is_some() {
                        new.id = self.id.clone();
                    } else {
                        self.id = new.id.clone();
                    }
                    if self.children.len() != new.children.len() {
                        self.children = new.fresh_children();
                    } else {
                        assert(trees_view(self.children@) =~= t0.children);
                    }
                    self.diff_children(&mut new.children, named);
                    assert(self@.children =~= trees_view(self.children@));
                    assert(new@.children =~= elements_view(new.children@));
                } else {
                    *self = Tree::new(new);
                    assert(trees_view(self.children@) =~= e0.children);
                    self.diff_children(&mut new.children, named);
                    assert(self@.children =~= trees_view(self.children@));
                    assert(new@.children =~= elements_view(new.children@));
                }
            },
        }
    }

    /// Reconciles the children of this tree with the provided list of widgets,
    /// each matched by its own id.
    pub fn diff_children(&mut self, new_children: &mut Vec<Element<S>>, named: &mut Named<S>)
        requires
            old(named).wf(),
        ensures
            final(named).wf(),
            final(self).tag == old(self).tag,
            final(self).id == old(self).id,
            final(self).state == old(self).state,
            (trees_view(final(self).children@), elements_view(final(new_children)@), final(named)@)
                == kids_spec(trees_view(old(self).children@), elements_view(old(new_children)@), old(named)@),
            final(self).children.len() == old(new_children).len(),
        decreases *old(new_children), 1int,
    {
        let mut ids: Vec<Option<Id>> = Vec::new();
        let mut i: usize = 0;
        while i < new_children.len()
            invariant
                i <= new_children.len(),
                ids.len() == i,
                forall|j: int| 0 <= j < i ==> (#[trigger] ids@[j]) == new_children@[j].id,
            decreases new_children.len() - i,
        {
            ids.push(new_children[i].id.clone());
            i = i + 1;
        }
        assert(ids@ =~= ids_of(elements_view(new_children@)));
        self.diff_children_custom(new_children, ids, named);
    }

    /// Reconciles the children of this tree with the provided list of widgets,
    /// the widget at index `i` being matched by `new_ids[i]`.
    ///
    /// Excess old children are dropped first. A named new child is reconciled
    /// with the old child of the same name, wherever it stands; an unnamed one
    /// with the next old unnamed child, in order. Old named children that no
    /// new child claims are dropped. A new child that finds no old one gets a
    /// new node, inserted at its index once all are done. With an id for every
    /// widget, the tree ends up with exactly one child per widget.
    pub fn diff_children_custom(&mut self, new_children: &mut Vec<Element<S>>, new_ids: Vec<Option<Id>>, named: &mut Named<S>)
        requires
            old(named).wf(),
        ensures
            final(named).wf(),
            final(self).tag == old(self).tag,
            final(self).id == old(self).id,
            final(self).state == old(self).state,
            (trees_view(final(self).children@), elements_view(final(new_children)@), final(named)@)
                == kids_custom_spec(trees_view(old(self).children@), elements_view(old(new_children)@), new_ids@, old(named)@),
            new_ids.len() >= old(new_children).len() ==> final(self).children.len() == old(new_children).len(),
        decreases *old(new_children), 0int,
    {
        let ghost ids = new_ids@;
        let ghost es0 = elements_view(new_children@);
        let ghost r0 = named@;
        let n = new_children.len();
        if self.children.len() > n {
            self.children.truncate(n);
        }
        let ghost cs0 = trees_view(self.children@);
        assert(cs0 =~= (if trees_view(old(self).children@).len() > es0.len() {
            trees_view(old(self).children@).take(es0.len() as int)
        } else {
            trees_view(old(self).children@)
        }));
        let len_changed = self.children.len() != n;
        let mut names: Vec<Option<String>> = Vec::new();
        let mut list: Vec<usize> = Vec::new();
        let mut taken: Vec<bool> = Vec::new();
        let mut j: usize = 0;
        while j < self.children.len()
            invariant
                j <= self.children.len(),
                cs0 == trees_view(self.children@),
                names.len() == j,
                taken.len() == j,
                forall|q: int| 0 <= q < j ==> !(#[trigger] taken@[q]),
                forall|q: int|
                    0 <= q < j ==> match #[trigger] names@[q] {
                        Some(s) => name_of(cs0[q].id) == Some(s@),
                        None => name_of(cs0[q].id) is None,
                    },
                list@ == unnamed_upto(cs0, j as int),
                forall|q: int| 0 <= q < list.len() ==> (#[trigger] list@[q]) < j,
            decreases self.children.len() - j,
        {
            let nm = name_string(&self.children[j].id);
            if nm.is_none() {
                list.push(j);
            }
            names.push(nm);
            taken.push(false);
            j = j + 1;
        }
        assert(taken@ =~= Seq::new(cs0.len(), |q: int| false));
        let mut p: usize = 0;
        let mut news: Vec<(Tree<S>, usize)> = Vec::new();
        let count = if new_ids.len() < n { new_ids.len() } else { n };
        let mut i: usize = 0;
        assert(news_view(news@) =~= Seq::<(Node<S>, int)>::empty());
        assert(es0 =~= elements_view(new_children@));
        while i < count
            invariant
                i <= count,
                count <= n,
                count <= ids.len(),
                ids == new_ids@,
                n == new_children.len(),
                n == es0.len(),
                names_of(names@, cs0),
                list@ == unnamed_upto(cs0, cs0.len() as int),
                forall|q: int| 0 <= q < list.len() ==> (#[trigger] list@[q]) < cs0.len(),
                len_changed == (cs0.len() != es0.len()),
                self.children.len() == cs0.len(),
                taken.len() == cs0.len(),
                self.tag == old(self).tag,
                self.id == old(self).id,
                self.state == old(self).state,
                named.wf(),
                forall|q: int| i <= q < n ==> new_children@[q] == old(new_children)@[q],
                count == (if ids.len() < es0.len() { ids.len() as int } else { es0.len() as int }),
                es0 == elements_view(old(new_children)@),
                ({
                    let s = kid_steps(cs0, es0, ids, i as int, r0);
                    &&& trees_view(self.children@) == s.cs
                    &&& elements_view(new_children@) == s.es
                    &&& named@ == s.reg
                    &&& taken@ == s.taken
                    &&& p as int == s.p
                    &&& news_view(news@) == s.news
                }),
            decreases count - i,
        {
            let ghost w = es0[i as int];
            assert(new_children@[i as int]@ == w);
            let slot = match name_string(&new_ids[i]) {
                Some(nm) => find_last_named::<S>(&names, &nm, Ghost(cs0)),
                None => None,
            };
            let mut matched = false;
            if let Some(j) = slot {
                if !taken[j] {
                    self.children[j].diff(&mut new_children[i], named);
                    taken.set(j, true);
                    matched = true;
                }
            }
            if !matched {
                if p < list.len() {
                    let j = list[p];
                    if len_changed {
                        self.children[j].id = new_ids[i].clone();
                    }
                    self.children[j].diff(&mut new_children[i], named);
                    p = p + 1;
                } else {
                    let mut t = Tree::new(&new_children[i]);
                    t.diff(&mut new_children[i], named);
                    news.push((t, i));
                }
            }
            i = i + 1;
            let ghost s2 = kid_steps(cs0, es0, ids, i as int, r0);
            assert(trees_view(self.children@) =~= s2.cs);
            assert(elements_view(new_children@) =~= s2.es);
            assert(taken@ =~= s2.taken);
            assert(news_view(news@) =~= s2.news);
        }
        let ghost s = kid_steps(cs0, es0, ids, count as int, r0);
        let mut rest: Vec<Tree<S>> = Vec::new();
        std::mem::swap(&mut rest, &mut self.children);
        let ghost all = rest@;
        assert(trees_view(self.children@) =~= kept_upto(s.cs, cs0, s.taken, 0));
        let mut j: usize = 0;
        while j < names.len()
            invariant
                j <= names.len(),
                names_of(names@, cs0),
                taken@ == s.taken,
                taken.len() == cs0.len(),
                all.len() == cs0.len(),
                trees_view(all) == s.cs,
                rest@ == all.skip(j as int),
                trees_view(self.children@) == kept_upto(s.cs, cs0, s.taken, j as int),
                elements_view(new_children@) == s.es,
                named@ == s.reg,
                named.wf(),
                self.tag == old(self).tag,
                self.id == old(self).id,
                self.state == old(self).state,
            decreases names.len() - j,
        {
            assert(rest@[0] == all[j as int]);
            let c = rest.remove(0);
            assert(rest@ =~= all.skip(j + 1));
            assert(c@ == s.cs[j as int]);
            let keep = match &names[j] {
                None => true,
                Some(_) => taken[j],
            };
            let ghost before = trees_view(self.children@);
            if keep {
                self.children.push(c);
                assert(trees_view(self.children@) =~= before.push(s.cs[j as int]));
            }
            j = j + 1;
        }
        while news.len() > 0
            invariant
                insert_all(trees_view(self.children@), news_view(news@)) == insert_all(
                    kept_upto(s.cs, cs0, s.taken, cs0.len() as int),
                    s.news,
                ),
                elements_view(new_children@) == s.es,
                named@ == s.reg,
                named.wf(),
                self.tag == old(self).tag,
                self.id == old(self).id,
                self.state == old(self).state,
            decreases news.len(),
        {
            let ghost before = news_view(news@);
            let ghost cv = trees_view(self.children@);
            let (t, at) = news.remove(0);
            assert(news_view(news@) =~= before.drop_first());
            assert(before[0] == (t@, at as int));
            if at <= self.children.len() {
                self.children.insert(at, t);
                assert(trees_view(self.children@) =~= cv.insert(at as int, t@));
            }
        }
        proof {
            if new_ids.len() >= n {
                crate::laws::lemma_children_match_widgets(trees_view(old(self).children@), es0, ids, r0);
            }
        }
    }
}


/// `cs` brought to the length of `es` by one contiguous edit at `d`: removing
/// old children there, or inserting fresh nodes for the new children there.
pub open spec fn spliced<S>(cs: Seq<Node<S>>, es: Seq<Node<S>>, d: int) -> Seq<Node<S>> {
    if cs.len() > es.len() {
        cs.take(d) + cs.skip(d + (cs.len() - es.len()))
    } else if cs.len() < es.len() {
        cs.take(d) + es.subrange(d, d + (es.len() - cs.len())) + cs.skip(d)
    } else {
        cs
    }
}

/// Whether `d` is a position at which [`spliced`] can make its edit.
pub open spec fn splice_point<S>(cs: Seq<Node<S>>, es: Seq<Node<S>>, d: int) -> bool {
    &&& 0 <= d
    &&& cs.len() >= es.len() ==> d <= es.len()
    &&& cs.len() < es.len() ==> d <= cs.len()
}

/// The first `k` children of `cs` reconciled with the new children at the same index.
pub open spec fn pairwise<S>(cs: Seq<Node<S>>, es: Seq<Node<S>>, r: Seq<Entry<S>>, k: int) -> (
    Seq<Node<S>>,
    Seq<Node<S>>,
    Seq<Entry<S>>,
)
    decreases k,
{
    if k <= 0 {
        (cs, es, r)
    } else {
        let (a, b, r1) = pairwise(cs, es, r, k - 1);
        let (t2, w2, r2) = diff_spec(a[k - 1], b[k - 1], r1);
        (a.update(k - 1, t2), b.update(k - 1, w2), r2)
    }
}

/// Makes the edit of [`spliced`] at `at` and then reconciles each child with
/// the new child at the same index.
pub fn diff_children_spliced<S: Copy>(
    current_children: &mut Vec<Tree<S>>,
    new_children: &mut Vec<Element<S>>,
    at: usize,
    named: &mut Named<S>,
)
    requires
        old(named).wf(),
        splice_point(trees_view(old(current_children)@), elements_view(old(new_children)@), at as int),
    ensures
        final(named).wf(),
        final(current_children).len() == old(new_children).len(),
        (trees_view(final(current_children)@), elements_view(final(new_children)@), final(named)@) == pairwise(
            spliced(trees_view(old(current_children)@), elements_view(old(new_children)@), at as int),
            elements_view(old(new_children)@),
            old(named)@,
            old(new_children).len() as int,
        ),
{
    let ghost cs = trees_view(current_children@);
    let ghost es = elements_view(new_children@);
    let c = current_children.len();
    let m = new_children.len();
    if c > m {
        let mut k: usize = 0;
        while k < c - m
            invariant
                c == cs.len(),
                m == es.len(),
                c > m,
                at <= m,
                k <= c - m,
                current_children.len() == c - k,
                trees_view(current_children@) == cs.take(at as int) + cs.skip(at + k),
            decreases c - m - k,
        {
            let ghost before = trees_view(current_children@);
            current_children.remove(at);
            assert(trees_view(current_children@) =~= before.remove(at as int));
            k = k + 1;
            assert(trees_view(current_children@) =~= cs.take(at as int) + cs.skip(at + k));
        }
    } else if c < m {
        let mut k: usize = 0;
        while k < m - c
            invariant
                c == cs.len(),
                m == es.len(),
                m == new_children.len(),
                es == elements_view(new_children@),
                c < m,
                at <= c,
                k <= m - c,
                current_children.len() == c + k,
                trees_view(current_children@) == cs.take(at as int) + es.subrange(at as int, at + k) + cs.skip(at as int),
            decreases m - c - k,
        {
            let ghost before = trees_view(current_children@);
            let t = Tree::new(&new_children[at + k]);
            assert(t@ == es[at + k]);
            current_children.insert(at + k, t);
            assert(trees_view(current_children@) =~= before.insert(at + k, t@));
            k = k + 1;
            assert(trees_view(current_children@) =~= cs.take(at as int) + es.subrange(at as int, at + k) + cs.skip(at as int));
        }
    }
    let ghost mid = trees_view(current_children@);
    assert(mid =~= spliced(cs, es, at as int));
    let mut i: usize = 0;
    assert(es =~= elements_view(new_children@));
    while i < m
        invariant
            i <= m,
            m == es.len(),
            m == new_children.len(),
            m == current_children.len(),
            named.wf(),
            (trees_view(current_children@), elements_view(new_children@), named@) == pairwise(mid, es, old(named)@, i as int),
        decreases m - i,
    {
        let ghost (a, b, r1) = pairwise(mid, es, old(named)@, i as int);
        assert(current_children@[i as int]@ == a[i as int]);
        assert(new_children@[i as int]@ == b[i as int]);
        current_children[i].diff(&mut new_children[i], named);
        i = i + 1;
        let ghost (a2, b2, r2) = pairwise(mid, es, old(named)@, i as int);
        assert(trees_view(current_children@) =~= a2);
        assert(elements_view(new_children@) =~= b2);
    }
}

/// `f` is the first index in `1..c` for which `maybe_changed` answered true,
/// or 0 when it answered false for all of them.
pub open spec fn first_flag<F: Fn(usize) -> bool>(maybe_changed: F, c: int, f: int) -> bool {
    ||| f == 0 && forall|i: usize| 1 <= i < c ==> maybe_changed.ensures((i,), false)
    ||| 1 <= f < c && maybe_changed.ensures((f as usize,), true) && forall|i: usize|
        1 <= i < f ==> maybe_changed.ensures((i,), false)
}

/// The index at which the search makes its edit, for `c` old and `m` new
/// children, when `maybe_changed` said `first` of the first old child and
/// `last` of the last one, and `f` is the first flagged index: the back when
/// only the last may have changed, the front when the first may have, and
/// otherwise `f`, kept within bounds when children are removed.
pub open spec fn search_point(c: int, m: int, first: bool, last: bool, f: int) -> int {
    if c == m {
        0
    } else if !first && last {
        if c > m { m } else { c }
    } else if first {
        0
    } else if c > m && f > m {
        m
    } else {
        f
    }
}

/// The first index in `1..len` that `maybe_changed` flags, or 0 when none is.
fn first_flagged<F: Fn(usize) -> bool>(maybe_changed: &F, len: usize) -> (r: usize)
    requires
        forall|i: usize| i < len ==> maybe_changed.requires((i,)),
    ensures
        r == 0 || 1 <= r < len,
        first_flag(*maybe_changed, len as int, r as int),
{
    let mut i: usize = 1;
    while i < len
        invariant
            1 <= i,
            forall|i: usize| i < len ==> maybe_changed.requires((i,)),
            forall|j: usize| 1 <= j < i ==> maybe_changed.ensures((j,), false),
        decreases len - i,
    {
        if maybe_changed(i) {
            return i;
        }
        i = i + 1;
    }
    0
}

/// Reconciles `current_children` with the provided list of widgets, using
/// `maybe_changed(i)` (whether old child `i` may differ from its widget) to
/// guess where children were added or removed.
///
/// When the lengths differ, the difference is taken to be one contiguous run:
/// at the back if the first child looks unchanged and the last does not, at
/// the front if the first child may have changed, and otherwise at the first
/// flagged index (kept within bounds). Each child is then reconciled with the
/// widget at the same index. With no widgets, all children are dropped; with
/// no children, a fresh node is created for each widget.
pub fn diff_children_custom_with_search<S: Copy, F: Fn(usize) -> bool>(
    current_children: &mut Vec<Tree<S>>,
    new_children: &mut Vec<Element<S>>,
    maybe_changed: F,
    named: &mut Named<S>,
)
    requires
        old(named).wf(),
        forall|i: usize| i < old(current_children).len() ==> maybe_changed.requires((i,)),
    ensures
        final(named).wf(),
        final(current_children).len() == old(new_children).len(),
        old(new_children).len() == 0 ==> final(named)@ == old(named)@,
        old(new_children).len() > 0 && old(current_children).len() == 0 ==> {
            &&& trees_view(final(current_children)@) == elements_view(old(new_children)@)
            &&& final(new_children)@ == old(new_children)@
            &&& final(named)@ == old(named)@
        },
        old(new_children).len() > 0 && old(current_children).len() > 0 ==> exists|first: bool, last: bool, f: int|
            #![trigger search_point(old(current_children).len() as int, old(new_children).len() as int, first, last, f)]
            {
                &&& maybe_changed.ensures((0usize,), first)
                &&& maybe_changed.ensures(((old(current_children).len() - 1) as usize,), last)
                &&& (old(current_children).len() != old(new_children).len() && !first && !last ==> first_flag(
                    maybe_changed,
                    old(current_children).len() as int,
                    f,
                ))
                &&& splice_point(
                    trees_view(old(current_children)@),
                    elements_view(old(new_children)@),
                    search_point(old(current_children).len() as int, old(new_children).len() as int, first, last, f),
                )
                &&& (trees_view(final(current_children)@), elements_view(final(new_children)@), final(named)@) == pairwise(
                    spliced(
                        trees_view(old(current_children)@),
                        elements_view(old(new_children)@),
                        search_point(old(current_children).len() as int, old(new_children).len() as int, first, last, f),
                    ),
                    elements_view(old(new_children)@),
                    old(named)@,
                    old(new_children).len() as int,
                )
            },
{
    let c = current_children.len();
    let m = new_children.len();
    if m == 0 {
        current_children.clear();
        return;
    }
    if c == 0 {
        let mut i: usize = 0;
        while i < m
            invariant
                i <= m,
                m == new_children.len(),
                current_children.len() == i,
                forall|j: int| 0 <= j < i ==> (#[trigger] current_children@[j])@ == new_children@[j]@,
            decreases m - i,
        {
            current_children.push(Tree::new(&new_children[i]));
            i = i + 1;
        }
        assert(trees_view(current_children@) =~= elements_view(new_children@));
        return;
    }
    let first_maybe_changed = maybe_changed(0);
    let last_maybe_changed = maybe_changed(c - 1);
    let ghost mut f: int = 0;
    let at: usize = if c == m {
        0
    } else if !first_maybe_changed && last_maybe_changed {
        if c > m { m } else { c }
    } else if first_maybe_changed {
        0
    } else {
        let d = first_flagged(&maybe_changed, c);
        proof {
            f = d as int;
        }
        if c > m && d > m { m } else { d }
    };
    assert(at as int == search_point(c as int, m as int, first_maybe_changed, last_maybe_changed, f));
    let ghost cs = trees_view(current_children@);
    let ghost es = elements_view(new_children@);
    let ghost r = named@;
    assert(splice_point(cs, es, at as int));
    diff_children_spliced(current_children, new_children, at, named);
    assert((trees_view(current_children@), elements_view(new_children@), named@)
        == pairwise(spliced(cs, es, at as int), es, r, m as int));
}


/// The first node of `t`, in pre-order, whose id equals `id`.
pub open spec fn find_spec<S>(t: Node<S>, id: Id) -> Option<Node<S>>
    decreases t, t.children.len() + 1,
{
    if t.id matches Some(x) && same_id(x, id) {
        Some(t)
    } else {
        find_from(t, id, 0)
    }
}

/// The first match of `id` among the children of `t` from index `k` on.
pub open spec fn find_from<S>(t: Node<S>, id: Id, k: int) -> Option<Node<S>>
    decreases t, t.children.len() - k,
{
    if k < 0 || k >= t.children.len() {
        None
    } else {
        match find_spec(t.children[k], id) {
            Some(x) => Some(x),
            None => find_from(t, id, k + 1),
        }
    }
}

impl<S> Tree<S> {
    /// Finds a widget state in the tree by its id.
    pub fn find<'a>(&'a self, id: &Id) -> (r: Option<&'a Tree<S>>)
        ensures
            match r {
                Some(x) => find_spec(self@, *id) == Some(x@),
                None => find_spec(self@, *id) is None,
            },
        decreases self,
    {
        if let Some(mine) = &self.id {
            if mine.same(id) {
                return Some(self);
            }
        }
        let mut k: usize = 0;
        while k < self.children.len()
            invariant
                k <= self.children.len(),
                find_spec(self@, *id) == find_from(self@, *id, k as int),
            decreases self.children.len() - k,
        {
            assert(self@.children[k as int] == self.children@[k as int]@);
            match self.children[k].find(id) {
                Some(x) => {
                    return Some(x);
                },
                None => {},
            }
            k = k + 1;
        }
        None
    }
}

impl<S> Element<S> {
    /// A widget with the given state tag and initial state, with no id and no children.
    pub fn new(tag: Tag, state: State<S>) -> (r: Self)
        ensures
            r@ == (Node::<S> { tag, id: None, state, children: seq![] }),
    {
        let r = Element { tag, id: None, state, children: Vec::new() };
        assert(r@.children =~= seq![]);
        r
    }

    /// The widget with `id` as its identifier.
    pub fn with_id(self, id: Id) -> (r: Self)
        ensures
            r@ == (Node::<S> { id: Some(id), ..self@ }),
    {
        let mut r = self;
        r.id = Some(id);
        assert(r@.children =~= self@.children);
        r
    }

    /// The widget with `child` added after its other children.
    pub fn push(self, child: Element<S>) -> (r: Self)
        ensures
            r@ == (Node::<S> { children: self@.children.push(child@), ..self@ }),
    {
        let mut r = self;
        r.children.push(child);
        assert(r@.children =~= self@.children.push(child@));
        r
    }

    /// The tag of the widget's state.
    pub fn tag(&self) -> (r: Tag)
        ensures
            r == self.tag,
    {
        self.tag
    }

    /// The identifier of the widget.
    pub fn id(&self) -> (r: Option<Id>)
        ensures
            r == self.id,
    {
        self.id.clone()
    }

    /// Sets the identifier of the widget.
    pub fn set_id(&mut self, id: Id)
        ensures
            final(self)@ == (Node::<S> { id: Some(id), ..old(self)@ }),
    {
        self.id = Some(id);
        assert(final(self)@.children =~= old(self)@.children);
    }
}

} // verus!
