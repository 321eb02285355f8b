//! Properties of reconciliation that hold for every tree and widget.
use vstd::prelude::*;
use crate::id::{Id, name_of};
use crate::tree::{
    Entry, Node, State, diff_spec, insert_all, kid_steps, kids_custom_spec, kids_spec, kept_upto, ids_of, reg_has, reg_idx,
    reg_insert, reg_record, reg_remove, reg_unique, last_named_upto, take_kids, take_spec, unnamed_upto,
};

verus! {

/// How many of the first `j` flags are set.
pub open spec fn count_true(t: Seq<bool>, j: int) -> int
    decreases j,
{
    if j <= 0 {
        0
    } else {
        count_true(t, j - 1) + if t[j - 1] { 1int } else { 0int }
    }
}

/// How many of the first `j` nodes carry no name.
pub open spec fn count_unnamed<S>(cs: Seq<Node<S>>, j: int) -> int
    decreases j,
{
    if j <= 0 {
        0
    } else {
        count_unnamed(cs, j - 1) + if name_of(cs[j - 1].id) is None { 1int } else { 0int }
    }
}

proof fn lemma_count_update(t: Seq<bool>, x: int, j: int)
    requires
        0 <= x < t.len(),
        !t[x],
        j <= t.len(),
    ensures
        count_true(t.update(x, true), j) == count_true(t, j) + if 0 <= x < j { 1int } else { 0int },
    decreases j,
{
    if j > 0 {
        lemma_count_update(t, x, j - 1);
    }
}

proof fn lemma_count_bound<S>(t: Seq<bool>, cs: Seq<Node<S>>, j: int)
    requires
        t.len() == cs.len(),
        0 <= j <= cs.len(),
        forall|i: int| 0 <= i < cs.len() && #[trigger] t[i] ==> name_of(cs[i].id) is Some,
    ensures
        0 <= count_true(t, j),
        0 <= count_unnamed(cs, j),
        count_true(t, j) + count_unnamed(cs, j) <= j,
    decreases j,
{
    if j > 0 {
        lemma_count_bound(t, cs, j - 1);
    }
}

proof fn lemma_unnamed_list<S>(cs: Seq<Node<S>>, j: int)
    requires
        0 <= j <= cs.len(),
        cs.len() <= usize::MAX,
    ensures
        unnamed_upto(cs, j).len() == count_unnamed(cs, j),
        forall|m: int| 0 <= m < unnamed_upto(cs, j).len() ==> (#[trigger] unnamed_upto(cs, j)[m]) < j,
    decreases j,
{
    if j > 0 {
        lemma_unnamed_list(cs, j - 1);
        let p = unnamed_upto(cs, j - 1);
        if name_of(cs[j - 1].id) is None {
            assert forall|m: int| 0 <= m < unnamed_upto(cs, j).len() implies (#[trigger] unnamed_upto(cs, j)[m]) < j by {
                if m < p.len() {
                    assert(unnamed_upto(cs, j)[m] == p[m]);
                }
            }
        }
    }
}

proof fn lemma_last_named<S>(cs: Seq<Node<S>>, n: Seq<char>, j: int)
    requires
        j <= cs.len(),
    ensures
        last_named_upto(cs, n, j) matches Some(x) ==> 0 <= x < j && name_of(cs[x].id) == Some(n),
    decreases j,
{
    if j > 0 {
        lemma_last_named(cs, n, j - 1);
    }
}

proof fn lemma_kept_len<S>(cs: Seq<Node<S>>, cs0: Seq<Node<S>>, t: Seq<bool>, j: int)
    requires
        t.len() == cs0.len(),
        0 <= j <= cs0.len(),
        forall|i: int| 0 <= i < cs0.len() && #[trigger] t[i] ==> name_of(cs0[i].id) is Some,
    ensures
        kept_upto(cs, cs0, t, j).len() == count_unnamed(cs0, j) + count_true(t, j),
    decreases j,
{
    if j > 0 {
        lemma_kept_len(cs, cs0, t, j - 1);
    }
}

proof fn lemma_steps_count<S>(cs0: Seq<Node<S>>, es: Seq<Node<S>>, ids: Seq<Option<Id>>, k: int, r: Seq<Entry<S>>)
    requires
        0 <= k <= es.len(),
        k <= ids.len(),
        cs0.len() <= es.len(),
        es.len() <= usize::MAX,
    ensures
        ({
            let s = kid_steps(cs0, es, ids, k, r);
            let l = cs0.len() as int;
            let u = count_unnamed(cs0, l);
            &&& s.cs.len() == l
            &&& s.taken.len() == l
            &&& forall|j: int| 0 <= j < l && #[trigger] s.taken[j] ==> name_of(cs0[j].id) is Some
            &&& count_true(s.taken, l) + s.p + s.news.len() == k
            &&& 0 <= s.p <= u
            &&& s.news.len() > 0 ==> s.p == u
            &&& forall|m: int| 0 <= m < s.news.len() ==> 0 <= (#[trigger] s.news[m]).1 <= count_true(s.taken, l) + s.p + m
        }),
    decreases k,
{
    let l = cs0.len() as int;
    lemma_unnamed_list(cs0, l);
    if k == 0 {
        let s = kid_steps(cs0, es, ids, k, r);
        assert(s.taken =~= Seq::new(cs0.len(), |j: int| false));
        assert(count_true(s.taken, l) == 0) by {
            lemma_count_zero(s.taken, l);
        }
        lemma_count_bound(s.taken, cs0, l);
    } else {
        lemma_steps_count(cs0, es, ids, k - 1, r);
        let s = kid_steps(cs0, es, ids, k - 1, r);
        let s2 = kid_steps(cs0, es, ids, k, r);
        let i = k - 1;
        let w = es[i];
        let slot = match name_of(ids[i]) {
            Some(n) => last_named_upto(cs0, n, l),
            None => None,
        };
        if let Some(n) = name_of(ids[i]) {
            lemma_last_named(cs0, n, l);
        }
        let list = unnamed_upto(cs0, l);
        let t0 = count_true(s.taken, l);
        if slot is Some && !s.taken[slot->0] {
            let j = slot->0;
            lemma_count_update(s.taken, j, l);
            assert(s2.taken == s.taken.update(j, true));
            assert(s2.news == s.news);
            assert(s2.p == s.p);
            assert forall|x: int| 0 <= x < l && #[trigger] s2.taken[x] implies name_of(cs0[x].id) is Some by {
                if x != j {
                    assert(s.taken[x]);
                }
            }
        } else if s.p < list.len() {
            assert(s2.taken == s.taken);
            assert(s2.news == s.news);
            assert(s2.p == s.p + 1);
        } else {
            let (t2, w2, r2) = diff_spec(w, w, s.reg);
            assert(s2.news == s.news.push((t2, i)));
            assert(s2.taken == s.taken);
            assert(s2.p == s.p);
            assert forall|m: int| 0 <= m < s2.news.len() implies 0 <= (#[trigger] s2.news[m]).1 <= count_true(s2.taken, l) + s2.p + m by {
                if m < s.news.len() {
                    assert(s2.news[m] == s.news[m]);
                }
            }
        }
    }
}

proof fn lemma_count_zero(t: Seq<bool>, j: int)
    requires
        j <= t.len(),
        forall|i: int| 0 <= i < t.len() ==> !t[i],
    ensures
        count_true(t, j) == 0,
    decreases j,
{
    if j > 0 {
        lemma_count_zero(t, j - 1);
    }
}

proof fn lemma_insert_len<S>(cs: Seq<Node<S>>, news: Seq<(Node<S>, int)>)
    requires
        forall|m: int| 0 <= m < news.len() ==> 0 <= (#[trigger] news[m]).1 <= cs.len() + m,
    ensures
        insert_all(cs, news).len() == cs.len() + news.len(),
    decreases news.len(),
{
    if news.len() > 0 {
        let (t, i) = news[0];
        let c1 = cs.insert(i, t);
        assert forall|m: int| 0 <= m < news.drop_first().len() implies 0 <= (#[trigger] news.drop_first()[m]).1 <= c1.len() + m by {
            assert(news.drop_first()[m] == news[m + 1]);
        }
        lemma_insert_len(c1, news.drop_first());
    }
}

/// With an id for every new child, reconciling a list of children leaves
/// exactly as many children as there are new ones: the tree keeps the shape
/// of the widget list.
pub proof fn lemma_children_match_widgets<S>(cs: Seq<Node<S>>, es: Seq<Node<S>>, ids: Seq<Option<Id>>, r: Seq<Entry<S>>)
    requires
        ids.len() >= es.len(),
        es.len() <= usize::MAX,
    ensures
        kids_custom_spec(cs, es, ids, r).0.len() == es.len(),
{
    let cs0 = if cs.len() > es.len() { cs.take(es.len() as int) } else { cs };
    let l = cs0.len() as int;
    let n = es.len() as int;
    lemma_steps_count(cs0, es, ids, n, r);
    let s = kid_steps(cs0, es, ids, n, r);
    lemma_count_bound(s.taken, cs0, l);
    lemma_kept_len(s.cs, cs0, s.taken, l);
    let kept = kept_upto(s.cs, cs0, s.taken, l);
    lemma_insert_len(kept, s.news);
}

/// Reconciling children against widgets each matched by its own id leaves as
/// many children as widgets.
pub proof fn lemma_children_follow_widgets<S>(cs: Seq<Node<S>>, es: Seq<Node<S>>, r: Seq<Entry<S>>)
    requires
        es.len() <= usize::MAX,
    ensures
        kids_spec(cs, es, r).0.len() == es.len(),
{
    lemma_children_match_widgets(cs, es, ids_of(es), r);
}

/// When the tags match and the widget carries no name, reconciliation keeps
/// the tree's state and tag, joins the ids (the tree's, or else the widget's),
/// and only reshapes the children to the widget's.
pub proof fn lemma_matching_tag_keeps_state<S>(t: Node<S>, e: Node<S>, r: Seq<Entry<S>>)
    requires
        t.tag == e.tag,
        name_of(e.id) is None,
        e.children.len() <= usize::MAX,
    ensures
        diff_spec(t, e, r).0.state == t.state,
        diff_spec(t, e, r).0.tag == t.tag,
        diff_spec(t, e, r).0.id == (if t.id is Some { t.id } else { e.id }),
        diff_spec(t, e, r).1.id == (if t.id is Some { t.id } else { e.id }),
        diff_spec(t, e, r).0.children.len() == e.children.len(),
{
    let cs = if t.children.len() != e.children.len() { e.children } else { t.children };
    lemma_children_follow_widgets(cs, e.children, r);
}

/// When the tags differ and the widget carries no name, reconciliation replaces
/// the tree's state with the widget's fresh state.
pub proof fn lemma_mismatched_tag_resets_state<S>(t: Node<S>, e: Node<S>, r: Seq<Entry<S>>)
    requires
        t.tag != e.tag,
        name_of(e.id) is None,
    ensures
        diff_spec(t, e, r).0.state == e.state,
        diff_spec(t, e, r).0.tag == e.tag,
        diff_spec(t, e, r).0.id == e.id,
{
}


/// The state held under `n` in the registry `r`.
pub open spec fn reg_state<S>(r: Seq<Entry<S>>, n: Seq<char>) -> State<S> {
    r[reg_idx(r, n)].1
}

/// The entry held under `n` in the registry `r`.
pub open spec fn reg_entry<S>(r: Seq<Entry<S>>, n: Seq<char>) -> Entry<S> {
    r[reg_idx(r, n)]
}

/// No node of `t` carries the name `n`.
pub open spec fn absent<S>(t: Node<S>, n: Seq<char>) -> bool
    decreases t, t.children.len() + 1,
{
    name_of(t.id) != Some(n) && absent_kids(t, n, t.children.len() as int)
}

/// No node among the first `k` children of `t` and their descendants carries the name `n`.
pub open spec fn absent_kids<S>(t: Node<S>, n: Seq<char>, k: int) -> bool
    decreases t, k,
{
    if k <= 0 || k > t.children.len() {
        true
    } else {
        absent_kids(t, n, k - 1) && absent(t.children[k - 1], n)
    }
}

/// Exactly one node of `t` carries the name `n`, and its state is `s`.
pub open spec fn named_once<S>(t: Node<S>, n: Seq<char>, s: State<S>) -> bool
    decreases t, t.children.len() + 1,
{
    if name_of(t.id) == Some(n) {
        t.state == s && absent_kids(t, n, t.children.len() as int)
    } else {
        once_kids(t, n, s, t.children.len() as int)
    }
}

/// Exactly one node among the first `k` children of `t` and their descendants
/// carries the name `n`, and its state is `s`.
pub open spec fn once_kids<S>(t: Node<S>, n: Seq<char>, s: State<S>, k: int) -> bool
    decreases t, k,
{
    if k <= 0 || k > t.children.len() {
        false
    } else {
        (once_kids(t, n, s, k - 1) && absent(t.children[k - 1], n)) || (absent_kids(t, n, k - 1)
            && named_once(t.children[k - 1], n, s))
    }
}

proof fn lemma_insert<S>(r: Seq<Entry<S>>, m: Seq<char>, st: State<S>, n: Seq<char>)
    requires
        reg_unique(r),
    ensures
        reg_unique(reg_insert(r, m, st)),
        reg_has(reg_insert(r, m, st), m),
        reg_state(reg_insert(r, m, st), m) == st,
        m != n ==> reg_has(reg_insert(r, m, st), n) == reg_has(r, n),
        m != n && reg_has(r, n) ==> reg_state(reg_insert(r, m, st), n) == reg_state(r, n),
        m != n && reg_has(r, n) ==> reg_entry(reg_insert(r, m, st), n) == reg_entry(r, n),
        reg_entry(reg_insert(r, m, st), m) == (m, st, Seq::<(usize, Node<S>)>::empty()),
{
    let r2 = reg_insert(r, m, st);
    if reg_has(r, m) {
        let i = reg_idx(r, m);
        assert(r2 == r.update(i, (m, st, seq![])));
        assert(r2[i].0 == m);
    } else {
        assert(r2 == r.push((m, st, seq![])));
        assert(r2[r.len() as int].0 == m);
        assert forall|i: int, j: int| 0 <= i < r2.len() && 0 <= j < r2.len() && i != j implies (#[trigger] r2[i]).0
            != (#[trigger] r2[j]).0 by {
            if i < r.len() && j < r.len() {
                assert(r[i] == r2[i] && r[j] == r2[j]);
            } else if i < r.len() {
                assert(r[i] == r2[i]);
                assert(!(0 <= i < r.len() && r[i].0 == m));
            } else {
                assert(r[j] == r2[j]);
                assert(!(0 <= j < r.len() && r[j].0 == m));
            }
        }
    }
    assert(reg_unique(r2));
    let k = reg_idx(r2, m);
    assert(0 <= k < r2.len() && r2[k].0 == m);
    if reg_has(r, m) {
        let i = reg_idx(r, m);
        assert(k == i) by {
            if k != i {
                assert(r2[k].0 != r2[i].0);
            }
        }
    } else {
        assert(k == r.len()) by {
            if k != r.len() {
                assert(r2[k] == r[k]);
            }
        }
    }
    if m != n {
        if reg_has(r, n) {
            let i = reg_idx(r, n);
            assert(0 <= i < r.len() && r[i].0 == n);
            assert(r2[i] == r[i]) by {
                if reg_has(r, m) {
                    assert(r[reg_idx(r, m)].0 == m);
                }
            }
            assert(reg_has(r2, n));
            let j = reg_idx(r2, n);
            assert(0 <= j < r2.len() && r2[j].0 == n);
            assert(j == i) by {
                if j != i {
                    assert(r2[j].0 != r2[i].0);
                }
            }
        }
        if reg_has(r2, n) {
            let j = reg_idx(r2, n);
            assert(0 <= j < r2.len() && r2[j].0 == n);
            if reg_has(r, m) {
                assert(r[j].0 == n);
            } else {
                assert(j < r.len());
                assert(r[j].0 == n);
            }
        }
    }
}

proof fn lemma_record<S>(r: Seq<Entry<S>>, m: Seq<char>, k: usize, c: Node<S>, n: Seq<char>)
    requires
        reg_unique(r),
    ensures
        reg_unique(reg_record(r, m, k, c)),
        reg_has(reg_record(r, m, k, c), n) == reg_has(r, n),
        reg_has(r, n) ==> reg_state(reg_record(r, m, k, c), n) == reg_state(r, n),
        m != n && reg_has(r, n) ==> reg_entry(reg_record(r, m, k, c), n) == reg_entry(r, n),
        m == n && reg_has(r, n) ==> reg_entry(reg_record(r, m, k, c), n) == (
            n,
            reg_entry(r, n).1,
            reg_entry(r, n).2.push((k, c)),
        ),
{
    let r2 = reg_record(r, m, k, c);
    if reg_has(r, m) {
        let i = reg_idx(r, m);
        assert(0 <= i < r.len() && r[i].0 == m);
        assert(r2.len() == r.len());
        assert forall|j: int| 0 <= j < r.len() implies (#[trigger] r2[j]).0 == r[j].0 && r2[j].1 == r[j].1 by {
        }
        assert forall|a: int, b: int| 0 <= a < r2.len() && 0 <= b < r2.len() && a != b implies (#[trigger] r2[a]).0
            != (#[trigger] r2[b]).0 by {
            assert(r2[a].0 == r[a].0 && r2[b].0 == r[b].0);
        }
        if reg_has(r, n) {
            let p = reg_idx(r, n);
            assert(0 <= p < r.len() && r[p].0 == n);
            assert(r2[p].0 == n);
            assert(reg_has(r2, n));
            let q = reg_idx(r2, n);
            assert(0 <= q < r2.len() && r2[q].0 == n);
            assert(r[q].0 == n);
            assert(q == p) by {
                if q != p {
                    assert(r[q].0 != r[p].0);
                }
            }
        }
        if reg_has(r2, n) {
            let q = reg_idx(r2, n);
            assert(r[q].0 == n);
        }
    }
}

proof fn lemma_take_keeps<S>(t: Node<S>, r: Seq<Entry<S>>, n: Seq<char>)
    requires
        reg_unique(r),
        absent(t, n),
    ensures
        reg_unique(take_spec(t, r).1),
        reg_has(take_spec(t, r).1, n) == reg_has(r, n),
        reg_has(r, n) ==> reg_state(take_spec(t, r).1, n) == reg_state(r, n),
        reg_has(r, n) ==> reg_entry(take_spec(t, r).1, n) == reg_entry(r, n),
    decreases t, t.children.len() + 1,
{
    match name_of(t.id) {
        Some(m) => {
            lemma_insert(r, m, t.state, n);
            lemma_take_kids_keeps(t, Some(m), t.children.len() as int, reg_insert(r, m, t.state), n);
        },
        None => {
            lemma_take_kids_keeps(t, None, t.children.len() as int, r, n);
        },
    }
}

proof fn lemma_take_kids_keeps<S>(t: Node<S>, owner: Option<Seq<char>>, k: int, r: Seq<Entry<S>>, n: Seq<char>)
    requires
        reg_unique(r),
        absent_kids(t, n, k),
    ensures
        reg_unique(take_kids(t, owner, k, r).1),
        reg_has(take_kids(t, owner, k, r).1, n) == reg_has(r, n),
        reg_has(r, n) ==> reg_state(take_kids(t, owner, k, r).1, n) == reg_state(r, n),
        owner != Some(n) && reg_has(r, n) ==> reg_entry(take_kids(t, owner, k, r).1, n) == reg_entry(r, n),
    decreases t, k,
{
    if k <= 0 || k > t.children.len() {
    } else {
        lemma_take_kids_keeps(t, owner, k - 1, r, n);
        let r1 = take_kids(t, owner, k - 1, r).1;
        lemma_take_keeps(t.children[k - 1], r1, n);
        let (c2, r2) = take_spec(t.children[k - 1], r1);
        if let Some(m) = owner {
            lemma_record(r2, m, (k - 1) as usize, c2, n);
        }
    }
}

proof fn lemma_take_finds<S>(t: Node<S>, r: Seq<Entry<S>>, n: Seq<char>, s: State<S>)
    requires
        reg_unique(r),
        !reg_has(r, n),
        named_once(t, n, s),
    ensures
        reg_unique(take_spec(t, r).1),
        reg_has(take_spec(t, r).1, n),
        reg_state(take_spec(t, r).1, n) == s,
    decreases t, t.children.len() + 1,
{
    match name_of(t.id) {
        Some(m) => {
            lemma_insert(r, m, t.state, n);
            if m == n {
                lemma_take_kids_keeps(t, Some(m), t.children.len() as int, reg_insert(r, m, t.state), n);
            } else {
                lemma_take_kids_finds(t, Some(m), t.children.len() as int, reg_insert(r, m, t.state), n, s);
            }
        },
        None => {
            lemma_take_kids_finds(t, None, t.children.len() as int, r, n, s);
        },
    }
}

proof fn lemma_take_kids_finds<S>(
    t: Node<S>,
    owner: Option<Seq<char>>,
    k: int,
    r: Seq<Entry<S>>,
    n: Seq<char>,
    s: State<S>,
)
    requires
        reg_unique(r),
        !reg_has(r, n),
        once_kids(t, n, s, k),
    ensures
        reg_unique(take_kids(t, owner, k, r).1),
        reg_has(take_kids(t, owner, k, r).1, n),
        reg_state(take_kids(t, owner, k, r).1, n) == s,
    decreases t, k,
{
    let r1 = take_kids(t, owner, k - 1, r).1;
    if once_kids(t, n, s, k - 1) && absent(t.children[k - 1], n) {
        lemma_take_kids_finds(t, owner, k - 1, r, n, s);
        lemma_take_keeps(t.children[k - 1], r1, n);
    } else {
        lemma_take_kids_keeps(t, owner, k - 1, r, n);
        lemma_take_finds(t.children[k - 1], r1, n, s);
    }
    let (c2, r2) = take_spec(t.children[k - 1], r1);
    if let Some(m) = owner {
        lemma_record(r2, m, (k - 1) as usize, c2, n);
    }
}

/// A widget named `n` takes the state detached under `n`, whatever tree it is
/// reconciled with: its place in the tree does not matter. The node also
/// takes the widget's tag and id, so it carries the name `n` again and the
/// next extraction finds it: the state goes on from pass to pass.
pub proof fn lemma_named_widget_takes_detached_state<S>(t: Node<S>, e: Node<S>, r: Seq<Entry<S>>, n: Seq<char>)
    requires
        name_of(e.id) == Some(n),
        reg_has(r, n),
    ensures
        diff_spec(t, e, r).0.state == reg_state(r, n),
        diff_spec(t, e, r).0.id == e.id,
        diff_spec(t, e, r).0.tag == e.tag,
        name_of(diff_spec(t, e, r).0.id) == Some(n),
{
}

/// Round trip of a move: when the name `n` occurs once in the old tree, on a
/// node with state `s`, extracting the named states of the old tree and then
/// reconciling any tree with a widget named `n` gives that node's state back.
pub proof fn lemma_named_state_survives_move<S>(before: Node<S>, n: Seq<char>, s: State<S>, t: Node<S>, e: Node<S>)
    requires
        named_once(before, n, s),
        name_of(e.id) == Some(n),
    ensures
        reg_has(take_spec(before, Seq::<Entry<S>>::empty()).1, n),
        diff_spec(t, e, take_spec(before, Seq::<Entry<S>>::empty()).1).0.state == s,
{
    lemma_take_finds(before, Seq::<Entry<S>>::empty(), n, s);
}


proof fn lemma_remove<S>(r: Seq<Entry<S>>, m: Seq<char>, n: Seq<char>)
    requires
        reg_unique(r),
        m != n,
    ensures
        reg_unique(reg_remove(r, m)),
        reg_has(reg_remove(r, m), n) == reg_has(r, n),
        reg_has(r, n) ==> reg_state(reg_remove(r, m), n) == reg_state(r, n),
{
    if reg_has(r, m) {
        let i = reg_idx(r, m);
        assert(0 <= i < r.len() && r[i].0 == m);
        let r2 = r.remove(i);
        assert(reg_remove(r, m) == r2);
        assert forall|a: int, b: int| 0 <= a < r2.len() && 0 <= b < r2.len() && a != b implies (#[trigger] r2[a]).0
            != (#[trigger] r2[b]).0 by {
            let a2 = if a < i { a } else { a + 1 };
            let b2 = if b < i { b } else { b + 1 };
            assert(r2[a] == r[a2] && r2[b] == r[b2]);
        }
        if reg_has(r, n) {
            let p = reg_idx(r, n);
            assert(0 <= p < r.len() && r[p].0 == n);
            assert(p != i);
            let p2 = if p < i { p } else { p - 1 };
            assert(r2[p2] == r[p]);
            assert(reg_has(r2, n));
            let q = reg_idx(r2, n);
            assert(0 <= q < r2.len() && r2[q].0 == n);
            assert(q == p2) by {
                if q != p2 {
                    assert(r2[q].0 != r2[p2].0);
                }
            }
        }
        if reg_has(r2, n) {
            let q = reg_idx(r2, n);
            assert(0 <= q < r2.len() && r2[q].0 == n);
            let q2 = if q < i { q } else { q + 1 };
            assert(r[q2] == r2[q]);
        }
    }
}

proof fn lemma_absent_kids_all<S>(t: Node<S>, n: Seq<char>, k: int)
    requires
        absent_kids(t, n, k),
        k <= t.children.len(),
    ensures
        forall|i: int| 0 <= i < k ==> absent(#[trigger] t.children[i], n),
    decreases k,
{
    if k > 0 {
        lemma_absent_kids_all(t, n, k - 1);
    }
}

/// Reconciling a widget that carries the name `n` nowhere leaves the entry of
/// `n` in the registry as it was.
pub proof fn lemma_other_widgets_keep_entry<S>(t: Node<S>, e: Node<S>, r: Seq<Entry<S>>, n: Seq<char>)
    requires
        reg_unique(r),
        absent(e, n),
    ensures
        reg_unique(diff_spec(t, e, r).2),
        reg_has(diff_spec(t, e, r).2, n) == reg_has(r, n),
        reg_has(r, n) ==> reg_state(diff_spec(t, e, r).2, n) == reg_state(r, n),
    decreases e, 0int,
{
    lemma_absent_kids_all(e, n, e.children.len() as int);
    let tag_match = t.tag == e.tag;
    match name_of(e.id) {
        Some(m) => {
            if reg_has(r, m) {
                let en = r[reg_idx(r, m)];
                let cs = if !tag_match || t.children.len() != e.children.len() {
                    e.children
                } else {
                    crate::tree::put_back(t.children, en.2)
                };
                lemma_remove(r, m, n);
                lemma_kids_keep_entry(cs, e.children, reg_remove(r, m), n);
            } else {
                lemma_kids_keep_entry(e.children, e.children, r, n);
            }
        },
        None => {
            if tag_match {
                let cs = if t.children.len() != e.children.len() { e.children } else { t.children };
                lemma_kids_keep_entry(cs, e.children, r, n);
            } else {
                lemma_kids_keep_entry(e.children, e.children, r, n);
            }
        },
    }
}

proof fn lemma_kids_keep_entry<S>(cs: Seq<Node<S>>, es: Seq<Node<S>>, r: Seq<Entry<S>>, n: Seq<char>)
    requires
        reg_unique(r),
        forall|i: int| 0 <= i < es.len() ==> absent(#[trigger] es[i], n),
    ensures
        reg_unique(kids_spec(cs, es, r).2),
        reg_has(kids_spec(cs, es, r).2, n) == reg_has(r, n),
        reg_has(r, n) ==> reg_state(kids_spec(cs, es, r).2, n) == reg_state(r, n),
    decreases es, es.len() + 1,
{
    let cs0 = if cs.len() > es.len() { cs.take(es.len() as int) } else { cs };
    lemma_steps_keep_entry(cs0, es, ids_of(es), es.len() as int, r, n);
}

proof fn lemma_steps_keep_entry<S>(
    cs0: Seq<Node<S>>,
    es: Seq<Node<S>>,
    ids: Seq<Option<crate::id::Id>>,
    k: int,
    r: Seq<Entry<S>>,
    n: Seq<char>,
)
    requires
        reg_unique(r),
        forall|i: int| 0 <= i < es.len() ==> absent(#[trigger] es[i], n),
    ensures
        reg_unique(kid_steps(cs0, es, ids, k, r).reg),
        reg_has(kid_steps(cs0, es, ids, k, r).reg, n) == reg_has(r, n),
        reg_has(r, n) ==> reg_state(kid_steps(cs0, es, ids, k, r).reg, n) == reg_state(r, n),
    decreases es, k,
{
    if k <= 0 || k > es.len() || k > ids.len() {
    } else {
        lemma_steps_keep_entry(cs0, es, ids, k - 1, r, n);
        let s = kid_steps(cs0, es, ids, k - 1, r);
        let i = k - 1;
        let w = es[i];
        assert(absent(w, n));
        let slot = match name_of(ids[i]) {
            Some(m) => last_named_upto(cs0, m, cs0.len() as int),
            None => None,
        };
        let list = unnamed_upto(cs0, cs0.len() as int);
        if slot is Some && !s.taken[slot->0] {
            lemma_other_widgets_keep_entry(s.cs[slot->0], w, s.reg, n);
        } else if s.p < list.len() {
            let j = list[s.p] as int;
            let c = if cs0.len() != es.len() {
                Node { tag: s.cs[j].tag, id: ids[i], state: s.cs[j].state, children: s.cs[j].children }
            } else {
                s.cs[j]
            };
            lemma_other_widgets_keep_entry(c, w, s.reg, n);
        } else {
            lemma_other_widgets_keep_entry(w, w, s.reg, n);
        }
    }
}

/// Round trip of a move within a pass: the named states of the old tree are
/// extracted, other widgets (none named `n`) are reconciled first, and then a
/// widget named `n` is reconciled wherever it now stands; it gets the state of
/// the one old node named `n`.
pub proof fn lemma_named_state_survives_pass<S>(
    before: Node<S>,
    n: Seq<char>,
    s: State<S>,
    t1: Node<S>,
    e1: Node<S>,
    t2: Node<S>,
    e2: Node<S>,
)
    requires
        named_once(before, n, s),
        absent(e1, n),
        name_of(e2.id) == Some(n),
    ensures
        ({
            let r0 = take_spec(before, Seq::<Entry<S>>::empty()).1;
            let r1 = diff_spec(t1, e1, r0).2;
            diff_spec(t2, e2, r1).0.state == s
        }),
{
    lemma_take_finds(before, Seq::<Entry<S>>::empty(), n, s);
    let r0 = take_spec(before, Seq::<Entry<S>>::empty()).1;
    lemma_other_widgets_keep_entry(t1, e1, r0, n);
}


proof fn lemma_take_tree_independent<S>(t: Node<S>, r: Seq<Entry<S>>, r2: Seq<Entry<S>>)
    ensures
        take_spec(t, r).0 == take_spec(t, r2).0,
    decreases t, t.children.len() + 1,
{
    match name_of(t.id) {
        Some(m) => {
            lemma_take_kids_tree_independent(t, Some(m), t.children.len() as int, reg_insert(r, m, t.state), reg_insert(r2, m, t.state));
        },
        None => {
            lemma_take_kids_tree_independent(t, None, t.children.len() as int, r, r2);
        },
    }
}

proof fn lemma_take_kids_tree_independent<S>(t: Node<S>, owner: Option<Seq<char>>, k: int, r: Seq<Entry<S>>, r2: Seq<Entry<S>>)
    ensures
        take_kids(t, owner, k, r).0 == take_kids(t, owner, k, r2).0,
    decreases t, k,
{
    if k > 0 && k <= t.children.len() {
        lemma_take_kids_tree_independent(t, owner, k - 1, r, r2);
        let r1 = take_kids(t, owner, k - 1, r).1;
        let r1b = take_kids(t, owner, k - 1, r2).1;
        lemma_take_tree_independent(t.children[k - 1], r1, r1b);
    }
}

/// What a named node's entry records of its children: each unnamed child,
/// once its own named descendants are extracted, with its position; named
/// children are not recorded (they get entries of their own).
pub open spec fn child_records<S>(t: Node<S>, k: int) -> Seq<(usize, Node<S>)>
    decreases k,
{
    if k <= 0 || k > t.children.len() {
        seq![]
    } else {
        let p = child_records(t, k - 1);
        if name_of(t.children[k - 1].id) is None {
            p.push(((k - 1) as usize, take_spec(t.children[k - 1], Seq::<Entry<S>>::empty()).0))
        } else {
            p
        }
    }
}

proof fn lemma_kids_records<S>(t: Node<S>, n: Seq<char>, k: int, r: Seq<Entry<S>>)
    requires
        reg_unique(r),
        reg_has(r, n),
        0 <= k <= t.children.len(),
        absent_kids(t, n, k),
    ensures
        reg_unique(take_kids(t, Some(n), k, r).1),
        reg_has(take_kids(t, Some(n), k, r).1, n),
        reg_entry(take_kids(t, Some(n), k, r).1, n) == (
            reg_entry(r, n).0,
            reg_entry(r, n).1,
            reg_entry(r, n).2 + child_records(t, k),
        ),
    decreases k,
{
    if k == 0 {
        assert(reg_entry(r, n).2 + child_records(t, 0) =~= reg_entry(r, n).2);
    } else {
        lemma_kids_records(t, n, k - 1, r);
        let r1 = take_kids(t, Some(n), k - 1, r).1;
        let c = t.children[k - 1];
        lemma_take_keeps(c, r1, n);
        let (c2, r2) = take_spec(c, r1);
        lemma_take_tree_independent(c, r1, Seq::<Entry<S>>::empty());
        let e = reg_entry(r, n);
        assert(0 <= reg_idx(r, n) < r.len() && r[reg_idx(r, n)].0 == n);
        if name_of(c.id) is None {
            lemma_record(r2, n, (k - 1) as usize, c2, n);
            assert(e.2 + child_records(t, k) =~= (e.2 + child_records(t, k - 1)).push(((k - 1) as usize, c2)));
        } else {
            assert(child_records(t, k) == child_records(t, k - 1));
        }
    }
}

/// Extracting a named node `n` (with no other node named `n` below it)
/// gives `n` an entry holding the node's state and, for each unnamed child,
/// its own position and the child itself after its named descendants were
/// extracted: the extraction stops at the first named descendants, whose
/// states go to entries of their own.
pub proof fn lemma_named_node_records_children<S>(t: Node<S>, r: Seq<Entry<S>>, n: Seq<char>)
    requires
        name_of(t.id) == Some(n),
        reg_unique(r),
        absent_kids(t, n, t.children.len() as int),
    ensures
        reg_has(take_spec(t, r).1, n),
        reg_entry(take_spec(t, r).1, n) == (n, t.state, child_records(t, t.children.len() as int)),
{
    let r1 = reg_insert(r, n, t.state);
    lemma_insert(r, n, t.state, n);
    lemma_kids_records(t, n, t.children.len() as int, r1);
    assert(Seq::<(usize, Node<S>)>::empty() + child_records(t, t.children.len() as int) =~= child_records(
        t,
        t.children.len() as int,
    ));
}

} // verus!
