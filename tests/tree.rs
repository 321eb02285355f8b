use widget_tree::id::Id;
use widget_tree::tag::Tag;
use widget_tree::tree::{diff_children_custom_with_search, Element, Named, State, Tree};

struct T1;
struct T2;
struct T3;
struct Root;

fn leaf(tag: Tag, s: u32) -> Element<u32> {
    Element::new(tag, State::new(s))
}

fn value(t: &Tree<u32>) -> Option<u32> {
    match t.state {
        State::Value(v) => Some(v),
        State::Empty => None,
    }
}

fn name(s: &str) -> Id {
    Id::new(s.to_string())
}

#[test]
fn tag_equality() {
    assert!(Tag::of::<T1>() == Tag::of::<T1>());
    assert!(Tag::of::<T1>() != Tag::of::<T2>());
    assert!(Tag::stateless() == Tag::of::<()>());
}

#[test]
fn new_tree_copies_widget_shape() {
    let w = leaf(Tag::of::<Root>(), 7).push(leaf(Tag::of::<T1>(), 1)).push(leaf(Tag::of::<T2>(), 2));
    let t = Tree::new(&w);
    assert_eq!(value(&t), Some(7));
    assert_eq!(t.children.len(), 2);
    assert_eq!(value(&t.children[1]), Some(2));
    assert!(t.children[1].tag == Tag::of::<T2>());
}

#[test]
fn empty_tree_is_stateless() {
    let t: Tree<u32> = Tree::empty();
    assert!(t.tag == Tag::stateless());
    assert!(t.children.is_empty());
    assert!(t.id.is_none());
    assert_eq!(value(&t), None);
}

#[test]
fn matching_tag_keeps_state() {
    let mut t = Tree::new(&leaf(Tag::of::<T1>(), 1));
    let mut w = leaf(Tag::of::<T1>(), 99);
    let mut named = Named::new();
    t.diff(&mut w, &mut named);
    assert_eq!(value(&t), Some(1));
}

#[test]
fn mismatched_tag_rebuilds_state() {
    let mut t = Tree::new(&leaf(Tag::of::<T1>(), 1).push(leaf(Tag::of::<T2>(), 5)));
    let mut w = leaf(Tag::of::<T2>(), 99);
    let mut named = Named::new();
    t.diff(&mut w, &mut named);
    assert_eq!(value(&t), Some(99));
    assert!(t.tag == Tag::of::<T2>());
    assert!(t.children.is_empty());
}

#[test]
fn tree_id_is_handed_to_widget() {
    let mut t = Tree::new(&leaf(Tag::of::<T1>(), 1).with_id(Id::unique(4)));
    let mut w = leaf(Tag::of::<T1>(), 2);
    let mut named = Named::new();
    t.diff(&mut w, &mut named);
    assert!(w.id().unwrap().same(&Id::unique(4)));
}

#[test]
fn positional_children_keep_state_until_tag_changes() {
    let old = leaf(Tag::of::<Root>(), 0)
        .push(leaf(Tag::of::<T1>(), 1))
        .push(leaf(Tag::of::<T2>(), 2))
        .push(leaf(Tag::of::<T1>(), 3));
    let mut t = Tree::new(&old);
    let mut w = leaf(Tag::of::<Root>(), 0)
        .push(leaf(Tag::of::<T1>(), 10))
        .push(leaf(Tag::of::<T2>(), 20))
        .push(leaf(Tag::of::<T3>(), 30));
    let mut named = Named::new();
    t.diff(&mut w, &mut named);
    assert_eq!(t.children.len(), 3);
    assert_eq!(value(&t.children[0]), Some(1));
    assert_eq!(value(&t.children[1]), Some(2));
    assert_eq!(value(&t.children[2]), Some(30));
    assert!(t.children[2].tag == Tag::of::<T3>());
}

#[test]
fn reordered_named_child_keeps_state() {
    let old = leaf(Tag::of::<Root>(), 0)
        .push(leaf(Tag::of::<T1>(), 1).with_id(name("x")))
        .push(leaf(Tag::of::<T2>(), 2));
    let mut t = Tree::new(&old);
    let mut named = t.take_all_named();
    let mut w = leaf(Tag::of::<Root>(), 0)
        .push(leaf(Tag::of::<T2>(), 20))
        .push(leaf(Tag::of::<T1>(), 10).with_id(name("x")));
    t.diff(&mut w, &mut named);
    assert_eq!(t.children.len(), 2);
    assert_eq!(value(&t.children[0]), Some(1));
    assert!(t.children[0].id.as_ref().unwrap().same(&name("x")));
    assert_eq!(value(&t.children[1]), Some(2));
    assert!(named.is_empty());
}

#[test]
fn take_all_named_stops_at_named_descendants() {
    let d = leaf(Tag::of::<T3>(), 3).with_id(name("d")).push(leaf(Tag::of::<T1>(), 4));
    let u = leaf(Tag::of::<T2>(), 2).push(d);
    let a = leaf(Tag::of::<T1>(), 1).with_id(name("a")).push(u);
    let mut t = Tree::new(&a);
    let named = t.take_all_named();
    assert_eq!(named.len(), 2);

    let ea = named.get(&"a".to_string()).unwrap();
    assert!(matches!(ea.state, State::Value(1)));
    assert_eq!(ea.children.len(), 1);
    assert_eq!(ea.children[0].0, 0);
    let moved = &ea.children[0].1;
    assert_eq!(value(moved), Some(2));
    assert_eq!(moved.children.len(), 1);
    // the named descendant stays in place, without its state
    assert!(moved.children[0].id.as_ref().unwrap().same(&name("d")));
    assert_eq!(value(&moved.children[0]), None);

    let ed = named.get(&"d".to_string()).unwrap();
    assert!(matches!(ed.state, State::Value(3)));
    assert_eq!(ed.children.len(), 1);
    assert_eq!(ed.children[0].0, 0);
    assert_eq!(value(&ed.children[0].1), Some(4));

    // what stays behind: empty nodes with the same tags and ids
    assert_eq!(value(&t), None);
    assert_eq!(t.children.len(), 1);
    assert_eq!(value(&t.children[0]), None);
    assert!(t.children[0].tag == Tag::of::<T2>());
}

#[test]
fn take_all_named_records_real_positions() {
    let a = leaf(Tag::of::<Root>(), 0)
        .with_id(name("a"))
        .push(leaf(Tag::of::<T1>(), 1))
        .push(leaf(Tag::of::<T1>(), 2).with_id(name("b")))
        .push(leaf(Tag::of::<T2>(), 3));
    let mut t = Tree::new(&a);
    let named = t.take_all_named();
    let ea = named.get(&"a".to_string()).unwrap();
    assert_eq!(ea.children.len(), 2);
    assert_eq!(ea.children[0].0, 0);
    assert_eq!(value(&ea.children[0].1), Some(1));
    assert_eq!(ea.children[1].0, 2);
    assert_eq!(value(&ea.children[1].1), Some(3));
}

#[test]
fn named_state_survives_change_of_parent() {
    let old = leaf(Tag::of::<Root>(), 0)
        .push(leaf(Tag::of::<T2>(), 1).push(leaf(Tag::of::<T1>(), 7).with_id(name("x"))))
        .push(leaf(Tag::of::<T3>(), 2));
    let mut t = Tree::new(&old);
    let mut named = t.take_all_named();
    let mut w = leaf(Tag::of::<Root>(), 0)
        .push(leaf(Tag::of::<T2>(), 10))
        .push(leaf(Tag::of::<T3>(), 20).push(leaf(Tag::of::<T1>(), 70).with_id(name("x"))));
    t.diff(&mut w, &mut named);
    assert_eq!(t.children[0].children.len(), 0);
    assert_eq!(t.children[1].children.len(), 1);
    assert_eq!(value(&t.children[1].children[0]), Some(7));
}

#[test]
fn named_widget_without_detached_state_is_rebuilt() {
    let mut t = Tree::new(&leaf(Tag::of::<T1>(), 1).with_id(name("x")));
    let mut w = leaf(Tag::of::<T1>(), 5).with_id(name("x"));
    let mut named = Named::new();
    t.diff(&mut w, &mut named);
    assert_eq!(value(&t), Some(5));
}

#[test]
fn extra_new_children_get_fresh_nodes() {
    let mut t = Tree::new(&leaf(Tag::of::<Root>(), 0).push(leaf(Tag::of::<T1>(), 1)));
    let mut w = leaf(Tag::of::<Root>(), 0)
        .push(leaf(Tag::of::<T1>(), 10))
        .push(leaf(Tag::of::<T2>(), 20));
    let mut named = Named::new();
    t.diff_children(&mut w.children, &mut named);
    assert_eq!(t.children.len(), 2);
    assert_eq!(value(&t.children[0]), Some(1));
    assert_eq!(value(&t.children[1]), Some(20));
}

#[test]
fn excess_old_children_are_dropped() {
    let mut t = Tree::new(
        &leaf(Tag::of::<Root>(), 0)
            .push(leaf(Tag::of::<T1>(), 1))
            .push(leaf(Tag::of::<T1>(), 2))
            .push(leaf(Tag::of::<T1>(), 3)),
    );
    let mut kids = vec![leaf(Tag::of::<T1>(), 10)];
    let mut named = Named::new();
    t.diff_children(&mut kids, &mut named);
    assert_eq!(t.children.len(), 1);
    assert_eq!(value(&t.children[0]), Some(1));
}

#[test]
fn find_by_id() {
    let w = leaf(Tag::of::<Root>(), 0)
        .push(leaf(Tag::of::<T1>(), 1).push(leaf(Tag::of::<T2>(), 2).with_id(name("deep"))))
        .push(leaf(Tag::of::<T3>(), 3).with_id(Id::unique(9)));
    let t = Tree::new(&w);
    assert_eq!(value(t.find(&name("deep")).unwrap()), Some(2));
    assert_eq!(value(t.find(&Id::unique(9)).unwrap()), Some(3));
    assert!(t.find(&name("none")).is_none());
    assert!(t.find(&Id::unique(8)).is_none());
}

#[test]
fn search_with_no_widgets_clears() {
    let mut cur = vec![Tree::new(&leaf(Tag::of::<T1>(), 1)), Tree::new(&leaf(Tag::of::<T1>(), 2))];
    let mut news: Vec<Element<u32>> = Vec::new();
    let mut named = Named::new();
    diff_children_custom_with_search(&mut cur, &mut news, |_| true, &mut named);
    assert!(cur.is_empty());
}

#[test]
fn search_with_no_children_creates_all() {
    let mut cur: Vec<Tree<u32>> = Vec::new();
    let mut news = vec![leaf(Tag::of::<T1>(), 1), leaf(Tag::of::<T2>(), 2), leaf(Tag::of::<T3>(), 3)];
    let mut named = Named::new();
    diff_children_custom_with_search(&mut cur, &mut news, |_| false, &mut named);
    assert_eq!(cur.len(), 3);
    assert_eq!(value(&cur[0]), Some(1));
    assert_eq!(value(&cur[2]), Some(3));
    assert!(cur[1].tag == Tag::of::<T2>());
}

#[test]
fn search_prepend_inserts_at_front() {
    let mut cur = vec![Tree::new(&leaf(Tag::of::<T1>(), 1)), Tree::new(&leaf(Tag::of::<T1>(), 2))];
    let mut news = vec![leaf(Tag::of::<T1>(), 0), leaf(Tag::of::<T1>(), 10), leaf(Tag::of::<T1>(), 20)];
    let mut named = Named::new();
    diff_children_custom_with_search(&mut cur, &mut news, |i| i == 0, &mut named);
    assert_eq!(cur.len(), 3);
    assert_eq!(value(&cur[0]), Some(0));
    assert_eq!(value(&cur[1]), Some(1));
    assert_eq!(value(&cur[2]), Some(2));
}

#[test]
fn search_append_extends_at_back() {
    let mut cur = vec![Tree::new(&leaf(Tag::of::<T1>(), 1)), Tree::new(&leaf(Tag::of::<T1>(), 2))];
    let mut news = vec![leaf(Tag::of::<T1>(), 10), leaf(Tag::of::<T1>(), 20), leaf(Tag::of::<T1>(), 30)];
    let mut named = Named::new();
    diff_children_custom_with_search(&mut cur, &mut news, |i| i == 1, &mut named);
    assert_eq!(cur.len(), 3);
    assert_eq!(value(&cur[0]), Some(1));
    assert_eq!(value(&cur[1]), Some(2));
    assert_eq!(value(&cur[2]), Some(30));
}

#[test]
fn search_interior_removal() {
    let mut cur = vec![
        Tree::new(&leaf(Tag::of::<T1>(), 1)),
        Tree::new(&leaf(Tag::of::<T1>(), 2)),
        Tree::new(&leaf(Tag::of::<T1>(), 3)),
        Tree::new(&leaf(Tag::of::<T1>(), 4)),
    ];
    let mut news = vec![leaf(Tag::of::<T1>(), 10), leaf(Tag::of::<T1>(), 30), leaf(Tag::of::<T1>(), 40)];
    let mut named = Named::new();
    diff_children_custom_with_search(&mut cur, &mut news, |i| i == 1, &mut named);
    assert_eq!(cur.len(), 3);
    assert_eq!(value(&cur[0]), Some(1));
    assert_eq!(value(&cur[1]), Some(3));
    assert_eq!(value(&cur[2]), Some(4));
}

#[test]
fn search_removal_index_is_kept_in_bounds() {
    let mut cur = vec![
        Tree::new(&leaf(Tag::of::<T1>(), 1)),
        Tree::new(&leaf(Tag::of::<T1>(), 2)),
        Tree::new(&leaf(Tag::of::<T1>(), 3)),
        Tree::new(&leaf(Tag::of::<T1>(), 4)),
    ];
    let mut news = vec![leaf(Tag::of::<T1>(), 10)];
    let mut named = Named::new();
    diff_children_custom_with_search(&mut cur, &mut news, |i| i == 2, &mut named);
    assert_eq!(cur.len(), 1);
    assert_eq!(value(&cur[0]), Some(1));
}

#[test]
fn spliced_insertion_at_index() {
    let mut cur = vec![Tree::new(&leaf(Tag::of::<T1>(), 1)), Tree::new(&leaf(Tag::of::<T1>(), 2))];
    let mut news = vec![leaf(Tag::of::<T1>(), 10), leaf(Tag::of::<T2>(), 15), leaf(Tag::of::<T1>(), 20)];
    let mut named = Named::new();
    widget_tree::tree::diff_children_spliced(&mut cur, &mut news, 1, &mut named);
    assert_eq!(value(&cur[0]), Some(1));
    assert_eq!(value(&cur[1]), Some(15));
    assert_eq!(value(&cur[2]), Some(2));
}

#[test]
fn registry_insert_replaces_and_remove_takes() {
    let mut named: Named<u32> = Named::new();
    named.insert("a".to_string(), State::new(1));
    named.insert("b".to_string(), State::new(2));
    named.insert("a".to_string(), State::new(3));
    assert_eq!(named.len(), 2);
    named.record(&"b".to_string(), 4, Tree::empty());
    let b = named.remove(&"b".to_string()).unwrap();
    assert!(matches!(b.state, State::Value(2)));
    assert_eq!(b.children.len(), 1);
    assert_eq!(b.children[0].0, 4);
    assert!(named.remove(&"b".to_string()).is_none());
    assert!(matches!(named.get(&"a".to_string()).unwrap().state, State::Value(3)));
}

#[test]
fn state_downcast() {
    let s = State::new(5u32);
    assert_eq!(*s.downcast_ref(), 5);
}

#[test]
fn state_downcast_mut() {
    let mut s = State::new(5u32);
    *s.downcast_mut() += 1;
    assert_eq!(*s.downcast_ref(), 6);
}

#[test]
fn custom_ids_drive_matching() {
    let old = leaf(Tag::of::<Root>(), 0)
        .push(leaf(Tag::of::<T1>(), 1))
        .push(leaf(Tag::of::<T1>(), 2).with_id(name("b")));
    let mut t = Tree::new(&old);
    let mut kids = vec![leaf(Tag::of::<T1>(), 10), leaf(Tag::of::<T1>(), 20)];
    let mut named = Named::new();
    t.diff_children_custom(&mut kids, vec![Some(name("b")), None], &mut named);
    assert_eq!(t.children.len(), 2);
    assert_eq!(value(&t.children[0]), Some(1));
    assert_eq!(value(&t.children[1]), Some(2));
    assert!(kids[0].id().unwrap().same(&name("b")));
    assert!(kids[1].id().is_none());
}

#[test]
fn custom_ids_shorter_than_widgets() {
    let mut t = Tree::new(&leaf(Tag::of::<Root>(), 0));
    let mut kids = vec![leaf(Tag::of::<T1>(), 10), leaf(Tag::of::<T2>(), 20)];
    let mut named = Named::new();
    t.diff_children_custom(&mut kids, vec![None], &mut named);
    assert_eq!(t.children.len(), 1);
    assert_eq!(value(&t.children[0]), Some(10));
}

#[test]
fn tree_adopts_widget_id_when_it_has_none() {
    let mut t = Tree::new(&leaf(Tag::of::<T1>(), 1));
    let mut w = leaf(Tag::of::<T1>(), 2).with_id(Id::unique(6));
    let mut named = Named::new();
    t.diff(&mut w, &mut named);
    assert!(t.id.as_ref().unwrap().same(&Id::unique(6)));
    assert!(w.id().unwrap().same(&Id::unique(6)));
    assert_eq!(value(&t), Some(1));
}

#[test]
fn unclaimed_named_child_is_dropped() {
    let mut t = Tree::new(&leaf(Tag::of::<Root>(), 0).push(leaf(Tag::of::<T1>(), 1).with_id(name("y"))));
    let mut kids = vec![leaf(Tag::of::<T1>(), 10).with_id(name("z"))];
    let mut named = Named::new();
    t.diff_children(&mut kids, &mut named);
    assert_eq!(t.children.len(), 1);
    assert_eq!(value(&t.children[0]), Some(10));
    assert!(t.children[0].id.as_ref().unwrap().same(&name("z")));
}

#[test]
fn named_state_survives_two_passes() {
    let old = leaf(Tag::of::<Root>(), 0)
        .push(leaf(Tag::of::<T2>(), 1).push(leaf(Tag::of::<T1>(), 7).with_id(name("x"))))
        .push(leaf(Tag::of::<T3>(), 2));
    let mut t = Tree::new(&old);
    // first pass: x moves under the second child
    let mut named = t.take_all_named();
    let mut w = leaf(Tag::of::<Root>(), 0)
        .push(leaf(Tag::of::<T2>(), 10))
        .push(leaf(Tag::of::<T3>(), 20).push(leaf(Tag::of::<T1>(), 70).with_id(name("x"))));
    t.diff(&mut w, &mut named);
    assert_eq!(value(&t.children[1].children[0]), Some(7));
    // second pass: x moves back to the first child
    let mut named = t.take_all_named();
    assert!(named.get(&"x".to_string()).is_some());
    let mut w = leaf(Tag::of::<Root>(), 0)
        .push(leaf(Tag::of::<T2>(), 10).push(leaf(Tag::of::<T1>(), 71).with_id(name("x"))))
        .push(leaf(Tag::of::<T3>(), 20));
    t.diff(&mut w, &mut named);
    assert_eq!(value(&t.children[0].children[0]), Some(7));
}

#[test]
fn search_append_when_only_last_may_change() {
    let mut cur = vec![Tree::new(&leaf(Tag::of::<T1>(), 1)), Tree::new(&leaf(Tag::of::<T1>(), 2))];
    let mut news = vec![leaf(Tag::of::<T1>(), 10), leaf(Tag::of::<T1>(), 20), leaf(Tag::of::<T2>(), 30), leaf(Tag::of::<T2>(), 40)];
    let mut named = Named::new();
    diff_children_custom_with_search(&mut cur, &mut news, |i| i == 1, &mut named);
    assert_eq!(cur.len(), 4);
    assert_eq!(value(&cur[0]), Some(1));
    assert_eq!(value(&cur[1]), Some(2));
    assert_eq!(value(&cur[2]), Some(30));
    assert_eq!(value(&cur[3]), Some(40));
}

#[test]
fn search_truncate_when_only_last_may_change() {
    let mut cur = vec![
        Tree::new(&leaf(Tag::of::<T1>(), 1)),
        Tree::new(&leaf(Tag::of::<T1>(), 2)),
        Tree::new(&leaf(Tag::of::<T1>(), 3)),
    ];
    let mut news = vec![leaf(Tag::of::<T1>(), 10), leaf(Tag::of::<T1>(), 20)];
    let mut named = Named::new();
    diff_children_custom_with_search(&mut cur, &mut news, |i| i == 2, &mut named);
    assert_eq!(cur.len(), 2);
    assert_eq!(value(&cur[0]), Some(1));
    assert_eq!(value(&cur[1]), Some(2));
}
