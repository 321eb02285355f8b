use widget_tree::id::Id;
use widget_tree::operation::search_id;

#[test]
fn search_id_finds_target() {
    let mut op = search_id(Id::new("target".to_string()));
    op.custom(None);
    op.custom(Some(&Id::new("other".to_string())));
    assert!(op.finish().is_none());
    op.custom(Some(&Id::new("target".to_string())));
    let found = op.finish().unwrap();
    assert!(found.same(&Id::new("target".to_string())));
    op.custom(Some(&Id::unique(3)));
    assert!(op.finish().is_some());
}

#[test]
fn unique_and_named_ids_differ() {
    assert!(Id::unique(1).same(&Id::unique(1)));
    assert!(!Id::unique(1).same(&Id::unique(2)));
    assert!(!Id::unique(1).same(&Id::new("1".to_string())));
    assert_eq!(Id::new("n".to_string()).name().unwrap(), "n");
    assert!(Id::unique(1).name().is_none());
}
