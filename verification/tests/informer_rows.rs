use roder_k8s::informer::{any_subscribers, may_hold, watch_key};
use roder_k8s::rows::{apply_watched, PageNext, PagedList, RowChange, RowTable};

fn uids<T>(table: &RowTable<T>) -> Vec<String> {
    let mut out: Vec<String> = table.rows().iter().map(|(u, _)| u.clone()).collect();
    out.sort();
    out
}

#[test]
fn paged_lists_commit_after_the_last_page_only() {
    let mut list: PagedList<u32> = PagedList::new();
    let first = list.add_page(vec![("a".into(), 1), ("b".into(), 2)], "100", "token-1");
    assert!(matches!(first, PageNext::Continue(ref t) if t == "token-1"));
    let last = list.add_page(vec![("b".into(), 3), ("c".into(), 4)], "200", "");
    assert!(matches!(last, PageNext::Commit));
    assert_eq!(list.resource_version, "100");
    assert_eq!(uids(&list.rows), vec!["a", "b", "c"]);
    let b = list.rows.rows().iter().find(|(u, _)| u == "b").unwrap().1;
    assert_eq!(b, 3);
}

#[test]
fn later_rows_of_one_page_replace_earlier_ones() {
    let mut list: PagedList<&str> = PagedList::new();
    list.add_page(vec![("x".into(), "old"), ("x".into(), "new")], "", "");
    assert_eq!(list.rows.rows().len(), 1);
    assert_eq!(list.rows.rows()[0].1, "new");
    assert_eq!(list.resource_version, "");
}

#[test]
fn watch_events_apply_and_delete_rows() {
    let mut table: RowTable<u32> = RowTable::new();
    assert!(matches!(apply_watched(&mut table, "u1".into(), Some(1)), RowChange::Applied));
    assert!(matches!(apply_watched(&mut table, "u1".into(), Some(2)), RowChange::Applied));
    assert_eq!(table.rows().len(), 1);
    assert!(matches!(apply_watched(&mut table, "u2".into(), None), RowChange::Unchanged));
    assert!(matches!(apply_watched(&mut table, "u1".into(), None), RowChange::Deleted));
    assert!(table.rows().is_empty());
    assert!(!table.remove("u1"));
}

#[test]
fn subscriptions_share_informers_by_key() {
    let key = watch_key("apps", "v1", "Deployment", true, Some("shop".into()), Some(String::new()));
    assert_eq!(key.resource_key, "apps/v1/Deployment");
    assert_eq!(key.namespace.as_deref(), Some("shop"));
    assert_eq!(key.selector, None);
    let cluster = watch_key("", "v1", "Node", false, Some("shop".into()), Some("role=db".into()));
    assert_eq!(cluster.namespace, None);
    assert_eq!(cluster.selector.as_deref(), Some("role=db"));
    assert!(may_hold(&key, "apps/v1/Deployment", Some("shop")));
    assert!(!may_hold(&key, "apps/v1/Deployment", Some("other")));
    assert!(may_hold(&key, "apps/v1/Deployment", None));
    assert!(!may_hold(&key, "apps/v1/StatefulSet", Some("shop")));
    assert!(any_subscribers(&[0, 2, 0]));
    assert!(!any_subscribers(&[0, 0]));
}
