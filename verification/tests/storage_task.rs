use web_storage::storage_task::{StorageManager, StorageTaskAction, StorageTaskMsg};

const ORIGIN: &str = "https://example.com:443/";

fn s(text: &str) -> String {
    text.to_string()
}

#[test]
fn scenario_of_one_origin() {
    let mut manager = StorageManager::new();
    manager.set_item(s(ORIGIN), s("a"), s("1"));
    manager.set_item(s(ORIGIN), s("b"), s("2"));
    assert_eq!(manager.length(ORIGIN), 2);
    assert_eq!(manager.key(ORIGIN, 0), Some(s("a")));
    assert_eq!(manager.key(ORIGIN, 1), Some(s("b")));
    manager.set_item(s(ORIGIN), s("a"), s("3"));
    assert_eq!(manager.length(ORIGIN), 2);
    assert_eq!(manager.get_item(ORIGIN, "a"), Some(s("3")));
    manager.remove_item(ORIGIN, "b");
    assert_eq!(manager.length(ORIGIN), 1);
    manager.clear(ORIGIN);
    assert_eq!(manager.length(ORIGIN), 0);
    assert_eq!(manager.key(ORIGIN, 0), None);
}

#[test]
fn scenario_of_one_origin_by_requests() {
    let mut manager = StorageManager::new();
    let o = || s(ORIGIN);
    assert_eq!(
        manager.handle(StorageTaskMsg::SetItem(o(), s("a"), s("1"))),
        StorageTaskAction::Continue
    );
    assert_eq!(
        manager.handle(StorageTaskMsg::SetItem(o(), s("b"), s("2"))),
        StorageTaskAction::Continue
    );
    assert_eq!(manager.handle(StorageTaskMsg::Length(o())), StorageTaskAction::ReplyLength(2));
    assert_eq!(
        manager.handle(StorageTaskMsg::Key(o(), 0)),
        StorageTaskAction::ReplyKey(Some(s("a")))
    );
    assert_eq!(
        manager.handle(StorageTaskMsg::Key(o(), 1)),
        StorageTaskAction::ReplyKey(Some(s("b")))
    );
    assert_eq!(
        manager.handle(StorageTaskMsg::SetItem(o(), s("a"), s("3"))),
        StorageTaskAction::Continue
    );
    assert_eq!(manager.handle(StorageTaskMsg::Length(o())), StorageTaskAction::ReplyLength(2));
    assert_eq!(
        manager.handle(StorageTaskMsg::GetItem(o(), s("a"))),
        StorageTaskAction::ReplyItem(Some(s("3")))
    );
    assert_eq!(
        manager.handle(StorageTaskMsg::RemoveItem(o(), s("b"))),
        StorageTaskAction::Continue
    );
    assert_eq!(manager.handle(StorageTaskMsg::Length(o())), StorageTaskAction::ReplyLength(1));
    assert_eq!(manager.handle(StorageTaskMsg::Clear(o())), StorageTaskAction::Continue);
    assert_eq!(manager.handle(StorageTaskMsg::Length(o())), StorageTaskAction::ReplyLength(0));
    assert_eq!(manager.handle(StorageTaskMsg::Key(o(), 0)), StorageTaskAction::ReplyKey(None));
}

#[test]
fn unwritten_item_reads_none_and_length_zero() {
    let manager = StorageManager::new();
    assert_eq!(manager.get_item(ORIGIN, "a"), None);
    assert_eq!(manager.length(ORIGIN), 0);
    assert_eq!(manager.key(ORIGIN, 0), None);

    let mut manager = StorageManager::new();
    manager.set_item(s(ORIGIN), s("a"), s("1"));
    manager.set_item(s("http://other/"), s("b"), s("2"));
    assert_eq!(manager.get_item(ORIGIN, "b"), None);
    assert_eq!(manager.get_item("http://third/", "a"), None);
    assert_eq!(manager.length("http://third/"), 0);
}

#[test]
fn reads_give_an_origin_no_store() {
    let mut manager = StorageManager::new();
    manager.remove_item(ORIGIN, "a");
    manager.clear(ORIGIN);
    assert_eq!(manager.length(ORIGIN), 0);
    assert_eq!(manager.get_item(ORIGIN, "a"), None);
    assert_eq!(manager.key(ORIGIN, 0), None);
    manager.set_item(s(ORIGIN), s("a"), s("1"));
    assert_eq!(manager.length(ORIGIN), 1);
}

#[test]
fn written_item_is_read_whatever_other_origins_do() {
    let mut manager = StorageManager::new();
    manager.set_item(s(ORIGIN), s("k"), s("v"));
    assert_eq!(manager.get_item(ORIGIN, "k"), Some(s("v")));
    for i in 0..50 {
        let other = format!("http://site{}.test/", i);
        manager.set_item(other.clone(), s("k"), format!("{}", i));
        manager.set_item(other.clone(), s("x"), s("y"));
        manager.remove_item(&other, "x");
        if i % 2 == 0 {
            manager.clear(&other);
        }
    }
    assert_eq!(manager.get_item(ORIGIN, "k"), Some(s("v")));
    assert_eq!(manager.length(ORIGIN), 1);
    assert_eq!(manager.get_item("http://site3.test/", "k"), Some(s("3")));
    assert_eq!(manager.get_item("http://site4.test/", "k"), None);
}

#[test]
fn set_item_twice_keeps_length() {
    let mut manager = StorageManager::new();
    manager.set_item(s(ORIGIN), s("k"), s("v"));
    assert_eq!(manager.length(ORIGIN), 1);
    manager.set_item(s(ORIGIN), s("k"), s("v"));
    manager.set_item(s(ORIGIN), s("k"), s("v"));
    assert_eq!(manager.length(ORIGIN), 1);
    assert_eq!(manager.get_item(ORIGIN, "k"), Some(s("v")));
}

#[test]
fn keys_come_in_ascending_order_not_in_order_of_writing() {
    let mut manager = StorageManager::new();
    for name in ["pear", "apple", "zebra", "fig", "apples", "Apple", ""] {
        manager.set_item(s(ORIGIN), s(name), s("x"));
    }
    let expected = ["", "Apple", "apple", "apples", "fig", "pear", "zebra"];
    assert_eq!(manager.length(ORIGIN), 7);
    for (i, name) in expected.iter().enumerate() {
        assert_eq!(manager.key(ORIGIN, i as u32), Some(s(name)));
    }
    assert_eq!(manager.key(ORIGIN, 7), None);
    assert_eq!(manager.key(ORIGIN, 8), None);
    assert_eq!(manager.key(ORIGIN, u32::MAX), None);
    manager.set_item(s(ORIGIN), s("fig"), s("new"));
    assert_eq!(manager.key(ORIGIN, 4), Some(s("fig")));
    assert_eq!(manager.get_item(ORIGIN, "fig"), Some(s("new")));
}

#[test]
fn remove_item_takes_one_item_or_none() {
    let mut manager = StorageManager::new();
    manager.set_item(s(ORIGIN), s("a"), s("1"));
    manager.set_item(s(ORIGIN), s("b"), s("2"));
    manager.set_item(s(ORIGIN), s("c"), s("3"));
    manager.remove_item(ORIGIN, "b");
    assert_eq!(manager.get_item(ORIGIN, "b"), None);
    assert_eq!(manager.length(ORIGIN), 2);
    manager.remove_item(ORIGIN, "b");
    assert_eq!(manager.length(ORIGIN), 2);
    manager.remove_item(ORIGIN, "zz");
    assert_eq!(manager.length(ORIGIN), 2);
    assert_eq!(manager.key(ORIGIN, 0), Some(s("a")));
    assert_eq!(manager.key(ORIGIN, 1), Some(s("c")));
    manager.remove_item("http://nowhere/", "a");
    assert_eq!(manager.length("http://nowhere/"), 0);
}

#[test]
fn clear_removes_every_item_of_the_origin_only() {
    let mut manager = StorageManager::new();
    manager.set_item(s(ORIGIN), s("a"), s("1"));
    manager.set_item(s(ORIGIN), s("b"), s("2"));
    manager.set_item(s("http://other/"), s("a"), s("9"));
    manager.clear(ORIGIN);
    assert_eq!(manager.length(ORIGIN), 0);
    assert_eq!(manager.get_item(ORIGIN, "a"), None);
    assert_eq!(manager.get_item(ORIGIN, "b"), None);
    assert_eq!(manager.key(ORIGIN, 0), None);
    assert_eq!(manager.get_item("http://other/", "a"), Some(s("9")));
    manager.set_item(s(ORIGIN), s("c"), s("3"));
    assert_eq!(manager.length(ORIGIN), 1);
    assert_eq!(manager.key(ORIGIN, 0), Some(s("c")));
}

#[test]
fn origins_do_not_see_each_other() {
    let mut manager = StorageManager::new();
    let one = "http://one.test/";
    let two = "http://two.test/";
    manager.set_item(s(one), s("k"), s("v"));
    assert_eq!(manager.get_item(two, "k"), None);
    assert_eq!(manager.length(two), 0);
    manager.set_item(s(two), s("k"), s("w"));
    assert_eq!(manager.get_item(one, "k"), Some(s("v")));
    assert_eq!(manager.get_item(two, "k"), Some(s("w")));
    manager.remove_item(two, "k");
    assert_eq!(manager.get_item(one, "k"), Some(s("v")));
    manager.clear(one);
    manager.set_item(s(two), s("z"), s("1"));
    assert_eq!(manager.length(one), 0);
    assert_eq!(manager.length(two), 1);
    // Origin keys that differ in the port or the slash are different origins.
    manager.set_item(s("http://h/"), s("k"), s("1"));
    assert_eq!(manager.get_item("http://h:80/", "k"), None);
    assert_eq!(manager.get_item("http://h", "k"), None);
}

#[test]
fn start_serves_in_order_and_stops_at_exit() {
    let mut manager = StorageManager::new();
    let o = || s(ORIGIN);
    let acts = manager.start(vec![
        StorageTaskMsg::GetItem(o(), s("a")),
        StorageTaskMsg::SetItem(o(), s("a"), s("1")),
        StorageTaskMsg::GetItem(o(), s("a")),
        StorageTaskMsg::Length(o()),
        StorageTaskMsg::Exit,
        StorageTaskMsg::SetItem(o(), s("b"), s("2")),
        StorageTaskMsg::Length(o()),
    ]);
    assert_eq!(
        acts,
        vec![
            StorageTaskAction::ReplyItem(None),
            StorageTaskAction::Continue,
            StorageTaskAction::ReplyItem(Some(s("1"))),
            StorageTaskAction::ReplyLength(1),
            StorageTaskAction::Exit,
        ]
    );
    assert_eq!(manager.length(ORIGIN), 1);
    assert_eq!(manager.get_item(ORIGIN, "b"), None);
}

#[test]
fn start_without_exit_serves_every_request() {
    let mut manager = StorageManager::new();
    let o = || s(ORIGIN);
    let acts = manager.start(vec![
        StorageTaskMsg::SetItem(o(), s("b"), s("2")),
        StorageTaskMsg::SetItem(o(), s("a"), s("1")),
        StorageTaskMsg::Key(o(), 0),
        StorageTaskMsg::RemoveItem(o(), s("a")),
        StorageTaskMsg::Key(o(), 0),
        StorageTaskMsg::Clear(o()),
        StorageTaskMsg::Key(o(), 0),
    ]);
    assert_eq!(
        acts,
        vec![
            StorageTaskAction::Continue,
            StorageTaskAction::Continue,
            StorageTaskAction::ReplyKey(Some(s("a"))),
            StorageTaskAction::Continue,
            StorageTaskAction::ReplyKey(Some(s("b"))),
            StorageTaskAction::Continue,
            StorageTaskAction::ReplyKey(None),
        ]
    );
    assert_eq!(manager.start(Vec::new()), Vec::new());
    assert_eq!(manager.start(vec![StorageTaskMsg::Exit]), vec![StorageTaskAction::Exit]);
}

#[test]
fn exit_changes_nothing() {
    let mut manager = StorageManager::new();
    manager.set_item(s(ORIGIN), s("a"), s("1"));
    assert_eq!(manager.handle(StorageTaskMsg::Exit), StorageTaskAction::Exit);
    assert_eq!(manager.get_item(ORIGIN, "a"), Some(s("1")));
}

#[test]
fn many_items_keep_their_order() {
    let mut manager = StorageManager::new();
    for i in (0..200u32).rev() {
        manager.set_item(s(ORIGIN), format!("k{:03}", i), format!("{}", i));
    }
    assert_eq!(manager.length(ORIGIN), 200);
    for i in 0..200u32 {
        assert_eq!(manager.key(ORIGIN, i), Some(format!("k{:03}", i)));
        assert_eq!(manager.get_item(ORIGIN, &format!("k{:03}", i)), Some(format!("{}", i)));
    }
    for i in (0..200u32).filter(|i| i % 2 == 1) {
        manager.remove_item(ORIGIN, &format!("k{:03}", i));
    }
    assert_eq!(manager.length(ORIGIN), 100);
    for i in 0..100u32 {
        assert_eq!(manager.key(ORIGIN, i), Some(format!("k{:03}", 2 * i)));
    }
}
