use cloud_notepad::utils::tab_manager::TabManager;

#[test]
fn test_add_and_activate() {
    let mut manager = TabManager::new(3);

    manager.add_or_activate("tab1");
    let tabs = manager.get_visible_tabs();
    let current = manager.current_tab();
    assert_eq!(tabs, vec![&"tab1"]);
    assert_eq!(current, Some(&"tab1"));

    manager.add_or_activate("tab2");
    let tabs = manager.get_visible_tabs();
    let current = manager.current_tab();
    assert_eq!(tabs, vec![&"tab1", &"tab2"]);
    assert_eq!(current, Some(&"tab2"));

    manager.add_or_activate("tab1");
    let tabs = manager.get_visible_tabs();
    let current = manager.current_tab();
    assert_eq!(tabs, vec![&"tab1", &"tab2"]);
    assert_eq!(current, Some(&"tab1"));
}

#[test]
fn test_remove() {
    let mut manager = TabManager::new(3);
    manager.add_or_activate("tab1");
    manager.add_or_activate("tab2");
    manager.add_or_activate("tab3");

    manager.remove(&"tab1");
    let tabs = manager.get_visible_tabs();
    let current = manager.current_tab();
    assert_eq!(tabs, vec![&"tab2", &"tab3"]);
    assert_eq!(current, Some(&"tab3"));

    manager.remove(&"tab3");
    let tabs = manager.get_visible_tabs();
    let current = manager.current_tab();
    assert_eq!(tabs, vec![&"tab2"]);
    assert_eq!(current, Some(&"tab2"));
}

#[test]
fn test_max_visible() {
    let mut manager = TabManager::new(2);
    manager.add_or_activate("tab1");
    manager.add_or_activate("tab2");
    manager.add_or_activate("tab3");

    let tabs = manager.get_visible_tabs();
    assert_eq!(tabs.len(), 2);
    assert_eq!(tabs, vec![&"tab2", &"tab3"]);

    manager.add_or_activate("tab1");
    let tabs = manager.get_visible_tabs();
    assert_eq!(tabs, vec![&"tab1", &"tab3"]);

    manager.set_max_visible(3);
    let tabs = manager.get_visible_tabs();
    assert_eq!(tabs.len(), 3);
    assert_eq!(tabs, vec![&"tab1", &"tab2", &"tab3"]);
}

#[test]
fn test_move_current_tab() {
    let mut manager = TabManager::new(5);
    manager.add_or_activate("tab1");
    manager.add_or_activate("tab2");
    manager.add_or_activate("tab3");

    assert!(manager.move_current_tab(Some(&"tab1")));
    let tabs = manager.get_visible_tabs();
    let current = manager.current_tab();
    assert_eq!(tabs, vec![&"tab3", &"tab1", &"tab2"]);
    assert_eq!(current, Some(&"tab3"));

    manager.add_or_activate("tab2");
    assert!(manager.move_current_tab(Some(&"tab1")));
    let tabs = manager.get_visible_tabs();
    let current = manager.current_tab();
    assert_eq!(tabs, vec![&"tab3", &"tab2", &"tab1"]);
    assert_eq!(current, Some(&"tab2"));

    assert!(!manager.move_current_tab(Some(&"tab4")));
    assert!(!manager.move_current_tab(Some(&"tab2")));
}

#[test]
fn test_access_order_memory() {
    let mut manager = TabManager::new(10);

    for i in 0..100 {
        manager.add_or_activate(format!("tab{}", i));
    }

    let size_before = manager.access_order().len();

    manager.add_or_activate("a_very_long_tab_name_that_takes_more_memory".to_string());

    let size_after = manager.access_order().len();
    assert_eq!(size_before + 1, size_after);
}

#[test]
fn reactivated_key_keeps_its_position() {
    let mut manager = TabManager::new(2);
    manager.add_or_activate("a");
    manager.add_or_activate("b");
    manager.add_or_activate("c");
    assert_eq!(manager.get_visible_tabs(), vec![&"b", &"c"]);
    assert_eq!(manager.current_tab(), Some(&"c"));

    manager.add_or_activate("a");
    assert_eq!(manager.get_visible_tabs(), vec![&"a", &"c"]);
    assert_eq!(manager.current_tab(), Some(&"a"));

    manager.set_max_visible(3);
    assert_eq!(manager.get_visible_tabs(), vec![&"a", &"b", &"c"]);
}

#[test]
fn window_holds_the_most_recent_keys_in_layout_order() {
    let mut manager = TabManager::new(3);
    for i in 0..10u32 {
        manager.add_or_activate(i);
        let visible = manager.get_visible_tabs();
        assert_eq!(visible.len(), std::cmp::min(3, (i + 1) as usize));
    }
    assert_eq!(manager.get_visible_tabs(), vec![&7, &8, &9]);
    manager.add_or_activate(2);
    manager.add_or_activate(0);
    assert_eq!(manager.get_visible_tabs(), vec![&0, &2, &9]);
    assert_eq!(manager.access_order(), &vec![0, 2, 9, 8, 7, 6, 5, 4, 3, 1]);
}

#[test]
fn new_key_goes_behind_the_current_one() {
    let mut manager = TabManager::new(5);
    manager.add_or_activate("a");
    manager.add_or_activate("b");
    manager.add_or_activate("a");
    manager.add_or_activate("c");
    assert_eq!(manager.get_visible_tabs(), vec![&"a", &"c", &"b"]);
    assert_eq!(manager.current_tab(), Some(&"c"));
    assert_eq!(manager.access_order(), &vec![1, 0, 2]);
}

#[test]
fn empty_window_shows_nothing() {
    let mut manager = TabManager::new(0);
    manager.add_or_activate("a");
    manager.add_or_activate("b");
    assert!(manager.get_visible_tabs().is_empty());
    assert_eq!(manager.current_tab(), Some(&"b"));
    assert_eq!(manager.access_order().len(), 2);
}

#[test]
fn empty_manager_has_no_current_key() {
    let mut manager: TabManager<&str> = TabManager::new(4);
    assert!(manager.get_visible_tabs().is_empty());
    assert_eq!(manager.current_tab(), None);
    assert!(!manager.move_current_tab(None));
    assert_eq!(manager.remove(&"a"), None);
}

#[test]
fn remove_hands_out_the_key_and_shifts_positions() {
    let mut manager = TabManager::new(5);
    manager.add_or_activate("a".to_string());
    manager.add_or_activate("b".to_string());
    manager.add_or_activate("c".to_string());
    manager.add_or_activate("a".to_string());

    assert_eq!(manager.remove(&"x".to_string()), None);
    assert_eq!(manager.access_order(), &vec![0, 2, 1]);

    assert_eq!(manager.remove(&"b".to_string()), Some("b".to_string()));
    assert_eq!(manager.access_order(), &vec![0, 1]);
    assert_eq!(manager.current_tab(), Some(&"a".to_string()));

    assert_eq!(manager.remove(&"a".to_string()), Some("a".to_string()));
    assert_eq!(manager.current_tab(), Some(&"c".to_string()));
    assert_eq!(manager.remove(&"c".to_string()), Some("c".to_string()));
    assert_eq!(manager.current_tab(), None);
    assert!(manager.access_order().is_empty());
}

#[test]
fn current_key_moves_in_front_of_a_later_anchor() {
    let mut manager = TabManager::new(5);
    manager.add_or_activate("a");
    manager.add_or_activate("b");
    manager.add_or_activate("c");
    manager.add_or_activate("d");
    manager.add_or_activate("a");

    assert!(manager.move_current_tab(Some(&"d")));
    assert_eq!(manager.get_visible_tabs(), vec![&"b", &"c", &"a", &"d"]);
    assert_eq!(manager.current_tab(), Some(&"a"));
    assert_eq!(manager.access_order(), &vec![2, 3, 1, 0]);

    assert!(!manager.move_current_tab(Some(&"d")));
    assert_eq!(manager.get_visible_tabs(), vec![&"b", &"c", &"a", &"d"]);
}

#[test]
fn current_key_moves_to_the_end_without_anchor() {
    let mut manager = TabManager::new(5);
    manager.add_or_activate("a");
    manager.add_or_activate("b");
    manager.add_or_activate("c");
    manager.add_or_activate("a");

    assert!(manager.move_current_tab(None));
    assert_eq!(manager.get_visible_tabs(), vec![&"b", &"c", &"a"]);
    assert_eq!(manager.current_tab(), Some(&"a"));
    assert!(!manager.move_current_tab(None));
}

#[test]
fn current_key_is_visible_in_a_window_that_is_not_empty() {
    let mut manager = TabManager::new(1);
    for key in ["a", "b", "c", "a", "b", "d"] {
        manager.add_or_activate(key);
        assert_eq!(manager.get_visible_tabs(), vec![&key]);
        assert_eq!(manager.current_tab(), Some(&key));
    }
    manager.remove(&"d");
    assert_eq!(manager.get_visible_tabs(), vec![manager.current_tab().unwrap()]);
    assert_eq!(manager.current_tab(), Some(&"b"));
}
