use agent_terminal::tabs::{
    next_active_tab_index, truncate_tab_title, RenameStep, TerminalTabs,
};

#[test]
fn closing_tab_before_active_shifts_active_left() {
    assert_eq!(next_active_tab_index(3, 1, 4), 2);
}

#[test]
fn closing_active_last_tab_selects_previous() {
    assert_eq!(next_active_tab_index(2, 2, 2), 1);
}

#[test]
fn closing_tab_after_active_keeps_active() {
    assert_eq!(next_active_tab_index(1, 3, 4), 1);
}

#[test]
fn truncate_tab_title_keeps_short_title() {
    assert_eq!(truncate_tab_title("short", 10), "short");
}

#[test]
fn truncate_tab_title_adds_ellipsis_for_long_title() {
    assert_eq!(truncate_tab_title("abcdefghijklmnopqrstuvwxyz", 10), "abcdefg...");
}

#[test]
fn truncate_tab_title_handles_small_limits() {
    assert_eq!(truncate_tab_title("abcdef", 3), "...");
    assert_eq!(truncate_tab_title("abcdef", 2), "..");
    assert_eq!(truncate_tab_title("abcdef", 1), ".");
    assert_eq!(truncate_tab_title("abcdef", 0), "");
}

fn three_tabs() -> TerminalTabs<char> {
    let mut tabs = TerminalTabs::new();
    assert_eq!(tabs.open_tab('a'), 1);
    assert_eq!(tabs.open_tab('b'), 2);
    assert_eq!(tabs.open_tab('c'), 3);
    tabs
}

fn contents(tabs: &TerminalTabs<char>) -> String {
    tabs.tabs().iter().map(|tab| tab.content).collect()
}

#[test]
fn custom_title_override_logic() {
    let mut tabs = three_tabs();
    assert_eq!(tabs.raw_tab_title(2, "default tab name"), "default tab name");
    assert!(tabs.start_renaming(""));
    for ch in ["custom", " tab", " name "] {
        tabs.on_rename_key("x", &Some(ch.to_string()), false, false);
    }
    assert_eq!(tabs.tab_label(2, "default tab name"), "custom tab name |");
    assert_eq!(tabs.on_rename_key("enter", &None, false, false), RenameStep::Done);
    assert_eq!(tabs.raw_tab_title(2, "default tab name"), "custom tab name");
    assert_eq!(tabs.raw_tab_title(0, "default tab name"), "default tab name");
}

#[test]
fn tabs_open_close_and_take_turns() {
    let mut tabs = three_tabs();
    assert_eq!(tabs.active_index(), 2);
    assert!(tabs.activate_relative_tab(1));
    assert_eq!(tabs.active_index(), 0);
    assert!(tabs.activate_relative_tab(-1));
    assert_eq!(tabs.active_index(), 2);
    assert!(tabs.activate_relative_tab(-7));
    assert_eq!(tabs.active_index(), 1);
    assert!(tabs.activate_tab_by_index(0));
    assert!(!tabs.activate_tab_by_index(3));
    assert!(tabs.activate_tab_by_id(3));
    assert!(!tabs.activate_tab_by_id(9));
    assert_eq!(tabs.active_index(), 2);

    assert!(!tabs.close_tab_by_id(1));
    assert_eq!(contents(&tabs), "bc");
    assert_eq!(tabs.active_index(), 1);
    assert!(!tabs.close_tab_by_id(1));
    assert!(!tabs.close_tab_at_index(5));
    assert!(!tabs.close_active_tab());
    assert_eq!(contents(&tabs), "b");
    assert_eq!(tabs.active_index(), 0);
    assert!(!tabs.activate_relative_tab(1));
    assert!(tabs.close_active_tab());
    assert!(tabs.close_active_tab());
    assert_eq!(tabs.open_tab('d'), 4);
}

#[test]
fn renaming_keys() {
    let mut tabs = three_tabs();
    assert_eq!(tabs.on_rename_key("a", &Some("a".to_string()), false, false), RenameStep::NotRenaming);
    assert!(tabs.start_renaming("ab"));
    assert_eq!(tabs.renaming_tab_id(), Some(3));
    assert_eq!(tabs.on_rename_key("backspace", &None, false, false), RenameStep::Edited);
    assert_eq!(tabs.on_rename_key("space", &None, false, false), RenameStep::Edited);
    assert_eq!(tabs.on_rename_key("x", &Some("x".to_string()), true, false), RenameStep::Ignored);
    assert_eq!(tabs.on_rename_key("left", &None, false, false), RenameStep::Ignored);
    assert_eq!(tabs.tab_label(2, "shell"), "a |");
    assert_eq!(tabs.tab_label(1, "shell"), "shell");
    assert_eq!(tabs.on_rename_key("escape", &None, false, false), RenameStep::Done);
    assert_eq!(tabs.tab_label(2, "shell"), "shell");
    assert!(tabs.start_renaming("  "));
    assert_eq!(tabs.on_rename_key("enter", &None, false, false), RenameStep::Done);
    assert_eq!(tabs.raw_tab_title(2, "shell"), "shell");
    assert_eq!(tabs.tab_label(0, &"y".repeat(40)), format!("{}...", "y".repeat(25)));
    assert_eq!(tabs.next_snapshot_title(), "snap 1");
    assert_eq!(tabs.next_snapshot_title(), "snap 2");
    assert_eq!(tabs.next_snapshot_id(), 3);
    let next = tabs.next_tab_id();
    assert!(tabs.tabs().iter().all(|tab| tab.id < next));
    assert_eq!(tabs.open_tab(tabs.tabs()[0].content.clone()), next);
}
