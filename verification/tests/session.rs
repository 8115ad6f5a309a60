use rhyolite::model::{DocumentData, FileInfo, Tab, UserData};
use rhyolite::session::{
    delete_document, load_last_open_tabs, new_tab, open_new_tab, save_document, save_target, AppState, IOCommands,
};
use rhyolite::tabs::{get_current_open_tab, get_tabs, load_tab, send_current_open_tab};

fn tab(id: &str, title: &str) -> Tab {
    Tab { id: id.to_string(), title: title.to_string() }
}

fn file(id: &str, title: &str) -> FileInfo {
    FileInfo { id: id.to_string(), title: title.to_string() }
}

fn doc(id: &str, title: &str, content: &str) -> DocumentData {
    DocumentData { id: id.to_string(), title: title.to_string(), content: content.to_string() }
}

fn state(tabs: &[(&str, &str)], files: &[(&str, &str)]) -> AppState {
    let mut s = AppState::new();
    for (id, title) in tabs {
        load_tab(&mut s.tab_switcher, id.to_string(), title.to_string()).unwrap();
    }
    for (id, title) in files {
        s.workspace.recent_files.push(file(id, title));
    }
    s
}

#[test]
fn save_document_adds_then_renames_a_recent_file() {
    let mut s = state(&[], &[("x", "Other")]);
    let t = save_document(&mut s, "a".to_string(), "Plan".to_string());
    assert_eq!(t.file_name, "Plan.md");
    assert_eq!(t.stale_file_name, Some("Untitled.md".to_string()));
    assert_eq!(s.workspace.recent_files, vec![file("x", "Other"), file("a", "Plan")]);
    save_document(&mut s, "a".to_string(), "Plan 2".to_string());
    assert_eq!(s.workspace.recent_files, vec![file("x", "Other"), file("a", "Plan 2")]);
}

#[test]
fn save_document_twice_is_saving_once() {
    let mut s = state(&[], &[]);
    save_document(&mut s, "a".to_string(), "Plan".to_string());
    let once = s.workspace.recent_files.clone();
    save_document(&mut s, "a".to_string(), "Plan".to_string());
    assert_eq!(s.workspace.recent_files, once);
}

#[test]
fn save_document_names_the_file_of_the_former_title() {
    let mut s = state(&[("a", "Draft")], &[]);
    let t = save_document(&mut s, "a".to_string(), "Final".to_string());
    assert_eq!(t.file_name, "Final.md");
    assert_eq!(t.stale_file_name, Some("Draft.md".to_string()));
    let t = save_document(&mut s, "a".to_string(), "Draft".to_string());
    assert_eq!(t.file_name, "Draft.md");
    assert_eq!(t.stale_file_name, None);
    assert_eq!(get_tabs(&s.tab_switcher).unwrap(), vec![tab("a", "Draft")]);
}

#[test]
fn io_save_document_without_a_document_does_nothing() {
    let mut s = state(&[("a", "Draft")], &[("a", "Draft")]);
    assert!(IOCommands::save_document(&mut s, None).is_none());
    assert_eq!(s.workspace.recent_files, vec![file("a", "Draft")]);
    let t = IOCommands::save_document(&mut s, Some(doc("a", "New", "<p>x</p>"))).unwrap();
    assert_eq!(t.file_name, "New.md");
    assert_eq!(t.stale_file_name, Some("Draft.md".to_string()));
    assert_eq!(s.workspace.recent_files, vec![file("a", "New")]);
}

#[test]
fn delete_document_closes_the_tab_in_focus() {
    let mut s = state(&[("a", "One"), ("b", "Two"), ("c", "Three")], &[("b", "Two"), ("c", "Three"), ("b", "Two")]);
    send_current_open_tab(&mut s.tab_switcher, "b".to_string());
    let o = delete_document(&mut s).unwrap();
    assert_eq!(o.file_name, "Two.md");
    assert_eq!(o.next_tab, Some(tab("a", "One")));
    assert_eq!(get_tabs(&s.tab_switcher).unwrap(), vec![tab("a", "One"), tab("c", "Three")]);
    assert_eq!(get_current_open_tab(&s.tab_switcher).unwrap(), "a");
    assert_eq!(s.workspace.recent_files, vec![file("c", "Three")]);
}

#[test]
fn delete_document_of_the_first_tab_focuses_it_still() {
    let mut s = state(&[("a", "One"), ("b", "Two")], &[]);
    send_current_open_tab(&mut s.tab_switcher, "a".to_string());
    let o = IOCommands::delete_document(&mut s).unwrap();
    assert_eq!(o.next_tab, Some(tab("a", "One")));
    assert_eq!(get_tabs(&s.tab_switcher).unwrap(), vec![tab("b", "Two")]);
    assert_eq!(get_current_open_tab(&s.tab_switcher).unwrap(), "a");
}

#[test]
fn delete_document_of_a_tab_not_open_does_nothing() {
    let mut s = state(&[("a", "One")], &[("z", "Gone")]);
    send_current_open_tab(&mut s.tab_switcher, "z".to_string());
    assert!(delete_document(&mut s).is_none());
    assert_eq!(get_tabs(&s.tab_switcher).unwrap(), vec![tab("a", "One")]);
    assert_eq!(s.workspace.recent_files, vec![file("z", "Gone")]);
}

#[test]
fn open_new_tab_prunes_then_opens() {
    let mut s = state(
        &[("a", "One"), ("b", "Untitled"), ("c", "Three")],
        &[("a", "One"), ("c", "Three"), ("b", "Untitled")],
    );
    let t = open_new_tab(&mut s, "n".to_string(), "Untitled".to_string(), &vec![true, true, false], &vec![false, true, true]);
    assert_eq!(t, tab("n", "Untitled"));
    assert_eq!(get_tabs(&s.tab_switcher).unwrap(), vec![tab("a", "One"), tab("n", "Untitled")]);
    assert_eq!(s.workspace.recent_files, vec![file("c", "Three"), file("n", "Untitled")]);
    assert_eq!(get_current_open_tab(&s.tab_switcher).unwrap(), "n");
}

#[test]
fn new_tab_uses_a_fresh_identifier() {
    let mut s = state(&[("a", "One")], &[]);
    let t = new_tab(&mut s, "Untitled 1".to_string(), &vec![true], &vec![]);
    assert_eq!(t.title, "Untitled 1");
    assert_eq!(t.id.len(), 36);
    assert_eq!(get_tabs(&s.tab_switcher).unwrap(), vec![tab("a", "One"), t.clone()]);
    assert_eq!(s.workspace.recent_files, vec![FileInfo { id: t.id.clone(), title: "Untitled".to_string() }]);
    assert_eq!(get_current_open_tab(&s.tab_switcher).unwrap(), t.id);
}

#[test]
fn saved_session_restores_the_same_state() {
    let mut s = state(&[("a", "One"), ("b", "Two"), ("c", "Three")], &[("c", "Three"), ("a", "One")]);
    send_current_open_tab(&mut s.tab_switcher, "b".to_string());
    let saved = s.user_data();
    assert_eq!(saved.tabs, vec![tab("a", "One"), tab("b", "Two"), tab("c", "Three")]);
    assert_eq!(saved.last_open_tab, "b");
    let loaded = vec![Some(doc("a", "One", "1")), Some(doc("b", "Two", "2")), Some(doc("c", "Three", "3"))];
    let mut fresh = AppState::new();
    let docs = load_last_open_tabs(&mut fresh, saved, loaded.clone());
    assert_eq!(docs, loaded.into_iter().map(|d| d.unwrap()).collect::<Vec<_>>());
    assert_eq!(get_tabs(&fresh.tab_switcher).unwrap(), get_tabs(&s.tab_switcher).unwrap());
    assert_eq!(get_current_open_tab(&fresh.tab_switcher).unwrap(), "b");
    assert_eq!(fresh.workspace.recent_files, s.workspace.recent_files);
}

#[test]
fn restoring_skips_tabs_whose_document_is_missing() {
    let saved = UserData {
        tabs: vec![tab("a", "One"), tab("b", "Two"), tab("c", "Three")],
        last_open_tab: "b".to_string(),
        recent_files: vec![file("a", "One")],
    };
    let mut s = state(&[("z", "Old")], &[("z", "Old")]);
    let docs = load_last_open_tabs(&mut s, saved, vec![Some(doc("a", "One", "1")), None, Some(doc("c", "Three", "3"))]);
    assert_eq!(docs, vec![doc("a", "One", "1"), doc("c", "Three", "3")]);
    assert_eq!(get_tabs(&s.tab_switcher).unwrap(), vec![tab("a", "One"), tab("c", "Three")]);
    assert_eq!(get_current_open_tab(&s.tab_switcher).unwrap(), "b");
    assert_eq!(s.workspace.recent_files, vec![file("a", "One")]);
}

#[test]
fn io_load_last_open_tabs_restores_every_tab() {
    let saved = UserData {
        tabs: vec![tab("a", "One"), tab("b", "Two")],
        last_open_tab: "a".to_string(),
        recent_files: vec![file("b", "Two")],
    };
    let mut s = state(&[("z", "Old")], &[]);
    IOCommands::load_last_open_tabs(&mut s, Some(saved));
    assert_eq!(get_tabs(&s.tab_switcher).unwrap(), vec![tab("a", "One"), tab("b", "Two")]);
    assert_eq!(get_current_open_tab(&s.tab_switcher).unwrap(), "a");
    assert_eq!(s.workspace.recent_files, vec![file("b", "Two")]);
    IOCommands::load_last_open_tabs(&mut s, None);
    assert_eq!(get_tabs(&s.tab_switcher).unwrap(), vec![tab("a", "One"), tab("b", "Two")]);
}

#[test]
fn save_target_names_the_stale_file_only_when_it_differs() {
    let t = save_target("y.md".to_string(), "x.md".to_string());
    assert_eq!(t.file_name, "y.md");
    assert_eq!(t.stale_file_name, Some("x.md".to_string()));
    let t = save_target("y.md".to_string(), "y.md".to_string());
    assert_eq!(t.stale_file_name, None);
}

#[test]
fn renaming_a_title_the_sanitizer_changes_names_its_file() {
    let mut s = state(&[("a", "/x")], &[]);
    let t = save_document(&mut s, "a".to_string(), "y".to_string());
    assert_eq!(t.file_name, "y.md");
    assert_eq!(t.stale_file_name, Some("x.md".to_string()));
}

#[test]
fn deleting_a_title_the_sanitizer_changes_names_its_file() {
    let mut s = state(&[("a", "a:b")], &[]);
    send_current_open_tab(&mut s.tab_switcher, "a".to_string());
    let o = delete_document(&mut s).unwrap();
    assert_eq!(o.file_name, "ab.md");
}

#[test]
fn restoring_returns_one_document_per_tab_in_order() {
    let mut s = state(&[("a", "One"), ("b", "Two")], &[]);
    send_current_open_tab(&mut s.tab_switcher, "a".to_string());
    let saved = s.user_data();
    let loaded: Vec<Option<DocumentData>> =
        saved.tabs.iter().map(|t| Some(doc(&t.id, &t.title, "text"))).collect();
    let mut fresh = AppState::new();
    let docs = load_last_open_tabs(&mut fresh, saved, loaded);
    assert_eq!(docs.iter().map(|d| d.id.clone()).collect::<Vec<_>>(), vec!["a", "b"]);
}
