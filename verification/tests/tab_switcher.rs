use rhyolite::model::Tab;
use rhyolite::tabs::{
    close_tab, cycle_tabs, delete_tab, get_current_open_tab, get_tabs, load_tab, send_current_open_tab,
    update_tab_title, TabSwitcher,
};

fn tab(id: &str, title: &str) -> Tab {
    Tab { id: id.to_string(), title: title.to_string() }
}

fn switcher(tabs: &[(&str, &str)]) -> TabSwitcher {
    let mut ts = TabSwitcher::new();
    for (id, title) in tabs {
        load_tab(&mut ts, id.to_string(), title.to_string()).unwrap();
    }
    ts
}

fn ids(ts: &TabSwitcher) -> Vec<String> {
    get_tabs(ts).unwrap().into_iter().map(|t| t.id).collect()
}

#[test]
fn load_tab_appends_new_tabs_in_order() {
    let ts = switcher(&[("a", "Alpha"), ("b", "Beta"), ("c", "Gamma")]);
    assert_eq!(get_tabs(&ts).unwrap(), vec![tab("a", "Alpha"), tab("b", "Beta"), tab("c", "Gamma")]);
}

#[test]
fn load_tab_replaces_a_tab_in_place() {
    let mut ts = switcher(&[("a", "Alpha"), ("b", "Beta"), ("c", "Gamma")]);
    let r = load_tab(&mut ts, "b".to_string(), "Bravo".to_string()).unwrap();
    assert_eq!(r, tab("b", "Bravo"));
    assert_eq!(get_tabs(&ts).unwrap(), vec![tab("a", "Alpha"), tab("b", "Bravo"), tab("c", "Gamma")]);
}

#[test]
fn load_tab_twice_is_loading_once() {
    let mut once = switcher(&[("a", "Alpha")]);
    load_tab(&mut once, "b".to_string(), "Beta".to_string()).unwrap();
    let mut twice = switcher(&[("a", "Alpha")]);
    load_tab(&mut twice, "b".to_string(), "Beta".to_string()).unwrap();
    load_tab(&mut twice, "b".to_string(), "Beta".to_string()).unwrap();
    assert_eq!(get_tabs(&once).unwrap(), get_tabs(&twice).unwrap());
}

#[test]
fn current_tab_starts_empty_and_follows_send() {
    let mut ts = switcher(&[("a", "Alpha")]);
    assert_eq!(get_current_open_tab(&ts).unwrap(), "");
    send_current_open_tab(&mut ts, "a".to_string());
    assert_eq!(get_current_open_tab(&ts).unwrap(), "a");
}

#[test]
fn update_tab_title_renames_in_place() {
    let mut ts = switcher(&[("a", "Alpha"), ("b", "Beta")]);
    let r = update_tab_title(&mut ts, "a".to_string(), "Omega".to_string()).unwrap();
    assert_eq!(r, tab("a", "Omega"));
    assert_eq!(get_tabs(&ts).unwrap(), vec![tab("a", "Omega"), tab("b", "Beta")]);
}

#[test]
fn update_tab_title_keeping_its_own_title_is_accepted() {
    let mut ts = switcher(&[("a", "Alpha"), ("b", "Beta")]);
    let r = update_tab_title(&mut ts, "a".to_string(), "Alpha".to_string()).unwrap();
    assert_eq!(r, tab("a", "Alpha"));
}

#[test]
fn update_tab_title_refuses_a_title_in_use() {
    let mut ts = switcher(&[("a", "Alpha"), ("b", "Beta")]);
    let r = update_tab_title(&mut ts, "a".to_string(), "Beta".to_string());
    assert_eq!(r, Err("A tab with this title already exists".to_string()));
    assert_eq!(get_tabs(&ts).unwrap(), vec![tab("a", "Alpha"), tab("b", "Beta")]);
}

#[test]
fn update_tab_title_refuses_an_unknown_tab() {
    let mut ts = switcher(&[("a", "Alpha")]);
    let r = update_tab_title(&mut ts, "z".to_string(), "Zeta".to_string());
    assert_eq!(r, Err("Tab not found".to_string()));
}

#[test]
fn cycle_tabs_refuses_when_no_tabs() {
    let mut ts = TabSwitcher::new();
    assert_eq!(cycle_tabs(&mut ts), Err("No tabs available".to_string()));
}

#[test]
fn cycle_tabs_refuses_when_focus_is_not_open() {
    let mut ts = switcher(&[("a", "Alpha")]);
    assert_eq!(cycle_tabs(&mut ts), Err("Failed to cycle tabs".to_string()));
    send_current_open_tab(&mut ts, "gone".to_string());
    assert_eq!(cycle_tabs(&mut ts), Err("Failed to cycle tabs".to_string()));
    assert_eq!(get_current_open_tab(&ts).unwrap(), "gone");
}

#[test]
fn cycle_tabs_moves_to_the_next_and_wraps() {
    let mut ts = switcher(&[("a", "Alpha"), ("b", "Beta"), ("c", "Gamma")]);
    send_current_open_tab(&mut ts, "b".to_string());
    assert_eq!(cycle_tabs(&mut ts), Ok("c".to_string()));
    assert_eq!(cycle_tabs(&mut ts), Ok("a".to_string()));
    assert_eq!(get_current_open_tab(&ts).unwrap(), "a");
}

#[test]
fn cycling_once_per_tab_returns_to_the_start() {
    let mut ts = switcher(&[("a", "Alpha"), ("b", "Beta"), ("c", "Gamma"), ("d", "Delta")]);
    send_current_open_tab(&mut ts, "c".to_string());
    for _ in 0..4 {
        cycle_tabs(&mut ts).unwrap();
    }
    assert_eq!(get_current_open_tab(&ts).unwrap(), "c");
    assert_eq!(ids(&ts), vec!["a", "b", "c", "d"]);
}

#[test]
fn cycle_tabs_with_one_tab_stays() {
    let mut ts = switcher(&[("a", "Alpha")]);
    send_current_open_tab(&mut ts, "a".to_string());
    assert_eq!(cycle_tabs(&mut ts), Ok("a".to_string()));
}

#[test]
fn delete_tab_removes_and_is_idempotent() {
    let mut ts = switcher(&[("a", "Alpha"), ("b", "Beta"), ("c", "Gamma")]);
    send_current_open_tab(&mut ts, "b".to_string());
    assert_eq!(delete_tab(&mut ts, "b".to_string()), Ok(()));
    assert_eq!(ids(&ts), vec!["a", "c"]);
    assert_eq!(delete_tab(&mut ts, "b".to_string()), Ok(()));
    assert_eq!(ids(&ts), vec!["a", "c"]);
    assert_eq!(get_current_open_tab(&ts).unwrap(), "b");
}

#[test]
fn close_tab_keeps_the_last_tab() {
    let mut ts = switcher(&[("a", "Alpha")]);
    assert_eq!(close_tab(&mut ts, "a".to_string()), Ok(None));
    assert_eq!(ids(&ts), vec!["a"]);
}

#[test]
fn close_tab_refuses_an_unknown_tab() {
    let mut ts = switcher(&[("a", "Alpha"), ("b", "Beta")]);
    assert_eq!(close_tab(&mut ts, "z".to_string()), Err("Tab not found".to_string()));
    assert_eq!(ids(&ts), vec!["a", "b"]);
}

#[test]
fn close_tab_focuses_the_tab_that_took_its_place() {
    let mut ts = switcher(&[("a", "Alpha"), ("b", "Beta"), ("c", "Gamma")]);
    assert_eq!(close_tab(&mut ts, "b".to_string()), Ok(Some("c".to_string())));
    assert_eq!(ids(&ts), vec!["a", "c"]);
    assert_eq!(get_current_open_tab(&ts).unwrap(), "c");
}

#[test]
fn close_tab_of_the_last_focuses_the_new_last() {
    let mut ts = switcher(&[("a", "Alpha"), ("b", "Beta"), ("c", "Gamma")]);
    assert_eq!(close_tab(&mut ts, "c".to_string()), Ok(Some("b".to_string())));
    assert_eq!(ids(&ts), vec!["a", "b"]);
    assert_eq!(get_current_open_tab(&ts).unwrap(), "b");
}
