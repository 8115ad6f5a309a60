use rhyolite::names::{
    check_path_exists_step, UntitledSearch,
    decimal_string, document_file_name, markdown_file_name, markdown_title, new_document_id, strip_md_suffix,
    untitled_file_name,
};

#[test]
fn untitled_names_count_up() {
    assert_eq!(untitled_file_name(0), "Untitled.md");
    assert_eq!(untitled_file_name(1), "Untitled 1.md");
    assert_eq!(untitled_file_name(42), "Untitled 42.md");
    assert_eq!(untitled_file_name(u32::MAX), "Untitled 4294967295.md");
}

#[test]
fn untitled_title_comes_back_from_its_file_name() {
    for i in [0u32, 1, 9, 10, 1234] {
        let title = strip_md_suffix(&untitled_file_name(i));
        let expected = if i == 0 { "Untitled".to_string() } else { format!("Untitled {}", i) };
        assert_eq!(title, expected);
    }
}

#[test]
fn strip_md_suffix_only_strips_md() {
    assert_eq!(strip_md_suffix("notes.md"), "notes");
    assert_eq!(strip_md_suffix("notes.txt"), "notes.txt");
    assert_eq!(strip_md_suffix(".md"), "");
    assert_eq!(strip_md_suffix("md"), "md");
    assert_eq!(strip_md_suffix("résumé.md"), "résumé");
}

#[test]
fn decimal_digits() {
    assert_eq!(decimal_string(0), "0");
    assert_eq!(decimal_string(7), "7");
    assert_eq!(decimal_string(1230), "1230");
    assert_eq!(decimal_string(u32::MAX), "4294967295");
}

#[test]
fn markdown_titles_of_file_names() {
    assert_eq!(markdown_title("notes.md"), Some("notes".to_string()));
    assert_eq!(markdown_title("a.b.md"), Some("a.b".to_string()));
    assert_eq!(markdown_title("a..md"), Some("a.".to_string()));
    assert_eq!(markdown_title("Untitled 3.md"), Some("Untitled 3".to_string()));
    assert_eq!(markdown_title(".md"), None);
    assert_eq!(markdown_title("md"), None);
    assert_eq!(markdown_title("notes.MD"), None);
    assert_eq!(markdown_title("notes.md.txt"), None);
    assert_eq!(markdown_title("notes"), None);
    assert_eq!(markdown_title(""), None);
}

#[test]
fn markdown_file_name_appends_the_extension() {
    assert_eq!(markdown_file_name("Plan"), "Plan.md");
    assert_eq!(markdown_file_name("a/b"), "a/b.md");
}

#[test]
fn document_file_names_are_sanitized() {
    assert_eq!(document_file_name("Plan"), "Plan.md");
    assert_eq!(document_file_name("Plan B 2"), "Plan B 2.md");
    assert_eq!(document_file_name("a/b:c*d"), "abcd.md");
    assert_eq!(document_file_name("tab\tname"), "tabname.md");
    assert_eq!(document_file_name("que?"), "que.md");
}

#[test]
fn document_file_names_are_cut_to_255_bytes() {
    let long = "x".repeat(300);
    let name = document_file_name(&long);
    assert_eq!(name.len(), 255);
    assert!(name.chars().all(|c| c == 'x'));
}

#[test]
fn document_ids_are_hyphenated_uuids() {
    let a = new_document_id();
    let b = new_document_id();
    assert_eq!(a.len(), 36);
    for (i, c) in a.chars().enumerate() {
        if i == 8 || i == 13 || i == 18 || i == 23 {
            assert_eq!(c, '-');
        } else {
            assert!(c.is_ascii_digit() || ('a'..='f').contains(&c));
        }
    }
    assert_eq!(a.chars().nth(14), Some('4'));
    assert_ne!(a, b);
}

#[test]
fn untitled_search_stops_at_the_first_free_name() {
    match check_path_exists_step(0, true) {
        UntitledSearch::Next(n) => assert_eq!(n, 1),
        other => panic!("unexpected {:?}", other),
    }
    match check_path_exists_step(0, false) {
        UntitledSearch::Found(t) => assert_eq!(t, "Untitled"),
        other => panic!("unexpected {:?}", other),
    }
    match check_path_exists_step(12, false) {
        UntitledSearch::Found(t) => assert_eq!(t, "Untitled 12"),
        other => panic!("unexpected {:?}", other),
    }
}

#[test]
fn sanitizing_empties_dot_names_and_keeps_device_names_off_windows() {
    assert_eq!(document_file_name("con"), "con.md");
    assert_eq!(document_file_name("/x"), "x.md");
    assert_eq!(document_file_name("a. "), "a. .md");
}
