use float_launcher::catalog::{add_entry, position_of, remove_entry, CatalogError};
use float_launcher::matcher::{split_words, Entry};
use float_launcher::selection::Selection;
use float_launcher::session::{filter_catalog, filter_view, Key, Outcome, Session};

fn entry(name: &str, command: &str, tags: &[&str]) -> Entry {
    Entry {
        name: name.to_string(),
        description: format!("runs {}", command),
        command: command.to_string(),
        tags: tags.iter().map(|t| t.to_string()).collect(),
    }
}

fn sample() -> Vec<Entry> {
    vec![
        entry("git status", "git status", &["git"]),
        entry("git commit", "git commit", &["git"]),
        entry("ls", "ls -la", &["files"]),
    ]
}

fn type_text(s: &mut Session, text: &str) {
    for c in text.chars() {
        assert!(matches!(s.handle_key(Key::Char(c)), Outcome::Continue));
    }
}

fn is_match(q: &str, e: &Entry) -> bool {
    float_launcher::matcher::matches(q, e)
}

#[test]
fn typing_git_keeps_git_entries_in_order() {
    let mut s = Session::new(sample());
    type_text(&mut s, "git");
    assert_eq!(s.query, "git");
    assert_eq!(s.view, vec![0, 1]);
    assert_eq!(s.selected(), Some(0));
}

#[test]
fn appending_c_empties_the_view() {
    let mut s = Session::new(sample());
    type_text(&mut s, "gitc");
    assert_eq!(s.view, Vec::<usize>::new());
    assert_eq!(s.selected(), None);
}

#[test]
fn backspace_rescans_only_the_prior_view() {
    let mut s = Session::new(sample());
    type_text(&mut s, "gitc");
    assert!(matches!(s.handle_key(Key::Backspace), Outcome::Continue));
    assert_eq!(s.query, "git");
    assert_eq!(s.view, Vec::<usize>::new());
    assert_eq!(s.selected(), None);
}

#[test]
fn empty_query_shows_whole_catalog() {
    let s = Session::new(sample());
    assert_eq!(s.query, "");
    assert_eq!(s.view, vec![0, 1, 2]);
    assert_eq!(s.selected(), Some(0));
    let empty = Session::new(Vec::new());
    assert_eq!(empty.view, Vec::<usize>::new());
    assert_eq!(empty.selected(), None);
}

#[test]
fn escape_cancels_in_any_state() {
    let mut s = Session::new(sample());
    assert!(matches!(s.handle_key(Key::Esc), Outcome::Cancelled));
    type_text(&mut s, "git");
    s.handle_key(Key::Down);
    assert!(matches!(s.handle_key(Key::Esc), Outcome::Cancelled));
    type_text(&mut s, "zz");
    assert_eq!(s.selected(), None);
    assert!(matches!(s.handle_key(Key::Esc), Outcome::Cancelled));
}

#[test]
fn enter_commits_highlighted_command() {
    let mut s = Session::new(sample());
    s.handle_key(Key::Down);
    s.handle_key(Key::Down);
    match s.handle_key(Key::Enter) {
        Outcome::Committed(cmd) => assert_eq!(cmd, "ls -la"),
        _ => panic!("expected a command"),
    }
    type_text(&mut s, "git");
    s.handle_key(Key::Down);
    match s.handle_key(Key::Enter) {
        Outcome::Committed(cmd) => assert_eq!(cmd, "git commit"),
        _ => panic!("expected a command"),
    }
}

#[test]
fn enter_without_selection_does_nothing() {
    let mut s = Session::new(sample());
    type_text(&mut s, "nothing");
    assert!(matches!(s.handle_key(Key::Enter), Outcome::Continue));
    assert_eq!(s.query, "nothing");
}

#[test]
fn backspace_on_empty_query_changes_nothing() {
    let mut s = Session::new(sample());
    s.handle_key(Key::Down);
    assert!(matches!(s.handle_key(Key::Backspace), Outcome::Continue));
    assert_eq!(s.query, "");
    assert_eq!(s.view, vec![0, 1, 2]);
    assert_eq!(s.selected(), Some(1));
}

#[test]
fn query_change_resets_selection_to_top() {
    let mut s = Session::new(sample());
    s.handle_key(Key::Down);
    assert_eq!(s.selected(), Some(1));
    type_text(&mut s, "g");
    assert_eq!(s.selected(), Some(0));
    s.handle_key(Key::Up);
    assert_eq!(s.selected(), Some(1));
    s.handle_key(Key::Backspace);
    assert_eq!(s.view, vec![0, 1]);
    assert_eq!(s.selected(), Some(0));
}

#[test]
fn other_keys_are_ignored() {
    let mut s = Session::new(sample());
    s.handle_key(Key::Down);
    assert!(matches!(s.handle_key(Key::Other), Outcome::Continue));
    assert_eq!(s.view, vec![0, 1, 2]);
    assert_eq!(s.selected(), Some(1));
}

#[test]
fn navigation_wraps_around() {
    let mut s = Session::new(sample());
    s.handle_key(Key::Up);
    assert_eq!(s.selected(), Some(2));
    s.handle_key(Key::Down);
    assert_eq!(s.selected(), Some(0));
    s.handle_key(Key::Down);
    s.handle_key(Key::Down);
    s.handle_key(Key::Down);
    assert_eq!(s.selected(), Some(0));
}

#[test]
fn selection_next_and_previous_are_circular() {
    let mut sel = Selection::new();
    assert_eq!(sel.selected(), None);
    sel.next(3);
    assert_eq!(sel.selected(), Some(0));
    sel.next(3);
    sel.next(3);
    assert_eq!(sel.selected(), Some(2));
    sel.next(3);
    assert_eq!(sel.selected(), Some(0));
    sel.previous(3);
    assert_eq!(sel.selected(), Some(2));
    sel.previous(3);
    assert_eq!(sel.selected(), Some(1));
    sel.next(0);
    assert_eq!(sel.selected(), None);
    sel.previous(0);
    assert_eq!(sel.selected(), None);
    sel.first(1);
    sel.next(1);
    assert_eq!(sel.selected(), Some(0));
    sel.previous(1);
    assert_eq!(sel.selected(), Some(0));
    sel.unselect();
    assert_eq!(sel.selected(), None);
    sel.first(0);
    assert_eq!(sel.selected(), None);
}

#[test]
fn tokens_match_tags_and_name_words() {
    let e = entry("git status", "git status", &["vcs", "repo"]);
    assert!(is_match("", &e));
    assert!(is_match("sta", &e));
    assert!(is_match("git sta", &e));
    assert!(is_match("re gi", &e));
    assert!(is_match("v", &e));
    assert!(!is_match("tus", &e));
    assert!(!is_match("git x", &e));
    assert!(!is_match("Git", &e));
    assert!(!is_match("git status", &entry("git", "git", &[])));
    assert!(is_match("git  st", &e));
}

#[test]
fn split_words_keeps_empty_pieces() {
    let w = split_words("a  bc ");
    assert_eq!(w, vec![vec!['a'], vec![], vec!['b', 'c'], vec![]]);
    assert_eq!(split_words(""), vec![Vec::<char>::new()]);
}

#[test]
fn refiltering_twice_gives_the_same_view() {
    let c = sample();
    let once = filter_catalog(&c, "git s");
    assert_eq!(once, vec![0]);
    assert_eq!(filter_catalog(&c, "git s"), once);
    assert_eq!(filter_view(&c, "git s", &once), once);
    assert_eq!(filter_view(&c, "l", &vec![2, 0, 9]), vec![2]);
}

#[test]
fn add_entry_refuses_duplicate_names() {
    let mut c = sample();
    assert_eq!(add_entry(&mut c, entry("ls", "ls", &[])), Err(CatalogError::DuplicateName));
    assert_eq!(c.len(), 3);
    assert_eq!(add_entry(&mut c, entry("top", "htop", &["proc"])), Ok(()));
    assert_eq!(c.len(), 4);
    assert_eq!(c[3].command, "htop");
    assert_eq!(position_of(&c, &"top".to_string()), Some(3));
}

#[test]
fn remove_entry_by_name() {
    let mut c = sample();
    assert!(matches!(remove_entry(&mut c, &"nope".to_string()), Err(CatalogError::UnknownName)));
    assert_eq!(c.len(), 3);
    let removed = remove_entry(&mut c, &"git commit".to_string());
    assert_eq!(removed.map(|e| e.command), Ok("git commit".to_string()));
    assert_eq!(c.len(), 2);
    assert_eq!(c[1].name, "ls");
    assert_eq!(position_of(&c, &"git commit".to_string()), None);
}
