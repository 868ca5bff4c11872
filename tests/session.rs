use lsm_db::cmd::Command;
use lsm_db::session::{Action, Input, Session};

fn line(s: &str) -> Input {
    Input::Line(s.to_string())
}

#[test]
fn blank_lines_are_skipped_without_history() {
    let mut s = Session::new();
    assert_eq!(s.step(line("")), Action::Idle);
    assert_eq!(s.step(line("   \t ")), Action::Idle);
    assert!(s.history_lines().is_empty());
    assert!(!s.has_ended());
}

#[test]
fn every_non_blank_line_is_recorded_in_order() {
    let mut s = Session::new();
    s.step(line("get 1"));
    s.step(line("bogus"));
    s.step(line("  "));
    s.step(line("put 1"));
    s.step(line("help"));
    assert_eq!(
        s.history_lines().clone(),
        vec!["get 1".to_string(), "bogus".to_string(), "put 1".to_string(), "help".to_string()]
    );
}

#[test]
fn end_of_input_ends_like_quit() {
    let mut a = Session::new();
    assert_eq!(a.step(Input::EndOfInput), Action::Quit);
    assert!(a.has_ended());
    assert!(a.history_lines().is_empty());
    let mut b = Session::new();
    assert_eq!(b.step(line("quit")), Action::Quit);
    assert!(b.has_ended());
    assert_eq!(a.step(line("get 1")), Action::Idle);
    assert_eq!(b.step(Input::EndOfInput), Action::Idle);
    assert_eq!(b.history_lines().len(), 1);
}

#[test]
fn interrupt_only_gives_a_hint() {
    let mut s = Session::new();
    s.step(line("get 2"));
    assert_eq!(s.step(Input::Interrupted), Action::Hint);
    assert!(!s.has_ended());
    assert_eq!(s.history_lines().len(), 1);
    assert_eq!(s.step(line("get 3")), Action::Forward(Command::Get(3)));
}

#[test]
fn line_source_failure_is_reported_and_survived() {
    let mut s = Session::new();
    assert_eq!(s.step(Input::Failed), Action::ReportError);
    assert!(!s.has_ended());
    assert!(s.history_lines().is_empty());
}

#[test]
fn help_is_shown_not_forwarded() {
    let mut s = Session::new();
    assert_eq!(s.step(line("h")), Action::ShowHelp);
    assert_eq!(s.step(line("s")), Action::Forward(Command::PrintStats));
    assert!(!s.has_ended());
}

#[test]
fn put_get_reject_quit_scenario() {
    let mut s = Session::new();
    assert_eq!(s.step(line("put 3 7")), Action::Forward(Command::Put(3, 7)));
    assert_eq!(s.step(line("get 3")), Action::Forward(Command::Get(3)));
    assert_eq!(s.step(line("xyz")), Action::Unrecognized);
    assert!(!s.has_ended());
    assert_eq!(s.step(line("quit")), Action::Quit);
    assert!(s.has_ended());
    assert_eq!(
        s.history_lines().clone(),
        vec![
            "put 3 7".to_string(),
            "get 3".to_string(),
            "xyz".to_string(),
            "quit".to_string()
        ]
    );
}
