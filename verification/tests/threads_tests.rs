use x5ch_rs::lock::{handoff_step, pid_from_text, HandoffAction, HandoffEvent, HandoffState, LockError};
use x5ch_rs::models::Board;
use x5ch_rs::threads::{dat_start_time, follow_subject_redirect, ikioi_elapsed_seconds, parse_subject_entries};

#[test]
fn parse_subject_lines_extracts_dat_title_count() {
    let sample = "1700000000.dat<>テストスレ(123)\nおかしい行\n1700000100.dat<>別のスレ(5)\n";
    let result = parse_subject_entries(sample);
    assert_eq!(result.len(), 2);
    assert_eq!(result[0].dat_file, "1700000000.dat");
    assert_eq!(result[0].title, "テストスレ");
    assert_eq!(result[0].count, 123);
}

#[test]
fn parse_subject_entries_takes_the_first_count_suffix_and_skips_overflow() {
    let sample = "1.dat<> a (b) (7) \r\n2.dat<>x(99999999999)\n3.dat<>(4)(5)x\n4.dat<>t (1)(2)";
    let result = parse_subject_entries(sample);
    assert_eq!(result.len(), 2);
    assert_eq!(result[0].dat_file, "1.dat");
    assert_eq!(result[0].title, "a (b)");
    assert_eq!(result[0].count, 7);
    assert_eq!(result[1].dat_file, "4.dat");
    assert_eq!(result[1].title, "t (1)");
    assert_eq!(result[1].count, 2);
}

#[test]
fn calc_ikioi_computes_posts_per_day() {
    let now: i64 = 1_000_000_000;
    let dat_file = format!("{}.dat", now - 86_400);
    let elapsed = ikioi_elapsed_seconds(&dat_file, now).unwrap();
    assert_eq!(elapsed, 86_400);
    let ikioi = 240.0 / (elapsed as f64 / 86400.0);
    assert!((ikioi - 240.0).abs() < 0.001);
}

#[test]
fn ikioi_elapsed_is_at_least_one_second() {
    assert_eq!(ikioi_elapsed_seconds("2000.dat", 1000), Some(1));
    assert_eq!(ikioi_elapsed_seconds("abc.dat", 1000), None);
    assert_eq!(dat_start_time("-5"), Some(-5));
    assert_eq!(dat_start_time("12.dat.dat"), None);
}

#[test]
fn follow_subject_redirect_updates_board_url() {
    let mut board = Board { title: "なんJ".to_string(), url: "https://egg.5ch.net/livejupiter/".to_string() };
    follow_subject_redirect(&mut board, "https://egg.5ch.net/livejupiter/subject.txt");
    assert_eq!(board.url, "https://egg.5ch.net/livejupiter/");
    follow_subject_redirect(&mut board, "https://egg.5ch.io/livejupiter/subject.txt");
    assert_eq!(board.url, "https://egg.5ch.io/livejupiter/");
    follow_subject_redirect(&mut board, "https://elsewhere/");
    assert_eq!(board.url, "https://elsewhere/");
    assert_eq!(board.title, "なんJ");
}

#[test]
fn pid_from_text_trims_and_parses() {
    assert_eq!(pid_from_text(" 1234\n"), Some(1234));
    assert_eq!(pid_from_text("-7"), Some(-7));
    assert_eq!(pid_from_text("abc"), None);
    assert_eq!(pid_from_text(""), None);
    assert_eq!(LockError("x".to_string()).to_string(), "x");
}

#[test]
fn handoff_gives_five_waits_then_kills() {
    let (s, a) = handoff_step(HandoffState::Start, HandoffEvent::PidRead(Some(42)));
    assert_eq!(a, HandoffAction::SendTerm(42));
    let (mut s, mut a) = handoff_step(s, HandoffEvent::Signalled);
    let mut waits = 0;
    while a == HandoffAction::SleepAndCheck(42) {
        waits += 1;
        let r = handoff_step(s, HandoffEvent::Alive(true));
        s = r.0;
        a = r.1;
    }
    assert_eq!(waits, 5);
    assert_eq!(a, HandoffAction::CheckAlive(42));
    let (s, a) = handoff_step(s, HandoffEvent::Alive(true));
    assert_eq!(a, HandoffAction::SendKill(42));
    let (s, a) = handoff_step(s, HandoffEvent::Signalled);
    assert_eq!(a, HandoffAction::TakeLock);
    assert_eq!(s, HandoffState::Finished);
}

#[test]
fn handoff_without_pid_takes_the_lock() {
    assert_eq!(handoff_step(HandoffState::Start, HandoffEvent::PidRead(None)).1, HandoffAction::TakeLock);
    assert_eq!(handoff_step(HandoffState::Start, HandoffEvent::PidRead(Some(0))).1, HandoffAction::TakeLock);
    let (s, _) = handoff_step(HandoffState::Start, HandoffEvent::PidRead(Some(9)));
    let (s, _) = handoff_step(s, HandoffEvent::Signalled);
    let (s, a) = handoff_step(s, HandoffEvent::Alive(false));
    assert_eq!(a, HandoffAction::CheckAlive(9));
    let (_, a) = handoff_step(s, HandoffEvent::Alive(false));
    assert_eq!(a, HandoffAction::TakeLock);
}
