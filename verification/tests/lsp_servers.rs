//! What becomes of a language server when it exits, and which one a file
//! goes to.

use typ_app::lsp::servers::{
    lookup, restartable, running, AfterExit, Lookup, ServerState, CRASH_WINDOW_MS, MAX_RESTARTS,
};

fn ready(config: usize, root: &str) -> ServerState {
    let mut s = ServerState::new(config, root.to_string(), true);
    s.mark_ready();
    s
}

#[test]
fn a_server_that_never_finished_a_handshake_is_not_restarted_into_a_loop() {
    let mut s = ServerState::new(0, "/p".to_string(), true);
    assert_eq!(s.exited(10, vec!["Unknown binary".to_string()]), AfterExit::Stop);
    assert!(s.is_stopped());
    assert!(!s.is_running());
}

#[test]
fn a_crash_is_restarted() {
    let mut s = ready(0, "/p");
    assert_eq!(s.exited(1000, vec![]), AfterExit::Restart);
    assert!(!s.is_stopped());
    s.restarted(true);
    assert!(s.is_running());
    assert!(!s.ever_ready(), "a restarted server has to finish its handshake again");
}

#[test]
fn the_fifth_exit_inside_the_window_stops_it() {
    let mut s = ready(0, "/p");
    for i in 0..MAX_RESTARTS as u64 {
        assert_eq!(s.exited(i * 1000, vec![]), AfterExit::Restart, "exit {i}");
        s.restarted(true);
        s.mark_ready();
    }
    assert_eq!(s.exited(5000, vec![]), AfterExit::Stop);
    assert!(s.is_stopped());
}

#[test]
fn a_server_that_dies_once_an_hour_is_not_a_crash_loop() {
    let mut s = ready(0, "/p");
    for i in 0..10u64 {
        assert_eq!(s.exited(i * 3_600_000, vec![]), AfterExit::Restart, "exit {i}");
        s.restarted(true);
        s.mark_ready();
    }
}

#[test]
fn the_window_is_measured_from_the_oldest_exit_on_record() {
    let mut s = ready(0, "/p");
    for t in [0u64, 1, 2, 3] {
        assert_eq!(s.exited(t, vec![]), AfterExit::Restart);
        s.restarted(true);
        s.mark_ready();
    }
    assert_eq!(s.exited(CRASH_WINDOW_MS + 1, vec![]), AfterExit::Restart);
    s.restarted(true);
    s.mark_ready();
    assert_eq!(s.exited(CRASH_WINDOW_MS + 1, vec![]), AfterExit::Stop);
}

#[test]
fn a_restart_that_fails_gives_up() {
    let mut s = ready(0, "/p");
    s.exited(1, vec![]);
    s.restarted(false);
    assert!(s.is_stopped());
}

#[test]
fn asking_for_it_back_clears_the_window() {
    let mut s = ServerState::new(0, "/p".to_string(), true);
    s.exited(1, vec![]);
    assert!(s.is_stopped());
    s.forgive();
    assert!(!s.is_stopped());
    s.restarted(true);
    assert!(s.is_running());
}

#[test]
fn the_exit_reason_is_the_servers_own_last_words() {
    let mut s = ServerState::new(0, "/p".to_string(), true);
    s.exited(1, vec!["warming up".to_string(), "Unknown binary 'rust-analyzer'".to_string(), "   ".to_string()]);
    assert_eq!(s.exit_reason("rust-analyzer"), "rust-analyzer: Unknown binary 'rust-analyzer'");
}

#[test]
fn a_silent_exit_says_whether_it_ever_started() {
    let mut never = ServerState::new(0, "/p".to_string(), true);
    never.exited(1, vec![]);
    assert_eq!(never.exit_reason("zls"), "zls did not start.");

    let mut crashed = ready(0, "/p");
    crashed.exited(1, vec!["".to_string()]);
    assert_eq!(crashed.exit_reason("zls"), "zls exited.");
}

#[test]
fn one_process_per_configuration_and_root() {
    let mut servers = vec![ready(0, "/one"), ready(0, "/two"), ServerState::new(1, "/one".to_string(), false)];
    assert_eq!(lookup(&servers, 0, "/one"), Lookup::Running(0));
    assert_eq!(lookup(&servers, 0, "/two"), Lookup::Running(1));
    assert_eq!(lookup(&servers, 1, "/one"), Lookup::Down, "stopped counts as present");
    assert_eq!(lookup(&servers, 1, "/two"), Lookup::Absent);
    assert_eq!(running(&servers), 2);
    servers[1].exited(5, vec![]);
    assert_eq!(running(&servers), 1);
}

#[test]
fn a_restart_by_request_takes_every_server_that_is_down() {
    let mut servers = vec![ready(0, "/a"), ready(0, "/b"), ServerState::new(1, "/a".to_string(), false)];
    assert_eq!(restartable(&servers), vec![2]);
    servers[0].exited(5, vec![]);
    assert_eq!(restartable(&servers), vec![0, 2]);
    servers[1].shut_down();
    assert_eq!(restartable(&servers), vec![0, 1, 2]);
}
