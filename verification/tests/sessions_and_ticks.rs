use yomag_audio::engine::tick_frames;
use yomag_audio::sessions::{order_by_name, select_sessions, session_names, SessionCandidate};

fn live(pid: u32) -> SessionCandidate {
    SessionCandidate { pid: Some(pid), expired: false, system_sounds: false }
}

#[test]
fn sessions_keep_first_of_each_process() {
    let candidates = vec![
        live(10),
        SessionCandidate { pid: Some(11), expired: true, system_sounds: false },
        SessionCandidate { pid: Some(12), expired: false, system_sounds: true },
        live(10),
        live(0),
        live(99),
        SessionCandidate { pid: None, expired: false, system_sounds: false },
        live(13),
    ];
    assert_eq!(select_sessions(&candidates, 99), vec![0, 7]);
}

#[test]
fn sessions_empty_when_nothing_capturable() {
    assert_eq!(select_sessions(&[], 1), Vec::<usize>::new());
    assert_eq!(select_sessions(&[live(5)], 5), Vec::<usize>::new());
}

#[test]
fn session_names_fall_back_to_pid_and_process() {
    assert_eq!(session_names(42, None, None), ("pid 42".to_string(), "pid 42".to_string()));
    assert_eq!(
        session_names(7, Some("spotify.exe".to_string()), Some(String::new())),
        ("spotify.exe".to_string(), "spotify.exe".to_string())
    );
    assert_eq!(
        session_names(7, Some("spotify.exe".to_string()), Some("Spotify".to_string())),
        ("spotify.exe".to_string(), "Spotify".to_string())
    );
}

#[test]
fn sessions_order_case_insensitively_and_stably() {
    let names: Vec<String> =
        ["zoom", "Discord", "apple", "discord", "Apple Music"].iter().map(|s| s.to_string()).collect();
    assert_eq!(order_by_name(&names), vec![2, 4, 1, 3, 0]);
    assert_eq!(order_by_name(&[]), Vec::<usize>::new());
}

#[test]
fn tick_frames_clamps_to_one_and_two_hundred_ms() {
    assert_eq!(tick_frames(0), 1);
    assert_eq!(tick_frames(480), 480);
    assert_eq!(tick_frames(9600), 9600);
    assert_eq!(tick_frames(9601), 9600);
}
