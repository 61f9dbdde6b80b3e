use syncaudio::session::{POLL_INTERVAL_MS, STARTUP_DELAY_MS};
use syncaudio::audio::capture::{downmix_plan, Downmix, LFE_CHANNEL, MIX_SCALE_PERCENT};
use syncaudio::audio::volume::set_output_muted;
use syncaudio::config::{AppConfig, Role};
use syncaudio::session::{plan_session, AutoAction, AutoConnect, SessionPlan, RETRY_POLLS};
use syncaudio::state::{STATUS_CONNECTED, STATUS_CONNECTING, STATUS_ERROR, STATUS_IDLE};

fn config(role: Role, ip: &str, auto: bool) -> AppConfig {
    AppConfig { role, last_server_ip: ip.to_string(), buffer_size_ms: 80, auto_connect: auto }
}

#[test]
fn status_codes() {
    assert_eq!((STATUS_IDLE, STATUS_CONNECTING, STATUS_CONNECTED, STATUS_ERROR), (0, 1, 2, 3));
}

#[test]
fn sender_plan_mutes_and_targets_saved_ip() {
    let p = plan_session(&config(Role::Sender, "192.168.1.20", false));
    assert!(p.mutes_output());
    match p {
        SessionPlan::Send { target_ip } => assert_eq!(target_ip, "192.168.1.20"),
        SessionPlan::Receive { .. } => panic!("expected a sender plan"),
    }
}

#[test]
fn receiver_plan_keeps_buffer() {
    let p = plan_session(&config(Role::Receiver, "", false));
    assert!(!p.mutes_output());
    match p {
        SessionPlan::Receive { buffer_size_ms } => assert_eq!(buffer_size_ms, 80),
        SessionPlan::Send { .. } => panic!("expected a receiver plan"),
    }
}

#[test]
fn starts_connected_needs_flag_and_ip() {
    assert!(config(Role::Sender, "10.0.0.2", true).starts_connected());
    assert!(!config(Role::Sender, "", true).starts_connected());
    assert!(!config(Role::Sender, "10.0.0.2", false).starts_connected());
}

#[test]
fn auto_connect_retries_after_fifty_polls() {
    let mut a = AutoConnect::new();
    assert_eq!(a.on_status(STATUS_IDLE), AutoAction::Attempt);
    assert_eq!(a.on_attempt(false), AutoAction::ResetAndPoll);
    for _ in 0..RETRY_POLLS - 1 {
        assert_eq!(a.on_status(STATUS_IDLE), AutoAction::Poll);
    }
    assert_eq!(a.on_status(STATUS_IDLE), AutoAction::Check);
    assert_eq!(a, AutoConnect::Checking);
    assert_eq!(a.on_status(STATUS_IDLE), AutoAction::Attempt);
    assert_eq!(a.on_attempt(true), AutoAction::Stop);
    assert_eq!(a, AutoConnect::Finished);
}

#[test]
fn auto_connect_yields_to_the_user() {
    let mut a = AutoConnect::new();
    assert_eq!(a.on_status(STATUS_CONNECTING), AutoAction::Stop);
    let mut b = AutoConnect::Backoff { polls: 3 };
    assert_eq!(b.on_status(STATUS_CONNECTED), AutoAction::Stop);
    assert_eq!(b, AutoConnect::Finished);
    let mut c = AutoConnect::Backoff { polls: 3 };
    assert_eq!(c.on_status(STATUS_ERROR), AutoAction::Poll);
    assert_eq!(c, AutoConnect::Backoff { polls: 4 });
}

#[test]
fn downmix_table() {
    assert!(matches!(downmix_plan(2), Downmix::PassThrough));
    assert_eq!(MIX_SCALE_PERCENT, 70);
    match downmix_plan(1) {
        Downmix::Mix { left, right } => {
            assert_eq!(left, vec![(0, 100)]);
            assert_eq!(right, vec![(0, 100)]);
        }
        Downmix::PassThrough => panic!("mono is mixed"),
    }
    match downmix_plan(6) {
        Downmix::Mix { left, right } => {
            assert_eq!(left, vec![(0, 100), (2, 50), (LFE_CHANNEL, 50), (4, 50)]);
            assert_eq!(right, vec![(1, 100), (2, 50), (LFE_CHANNEL, 50), (5, 50)]);
        }
        Downmix::PassThrough => panic!("5.1 is mixed"),
    }
    match downmix_plan(8) {
        Downmix::Mix { left, right } => {
            assert_eq!(left, vec![(0, 100), (2, 50), (3, 50), (4, 35), (6, 35)]);
            assert_eq!(right, vec![(1, 100), (2, 50), (3, 50), (5, 35), (7, 35)]);
        }
        Downmix::PassThrough => panic!("7.1 is mixed"),
    }
    match downmix_plan(5) {
        Downmix::Mix { left, right } => {
            assert_eq!(left, vec![(0, 100), (2, 50), (LFE_CHANNEL, 50), (4, 50)]);
            assert_eq!(right, vec![(1, 100), (2, 50), (LFE_CHANNEL, 50), (4, 50)]);
        }
        Downmix::PassThrough => panic!("5 channels are mixed"),
    }
    match downmix_plan(7) {
        Downmix::Mix { left, right } => {
            assert_eq!(left, vec![(0, 100), (2, 50), (3, 50), (4, 50), (6, 35)]);
            assert_eq!(right, vec![(1, 100), (2, 50), (3, 50), (5, 50), (6, 35)]);
        }
        Downmix::PassThrough => panic!("7 channels are mixed"),
    }
    match downmix_plan(12) {
        Downmix::Mix { left, right } => {
            assert_eq!(left, vec![(0, 100), (2, 50), (3, 50), (4, 35), (6, 35)]);
            assert_eq!(right, vec![(1, 100), (2, 50), (3, 50), (5, 35), (7, 35)]);
        }
        Downmix::PassThrough => panic!("12 channels are mixed"),
    }
    match downmix_plan(3) {
        Downmix::Mix { left, right } => {
            assert_eq!(left, vec![(0, 100), (2, 50)]);
            assert_eq!(right, vec![(1, 100), (2, 50)]);
        }
        Downmix::PassThrough => panic!("3 channels are mixed"),
    }
}

#[test]
fn every_surround_layout_keeps_the_bass() {
    for ch in 4..=16usize {
        match downmix_plan(ch) {
            Downmix::Mix { left, right } => {
                assert!(left.contains(&(LFE_CHANNEL, 50)));
                assert!(right.contains(&(LFE_CHANNEL, 50)));
                assert!(left.iter().chain(right.iter()).all(|&(c, _)| c < ch));
            }
            Downmix::PassThrough => panic!("surround is mixed"),
        }
    }
}

#[test]
fn muting_succeeds_off_windows() {
    assert!(set_output_muted(true).is_ok());
    assert!(set_output_muted(false).is_ok());
}

#[test]
fn retry_timing() {
    assert_eq!(RETRY_POLLS as u64 * POLL_INTERVAL_MS, 5_000);
    assert_eq!(STARTUP_DELAY_MS, 3_000);
}
