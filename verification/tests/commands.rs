use biquad_studio::commands::{channel_name_to_index, engine_status, search_headphones};
use biquad_studio::denormals::{DenormalGuard, DAZ_BIT, FTZ_BIT};
use biquad_studio::engine::{AudioEngineError, EngineLifecycle, StreamLifecycle};
use biquad_studio::noise::{DeepNoiseError, DeepNoiseProcessor};
use biquad_studio::params::{CHANNEL_CHAT, CHANNEL_GAME, CHANNEL_MEDIA, CHANNEL_MIC, NUM_CHANNELS};
use biquad_studio::process::{select_running_apps, ProcessInfo};

#[test]
fn channel_names_ignore_case() {
    assert_eq!(channel_name_to_index("game"), Ok(CHANNEL_GAME));
    assert_eq!(channel_name_to_index("CHAT"), Ok(CHANNEL_CHAT));
    assert_eq!(channel_name_to_index("Media"), Ok(CHANNEL_MEDIA));
    assert_eq!(channel_name_to_index("mIc"), Ok(CHANNEL_MIC));
    assert_eq!(channel_name_to_index("music"), Err("Unknown channel: music".to_string()));
    assert_eq!(channel_name_to_index(" game"), Err("Unknown channel:  game".to_string()));
    assert!(CHANNEL_MIC < NUM_CHANNELS);
}

#[test]
fn engine_status_reports_fixed_format() {
    let s = engine_status(true);
    assert!(s.running);
    assert_eq!(s.sample_rate, 48000);
    assert_eq!(s.buffer_frames, 128);
    assert!(s.output_device.is_none());
    assert!(!engine_status(false).running);
}

#[test]
fn search_headphones_offers_three_models() {
    let v = search_headphones("anything".to_string()).unwrap();
    assert_eq!(v, vec!["Sennheiser HD 600", "Beyerdynamic DT 990 Pro", "AKG K712 Pro"]);
}

#[test]
fn engine_lifecycle_start_stop() {
    let mut e = EngineLifecycle::new();
    assert!(!e.is_running());
    assert!(matches!(e.stop(), Err(AudioEngineError::NotRunning)));
    assert!(e.start().is_ok());
    assert!(e.is_running());
    assert!(matches!(e.start(), Err(AudioEngineError::AlreadyRunning)));
    assert!(e.take_telemetry());
    assert!(!e.take_telemetry());
    assert!(matches!(e.stop(), Ok(true)));
    assert!(!e.is_running());
    assert!(matches!(e.stop(), Err(AudioEngineError::NotRunning)));
}

#[test]
fn stream_lifecycle_is_idempotent() {
    let mut s = StreamLifecycle::new();
    assert!(!s.stop());
    assert!(s.start());
    assert!(!s.start());
    assert!(s.stop());
    assert!(!s.stop());
}

#[test]
fn denormal_guard_sets_ftz_and_daz() {
    let g = DenormalGuard::from_previous(0x1f80);
    assert_eq!(g.previous_mxcsr(), 0x1f80);
    assert_eq!(g.protected_mxcsr(), 0x9fc0);
    assert_eq!(g.protected_mxcsr() & (FTZ_BIT | DAZ_BIT), FTZ_BIT | DAZ_BIT);
    let h = DenormalGuard::from_previous(0x9fc0);
    assert_eq!(h.protected_mxcsr(), 0x9fc0);
}

#[test]
fn noise_processor_checks_frame_length() {
    let p = DeepNoiseProcessor::new("model.onnx").unwrap();
    assert_eq!(p.frame_size(), 480);
    assert!(p.check_frame(480).is_ok());
    match p.check_frame(256) {
        Err(DeepNoiseError::InvalidFrameSize { expected, got }) => {
            assert_eq!(expected, 480);
            assert_eq!(got, 256);
        }
        _ => panic!("expected a frame size error"),
    }
}

fn proc(pid: u32, name: &str, memory: u64) -> ProcessInfo {
    ProcessInfo { pid, name: name.to_string(), memory }
}

#[test]
fn running_apps_large_sorted_unique() {
    let ps = vec![
        proc(1, "chrome", 60_000_000),
        proc(2, "tiny", 1_000),
        proc(3, "discord", 300_000_000),
        proc(4, "chrome", 400_000_000),
        proc(5, "game", 300_000_000),
        proc(6, "edge", 50_000_000),
    ];
    let r = select_running_apps(&ps);
    let got: Vec<(u32, &str)> = r.iter().map(|p| (p.pid, p.name.as_str())).collect();
    assert_eq!(got, vec![(4, "chrome"), (3, "discord"), (5, "game")]);
}

#[test]
fn running_apps_at_most_twenty() {
    let ps: Vec<ProcessInfo> = (0..30u32).map(|i| proc(i, &format!("app{}", i), 60_000_000 + i as u64)).collect();
    let r = select_running_apps(&ps);
    assert_eq!(r.len(), 20);
    assert_eq!(r[0].pid, 29);
    assert_eq!(r[19].pid, 10);
}

#[test]
fn running_apps_keep_largest_of_each_name() {
    let ps = vec![
        proc(1, "chrome", 70_000_000),
        proc(2, "chrome", 90_000_000),
        proc(3, "obs", 80_000_000),
        proc(4, "chrome", 60_000_000),
        proc(5, "obs", 50_000_001),
    ];
    let r = select_running_apps(&ps);
    let got: Vec<(u32, &str, u64)> = r.iter().map(|p| (p.pid, p.name.as_str(), p.memory)).collect();
    assert_eq!(got, vec![(2, "chrome", 90_000_000), (3, "obs", 80_000_000)]);
}

#[test]
fn running_apps_stable_for_equal_memory() {
    let ps = vec![proc(10, "a", 60_000_000), proc(11, "b", 60_000_000), proc(12, "c", 60_000_000)];
    let r = select_running_apps(&ps);
    let got: Vec<u32> = r.iter().map(|p| p.pid).collect();
    assert_eq!(got, vec![10, 11, 12]);
}

#[test]
fn running_apps_of_small_processes_is_empty() {
    let ps = vec![proc(1, "a", 50_000_000), proc(2, "b", 0)];
    assert!(select_running_apps(&ps).is_empty());
    assert!(select_running_apps(&vec![]).is_empty());
}

#[test]
fn running_apps_dedup_before_cut() {
    // 25 processes but only 12 names: every name is listed.
    let ps: Vec<ProcessInfo> =
        (0..25u32).map(|i| proc(i, &format!("n{}", i % 12), 100_000_000 + i as u64)).collect();
    let r = select_running_apps(&ps);
    assert_eq!(r.len(), 12);
    let mut names: Vec<&str> = r.iter().map(|p| p.name.as_str()).collect();
    names.sort();
    names.dedup();
    assert_eq!(names.len(), 12);
    assert!(r.windows(2).all(|w| w[0].memory >= w[1].memory));
}

#[test]
fn channel_indices_are_distinct_and_in_range() {
    let idx: Vec<usize> = ["game", "chat", "media", "mic"].iter().map(|n| channel_name_to_index(n).unwrap()).collect();
    assert_eq!(idx, vec![0, 1, 2, 3]);
    assert!(idx.iter().all(|&i| i < NUM_CHANNELS));
}

#[test]
fn channel_names_in_ascii_any_case() {
    assert_eq!(channel_name_to_index("Game"), Ok(CHANNEL_GAME));
    assert_eq!(channel_name_to_index("GAME"), Ok(CHANNEL_GAME));
    assert_eq!(channel_name_to_index("MeDiA"), Ok(CHANNEL_MEDIA));
    assert!(channel_name_to_index("Gäme").is_err());
}
