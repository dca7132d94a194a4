use rumpel::clock::{fmt_time, ClockTime};
use rumpel::config::load_config;
use rumpel::controls::{
    after_trash, content_fit, mute_icon, on_bus_message, on_click, on_key, on_pointer_motion, on_stop,
    open_target, play_toggled, sink_extent, BusEvent, BusReaction, ContentFit, Key, KeyReaction,
    Modifiers, MotionReaction, OpenTarget, PipelineState, TrashOutcome, ViewState,
};
use rumpel::folder::{folder_videos, trash_successor, wrapped_neighbor, FolderEntry};
use rumpel::session::Session;
use rumpel::paths::paths_equal;
use rumpel::streams::{
    info_text, stream_details, stream_kind, Fraction, StreamCaps, StreamInfo, StreamKind,
};
use rumpel::videos::{file_extension, is_video_extension, is_video_path};

fn paths(names: &[&str]) -> Vec<Vec<u8>> {
    names.iter().map(|n| n.as_bytes().to_vec()).collect()
}

fn entry(dir: &str, name: &str, is_file: bool) -> FolderEntry {
    FolderEntry {
        path: format!("{dir}/{name}").into_bytes(),
        file_name: name.as_bytes().to_vec(),
        is_file,
    }
}

#[test]
fn time_formatting() {
    assert_eq!(fmt_time(ClockTime::from_seconds(0)), "0:00");
    assert_eq!(fmt_time(ClockTime::from_seconds(65)), "1:05");
    assert_eq!(fmt_time(ClockTime::from_seconds(3725)), "1:02:05");
}

#[test]
fn folder_navigation_wraps_in_both_directions() {
    let files = paths(&["a.mkv", "b.mp4", "c.webm"]);

    assert_eq!(
        wrapped_neighbor(&files, &files[0], -1),
        Some(files[2].clone())
    );
    assert_eq!(
        wrapped_neighbor(&files, &files[2], 1),
        Some(files[0].clone())
    );
}

#[test]
fn common_video_extensions_are_case_insensitive() {
    assert!(is_video_extension("MKV"));
    assert!(is_video_extension("mpv"));
    assert!(is_video_extension("wmv"));
    assert!(!is_video_extension("txt"));
}

#[test]
fn time_formatting_boundaries() {
    assert_eq!(fmt_time(ClockTime::from_seconds(59)), "0:59");
    assert_eq!(fmt_time(ClockTime::from_seconds(3599)), "59:59");
    assert_eq!(fmt_time(ClockTime::from_seconds(3600)), "1:00:00");
    assert_eq!(fmt_time(ClockTime::from_seconds(36000 + 9)), "10:00:09");
    assert_eq!(fmt_time(ClockTime::from_nseconds(1_999_999_999)), "0:01");
    assert_eq!(fmt_time(ClockTime::zero()), "0:00");
}

#[test]
fn clock_time_round_trips_seconds() {
    let t = ClockTime::from_seconds(4242);
    assert_eq!(t.seconds(), 4242);
    assert_eq!(t.nseconds(), 4_242_000_000_000);
    assert_eq!(ClockTime::from_nseconds(999_999_999).seconds(), 0);
}

#[test]
fn every_listed_extension_is_recognised() {
    for ext in [
        "3gp", "3g2", "asf", "avi", "divx", "flv", "m2ts", "m4v", "mkv", "mov", "mp4", "mpe",
        "mpeg", "mpg", "mpv", "mts", "mxf", "ogm", "ogv", "ts", "vob", "webm", "wmv",
    ] {
        assert!(is_video_extension(ext), "{ext}");
        assert!(is_video_extension(&ext.to_ascii_uppercase()), "{ext}");
    }
    assert!(is_video_extension("WebM"));
    assert!(!is_video_extension(""));
    assert!(!is_video_extension("mkv "));
    assert!(!is_video_extension("mk"));
    assert!(!is_video_extension("mkvv"));
    assert!(!is_video_extension("MKV\u{130}"));
}

#[test]
fn file_extensions_follow_the_last_dot() {
    assert_eq!(file_extension(b"movie.mkv"), Some(b"mkv".to_vec()));
    assert_eq!(file_extension(b"a.b.MP4"), Some(b"MP4".to_vec()));
    assert_eq!(file_extension(b"trailing."), Some(Vec::new()));
    assert_eq!(file_extension(b".hidden"), None);
    assert_eq!(file_extension(b".hidden.avi"), Some(b"avi".to_vec()));
    assert_eq!(file_extension(b"noextension"), None);
    assert_eq!(file_extension(b""), None);
}

#[test]
fn video_paths_need_a_file_with_video_extension() {
    assert!(is_video_path(b"clip.MOV", true));
    assert!(!is_video_path(b"clip.mov", false));
    assert!(!is_video_path(b"notes.txt", true));
    assert!(!is_video_path(b".mkv", true));
    assert!(!is_video_path(b"clip.\xffkv", true));
    assert!(is_video_path(b"\xff\xfe.mkv", true));
}

#[test]
fn folder_listing_keeps_videos_sorted_without_case() {
    let entries = vec![
        entry("/v", "b.mp4", true),
        entry("/v", "notes.txt", true),
        entry("/v", "A.mkv", true),
        entry("/v", "sub.mkv", false),
        entry("/v", "c.WEBM", true),
        entry("/v", "a.mkv", true),
        entry("/v", "_x.avi", true),
    ];
    let videos = folder_videos(&entries);
    assert_eq!(
        videos,
        paths(&["/v/_x.avi", "/v/A.mkv", "/v/a.mkv", "/v/b.mp4", "/v/c.WEBM"])
    );
}

#[test]
fn folder_listing_of_no_videos_is_empty() {
    let entries = vec![entry("/v", "readme", true), entry("/v", "x.txt", true)];
    assert!(folder_videos(&entries).is_empty());
    assert!(folder_videos(&Vec::new()).is_empty());
}

#[test]
fn neighbours_move_by_offset_and_wrap() {
    let files = paths(&["a.mkv", "b.mp4", "c.webm"]);
    assert_eq!(wrapped_neighbor(&files, b"a.mkv", 1), Some(files[1].clone()));
    assert_eq!(wrapped_neighbor(&files, b"b.mp4", -1), Some(files[0].clone()));
    assert_eq!(wrapped_neighbor(&files, b"b.mp4", 4), Some(files[2].clone()));
    assert_eq!(wrapped_neighbor(&files, b"b.mp4", -5), Some(files[2].clone()));
    assert_eq!(wrapped_neighbor(&files, b"b.mp4", 0), Some(files[1].clone()));
    assert_eq!(wrapped_neighbor(&files, b"z.mkv", 1), None);
    assert_eq!(wrapped_neighbor(&Vec::new(), b"a.mkv", 1), None);
}

#[test]
fn next_then_previous_returns_to_start() {
    let files = paths(&["a.mkv", "b.mp4", "c.webm", "d.avi"]);
    for f in &files {
        let next = wrapped_neighbor(&files, f, 1).unwrap();
        assert_eq!(wrapped_neighbor(&files, &next, -1).as_ref(), Some(f));
    }
}

#[test]
fn trash_successor_is_next_or_none_for_sole_video() {
    let files = paths(&["a.mkv", "b.mp4"]);
    assert_eq!(trash_successor(&files, b"b.mp4"), Some(files[0].clone()));
    assert_eq!(trash_successor(&files, b"a.mkv"), Some(files[1].clone()));
    let sole = paths(&["only.mkv"]);
    assert_eq!(trash_successor(&sole, b"only.mkv"), None);
    assert_eq!(trash_successor(&sole, b"gone.mkv"), None);
}

#[test]
fn stream_details_describe_video_and_audio() {
    let streams = vec![
        StreamInfo {
            kind: StreamKind::Video,
            caps: Some(StreamCaps {
                codec: "video/x-h265".to_string(),
                width: Some(3840),
                height: Some(2160),
                frame_rate: Some(Fraction { numer: 24000, denom: 1001 }),
                channels: None,
            }),
        },
        StreamInfo { kind: StreamKind::Audio, caps: None },
        StreamInfo {
            kind: StreamKind::Audio,
            caps: Some(StreamCaps {
                codec: "audio/mpeg".to_string(),
                width: None,
                height: None,
                frame_rate: None,
                channels: Some(6),
            }),
        },
        StreamInfo {
            kind: StreamKind::Other,
            caps: Some(StreamCaps {
                codec: "text/x-raw".to_string(),
                width: None,
                height: None,
                frame_rate: None,
                channels: None,
            }),
        },
        StreamInfo {
            kind: StreamKind::Audio,
            caps: Some(StreamCaps {
                codec: "audio/x-opus".to_string(),
                width: None,
                height: None,
                frame_rate: None,
                channels: None,
            }),
        },
    ];
    assert_eq!(
        stream_details(&streams),
        "Video: video/x-h265\nResolution: 3840x2160\nFrame rate: 24000/1001 fps\n\n\
         Audio: audio/mpeg (6 channels)\n\nAudio: audio/x-opus"
    );
}

#[test]
fn stream_details_omit_unknown_fields() {
    let streams = vec![StreamInfo {
        kind: StreamKind::Video,
        caps: Some(StreamCaps {
            codec: "video/x-vp9".to_string(),
            width: Some(640),
            height: None,
            frame_rate: Some(Fraction { numer: 25, denom: 1 }),
            channels: Some(2),
        }),
    }];
    assert_eq!(stream_details(&streams), "Video: video/x-vp9\nFrame rate: 25 fps");
    let odd = vec![StreamInfo {
        kind: StreamKind::Video,
        caps: Some(StreamCaps {
            codec: "v".to_string(),
            width: Some(-1),
            height: Some(i32::MIN),
            frame_rate: Some(Fraction { numer: -30, denom: 7 }),
            channels: None,
        }),
    }];
    assert_eq!(
        stream_details(&odd),
        "Video: v\nResolution: -1x-2147483648\nFrame rate: -30/7 fps"
    );
}

#[test]
fn info_text_notes_missing_information() {
    assert_eq!(info_text(stream_details(&Vec::new())), "Media information is unavailable.");
    assert_eq!(info_text("Audio: x".to_string()), "Audio: x");
}

#[test]
fn settings_fall_back_to_unmuted_and_looping() {
    assert_eq!(load_config(None, None), (false, true));
    assert_eq!(load_config(Some(true), Some(false)), (true, false));
    assert_eq!(load_config(Some(false), None), (false, true));
    assert_eq!(load_config(None, Some(false)), (false, false));
}

#[test]
fn keys_follow_the_documented_shortcuts() {
    let plain = Modifiers { control: false, other: false };
    let ctrl = Modifiers { control: true, other: false };
    let ctrl_shift = Modifiers { control: true, other: true };
    let alt = Modifiers { control: false, other: true };
    assert_eq!(on_key(Key::Left, plain), KeyReaction::Navigate(-1));
    assert_eq!(on_key(Key::Right, plain), KeyReaction::Navigate(1));
    assert_eq!(on_key(Key::LowerI, plain), KeyReaction::ToggleInfo);
    assert_eq!(on_key(Key::LowerX, ctrl), KeyReaction::TrashCurrent);
    assert_eq!(on_key(Key::UpperX, ctrl_shift), KeyReaction::TrashCurrent);
    assert_eq!(on_key(Key::Left, ctrl), KeyReaction::PassOn);
    assert_eq!(on_key(Key::Right, ctrl), KeyReaction::PassOn);
    assert_eq!(on_key(Key::LowerX, plain), KeyReaction::PassOn);
    assert_eq!(on_key(Key::Left, alt), KeyReaction::PassOn);
    assert_eq!(on_key(Key::Other, plain), KeyReaction::PassOn);
}

#[test]
fn trash_outcomes() {
    assert!(matches!(after_trash(false, Some(b"n".to_vec())), TrashOutcome::KeepCurrent));
    assert!(matches!(after_trash(true, None), TrashOutcome::Clear));
    match after_trash(true, Some(b"next.mkv".to_vec())) {
        TrashOutcome::Open(p) => assert_eq!(p, b"next.mkv".to_vec()),
        _ => panic!("expected the successor to open"),
    }
}

#[test]
fn bus_messages_drive_playback() {
    assert!(matches!(on_bus_message(BusEvent::EndOfStream, true), BusReaction::Restart));
    assert!(matches!(
        on_bus_message(BusEvent::EndOfStream, false),
        BusReaction::Halt(PipelineState::Ready)
    ));
    assert!(matches!(
        on_bus_message(BusEvent::Error, true),
        BusReaction::Halt(PipelineState::Null)
    ));
    assert!(matches!(on_bus_message(BusEvent::Other, false), BusReaction::Ignore));
    match on_bus_message(BusEvent::StreamCollection(Vec::new()), false) {
        BusReaction::ShowInfo(text) => assert_eq!(text, "Media information is unavailable."),
        _ => panic!("expected the overlay text"),
    }
}

#[test]
fn clicks_toggle_playback_and_fullscreen() {
    let start = ViewState { playing: true, fullscreen: false };
    let once = on_click(1, start);
    assert_eq!(once, ViewState { playing: false, fullscreen: false });
    let twice = on_click(2, once);
    assert_eq!(twice, ViewState { playing: true, fullscreen: true });
}

#[test]
fn buttons_and_menus() {
    let on = play_toggled(true);
    assert_eq!(on.icon, "media-playback-pause-symbolic");
    assert_eq!(on.state, PipelineState::Playing);
    let off = play_toggled(false);
    assert_eq!(off.icon, "media-playback-start-symbolic");
    assert_eq!(off.state, PipelineState::Paused);
    assert_eq!(mute_icon(true), "audio-volume-muted-symbolic");
    assert_eq!(mute_icon(false), "audio-volume-high-symbolic");
    assert_eq!(content_fit(0), ContentFit::Contain);
    assert_eq!(content_fit(1), ContentFit::Fill);
    assert_eq!(content_fit(2), ContentFit::Cover);
    assert_eq!(content_fit(7), ContentFit::Contain);
    assert_eq!(open_target(false), OpenTarget::ThisWindow);
    assert_eq!(open_target(true), OpenTarget::NewWindow);
}

#[test]
fn pointer_motion_shows_or_hides_controls() {
    assert_eq!(on_pointer_motion(true, false, true), MotionReaction::ShowControls);
    assert_eq!(on_pointer_motion(false, true, false), MotionReaction::ScheduleHide);
    assert_eq!(on_pointer_motion(false, true, true), MotionReaction::Nothing);
    assert_eq!(on_pointer_motion(false, false, false), MotionReaction::Nothing);
}

#[test]
fn sink_extent_scales_and_clamps() {
    assert_eq!(sink_extent(640, 2), 1280);
    assert_eq!(sink_extent(-5, 2), 0);
    assert_eq!(sink_extent(0, 3), 0);
    assert_eq!(sink_extent(1920, 1), 1920);
}

#[test]
fn window_is_sized_once_per_loaded_file() {
    let mut session = Session::new(Some(b"/v/a.mkv".to_vec()));
    assert_eq!(session.current(), Some(b"/v/a.mkv".to_vec()));
    assert!(!session.video_size_known(0, 480));
    assert!(session.video_size_known(640, 480));
    assert!(!session.video_size_known(1280, 720));
    session.load(Some(b"/v/b.mkv".to_vec()));
    assert_eq!(session.current(), Some(b"/v/b.mkv".to_vec()));
    assert!(session.video_size_known(1280, 720));
    session.clear();
    assert_eq!(session.current(), None);
    assert!(!session.video_size_known(1280, 720));
    session.load(None);
    assert_eq!(session.current(), None);
    assert!(session.video_size_known(1280, 720));
}

#[test]
fn paths_compare_by_components() {
    assert!(paths_equal(b"/v//a", b"/v/a"));
    assert!(paths_equal(b"/v/a/", b"/v/a"));
    assert!(paths_equal(b"/v/./a", b"/v/a"));
    assert!(paths_equal(b"a/b/./.", b"a/b"));
    assert!(paths_equal(b"//v", b"/v"));
    assert!(paths_equal(b"", b""));
    assert!(paths_equal(b"./a", b".//a"));
    assert!(!paths_equal(b"./a", b"a"));
    assert!(!paths_equal(b"/v/a", b"v/a"));
    assert!(!paths_equal(b"/v/../a", b"/a"));
    assert!(!paths_equal(b"/v/a", b"/v/A"));
    assert!(!paths_equal(b"/v/a", b"/v/a/b"));
}

#[test]
fn neighbours_are_found_by_path_components() {
    let files = paths(&["/v/a"]);
    assert_eq!(wrapped_neighbor(&files, b"/v//a", 1), Some(files[0].clone()));
    let files = paths(&["/v/a.mkv", "/v/b.mkv"]);
    assert_eq!(wrapped_neighbor(&files, b"/v/./a.mkv", 1), Some(files[1].clone()));
    assert_eq!(trash_successor(&files, b"/v//b.mkv"), Some(files[0].clone()));
    let sole = paths(&["/v/only.mkv"]);
    assert_eq!(trash_successor(&sole, b"/v//only.mkv"), None);
}

#[test]
fn offset_then_back_returns_for_any_step() {
    let files = paths(&["a.mkv", "b.mp4", "c.webm", "d.avi", "e.ts"]);
    for k in [-7isize, -5, -2, 0, 3, 5, 11] {
        for f in &files {
            let there = wrapped_neighbor(&files, f, k).unwrap();
            assert_eq!(wrapped_neighbor(&files, &there, -k).as_ref(), Some(f));
        }
    }
}

#[test]
fn video_takes_precedence_over_audio() {
    assert_eq!(stream_kind(true, true), StreamKind::Video);
    assert_eq!(stream_kind(true, false), StreamKind::Video);
    assert_eq!(stream_kind(false, true), StreamKind::Audio);
    assert_eq!(stream_kind(false, false), StreamKind::Other);
}

#[test]
fn stop_returns_to_the_start() {
    let stop = on_stop();
    assert!(!stop.playing);
    assert_eq!(stop.state, PipelineState::Ready);
    assert_eq!(stop.position.nseconds(), 0);
    assert_eq!(stop.position_text, "0:00");
}

#[test]
fn distinct_seconds_show_distinct_times() {
    let texts: Vec<String> = (0..7300u64).map(|s| fmt_time(ClockTime::from_seconds(s))).collect();
    let mut sorted = texts.clone();
    sorted.sort();
    sorted.dedup();
    assert_eq!(sorted.len(), texts.len());
}
