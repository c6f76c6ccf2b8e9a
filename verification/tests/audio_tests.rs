use dvop::audio::{
    format_duration, get_supported_audio_extensions, is_audio_file, is_music_file, AudioPlayers, PipelineState,
};

#[test]
fn test_supported_audio_extensions() {
    assert_eq!(
        get_supported_audio_extensions(),
        vec!["mp3", "wav", "flac", "ogg", "m4a", "aac", "opus", "wma"]
    );
}

#[test]
fn test_music_by_extension() {
    assert!(is_music_file("/home/u/voice/song.MP3"));
    assert!(is_music_file("/tmp/notification.ogg"));
    assert!(!is_music_file("/home/u/music/clip.mid"));
    assert!(!is_music_file("/x/01. Intro"));
}

#[test]
fn test_music_by_words() {
    assert!(!is_music_file("/home/u/podcasts/episode"));
    assert!(is_music_file("/home/u/Music/track01"));
    assert!(!is_music_file("/home/u/music/voice_memo"));
    assert!(is_music_file("/x/Artist - Title"));
    assert!(!is_music_file("/x/data"));
}

#[test]
fn test_format_duration() {
    assert_eq!(format_duration(0), "00:00");
    assert_eq!(format_duration(5), "00:05");
    assert_eq!(format_duration(65), "01:05");
    assert_eq!(format_duration(599), "09:59");
    assert_eq!(format_duration(600), "10:00");
    assert_eq!(format_duration(3599), "59:59");
    assert_eq!(format_duration(3600), "60:00");
    assert_eq!(format_duration(6000), "100:00");
}

use PipelineState::{Null, Paused, Playing, Ready};

fn players_with(ids: &[(&str, bool)]) -> AudioPlayers {
    let mut p = AudioPlayers::new();
    for (i, (id, music)) in ids.iter().enumerate() {
        let states = vec![Ready; p.len()];
        assert!(p.register_player(&states, i as u64, id.to_string(), *music).is_empty());
    }
    p
}

#[test]
fn test_register_drops_destroyed_players() {
    let mut p = players_with(&[("a.mp3#1", true), ("b.wav#2", false), ("c.ogg#3", true)]);
    assert_eq!(p.player_handles(), vec![0, 1, 2]);
    let dropped = p.register_player(&vec![Playing, Null, Paused], 9, "d.mp3#4".to_string(), true);
    assert_eq!(dropped, vec![1]);
    assert_eq!(p.player_handles(), vec![0, 2, 9]);
    assert_eq!(p.cleanup_dead_players(&vec![Null, Ready, Null]), vec![0, 9]);
    assert_eq!(p.player_handles(), vec![2]);
}

#[test]
fn test_starting_a_player_pauses_the_others() {
    let mut p = players_with(&[("a.mp3#1", true), ("b.wav#2", false), ("c.ogg#3", true), ("d#4", true)]);
    let changes = p.stop_other_players(&vec![Playing, Playing, Null, Paused], "b.wav#2");
    assert_eq!(changes.pause, vec![0]);
    assert!(changes.stop.is_empty());
    assert_eq!(changes.released, vec![2]);
    assert_eq!(p.player_handles(), vec![0, 1, 3]);
    assert!(p.check_and_clear_stop_notification("a.mp3#1"));
    assert!(!p.check_and_clear_stop_notification("a.mp3#1"));
    assert!(!p.check_and_clear_stop_notification("b.wav#2"));
}

#[test]
fn test_closing_a_file_stops_its_players() {
    let mut p = players_with(&[("/m/song.mp3#1", true), ("/m/other.mp3#2", true), ("/m/song.mp3#3", true)]);
    let changes = p.stop_players_for_file(&vec![Playing, Paused, Null], "/m/song.mp3");
    assert_eq!(changes.stop, vec![0]);
    assert_eq!(changes.released, vec![2, 0]);
    assert!(changes.pause.is_empty());
    assert_eq!(p.player_handles(), vec![1]);
    assert!(p.check_and_clear_stop_notification("/m/song.mp3#1"));
}

#[test]
fn test_stop_all_pauses_playing_players() {
    let mut p = players_with(&[("x#1", true), ("y#2", false), ("z#3", true)]);
    assert_eq!(p.stop_all(&vec![Playing, Paused, Playing]), vec![0, 2]);
    assert_eq!(p.player_handles(), vec![0, 1, 2]);
    assert!(p.check_and_clear_stop_notification("z#3"));
    assert!(p.check_and_clear_stop_notification("x#1"));
    assert!(!p.check_and_clear_stop_notification("y#2"));
}

#[test]
fn test_is_audio_file() {
    assert!(is_audio_file("audio/mpeg"));
    assert!(is_audio_file("audio/x-wav"));
    assert!(!is_audio_file("video/mp4"));
    assert!(!is_audio_file("audiox/y"));
    assert!(!is_audio_file("text/plain"));
}
