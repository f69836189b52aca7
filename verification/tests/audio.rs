use raycasting::audio::{
    find_background_track, find_power_track, gameplay_track, is_mp3, normalized_file_name,
    normalized_text, AudioTracks, MusicTrack, PlaybackState,
};

fn paths(names: &[&str]) -> Vec<String> {
    names.iter().map(|name| name.to_string()).collect()
}

#[test]
fn ignores_non_mp3_files_when_discovering_tracks() {
    let paths = paths(&["assets/audios/C fondo.wav", "assets/audios/poder TS.txt"]);

    assert!(find_background_track(&paths).is_none());
    assert!(find_power_track(&paths).is_none());
}

#[test]
fn finds_power_track_by_ts_suffix() {
    let paths = paths(&["assets/audios/ambiente.mp3", "assets/audios/poder TS.mp3"]);

    assert_eq!(find_power_track(&paths), Some(paths[1].clone()));
}

#[test]
fn discovers_named_tracks_among_mp3_files() {
    let tracks = AudioTracks::discover(
        "audio".to_string(),
        paths(&["audio/C fondo.mp3", "audio/poder TS.mp3"]),
    );

    assert!(tracks.has_background());
    assert!(tracks.has_power());
    assert_eq!(tracks.path_for(MusicTrack::Background), Some("audio/C fondo.mp3".to_string()));
    assert_eq!(tracks.path_for(MusicTrack::Power), Some("audio/poder TS.mp3".to_string()));
}

#[test]
fn discovers_tracks_named_with_separators_in_nested_folders() {
    let tracks = AudioTracks::discover(
        "audio".to_string(),
        paths(&["audio/musica/C_fondo.mp3", "audio/musica/poder-TS.mp3"]),
    );

    assert!(tracks.has_background());
    assert!(tracks.has_power());
}

#[test]
fn normalizes_names_into_lowercase_words() {
    assert_eq!(normalized_text("  C__Fondo--Final  "), "c fondo final");
    assert_eq!(normalized_text("poder-TS"), "poder ts");
    assert_eq!(normalized_text("!!!"), "");
    assert_eq!(normalized_file_name("dir/Mi Cancion.MP3"), "mi cancion mp3");
    assert_eq!(normalized_file_name(""), "");
}

#[test]
fn recognizes_mp3_extension_in_any_case() {
    assert!(is_mp3("a/b.mp3"));
    assert!(is_mp3("a/b.Mp3"));
    assert!(!is_mp3("a/b.mp4"));
    assert!(!is_mp3("a/mp3"));
    assert!(!is_mp3("a/b.mp3.wav"));
    assert!(is_mp3("a/b.c.MP3"));
    assert!(!is_mp3("a/.mp3"));
    assert!(is_mp3("a/..mp3"));
}

#[test]
fn background_track_needs_c_and_fondo() {
    assert!(find_background_track(&paths(&["x/fondo.mp3"])).is_none());
    assert_eq!(
        find_background_track(&paths(&["x/otro.mp3", "x/cfondo.mp3", "x/C fondo 2.mp3"])),
        Some("x/cfondo.mp3".to_string())
    );
}

#[test]
fn power_track_suffix_is_checked_on_the_stem() {
    assert!(find_power_track(&paths(&["x/ts intro.mp3"])).is_none());
    assert_eq!(find_power_track(&paths(&["x/poder_ts.mp3"])), Some("x/poder_ts.mp3".to_string()));
}

#[test]
fn missing_message_depends_on_whether_any_mp3_was_found() {
    let empty = AudioTracks::discover("sonidos".to_string(), Vec::new());
    assert_eq!(
        empty.missing_message(MusicTrack::Background),
        "No se encontraron MP3 en sonidos. Coloca ahi un MP3 cuyo nombre contenga `C fondo`."
    );

    let some = AudioTracks::discover("sonidos".to_string(), paths(&["sonidos/otra.mp3"]));
    assert!(!some.has_background());
    assert_eq!(
        some.missing_message(MusicTrack::Power),
        "No se encontro un MP3 cuyo nombre termine en `TS` dentro de sonidos."
    );
}

#[test]
fn gameplay_switches_music_with_the_power() {
    assert_eq!(gameplay_track(true), MusicTrack::Power);
    assert_eq!(gameplay_track(false), MusicTrack::Background);
    assert_eq!(MusicTrack::Background.index(), 0);
    assert_eq!(MusicTrack::Power.index(), 1);
}

#[test]
fn playback_starts_found_tracks_and_keeps_playing_ones() {
    let mut state = PlaybackState::new();

    let plan = state.request(MusicTrack::Background, true, Some("fondo.mp3".to_string()));
    assert!(plan.stop && !plan.warn);
    assert_eq!(plan.play, Some("fondo.mp3".to_string()));
    state.started(MusicTrack::Background);

    let again = state.request(MusicTrack::Background, true, Some("fondo.mp3".to_string()));
    assert!(!again.stop && !again.warn && again.play.is_none());

    let silent = PlaybackState::new().request(MusicTrack::Power, false, Some("ts.mp3".to_string()));
    assert!(!silent.stop && !silent.warn && silent.play.is_none());
}

#[test]
fn missing_tracks_are_reported_once() {
    let mut state = PlaybackState::new();
    state.started(MusicTrack::Background);

    let first = state.request(MusicTrack::Power, true, None);
    assert!(first.warn);
    assert!(!first.stop);
    assert_eq!(state.active_track, Some(MusicTrack::Background));

    let second = state.request(MusicTrack::Power, true, None);
    assert!(!second.warn);

    let background = state.request(MusicTrack::Background, true, None);
    assert!(!background.warn && !background.stop);

    state.stop();
    let missing_background = state.request(MusicTrack::Background, true, None);
    assert!(missing_background.warn && missing_background.stop);
    assert_eq!(state.active_track, None);
}

#[test]
fn power_track_stem_keeps_names_starting_with_a_dot() {
    assert!(find_power_track(&paths(&["x/.ts.mp3"])).is_some());
    assert!(find_power_track(&paths(&["x/.ts"])).is_none());
    assert_eq!(find_power_track(&paths(&["x/a.ts.mp3"])), Some("x/a.ts.mp3".to_string()));
}
