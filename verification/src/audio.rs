//! Choosing the music files: which MP3 is the background music and which
//! the power-up music, judged by their normalized file names, and what the
//! player does when a track is asked for.
use std::path::Path;
use vstd::prelude::*;
use vstd::string::StringExecFns;

use crate::text::{string_from_chars, text_chars};

verus! {

/// `char::is_alphanumeric` of `c` (Unicode's alphabetic or numeric).
pub uninterp spec fn char_is_alphanumeric(c: char) -> bool;

/// The last component of a path, as `Path::file_name` gives it.
pub uninterp spec fn path_file_name(path: Seq<char>) -> Option<Seq<char>>;

/// Position of the last `.` in `name`, or `-1` when it has none.
pub open spec fn last_dot(name: Seq<char>) -> int
    decreases name.len(),
{
    if name.len() == 0 {
        -1
    } else if name.last() == '.' {
        name.len() - 1
    } else {
        last_dot(name.drop_last())
    }
}

/// The stem of a file name as `Path::file_stem` documents it: the part
/// before the last `.`, or the whole name when it has no `.` or its only
/// `.` is its first character.
pub open spec fn name_stem(name: Seq<char>) -> Seq<char> {
    let dot = last_dot(name);
    if dot <= 0 {
        name
    } else {
        name.subrange(0, dot)
    }
}

/// The extension of a file name as `Path::extension` documents it: the part
/// after the last `.`, none when the name has no `.` or its only `.` is its
/// first character.
pub open spec fn name_extension(name: Seq<char>) -> Option<Seq<char>> {
    let dot = last_dot(name);
    if dot <= 0 {
        None
    } else {
        Some(name.subrange(dot + 1, name.len() as int))
    }
}

/// The file name of a path without its extension, as `Path::file_stem`
/// gives it.
pub open spec fn path_file_stem(path: Seq<char>) -> Option<Seq<char>> {
    match path_file_name(path) {
        Some(name) => Some(name_stem(name)),
        None => None,
    }
}

/// The extension of a path's file name, as `Path::extension` gives it.
pub open spec fn path_extension(path: Seq<char>) -> Option<Seq<char>> {
    match path_file_name(path) {
        Some(name) => name_extension(name),
        None => None,
    }
}

/// Whether `c` is alphanumeric, by `char::is_alphanumeric`; its result is
/// named after `c`.
#[verifier::external_body]
fn is_alphanumeric(c: char) -> (alphanumeric: bool)
    ensures
        alphanumeric == char_is_alphanumeric(c),
{
    c.is_alphanumeric()
}

/// The file name of `path`, by `Path::file_name`; its result is named after
/// the path's characters.
#[verifier::external_body]
fn file_name(path: &str) -> (name: Option<String>)
    ensures
        match name {
            Some(n) => path_file_name(path@) == Some(n@),
            None => path_file_name(path@) is None,
        },
{
    Path::new(path).file_name().and_then(|name| name.to_str()).map(|name| name.to_string())
}

/// The file stem of `path`, by `Path::file_stem`: the stem of its file name.
#[verifier::external_body]
fn file_stem(path: &str) -> (stem: Option<String>)
    ensures
        match stem {
            Some(s) => path_file_stem(path@) == Some(s@),
            None => path_file_stem(path@) is None,
        },
{
    Path::new(path).file_stem().and_then(|stem| stem.to_str()).map(|stem| stem.to_string())
}

/// The extension of `path`, by `Path::extension`: the extension of its file
/// name.
#[verifier::external_body]
fn extension(path: &str) -> (ext: Option<String>)
    ensures
        match ext {
            Some(e) => path_extension(path@) == Some(e@),
            None => path_extension(path@) is None,
        },
{
    Path::new(path).extension().and_then(|ext| ext.to_str()).map(|ext| ext.to_string())
}

/// `c` with an ASCII capital turned into its small letter.
pub open spec fn ascii_lower(c: char) -> char {
    if 'A' <= c <= 'Z' {
        ((c as u32) + 32) as char
    } else {
        c
    }
}

/// A character of a normalized name: alphanumerics in ASCII lower case,
/// anything else a space.
pub open spec fn normalize_char(c: char) -> char {
    if char_is_alphanumeric(c) {
        ascii_lower(c)
    } else {
        ' '
    }
}

/// `s` with spaces trimmed at both ends and each run of spaces inside
/// reduced to one.
pub open spec fn collapse_spaces(s: Seq<char>) -> Seq<char>
    decreases s.len(),
{
    if s.len() == 0 {
        Seq::empty()
    } else {
        let prefix = s.drop_last();
        let c = s.last();
        if c == ' ' {
            collapse_spaces(prefix)
        } else if prefix.len() > 0 && prefix.last() == ' ' && collapse_spaces(prefix).len() > 0 {
            collapse_spaces(prefix) + seq![' ', c]
        } else {
            collapse_spaces(prefix).push(c)
        }
    }
}

/// The words of `text` (its runs of alphanumeric characters) in ASCII lower
/// case, joined by single spaces.
pub open spec fn normalized(text: Seq<char>) -> Seq<char> {
    collapse_spaces(text.map_values(|c: char| normalize_char(c)))
}

/// `pattern` occurs in `s`.
pub open spec fn has_substring(s: Seq<char>, pattern: Seq<char>) -> bool {
    exists|i: int| 0 <= i <= s.len() - pattern.len() && #[trigger] s.subrange(i, i + pattern.len()) == pattern
}

/// `s` ends with `suffix`.
pub open spec fn has_suffix(s: Seq<char>, suffix: Seq<char>) -> bool {
    suffix.len() <= s.len() && s.subrange(s.len() - suffix.len(), s.len() as int) == suffix
}

fn to_ascii_lower(c: char) -> (lower: char)
    ensures
        lower == ascii_lower(c),
{
    if c >= 'A' && c <= 'Z' {
        ((c as u8) + 32) as char
    } else {
        c
    }
}

/// The words of `text` in ASCII lower case, joined by single spaces: every
/// character that is not alphanumeric separates words.
pub fn normalized_text(text: &str) -> (result: String)
    ensures
        result@ == normalized(text@),
{
    let chars = text_chars(text);
    let ghost mapped = text@.map_values(|c: char| normalize_char(c));
    let mut out: Vec<char> = Vec::new();
    let mut pending_space = false;
    let mut i: usize = 0;
    while i < chars.len()
        invariant
            chars@ == text@,
            mapped == text@.map_values(|c: char| normalize_char(c)),
            i <= chars@.len(),
            out@ == collapse_spaces(mapped.take(i as int)),
            pending_space == (i > 0 && mapped[i - 1] == ' '),
        decreases chars@.len() - i,
    {
        let c = chars[i];
        let n = if is_alphanumeric(c) {
            to_ascii_lower(c)
        } else {
            ' '
        };
        proof {
            assert(n == mapped[i as int]);
            assert(mapped.take(i + 1).drop_last() =~= mapped.take(i as int));
            assert(mapped.take(i + 1).last() == n);
            if i > 0 {
                assert(mapped.take(i as int).last() == mapped[i - 1]);
            }
        }
        if n == ' ' {
            pending_space = true;
        } else {
            if pending_space && out.len() > 0 {
                out.push(' ');
            }
            out.push(n);
            pending_space = false;
            proof {
                assert(out@ =~= collapse_spaces(mapped.take(i + 1)));
            }
        }
        i = i + 1;
    }
    proof {
        assert(mapped.take(chars@.len() as int) =~= mapped);
    }
    string_from_chars(&out)
}

/// Whether `pattern` occurs in `s`.
fn contains_chars(s: &Vec<char>, pattern: &Vec<char>) -> (found: bool)
    ensures
        found == has_substring(s@, pattern@),
{
    if pattern.len() > s.len() {
        return false;
    }
    let n = s.len();
    let last = n - pattern.len();
    let mut i: usize = 0;
    while i <= last
        invariant
            i <= last,
            n == s@.len(),
            last == s@.len() - pattern@.len(),
            pattern@.len() <= s@.len(),
            forall|j: int| 0 <= j < i ==> #[trigger] s@.subrange(j, j + pattern@.len()) != pattern@,
        decreases last - i,
    {
        let mut k: usize = 0;
        let mut same = true;
        while k < pattern.len()
            invariant
                i <= last,
                n == s@.len(),
                last == s@.len() - pattern@.len(),
                pattern@.len() <= s@.len(),
                k <= pattern@.len(),
                same == (forall|m: int| 0 <= m < k ==> s@[i + m] == pattern@[m]),
            decreases pattern@.len() - k,
        {
            if s[i + k] != pattern[k] {
                same = false;
            }
            k = k + 1;
        }
        if same {
            assert(s@.subrange(i as int, i + pattern@.len()) =~= pattern@);
            return true;
        }
        proof {
            let m = choose|m: int| 0 <= m < pattern@.len() && s@[i + m] != pattern@[m];
            assert(s@.subrange(i as int, i + pattern@.len())[m] != pattern@[m]);
        }
        if i == last {
            return false;
        }
        i = i + 1;
    }
    false
}

/// Whether `s` ends with `suffix`.
fn ends_with_chars(s: &Vec<char>, suffix: &Vec<char>) -> (ends: bool)
    ensures
        ends == has_suffix(s@, suffix@),
{
    if suffix.len() > s.len() {
        return false;
    }
    let n = s.len();
    let start = n - suffix.len();
    let mut k: usize = 0;
    while k < suffix.len()
        invariant
            start == s@.len() - suffix@.len(),
            n == s@.len(),
            suffix@.len() <= s@.len(),
            k <= suffix@.len(),
            forall|m: int| 0 <= m < k ==> s@[start + m] == suffix@[m],
        decreases suffix@.len() - k,
    {
        if s[start + k] != suffix[k] {
            assert(s@.subrange(start as int, s@.len() as int)[k as int] != suffix@[k as int]);
            return false;
        }
        k = k + 1;
    }
    assert(s@.subrange(start as int, s@.len() as int) =~= suffix@);
    true
}

/// Whether a path names an MP3 file: its extension is "mp3" in any case.
pub open spec fn mp3_path(path: Seq<char>) -> bool {
    match path_extension(path) {
        Some(ext) => ext.len() == 3 && ascii_lower(ext[0]) == 'm' && ascii_lower(ext[1]) == 'p'
            && ascii_lower(ext[2]) == '3',
        None => false,
    }
}

/// Whether `path` names an MP3 file (its extension is "mp3", ignoring ASCII
/// case).
pub fn is_mp3(path: &str) -> (mp3: bool)
    ensures
        mp3 == mp3_path(path@),
{
    match extension(path) {
        Some(ext) => {
            let chars = text_chars(ext.as_str());
            if chars.len() != 3 {
                return false;
            }
            to_ascii_lower(chars[0]) == 'm' && to_ascii_lower(chars[1]) == 'p' && to_ascii_lower(
                chars[2],
            ) == '3'
        },
        None => false,
    }
}

/// The normalized file name of a path ("" when it has none).
pub open spec fn normalized_name(path: Seq<char>) -> Seq<char> {
    match path_file_name(path) {
        Some(name) => normalized(name),
        None => normalized(Seq::empty()),
    }
}

/// The normalized file name of `path`.
pub fn normalized_file_name(path: &str) -> (name: String)
    ensures
        name@ == normalized_name(path@),
{
    match file_name(path) {
        Some(name) => normalized_text(name.as_str()),
        None => {
            proof {
                reveal_strlit("");
            }
            normalized_text("")
        },
    }
}

/// The background music: an MP3 whose normalized file name contains "c" and
/// "fondo".
pub open spec fn background_track_path(path: Seq<char>) -> bool {
    mp3_path(path) && has_substring(normalized_name(path), seq!['c']) && has_substring(
        normalized_name(path),
        seq!['f', 'o', 'n', 'd', 'o'],
    )
}

/// The power-up music: an MP3 whose normalized file stem ends with "ts".
pub open spec fn power_track_path(path: Seq<char>) -> bool {
    mp3_path(path) && match path_file_stem(path) {
        Some(stem) => has_suffix(normalized(stem), seq!['t', 's']),
        None => false,
    }
}

/// `found` is the first of `paths` satisfying `wanted`, or `None` when none
/// does.
pub open spec fn first_match(paths: Seq<String>, wanted: spec_fn(Seq<char>) -> bool, found: Option<String>) -> bool {
    match found {
        Some(p) => exists|i: int|
            0 <= i < paths.len() && paths[i] == p && wanted(p@) && forall|j: int|
                0 <= j < i ==> !wanted(#[trigger] paths[j]@),
        None => forall|j: int| 0 <= j < paths.len() ==> !wanted(#[trigger] paths[j]@),
    }
}

fn is_background_track(path: &String) -> (background: bool)
    ensures
        background == background_track_path(path@),
{
    let name = normalized_file_name(path.as_str());
    let chars = text_chars(name.as_str());
    let mut c_pattern: Vec<char> = Vec::new();
    c_pattern.push('c');
    let mut fondo: Vec<char> = Vec::new();
    fondo.push('f');
    fondo.push('o');
    fondo.push('n');
    fondo.push('d');
    fondo.push('o');
    assert(c_pattern@ =~= seq!['c']);
    assert(fondo@ =~= seq!['f', 'o', 'n', 'd', 'o']);
    is_mp3(path.as_str()) && contains_chars(&chars, &c_pattern) && contains_chars(&chars, &fondo)
}

fn is_power_track(path: &String) -> (power: bool)
    ensures
        power == power_track_path(path@),
{
    if !is_mp3(path.as_str()) {
        return false;
    }
    match file_stem(path.as_str()) {
        Some(stem) => {
            let normalized_stem = normalized_text(stem.as_str());
            let chars = text_chars(normalized_stem.as_str());
            let mut ts: Vec<char> = Vec::new();
            ts.push('t');
            ts.push('s');
            assert(ts@ =~= seq!['t', 's']);
            ends_with_chars(&chars, &ts)
        },
        None => false,
    }
}

/// The first path naming the background music.
pub fn find_background_track(paths: &Vec<String>) -> (found: Option<String>)
    ensures
        first_match(paths@, |p: Seq<char>| background_track_path(p), found),
{
    let mut i: usize = 0;
    while i < paths.len()
        invariant
            i <= paths@.len(),
            forall|j: int| 0 <= j < i ==> !background_track_path(#[trigger] paths@[j]@),
        decreases paths@.len() - i,
    {
        if is_background_track(&paths[i]) {
            return Some(paths[i].clone());
        }
        i = i + 1;
    }
    None
}

/// The first path naming the power-up music.
pub fn find_power_track(paths: &Vec<String>) -> (found: Option<String>)
    ensures
        first_match(paths@, |p: Seq<char>| power_track_path(p), found),
{
    let mut i: usize = 0;
    while i < paths.len()
        invariant
            i <= paths@.len(),
            forall|j: int| 0 <= j < i ==> !power_track_path(#[trigger] paths@[j]@),
        decreases paths@.len() - i,
    {
        if is_power_track(&paths[i]) {
            return Some(paths[i].clone());
        }
        i = i + 1;
    }
    None
}

/// A track found among `paths` is one of them and is an MP3 file: files of
/// other kinds are never picked, whatever their names.
pub proof fn lemma_found_tracks_are_listed_mp3s(paths: Seq<String>, found: Option<String>, background: bool)
    requires
        found is Some,
        background ==> first_match(paths, |p: Seq<char>| background_track_path(p), found),
        !background ==> first_match(paths, |p: Seq<char>| power_track_path(p), found),
    ensures
        paths.contains(found->0),
        mp3_path(found->0@),
{
    let p = found->0;
    if background {
        let i = choose|i: int|
            0 <= i < paths.len() && paths[i] == p && background_track_path(p@) && forall|j: int|
                0 <= j < i ==> !background_track_path(#[trigger] paths[j]@);
        assert(paths[i] == p);
    } else {
        let i = choose|i: int|
            0 <= i < paths.len() && paths[i] == p && power_track_path(p@) && forall|j: int|
                0 <= j < i ==> !power_track_path(#[trigger] paths[j]@);
        assert(paths[i] == p);
    }
}

/// The two pieces of music the game plays.
#[derive(Clone, Copy, Debug, PartialEq, Eq, Structural)]
pub enum MusicTrack {
    Background,
    Power,
}

impl MusicTrack {
    /// The track's slot in per-track tables: 0 for the background music, 1
    /// for the power-up music.
    pub fn index(self) -> (index: usize)
        ensures
            index == (match self {
                MusicTrack::Background => 0usize,
                MusicTrack::Power => 1usize,
            }),
    {
        match self {
            MusicTrack::Background => 0,
            MusicTrack::Power => 1,
        }
    }
}

/// The track that gameplay wants: the power-up music while the player has
/// the power, the background music otherwise.
pub fn gameplay_track(has_power: bool) -> (track: MusicTrack)
    ensures
        track == (if has_power {
            MusicTrack::Power
        } else {
            MusicTrack::Background
        }),
{
    if has_power {
        MusicTrack::Power
    } else {
        MusicTrack::Background
    }
}

/// The music files found in an audio folder.
#[derive(Debug, Clone)]
pub struct AudioTracks {
    audio_dir: String,
    background: Option<String>,
    power: Option<String>,
    mp3_count: usize,
}

/// The characters of an optional path.
pub open spec fn optional_chars(path: Option<String>) -> Option<Seq<char>> {
    match path {
        Some(p) => Some(p@),
        None => None,
    }
}

/// What the message for a missing track asks the player to provide.
pub open spec fn expected_track_text(track: MusicTrack) -> Seq<char> {
    match track {
        MusicTrack::Background => "un MP3 cuyo nombre contenga `C fondo`"@,
        MusicTrack::Power => "un MP3 cuyo nombre termine en `TS`"@,
    }
}

/// The message shown when `track` is missing from the folder `dir` that
/// holds `mp3_count` MP3 files.
pub open spec fn missing_message_text(dir: Seq<char>, mp3_count: nat, track: MusicTrack) -> Seq<char> {
    if mp3_count == 0 {
        "No se encontraron MP3 en "@ + dir + ". Coloca ahi "@ + expected_track_text(track) + "."@
    } else {
        "No se encontro "@ + expected_track_text(track) + " dentro de "@ + dir + "."@
    }
}

impl AudioTracks {
    /// The folder that was searched.
    pub closed spec fn dir_chars(&self) -> Seq<char> {
        self.audio_dir@
    }

    /// The path of the background music, if one was found.
    pub closed spec fn background_chars(&self) -> Option<Seq<char>> {
        optional_chars(self.background)
    }

    /// The path of the power-up music, if one was found.
    pub closed spec fn power_chars(&self) -> Option<Seq<char>> {
        optional_chars(self.power)
    }

    /// How many MP3 files the folder holds.
    pub closed spec fn mp3_total(&self) -> nat {
        self.mp3_count as nat
    }

    /// The path of `track`, if one was found.
    pub open spec fn track_chars(&self, track: MusicTrack) -> Option<Seq<char>> {
        match track {
            MusicTrack::Background => self.background_chars(),
            MusicTrack::Power => self.power_chars(),
        }
    }

    /// The tracks among `mp3_paths`, the MP3 files found under `audio_dir`
    /// (walking the folder is left to the caller): the first path that names
    /// the background music, the first that names the power-up music, and
    /// how many there are.
    pub fn discover(audio_dir: String, mp3_paths: Vec<String>) -> (tracks: AudioTracks)
        ensures
            tracks.dir_chars() == audio_dir@,
            tracks.mp3_total() == mp3_paths@.len(),
            exists|found: Option<String>|
                first_match(mp3_paths@, |p: Seq<char>| background_track_path(p), found)
                    && tracks.background_chars() == #[trigger] optional_chars(found),
            exists|found: Option<String>|
                first_match(mp3_paths@, |p: Seq<char>| power_track_path(p), found)
                    && tracks.power_chars() == #[trigger] optional_chars(found),
    {
        let background = find_background_track(&mp3_paths);
        let power = find_power_track(&mp3_paths);
        let tracks = AudioTracks { audio_dir, background, power, mp3_count: mp3_paths.len() };
        assert(tracks.background_chars() == optional_chars(background));
        assert(tracks.power_chars() == optional_chars(power));
        tracks
    }

    /// The path of `track`, if the folder holds it.
    pub fn path_for(&self, track: MusicTrack) -> (path: Option<String>)
        ensures
            optional_chars(path) == self.track_chars(track),
    {
        match track {
            MusicTrack::Background => match &self.background {
                Some(p) => Some(p.clone()),
                None => None,
            },
            MusicTrack::Power => match &self.power {
                Some(p) => Some(p.clone()),
                None => None,
            },
        }
    }

    /// Whether a background track was found.
    pub fn has_background(&self) -> (found: bool)
        ensures
            found == self.background_chars() is Some,
    {
        self.background.is_some()
    }

    /// Whether a power-up track was found.
    pub fn has_power(&self) -> (found: bool)
        ensures
            found == self.power_chars() is Some,
    {
        self.power.is_some()
    }

    /// The message that tells the player where `track` should be put.
    pub fn missing_message(&self, track: MusicTrack) -> (message: String)
        ensures
            message@ == missing_message_text(self.dir_chars(), self.mp3_total(), track),
    {
        let expected = match track {
            MusicTrack::Background => "un MP3 cuyo nombre contenga `C fondo`",
            MusicTrack::Power => "un MP3 cuyo nombre termine en `TS`",
        };
        if self.mp3_count == 0 {
            let mut message = String::from_str("No se encontraron MP3 en ");
            message.append(self.audio_dir.as_str());
            message.append(". Coloca ahi ");
            message.append(expected);
            message.append(".");
            message
        } else {
            let mut message = String::from_str("No se encontro ");
            message.append(expected);
            message.append(" dentro de ");
            message.append(self.audio_dir.as_str());
            message.append(".");
            message
        }
    }
}

/// What the music player does about a request for a track.
#[derive(Debug)]
pub struct PlaybackPlan {
    /// Print the message for a missing track.
    pub warn: bool,
    /// Stop what is playing.
    pub stop: bool,
    /// Start this file, looping.
    pub play: Option<String>,
}

/// What the music player remembers between requests: the track playing and
/// which missing tracks were already reported.
#[derive(Debug, Clone, Copy)]
pub struct PlaybackState {
    pub active_track: Option<MusicTrack>,
    pub warned_background: bool,
    pub warned_power: bool,
}

impl PlaybackState {
    /// Whether a missing `track` was already reported.
    pub open spec fn warned(self, track: MusicTrack) -> bool {
        match track {
            MusicTrack::Background => self.warned_background,
            MusicTrack::Power => self.warned_power,
        }
    }

    /// Nothing playing, nothing reported.
    pub fn new() -> (state: PlaybackState)
        ensures
            state.active_track is None,
            !state.warned_background,
            !state.warned_power,
    {
        PlaybackState { active_track: None, warned_background: false, warned_power: false }
    }

    /// Asks for `track`, looping, given whether an audio output is open and
    /// the track's file, if one was found. A track already playing is left
    /// alone, and without an output nothing happens. A missing track is
    /// reported once; it stops the music unless the power-up music is
    /// missing while the background music plays on. A found track replaces
    /// what is playing; it counts as playing once `started` is called.
    pub fn request(&mut self, track: MusicTrack, has_output: bool, path: Option<String>) -> (plan:
        PlaybackPlan)
        ensures
            (old(self).active_track == Some(track) || !has_output) ==> (!plan.warn && !plan.stop
                && plan.play is None && *final(self) == *old(self)),
            (old(self).active_track != Some(track) && has_output && path is None) ==> ({
                &&& plan.warn == !old(self).warned(track)
                &&& final(self).warned(track)
                &&& plan.play is None
                &&& plan.stop == (track == MusicTrack::Background || old(self).active_track
                    != Some(MusicTrack::Background))
                &&& final(self).active_track == (if plan.stop {
                    None
                } else {
                    old(self).active_track
                })
                &&& (track == MusicTrack::Background ==> final(self).warned_power
                    == old(self).warned_power)
                &&& (track == MusicTrack::Power ==> final(self).warned_background
                    == old(self).warned_background)
            }),
            (old(self).active_track != Some(track) && has_output && path is Some) ==> ({
                &&& !plan.warn
                &&& plan.stop
                &&& plan.play == path
                &&& final(self).active_track is None
                &&& final(self).warned_background == old(self).warned_background
                &&& final(self).warned_power == old(self).warned_power
            }),
    {
        let nothing = PlaybackPlan { warn: false, stop: false, play: None };
        if self.active_track == Some(track) || !has_output {
            return nothing;
        }
        match path {
            None => {
                let warn = match track {
                    MusicTrack::Background => {
                        let first = !self.warned_background;
                        self.warned_background = true;
                        first
                    },
                    MusicTrack::Power => {
                        let first = !self.warned_power;
                        self.warned_power = true;
                        first
                    },
                };
                let stop = track == MusicTrack::Background || self.active_track != Some(
                    MusicTrack::Background,
                );
                if stop {
                    self.active_track = None;
                }
                PlaybackPlan { warn, stop, play: None }
            },
            Some(p) => {
                self.active_track = None;
                PlaybackPlan { warn: false, stop: true, play: Some(p) }
            },
        }
    }

    /// The file asked for by `request` started playing as `track`.
    pub fn started(&mut self, track: MusicTrack)
        ensures
            final(self).active_track == Some(track),
            final(self).warned_background == old(self).warned_background,
            final(self).warned_power == old(self).warned_power,
    {
        self.active_track = Some(track);
    }

    /// The music was stopped.
    pub fn stop(&mut self)
        ensures
            final(self).active_track is None,
            final(self).warned_background == old(self).warned_background,
            final(self).warned_power == old(self).warned_power,
    {
        self.active_track = None;
    }
}

/// A path names the power-up music exactly when it is an MP3 file whose
/// file stem, normalized, is at least two characters long and ends with
/// `t` followed by `s`.
pub proof fn lemma_power_track_ends_in_ts(path: Seq<char>)
    ensures
        power_track_path(path) <==> mp3_path(path) && match path_file_stem(path) {
            Some(stem) => {
                let n = normalized(stem);
                &&& n.len() >= 2
                &&& n[n.len() - 2] == 't'
                &&& n[n.len() - 1] == 's'
            },
            None => false,
        },
{
    match path_file_stem(path) {
        Some(stem) => {
            let n = normalized(stem);
            if n.len() >= 2 {
                let tail = n.subrange(n.len() - 2, n.len() as int);
                assert(tail[0] == n[n.len() - 2]);
                assert(tail[1] == n[n.len() - 1]);
                if n[n.len() - 2] == 't' && n[n.len() - 1] == 's' {
                    assert(tail =~= seq!['t', 's']);
                }
            }
        },
        None => {},
    }
}

/// A path names the background music exactly when it is an MP3 file whose
/// normalized file name holds a `c` somewhere and the word `fondo`
/// somewhere.
pub proof fn lemma_background_track_needs_c_and_fondo(path: Seq<char>)
    ensures
        background_track_path(path) <==> mp3_path(path) && (exists|i: int|
            0 <= i < normalized_name(path).len() && normalized_name(path)[i] == 'c') && (exists|j: int|
            0 <= j && j + 5 <= normalized_name(path).len() && #[trigger] normalized_name(path)[j] == 'f'
                && normalized_name(path)[j + 1] == 'o' && normalized_name(path)[j + 2] == 'n'
                && normalized_name(path)[j + 3] == 'd' && normalized_name(path)[j + 4] == 'o'),
{
    let name = normalized_name(path);
    if exists|i: int| 0 <= i < name.len() && name[i] == 'c' {
        let i = choose|i: int| 0 <= i < name.len() && name[i] == 'c';
        assert(name.subrange(i, i + 1) =~= seq!['c']);
    }
    if has_substring(name, seq!['c']) {
        let i = choose|i: int| 0 <= i <= name.len() - 1 && #[trigger] name.subrange(i, i + 1) == seq!['c'];
        assert(name.subrange(i, i + 1)[0] == name[i]);
    }
    let fondo = seq!['f', 'o', 'n', 'd', 'o'];
    if exists|j: int|
        0 <= j && j + 5 <= name.len() && #[trigger] name[j] == 'f' && name[j + 1] == 'o' && name[j + 2] == 'n'
            && name[j + 3] == 'd' && name[j + 4] == 'o' {
        let j = choose|j: int|
            0 <= j && j + 5 <= name.len() && #[trigger] name[j] == 'f' && name[j + 1] == 'o' && name[j + 2]
                == 'n' && name[j + 3] == 'd' && name[j + 4] == 'o';
        assert(name.subrange(j, j + 5) =~= fondo);
    }
    if has_substring(name, fondo) {
        let j = choose|j: int| 0 <= j <= name.len() - 5 && #[trigger] name.subrange(j, j + 5) == fondo;
        let sub = name.subrange(j, j + 5);
        assert(sub[0] == name[j] && sub[1] == name[j + 1] && sub[2] == name[j + 2] && sub[3] == name[j
            + 3] && sub[4] == name[j + 4]);
    }
}

/// Collapsing spaces leaves no space at either end and never two spaces in
/// a row, and leaves a sequence without spaces as it is.
proof fn lemma_collapse_spaces_shape(s: Seq<char>)
    ensures
        collapse_spaces(s).len() > 0 ==> collapse_spaces(s)[0] != ' ' && collapse_spaces(s).last()
            != ' ',
        forall|i: int|
            0 <= i < collapse_spaces(s).len() - 1 ==> !(#[trigger] collapse_spaces(s)[i] == ' '
                && collapse_spaces(s)[i + 1] == ' '),
        (forall|i: int| 0 <= i < s.len() ==> s[i] != ' ') ==> collapse_spaces(s) == s,
    decreases s.len(),
{
    if s.len() > 0 {
        let prefix = s.drop_last();
        lemma_collapse_spaces_shape(prefix);
        let before = collapse_spaces(prefix);
        let after = collapse_spaces(s);
        if (forall|i: int| 0 <= i < s.len() ==> s[i] != ' ') {
            assert forall|i: int| 0 <= i < prefix.len() implies prefix[i] != ' ' by {
                assert(prefix[i] == s[i]);
            }
            assert(s.last() == s[s.len() - 1]);
            if prefix.len() > 0 {
                assert(prefix.last() == s[s.len() - 2]);
            }
            assert(before.push(s.last()) =~= s);
        }
        if s.last() != ' ' {
            assert forall|i: int| 0 <= i < after.len() - 1 implies !(#[trigger] after[i] == ' '
                && after[i + 1] == ' ') by {
                if i < before.len() - 1 {
                    assert(after[i] == before[i] && after[i + 1] == before[i + 1]);
                } else if i == before.len() - 1 {
                    assert(after[i] == before.last());
                }
            }
            if before.len() > 0 {
                assert(after[0] == before[0]);
            }
        }
    }
}

/// A normalized name has no space at either end and never two spaces in a
/// row, and a text made only of alphanumeric characters (none of them a
/// space) normalizes to the same text in ASCII lower case.
pub proof fn lemma_normalized_shape(text: Seq<char>)
    ensures
        normalized(text).len() > 0 ==> normalized(text)[0] != ' ' && normalized(text).last() != ' ',
        forall|i: int|
            0 <= i < normalized(text).len() - 1 ==> !(#[trigger] normalized(text)[i] == ' '
                && normalized(text)[i + 1] == ' '),
        (forall|i: int| 0 <= i < text.len() ==> #[trigger] char_is_alphanumeric(text[i]) && text[i]
            != ' ') ==> normalized(text) == text.map_values(|c: char| ascii_lower(c)),
{
    let mapped = text.map_values(|c: char| normalize_char(c));
    lemma_collapse_spaces_shape(mapped);
    if forall|i: int| 0 <= i < text.len() ==> #[trigger] char_is_alphanumeric(text[i]) && text[i] != ' ' {
        assert forall|i: int| 0 <= i < mapped.len() implies mapped[i] != ' ' by {
            assert(char_is_alphanumeric(text[i]) && text[i] != ' ');
            let c = text[i];
            if 'A' <= c <= 'Z' {
                assert(((c as u32) + 32) as char != ' ');
            }
        }
        assert(mapped =~= text.map_values(|c: char| ascii_lower(c)));
    }
}

/// The message for a missing track names the folder that was searched.
pub proof fn lemma_missing_message_names_folder(dir: Seq<char>, mp3_count: nat, track: MusicTrack)
    ensures
        exists|i: int|
            0 <= i && i + dir.len() <= missing_message_text(dir, mp3_count, track).len()
                && #[trigger] missing_message_text(dir, mp3_count, track).subrange(i, i + dir.len()) == dir,
{
    let text = missing_message_text(dir, mp3_count, track);
    if mp3_count == 0 {
        let head = "No se encontraron MP3 en "@;
        let i = head.len() as int;
        assert(text.subrange(i, i + dir.len()) =~= dir);
    } else {
        let head = "No se encontro "@ + expected_track_text(track) + " dentro de "@;
        let i = head.len() as int;
        assert(text.subrange(i, i + dir.len()) =~= dir);
    }
}

} // verus!
