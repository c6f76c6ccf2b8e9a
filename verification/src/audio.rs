//! Which audio files count as music, the audio formats the player
//! supports, how durations are shown, and the bookkeeping of open players:
//! which ones to pause when another starts or to stop when a file closes.

use vstd::prelude::*;
use crate::paths::{path_extension, path_file_name, spec_path_extension, spec_path_file_name};
use crate::text::{
    decimal, decimal_string, digit, digit_char,
    contains_str, is_ascii_digit_spec, seq_contains_sub, seq_has_prefix, spec_lowercase,
    to_lowercase,
};

verus! {

/// The file extensions the audio player supports.
pub open spec fn audio_extensions() -> Seq<Seq<char>> {
    seq!["mp3"@, "wav"@, "flac"@, "ogg"@, "m4a"@, "aac"@, "opus"@, "wma"@]
}

/// The supported audio file extensions.
pub fn get_supported_audio_extensions() -> (r: Vec<&'static str>)
    ensures
        r@.map_values(|s: &str| s@) == audio_extensions(),
{
    let r = vec!["mp3", "wav", "flac", "ogg", "m4a", "aac", "opus", "wma"];
    assert(r@.map_values(|s: &str| s@) =~= audio_extensions());
    r
}

/// Extensions of formats that are typically music.
pub open spec fn music_extensions() -> Seq<Seq<char>> {
    seq!["mp3"@, "flac"@, "m4a"@, "aac"@, "opus"@, "wav"@, "ogg"@, "wma"@]
}

/// Words in a path or name that mark speech, alerts or recordings.
pub open spec fn non_music_indicators() -> Seq<Seq<char>> {
    seq![
        "speech"@, "voice"@, "talk"@, "podcast"@, "interview"@, "notification"@, "alert"@,
        "system"@, "effect"@, "sfx"@, "recording"@, "memo"@, "note"@, "call"@, "voicemail"@,
        "announcement"@, "dialog"@, "dialogue"@
    ]
}

/// Words in a path or name that mark music.
pub open spec fn music_indicators() -> Seq<Seq<char>> {
    seq![
        "music"@, "song"@, "track"@, "album"@, "artist"@, "band"@, "mp3"@, "audio"@, "sound"@,
        "playlist"@, "library"@, "tune"@, "melody"@, "beat"@, "rhythm"@, "genre"@, "acoustic"@,
        "instrumental"@
    ]
}

/// One of the words occurs in `a` or in `b`.
pub open spec fn mentions_any(words: Seq<Seq<char>>, a: Seq<char>, b: Seq<char>) -> bool {
    exists|k: int| 0 <= k < words.len() && (seq_contains_sub(a, #[trigger] words[k]) || seq_contains_sub(b, words[k]))
}

/// Whether an audio file is music: by its extension when it has one (a
/// typical music format), otherwise by the words in its lowercased path and
/// file name (speech and alert words win over music words), then by
/// "Artist - Title" style names and leading track numbers.
pub open spec fn music_by_path(path: Seq<char>) -> bool {
    match spec_path_extension(path) {
        Some(e) => music_extensions().contains(spec_lowercase(e)),
        None => {
            let p = spec_lowercase(path);
            let f = spec_lowercase(
                match spec_path_file_name(path) {
                    Some(n) => n,
                    None => Seq::empty(),
                },
            );
            if mentions_any(non_music_indicators(), p, f) {
                false
            } else if mentions_any(music_indicators(), p, f) {
                true
            } else if seq_contains_sub(f, " - "@) || seq_contains_sub(f, "_-_"@) {
                true
            } else {
                f.len() > 0 && is_ascii_digit_spec(f[0]) && (seq_contains_sub(f, ". "@) || seq_contains_sub(f, " - "@))
            }
        },
    }
}

fn in_list(list: &Vec<&'static str>, x: &str) -> (r: bool)
    ensures
        r == list@.map_values(|s: &str| s@).contains(x@),
{
    let ghost lv = list@.map_values(|s: &str| s@);
    let mut i: usize = 0;
    while i < list.len()
        invariant
            lv == list@.map_values(|s: &str| s@),
            i <= list@.len(),
            forall|k: int| 0 <= k < i ==> lv[k] != x@,
        decreases list.len() - i,
    {
        if crate::text::str_eq(list[i], x) {
            assert(lv[i as int] == x@);
            return true;
        }
        i = i + 1;
    }
    proof {
        if lv.contains(x@) {
            let w = choose|w: int| 0 <= w < lv.len() && lv[w] == x@;
            assert(false);
        }
    }
    false
}

fn any_mentioned(list: &Vec<&'static str>, a: &str, b: &str) -> (r: bool)
    ensures
        r == mentions_any(list@.map_values(|s: &str| s@), a@, b@),
{
    let ghost lv = list@.map_values(|s: &str| s@);
    let mut i: usize = 0;
    while i < list.len()
        invariant
            lv == list@.map_values(|s: &str| s@),
            i <= list@.len(),
            forall|k: int| 0 <= k < i ==> !(seq_contains_sub(a@, #[trigger] lv[k]) || seq_contains_sub(b@, lv[k])),
        decreases list.len() - i,
    {
        if contains_str(a, list[i]) || contains_str(b, list[i]) {
            assert(seq_contains_sub(a@, lv[i as int]) || seq_contains_sub(b@, lv[i as int]));
            return true;
        }
        i = i + 1;
    }
    false
}

/// Whether the audio file at `path` is music (see `music_by_path`).
pub fn is_music_file(path: &str) -> (r: bool)
    ensures
        r == music_by_path(path@),
{
    match path_extension(path) {
        Some(e) => {
            let ext = to_lowercase(e.as_str());
            let known = vec!["mp3", "flac", "m4a", "aac", "opus", "wav", "ogg", "wma"];
            assert(known@.map_values(|s: &str| s@) =~= music_extensions());
            return in_list(&known, ext.as_str());
        },
        None => {},
    }
    let p = to_lowercase(path);
    let name = match path_file_name(path) {
        Some(n) => n,
        None => String::new(),
    };
    let f = to_lowercase(name.as_str());
    let non_music = vec![
        "speech", "voice", "talk", "podcast", "interview", "notification", "alert", "system",
        "effect", "sfx", "recording", "memo", "note", "call", "voicemail", "announcement",
        "dialog", "dialogue",
    ];
    assert(non_music@.map_values(|s: &str| s@) =~= non_music_indicators());
    if any_mentioned(&non_music, p.as_str(), f.as_str()) {
        return false;
    }
    let music = vec![
        "music", "song", "track", "album", "artist", "band", "mp3", "audio", "sound",
        "playlist", "library", "tune", "melody", "beat", "rhythm", "genre", "acoustic",
        "instrumental",
    ];
    assert(music@.map_values(|s: &str| s@) =~= music_indicators());
    if any_mentioned(&music, p.as_str(), f.as_str()) {
        return true;
    }
    if contains_str(f.as_str(), " - ") || contains_str(f.as_str(), "_-_") {
        return true;
    }
    let digit_start = f.unicode_len() > 0 && {
        let c = f.as_str().get_char(0);
        '0' <= c && c <= '9'
    };
    digit_start && (contains_str(f.as_str(), ". ") || contains_str(f.as_str(), " - "))
}

// ---------------------------------------------------------------------------
// The players that are open
// ---------------------------------------------------------------------------

/// The state of a player's media pipeline, as the media framework reports it.
#[derive(Debug, Clone, Copy, PartialEq, Eq, Structural)]
pub enum PipelineState {
    VoidPending,
    Null,
    Ready,
    Paused,
    Playing,
}

/// The open audio players, each as (pipeline handle, player id, is music),
/// in the order they were registered, and the ids of players stopped by
/// another one that have not yet been told.
pub struct AudioPlayers {
    players: Vec<(u64, String, bool)>,
    stopped: Vec<String>,
}

/// The elements of `s` at the positions below `n` that `keep` selects, in
/// order.
pub open spec fn pick<T>(s: Seq<T>, keep: spec_fn(int) -> bool, n: int) -> Seq<T>
    decreases n,
{
    if n <= 0 {
        Seq::empty()
    } else if keep(n - 1) {
        pick(s, keep, n - 1).push(s[n - 1])
    } else {
        pick(s, keep, n - 1)
    }
}

/// The players whose pipeline is not destroyed.
pub open spec fn alive(st: Seq<PipelineState>) -> spec_fn(int) -> bool {
    |k: int| st[k] != PipelineState::Null
}

/// The players whose pipeline is destroyed.
pub open spec fn dead(st: Seq<PipelineState>) -> spec_fn(int) -> bool {
    |k: int| st[k] == PipelineState::Null
}

/// The players that are playing.
pub open spec fn playing(st: Seq<PipelineState>) -> spec_fn(int) -> bool {
    |k: int| st[k] == PipelineState::Playing
}

/// The players other than `current` that are playing.
pub open spec fn playing_other(st: Seq<PipelineState>, ids: Seq<Seq<char>>, current: Seq<char>) -> spec_fn(int) -> bool {
    |k: int| st[k] == PipelineState::Playing && ids[k] != current
}

/// The live players whose id mentions the file name `name`.
pub open spec fn of_file(st: Seq<PipelineState>, ids: Seq<Seq<char>>, name: Seq<char>) -> spec_fn(int) -> bool {
    |k: int| st[k] != PipelineState::Null && seq_contains_sub(ids[k], name)
}

/// The live players whose id does not mention the file name `name`.
pub open spec fn not_of_file(st: Seq<PipelineState>, ids: Seq<Seq<char>>, name: Seq<char>) -> spec_fn(int) -> bool {
    |k: int| st[k] != PipelineState::Null && !seq_contains_sub(ids[k], name)
}

/// The handles of players.
pub open spec fn handles(ps: Seq<(u64, Seq<char>, bool)>) -> Seq<u64> {
    ps.map_values(|p: (u64, Seq<char>, bool)| p.0)
}

/// The ids of players.
pub open spec fn ids(ps: Seq<(u64, Seq<char>, bool)>) -> Seq<Seq<char>> {
    ps.map_values(|p: (u64, Seq<char>, bool)| p.1)
}

/// What happens to the players when one starts or when a file closes:
/// the handles to pause or stop, and the handles no longer registered.
pub struct PlayerChanges {
    pub pause: Vec<u64>,
    pub stop: Vec<u64>,
    pub released: Vec<u64>,
}

impl AudioPlayers {
    /// The players, as (handle, id, is music).
    pub closed spec fn players(&self) -> Seq<(u64, Seq<char>, bool)> {
        self.players@.map_values(|p: (u64, String, bool)| (p.0, p.1@, p.2))
    }

    /// The ids of players stopped by another and not yet told.
    pub closed spec fn stopped(&self) -> Seq<Seq<char>> {
        self.stopped@.map_values(|s: String| s@)
    }

    /// No players.
    pub fn new() -> (r: Self)
        ensures
            r.players().len() == 0,
            r.stopped().len() == 0,
    {
        let r = AudioPlayers { players: Vec::new(), stopped: Vec::new() };
        assert(r.players() =~= Seq::empty());
        assert(r.stopped() =~= Seq::empty());
        r
    }

    /// The number of players.
    pub fn len(&self) -> (r: usize)
        ensures
            r == self.players().len(),
    {
        self.players.len()
    }

    /// The pipeline handles, in order.
    pub fn player_handles(&self) -> (r: Vec<u64>)
        ensures
            r@ == handles(self.players()),
    {
        let mut r: Vec<u64> = Vec::new();
        let mut i: usize = 0;
        while i < self.players.len()
            invariant
                i <= self.players@.len(),
                r@ == handles(self.players()).take(i as int),
            decreases self.players.len() - i,
        {
            r.push(self.players[i].0);
            assert(r@ =~= handles(self.players()).take(i + 1));
            i = i + 1;
        }
        assert(handles(self.players()).take(i as int) =~= handles(self.players()));
        r
    }

    /// Drops the players whose state is `Null` (given the state of each
    /// player's pipeline, in order) and returns their handles.
    fn drop_dead(&mut self, states: &Vec<PipelineState>) -> (r: Vec<u64>)
        requires
            states@.len() == old(self).players().len(),
        ensures
            final(self).players() == pick(old(self).players(), alive(states@), states@.len() as int),
            r@ == pick(handles(old(self).players()), dead(states@), states@.len() as int),
            final(self).stopped() == old(self).stopped(),
    {
        let ghost ps = self.players();
        let mut old_players: Vec<(u64, String, bool)> = Vec::new();
        std::mem::swap(&mut old_players, &mut self.players);
        let mut released: Vec<u64> = Vec::new();
        let mut i: usize = 0;
        while i < old_players.len()
            invariant
                states@.len() == old_players@.len(),
                ps == old_players@.map_values(|p: (u64, String, bool)| (p.0, p.1@, p.2)),
                i <= old_players@.len(),
                self.players() == pick(ps, alive(states@), i as int),
                released@ == pick(handles(ps), dead(states@), i as int),
                self.stopped() == old(self).stopped(),
            decreases old_players.len() - i,
        {
            let e = &old_players[i];
            if states[i] == PipelineState::Null {
                released.push(e.0);
            } else {
                let ghost before = self.players();
                self.players.push((e.0, e.1.clone(), e.2));
                assert(self.players() =~= before.push(ps[i as int]));
            }
            i = i + 1;
        }
        released
    }

    /// A new player is registered after the destroyed ones (state `Null`,
    /// given the state of each player's pipeline, in order) are dropped;
    /// returns the handles dropped.
    pub fn register_player(&mut self, states: &Vec<PipelineState>, handle: u64, player_id: String, is_music: bool) -> (r: Vec<u64>)
        requires
            states@.len() == old(self).players().len(),
        ensures
            final(self).players() == pick(old(self).players(), alive(states@), states@.len() as int).push((handle, player_id@, is_music)),
            r@ == pick(handles(old(self).players()), dead(states@), states@.len() as int),
            final(self).stopped() == old(self).stopped(),
    {
        let r = self.drop_dead(states);
        let ghost before = self.players();
        let ghost pid = player_id@;
        self.players.push((handle, player_id, is_music));
        assert(self.players() =~= before.push((handle, pid, is_music)));
        r
    }

    /// The destroyed players (state `Null`) are dropped; returns their
    /// handles.
    pub fn cleanup_dead_players(&mut self, states: &Vec<PipelineState>) -> (r: Vec<u64>)
        requires
            states@.len() == old(self).players().len(),
        ensures
            final(self).players() == pick(old(self).players(), alive(states@), states@.len() as int),
            r@ == pick(handles(old(self).players()), dead(states@), states@.len() as int),
            final(self).stopped() == old(self).stopped(),
    {
        self.drop_dead(states)
    }

    /// Whether player `player_id` was stopped by another one; the first
    /// such notice is then gone.
    pub fn check_and_clear_stop_notification(&mut self, player_id: &str) -> (r: bool)
        ensures
            r == old(self).stopped().contains(player_id@),
            final(self).players() == old(self).players(),
            r ==> exists|k: int| 0 <= k < old(self).stopped().len()
                && old(self).stopped()[k] == player_id@
                && (forall|m: int| 0 <= m < k ==> old(self).stopped()[m] != player_id@)
                && final(self).stopped() == old(self).stopped().remove(k),
            !r ==> final(self).stopped() == old(self).stopped(),
    {
        let ghost sv = self.stopped();
        let mut i: usize = 0;
        while i < self.stopped.len()
            invariant
                sv == old(self).stopped(),
                sv == self.stopped(),
                sv == self.stopped@.map_values(|s: String| s@),
                self.players() == old(self).players(),
                i <= sv.len(),
                forall|m: int| 0 <= m < i ==> sv[m] != player_id@,
            decreases self.stopped.len() - i,
        {
            if crate::text::str_eq(self.stopped[i].as_str(), player_id) {
                assert(sv[i as int] == player_id@);
                self.stopped.remove(i);
                assert(self.stopped() =~= sv.remove(i as int));
                return true;
            }
            i = i + 1;
        }
        assert(!sv.contains(player_id@));
        false
    }

    /// A player starts: the destroyed players are dropped, every other
    /// playing player is paused and told so later; the starting one keeps
    /// playing.
    pub fn stop_other_players(&mut self, states: &Vec<PipelineState>, current_player_id: &str) -> (r: PlayerChanges)
        requires
            states@.len() == old(self).players().len(),
        ensures
            final(self).players() == pick(old(self).players(), alive(states@), states@.len() as int),
            r.released@ == pick(handles(old(self).players()), dead(states@), states@.len() as int),
            r.pause@ == pick(handles(old(self).players()), playing_other(states@, ids(old(self).players()), current_player_id@), states@.len() as int),
            r.stop@.len() == 0,
            final(self).stopped() == old(self).stopped() + pick(ids(old(self).players()), playing_other(states@, ids(old(self).players()), current_player_id@), states@.len() as int),
    {
        let ghost ps = self.players();
        let ghost st0 = self.stopped();
        let mut pause: Vec<u64> = Vec::new();
        let mut i: usize = 0;
        while i < self.players.len()
            invariant
                states@.len() == ps.len(),
                ps == self.players(),
                ps == self.players@.map_values(|p: (u64, String, bool)| (p.0, p.1@, p.2)),
                i <= ps.len(),
                pause@ == pick(handles(ps), playing_other(states@, ids(ps), current_player_id@), i as int),
                self.stopped() == st0 + pick(ids(ps), playing_other(states@, ids(ps), current_player_id@), i as int),
            decreases self.players.len() - i,
        {
            let ghost before = self.stopped();
            if states[i] == PipelineState::Playing && !crate::text::str_eq(self.players[i].1.as_str(), current_player_id) {
                pause.push(self.players[i].0);
                let id = self.players[i].1.clone();
                self.stopped.push(id);
                assert(self.stopped() =~= before.push(ps[i as int].1));
            }
            i = i + 1;
        }
        let released = self.drop_dead(states);
        PlayerChanges { pause, stop: Vec::new(), released }
    }

    /// The file `file_path` closes: the destroyed players are dropped, and
    /// every player whose id mentions the file's name is stopped, dropped
    /// and told so later.
    pub fn stop_players_for_file(&mut self, states: &Vec<PipelineState>, file_path: &str) -> (r: PlayerChanges)
        requires
            states@.len() == old(self).players().len(),
        ensures
            ({
                let name = match spec_path_file_name(file_path@) {
                    Some(n) => n,
                    None => Seq::empty(),
                };
                let ps = old(self).players();
                let n = states@.len() as int;
                &&& final(self).players() == pick(ps, not_of_file(states@, ids(ps), name), n)
                &&& r.stop@ == pick(handles(ps), of_file(states@, ids(ps), name), n)
                &&& r.released@ == pick(handles(ps), dead(states@), n) + r.stop@
                &&& r.pause@.len() == 0
                &&& final(self).stopped() == old(self).stopped() + pick(ids(ps), of_file(states@, ids(ps), name), n)
            }),
    {
        let name = match path_file_name(file_path) {
            Some(n) => n,
            None => String::new(),
        };
        let ghost nm = name@;
        let ghost ps = self.players();
        let ghost st0 = self.stopped();
        let mut old_players: Vec<(u64, String, bool)> = Vec::new();
        std::mem::swap(&mut old_players, &mut self.players);
        let mut stop: Vec<u64> = Vec::new();
        let mut dead_ones: Vec<u64> = Vec::new();
        let mut i: usize = 0;
        while i < old_players.len()
            invariant
                states@.len() == old_players@.len(),
                nm == name@,
                ps == old_players@.map_values(|p: (u64, String, bool)| (p.0, p.1@, p.2)),
                i <= old_players@.len(),
                self.players() == pick(ps, not_of_file(states@, ids(ps), nm), i as int),
                stop@ == pick(handles(ps), of_file(states@, ids(ps), nm), i as int),
                dead_ones@ == pick(handles(ps), dead(states@), i as int),
                self.stopped() == st0 + pick(ids(ps), of_file(states@, ids(ps), nm), i as int),
            decreases old_players.len() - i,
        {
            let e = &old_players[i];
            assert(ids(ps)[i as int] == e.1@);
            let mentions = contains_str(e.1.as_str(), name.as_str());
            if states[i] == PipelineState::Null {
                dead_ones.push(e.0);
            } else if mentions {
                stop.push(e.0);
                let ghost before = self.stopped();
                self.stopped.push(e.1.clone());
                assert(self.stopped() =~= before.push(e.1@));
            } else {
                let ghost before = self.players();
                self.players.push((e.0, e.1.clone(), e.2));
                assert(self.players() =~= before.push(ps[i as int]));
            }
            i = i + 1;
        }
        let mut released = dead_ones;
        let mut more = stop.clone();
        assert(more@ == stop@);
        released.append(&mut more);
        PlayerChanges { pause: Vec::new(), stop, released }
    }

    /// Every playing player is paused and told so later.
    pub fn stop_all(&mut self, states: &Vec<PipelineState>) -> (r: Vec<u64>)
        requires
            states@.len() == old(self).players().len(),
        ensures
            final(self).players() == old(self).players(),
            r@ == pick(handles(old(self).players()), playing(states@), states@.len() as int),
            final(self).stopped() == old(self).stopped() + pick(ids(old(self).players()), playing(states@), states@.len() as int),
    {
        let ghost ps = self.players();
        let ghost st0 = self.stopped();
        let mut pause: Vec<u64> = Vec::new();
        let mut i: usize = 0;
        while i < self.players.len()
            invariant
                states@.len() == ps.len(),
                ps == self.players(),
                ps == self.players@.map_values(|p: (u64, String, bool)| (p.0, p.1@, p.2)),
                i <= ps.len(),
                pause@ == pick(handles(ps), playing(states@), i as int),
                self.stopped() == st0 + pick(ids(ps), playing(states@), i as int),
            decreases self.players.len() - i,
        {
            let ghost before = self.stopped();
            if states[i] == PipelineState::Playing {
                pause.push(self.players[i].0);
                let id = self.players[i].1.clone();
                self.stopped.push(id);
                assert(self.stopped() =~= before.push(ps[i as int].1));
            }
            i = i + 1;
        }
        pause
    }
}

/// A duration in seconds as `minutes:seconds`, the seconds in two digits.
pub open spec fn duration_text(seconds: nat) -> Seq<char> {
    let mins = seconds / 60;
    let padded = if mins < 10 { seq!['0'] + decimal(mins) } else { decimal(mins) };
    padded + seq![':', digit_char(((seconds % 60) / 10) as int), digit_char((seconds % 10) as int)]
}

/// Formats a duration in seconds as `MM:SS`: the minutes take at least two
/// digits (`01:05`), and more when there are a hundred minutes or more.
pub fn format_duration(seconds: u64) -> (r: String)
    ensures
        r@ == duration_text(seconds as nat),
{
    let mins = seconds / 60;
    let secs = seconds % 60;
    let mut r = if mins < 10 {
        let zero: Vec<char> = vec!['0'];
        let mut z = crate::text::string_from_chars(&zero);
        let m = decimal_string(mins);
        z.append(m.as_str());
        assert(zero@ =~= seq!['0']);
        z
    } else {
        decimal_string(mins)
    };
    let mut tail: Vec<char> = Vec::new();
    tail.push(':');
    tail.push(digit(secs / 10));
    tail.push(digit(secs % 10));
    assert((seconds % 60) % 10 == seconds % 10) by (nonlinear_arith);
    let t = crate::text::string_from_chars(&tail);
    r.append(t.as_str());
    assert(tail@ =~= seq![':', digit_char(((seconds % 60) / 10) as int), digit_char((seconds % 10) as int)]);
    r
}

/// Whether a MIME type (written `type/subtype`, as `Mime::essence_str`
/// gives it) is an audio type: its top-level type, the part before the
/// first `/`, is `audio`.
pub open spec fn audio_mime(essence: Seq<char>) -> bool {
    seq_has_prefix(essence, "audio/"@) || essence == "audio"@
}

/// Whether the MIME type `mime_type` is an audio type (see `audio_mime`).
pub fn is_audio_file(mime_type: &str) -> (r: bool)
    ensures
        r == audio_mime(mime_type@),
{
    crate::completion::ui::has_prefix(mime_type, "audio/") || crate::text::str_eq(mime_type, "audio")
}

} // verus!
