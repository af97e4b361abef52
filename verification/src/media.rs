//! What kind of media the user is taking in, from what the system's
//! now-playing service and the media apps report.
use vstd::prelude::*;
use crate::text::{chars_of, contains, contains_exec};

verus! {

/// Audio the pet or its own web view plays itself: it says nothing of
/// the user.
pub open spec fn own_audio(source: Seq<char>) -> bool {
    contains(source, "openclaw"@) || contains(source, "ooclaw"@) || contains(source, "com.apple.webkit"@)
}

/// `"music"`, `"video"` or `"none"`: what the user is taking in.
/// `status` is the now-playing service's answer, whether something plays
/// and from which source (none when the service cannot be asked);
/// `source_is_music` and `source_is_video` say whether that source is a
/// music app, and a video app or browser; `music_app_playing` whether a
/// music app reports that it plays.  A source that is not playing, or is
/// the pet's own audio, falls back to the music apps' report; an unknown
/// playing source counts as music.
pub open spec fn media_kind_of(
    status: Option<(bool, Seq<char>)>,
    source_is_music: bool,
    source_is_video: bool,
    music_app_playing: bool,
) -> Seq<char> {
    let fallback = if music_app_playing {
        "music"@
    } else {
        "none"@
    };
    match status {
        Some((playing, source)) => if !playing || own_audio(source) {
            fallback
        } else if source_is_music {
            "music"@
        } else if source_is_video {
            "video"@
        } else {
            "music"@
        },
        None => fallback,
    }
}

/// The kind of media the user is taking in (see `media_kind_of`).
pub fn media_kind(
    status: Option<(bool, &str)>,
    source_is_music: bool,
    source_is_video: bool,
    music_app_playing: bool,
) -> (r: &'static str)
    ensures
        r@ == media_kind_of(
            match status {
                Some((p, s)) => Some((p, s@)),
                None => None,
            },
            source_is_music,
            source_is_video,
            music_app_playing,
        ),
{
    let fallback: &'static str = if music_app_playing {
        "music"
    } else {
        "none"
    };
    match status {
        Some((playing, source)) => {
            let s = chars_of(source);
            let own = contains_exec(&s, &chars_of("openclaw")) || contains_exec(&s, &chars_of("ooclaw"))
                || contains_exec(&s, &chars_of("com.apple.webkit"));
            if !playing || own {
                fallback
            } else if source_is_music {
                "music"
            } else if source_is_video {
                "video"
            } else {
                "music"
            }
        },
        None => fallback,
    }
}

} // verus!
