//! Media file extensions recognized by the scanner, with their MIME types.
//! Extension matching is case-insensitive; compare against lowercased input.
use vstd::prelude::*;
use crate::text;

verus! {

pub const VIDEO_EXTENSIONS: [(&'static str, &'static str); 12] = [
    ("mkv", "video/x-matroska"),
    ("mp4", "video/mp4"),
    ("m4v", "video/mp4"),
    ("mov", "video/quicktime"),
    ("avi", "video/x-msvideo"),
    ("wmv", "video/x-ms-wmv"),
    ("webm", "video/webm"),
    ("mpg", "video/mpeg"),
    ("mpeg", "video/mpeg"),
    ("ts", "video/mp2t"),
    ("m2ts", "video/mp2t"),
    ("flv", "video/x-flv"),
];

pub const AUDIO_EXTENSIONS: [(&'static str, &'static str); 9] = [
    ("mp3", "audio/mpeg"),
    ("flac", "audio/flac"),
    ("m4a", "audio/mp4"),
    ("aac", "audio/aac"),
    ("ogg", "audio/ogg"),
    ("opus", "audio/ogg"),
    ("wav", "audio/wav"),
    ("aiff", "audio/aiff"),
    ("wma", "audio/x-ms-wma"),
];

/// A table of pairs of texts.
pub open spec fn table(t: Seq<(&'static str, &'static str)>) -> Seq<(Seq<char>, Seq<char>)> {
    Seq::new(t.len(), |i: int| (t[i].0@, t[i].1@))
}

/// The second text of the first pair that has `key`.
pub open spec fn looked_up(t: Seq<(Seq<char>, Seq<char>)>, key: Seq<char>) -> Option<Seq<char>>
    decreases t.len(),
{
    if t.len() == 0 {
        None
    } else if t[0].0 == key {
        Some(t[0].1)
    } else {
        looked_up(t.drop_first(), key)
    }
}

fn look_up(t: &[(&'static str, &'static str)], key: &str) -> (r: Option<&'static str>)
    ensures
        (match r {
            Some(m) => Some(m@),
            None => None,
        }) == looked_up(table(t@), key@),
{
    let mut i: usize = 0;
    assert(table(t@).skip(0) =~= table(t@));
    while i < t.len()
        invariant
            i <= t.len(),
            looked_up(table(t@), key@) == looked_up(table(t@).skip(i as int), key@),
        decreases t.len() - i,
    {
        if text::same(t[i].0, key) {
            return Some(t[i].1);
        }
        assert(table(t@).skip(i as int).drop_first() =~= table(t@).skip(i + 1));
        i += 1;
    }
    None
}

/// The extensions of one sort, with their MIME types.
pub open spec fn extensions(video: bool) -> Seq<(Seq<char>, Seq<char>)> {
    if video {
        table(VIDEO_EXTENSIONS@)
    } else {
        table(AUDIO_EXTENSIONS@)
    }
}

/// MIME type for a lowercase extension, restricted to video or audio
/// depending on what the containing root holds.
pub fn mime_for_extension(ext: &str, video: bool) -> (r: Option<&'static str>)
    ensures
        (match r {
            Some(m) => Some(m@),
            None => None,
        }) == looked_up(extensions(video), ext@),
{
    if video {
        look_up(&VIDEO_EXTENSIONS, ext)
    } else {
        look_up(&AUDIO_EXTENSIONS, ext)
    }
}

// -------------------------------------------------------------------- laws

/// What is looked up is one of the pairs.
proof fn lemma_looked_up(t: Seq<(Seq<char>, Seq<char>)>, key: Seq<char>) -> (i: int)
    ensures
        looked_up(t, key) is Some ==> 0 <= i < t.len() && t[i].0 == key && looked_up(t, key) == Some(
            t[i].1,
        ),
    decreases t.len(),
{
    if t.len() == 0 || t[0].0 == key {
        0
    } else {
        let i = lemma_looked_up(t.drop_first(), key);
        i + 1
    }
}

/// The MIME types of video extensions are of videos, those of audio extensions
/// of audio.
pub proof fn types_are_of_their_sort(key: Seq<char>, video: bool)
    ensures
        looked_up(extensions(video), key) matches Some(m) ==> text::begins(
            m,
            if video {
                "video/"@
            } else {
                "audio/"@
            },
        ),
{
    reveal_strlit("video/x-matroska");
    reveal_strlit("video/mp4");
    reveal_strlit("video/quicktime");
    reveal_strlit("video/x-msvideo");
    reveal_strlit("video/x-ms-wmv");
    reveal_strlit("video/webm");
    reveal_strlit("video/mpeg");
    reveal_strlit("video/mp2t");
    reveal_strlit("video/x-flv");
    reveal_strlit("audio/mpeg");
    reveal_strlit("audio/flac");
    reveal_strlit("audio/mp4");
    reveal_strlit("audio/aac");
    reveal_strlit("audio/ogg");
    reveal_strlit("audio/wav");
    reveal_strlit("audio/aiff");
    reveal_strlit("audio/x-ms-wma");
    reveal_strlit("video/");
    reveal_strlit("audio/");
    let i = lemma_looked_up(extensions(video), key);
    if looked_up(extensions(video), key) is Some {
        let m = extensions(video)[i].1;
        if video {
            assert(m == VIDEO_EXTENSIONS@[i].1@);
            assert(m.subrange(0, 6) =~= "video/"@);
        } else {
            assert(m == AUDIO_EXTENSIONS@[i].1@);
            assert(m.subrange(0, 6) =~= "audio/"@);
        }
    }
}

/// No extension is both a video's and an audio file's.
pub proof fn sorts_are_apart(key: Seq<char>)
    ensures
        looked_up(extensions(true), key) is None || looked_up(extensions(false), key) is None,
{
    reveal_strlit("mkv");
    reveal_strlit("mp4");
    reveal_strlit("m4v");
    reveal_strlit("mov");
    reveal_strlit("avi");
    reveal_strlit("wmv");
    reveal_strlit("webm");
    reveal_strlit("mpg");
    reveal_strlit("mpeg");
    reveal_strlit("ts");
    reveal_strlit("m2ts");
    reveal_strlit("flv");
    reveal_strlit("mp3");
    reveal_strlit("flac");
    reveal_strlit("m4a");
    reveal_strlit("aac");
    reveal_strlit("ogg");
    reveal_strlit("opus");
    reveal_strlit("wav");
    reveal_strlit("aiff");
    reveal_strlit("wma");
    let i = lemma_looked_up(extensions(true), key);
    let j = lemma_looked_up(extensions(false), key);
    if looked_up(extensions(true), key) is Some && looked_up(extensions(false), key) is Some {
        assert(key == VIDEO_EXTENSIONS@[i].0@);
        assert((key.len() == 3 && key[0] == 'm' && key[1] == 'k' && key[2] == 'v')
            || (key.len() == 3 && key[0] == 'm' && key[1] == 'p' && key[2] == '4')
            || (key.len() == 3 && key[0] == 'm' && key[1] == '4' && key[2] == 'v')
            || (key.len() == 3 && key[0] == 'm' && key[1] == 'o' && key[2] == 'v')
            || (key.len() == 3 && key[0] == 'a' && key[1] == 'v' && key[2] == 'i')
            || (key.len() == 3 && key[0] == 'w' && key[1] == 'm' && key[2] == 'v')
            || (key.len() == 4 && key[0] == 'w' && key[1] == 'e' && key[2] == 'b' && key[3] == 'm')
            || (key.len() == 3 && key[0] == 'm' && key[1] == 'p' && key[2] == 'g')
            || (key.len() == 4 && key[0] == 'm' && key[1] == 'p' && key[2] == 'e' && key[3] == 'g')
            || (key.len() == 2 && key[0] == 't' && key[1] == 's')
            || (key.len() == 4 && key[0] == 'm' && key[1] == '2' && key[2] == 't' && key[3] == 's')
            || (key.len() == 3 && key[0] == 'f' && key[1] == 'l' && key[2] == 'v'));
        assert(key == AUDIO_EXTENSIONS@[j].0@);
        assert((key.len() == 3 && key[0] == 'm' && key[1] == 'p' && key[2] == '3')
            || (key.len() == 4 && key[0] == 'f' && key[1] == 'l' && key[2] == 'a' && key[3] == 'c')
            || (key.len() == 3 && key[0] == 'm' && key[1] == '4' && key[2] == 'a')
            || (key.len() == 3 && key[0] == 'a' && key[1] == 'a' && key[2] == 'c')
            || (key.len() == 3 && key[0] == 'o' && key[1] == 'g' && key[2] == 'g')
            || (key.len() == 4 && key[0] == 'o' && key[1] == 'p' && key[2] == 'u' && key[3] == 's')
            || (key.len() == 3 && key[0] == 'w' && key[1] == 'a' && key[2] == 'v')
            || (key.len() == 4 && key[0] == 'a' && key[1] == 'i' && key[2] == 'f' && key[3] == 'f')
            || (key.len() == 3 && key[0] == 'w' && key[1] == 'm' && key[2] == 'a'));
    }
}

} // verus!
