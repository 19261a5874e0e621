//! Tracks in the catalog.
use vstd::prelude::*;
use crate::text;

verus! {

#[derive(Debug)]
pub struct TrackMeta {
    pub title: String,
    pub artist: Option<String>,
    pub album_artist: Option<String>,
    pub album: Option<String>,
    pub track_no: Option<i64>,
    pub disc_no: Option<i64>,
    pub year: Option<i64>,
    pub genres: Vec<String>,
}

#[verifier::ext_equal]
pub struct TrackView {
    pub title: Seq<char>,
    pub artist: Option<Seq<char>>,
    pub album_artist: Option<Seq<char>>,
    pub album: Option<Seq<char>>,
    pub track_no: Option<i64>,
    pub disc_no: Option<i64>,
    pub year: Option<i64>,
    pub genres: Seq<Seq<char>>,
}

impl View for TrackMeta {
    type V = TrackView;

    open spec fn view(&self) -> TrackView {
        TrackView {
            title: self.title@,
            artist: text::opt_text(self.artist),
            album_artist: text::opt_text(self.album_artist),
            album: text::opt_text(self.album),
            track_no: self.track_no,
            disc_no: self.disc_no,
            year: self.year,
            genres: text::texts(self.genres@),
        }
    }
}

} // verus!
