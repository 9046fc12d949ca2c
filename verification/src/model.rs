use vstd::prelude::*;

verus! {

/// A single song: a title and the full lyrics text (possibly empty).
#[derive(Debug, Clone, PartialEq, Eq)]
pub struct Track {
    pub title: String,
    pub lyrics: String,
}

/// An album: a title and the ordered tracks it owns.
#[derive(Debug, Clone, PartialEq, Eq)]
pub struct Album {
    pub title: String,
    pub tracks: Vec<Track>,
}

/// An artist: a name and the ordered albums it owns.
#[derive(Debug, Clone, PartialEq, Eq)]
pub struct Artist {
    pub name: String,
    pub albums: Vec<Album>,
}

/// The root aggregate: the ordered sequence of artists. Order is
/// document order and drives display order, so it is meaningful.
#[derive(Debug, Clone, PartialEq, Eq)]
pub struct Library {
    pub artists: Vec<Artist>,
}

/// Mathematical image of a `Track`: both texts as character sequences.
#[verifier::ext_equal]
pub struct TrackView {
    pub title: Seq<char>,
    pub lyrics: Seq<char>,
}

/// Mathematical image of an `Album`.
#[verifier::ext_equal]
pub struct AlbumView {
    pub title: Seq<char>,
    pub tracks: Seq<TrackView>,
}

/// Mathematical image of an `Artist`.
#[verifier::ext_equal]
pub struct ArtistView {
    pub name: Seq<char>,
    pub albums: Seq<AlbumView>,
}

/// Mathematical image of a `Library`.
#[verifier::ext_equal]
pub struct LibraryView {
    pub artists: Seq<ArtistView>,
}

impl DeepView for Track {
    type V = TrackView;

    open spec fn deep_view(&self) -> TrackView {
        TrackView { title: self.title@, lyrics: self.lyrics@ }
    }
}

impl DeepView for Album {
    type V = AlbumView;

    open spec fn deep_view(&self) -> AlbumView {
        AlbumView { title: self.title@, tracks: self.tracks.deep_view() }
    }
}

impl DeepView for Artist {
    type V = ArtistView;

    open spec fn deep_view(&self) -> ArtistView {
        ArtistView { name: self.name@, albums: self.albums.deep_view() }
    }
}

impl DeepView for Library {
    type V = LibraryView;

    open spec fn deep_view(&self) -> LibraryView {
        LibraryView { artists: self.artists.deep_view() }
    }
}

impl Library {
    /// A library with no artists at all.
    pub fn empty() -> (r: Library)
        ensures
            r.deep_view().artists.len() == 0,
    {
        let r = Library { artists: Vec::new() };
        proof {
            assert(r.deep_view().artists =~= Seq::<ArtistView>::empty());
        }
        r
    }
}

} // verus!
