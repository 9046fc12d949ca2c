use vstd::pervasive::VecAdditionalExecFns;
use vstd::prelude::*;

use crate::codec::{decode, enc_library, encode, spec_parse, DecodeError};
use crate::model::{Album, AlbumView, Artist, ArtistView, Library, LibraryView, Track, TrackView};

verus! {

/// A position in the hierarchy, as the surrounding view layer reports it:
/// depth 1 selects an artist, depth 2 an album, depth 3 a track.
#[derive(Debug, Clone, Copy, PartialEq, Eq)]
pub enum Selection {
    Artist { artist: usize },
    Album { artist: usize, album: usize },
    Track { artist: usize, album: usize, track: usize },
}

/// Whether a selection points at an entity that exists in the library.
pub open spec fn sel_valid(l: LibraryView, sel: Selection) -> bool {
    match sel {
        Selection::Artist { artist } => artist < l.artists.len(),
        Selection::Album { artist, album } => artist < l.artists.len() && album < l.artists[
            artist as int
        ].albums.len(),
        Selection::Track { artist, album, track } => artist < l.artists.len() && album < l.artists[
            artist as int
        ].albums.len() && track < l.artists[artist as int].albums[album as int].tracks.len(),
    }
}

pub open spec fn empty_artist() -> ArtistView {
    ArtistView { name: Seq::empty(), albums: Seq::empty() }
}

pub open spec fn empty_album() -> AlbumView {
    AlbumView { title: Seq::empty(), tracks: Seq::empty() }
}

pub open spec fn empty_track() -> TrackView {
    TrackView { title: Seq::empty(), lyrics: Seq::empty() }
}

/// The library with a fresh empty album appended under artist `a`.
pub open spec fn with_album_added(l: LibraryView, a: int) -> LibraryView {
    LibraryView {
        artists: l.artists.update(
            a,
            ArtistView { name: l.artists[a].name, albums: l.artists[a].albums.push(empty_album()) },
        ),
    }
}

/// The library with a fresh empty track appended under album `b` of
/// artist `a`.
pub open spec fn with_track_added(l: LibraryView, a: int, b: int) -> LibraryView {
    LibraryView {
        artists: l.artists.update(
            a,
            ArtistView {
                name: l.artists[a].name,
                albums: l.artists[a].albums.update(
                    b,
                    AlbumView {
                        title: l.artists[a].albums[b].title,
                        tracks: l.artists[a].albums[b].tracks.push(empty_track()),
                    },
                ),
            },
        ),
    }
}

/// The library with the selected entity's name or title set to `text`.
pub open spec fn with_renamed(l: LibraryView, sel: Selection, text: Seq<char>) -> LibraryView {
    match sel {
        Selection::Artist { artist } => LibraryView {
            artists: l.artists.update(
                artist as int,
                ArtistView { name: text, albums: l.artists[artist as int].albums },
            ),
        },
        Selection::Album { artist, album } => LibraryView {
            artists: l.artists.update(
                artist as int,
                ArtistView {
                    name: l.artists[artist as int].name,
                    albums: l.artists[artist as int].albums.update(
                        album as int,
                        AlbumView {
                            title: text,
                            tracks: l.artists[artist as int].albums[album as int].tracks,
                        },
                    ),
                },
            ),
        },
        Selection::Track { artist, album, track } => LibraryView {
            artists: l.artists.update(
                artist as int,
                ArtistView {
                    name: l.artists[artist as int].name,
                    albums: l.artists[artist as int].albums.update(
                        album as int,
                        AlbumView {
                            title: l.artists[artist as int].albums[album as int].title,
                            tracks: l.artists[artist as int].albums[album as int].tracks.update(
                                track as int,
                                TrackView {
                                    title: text,
                                    lyrics: l.artists[artist as int].albums[album as int].tracks[
                                        track as int
                                    ].lyrics,
                                },
                            ),
                        },
                    ),
                },
            ),
        },
    }
}

/// The library with the lyrics of track `t` under album `b` of artist `a`
/// set to `text`.
pub open spec fn with_lyrics_set(l: LibraryView, a: int, b: int, t: int, text: Seq<char>) -> LibraryView {
    LibraryView {
        artists: l.artists.update(
            a,
            ArtistView {
                name: l.artists[a].name,
                albums: l.artists[a].albums.update(
                    b,
                    AlbumView {
                        title: l.artists[a].albums[b].title,
                        tracks: l.artists[a].albums[b].tracks.update(
                            t,
                            TrackView {
                                title: l.artists[a].albums[b].tracks[t].title,
                                lyrics: text,
                            },
                        ),
                    },
                ),
            },
        ),
    }
}

/// The library together with its change tracker. Every mutation goes
/// through a method here and flips the tracker; nothing can bypass it.
pub struct Database {
    library: Library,
    dirty: bool,
}

impl Database {
    /// The library's mathematical value.
    pub closed spec fn lib(self) -> LibraryView {
        self.library.deep_view()
    }

    /// Whether in-memory state differs from the last successfully
    /// persisted state.
    pub closed spec fn dirty_spec(self) -> bool {
        self.dirty
    }

    /// A fresh database: no artists, clean.
    pub fn empty() -> (r: Database)
        ensures
            r.lib().artists.len() == 0,
            !r.dirty_spec(),
    {
        Database { library: Library::empty(), dirty: false }
    }

    pub fn is_dirty(&self) -> (r: bool)
        ensures
            r == self.dirty_spec(),
    {
        self.dirty
    }

    /// Read access to the ordered artist sequence and all descendants.
    pub fn entries(&self) -> (r: &Vec<Artist>)
        ensures
            r.deep_view() == self.lib().artists,
    {
        &self.library.artists
    }

    /// Marks unsaved changes. Every mutation entry point ends in this.
    pub fn mark_dirty(&mut self)
        ensures
            final(self).lib() == old(self).lib(),
            final(self).dirty_spec(),
    {
        self.dirty = true;
    }

    /// Clears the tracker. To be invoked only once the encoded document
    /// has been durably written; `finish_save` does so.
    pub fn clean(&mut self)
        ensures
            final(self).lib() == old(self).lib(),
            !final(self).dirty_spec(),
    {
        self.dirty = false;
    }

    /// Builds a clean database from a document's text; all-or-nothing.
    pub fn from_document(text: &str) -> (r: Result<Database, DecodeError>)
        ensures
            match r {
                Ok(db) => spec_parse(text@) == Ok::<LibraryView, DecodeError>(db.lib())
                    && !db.dirty_spec(),
                Err(e) => spec_parse(text@) == Err::<LibraryView, DecodeError>(e),
            },
    {
        match decode(text) {
            Ok(library) => Ok(Database { library, dirty: false }),
            Err(e) => Err(e),
        }
    }

    /// The document text that saving writes out. Deterministic, never fails.
    pub fn to_document(&self) -> (r: String)
        ensures
            r@ == enc_library(self.lib()),
    {
        encode(&self.library)
    }

    /// Ends a save attempt. The caller has tried to write `to_document`'s
    /// text durably and reports whether that succeeded; only a successful
    /// write clears the tracker, a failed one leaves it as it was.
    pub fn finish_save(&mut self, written: bool)
        ensures
            final(self).lib() == old(self).lib(),
            final(self).dirty_spec() == (old(self).dirty_spec() && !written),
    {
        if written {
            self.clean();
        }
    }

    /// Appends a fresh empty-named artist after all existing artists.
    pub fn add_artist(&mut self)
        ensures
            final(self).lib().artists == old(self).lib().artists.push(empty_artist()),
            final(self).dirty_spec(),
    {
        self.library.artists.push(Artist { name: String::new(), albums: Vec::new() });
        proof {
            assert(self.library.artists.deep_view() =~~= old(self).lib().artists.push(
                empty_artist(),
            ));
        }
        self.mark_dirty();
    }

    /// Appends a fresh empty-titled album under the selected artist.
    /// Refused — no state change, no tracker change — unless the
    /// selection is a valid depth-1 selection.
    pub fn add_album(&mut self, sel: &Selection) -> (r: bool)
        ensures
            r == (sel matches Selection::Artist { .. } && sel_valid(old(self).lib(), *sel)),
            r ==> final(self).lib() == with_album_added(
                old(self).lib(),
                sel->Artist_artist as int,
            ) && final(self).dirty_spec(),
            !r ==> *final(self) == *old(self),
    {
        match sel {
            Selection::Artist { artist } => {
                let a = *artist;
                if a >= self.library.artists.len() {
                    return false;
                }
                let mut tmp = Artist { name: String::new(), albums: Vec::new() };
                self.library.artists.set_and_swap(a, &mut tmp);
                tmp.albums.push(Album { title: String::new(), tracks: Vec::new() });
                self.library.artists.set_and_swap(a, &mut tmp);
                proof {
                    assert(self.library.artists.deep_view() =~~= with_album_added(
                        old(self).lib(),
                        a as int,
                    ).artists);
                }
                self.mark_dirty();
                true
            },
            _ => false,
        }
    }

    /// Appends a fresh empty track under the album that the selected track
    /// belongs to, after all its tracks. Refused — no state change, no
    /// tracker change — while the selection is at depth 1 or 2, or points
    /// at nothing.
    pub fn add_track(&mut self, sel: &Selection) -> (r: bool)
        ensures
            r == (sel matches Selection::Track { .. } && sel_valid(old(self).lib(), *sel)),
            r ==> final(self).lib() == with_track_added(
                old(self).lib(),
                sel->Track_artist as int,
                sel->Track_album as int,
            ) && final(self).dirty_spec(),
            !r ==> *final(self) == *old(self),
    {
        match sel {
            Selection::Track { artist, album, track } => {
                let a = *artist;
                let b = *album;
                let t = *track;
                if a >= self.library.artists.len() {
                    return false;
                }
                if b >= self.library.artists[a].albums.len() {
                    return false;
                }
                if t >= self.library.artists[a].albums[b].tracks.len() {
                    return false;
                }
                let mut ar = Artist { name: String::new(), albums: Vec::new() };
                self.library.artists.set_and_swap(a, &mut ar);
                let mut al = Album { title: String::new(), tracks: Vec::new() };
                ar.albums.set_and_swap(b, &mut al);
                al.tracks.push(Track { title: String::new(), lyrics: String::new() });
                ar.albums.set_and_swap(b, &mut al);
                self.library.artists.set_and_swap(a, &mut ar);
                proof {
                    assert(self.library.artists.deep_view() =~~= with_track_added(
                        old(self).lib(),
                        a as int,
                        b as int,
                    ).artists);
                }
                self.mark_dirty();
                true
            },
            _ => false,
        }
    }

    /// Sets the name or title of the selected entity, at any depth.
    /// Refused — no state change, no tracker change — when the selection
    /// points at nothing.
    pub fn rename(&mut self, sel: &Selection, text: &str) -> (r: bool)
        ensures
            r == sel_valid(old(self).lib(), *sel),
            r ==> final(self).lib() == with_renamed(old(self).lib(), *sel, text@)
                && final(self).dirty_spec(),
            !r ==> *final(self) == *old(self),
    {
        match sel {
            Selection::Artist { artist } => {
                let a = *artist;
                if a >= self.library.artists.len() {
                    return false;
                }
                let mut ar = Artist { name: String::new(), albums: Vec::new() };
                self.library.artists.set_and_swap(a, &mut ar);
                ar.name = text.to_owned();
                self.library.artists.set_and_swap(a, &mut ar);
                proof {
                    assert(self.library.artists.deep_view() =~~= with_renamed(
                        old(self).lib(),
                        *sel,
                        text@,
                    ).artists);
                }
                self.mark_dirty();
                true
            },
            Selection::Album { artist, album } => {
                let a = *artist;
                let b = *album;
                if a >= self.library.artists.len() {
                    return false;
                }
                if b >= self.library.artists[a].albums.len() {
                    return false;
                }
                let mut ar = Artist { name: String::new(), albums: Vec::new() };
                self.library.artists.set_and_swap(a, &mut ar);
                let mut al = Album { title: String::new(), tracks: Vec::new() };
                ar.albums.set_and_swap(b, &mut al);
                al.title = text.to_owned();
                ar.albums.set_and_swap(b, &mut al);
                self.library.artists.set_and_swap(a, &mut ar);
                proof {
                    assert(self.library.artists.deep_view() =~~= with_renamed(
                        old(self).lib(),
                        *sel,
                        text@,
                    ).artists);
                }
                self.mark_dirty();
                true
            },
            Selection::Track { artist, album, track } => {
                let a = *artist;
                let b = *album;
                let t = *track;
                if a >= self.library.artists.len() {
                    return false;
                }
                if b >= self.library.artists[a].albums.len() {
                    return false;
                }
                if t >= self.library.artists[a].albums[b].tracks.len() {
                    return false;
                }
                let mut ar = Artist { name: String::new(), albums: Vec::new() };
                self.library.artists.set_and_swap(a, &mut ar);
                let mut al = Album { title: String::new(), tracks: Vec::new() };
                ar.albums.set_and_swap(b, &mut al);
                let mut tr = Track { title: String::new(), lyrics: String::new() };
                al.tracks.set_and_swap(t, &mut tr);
                tr.title = text.to_owned();
                al.tracks.set_and_swap(t, &mut tr);
                ar.albums.set_and_swap(b, &mut al);
                self.library.artists.set_and_swap(a, &mut ar);
                proof {
                    assert(self.library.artists.deep_view() =~~= with_renamed(
                        old(self).lib(),
                        *sel,
                        text@,
                    ).artists);
                }
                self.mark_dirty();
                true
            },
        }
    }

    /// Sets the lyrics of the selected track. Refused — no state change,
    /// no tracker change — unless the selection is a valid depth-3
    /// selection: only tracks carry lyrics.
    pub fn set_lyrics(&mut self, sel: &Selection, text: &str) -> (r: bool)
        ensures
            r == (sel matches Selection::Track { .. } && sel_valid(old(self).lib(), *sel)),
            r ==> final(self).lib() == with_lyrics_set(
                old(self).lib(),
                sel->Track_artist as int,
                sel->Track_album as int,
                sel->Track_track as int,
                text@,
            ) && final(self).dirty_spec(),
            !r ==> *final(self) == *old(self),
    {
        match sel {
            Selection::Track { artist, album, track } => {
                let a = *artist;
                let b = *album;
                let t = *track;
                if a >= self.library.artists.len() {
                    return false;
                }
                if b >= self.library.artists[a].albums.len() {
                    return false;
                }
                if t >= self.library.artists[a].albums[b].tracks.len() {
                    return false;
                }
                let mut ar = Artist { name: String::new(), albums: Vec::new() };
                self.library.artists.set_and_swap(a, &mut ar);
                let mut al = Album { title: String::new(), tracks: Vec::new() };
                ar.albums.set_and_swap(b, &mut al);
                let mut tr = Track { title: String::new(), lyrics: String::new() };
                al.tracks.set_and_swap(t, &mut tr);
                tr.lyrics = text.to_owned();
                al.tracks.set_and_swap(t, &mut tr);
                ar.albums.set_and_swap(b, &mut al);
                self.library.artists.set_and_swap(a, &mut ar);
                proof {
                    assert(self.library.artists.deep_view() =~~= with_lyrics_set(
                        old(self).lib(),
                        a as int,
                        b as int,
                        t as int,
                        text@,
                    ).artists);
                }
                self.mark_dirty();
                true
            },
            _ => false,
        }
    }

    /// The display text of the selected entity: an artist's name, an
    /// album's or a track's title. Nothing when the selection points at
    /// no existing entity.
    pub fn title_at(&self, sel: &Selection) -> (r: Option<&String>)
        ensures
            match r {
                Some(s) => sel_valid(self.lib(), *sel) && s@ == match *sel {
                    Selection::Artist { artist } => self.lib().artists[artist as int].name,
                    Selection::Album { artist, album } => self.lib().artists[artist as int].albums[
                        album as int
                    ].title,
                    Selection::Track { artist, album, track } => self.lib().artists[
                        artist as int
                    ].albums[album as int].tracks[track as int].title,
                },
                None => !sel_valid(self.lib(), *sel),
            },
    {
        match sel {
            Selection::Artist { artist } => {
                let a = *artist;
                if a >= self.library.artists.len() {
                    return None;
                }
                Some(&self.library.artists[a].name)
            },
            Selection::Album { artist, album } => {
                let a = *artist;
                let b = *album;
                if a >= self.library.artists.len() {
                    return None;
                }
                if b >= self.library.artists[a].albums.len() {
                    return None;
                }
                Some(&self.library.artists[a].albums[b].title)
            },
            Selection::Track { artist, album, track } => {
                let a = *artist;
                let b = *album;
                let t = *track;
                if a >= self.library.artists.len() {
                    return None;
                }
                if b >= self.library.artists[a].albums.len() {
                    return None;
                }
                if t >= self.library.artists[a].albums[b].tracks.len() {
                    return None;
                }
                Some(&self.library.artists[a].albums[b].tracks[t].title)
            },
        }
    }

    /// The lyrics text at a selection. Only a valid depth-3 selection
    /// exposes lyrics; every other selection yields nothing.
    pub fn lyrics_at(&self, sel: &Selection) -> (r: Option<&String>)
        ensures
            match r {
                Some(s) => sel matches Selection::Track { .. } && sel_valid(self.lib(), *sel)
                    && s@ == self.lib().artists[sel->Track_artist as int].albums[
                    sel->Track_album as int
                ].tracks[sel->Track_track as int].lyrics,
                None => !(sel matches Selection::Track { .. } && sel_valid(self.lib(), *sel)),
            },
    {
        match sel {
            Selection::Track { artist, album, track } => {
                let a = *artist;
                let b = *album;
                let t = *track;
                if a >= self.library.artists.len() {
                    return None;
                }
                if b >= self.library.artists[a].albums.len() {
                    return None;
                }
                if t >= self.library.artists[a].albums[b].tracks.len() {
                    return None;
                }
                Some(&self.library.artists[a].albums[b].tracks[t].lyrics)
            },
            _ => None,
        }
    }
}

} // verus!
