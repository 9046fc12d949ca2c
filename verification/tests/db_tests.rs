use lyricdb::db::{Database, Selection};

fn sample() -> Database {
    Database::from_document("AA\nBB\nTT1\nLlyrics1\nTT2\nLlyrics2\n").expect("must decode")
}

#[test]
fn empty_database_is_clean_and_bare() {
    let db = Database::empty();
    assert!(!db.is_dirty());
    assert_eq!(db.entries().len(), 0);
}

#[test]
fn loaded_database_starts_clean() {
    let db = sample();
    assert!(!db.is_dirty());
    assert_eq!(db.entries().len(), 1);
    assert_eq!(db.entries()[0].name, "A");
}

#[test]
fn add_artist_marks_dirty_and_appends() {
    let mut db = sample();
    db.add_artist();
    assert!(db.is_dirty());
    assert_eq!(db.entries().len(), 2);
    assert_eq!(db.entries()[1].name, "");
    assert_eq!(db.entries()[1].albums.len(), 0);
}

#[test]
fn add_album_marks_dirty_and_appends() {
    let mut db = sample();
    assert!(db.add_album(&Selection::Artist { artist: 0 }));
    assert!(db.is_dirty());
    let albums = &db.entries()[0].albums;
    assert_eq!(albums.len(), 2);
    assert_eq!(albums[1].title, "");
    assert_eq!(albums[1].tracks.len(), 0);
}

#[test]
fn add_album_refused_at_wrong_depth() {
    let mut db = sample();
    assert!(!db.add_album(&Selection::Album { artist: 0, album: 0 }));
    assert!(!db.add_album(&Selection::Track { artist: 0, album: 0, track: 0 }));
    assert!(!db.add_album(&Selection::Artist { artist: 1 }));
    assert!(!db.is_dirty());
    assert_eq!(db.entries()[0].albums.len(), 1);
}

#[test]
fn rename_marks_dirty_at_every_depth() {
    let mut db = sample();
    assert!(db.rename(&Selection::Artist { artist: 0 }, "Anna"));
    assert!(db.is_dirty());
    assert_eq!(db.entries()[0].name, "Anna");

    let mut db = sample();
    assert!(db.rename(&Selection::Album { artist: 0, album: 0 }, "Blue"));
    assert!(db.is_dirty());
    assert_eq!(db.entries()[0].albums[0].title, "Blue");

    let mut db = sample();
    assert!(db.rename(&Selection::Track { artist: 0, album: 0, track: 1 }, "Two"));
    assert!(db.is_dirty());
    assert_eq!(db.entries()[0].albums[0].tracks[1].title, "Two");
    assert_eq!(db.entries()[0].albums[0].tracks[1].lyrics, "lyrics2");
}

#[test]
fn rename_refused_outside_the_tree() {
    let mut db = sample();
    assert!(!db.rename(&Selection::Artist { artist: 3 }, "x"));
    assert!(!db.rename(&Selection::Album { artist: 0, album: 9 }, "x"));
    assert!(!db.rename(&Selection::Track { artist: 0, album: 0, track: 2 }, "x"));
    assert!(!db.is_dirty());
    assert_eq!(db.entries()[0].name, "A");
}

#[test]
fn set_lyrics_marks_dirty() {
    let mut db = sample();
    assert!(db.set_lyrics(&Selection::Track { artist: 0, album: 0, track: 0 }, "new words"));
    assert!(db.is_dirty());
    assert_eq!(db.entries()[0].albums[0].tracks[0].lyrics, "new words");
    assert_eq!(db.entries()[0].albums[0].tracks[0].title, "T1");
}

#[test]
fn set_lyrics_refused_off_tracks() {
    let mut db = sample();
    assert!(!db.set_lyrics(&Selection::Artist { artist: 0 }, "x"));
    assert!(!db.set_lyrics(&Selection::Album { artist: 0, album: 0 }, "x"));
    assert!(!db.is_dirty());
}

#[test]
fn successful_save_cleans_failed_save_does_not() {
    let mut db = sample();
    db.add_artist();
    assert!(db.is_dirty());
    // A save attempt whose write failed must leave the tracker dirty.
    db.finish_save(false);
    assert!(db.is_dirty());
    // A successful write clears it.
    db.finish_save(true);
    assert!(!db.is_dirty());
    // A failed save after a clean state stays clean: nothing changed.
    db.finish_save(false);
    assert!(!db.is_dirty());
}

#[test]
fn add_track_refused_at_depth_one_and_two() {
    let mut db = sample();
    let before = db.to_document();
    assert!(!db.add_track(&Selection::Artist { artist: 0 }));
    assert!(!db.add_track(&Selection::Album { artist: 0, album: 0 }));
    assert!(!db.add_track(&Selection::Track { artist: 0, album: 0, track: 5 }));
    assert!(!db.is_dirty());
    assert_eq!(db.to_document(), before);
}

#[test]
fn save_round_trips_through_document_text() {
    let mut db = Database::empty();
    db.add_artist();
    assert!(db.rename(&Selection::Artist { artist: 0 }, "Name\nwith\\marks"));
    let doc = db.to_document();
    let back = Database::from_document(&doc).expect("own document must decode");
    assert_eq!(back.entries(), db.entries());
    assert!(!back.is_dirty());
}

#[test]
fn title_at_every_depth() {
    let db = sample();
    assert_eq!(db.title_at(&Selection::Artist { artist: 0 }).unwrap(), "A");
    assert_eq!(db.title_at(&Selection::Album { artist: 0, album: 0 }).unwrap(), "B");
    assert_eq!(db.title_at(&Selection::Track { artist: 0, album: 0, track: 1 }).unwrap(), "T2");
    assert!(db.title_at(&Selection::Artist { artist: 1 }).is_none());
    assert!(db.title_at(&Selection::Track { artist: 0, album: 0, track: 2 }).is_none());
}

#[test]
fn scenario_select_and_append() {
    // One artist "A" with one album "B" holding ("T1","lyrics1"), ("T2","lyrics2").
    let mut db = sample();
    let t2 = Selection::Track { artist: 0, album: 0, track: 1 };
    assert_eq!(db.lyrics_at(&t2).expect("depth-3 selection shows lyrics"), "lyrics2");
    assert!(db.lyrics_at(&Selection::Album { artist: 0, album: 0 }).is_none());
    assert!(db.lyrics_at(&Selection::Artist { artist: 0 }).is_none());

    assert!(db.add_track(&t2));
    let tracks = &db.entries()[0].albums[0].tracks;
    assert_eq!(tracks.len(), 3);
    assert_eq!(tracks[2].title, "");
    assert_eq!(tracks[2].lyrics, "");
    assert_eq!(tracks[0].title, "T1");
    assert_eq!(tracks[1].title, "T2");
    assert!(db.is_dirty());
}
