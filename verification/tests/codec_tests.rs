use lyricdb::codec::{decode, encode, DecodeError, FieldKind};
use lyricdb::model::{Album, Artist, Library, Track};

fn track(title: &str, lyrics: &str) -> Track {
    Track { title: title.to_owned(), lyrics: lyrics.to_owned() }
}

fn album(title: &str, tracks: Vec<Track>) -> Album {
    Album { title: title.to_owned(), tracks }
}

fn artist(name: &str, albums: Vec<Album>) -> Artist {
    Artist { name: name.to_owned(), albums }
}

#[test]
fn encode_empty_library_is_empty_document() {
    let lib = Library { artists: vec![] };
    assert_eq!(encode(&lib), "");
}

#[test]
fn decode_empty_document_is_empty_library() {
    let lib = decode("").expect("empty document must decode");
    assert_eq!(lib.artists.len(), 0);
}

#[test]
fn encode_exact_document() {
    let lib = Library {
        artists: vec![artist(
            "A",
            vec![album("B", vec![track("T1", "lyrics1"), track("T2", "lyrics2")])],
        )],
    };
    assert_eq!(encode(&lib), "AA\nBB\nTT1\nLlyrics1\nTT2\nLlyrics2\n");
}

#[test]
fn encode_escapes_backslash_and_newline() {
    let lib = Library { artists: vec![artist("a\\b\nc", vec![])] };
    assert_eq!(encode(&lib), "Aa\\\\b\\nc\n");
}

#[test]
fn encode_is_deterministic() {
    let lib = Library {
        artists: vec![artist("x", vec![album("y", vec![track("z", "l")])])],
    };
    assert_eq!(encode(&lib), encode(&lib));
}

#[test]
fn round_trip_plain() {
    let lib = Library {
        artists: vec![
            artist("Alpha", vec![album("First", vec![track("One", "la la"), track("Two", "")])]),
            artist("Beta", vec![]),
            artist("Gamma", vec![album("Empty", vec![])]),
        ],
    };
    let back = decode(&encode(&lib)).expect("round trip must decode");
    assert_eq!(back, lib);
}

#[test]
fn round_trip_markup_significant_text() {
    let lib = Library {
        artists: vec![artist(
            "a\\b\nc",
            vec![album(
                "\\n",
                vec![track("\n\n", "line one\nline two\\end"), track("", "")],
            )],
        )],
    };
    let back = decode(&encode(&lib)).expect("round trip must decode");
    assert_eq!(back, lib);
}

#[test]
fn round_trip_empty_titles_and_lyrics() {
    let lib = Library {
        artists: vec![artist("", vec![album("", vec![track("", "")])])],
    };
    let back = decode(&encode(&lib)).expect("round trip must decode");
    assert_eq!(back, lib);
}

#[test]
fn decode_preserves_document_order() {
    let doc = "Ax\nAy\nAz\n";
    let lib = decode(doc).expect("must decode");
    assert_eq!(lib.artists.len(), 3);
    assert_eq!(lib.artists[0].name, "x");
    assert_eq!(lib.artists[1].name, "y");
    assert_eq!(lib.artists[2].name, "z");
}

#[test]
fn decode_nested_order() {
    let doc = "Aa\nBb1\nTt1\nL1\nTt2\nL2\nBb2\nTt3\nL3\n";
    let lib = decode(doc).expect("must decode");
    assert_eq!(lib.artists.len(), 1);
    let albums = &lib.artists[0].albums;
    assert_eq!(albums.len(), 2);
    assert_eq!(albums[0].title, "b1");
    assert_eq!(albums[1].title, "b2");
    assert_eq!(albums[0].tracks.len(), 2);
    assert_eq!(albums[0].tracks[0].title, "t1");
    assert_eq!(albums[0].tracks[1].title, "t2");
    assert_eq!(albums[1].tracks[0].lyrics, "3");
}

#[test]
fn decode_unknown_tag_is_malformed() {
    assert_eq!(decode("Qx\n"), Err(DecodeError::Malformed));
}

#[test]
fn decode_empty_line_is_malformed() {
    assert_eq!(decode("\n"), Err(DecodeError::Malformed));
}

#[test]
fn decode_unterminated_line_is_malformed() {
    assert_eq!(decode("Aa"), Err(DecodeError::Malformed));
}

#[test]
fn decode_album_without_artist_is_malformed() {
    assert_eq!(decode("Bb\n"), Err(DecodeError::Malformed));
}

#[test]
fn decode_track_without_album_is_malformed() {
    assert_eq!(decode("Aa\nTt\n"), Err(DecodeError::Malformed));
}

#[test]
fn decode_trailing_backslash_is_malformed() {
    assert_eq!(decode("Aa\\\n"), Err(DecodeError::Malformed));
}

#[test]
fn decode_bad_escape_is_malformed() {
    assert_eq!(decode("Aa\\x\n"), Err(DecodeError::Malformed));
}

#[test]
fn decode_title_without_lyrics_is_missing_field() {
    assert_eq!(
        decode("Aa\nBb\nTt\n"),
        Err(DecodeError::MissingField(FieldKind::Lyrics))
    );
}

#[test]
fn decode_title_without_lyrics_at_end_is_missing_field() {
    assert_eq!(
        decode("Aa\nBb\nTt\nAa2\n"),
        Err(DecodeError::MissingField(FieldKind::Lyrics))
    );
}

#[test]
fn decode_lyrics_without_title_is_missing_field() {
    assert_eq!(
        decode("Aa\nBb\nLl\n"),
        Err(DecodeError::MissingField(FieldKind::Title))
    );
}

#[test]
fn encoding_error_is_a_distinct_kind() {
    // Produced by the byte-to-text layer in front of `decode`.
    assert_ne!(DecodeError::Encoding, DecodeError::Malformed);
    assert_ne!(
        DecodeError::Encoding,
        DecodeError::MissingField(FieldKind::Lyrics)
    );
}
