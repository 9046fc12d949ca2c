use vstd::prelude::*;

use crate::model::{Album, AlbumView, Artist, ArtistView, Library, LibraryView, Track, TrackView};

verus! {

/// Which required field of a track record was absent.
#[derive(Debug, Clone, Copy, PartialEq, Eq)]
pub enum FieldKind {
    Title,
    Lyrics,
}

/// Why a document could not be decoded. Decoding is all-or-nothing:
/// on any of these the caller receives no library value.
#[derive(Debug, Clone, Copy, PartialEq, Eq)]
pub enum DecodeError {
    /// The document does not follow the record grammar at all.
    Malformed,
    /// A track record lacks its title or its lyrics line.
    MissingField(FieldKind),
    /// The stored bytes are not valid text. Produced by the layer that
    /// turns bytes into text, before `decode` is reached.
    Encoding,
}

// ---------------------------------------------------------------------------
// The document grammar, stated mathematically.
//
// A library is stored as one line per record, every line terminated by a
// newline. The first character of a line is the record tag: 'A' opens an
// artist, 'B' opens an album under the last artist, 'T' gives a track title
// under the last album, and 'L' gives that track's lyrics and must follow its
// 'T' line immediately. The rest of the line is the text, with '\\' written
// as "\\\\" and a newline written as "\\n", so a payload never contains a
// raw newline.
// ---------------------------------------------------------------------------

/// The escaped form of one payload character.
pub open spec fn esc_char(c: char) -> Seq<char> {
    if c == '\\' {
        seq!['\\', '\\']
    } else if c == '\n' {
        seq!['\\', 'n']
    } else {
        seq![c]
    }
}

/// The escaped form of a payload text.
pub open spec fn esc_text(s: Seq<char>) -> Seq<char>
    decreases s.len(),
{
    if s.len() == 0 {
        Seq::empty()
    } else {
        esc_char(s[0]) + esc_text(s.drop_first())
    }
}

/// One whole record line: tag, escaped payload, terminating newline.
pub open spec fn enc_record(tag: char, text: Seq<char>) -> Seq<char> {
    seq![tag] + esc_text(text) + seq!['\n']
}

/// The document form of one track: its title line then its lyrics line.
pub open spec fn enc_track(t: TrackView) -> Seq<char> {
    enc_record('T', t.title) + enc_record('L', t.lyrics)
}

pub open spec fn enc_tracks(ts: Seq<TrackView>) -> Seq<char>
    decreases ts.len(),
{
    if ts.len() == 0 {
        Seq::empty()
    } else {
        enc_track(ts[0]) + enc_tracks(ts.drop_first())
    }
}

/// The document form of one album: its title line then its tracks.
pub open spec fn enc_album(a: AlbumView) -> Seq<char> {
    enc_record('B', a.title) + enc_tracks(a.tracks)
}

pub open spec fn enc_albums(aa: Seq<AlbumView>) -> Seq<char>
    decreases aa.len(),
{
    if aa.len() == 0 {
        Seq::empty()
    } else {
        enc_album(aa[0]) + enc_albums(aa.drop_first())
    }
}

/// The document form of one artist: its name line then its albums.
pub open spec fn enc_artist(a: ArtistView) -> Seq<char> {
    enc_record('A', a.name) + enc_albums(a.albums)
}

pub open spec fn enc_artists(aa: Seq<ArtistView>) -> Seq<char>
    decreases aa.len(),
{
    if aa.len() == 0 {
        Seq::empty()
    } else {
        enc_artist(aa[0]) + enc_artists(aa.drop_first())
    }
}

/// The document form of a whole library.
pub open spec fn enc_library(l: LibraryView) -> Seq<char> {
    enc_artists(l.artists)
}

// ---------------------------------------------------------------------------
// Small facts about the encoding, used by the encoder's loops.
// ---------------------------------------------------------------------------

proof fn lemma_esc_text_push(s: Seq<char>, c: char)
    ensures
        esc_text(s.push(c)) == esc_text(s) + esc_char(c),
    decreases s.len(),
{
    if s.len() == 0 {
        assert(s.push(c)[0] == c);
        assert(s.push(c).drop_first() =~= Seq::<char>::empty());
        assert(esc_text(Seq::<char>::empty()) == Seq::<char>::empty());
        assert(esc_text(s.push(c)) == esc_char(c) + Seq::<char>::empty());
        assert(esc_text(s.push(c)) =~= esc_text(s) + esc_char(c));
    } else {
        let s2 = s.drop_first();
        assert(s.push(c).drop_first() =~= s2.push(c));
        lemma_esc_text_push(s2, c);
        assert(s.push(c)[0] == s[0]);
        assert(esc_text(s.push(c)) == esc_char(s[0]) + (esc_text(s2) + esc_char(c)));
        assert(esc_text(s) == esc_char(s[0]) + esc_text(s2));
        assert(esc_text(s.push(c)) =~= esc_text(s) + esc_char(c));
    }
}

proof fn lemma_enc_tracks_push(ts: Seq<TrackView>, t: TrackView)
    ensures
        enc_tracks(ts.push(t)) == enc_tracks(ts) + enc_track(t),
    decreases ts.len(),
{
    if ts.len() == 0 {
        assert(ts.push(t)[0] == t);
        assert(ts.push(t).drop_first() =~= Seq::<TrackView>::empty());
        assert(enc_tracks(Seq::<TrackView>::empty()) == Seq::<char>::empty());
        assert(enc_tracks(ts.push(t)) == enc_track(t) + Seq::<char>::empty());
        assert(enc_tracks(ts.push(t)) =~= enc_tracks(ts) + enc_track(t));
    } else {
        let ts2 = ts.drop_first();
        assert(ts.push(t).drop_first() =~= ts2.push(t));
        lemma_enc_tracks_push(ts2, t);
        assert(ts.push(t)[0] == ts[0]);
        assert(enc_tracks(ts.push(t)) == enc_track(ts[0]) + (enc_tracks(ts2) + enc_track(t)));
        assert(enc_tracks(ts) == enc_track(ts[0]) + enc_tracks(ts2));
        assert(enc_tracks(ts.push(t)) =~= enc_tracks(ts) + enc_track(t));
    }
}

proof fn lemma_enc_albums_push(aa: Seq<AlbumView>, a: AlbumView)
    ensures
        enc_albums(aa.push(a)) == enc_albums(aa) + enc_album(a),
    decreases aa.len(),
{
    if aa.len() == 0 {
        assert(aa.push(a)[0] == a);
        assert(aa.push(a).drop_first() =~= Seq::<AlbumView>::empty());
        assert(enc_albums(Seq::<AlbumView>::empty()) == Seq::<char>::empty());
        assert(enc_albums(aa.push(a)) == enc_album(a) + Seq::<char>::empty());
        assert(enc_albums(aa.push(a)) =~= enc_albums(aa) + enc_album(a));
    } else {
        let aa2 = aa.drop_first();
        assert(aa.push(a).drop_first() =~= aa2.push(a));
        lemma_enc_albums_push(aa2, a);
        assert(aa.push(a)[0] == aa[0]);
        assert(enc_albums(aa.push(a)) == enc_album(aa[0]) + (enc_albums(aa2) + enc_album(a)));
        assert(enc_albums(aa) == enc_album(aa[0]) + enc_albums(aa2));
        assert(enc_albums(aa.push(a)) =~= enc_albums(aa) + enc_album(a));
    }
}

proof fn lemma_enc_artists_push(aa: Seq<ArtistView>, a: ArtistView)
    ensures
        enc_artists(aa.push(a)) == enc_artists(aa) + enc_artist(a),
    decreases aa.len(),
{
    if aa.len() == 0 {
        assert(aa.push(a)[0] == a);
        assert(aa.push(a).drop_first() =~= Seq::<ArtistView>::empty());
        assert(enc_artists(Seq::<ArtistView>::empty()) == Seq::<char>::empty());
        assert(enc_artists(aa.push(a)) == enc_artist(a) + Seq::<char>::empty());
        assert(enc_artists(aa.push(a)) =~= enc_artists(aa) + enc_artist(a));
    } else {
        let aa2 = aa.drop_first();
        assert(aa.push(a).drop_first() =~= aa2.push(a));
        lemma_enc_artists_push(aa2, a);
        assert(aa.push(a)[0] == aa[0]);
        assert(enc_artists(aa.push(a)) == enc_artist(aa[0]) + (enc_artists(aa2) + enc_artist(a)));
        assert(enc_artists(aa) == enc_artist(aa[0]) + enc_artists(aa2));
        assert(enc_artists(aa.push(a)) =~= enc_artists(aa) + enc_artist(a));
    }
}

// ---------------------------------------------------------------------------
// The round-trip law: decoding the encoding of any library value yields
// exactly that value. Proved at the bottom of this file as
// `lemma_round_trip`, with `lemma_encode_injective` as its consequence.
// ---------------------------------------------------------------------------

// ---------------------------------------------------------------------------
// The decoder's meaning, stated mathematically: a fold over the document's
// characters that gathers the current line, and a transition per finished
// line. `spec_parse` pins down the decoded value and the error, both.
// ---------------------------------------------------------------------------

/// Undoes `esc_text`. `None` when the text is not a valid escaping
/// (a lone trailing '\\', or '\\' followed by anything but '\\' or 'n').
pub open spec fn unesc_text(s: Seq<char>) -> Option<Seq<char>>
    decreases s.len(),
{
    if s.len() == 0 {
        Some(Seq::empty())
    } else if s[0] == '\\' {
        if s.len() < 2 {
            None
        } else if s[1] == '\\' || s[1] == 'n' {
            match unesc_text(s.skip(2)) {
                None => None,
                Some(t) => Some(seq![if s[1] == '\\' { '\\' } else { '\n' }] + t),
            }
        } else {
            None
        }
    } else {
        match unesc_text(s.drop_first()) {
            None => None,
            Some(t) => Some(seq![s[0]] + t),
        }
    }
}

/// Whether a track can be opened: there is a last artist with a last album.
pub open spec fn has_open_album(artists: Seq<ArtistView>) -> bool {
    artists.len() > 0 && artists.last().albums.len() > 0
}

/// The given artists with a fresh empty album appended under the last artist.
pub open spec fn push_album_last(artists: Seq<ArtistView>, title: Seq<char>) -> Seq<ArtistView> {
    let i = artists.len() - 1;
    artists.update(
        i,
        ArtistView {
            name: artists[i].name,
            albums: artists[i].albums.push(AlbumView { title, tracks: Seq::empty() }),
        },
    )
}

/// The given artists with a track appended under the last album of the
/// last artist.
pub open spec fn push_track_last(
    artists: Seq<ArtistView>,
    title: Seq<char>,
    lyrics: Seq<char>,
) -> Seq<ArtistView> {
    let i = artists.len() - 1;
    let ar = artists[i];
    let j = ar.albums.len() - 1;
    let al = ar.albums[j];
    artists.update(
        i,
        ArtistView {
            name: ar.name,
            albums: ar.albums.update(
                j,
                AlbumView { title: al.title, tracks: al.tracks.push(TrackView { title, lyrics }) },
            ),
        },
    )
}

/// What one finished record line does to the decoding state: the artists
/// built so far and a pending track title waiting for its lyrics line.
pub open spec fn step_line(
    line: Seq<char>,
    artists: Seq<ArtistView>,
    pending: Option<Seq<char>>,
) -> Result<(Seq<ArtistView>, Option<Seq<char>>), DecodeError> {
    if line.len() == 0 {
        Err(DecodeError::Malformed)
    } else {
        match unesc_text(line.drop_first()) {
            None => Err(DecodeError::Malformed),
            Some(p) => {
                let tag = line[0];
                if tag == 'L' {
                    match pending {
                        None => Err(DecodeError::MissingField(FieldKind::Title)),
                        Some(t) => Ok((push_track_last(artists, t, p), None)),
                    }
                } else if pending is Some {
                    Err(DecodeError::MissingField(FieldKind::Lyrics))
                } else if tag == 'A' {
                    Ok((artists.push(ArtistView { name: p, albums: Seq::empty() }), None))
                } else if tag == 'B' {
                    if artists.len() == 0 {
                        Err(DecodeError::Malformed)
                    } else {
                        Ok((push_album_last(artists, p), None))
                    }
                } else if tag == 'T' {
                    if !has_open_album(artists) {
                        Err(DecodeError::Malformed)
                    } else {
                        Ok((artists, Some(p)))
                    }
                } else {
                    Err(DecodeError::Malformed)
                }
            },
        }
    }
}

/// The decoding of document text `s`, started with `line` gathered of the
/// current record, `artists` built so far and `pending` an unfinished track.
pub open spec fn parse_doc(
    s: Seq<char>,
    line: Seq<char>,
    artists: Seq<ArtistView>,
    pending: Option<Seq<char>>,
) -> Result<LibraryView, DecodeError>
    decreases s.len(),
{
    if s.len() == 0 {
        if line.len() > 0 {
            Err(DecodeError::Malformed)
        } else if pending is Some {
            Err(DecodeError::MissingField(FieldKind::Lyrics))
        } else {
            Ok(LibraryView { artists })
        }
    } else if s[0] == '\n' {
        match step_line(line, artists, pending) {
            Err(e) => Err(e),
            Ok(st) => parse_doc(s.drop_first(), Seq::empty(), st.0, st.1),
        }
    } else {
        parse_doc(s.drop_first(), line.push(s[0]), artists, pending)
    }
}

/// The meaning of decoding a whole document.
pub open spec fn spec_parse(s: Seq<char>) -> Result<LibraryView, DecodeError> {
    parse_doc(s, Seq::empty(), Seq::empty(), None)
}

// ---------------------------------------------------------------------------
// The decoder.
// ---------------------------------------------------------------------------

/// Undoes the payload escaping, reading `line` from position `from` on.
fn unescape(line: &Vec<char>, from: usize) -> (r: Option<Vec<char>>)
    requires
        from <= line@.len(),
    ensures
        match r {
            Some(v) => unesc_text(line@.skip(from as int)) == Some(v@),
            None => unesc_text(line@.skip(from as int)) == None::<Seq<char>>,
        },
{
    let n = line.len();
    let mut out: Vec<char> = Vec::new();
    let mut k: usize = from;
    proof {
        assert(out@ =~= Seq::<char>::empty());
    }
    while k < n
        invariant
            n == line@.len(),
            from <= k <= n,
            match unesc_text(line@.skip(k as int)) {
                Some(t) => unesc_text(line@.skip(from as int)) == Some(out@ + t),
                None => unesc_text(line@.skip(from as int)) == None::<Seq<char>>,
            },
        decreases n - k,
    {
        let c = line[k];
        proof {
            assert(line@.skip(k as int)[0] == line@[k as int]);
        }
        if c == '\\' {
            if k + 1 == n {
                proof {
                    assert(line@.skip(k as int).len() == 1);
                    assert(unesc_text(line@.skip(k as int)) == None::<Seq<char>>);
                }
                return None;
            }
            let c2 = line[k + 1];
            proof {
                assert(line@.skip(k as int)[1] == line@[k + 1]);
                assert(line@.skip(k as int).skip(2) =~= line@.skip(k + 2));
            }
            if c2 == '\\' {
                out.push('\\');
            } else if c2 == 'n' {
                out.push('\n');
            } else {
                proof {
                    assert(unesc_text(line@.skip(k as int)) == None::<Seq<char>>);
                }
                return None;
            }
            proof {
                let d = if line@[k + 1] == '\\' {
                    '\\'
                } else {
                    '\n'
                };
                assert(match unesc_text(line@.skip(k + 2)) {
                    Some(t) => unesc_text(line@.skip(k as int)) == Some(seq![d] + t),
                    None => unesc_text(line@.skip(k as int)) == None::<Seq<char>>,
                });
                assert(forall|t: Seq<char>| out@ + t =~= out@.drop_last() + (seq![d] + t));
            }
            k += 2;
        } else {
            out.push(c);
            proof {
                assert(line@.skip(k as int).drop_first() =~= line@.skip(k + 1));
                assert(forall|t: Seq<char>|
                    out@ + t =~= out@.drop_last() + (seq![line@[k as int]] + t));
            }
            k += 1;
        }
    }
    proof {
        assert(line@.skip(n as int) =~= Seq::<char>::empty());
        assert(unesc_text(Seq::<char>::empty()) == Some(Seq::<char>::empty()));
        assert(out@ + Seq::<char>::empty() =~= out@);
    }
    Some(out)
}

/// Applies one finished record line to the decoding state, exactly as
/// `step_line` says.
fn apply_line(line: &Vec<char>, artists: &mut Vec<Artist>, pending: &mut Option<String>) -> (r:
    Result<(), DecodeError>)
    requires
        old(pending).deep_view() is Some ==> has_open_album(old(artists).deep_view()),
    ensures
        match r {
            Ok(()) => step_line(line@, old(artists).deep_view(), old(pending).deep_view())
                == Ok::<(Seq<ArtistView>, Option<Seq<char>>), DecodeError>(
                (final(artists).deep_view(), final(pending).deep_view()),
            ),
            Err(e) => step_line(line@, old(artists).deep_view(), old(pending).deep_view())
                == Err::<(Seq<ArtistView>, Option<Seq<char>>), DecodeError>(e),
        },
        final(pending).deep_view() is Some ==> has_open_album(final(artists).deep_view()),
{
    if line.len() == 0 {
        return Err(DecodeError::Malformed);
    }
    let tag = line[0];
    let payload = match unescape(line, 1) {
        None => {
            proof {
                assert(line@.skip(1) =~= line@.drop_first());
            }
            return Err(DecodeError::Malformed);
        },
        Some(p) => p,
    };
    proof {
        assert(line@.skip(1) =~= line@.drop_first());
    }
    let ptext = string_from_chars(payload);
    let ghost pdv = ptext@;
    if tag == 'L' {
        let title = match pending {
            None => {
                return Err(DecodeError::MissingField(FieldKind::Title));
            },
            Some(t) => t.clone(),
        };
        let ghost tdv = title@;
        *pending = None;
        let ghost old_dv = artists.deep_view();
        let mut ar = artists.pop().unwrap();
        let mut al = ar.albums.pop().unwrap();
        al.tracks.push(Track { title, lyrics: ptext });
        ar.albums.push(al);
        artists.push(ar);
        proof {
            let i = old_dv.len() - 1;
            let oar = old_dv[i];
            let j = oar.albums.len() - 1;
            assert(al.tracks.deep_view() =~~= oar.albums[j].tracks.push(
                TrackView { title: tdv, lyrics: pdv },
            ));
            assert(ar.albums.deep_view() =~~= oar.albums.update(
                j,
                AlbumView { title: oar.albums[j].title, tracks: al.tracks.deep_view() },
            ));
            assert(artists.deep_view() =~~= push_track_last(old_dv, tdv, pdv));
        }
        Ok(())
    } else if pending.is_some() {
        Err(DecodeError::MissingField(FieldKind::Lyrics))
    } else if tag == 'A' {
        artists.push(Artist { name: ptext, albums: Vec::new() });
        proof {
            assert(artists.deep_view() =~~= old(artists).deep_view().push(
                ArtistView { name: pdv, albums: Seq::empty() },
            ));
        }
        Ok(())
    } else if tag == 'B' {
        if artists.len() == 0 {
            return Err(DecodeError::Malformed);
        }
        let ghost old_dv = artists.deep_view();
        let mut ar = artists.pop().unwrap();
        ar.albums.push(Album { title: ptext, tracks: Vec::new() });
        artists.push(ar);
        proof {
            let i = old_dv.len() - 1;
            assert(ar.albums.deep_view() =~~= old_dv[i].albums.push(
                AlbumView { title: pdv, tracks: Seq::empty() },
            ));
            assert(artists.deep_view() =~~= push_album_last(old_dv, pdv));
        }
        Ok(())
    } else if tag == 'T' {
        let la = artists.len();
        if la == 0 {
            return Err(DecodeError::Malformed);
        }
        if artists[la - 1].albums.len() == 0 {
            return Err(DecodeError::Malformed);
        }
        *pending = Some(ptext);
        proof {
            assert(has_open_album(artists.deep_view()));
        }
        Ok(())
    } else {
        Err(DecodeError::Malformed)
    }
}

/// Parses a document into a library, or says exactly why it cannot.
/// Decoding is all-or-nothing: on an error no library value is produced.
/// Together with `lemma_round_trip` this means that on any text `encode`
/// produced, the encoded library comes back exactly.
pub fn decode(input: &str) -> (r: Result<Library, DecodeError>)
    ensures
        match r {
            Ok(lib) => spec_parse(input@) == Ok::<LibraryView, DecodeError>(lib.deep_view()),
            Err(e) => spec_parse(input@) == Err::<LibraryView, DecodeError>(e),
        },
{
    let cs = chars_of(input);
    let n = cs.len();
    let mut artists: Vec<Artist> = Vec::new();
    let mut pending: Option<String> = None;
    let mut line: Vec<char> = Vec::new();
    let mut i: usize = 0;
    proof {
        assert(input@.skip(0) =~= input@);
        assert(artists.deep_view() =~= Seq::<ArtistView>::empty());
        assert(line@ =~= Seq::<char>::empty());
    }
    while i < n
        invariant
            cs@ == input@,
            n == cs@.len(),
            i <= n,
            pending.deep_view() is Some ==> has_open_album(artists.deep_view()),
            parse_doc(input@.skip(i as int), line@, artists.deep_view(), pending.deep_view())
                == spec_parse(input@),
        decreases n - i,
    {
        let c = cs[i];
        proof {
            assert(input@.skip(i as int)[0] == input@[i as int]);
            assert(input@.skip(i as int).drop_first() =~= input@.skip(i + 1));
        }
        if c == '\n' {
            match apply_line(&line, &mut artists, &mut pending) {
                Err(e) => {
                    return Err(e);
                },
                Ok(()) => {},
            }
            line = Vec::new();
            proof {
                assert(line@ =~= Seq::<char>::empty());
            }
        } else {
            line.push(c);
        }
        i += 1;
    }
    proof {
        assert(input@.skip(n as int) =~= Seq::<char>::empty());
    }
    if line.len() > 0 {
        return Err(DecodeError::Malformed);
    }
    if pending.is_some() {
        return Err(DecodeError::MissingField(FieldKind::Lyrics));
    }
    let lib = Library { artists };
    proof {
        assert(lib.deep_view() =~~= LibraryView { artists: lib.artists.deep_view() });
    }
    Ok(lib)
}

// ---------------------------------------------------------------------------
// The encoder.
// ---------------------------------------------------------------------------

/// Relies on `String` implementing `FromIterator<char>`: collecting an
/// iterator of chars yields the string of exactly those chars in order.
#[verifier::external_body]
fn string_from_chars(v: Vec<char>) -> (r: String)
    ensures
        r@ == v@,
{
    v.into_iter().collect()
}

/// The characters of a text, as a vector.
fn chars_of(s: &str) -> (r: Vec<char>)
    ensures
        r@ == s@,
{
    let n = s.unicode_len();
    let mut r: Vec<char> = Vec::new();
    let mut i: usize = 0;
    while i < n
        invariant
            n == s@.len(),
            i <= n,
            r@ == s@.take(i as int),
        decreases n - i,
    {
        r.push(s.get_char(i));
        proof {
            assert(s@.take(i + 1) =~= s@.take(i as int).push(s@[i as int]));
        }
        i += 1;
    }
    proof {
        assert(s@.take(n as int) =~= s@);
    }
    r
}

/// Appends the escaped form of `s` to `out`.
fn push_escaped(out: &mut Vec<char>, s: &str)
    ensures
        final(out)@ == old(out)@ + esc_text(s@),
{
    let cs = chars_of(s);
    let n = cs.len();
    let mut i: usize = 0;
    proof {
        assert(out@ =~= old(out)@ + esc_text(s@.take(0)));
    }
    while i < n
        invariant
            cs@ == s@,
            n == s@.len(),
            i <= n,
            out@ == old(out)@ + esc_text(s@.take(i as int)),
        decreases n - i,
    {
        let c = cs[i];
        if c == '\\' {
            out.push('\\');
            out.push('\\');
        } else if c == '\n' {
            out.push('\\');
            out.push('n');
        } else {
            out.push(c);
        }
        proof {
            lemma_esc_text_push(s@.take(i as int), s@[i as int]);
            assert(s@.take(i + 1) =~= s@.take(i as int).push(s@[i as int]));
            assert(out@ =~= old(out)@ + esc_text(s@.take(i + 1)));
        }
        i += 1;
    }
    proof {
        assert(s@.take(n as int) =~= s@);
    }
}

/// Appends one whole record line to `out`.
fn push_record(out: &mut Vec<char>, tag: char, text: &str)
    ensures
        final(out)@ == old(out)@ + enc_record(tag, text@),
{
    out.push(tag);
    push_escaped(out, text);
    out.push('\n');
    proof {
        assert(out@ =~= old(out)@ + enc_record(tag, text@));
    }
}

/// Appends the document form of one track to `out`.
fn encode_track(out: &mut Vec<char>, t: &Track)
    ensures
        final(out)@ == old(out)@ + enc_track(t.deep_view()),
{
    push_record(out, 'T', t.title.as_str());
    push_record(out, 'L', t.lyrics.as_str());
    proof {
        assert(out@ =~= old(out)@ + enc_track(t.deep_view()));
    }
}

/// Appends the document form of one album to `out`.
fn encode_album(out: &mut Vec<char>, a: &Album)
    ensures
        final(out)@ == old(out)@ + enc_album(a.deep_view()),
{
    push_record(out, 'B', a.title.as_str());
    let n = a.tracks.len();
    let mut j: usize = 0;
    proof {
        assert(a.tracks.deep_view().take(0) =~= Seq::<TrackView>::empty());
        assert(out@ =~= old(out)@ + enc_record('B', a.title@) + enc_tracks(
            a.tracks.deep_view().take(0),
        ));
    }
    while j < n
        invariant
            n == a.tracks@.len(),
            j <= n,
            out@ == old(out)@ + enc_record('B', a.title@) + enc_tracks(
                a.tracks.deep_view().take(j as int),
            ),
        decreases n - j,
    {
        encode_track(out, &a.tracks[j]);
        proof {
            let dv = a.tracks.deep_view();
            lemma_enc_tracks_push(dv.take(j as int), dv[j as int]);
            assert(dv.take(j + 1) =~= dv.take(j as int).push(dv[j as int]));
            assert(out@ =~= old(out)@ + enc_record('B', a.title@) + enc_tracks(dv.take(j + 1)));
        }
        j += 1;
    }
    proof {
        assert(a.tracks.deep_view().take(n as int) =~= a.tracks.deep_view());
        assert(out@ =~= old(out)@ + enc_album(a.deep_view()));
    }
}

/// Appends the document form of one artist to `out`.
fn encode_artist(out: &mut Vec<char>, a: &Artist)
    ensures
        final(out)@ == old(out)@ + enc_artist(a.deep_view()),
{
    push_record(out, 'A', a.name.as_str());
    let n = a.albums.len();
    let mut j: usize = 0;
    proof {
        assert(a.albums.deep_view().take(0) =~= Seq::<AlbumView>::empty());
        assert(out@ =~= old(out)@ + enc_record('A', a.name@) + enc_albums(
            a.albums.deep_view().take(0),
        ));
    }
    while j < n
        invariant
            n == a.albums@.len(),
            j <= n,
            out@ == old(out)@ + enc_record('A', a.name@) + enc_albums(
                a.albums.deep_view().take(j as int),
            ),
        decreases n - j,
    {
        encode_album(out, &a.albums[j]);
        proof {
            let dv = a.albums.deep_view();
            lemma_enc_albums_push(dv.take(j as int), dv[j as int]);
            assert(dv.take(j + 1) =~= dv.take(j as int).push(dv[j as int]));
            assert(out@ =~= old(out)@ + enc_record('A', a.name@) + enc_albums(dv.take(j + 1)));
        }
        j += 1;
    }
    proof {
        assert(a.albums.deep_view().take(n as int) =~= a.albums.deep_view());
        assert(out@ =~= old(out)@ + enc_artist(a.deep_view()));
    }
}

/// Serializes a library into its document text. Deterministic: the result
/// is a pure function of the library's value, and it never fails.
pub fn encode(lib: &Library) -> (r: String)
    ensures
        r@ == enc_library(lib.deep_view()),
{
    let mut out: Vec<char> = Vec::new();
    let n = lib.artists.len();
    let mut i: usize = 0;
    proof {
        assert(lib.artists.deep_view().take(0) =~= Seq::<ArtistView>::empty());
        assert(out@ =~= enc_artists(lib.artists.deep_view().take(0)));
    }
    while i < n
        invariant
            n == lib.artists@.len(),
            i <= n,
            out@ == enc_artists(lib.artists.deep_view().take(i as int)),
        decreases n - i,
    {
        encode_artist(&mut out, &lib.artists[i]);
        proof {
            let dv = lib.artists.deep_view();
            lemma_enc_artists_push(dv.take(i as int), dv[i as int]);
            assert(dv.take(i + 1) =~= dv.take(i as int).push(dv[i as int]));
            assert(out@ =~= enc_artists(dv.take(i + 1)));
        }
        i += 1;
    }
    proof {
        assert(lib.artists.deep_view().take(n as int) =~= lib.artists.deep_view());
    }
    string_from_chars(out)
}

// ---------------------------------------------------------------------------
// The round-trip proof.
// ---------------------------------------------------------------------------

/// An escaped payload never contains a raw newline.
proof fn lemma_esc_no_newline(s: Seq<char>)
    ensures
        forall|i: int| 0 <= i < esc_text(s).len() ==> esc_text(s)[i] != '\n',
    decreases s.len(),
{
    if s.len() == 0 {
    } else {
        lemma_esc_no_newline(s.drop_first());
        let w = esc_char(s[0]);
        let e = esc_text(s.drop_first());
        assert(esc_text(s) == w + e);
        assert forall|i: int| 0 <= i < (w + e).len() implies (w + e)[i] != '\n' by {
            if i < w.len() {
                assert((w + e)[i] == w[i]);
            } else {
                assert((w + e)[i] == e[i - w.len()]);
            }
        }
    }
}

/// Unescaping undoes escaping exactly.
proof fn lemma_unesc_esc(s: Seq<char>)
    ensures
        unesc_text(esc_text(s)) == Some(s),
    decreases s.len(),
{
    if s.len() == 0 {
        assert(esc_text(s) =~= Seq::<char>::empty());
    } else {
        let c = s[0];
        let e = esc_text(s.drop_first());
        lemma_unesc_esc(s.drop_first());
        if c == '\\' || c == '\n' {
            let w = esc_char(c);
            assert(esc_text(s) == w + e);
            assert((w + e).len() >= 2);
            assert((w + e)[0] == '\\');
            assert((w + e)[1] == (if c == '\\' { '\\' } else { 'n' }));
            assert((w + e).skip(2) =~= e);
            assert(unesc_text(esc_text(s)) == Some(seq![c] + s.drop_first()));
            assert(seq![c] + s.drop_first() =~= s);
        } else {
            assert(esc_text(s) == seq![c] + e);
            assert((seq![c] + e)[0] == c);
            assert((seq![c] + e).drop_first() =~= e);
            assert(unesc_text(esc_text(s)) == Some(seq![c] + s.drop_first()));
            assert(seq![c] + s.drop_first() =~= s);
        }
    }
}

/// Feeding one newline-free chunk and its terminating newline into the
/// parser finishes exactly one record line and then goes on with the rest.
proof fn lemma_consume_line(
    p: Seq<char>,
    rest: Seq<char>,
    line: Seq<char>,
    artists: Seq<ArtistView>,
    pending: Option<Seq<char>>,
)
    requires
        forall|i: int| 0 <= i < p.len() ==> p[i] != '\n',
    ensures
        parse_doc(p + seq!['\n'] + rest, line, artists, pending) == match step_line(
            line + p,
            artists,
            pending,
        ) {
            Ok(st) => parse_doc(rest, Seq::empty(), st.0, st.1),
            Err(e) => Err(e),
        },
    decreases p.len(),
{
    let s = p + seq!['\n'] + rest;
    if p.len() == 0 {
        assert(s[0] == '\n');
        assert(s.drop_first() =~= rest);
        assert(line + p =~= line);
    } else {
        assert(s[0] == p[0]);
        assert(p[0] != '\n');
        assert(s.drop_first() =~= p.drop_first() + seq!['\n'] + rest);
        lemma_consume_line(p.drop_first(), rest, line.push(p[0]), artists, pending);
        assert(line.push(p[0]) + p.drop_first() =~= line + p);
    }
}

/// The given artists with the last album's tracks replaced wholesale.
spec fn with_last_tracks(artists: Seq<ArtistView>, ts: Seq<TrackView>) -> Seq<ArtistView> {
    let i = artists.len() - 1;
    let ar = artists[i];
    let j = ar.albums.len() - 1;
    let al = ar.albums[j];
    artists.update(
        i,
        ArtistView {
            name: ar.name,
            albums: ar.albums.update(j, AlbumView { title: al.title, tracks: ts }),
        },
    )
}

/// The given artists with the last artist's albums replaced wholesale.
spec fn with_last_albums(artists: Seq<ArtistView>, aa: Seq<AlbumView>) -> Seq<ArtistView> {
    let i = artists.len() - 1;
    let ar = artists[i];
    artists.update(i, ArtistView { name: ar.name, albums: aa })
}

/// Parsing the encoded tracks `todo` extends the last album's tracks,
/// already holding `done`, by exactly `todo`, then goes on with `rest`.
proof fn lemma_parse_tracks(
    artists: Seq<ArtistView>,
    done: Seq<TrackView>,
    todo: Seq<TrackView>,
    rest: Seq<char>,
)
    requires
        has_open_album(artists),
        artists.last().albums.last().tracks == done,
    ensures
        parse_doc(enc_tracks(todo) + rest, Seq::empty(), artists, None) == parse_doc(
            rest,
            Seq::empty(),
            with_last_tracks(artists, done + todo),
            None,
        ),
    decreases todo.len(),
{
    if todo.len() == 0 {
        assert(enc_tracks(todo) + rest =~= rest);
        assert(done + todo =~= done);
        assert(with_last_tracks(artists, done) =~~= artists);
    } else {
        let t0 = todo[0];
        let p1 = seq!['T'] + esc_text(t0.title);
        let p2 = seq!['L'] + esc_text(t0.lyrics);
        let rest2 = enc_tracks(todo.drop_first()) + rest;
        let rest1 = p2 + seq!['\n'] + rest2;
        lemma_esc_no_newline(t0.title);
        lemma_esc_no_newline(t0.lyrics);
        lemma_unesc_esc(t0.title);
        lemma_unesc_esc(t0.lyrics);
        assert(enc_tracks(todo) + rest =~= p1 + seq!['\n'] + rest1);
        lemma_consume_line(p1, rest1, Seq::empty(), artists, None);
        assert((Seq::empty() + p1) =~= p1);
        assert(p1[0] == 'T');
        assert(p1.drop_first() =~= esc_text(t0.title));
        assert(step_line(p1, artists, None) == Ok::<_, DecodeError>((artists, Some(t0.title))));
        lemma_consume_line(p2, rest2, Seq::empty(), artists, Some(t0.title));
        assert((Seq::empty() + p2) =~= p2);
        assert(p2[0] == 'L');
        assert(p2.drop_first() =~= esc_text(t0.lyrics));
        let artists2 = push_track_last(artists, t0.title, t0.lyrics);
        assert(step_line(p2, artists, Some(t0.title)) == Ok::<_, DecodeError>((artists2, None::<Seq<char>>)));
        assert(artists2.last().albums.last().tracks =~= done.push(t0)) by {
            assert(TrackView { title: t0.title, lyrics: t0.lyrics } =~= t0);
        }
        assert(has_open_album(artists2));
        lemma_parse_tracks(artists2, done.push(t0), todo.drop_first(), rest);
        assert(with_last_tracks(artists2, done.push(t0) + todo.drop_first()) =~~= with_last_tracks(
            artists,
            done + todo,
        )) by {
            assert(done.push(t0) + todo.drop_first() =~= done + todo);
        }
    }
}

/// Parsing the encoded albums `todo` extends the last artist's albums,
/// already holding `done`, by exactly `todo`, then goes on with `rest`.
proof fn lemma_parse_albums(
    artists: Seq<ArtistView>,
    done: Seq<AlbumView>,
    todo: Seq<AlbumView>,
    rest: Seq<char>,
)
    requires
        artists.len() > 0,
        artists.last().albums == done,
    ensures
        parse_doc(enc_albums(todo) + rest, Seq::empty(), artists, None) == parse_doc(
            rest,
            Seq::empty(),
            with_last_albums(artists, done + todo),
            None,
        ),
    decreases todo.len(),
{
    if todo.len() == 0 {
        assert(enc_albums(todo) + rest =~= rest);
        assert(done + todo =~= done);
        assert(with_last_albums(artists, done) =~~= artists);
    } else {
        let a0 = todo[0];
        let p1 = seq!['B'] + esc_text(a0.title);
        let rest1 = enc_tracks(a0.tracks) + (enc_albums(todo.drop_first()) + rest);
        lemma_esc_no_newline(a0.title);
        lemma_unesc_esc(a0.title);
        assert(enc_albums(todo) + rest =~= p1 + seq!['\n'] + rest1);
        lemma_consume_line(p1, rest1, Seq::empty(), artists, None);
        assert((Seq::empty() + p1) =~= p1);
        assert(p1[0] == 'B');
        assert(p1.drop_first() =~= esc_text(a0.title));
        let artists2 = push_album_last(artists, a0.title);
        assert(step_line(p1, artists, None) == Ok::<_, DecodeError>((artists2, None::<Seq<char>>)));
        assert(has_open_album(artists2));
        assert(artists2.last().albums.last().tracks =~= Seq::<TrackView>::empty());
        lemma_parse_tracks(artists2, Seq::empty(), a0.tracks, enc_albums(todo.drop_first()) + rest);
        assert(Seq::<TrackView>::empty() + a0.tracks =~= a0.tracks);
        let artists3 = with_last_tracks(artists2, a0.tracks);
        assert(artists3 =~~= with_last_albums(artists, done.push(a0))) by {
            assert(AlbumView { title: a0.title, tracks: a0.tracks } =~~= a0);
        }
        assert(artists3.len() > 0);
        assert(artists3.last().albums =~~= done.push(a0));
        lemma_parse_albums(artists3, done.push(a0), todo.drop_first(), rest);
        assert(with_last_albums(artists3, done.push(a0) + todo.drop_first()) =~~= with_last_albums(
            artists,
            done + todo,
        )) by {
            assert(done.push(a0) + todo.drop_first() =~= done + todo);
        }
    }
}

/// Parsing the encoded artists `todo` appends exactly them after `done`,
/// then goes on with `rest`.
proof fn lemma_parse_artists(done: Seq<ArtistView>, todo: Seq<ArtistView>, rest: Seq<char>)
    ensures
        parse_doc(enc_artists(todo) + rest, Seq::empty(), done, None) == parse_doc(
            rest,
            Seq::empty(),
            done + todo,
            None,
        ),
    decreases todo.len(),
{
    if todo.len() == 0 {
        assert(enc_artists(todo) + rest =~= rest);
        assert(done + todo =~= done);
    } else {
        let a0 = todo[0];
        let p1 = seq!['A'] + esc_text(a0.name);
        let rest1 = enc_albums(a0.albums) + (enc_artists(todo.drop_first()) + rest);
        lemma_esc_no_newline(a0.name);
        lemma_unesc_esc(a0.name);
        assert(enc_artists(todo) + rest =~= p1 + seq!['\n'] + rest1);
        lemma_consume_line(p1, rest1, Seq::empty(), done, None);
        assert((Seq::empty() + p1) =~= p1);
        assert(p1[0] == 'A');
        assert(p1.drop_first() =~= esc_text(a0.name));
        let artists2 = done.push(ArtistView { name: a0.name, albums: Seq::empty() });
        assert(step_line(p1, done, None) == Ok::<_, DecodeError>((artists2, None::<Seq<char>>)));
        assert(artists2.last().albums =~= Seq::<AlbumView>::empty());
        lemma_parse_albums(artists2, Seq::empty(), a0.albums, enc_artists(todo.drop_first()) + rest);
        assert(Seq::<AlbumView>::empty() + a0.albums =~= a0.albums);
        let artists3 = with_last_albums(artists2, a0.albums);
        assert(artists3 =~~= done.push(a0)) by {
            assert(ArtistView { name: a0.name, albums: a0.albums } =~~= a0);
        }
        lemma_parse_artists(done.push(a0), todo.drop_first(), rest);
        assert(done.push(a0) + todo.drop_first() =~= done + todo);
    }
}

/// The round-trip law: decoding the encoding of any library value — the
/// empty library, empty titles, empty lyrics, text full of backslashes and
/// newlines alike — yields exactly that value.
pub proof fn lemma_round_trip(l: LibraryView)
    ensures
        spec_parse(enc_library(l)) == Ok::<LibraryView, DecodeError>(l),
{
    lemma_parse_artists(Seq::empty(), l.artists, Seq::empty());
    assert(enc_artists(l.artists) + Seq::<char>::empty() =~= enc_library(l));
    assert(Seq::<ArtistView>::empty() + l.artists =~= l.artists);
    assert(parse_doc(Seq::<char>::empty(), Seq::<char>::empty(), l.artists, None::<Seq<char>>)
        == Ok::<LibraryView, DecodeError>(LibraryView { artists: l.artists }));
    assert(LibraryView { artists: l.artists } =~~= l);
}

/// Encoding is injective: distinct library values have distinct documents.
pub proof fn lemma_encode_injective(a: LibraryView, b: LibraryView)
    requires
        enc_library(a) == enc_library(b),
    ensures
        a == b,
{
    lemma_round_trip(a);
    lemma_round_trip(b);
}

proof fn lemma_enc_artists_concat(x: Seq<ArtistView>, y: Seq<ArtistView>)
    ensures
        enc_artists(x + y) == enc_artists(x) + enc_artists(y),
    decreases x.len(),
{
    if x.len() == 0 {
        assert(x + y =~= y);
        assert(enc_artists(x) =~= Seq::<char>::empty());
        assert(enc_artists(x) + enc_artists(y) =~= enc_artists(y));
    } else {
        assert((x + y)[0] == x[0]);
        assert((x + y).drop_first() =~= x.drop_first() + y);
        lemma_enc_artists_concat(x.drop_first(), y);
        assert(enc_artists(x + y) == enc_artist(x[0]) + (enc_artists(x.drop_first())
            + enc_artists(y)));
        assert(enc_artists(x) == enc_artist(x[0]) + enc_artists(x.drop_first()));
        assert(enc_artists(x + y) =~= enc_artists(x) + enc_artists(y));
    }
}

/// Order preservation under concatenation: a document formed of one
/// library's document followed by another's decodes to the first
/// library's artists followed by the second's, in that order.
pub proof fn lemma_document_concat(a: LibraryView, b: LibraryView)
    ensures
        spec_parse(enc_library(a) + enc_library(b)) == Ok::<LibraryView, DecodeError>(
            LibraryView { artists: a.artists + b.artists },
        ),
{
    lemma_enc_artists_concat(a.artists, b.artists);
    lemma_round_trip(LibraryView { artists: a.artists + b.artists });
}

} // verus!

