//! Tracks, their tag data, and the loose string comparison used to match
//! artist, album and genre names.
use vstd::prelude::*;

use crate::queue::QueueType;
use crate::text::{
    char_is_ascii_punctuation, char_is_whitespace, chars_of, is_ascii_punct, is_white_space,
    lowercase, push_char, split_any, split_chars, split_pat, split_str, to_lowercase, views,
};

verus! {

/// One track of the library.
///
/// `len` is the track's length as its tag gives it; the tag stores a whole
/// number, so an integer holds it exactly.
#[derive(Debug)]
pub struct Track {
    pub file: String,
    pub title: String,
    pub album: String,
    pub artists: Vec<String>,
    pub genre: Vec<String>,
    pub year: String,
    pub len: u32,
}

/// Two tracks hold the same values.
pub open spec fn same_track(a: Track, b: Track) -> bool {
    &&& a.file == b.file
    &&& a.title == b.title
    &&& a.album == b.album
    &&& a.artists@ == b.artists@
    &&& a.genre@ == b.genre@
    &&& a.year == b.year
    &&& a.len == b.len
}

impl Clone for Track {
    fn clone(&self) -> (r: Self)
        ensures
            same_track(r, *self),
    {
        let artists = self.artists.clone();
        let genre = self.genre.clone();
        proof {
            assert(artists@ =~= self.artists@);
            assert(genre@ =~= self.genre@);
        }
        Track {
            file: self.file.clone(),
            title: self.title.clone(),
            album: self.album.clone(),
            artists,
            genre,
            year: self.year.clone(),
            len: self.len,
        }
    }
}

/// The title that an empty track shows.
pub open spec fn no_track_title() -> Seq<char> {
    seq!['N', 'o', ' ', 'T', 'r', 'a', 'c', 'k', ' ', 'S', 'e', 'l', 'e', 'c', 't', 'e', 'd']
}

impl Default for Track {
    fn default() -> (r: Self)
        ensures
            r.file@ == Seq::<char>::empty(),
            r.title@ == no_track_title(),
            r.album@ == Seq::<char>::empty(),
            r.artists@.len() == 0,
            r.genre@.len() == 0,
            r.year@ == Seq::<char>::empty(),
            r.len == 100,
    {
        let title = String::from_str("No Track Selected");
        proof {
            reveal_strlit("No Track Selected");
        }
        Track {
            file: String::new(),
            title,
            album: String::new(),
            artists: Vec::new(),
            genre: Vec::new(),
            year: String::new(),
            len: 100,
        }
    }
}

/// A character that survives stripping: neither white space nor ASCII punctuation.
pub open spec fn is_kept(c: char) -> bool {
    !(is_white_space(c) || is_ascii_punct(c))
}

/// The characters of `s` that survive stripping, in order.
pub open spec fn kept_chars(s: Seq<char>) -> Seq<char>
    decreases s.len(),
{
    if s.len() == 0 {
        Seq::<char>::empty()
    } else if is_kept(s.last()) {
        kept_chars(s.drop_last()).push(s.last())
    } else {
        kept_chars(s.drop_last())
    }
}

/// `s` without white space and ASCII punctuation, lower-cased.
pub open spec fn stripped(s: Seq<char>) -> Seq<char> {
    lowercase(kept_chars(s))
}

/// Two names are similar when they are equal once stripped.
pub open spec fn is_similar(a: Seq<char>, b: Seq<char>) -> bool {
    stripped(a) == stripped(b)
}

/// Removes white space and ASCII punctuation from `s`, then lower-cases it.
pub fn strip_unnessecary(s: &str) -> (r: String)
    ensures
        r@ == stripped(s@),
{
    let v = chars_of(s);
    let mut kept = String::new();
    let mut i: usize = 0;
    while i < v.len()
        invariant
            i <= v.len(),
            v@ == s@,
            kept@ == kept_chars(v@.take(i as int)),
        decreases v.len() - i,
    {
        let c = v[i];
        let blank = char_is_whitespace(c);
        let punct = char_is_ascii_punctuation(c);
        proof {
            assert(v@.take(i + 1).drop_last() =~= v@.take(i as int));
            assert(v@.take(i + 1).last() == c);
        }
        if !(blank || punct) {
            push_char(&mut kept, c);
        }
        i += 1;
    }
    assert(v@.take(v.len() as int) =~= v@);
    to_lowercase(kept.as_str())
}

/// Whether two names are equal once stripped of white space and ASCII
/// punctuation and lower-cased.
pub fn similar(str1: &str, str2: &str) -> (r: bool)
    ensures
        r == is_similar(str1@, str2@),
{
    let a = strip_unnessecary(str1);
    let b = strip_unnessecary(str2);
    a == b
}

/// Similarity is reflexive.
pub proof fn lemma_similar_reflexive(a: Seq<char>)
    ensures
        is_similar(a, a),
{
}

/// Similarity is symmetric.
pub proof fn lemma_similar_symmetric(a: Seq<char>, b: Seq<char>)
    requires
        is_similar(a, b),
    ensures
        is_similar(b, a),
{
}

/// Similarity is transitive.
pub proof fn lemma_similar_transitive(a: Seq<char>, b: Seq<char>, c: Seq<char>)
    requires
        is_similar(a, b),
        is_similar(b, c),
    ensures
        is_similar(a, c),
{
}

/// Names that differ only in white space and ASCII punctuation are similar.
pub proof fn lemma_similar_ignores_blanks_and_punctuation(a: Seq<char>, b: Seq<char>)
    requires
        kept_chars(a) == kept_chars(b),
    ensures
        is_similar(a, b),
{
}

/// Whether some element of `names` is similar to `target`.
pub open spec fn any_similar(names: Seq<String>, target: Seq<char>) -> bool {
    exists|i: int| 0 <= i < names.len() && is_similar(names[i]@, target)
}

/// Whether a track belongs to a queue of the given type.
pub open spec fn track_matches(t: Track, q: QueueType) -> bool {
    match q {
        QueueType::AllTracks => true,
        QueueType::Artist(a) => any_similar(t.artists@, a@),
        QueueType::Album(a) => is_similar(a@, t.album@),
        _ => false,
    }
}

/// A track belongs to every all-tracks queue; to an artist queue exactly
/// when one of its artists equals the queue's artist once both are
/// stripped; and to an album queue exactly when its album equals the
/// queue's album once both are stripped.
pub proof fn lemma_matches_by_stripped_names(t: Track, q: QueueType)
    ensures
        q is AllTracks ==> track_matches(t, q),
        q matches QueueType::Artist(a) ==> (track_matches(t, q) <==> exists|i: int|
            0 <= i < t.artists.len() && stripped(#[trigger] t.artists@[i]@) == stripped(a@)),
        q matches QueueType::Album(a) ==> (track_matches(t, q) <==> stripped(t.album@) == stripped(a@)),
{
    if let QueueType::Artist(a) = q {
        if track_matches(t, q) {
            let i = choose|i: int| 0 <= i < t.artists.len() && is_similar(t.artists@[i]@, a@);
            assert(stripped(t.artists@[i]@) == stripped(a@));
        }
        if exists|i: int| 0 <= i < t.artists.len() && stripped(#[trigger] t.artists@[i]@) == stripped(a@) {
            let i = choose|i: int| 0 <= i < t.artists.len() && stripped(#[trigger] t.artists@[i]@) == stripped(a@);
            assert(is_similar(t.artists@[i]@, a@));
        }
    }
}

impl Track {
    /// Whether this track belongs to a queue of the given type.
    pub fn matches(&self, queue_type: QueueType) -> (r: bool)
        requires
            queue_type.is_supported(),
        ensures
            r == track_matches(*self, queue_type),
    {
        self.matches_type(&queue_type)
    }

    /// Whether this track belongs to a queue of the given type.
    pub fn matches_type(&self, queue_type: &QueueType) -> (r: bool)
        requires
            queue_type.is_supported(),
        ensures
            r == track_matches(*self, *queue_type),
    {
        match queue_type {
            QueueType::AllTracks => true,
            QueueType::Artist(target_artist) => {
                let mut i: usize = 0;
                while i < self.artists.len()
                    invariant
                        i <= self.artists.len(),
                        track_matches(*self, *queue_type) == any_similar(self.artists@, target_artist@),
                        forall|k: int| 0 <= k < i ==> !is_similar(self.artists@[k]@, target_artist@),
                    decreases self.artists.len() - i,
                {
                    if similar(self.artists[i].as_str(), target_artist.as_str()) {
                        assert(is_similar(self.artists@[i as int]@, target_artist@));
                        return true;
                    }
                    i += 1;
                }
                false
            },
            QueueType::Album(album) => similar(album.as_str(), self.album.as_str()),
            _ => false,
        }
    }
}

/// The numeric side of a track: the indices of its genres, its artist and tempo.
#[derive(Debug)]
pub struct TrackInfo {
    pub genres: Vec<usize>,
    pub artist: usize,
    pub bpm: i32,
}

/// A user-defined text frame of a tag.
#[derive(Debug)]
pub struct ExtendedText {
    pub description: String,
    pub value: String,
}

/// The fields of a track's tag that loading reads.
#[derive(Debug)]
pub struct TagData {
    pub title: Option<String>,
    pub artist: Option<String>,
    pub album: Option<String>,
    pub genre: Option<String>,
    pub duration: Option<u32>,
    pub date: Option<String>,
    pub extended_texts: Vec<ExtendedText>,
}

/// The description of the frame that lists a track's artists.
pub open spec fn artists_key() -> Seq<char> {
    seq!['A', 'R', 'T', 'I', 'S', 'T', 'S']
}

/// The separator between several values of one frame.
pub open spec fn nul_sep() -> Seq<char> {
    seq!['\0']
}

/// The non-empty pieces of `s`, in order.
pub open spec fn non_empty(s: Seq<Seq<char>>) -> Seq<Seq<char>>
    decreases s.len(),
{
    if s.len() == 0 {
        Seq::<Seq<char>>::empty()
    } else if s.last().len() > 0 {
        non_empty(s.drop_last()).push(s.last())
    } else {
        non_empty(s.drop_last())
    }
}

/// The first extended text frame described `ARTISTS`, if any.
pub open spec fn first_artists_frame(texts: Seq<ExtendedText>) -> Option<int> {
    if exists|k: int| 0 <= k < texts.len() && texts[k].description@ == artists_key() {
        Some(choose|k: int| 0 <= k < texts.len() && texts[k].description@ == artists_key()
            && forall|j: int| 0 <= j < k ==> texts[j].description@ != artists_key())
    } else {
        None
    }
}

/// The artists that a tag lists in its `ARTISTS` frame.
pub open spec fn tag_artists(tag: TagData) -> Option<Seq<Seq<char>>> {
    match first_artists_frame(tag.extended_texts@) {
        Some(k) => Some(non_empty(split_pat(tag.extended_texts@[k].value@, nul_sep()))),
        None => None,
    }
}

/// The artists listed by the first `ARTISTS` extended text frame, split at
/// NUL characters, empty names left out; `None` when there is no such frame.
pub fn get_artists(tag: &TagData) -> (r: Option<Vec<String>>)
    ensures
        match r {
            Some(v) => tag_artists(*tag) == Some(views(v@)),
            None => tag_artists(*tag) is None,
        },
{
    let key = String::from_str("ARTISTS");
    let sep = String::from_str("\0");
    proof {
        reveal_strlit("ARTISTS");
        reveal_strlit("\0");
        assert(key@ =~= artists_key());
        assert(sep@ =~= nul_sep());
    }
    let texts = &tag.extended_texts;
    let mut k: usize = 0;
    while k < texts.len()
        invariant
            k <= texts.len(),
            key@ == artists_key(),
            sep@ == nul_sep(),
            texts == &tag.extended_texts,
            forall|j: int| 0 <= j < k ==> texts@[j].description@ != artists_key(),
        decreases texts.len() - k,
    {
        if texts[k].description == key {
            let pieces = split_str(texts[k].value.as_str(), sep.as_str());
            let mut out: Vec<String> = Vec::new();
            let mut i: usize = 0;
            while i < pieces.len()
                invariant
                    i <= pieces.len(),
                    views(out@) == non_empty(views(pieces@).take(i as int)),
                decreases pieces.len() - i,
            {
                proof {
                    assert(views(pieces@).take(i + 1).drop_last() =~= views(pieces@).take(i as int));
                }
                if pieces[i].as_str().unicode_len() > 0 {
                    let ghost before = views(out@);
                    out.push(pieces[i].clone());
                    assert(views(out@) =~= before.push(pieces@[i as int]@));
                }
                i += 1;
            }
            proof {
                assert(views(pieces@).take(pieces.len() as int) =~= views(pieces@));
                let ks = first_artists_frame(tag.extended_texts@);
                assert(texts@[k as int].description@ == artists_key());
                let c = choose|c: int| 0 <= c < texts@.len() && texts@[c].description@ == artists_key()
                    && forall|j: int| 0 <= j < c ==> texts@[j].description@ != artists_key();
                assert(c == k) by {
                    if c < k {
                    } else if c > k {
                    }
                }
            }
            return Some(out);
        }
        k += 1;
    }
    None
}

/// The track that a tag describes.
pub open spec fn track_from_tag(tag: TagData) -> (Seq<char>, Seq<Seq<char>>, Seq<char>, Seq<Seq<char>>, Seq<char>, u32) {
    let title = match tag.title { Some(t) => t@, None => Seq::<char>::empty() };
    let artists = match tag_artists(tag) {
        Some(a) => a,
        None => seq![match tag.artist { Some(a) => a@, None => Seq::<char>::empty() }],
    };
    let album = match tag.album { Some(a) => a@, None => Seq::<char>::empty() };
    let genre = split_chars(match tag.genre { Some(g) => g@, None => Seq::<char>::empty() }, nul_sep());
    let year = match tag.date { Some(d) => d@, None => Seq::<char>::empty() };
    let len = match tag.duration { Some(d) => d, None => 1u32 };
    (title, artists, album, genre, year, len)
}

/// The string held by an optional field, or the empty string.
fn field_or_empty(f: &Option<String>) -> (r: String)
    ensures
        r@ == match f { Some(t) => t@, None => Seq::<char>::empty() },
{
    match f {
        Some(t) => t.clone(),
        None => String::new(),
    }
}

/// Builds a track from the file it was read from and its tag: missing text
/// fields become empty, a missing length becomes 1, the genre field is split
/// at NUL characters, and the artists come from the `ARTISTS` frame when there
/// is one, else from the artist field.
pub fn load_track(file: String, tag: &TagData) -> (r: Track)
    ensures
        r.file == file,
        (r.title@, views(r.artists@), r.album@, views(r.genre@), r.year@, r.len) == track_from_tag(*tag),
{
    let title = field_or_empty(&tag.title);
    let artists = match get_artists(tag) {
        Some(a) => a,
        None => {
            let a = field_or_empty(&tag.artist);
            let mut v: Vec<String> = Vec::new();
            v.push(a);
            v
        },
    };
    let album = field_or_empty(&tag.album);
    let g = field_or_empty(&tag.genre);
    let mut seps: Vec<char> = Vec::new();
    seps.push('\0');
    let genre = split_any(g.as_str(), &seps);
    let year = field_or_empty(&tag.date);
    let len = match tag.duration {
        Some(d) => d,
        None => 1,
    };
    proof {
        assert(seps@ =~= nul_sep());
        if tag_artists(*tag) is None {
            assert(views(artists@) =~= seq![match tag.artist { Some(a) => a@, None => Seq::<char>::empty() }]);
        }
    }
    Track { file, title, artists, album, genre, year, len }
}

} // verus!
