//! Searching the library by name prefix, ignoring case, white space and
//! ASCII punctuation.
use vstd::prelude::*;

use crate::text::{begins_with, starts_with, views};
use crate::track::{strip_unnessecary, stripped, Track};

verus! {

/// A name matches a cleaned search when the stripped name begins with it.
pub open spec fn name_matches(name: Seq<char>, clean: Seq<char>) -> bool {
    begins_with(stripped(name), clean)
}

/// The entries of `tracks` whose track title matches `clean`, in order.
pub open spec fn tracks_matching(tracks: Seq<usize>, all_tracks: Seq<Track>, clean: Seq<char>) -> Seq<usize>
    decreases tracks.len(),
{
    if tracks.len() == 0 {
        Seq::<usize>::empty()
    } else if name_matches(all_tracks[tracks.last() as int].title@, clean) {
        tracks_matching(tracks.drop_last(), all_tracks, clean).push(tracks.last())
    } else {
        tracks_matching(tracks.drop_last(), all_tracks, clean)
    }
}

/// The names of `names` that match `clean`, in order.
pub open spec fn names_matching(names: Seq<Seq<char>>, clean: Seq<char>) -> Seq<Seq<char>>
    decreases names.len(),
{
    if names.len() == 0 {
        Seq::<Seq<char>>::empty()
    } else if name_matches(names.last(), clean) {
        names_matching(names.drop_last(), clean).push(names.last())
    } else {
        names_matching(names.drop_last(), clean)
    }
}

/// The numbers `0..n`.
pub open spec fn all_indices(n: nat) -> Seq<usize> {
    Seq::new(n, |i: int| i as usize)
}

/// Of the tracks listed in `tracks`, those whose title matches `search`;
/// nothing when the search is empty once stripped.
pub fn search_tracks(tracks: &Vec<usize>, all_tracks: &Vec<Track>, search: &str) -> (r: Vec<usize>)
    requires
        stripped(search@).len() > 0 ==> forall|k: int| 0 <= k < tracks.len() ==> #[trigger] tracks@[k] < all_tracks.len(),
    ensures
        r@ == if stripped(search@).len() == 0 {
            Seq::<usize>::empty()
        } else {
            tracks_matching(tracks@, all_tracks@, stripped(search@))
        },
{
    let clean = strip_unnessecary(search);
    let mut out: Vec<usize> = Vec::new();
    if clean.as_str().unicode_len() == 0 {
        return out;
    }
    let mut i: usize = 0;
    while i < tracks.len()
        invariant
            i <= tracks.len(),
            clean@ == stripped(search@),
            forall|k: int| 0 <= k < tracks.len() ==> #[trigger] tracks@[k] < all_tracks.len(),
            out@ == tracks_matching(tracks@.take(i as int), all_tracks@, clean@),
        decreases tracks.len() - i,
    {
        proof {
            assert(tracks@.take(i + 1).drop_last() =~= tracks@.take(i as int));
            assert(tracks@.take(i + 1).last() == tracks@[i as int]);
        }
        let t = tracks[i];
        let title = strip_unnessecary(all_tracks[t].title.as_str());
        if starts_with(title.as_str(), clean.as_str()) {
            out.push(t);
        }
        i += 1;
    }
    assert(tracks@.take(tracks.len() as int) =~= tracks@);
    out
}

/// The tracks of the whole library whose title matches `search`, in library
/// order; nothing when the search is empty once stripped.
pub fn search_library(all_tracks: &Vec<Track>, search: &str) -> (r: Vec<usize>)
    ensures
        r@ == if stripped(search@).len() == 0 {
            Seq::<usize>::empty()
        } else {
            tracks_matching(all_indices(all_tracks.len() as nat), all_tracks@, stripped(search@))
        },
{
    let mut every: Vec<usize> = Vec::new();
    let mut i: usize = 0;
    while i < all_tracks.len()
        invariant
            i <= all_tracks.len(),
            every@ == all_indices(i as nat),
        decreases all_tracks.len() - i,
    {
        every.push(i);
        i += 1;
        assert(every@ =~= all_indices(i as nat));
    }
    search_tracks(&every, all_tracks, search)
}

/// The names that match `search`, in order; nothing when the search is
/// empty once stripped.
pub fn search_names(names: &Vec<String>, search: &str) -> (r: Vec<String>)
    ensures
        views(r@) == if stripped(search@).len() == 0 {
            Seq::<Seq<char>>::empty()
        } else {
            names_matching(views(names@), stripped(search@))
        },
{
    let clean = strip_unnessecary(search);
    let mut out: Vec<String> = Vec::new();
    if clean.as_str().unicode_len() == 0 {
        assert(views(out@) =~= Seq::<Seq<char>>::empty());
        return out;
    }
    let mut i: usize = 0;
    while i < names.len()
        invariant
            i <= names.len(),
            clean@ == stripped(search@),
            views(out@) == names_matching(views(names@).take(i as int), clean@),
        decreases names.len() - i,
    {
        proof {
            assert(views(names@).take(i + 1).drop_last() =~= views(names@).take(i as int));
            assert(views(names@).take(i + 1).last() == names@[i as int]@);
        }
        let stripped_name = strip_unnessecary(names[i].as_str());
        if starts_with(stripped_name.as_str(), clean.as_str()) {
            let ghost before = views(out@);
            out.push(names[i].clone());
            assert(views(out@) =~= before.push(names@[i as int]@));
        }
        i += 1;
    }
    assert(views(names@).take(names.len() as int) =~= views(names@));
    out
}

/// Every name that does not strip to nothing is found by searching for the
/// name itself.
pub proof fn lemma_name_finds_itself(names: Seq<Seq<char>>, n: Seq<char>)
    requires
        names.contains(n),
        stripped(n).len() > 0,
    ensures
        names_matching(names, stripped(n)).contains(n),
    decreases names.len(),
{
    let clean = stripped(n);
    assert(begins_with(stripped(n), clean)) by {
        assert(stripped(n).subrange(0, clean.len() as int) =~= clean);
    }
    let init = names.drop_last();
    if names.last() == n {
        let m = names_matching(names, clean);
        assert(m == names_matching(init, clean).push(n));
        assert(m[m.len() - 1] == n);
    } else {
        let k = choose|k: int| 0 <= k < names.len() && names[k] == n;
        assert(init[k] == n);
        lemma_name_finds_itself(init, n);
        let before = names_matching(init, clean);
        let w = choose|w: int| 0 <= w < before.len() && before[w] == n;
        if name_matches(names.last(), clean) {
            assert(names_matching(names, clean)[w] == n);
        } else {
            assert(names_matching(names, clean) == before);
        }
    }
}

/// A listed track is kept by `tracks_matching` exactly when its stripped
/// title begins with `clean`.
proof fn lemma_tracks_matching_contains(tracks: Seq<usize>, all_tracks: Seq<Track>, clean: Seq<char>, x: usize)
    ensures
        tracks_matching(tracks, all_tracks, clean).contains(x)
            <==> (tracks.contains(x) && begins_with(stripped(all_tracks[x as int].title@), clean)),
    decreases tracks.len(),
{
    if tracks.len() > 0 {
        let init = tracks.drop_last();
        lemma_tracks_matching_contains(init, all_tracks, clean, x);
        let w = tracks_matching(init, all_tracks, clean);
        let v = tracks_matching(tracks, all_tracks, clean);
        if tracks.contains(x) {
            let j = choose|j: int| 0 <= j < tracks.len() && tracks[j] == x;
            if j < init.len() {
                assert(init[j] == x);
            }
        }
        if init.contains(x) {
            let j = choose|j: int| 0 <= j < init.len() && init[j] == x;
            assert(tracks[j] == x);
        }
        if name_matches(all_tracks[tracks.last() as int].title@, clean) {
            if v.contains(x) {
                let j = choose|j: int| 0 <= j < v.len() && v[j] == x;
                if j < w.len() {
                    assert(w[j] == x);
                }
            }
            if w.contains(x) {
                let j = choose|j: int| 0 <= j < w.len() && w[j] == x;
                assert(v[j] == x);
            }
            if x == tracks.last() {
                assert(v[w.len() as int] == x);
            }
        }
    }
}

/// A search finds a listed track exactly when the search does not strip to
/// nothing and the track's stripped title begins with the stripped search.
pub proof fn lemma_search_tracks_finds(tracks: Seq<usize>, all_tracks: Seq<Track>, search: Seq<char>, r: Seq<usize>, x: usize)
    requires
        r == if stripped(search).len() == 0 {
            Seq::<usize>::empty()
        } else {
            tracks_matching(tracks, all_tracks, stripped(search))
        },
    ensures
        r.contains(x) <==> (stripped(search).len() > 0 && tracks.contains(x)
            && begins_with(stripped(all_tracks[x as int].title@), stripped(search))),
{
    if stripped(search).len() > 0 {
        lemma_tracks_matching_contains(tracks, all_tracks, stripped(search), x);
    }
}

/// A search of the whole library finds track `k` exactly when the search
/// does not strip to nothing and the track's stripped title begins with the
/// stripped search; in particular every track whose title does not strip to
/// nothing is found by searching for its own title.
pub proof fn lemma_search_library_finds(all_tracks: Seq<Track>, search: Seq<char>, r: Seq<usize>, k: int)
    requires
        r == if stripped(search).len() == 0 {
            Seq::<usize>::empty()
        } else {
            tracks_matching(all_indices(all_tracks.len()), all_tracks, stripped(search))
        },
        all_tracks.len() <= usize::MAX,
        0 <= k < all_tracks.len(),
    ensures
        r.contains(k as usize) <==> (stripped(search).len() > 0
            && begins_with(stripped(all_tracks[k].title@), stripped(search))),
        search == all_tracks[k].title@ && stripped(search).len() > 0 ==> r.contains(k as usize),
{
    let every = all_indices(all_tracks.len());
    assert(every[k] == k as usize);
    assert(every.contains(k as usize));
    lemma_search_tracks_finds(every, all_tracks, search, r, k as usize);
    let clean = stripped(search);
    assert(begins_with(clean, clean)) by {
        assert(clean.subrange(0, clean.len() as int) =~= clean);
    }
}

/// A name is found by a search exactly when it is listed, the search does
/// not strip to nothing, and the stripped name begins with the stripped
/// search.
pub proof fn lemma_search_names_finds(names: Seq<Seq<char>>, search: Seq<char>, r: Seq<Seq<char>>, n: Seq<char>)
    requires
        r == if stripped(search).len() == 0 {
            Seq::<Seq<char>>::empty()
        } else {
            names_matching(names, stripped(search))
        },
    ensures
        r.contains(n) <==> (stripped(search).len() > 0 && names.contains(n)
            && begins_with(stripped(n), stripped(search))),
{
    if stripped(search).len() > 0 {
        lemma_names_matching_contains(names, stripped(search), n);
    }
}

proof fn lemma_names_matching_contains(names: Seq<Seq<char>>, clean: Seq<char>, n: Seq<char>)
    ensures
        names_matching(names, clean).contains(n) <==> (names.contains(n) && begins_with(stripped(n), clean)),
    decreases names.len(),
{
    if names.len() > 0 {
        let init = names.drop_last();
        lemma_names_matching_contains(init, clean, n);
        let w = names_matching(init, clean);
        let v = names_matching(names, clean);
        if names.contains(n) {
            let j = choose|j: int| 0 <= j < names.len() && names[j] == n;
            if j < init.len() {
                assert(init[j] == n);
            }
        }
        if init.contains(n) {
            let j = choose|j: int| 0 <= j < init.len() && init[j] == n;
            assert(names[j] == n);
        }
        if name_matches(names.last(), clean) {
            if v.contains(n) {
                let j = choose|j: int| 0 <= j < v.len() && v[j] == n;
                if j < w.len() {
                    assert(w[j] == n);
                }
            }
            if w.contains(n) {
                let j = choose|j: int| 0 <= j < w.len() && w[j] == n;
                assert(v[j] == n);
            }
            if n == names.last() {
                assert(v[w.len() as int] == n);
            }
        }
    }
}

} // verus!
