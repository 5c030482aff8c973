//! Library maintenance: bulk edits of artist and title tags, and the
//! checks that pick out tracks whose tags need attention.
use vstd::prelude::*;

use crate::queue::{contains_name, indices_where, lemma_indices_where_contains};
use crate::text::{
    ascii_lower, begins_with, chars_of, contains_str, ends_with, finishes_with, has_substring, lowercase,
    lemma_split_chars_nonempty, lemma_split_pat_two, occurs_at, replace, replace_all, split_any,
    push_char, split_chars, split_pat, split_str, string_from,
    to_ascii_lowercase, to_lowercase, trim, trimmed, views,
};
use crate::track::{same_track, Track};

verus! {

/// The trimmed pieces of each string of `xs`, one string after another.
pub open spec fn pieces_of(xs: Seq<Seq<char>>, cut: spec_fn(Seq<char>) -> Seq<Seq<char>>) -> Seq<Seq<char>>
    decreases xs.len(),
{
    if xs.len() == 0 {
        Seq::<Seq<char>>::empty()
    } else {
        pieces_of(xs.drop_last(), cut) + cut(xs.last()).map_values(|p: Seq<char>| trimmed(p))
    }
}

/// `s` without its later repeats, first occurrences kept in order.
pub open spec fn dedup(s: Seq<Seq<char>>) -> Seq<Seq<char>>
    decreases s.len(),
{
    if s.len() == 0 {
        Seq::<Seq<char>>::empty()
    } else if dedup(s.drop_last()).contains(s.last()) {
        dedup(s.drop_last())
    } else {
        dedup(s.drop_last()).push(s.last())
    }
}

/// The characters at which artist names are split first.
pub open spec fn artist_separators() -> Seq<char> {
    seq![',', '&']
}

/// The text `feat.`.
pub open spec fn feat() -> Seq<char> {
    seq!['f', 'e', 'a', 't', '.']
}

/// The text `ft.`.
pub open spec fn ft() -> Seq<char> {
    seq!['f', 't', '.']
}

/// The artists that `split_artists_complete` gives for `artists`.
pub open spec fn split_artist_names(artists: Seq<Seq<char>>) -> Seq<Seq<char>> {
    let by_sep = pieces_of(artists, |a: Seq<char>| split_chars(a, artist_separators()));
    let by_feat = pieces_of(by_sep, |a: Seq<char>| split_pat(a, feat()));
    let by_ft = pieces_of(by_feat, |a: Seq<char>| split_pat(a, ft()));
    dedup(by_ft)
}

/// Splits every string of `list` at the characters of `seps` and trims the pieces.
fn split_all_chars(list: &Vec<String>, seps: &Vec<char>) -> (r: Vec<String>)
    ensures
        views(r@) == pieces_of(views(list@), |a: Seq<char>| split_chars(a, seps@)),
{
    let ghost cut = |a: Seq<char>| split_chars(a, seps@);
    let mut out: Vec<String> = Vec::new();
    let mut i: usize = 0;
    while i < list.len()
        invariant
            i <= list.len(),
            cut == (|a: Seq<char>| split_chars(a, seps@)),
            views(out@) == pieces_of(views(list@).take(i as int), cut),
        decreases list.len() - i,
    {
        let pieces = split_any(list[i].as_str(), seps);
        let ghost before = views(out@);
        push_trimmed(&mut out, &pieces);
        proof {
            assert(views(list@).take(i + 1).drop_last() =~= views(list@).take(i as int));
            assert(views(list@).take(i + 1).last() == list@[i as int]@);
        }
        i += 1;
    }
    assert(views(list@).take(list.len() as int) =~= views(list@));
    out
}

/// Splits every string of `list` at the occurrences of `pat` and trims the pieces.
fn split_all_pat(list: &Vec<String>, pat: &str) -> (r: Vec<String>)
    requires
        pat@.len() > 0,
    ensures
        views(r@) == pieces_of(views(list@), |a: Seq<char>| split_pat(a, pat@)),
{
    let ghost cut = |a: Seq<char>| split_pat(a, pat@);
    let mut out: Vec<String> = Vec::new();
    let mut i: usize = 0;
    while i < list.len()
        invariant
            i <= list.len(),
            pat@.len() > 0,
            cut == (|a: Seq<char>| split_pat(a, pat@)),
            views(out@) == pieces_of(views(list@).take(i as int), cut),
        decreases list.len() - i,
    {
        let pieces = split_str(list[i].as_str(), pat);
        push_trimmed(&mut out, &pieces);
        proof {
            assert(views(list@).take(i + 1).drop_last() =~= views(list@).take(i as int));
            assert(views(list@).take(i + 1).last() == list@[i as int]@);
        }
        i += 1;
    }
    assert(views(list@).take(list.len() as int) =~= views(list@));
    out
}

/// Appends the trimmed `pieces` to `out`.
fn push_trimmed(out: &mut Vec<String>, pieces: &Vec<String>)
    ensures
        views(final(out)@) == views(old(out)@) + views(pieces@).map_values(|p: Seq<char>| trimmed(p)),
{
    let ghost start = views(out@);
    let mut j: usize = 0;
    while j < pieces.len()
        invariant
            j <= pieces.len(),
            views(out@) == start + views(pieces@).take(j as int).map_values(|p: Seq<char>| trimmed(p)),
        decreases pieces.len() - j,
    {
        let t = trim(pieces[j].as_str());
        let ghost before = views(out@);
        out.push(t);
        proof {
            assert(views(out@) =~= before.push(trimmed(pieces@[j as int]@)));
            assert(views(pieces@).take(j + 1).map_values(|p: Seq<char>| trimmed(p))
                =~= views(pieces@).take(j as int).map_values(|p: Seq<char>| trimmed(p)).push(trimmed(pieces@[j as int]@)));
        }
        j += 1;
    }
    assert(views(pieces@).take(pieces.len() as int) =~= views(pieces@));
}

/// Splits up artist names that hold several artists: at commas and
/// ampersands, then at `feat.`, then at `ft.`, trimming every piece, and
/// keeps the first occurrence of each resulting name.
pub fn split_artists_complete(artists: Vec<String>) -> (r: Vec<String>)
    ensures
        views(r@) == split_artist_names(views(artists@)),
{
    let mut seps: Vec<char> = Vec::new();
    seps.push(',');
    seps.push('&');
    let feat_str = "feat.";
    let ft_str = "ft.";
    proof {
        reveal_strlit("feat.");
        reveal_strlit("ft.");
        assert(seps@ =~= artist_separators());
        assert(feat_str@ =~= feat());
        assert(ft_str@ =~= ft());
    }
    let changed = split_all_chars(&artists, &seps);
    let changed = split_all_pat(&changed, feat_str);
    let changed = split_all_pat(&changed, ft_str);
    proof {
        assert((|a: Seq<char>| split_chars(a, seps@)) =~= (|a: Seq<char>| split_chars(a, artist_separators())));
        assert((|a: Seq<char>| split_pat(a, feat_str@)) =~= (|a: Seq<char>| split_pat(a, feat())));
        assert((|a: Seq<char>| split_pat(a, ft_str@)) =~= (|a: Seq<char>| split_pat(a, ft())));
    }
    let mut no_dups: Vec<String> = Vec::new();
    let mut i: usize = 0;
    while i < changed.len()
        invariant
            i <= changed.len(),
            views(no_dups@) == dedup(views(changed@).take(i as int)),
        decreases changed.len() - i,
    {
        proof {
            assert(views(changed@).take(i + 1).drop_last() =~= views(changed@).take(i as int));
            assert(views(changed@).take(i + 1).last() == changed@[i as int]@);
        }
        if !contains_name(&no_dups, &changed[i]) {
            let ghost before = views(no_dups@);
            no_dups.push(changed[i].clone());
            proof {
                assert(views(no_dups@) =~= before.push(changed@[i as int]@));
            }
        } else {
            proof {
                let k = choose|k: int| 0 <= k < no_dups@.len() && no_dups@[k]@ == changed@[i as int]@;
                assert(views(no_dups@)[k] == changed@[i as int]@);
            }
        }
        i += 1;
    }
    proof {
        assert(views(changed@).take(changed.len() as int) =~= views(changed@));
    }
    no_dups
}

/// No character of `x` belongs to `set`.
pub open spec fn free_of(x: Seq<char>, set: Seq<char>) -> bool {
    forall|j: int| 0 <= j < x.len() ==> !set.contains(#[trigger] x[j])
}

/// Every character of `x` occurs in `s`.
pub open spec fn drawn_from(x: Seq<char>, s: Seq<char>) -> bool {
    forall|j: int| 0 <= j < x.len() ==> s.contains(#[trigger] x[j])
}

proof fn lemma_dedup(s: Seq<Seq<char>>)
    ensures
        dedup(s).no_duplicates(),
        forall|x: Seq<char>| dedup(s).contains(x) <==> s.contains(x),
    decreases s.len(),
{
    if s.len() > 0 {
        let init = s.drop_last();
        let last = s.last();
        lemma_dedup(init);
        let d = dedup(init);
        assert forall|x: Seq<char>| dedup(s).contains(x) <==> s.contains(x) by {
            if s.contains(x) {
                let i = choose|i: int| 0 <= i < s.len() && s[i] == x;
                if i < s.len() - 1 {
                    assert(init[i] == x);
                    assert(init.contains(x));
                    assert(d.contains(x));
                    let w = choose|w: int| 0 <= w < d.len() && d[w] == x;
                    if !d.contains(last) {
                        assert(d.push(last)[w] == x);
                    }
                } else {
                    assert(x == last);
                    if !d.contains(last) {
                        assert(d.push(last)[d.len() as int] == x);
                    }
                }
            }
            if dedup(s).contains(x) {
                let i = choose|i: int| 0 <= i < dedup(s).len() && dedup(s)[i] == x;
                if d.contains(last) {
                    assert(d[i] == x);
                    assert(d.contains(x));
                    assert(init.contains(x));
                    let k = choose|k: int| 0 <= k < init.len() && init[k] == x;
                    assert(s[k] == x);
                } else if i < d.len() {
                    assert(d.push(last)[i] == d[i]);
                    assert(d.contains(x));
                    assert(init.contains(x));
                    let k = choose|k: int| 0 <= k < init.len() && init[k] == x;
                    assert(s[k] == x);
                } else {
                    assert(s[s.len() - 1] == x);
                }
            }
        }
    }
}

proof fn lemma_split_chars_pieces(s: Seq<char>, seps: Seq<char>)
    ensures
        forall|k: int| 0 <= k < split_chars(s, seps).len() ==> {
            &&& free_of(#[trigger] split_chars(s, seps)[k], seps)
            &&& drawn_from(split_chars(s, seps)[k], s)
        },
    decreases s.len(),
{
    if s.len() > 0 {
        let rest = split_chars(s.drop_first(), seps);
        lemma_split_chars_pieces(s.drop_first(), seps);
        crate::text::lemma_split_chars_nonempty(s.drop_first(), seps);
        assert forall|k: int| 0 <= k < split_chars(s, seps).len() implies {
            &&& free_of(#[trigger] split_chars(s, seps)[k], seps)
            &&& drawn_from(split_chars(s, seps)[k], s)
        } by {
            let piece = split_chars(s, seps)[k];
            if seps.contains(s[0]) {
                if k > 0 {
                    assert(piece == rest[k - 1]);
                    assert forall|j: int| 0 <= j < piece.len() implies s.contains(#[trigger] piece[j]) by {
                        let w = choose|w: int| 0 <= w < s.drop_first().len() && s.drop_first()[w] == piece[j];
                        assert(s[w + 1] == piece[j]);
                    }
                }
            } else {
                if k == 0 {
                    assert(piece == seq![s[0]] + rest[0]);
                    assert forall|j: int| 0 <= j < piece.len() implies !seps.contains(#[trigger] piece[j]) && s.contains(piece[j]) by {
                        if j == 0 {
                            assert(s[0] == piece[j]);
                        } else {
                            assert(piece[j] == rest[0][j - 1]);
                            let w = choose|w: int| 0 <= w < s.drop_first().len() && s.drop_first()[w] == rest[0][j - 1];
                            assert(s[w + 1] == piece[j]);
                        }
                    }
                } else {
                    assert(piece == rest[k]);
                    assert forall|j: int| 0 <= j < piece.len() implies s.contains(#[trigger] piece[j]) by {
                        let w = choose|w: int| 0 <= w < s.drop_first().len() && s.drop_first()[w] == piece[j];
                        assert(s[w + 1] == piece[j]);
                    }
                }
            }
        }
    }
}

proof fn lemma_split_pat_pieces(s: Seq<char>, p: Seq<char>)
    ensures
        forall|k: int| 0 <= k < split_pat(s, p).len() ==> drawn_from(#[trigger] split_pat(s, p)[k], s),
    decreases s.len(),
{
    if p.len() > 0 && crate::text::begins_with(s, p) {
        let t = s.skip(p.len() as int);
        lemma_split_pat_pieces(t, p);
        assert forall|k: int| 0 <= k < split_pat(s, p).len() implies drawn_from(#[trigger] split_pat(s, p)[k], s) by {
            if k > 0 {
                let piece = split_pat(t, p)[k - 1];
                assert(split_pat(s, p)[k] == piece);
                assert forall|j: int| 0 <= j < piece.len() implies s.contains(#[trigger] piece[j]) by {
                    let w = choose|w: int| 0 <= w < t.len() && t[w] == piece[j];
                    assert(s[w + p.len()] == piece[j]);
                }
            }
        }
    } else if s.len() > 0 {
        let t = s.drop_first();
        let rest = split_pat(t, p);
        lemma_split_pat_pieces(t, p);
        crate::text::lemma_split_pat_nonempty(t, p);
        assert forall|k: int| 0 <= k < split_pat(s, p).len() implies drawn_from(#[trigger] split_pat(s, p)[k], s) by {
            let piece = split_pat(s, p)[k];
            assert forall|j: int| 0 <= j < piece.len() implies s.contains(#[trigger] piece[j]) by {
                if k == 0 && j == 0 {
                    assert(s[0] == piece[j]);
                } else if k == 0 {
                    assert(piece[j] == rest[0][j - 1]);
                    let w = choose|w: int| 0 <= w < t.len() && t[w] == rest[0][j - 1];
                    assert(s[w + 1] == piece[j]);
                } else {
                    assert(piece == rest[k]);
                    let w = choose|w: int| 0 <= w < t.len() && t[w] == piece[j];
                    assert(s[w + 1] == piece[j]);
                }
            }
        }
    }
}

proof fn lemma_trim_start_drawn(s: Seq<char>)
    ensures
        drawn_from(crate::text::trim_start(s), s),
    decreases s.len(),
{
    if s.len() > 0 && crate::text::is_white_space(s[0]) {
        let t = s.drop_first();
        lemma_trim_start_drawn(t);
        let x = crate::text::trim_start(t);
        assert forall|j: int| 0 <= j < x.len() implies s.contains(#[trigger] x[j]) by {
            let w = choose|w: int| 0 <= w < t.len() && t[w] == x[j];
            assert(s[w + 1] == x[j]);
        }
    } else {
        assert forall|j: int| 0 <= j < s.len() implies s.contains(#[trigger] s[j]) by {}
    }
}

proof fn lemma_trim_end_drawn(s: Seq<char>)
    ensures
        drawn_from(crate::text::trim_end(s), s),
    decreases s.len(),
{
    if s.len() > 0 && crate::text::is_white_space(s.last()) {
        let t = s.drop_last();
        lemma_trim_end_drawn(t);
        let x = crate::text::trim_end(t);
        assert forall|j: int| 0 <= j < x.len() implies s.contains(#[trigger] x[j]) by {
            let w = choose|w: int| 0 <= w < t.len() && t[w] == x[j];
            assert(s[w] == x[j]);
        }
    } else {
        assert forall|j: int| 0 <= j < s.len() implies s.contains(#[trigger] s[j]) by {}
    }
}

proof fn lemma_trimmed_drawn(s: Seq<char>)
    ensures
        drawn_from(trimmed(s), s),
{
    lemma_trim_start_drawn(s);
    lemma_trim_end_drawn(crate::text::trim_start(s));
    let a = crate::text::trim_start(s);
    let b = trimmed(s);
    assert forall|j: int| 0 <= j < b.len() implies s.contains(#[trigger] b[j]) by {
        assert(a.contains(b[j]));
        let w = choose|w: int| 0 <= w < a.len() && a[w] == b[j];
        assert(s.contains(a[w]));
    }
}

/// Free pieces stay free when cut by a cut whose pieces draw from their input.
proof fn lemma_pieces_free(xs: Seq<Seq<char>>, cut: spec_fn(Seq<char>) -> Seq<Seq<char>>, set: Seq<char>)
    requires
        forall|a: Seq<char>, k: int| 0 <= k < cut(a).len() ==> drawn_from(#[trigger] cut(a)[k], a) || free_of(cut(a)[k], set),
        forall|i: int| 0 <= i < xs.len() ==> free_of(#[trigger] xs[i], set),
    ensures
        forall|i: int| 0 <= i < pieces_of(xs, cut).len() ==> free_of(#[trigger] pieces_of(xs, cut)[i], set),
    decreases xs.len(),
{
    if xs.len() > 0 {
        let a = xs.last();
        let init = xs.drop_last();
        assert forall|i: int| 0 <= i < init.len() implies free_of(#[trigger] init[i], set) by {
            assert(init[i] == xs[i]);
        }
        lemma_pieces_free(init, cut, set);
        let front = pieces_of(init, cut);
        let back = cut(a).map_values(|p: Seq<char>| trimmed(p));
        assert forall|i: int| 0 <= i < pieces_of(xs, cut).len() implies free_of(#[trigger] pieces_of(xs, cut)[i], set) by {
            if i >= front.len() {
                let k = i - front.len();
                let piece = cut(a)[k];
                lemma_trimmed_drawn(piece);
                assert(pieces_of(xs, cut)[i] == trimmed(piece));
                assert forall|j: int| 0 <= j < trimmed(piece).len() implies !set.contains(#[trigger] trimmed(piece)[j]) by {
                    let w = choose|w: int| 0 <= w < piece.len() && piece[w] == trimmed(piece)[j];
                    if drawn_from(piece, a) {
                        let v = choose|v: int| 0 <= v < a.len() && a[v] == piece[w];
                        assert(xs[xs.len() - 1] == a);
                    }
                }
            }
        }
    }
}

/// Free pieces stay free when cut by any cut, as long as the cut's pieces are free.
proof fn lemma_pieces_made_free(xs: Seq<Seq<char>>, cut: spec_fn(Seq<char>) -> Seq<Seq<char>>, set: Seq<char>)
    requires
        forall|a: Seq<char>, k: int| 0 <= k < cut(a).len() ==> free_of(#[trigger] cut(a)[k], set),
    ensures
        forall|i: int| 0 <= i < pieces_of(xs, cut).len() ==> free_of(#[trigger] pieces_of(xs, cut)[i], set),
    decreases xs.len(),
{
    if xs.len() > 0 {
        lemma_pieces_made_free(xs.drop_last(), cut, set);
        let front = pieces_of(xs.drop_last(), cut);
        let a = xs.last();
        assert forall|i: int| 0 <= i < pieces_of(xs, cut).len() implies free_of(#[trigger] pieces_of(xs, cut)[i], set) by {
            if i >= front.len() {
                let piece = cut(a)[i - front.len()];
                lemma_trimmed_drawn(piece);
                assert(pieces_of(xs, cut)[i] == trimmed(piece));
                assert forall|j: int| 0 <= j < trimmed(piece).len() implies !set.contains(#[trigger] trimmed(piece)[j]) by {
                    let w = choose|w: int| 0 <= w < piece.len() && piece[w] == trimmed(piece)[j];
                }
            }
        }
    }
}

/// `x` is a contiguous part of `s`.
pub open spec fn is_infix(x: Seq<char>, s: Seq<char>) -> bool {
    exists|lo: int, hi: int| 0 <= lo <= hi <= s.len() && x == s.subrange(lo, hi)
}

/// A part of a string without `p` is without `p`.
proof fn lemma_infix_free(x: Seq<char>, s: Seq<char>, p: Seq<char>)
    requires
        is_infix(x, s),
        !has_substring(s, p),
    ensures
        !has_substring(x, p),
{
    let (lo, hi) = choose|lo: int, hi: int| 0 <= lo <= hi <= s.len() && x == s.subrange(lo, hi);
    if has_substring(x, p) {
        let i = choose|i: int| occurs_at(x, p, i);
        assert(s.subrange(lo + i, lo + i + p.len()) =~= x.subrange(i, i + p.len()));
        assert(occurs_at(s, p, lo + i));
    }
}

/// A part of a part of `s` is a part of `s`.
proof fn lemma_infix_trans(x: Seq<char>, y: Seq<char>, s: Seq<char>)
    requires
        is_infix(x, y),
        is_infix(y, s),
    ensures
        is_infix(x, s),
{
    let (a, b) = choose|lo: int, hi: int| 0 <= lo <= hi <= y.len() && x == y.subrange(lo, hi);
    let (c, d) = choose|lo: int, hi: int| 0 <= lo <= hi <= s.len() && y == s.subrange(lo, hi);
    assert(x =~= s.subrange(c + a, c + b));
}

proof fn lemma_trim_start_suffix(s: Seq<char>) -> (k: int)
    ensures
        0 <= k <= s.len(),
        crate::text::trim_start(s) == s.subrange(k, s.len() as int),
    decreases s.len(),
{
    if s.len() > 0 && crate::text::is_white_space(s[0]) {
        let k = lemma_trim_start_suffix(s.drop_first());
        assert(s.drop_first().subrange(k, s.len() - 1) =~= s.subrange(k + 1, s.len() as int));
        k + 1
    } else {
        assert(s.subrange(0, s.len() as int) =~= s);
        0
    }
}

proof fn lemma_trim_end_prefix(s: Seq<char>) -> (m: int)
    ensures
        0 <= m <= s.len(),
        crate::text::trim_end(s) == s.subrange(0, m),
    decreases s.len(),
{
    if s.len() > 0 && crate::text::is_white_space(s.last()) {
        let m = lemma_trim_end_prefix(s.drop_last());
        assert(s.drop_last().subrange(0, m) =~= s.subrange(0, m));
        m
    } else {
        assert(s.subrange(0, s.len() as int) =~= s);
        s.len() as int
    }
}

/// Trimming keeps a contiguous part of the string.
proof fn lemma_trimmed_infix(s: Seq<char>)
    ensures
        is_infix(trimmed(s), s),
{
    let k = lemma_trim_start_suffix(s);
    let t = crate::text::trim_start(s);
    let m = lemma_trim_end_prefix(t);
    assert(trimmed(s) =~= s.subrange(k, k + m));
}

/// The pieces of a split at a non-empty pattern are parts of the string that
/// do not hold the pattern, and the first piece starts the string.
proof fn lemma_split_pat_parts(s: Seq<char>, p: Seq<char>)
    requires
        p.len() > 0,
    ensures
        split_pat(s, p).len() >= 1,
        split_pat(s, p)[0] == s.subrange(0, split_pat(s, p)[0].len() as int),
        forall|k: int| 0 <= k < split_pat(s, p).len() ==> {
            &&& is_infix(#[trigger] split_pat(s, p)[k], s)
            &&& !has_substring(split_pat(s, p)[k], p)
        },
    decreases s.len(),
{
    let pieces = split_pat(s, p);
    if begins_with(s, p) {
        let t = s.skip(p.len() as int);
        lemma_split_pat_parts(t, p);
        assert forall|k: int| 0 <= k < pieces.len() implies {
            &&& is_infix(#[trigger] pieces[k], s)
            &&& !has_substring(pieces[k], p)
        } by {
            if k == 0 {
                assert(pieces[0] =~= s.subrange(0, 0));
                assert forall|i: int| !occurs_at(pieces[0], p, i) by {}
            } else {
                assert(pieces[k] == split_pat(t, p)[k - 1]);
                assert(is_infix(t, s)) by {
                    assert(t =~= s.subrange(p.len() as int, s.len() as int));
                }
                lemma_infix_trans(pieces[k], t, s);
            }
        }
        assert(pieces[0] =~= s.subrange(0, 0));
    } else if s.len() == 0 {
        assert(pieces[0] =~= s.subrange(0, 0));
        assert forall|i: int| !occurs_at(pieces[0], p, i) by {}
    } else {
        let t = s.drop_first();
        let rest = split_pat(t, p);
        lemma_split_pat_parts(t, p);
        let first = seq![s[0]] + rest[0];
        assert(first =~= s.subrange(0, first.len() as int));
        assert(is_infix(t, s)) by {
            assert(t =~= s.subrange(1, s.len() as int));
        }
        assert forall|k: int| 0 <= k < pieces.len() implies {
            &&& is_infix(#[trigger] pieces[k], s)
            &&& !has_substring(pieces[k], p)
        } by {
            if k == 0 {
                assert(pieces[0] == first);
                assert(is_infix(first, s));
                if has_substring(first, p) {
                    let i = choose|i: int| occurs_at(first, p, i);
                    if i == 0 {
                        assert(s.subrange(0, p.len() as int) =~= first.subrange(0, p.len() as int));
                        assert(begins_with(s, p));
                    } else {
                        assert(rest[0].subrange(i - 1, i - 1 + p.len()) =~= first.subrange(i, i + p.len()));
                        assert(occurs_at(rest[0], p, i - 1));
                    }
                }
            } else {
                assert(pieces[k] == rest[k]);
                lemma_infix_trans(pieces[k], t, s);
            }
        }
    }
}

/// Cutting pattern-free strings into parts and trimming them keeps them
/// pattern-free.
proof fn lemma_pieces_keep_free(xs: Seq<Seq<char>>, cut: spec_fn(Seq<char>) -> Seq<Seq<char>>, p: Seq<char>)
    requires
        forall|a: Seq<char>, k: int| 0 <= k < cut(a).len() ==> is_infix(#[trigger] cut(a)[k], a),
        forall|i: int| 0 <= i < xs.len() ==> !has_substring(#[trigger] xs[i], p),
    ensures
        forall|i: int| 0 <= i < pieces_of(xs, cut).len() ==> !has_substring(#[trigger] pieces_of(xs, cut)[i], p),
    decreases xs.len(),
{
    if xs.len() > 0 {
        let init = xs.drop_last();
        let a = xs.last();
        assert forall|i: int| 0 <= i < init.len() implies !has_substring(#[trigger] init[i], p) by {
            assert(init[i] == xs[i]);
        }
        lemma_pieces_keep_free(init, cut, p);
        let front = pieces_of(init, cut);
        assert forall|i: int| 0 <= i < pieces_of(xs, cut).len() implies !has_substring(#[trigger] pieces_of(xs, cut)[i], p) by {
            if i >= front.len() {
                let piece = cut(a)[i - front.len()];
                assert(pieces_of(xs, cut)[i] == trimmed(piece));
                lemma_trimmed_infix(piece);
                lemma_infix_trans(trimmed(piece), piece, a);
                assert(!has_substring(xs[xs.len() - 1], p));
                lemma_infix_free(trimmed(piece), a, p);
            }
        }
    }
}

/// Cutting into pattern-free parts and trimming them gives pattern-free strings.
proof fn lemma_pieces_make_free(xs: Seq<Seq<char>>, cut: spec_fn(Seq<char>) -> Seq<Seq<char>>, p: Seq<char>)
    requires
        forall|a: Seq<char>, k: int| 0 <= k < cut(a).len() ==> !has_substring(#[trigger] cut(a)[k], p),
    ensures
        forall|i: int| 0 <= i < pieces_of(xs, cut).len() ==> !has_substring(#[trigger] pieces_of(xs, cut)[i], p),
    decreases xs.len(),
{
    if xs.len() > 0 {
        lemma_pieces_make_free(xs.drop_last(), cut, p);
        let front = pieces_of(xs.drop_last(), cut);
        let a = xs.last();
        assert forall|i: int| 0 <= i < pieces_of(xs, cut).len() implies !has_substring(#[trigger] pieces_of(xs, cut)[i], p) by {
            if i >= front.len() {
                let piece = cut(a)[i - front.len()];
                assert(pieces_of(xs, cut)[i] == trimmed(piece));
                lemma_trimmed_infix(piece);
                lemma_infix_free(trimmed(piece), piece, p);
            }
        }
    }
}

/// The names that `split_artists_complete` gives are all different, every
/// name of the last splitting stage is among them, and none of them holds a
/// comma or an ampersand.
pub proof fn lemma_split_artists(artists: Seq<Seq<char>>)
    ensures
        split_artist_names(artists).no_duplicates(),
        forall|x: Seq<char>| split_artist_names(artists).contains(x) <==> pieces_of(
            pieces_of(
                pieces_of(artists, |a: Seq<char>| split_chars(a, artist_separators())),
                |a: Seq<char>| split_pat(a, feat()),
            ),
            |a: Seq<char>| split_pat(a, ft()),
        ).contains(x),
        forall|k: int| 0 <= k < split_artist_names(artists).len()
            ==> free_of(#[trigger] split_artist_names(artists)[k], artist_separators()),
{
    let c1 = |a: Seq<char>| split_chars(a, artist_separators());
    let c2 = |a: Seq<char>| split_pat(a, feat());
    let c3 = |a: Seq<char>| split_pat(a, ft());
    let by_sep = pieces_of(artists, c1);
    let by_feat = pieces_of(by_sep, c2);
    let by_ft = pieces_of(by_feat, c3);
    lemma_dedup(by_ft);
    assert forall|a: Seq<char>, k: int| 0 <= k < c1(a).len() implies free_of(#[trigger] c1(a)[k], artist_separators()) by {
        lemma_split_chars_pieces(a, artist_separators());
    }
    lemma_pieces_made_free(artists, c1, artist_separators());
    assert forall|a: Seq<char>, k: int| 0 <= k < c2(a).len() implies drawn_from(#[trigger] c2(a)[k], a)
        || free_of(c2(a)[k], artist_separators()) by {
        lemma_split_pat_pieces(a, feat());
    }
    lemma_pieces_free(by_sep, c2, artist_separators());
    assert forall|a: Seq<char>, k: int| 0 <= k < c3(a).len() implies drawn_from(#[trigger] c3(a)[k], a)
        || free_of(c3(a)[k], artist_separators()) by {
        lemma_split_pat_pieces(a, ft());
    }
    lemma_pieces_free(by_feat, c3, artist_separators());
    let d = dedup(by_ft);
    assert forall|k: int| 0 <= k < d.len() implies free_of(#[trigger] d[k], artist_separators()) by {
        let x = d[k];
        assert(d.contains(x));
        assert(by_ft.contains(x));
        let i = choose|i: int| 0 <= i < by_ft.len() && by_ft[i] == x;
        assert(free_of(by_ft[i], artist_separators()));
    }
}

// ---------------------------------------------------------------------------
// Bulk edits
// ---------------------------------------------------------------------------

/// `r` lists, for each track of `tracks` that `pred` selects and in library
/// order, its index, a copy of it, and the copy changed as `change` says.
pub open spec fn edits_for(
    r: Seq<(usize, Track, Track)>,
    tracks: Seq<Track>,
    pred: spec_fn(Track) -> bool,
    change: spec_fn(Track, Track) -> bool,
) -> bool {
    &&& r.map_values(|e: (usize, Track, Track)| e.0) == indices_where(tracks, pred)
    &&& forall|k: int| 0 <= k < r.len() ==> {
        &&& (#[trigger] r[k]).0 < tracks.len()
        &&& same_track(r[k].1, tracks[r[k].0 as int])
        &&& change(tracks[r[k].0 as int], r[k].2)
    }
}

/// A track has an edit in a list of edits for `pred` exactly when `pred`
/// selects it.
proof fn lemma_edits_pick(
    r: Seq<(usize, Track, Track)>,
    tracks: Seq<Track>,
    pred: spec_fn(Track) -> bool,
    change: spec_fn(Track, Track) -> bool,
    k: int,
)
    requires
        edits_for(r, tracks, pred, change),
        tracks.len() <= usize::MAX,
        0 <= k < tracks.len(),
    ensures
        (exists|e: int| 0 <= e < r.len() && (#[trigger] r[e]).0 == k) <==> pred(tracks[k]),
{
    let ids = r.map_values(|e: (usize, Track, Track)| e.0);
    lemma_indices_where_contains(tracks, pred, k);
    if exists|e: int| 0 <= e < r.len() && (#[trigger] r[e]).0 == k {
        let e = choose|e: int| 0 <= e < r.len() && (#[trigger] r[e]).0 == k;
        assert(ids[e] == k as usize);
        assert(ids.contains(k as usize));
    }
    if pred(tracks[k]) {
        assert(ids.contains(k as usize));
        let e = choose|e: int| 0 <= e < ids.len() && ids[e] == k as usize;
        assert(r[e].0 == k);
    }
}

/// `c` is `t` with other artists.
pub open spec fn same_but_artists(t: Track, c: Track) -> bool {
    &&& c.file == t.file
    &&& c.title == t.title
    &&& c.album == t.album
    &&& c.genre@ == t.genre@
    &&& c.year == t.year
    &&& c.len == t.len
}

/// `c` is `t` with another title and other artists.
pub open spec fn same_but_title_artists(t: Track, c: Track) -> bool {
    &&& c.file == t.file
    &&& c.album == t.album
    &&& c.genre@ == t.genre@
    &&& c.year == t.year
    &&& c.len == t.len
}

/// `c` is `t` with another title.
pub open spec fn same_but_title(t: Track, c: Track) -> bool {
    &&& same_but_title_artists(t, c)
    &&& c.artists@ == t.artists@
}

/// Some artist of `t` satisfies `p`.
pub open spec fn some_artist(t: Track, p: spec_fn(Seq<char>) -> bool) -> bool {
    exists|i: int| 0 <= i < t.artists.len() && p(#[trigger] t.artists@[i]@)
}

/// The text `- Topic`.
pub open spec fn topic_suffix() -> Seq<char> {
    seq!['-', ' ', 'T', 'o', 'p', 'i', 'c']
}

/// The text ` - Topic`.
pub open spec fn topic_part() -> Seq<char> {
    seq![' ', '-', ' ', 'T', 'o', 'p', 'i', 'c']
}

/// Tracks with an artist ending in `- Topic`.
pub open spec fn has_topic_artist(t: Track) -> bool {
    some_artist(t, |a: Seq<char>| finishes_with(a, topic_suffix()))
}

/// `c` is `t` with ` - Topic` taken out of every artist.
pub open spec fn topic_removed(t: Track, c: Track) -> bool {
    &&& same_but_artists(t, c)
    &&& views(c.artists@) == views(t.artists@).map_values(|a: Seq<char>| replace_all(a, topic_part(), Seq::<char>::empty()))
}

/// Whether some artist of `artists` ends with `suffix`.
fn any_artist_ends_with(artists: &Vec<String>, suffix: &str) -> (r: bool)
    ensures
        r == exists|i: int| 0 <= i < artists.len() && finishes_with(#[trigger] artists@[i]@, suffix@),
{
    let mut i: usize = 0;
    while i < artists.len()
        invariant
            i <= artists.len(),
            forall|k: int| 0 <= k < i ==> !finishes_with(#[trigger] artists@[k]@, suffix@),
        decreases artists.len() - i,
    {
        if ends_with(artists[i].as_str(), suffix) {
            return true;
        }
        i += 1;
    }
    false
}

/// The remove-topic tool proposes an edit for a track exactly when one of
/// its artists ends in `- Topic`; the edited track has the same number of
/// artists, each with every ` - Topic` taken out, and nothing else changed.
pub proof fn lemma_topic_edits(tracks: Seq<Track>, r: Seq<(usize, Track, Track)>, k: int)
    requires
        edits_for(r, tracks, |t: Track| has_topic_artist(t), |t: Track, c: Track| topic_removed(t, c)),
        tracks.len() <= usize::MAX,
        0 <= k < tracks.len(),
    ensures
        (exists|e: int| 0 <= e < r.len() && (#[trigger] r[e]).0 == k) <==> exists|i: int|
            0 <= i < tracks[k].artists.len() && finishes_with(#[trigger] tracks[k].artists@[i]@, seq!['-', ' ', 'T', 'o', 'p', 'i', 'c']),
        forall|e: int| 0 <= e < r.len() ==> {
            let t = tracks[(#[trigger] r[e]).0 as int];
            let c = r[e].2;
            &&& c.artists.len() == t.artists.len()
            &&& forall|i: int| 0 <= i < c.artists.len() ==> #[trigger] c.artists@[i]@
                == replace_all(t.artists@[i]@, seq![' ', '-', ' ', 'T', 'o', 'p', 'i', 'c'], Seq::<char>::empty())
            &&& c.file == t.file && c.title == t.title && c.album == t.album
            &&& c.genre@ == t.genre@ && c.year == t.year && c.len == t.len
        },
{
    lemma_edits_pick(r, tracks, |t: Track| has_topic_artist(t), |t: Track, c: Track| topic_removed(t, c), k);
    assert(topic_suffix() =~= seq!['-', ' ', 'T', 'o', 'p', 'i', 'c']);
    assert(topic_part() =~= seq![' ', '-', ' ', 'T', 'o', 'p', 'i', 'c']);
    assert forall|e: int| 0 <= e < r.len() implies {
        let t = tracks[(#[trigger] r[e]).0 as int];
        let c = r[e].2;
        &&& c.artists.len() == t.artists.len()
        &&& forall|i: int| 0 <= i < c.artists.len() ==> #[trigger] c.artists@[i]@
            == replace_all(t.artists@[i]@, seq![' ', '-', ' ', 'T', 'o', 'p', 'i', 'c'], Seq::<char>::empty())
        &&& c.file == t.file && c.title == t.title && c.album == t.album
        &&& c.genre@ == t.genre@ && c.year == t.year && c.len == t.len
    } by {
        let t = tracks[r[e].0 as int];
        let c = r[e].2;
        assert(topic_removed(t, c));
        assert(views(c.artists@).len() == c.artists.len());
        assert forall|i: int| 0 <= i < c.artists.len() implies #[trigger] c.artists@[i]@
            == replace_all(t.artists@[i]@, seq![' ', '-', ' ', 'T', 'o', 'p', 'i', 'c'], Seq::<char>::empty()) by {
            assert(views(c.artists@)[i] == c.artists@[i]@);
            assert(views(t.artists@)[i] == t.artists@[i]@);
        }
    }
}

/// The edits that take ` - Topic` out of artist names, for every track
/// with an artist ending in `- Topic`.
pub fn remove_topic_edits(tracks: &Vec<Track>) -> (r: Vec<(usize, Track, Track)>)
    ensures
        edits_for(r@, tracks@, |t: Track| has_topic_artist(t), |t: Track, c: Track| topic_removed(t, c)),
{
    let suffix = "- Topic";
    let part = " - Topic";
    let empty = "";
    proof {
        reveal_strlit("- Topic");
        reveal_strlit(" - Topic");
        reveal_strlit("");
        assert(suffix@ =~= topic_suffix());
        assert(part@ =~= topic_part());
        assert(empty@ =~= Seq::<char>::empty());
    }
    let ghost pred = |t: Track| has_topic_artist(t);
    let ghost change = |t: Track, c: Track| topic_removed(t, c);
    let mut out: Vec<(usize, Track, Track)> = Vec::new();
    let mut i: usize = 0;
    while i < tracks.len()
        invariant
            i <= tracks.len(),
            suffix@ == topic_suffix(),
            part@ == topic_part(),
            empty@ == Seq::<char>::empty(),
            pred == (|t: Track| has_topic_artist(t)),
            change == (|t: Track, c: Track| topic_removed(t, c)),
            out@.map_values(|e: (usize, Track, Track)| e.0) == indices_where(tracks@.take(i as int), pred),
            forall|k: int| 0 <= k < out.len() ==> {
                &&& (#[trigger] out@[k]).0 < i
                &&& same_track(out@[k].1, tracks@[out@[k].0 as int])
                &&& change(tracks@[out@[k].0 as int], out@[k].2)
            },
        decreases tracks.len() - i,
    {
        let ghost before = out@;
        proof {
            assert(tracks@.take(i + 1).drop_last() =~= tracks@.take(i as int));
            assert(tracks@.take(i + 1).last() == tracks@[i as int]);
        }
        let t = &tracks[i];
        if any_artist_ends_with(&t.artists, suffix) {
            let unchanged = t.clone();
            let mut changed = t.clone();
            let mut artists: Vec<String> = Vec::new();
            let mut j: usize = 0;
            while j < t.artists.len()
                invariant
                    j <= t.artists.len(),
                    part@ == topic_part(),
                    empty@ == Seq::<char>::empty(),
                    views(artists@) == views(t.artists@).take(j as int).map_values(
                        |a: Seq<char>| replace_all(a, topic_part(), Seq::<char>::empty()),
                    ),
                decreases t.artists.len() - j,
            {
                let fixed = replace(t.artists[j].as_str(), part, empty);
                let ghost prev = views(artists@);
                artists.push(fixed);
                proof {
                    assert(fixed@ == replace_all(t.artists@[j as int]@, topic_part(), Seq::<char>::empty()));
                    assert(views(artists@) =~= prev.push(fixed@));
                    assert(views(t.artists@).take(j + 1)[j as int] == t.artists@[j as int]@);
                    assert(views(artists@) =~= views(t.artists@).take(j + 1).map_values(
                        |a: Seq<char>| replace_all(a, topic_part(), Seq::<char>::empty()),
                    ));
                }
                j += 1;
            }
            proof {
                assert(views(t.artists@).take(t.artists.len() as int) =~= views(t.artists@));
            }
            changed.artists = artists;
            out.push((i, unchanged, changed));
            proof {
                assert(pred(tracks@[i as int]));
                assert(out@.map_values(|e: (usize, Track, Track)| e.0) =~= before.map_values(|e: (usize, Track, Track)| e.0).push(i));
            }
        } else {
            proof {
                assert(!pred(tracks@[i as int]));
            }
        }
        i += 1;
    }
    assert(tracks@.take(tracks.len() as int) =~= tracks@);
    out
}

/// The text `tyler, the creator`.
pub open spec fn tyler() -> Seq<char> {
    seq!['t', 'y', 'l', 'e', 'r', ',', ' ', 't', 'h', 'e', ' ', 'c', 'r', 'e', 'a', 't', 'o', 'r']
}

/// An artist name that joins several artists: it holds a comma, ` & `,
/// `feat.` or `ft.`.
pub open spec fn joins_artists(a: Seq<char>) -> bool {
    ||| has_substring(a, seq![','])
    ||| has_substring(a, seq![' ', '&', ' '])
    ||| has_substring(a, feat())
    ||| has_substring(a, ft())
}

/// Tracks whose artists should be split: none of them is Tyler, the Creator
/// (whose name holds a comma), and one of them joins several artists.
pub open spec fn needs_artist_split(t: Track) -> bool {
    &&& !some_artist(t, |a: Seq<char>| has_substring(lowercase(a), tyler()))
    &&& some_artist(t, |a: Seq<char>| joins_artists(a))
}

/// `c` is `t` with its artists split by `split_artists_complete`.
pub open spec fn artists_split(t: Track, c: Track) -> bool {
    &&& same_but_artists(t, c)
    &&& views(c.artists@) == split_artist_names(views(t.artists@))
}

/// `x` has no white space at either end.
pub open spec fn is_trimmed(x: Seq<char>) -> bool {
    x.len() == 0 || (!crate::text::is_white_space(x[0]) && !crate::text::is_white_space(x.last()))
}

proof fn lemma_trim_start_first(s: Seq<char>)
    ensures
        crate::text::trim_start(s).len() > 0 ==> !crate::text::is_white_space(crate::text::trim_start(s)[0]),
    decreases s.len(),
{
    if s.len() > 0 && crate::text::is_white_space(s[0]) {
        lemma_trim_start_first(s.drop_first());
    }
}

proof fn lemma_trim_end_last(s: Seq<char>)
    ensures
        crate::text::trim_end(s).len() > 0 ==> !crate::text::is_white_space(crate::text::trim_end(s).last()),
    decreases s.len(),
{
    if s.len() > 0 && crate::text::is_white_space(s.last()) {
        lemma_trim_end_last(s.drop_last());
    }
}

/// Trimming leaves no white space at either end.
proof fn lemma_trimmed_is_trimmed(s: Seq<char>)
    ensures
        is_trimmed(trimmed(s)),
{
    let t = crate::text::trim_start(s);
    lemma_trim_start_first(s);
    lemma_trim_end_last(t);
    let m = lemma_trim_end_prefix(t);
    if m > 0 {
        assert(trimmed(s)[0] == t[0]);
    }
}

/// A string with no white space at either end is left alone by trimming.
proof fn lemma_trimmed_fixed(x: Seq<char>)
    requires
        is_trimmed(x),
    ensures
        trimmed(x) == x,
{
    assert(crate::text::trim_start(x) == x);
    assert(crate::text::trim_end(x) == x);
}

/// A string without separators is one piece.
proof fn lemma_split_chars_whole(x: Seq<char>, seps: Seq<char>)
    requires
        free_of(x, seps),
    ensures
        split_chars(x, seps) == seq![x],
    decreases x.len(),
{
    if x.len() > 0 {
        let t = x.drop_first();
        assert forall|j: int| 0 <= j < t.len() implies !seps.contains(#[trigger] t[j]) by {
            assert(t[j] == x[j + 1]);
        }
        lemma_split_chars_whole(t, seps);
        assert(!seps.contains(x[0]));
        assert(seq![x[0]] + t =~= x);
        assert(split_chars(x, seps) =~= seq![x]);
    } else {
        assert(x =~= Seq::<char>::empty());
    }
}

/// A string without the pattern is one piece.
proof fn lemma_split_pat_whole(x: Seq<char>, p: Seq<char>)
    requires
        p.len() > 0,
        !has_substring(x, p),
    ensures
        split_pat(x, p) == seq![x],
    decreases x.len(),
{
    assert(!begins_with(x, p));
    if x.len() > 0 {
        let t = x.drop_first();
        assert(is_infix(t, x)) by {
            assert(t =~= x.subrange(1, x.len() as int));
        }
        lemma_infix_free(t, x, p);
        lemma_split_pat_whole(t, p);
        assert(seq![x[0]] + t =~= x);
        assert(split_pat(x, p) =~= seq![x]);
    } else {
        assert(x =~= Seq::<char>::empty());
    }
}

/// Every piece that a cut and trim stage gives is trimmed.
proof fn lemma_pieces_trimmed(xs: Seq<Seq<char>>, cut: spec_fn(Seq<char>) -> Seq<Seq<char>>)
    ensures
        forall|i: int| 0 <= i < pieces_of(xs, cut).len() ==> is_trimmed(#[trigger] pieces_of(xs, cut)[i]),
    decreases xs.len(),
{
    if xs.len() > 0 {
        lemma_pieces_trimmed(xs.drop_last(), cut);
        let front = pieces_of(xs.drop_last(), cut);
        assert forall|i: int| 0 <= i < pieces_of(xs, cut).len() implies is_trimmed(#[trigger] pieces_of(xs, cut)[i]) by {
            if i >= front.len() {
                let piece = cut(xs.last())[i - front.len()];
                assert(pieces_of(xs, cut)[i] == trimmed(piece));
                lemma_trimmed_is_trimmed(piece);
            }
        }
    }
}

/// A stage that leaves every string whole and trimmed changes nothing.
proof fn lemma_pieces_unchanged(xs: Seq<Seq<char>>, cut: spec_fn(Seq<char>) -> Seq<Seq<char>>)
    requires
        forall|i: int| 0 <= i < xs.len() ==> #[trigger] cut(xs[i]) == seq![xs[i]] && is_trimmed(xs[i]),
    ensures
        pieces_of(xs, cut) == xs,
    decreases xs.len(),
{
    if xs.len() > 0 {
        let init = xs.drop_last();
        assert forall|i: int| 0 <= i < init.len() implies #[trigger] cut(init[i]) == seq![init[i]] && is_trimmed(init[i]) by {
            assert(init[i] == xs[i]);
        }
        lemma_pieces_unchanged(init, cut);
        let x = xs.last();
        assert(cut(xs[xs.len() - 1]) == seq![xs[xs.len() - 1]]);
        lemma_trimmed_fixed(x);
        assert(cut(x).map_values(|p: Seq<char>| trimmed(p)) =~= seq![x]);
        assert(init + seq![x] =~= xs);
    } else {
        assert(pieces_of(xs, cut) =~= xs);
    }
}

/// A list without repeats is its own repeat-free list.
proof fn lemma_dedup_distinct(s: Seq<Seq<char>>)
    requires
        s.no_duplicates(),
    ensures
        dedup(s) == s,
    decreases s.len(),
{
    if s.len() > 0 {
        let init = s.drop_last();
        assert(init.no_duplicates());
        lemma_dedup_distinct(init);
        if init.contains(s.last()) {
            let k = choose|k: int| 0 <= k < init.len() && init[k] == s.last();
            assert(s[k] == s[s.len() - 1]);
        }
        assert(init.push(s.last()) =~= s);
    }
}

/// Every name that `split_artists_complete` gives holds no comma, no
/// ampersand, no `feat.` and no `ft.`, and has no white space at either end.
pub proof fn lemma_split_artist_names_clean(artists: Seq<Seq<char>>)
    ensures
        forall|k: int| 0 <= k < split_artist_names(artists).len() ==> {
            &&& free_of(#[trigger] split_artist_names(artists)[k], artist_separators())
            &&& !has_substring(split_artist_names(artists)[k], feat())
            &&& !has_substring(split_artist_names(artists)[k], ft())
            &&& trimmed(split_artist_names(artists)[k]) == split_artist_names(artists)[k]
        },
{
    let names = split_artist_names(artists);
    let c1 = |a: Seq<char>| split_chars(a, artist_separators());
    let c2 = |a: Seq<char>| split_pat(a, feat());
    let c3 = |a: Seq<char>| split_pat(a, ft());
    let by_sep = pieces_of(artists, c1);
    let by_feat = pieces_of(by_sep, c2);
    let by_ft = pieces_of(by_feat, c3);
    lemma_split_artists(artists);
    assert forall|a: Seq<char>, k: int| 0 <= k < c2(a).len() implies !has_substring(#[trigger] c2(a)[k], feat()) by {
        lemma_split_pat_parts(a, feat());
    }
    lemma_pieces_make_free(by_sep, c2, feat());
    assert forall|a: Seq<char>, k: int| 0 <= k < c3(a).len() implies {
        &&& is_infix(#[trigger] c3(a)[k], a)
        &&& !has_substring(c3(a)[k], ft())
    } by {
        lemma_split_pat_parts(a, ft());
    }
    lemma_pieces_keep_free(by_feat, c3, feat());
    lemma_pieces_make_free(by_feat, c3, ft());
    lemma_pieces_trimmed(by_feat, c3);
    assert forall|k: int| 0 <= k < names.len() implies {
        &&& free_of(#[trigger] names[k], artist_separators())
        &&& !has_substring(names[k], feat())
        &&& !has_substring(names[k], ft())
        &&& trimmed(names[k]) == names[k]
    } by {
        let x = names[k];
        assert(names.contains(x));
        assert(by_ft.contains(x));
        let w = choose|w: int| 0 <= w < by_ft.len() && by_ft[w] == x;
        assert(is_trimmed(by_ft[w]));
        lemma_trimmed_fixed(x);
    }
}

/// Splitting names that are already split gives them back unchanged.
pub proof fn lemma_split_artists_idempotent(artists: Seq<Seq<char>>)
    ensures
        split_artist_names(split_artist_names(artists)) == split_artist_names(artists),
{
    let names = split_artist_names(artists);
    lemma_split_artists(artists);
    lemma_split_artist_names_clean(artists);
    let c1 = |a: Seq<char>| split_chars(a, artist_separators());
    let c2 = |a: Seq<char>| split_pat(a, feat());
    let c3 = |a: Seq<char>| split_pat(a, ft());
    assert forall|i: int| 0 <= i < names.len() implies #[trigger] c1(names[i]) == seq![names[i]] && is_trimmed(names[i]) by {
        lemma_split_chars_whole(names[i], artist_separators());
        lemma_trimmed_is_trimmed(names[i]);
    }
    lemma_pieces_unchanged(names, c1);
    assert forall|i: int| 0 <= i < names.len() implies #[trigger] c2(names[i]) == seq![names[i]] && is_trimmed(names[i]) by {
        lemma_split_pat_whole(names[i], feat());
        lemma_trimmed_is_trimmed(names[i]);
    }
    lemma_pieces_unchanged(names, c2);
    assert forall|i: int| 0 <= i < names.len() implies #[trigger] c3(names[i]) == seq![names[i]] && is_trimmed(names[i]) by {
        lemma_split_pat_whole(names[i], ft());
        lemma_trimmed_is_trimmed(names[i]);
    }
    lemma_pieces_unchanged(names, c3);
    lemma_dedup_distinct(names);
}

/// Splitting settles a track's artists: after the split tool's edit no
/// artist of the track joins several artists any more, so running the tool
/// again proposes no edit for it.
pub proof fn lemma_split_artists_settle(t: Track, c: Track)
    requires
        artists_split(t, c),
    ensures
        !needs_artist_split(c),
{
    let names = split_artist_names(views(t.artists@));
    lemma_split_artist_names_clean(views(t.artists@));
    assert forall|i: int| 0 <= i < c.artists.len() implies !joins_artists(#[trigger] c.artists@[i]@) by {
        let x = c.artists@[i]@;
        assert(views(c.artists@)[i] == x);
        assert(names[i] == x);
        assert(free_of(names[i], artist_separators()));
        if has_substring(x, seq![',']) {
            let j = choose|j: int| occurs_at(x, seq![','], j);
            assert(x.subrange(j, j + 1)[0] == x[j]);
            assert(artist_separators().contains(x[j]));
        }
        if has_substring(x, seq![' ', '&', ' ']) {
            let j = choose|j: int| occurs_at(x, seq![' ', '&', ' '], j);
            assert(x.subrange(j, j + 3)[1] == x[j + 1]);
            assert(artist_separators()[1] == x[j + 1]);
            assert(artist_separators().contains(x[j + 1]));
        }
    }
}

/// The split-artists tool proposes an edit for a track exactly when none of
/// its artists, lower-cased, names Tyler, the Creator, and one of them holds
/// a comma, ` & `, `feat.` or `ft.`; the edit splits its artists.
pub proof fn lemma_split_artists_picks(tracks: Seq<Track>, r: Seq<(usize, Track, Track)>, k: int)
    requires
        edits_for(r, tracks, |t: Track| needs_artist_split(t), |t: Track, c: Track| artists_split(t, c)),
        tracks.len() <= usize::MAX,
        0 <= k < tracks.len(),
    ensures
        (exists|e: int| 0 <= e < r.len() && (#[trigger] r[e]).0 == k) <==> {
            &&& forall|i: int| 0 <= i < tracks[k].artists.len()
                ==> !has_substring(lowercase(#[trigger] tracks[k].artists@[i]@), seq!['t', 'y', 'l', 'e', 'r', ',', ' ', 't', 'h', 'e', ' ', 'c', 'r', 'e', 'a', 't', 'o', 'r'])
            &&& exists|i: int| 0 <= i < tracks[k].artists.len() && {
                let a = #[trigger] tracks[k].artists@[i]@;
                ||| has_substring(a, seq![','])
                ||| has_substring(a, seq![' ', '&', ' '])
                ||| has_substring(a, seq!['f', 'e', 'a', 't', '.'])
                ||| has_substring(a, seq!['f', 't', '.'])
            }
        },
{
    lemma_edits_pick(r, tracks, |t: Track| needs_artist_split(t), |t: Track, c: Track| artists_split(t, c), k);
    assert(tyler() =~= seq!['t', 'y', 'l', 'e', 'r', ',', ' ', 't', 'h', 'e', ' ', 'c', 'r', 'e', 'a', 't', 'o', 'r']);
    assert(feat() =~= seq!['f', 'e', 'a', 't', '.']);
    assert(ft() =~= seq!['f', 't', '.']);
}

/// Whether an artist name, already lower-cased, names Tyler, the Creator.
pub fn names_tyler(lowered: &str) -> (r: bool)
    ensures
        r == has_substring(lowered@, tyler()),
{
    let tyler_str = "tyler, the creator";
    proof {
        reveal_strlit("tyler, the creator");
        assert(tyler_str@ =~= tyler());
    }
    contains_str(lowered, tyler_str)
}

/// Whether the artists `artists` should be split.
fn needs_split(artists: &Vec<String>, comma: &str, amp: &str, feat_str: &str, ft_str: &str) -> (r: bool)
    requires
        comma@ == seq![','],
        amp@ == seq![' ', '&', ' '],
        feat_str@ == feat(),
        ft_str@ == ft(),
    ensures
        r == ((forall|i: int| 0 <= i < artists.len() ==> !has_substring(lowercase(#[trigger] artists@[i]@), tyler()))
            && exists|i: int| 0 <= i < artists.len() && joins_artists(#[trigger] artists@[i]@)),
{
    let mut i: usize = 0;
    while i < artists.len()
        invariant
            i <= artists.len(),
            forall|k: int| 0 <= k < i ==> !has_substring(lowercase(#[trigger] artists@[k]@), tyler()),
        decreases artists.len() - i,
    {
        let lower = to_lowercase(artists[i].as_str());
        if names_tyler(lower.as_str()) {
            return false;
        }
        i += 1;
    }
    let mut j: usize = 0;
    while j < artists.len()
        invariant
            j <= artists.len(),
            comma@ == seq![','],
            amp@ == seq![' ', '&', ' '],
            feat_str@ == feat(),
            ft_str@ == ft(),
            forall|k: int| 0 <= k < artists.len() ==> !has_substring(lowercase(#[trigger] artists@[k]@), tyler()),
            forall|k: int| 0 <= k < j ==> !joins_artists(#[trigger] artists@[k]@),
        decreases artists.len() - j,
    {
        let a = artists[j].as_str();
        if contains_str(a, comma) || contains_str(a, amp) || contains_str(a, feat_str) || contains_str(a, ft_str) {
            assert(joins_artists(artists@[j as int]@));
            return true;
        }
        j += 1;
    }
    false
}

/// The edits that split joined artist names, for every track that needs it.
pub fn split_artists_edits(tracks: &Vec<Track>) -> (r: Vec<(usize, Track, Track)>)
    ensures
        edits_for(r@, tracks@, |t: Track| needs_artist_split(t), |t: Track, c: Track| artists_split(t, c)),
{
    let comma = ",";
    let amp = " & ";
    let feat_str = "feat.";
    let ft_str = "ft.";
    proof {
        reveal_strlit(",");
        reveal_strlit(" & ");
        reveal_strlit("feat.");
        reveal_strlit("ft.");
        assert(comma@ =~= seq![',']);
        assert(amp@ =~= seq![' ', '&', ' ']);
        assert(feat_str@ =~= feat());
        assert(ft_str@ =~= ft());
    }
    let ghost pred = |t: Track| needs_artist_split(t);
    let ghost change = |t: Track, c: Track| artists_split(t, c);
    let mut out: Vec<(usize, Track, Track)> = Vec::new();
    let mut i: usize = 0;
    while i < tracks.len()
        invariant
            i <= tracks.len(),
            comma@ == seq![','],
            amp@ == seq![' ', '&', ' '],
            feat_str@ == feat(),
            ft_str@ == ft(),
            pred == (|t: Track| needs_artist_split(t)),
            change == (|t: Track, c: Track| artists_split(t, c)),
            out@.map_values(|e: (usize, Track, Track)| e.0) == indices_where(tracks@.take(i as int), pred),
            forall|k: int| 0 <= k < out.len() ==> {
                &&& (#[trigger] out@[k]).0 < i
                &&& same_track(out@[k].1, tracks@[out@[k].0 as int])
                &&& change(tracks@[out@[k].0 as int], out@[k].2)
            },
        decreases tracks.len() - i,
    {
        let ghost before = out@;
        proof {
            assert(tracks@.take(i + 1).drop_last() =~= tracks@.take(i as int));
            assert(tracks@.take(i + 1).last() == tracks@[i as int]);
        }
        let t = &tracks[i];
        let selected = needs_split(&t.artists, comma, amp, feat_str, ft_str);
        if selected {
            let unchanged = t.clone();
            let mut changed = t.clone();
            let split = split_artists_complete(t.artists.clone());
            changed.artists = split;
            out.push((i, unchanged, changed));
            proof {
                assert(pred(tracks@[i as int]));
                assert(out@.map_values(|e: (usize, Track, Track)| e.0) =~= before.map_values(|e: (usize, Track, Track)| e.0).push(i));
            }
        } else {
            proof {
                assert(!pred(tracks@[i as int]));
            }
        }
        i += 1;
    }
    assert(tracks@.take(tracks.len() as int) =~= tracks@);
    out
}


/// The text ` - `.
pub open spec fn dash_sep() -> Seq<char> {
    seq![' ', '-', ' ']
}

/// Tracks whose title holds ` - `, as in `Artist - Title`.
pub open spec fn title_names_artist(t: Track) -> bool {
    has_substring(t.title@, dash_sep())
}

/// `c` is `t` with the title split at ` - `: the first piece becomes the
/// only artist and the second the title.
pub open spec fn title_artist_split(t: Track, c: Track) -> bool {
    let pieces = split_pat(t.title@, dash_sep());
    &&& same_but_title_artists(t, c)
    &&& c.title@ == pieces[1]
    &&& views(c.artists@) == seq![pieces[0]]
}

/// Splitting a title settles it: the title left after the edit holds no
/// ` - `, so running the tool again proposes no edit for the track, and the
/// new artist holds none either.
pub proof fn lemma_title_split_settles(t: Track, c: Track)
    requires
        title_names_artist(t),
        title_artist_split(t, c),
    ensures
        !title_names_artist(c),
        !has_substring(c.artists@[0]@, dash_sep()),
{
    lemma_split_pat_parts(t.title@, dash_sep());
    lemma_split_pat_two(t.title@, dash_sep());
    let pieces = split_pat(t.title@, dash_sep());
    assert(views(c.artists@).len() == 1);
    assert(c.artists@.len() == 1);
    assert(views(c.artists@)[0] == c.artists@[0]@);
    assert(!has_substring(pieces[1], dash_sep()));
    assert(!has_substring(pieces[0], dash_sep()));
}

/// The first piece of a split at a non-empty pattern is the text before the
/// pattern's first occurrence; when there is one, the other pieces are the
/// split of what follows it.
proof fn lemma_split_pat_first(s: Seq<char>, p: Seq<char>)
    requires
        p.len() > 0,
    ensures
        ({
            let x = split_pat(s, p)[0];
            &&& split_pat(s, p).len() >= 1
            &&& x.len() <= s.len()
            &&& s.subrange(0, x.len() as int) == x
            &&& forall|j: int| 0 <= j < x.len() ==> !#[trigger] occurs_at(s, p, j)
            &&& (x.len() == s.len() && split_pat(s, p).len() == 1) || (occurs_at(s, p, x.len() as int)
                && split_pat(s, p).drop_first() == split_pat(s.skip(x.len() as int + p.len() as int), p))
        }),
    decreases s.len(),
{
    lemma_split_pat_parts(s, p);
    if begins_with(s, p) {
        assert(split_pat(s, p).drop_first() =~= split_pat(s.skip(p.len() as int), p));
        assert(s.skip(0int + p.len() as int) =~= s.skip(p.len() as int));
    } else if s.len() == 0 {
    } else {
        let t = s.drop_first();
        lemma_split_pat_first(t, p);
        let rest = split_pat(t, p);
        let r0 = rest[0];
        let x = split_pat(s, p)[0];
        assert(x == seq![s[0]] + r0);
        assert forall|j: int| 0 <= j < x.len() implies !#[trigger] occurs_at(s, p, j) by {
            if j > 0 && occurs_at(s, p, j) {
                assert(t.subrange(j - 1, j - 1 + p.len()) =~= s.subrange(j, j + p.len()));
                assert(occurs_at(t, p, j - 1));
            }
        }
        if r0.len() == t.len() && rest.len() == 1 {
        } else {
            let lr = r0.len() as int;
            let lx = x.len() as int;
            let lp = p.len() as int;
            assert(t.subrange(lr, lr + lp) =~= s.subrange(lx, lx + lp));
            assert(s.skip(lx + lp) =~= t.skip(lr + lp));
            assert(split_pat(s, p).drop_first() =~= rest.drop_first());
        }
    }
}

/// The title split takes the artist from the text before the first ` - ` of
/// the title, and the new title from the text after it up to the next ` - `
/// or the end; the track gets that single artist.
pub proof fn lemma_title_split_pieces(t: Track, c: Track)
    requires
        has_substring(t.title@, seq![' ', '-', ' ']),
        title_artist_split(t, c),
    ensures
        c.artists.len() == 1,
        ({
            let s = t.title@;
            let p = seq![' ', '-', ' '];
            let n = c.artists@[0]@.len() as int;
            let m = n + 3;
            let e = m + c.title@.len();
            &&& s.subrange(0, n) == c.artists@[0]@
            &&& occurs_at(s, p, n)
            &&& forall|j: int| 0 <= j < n ==> !#[trigger] occurs_at(s, p, j)
            &&& e <= s.len()
            &&& s.subrange(m, e) == c.title@
            &&& (e == s.len() || occurs_at(s, p, e))
            &&& forall|j: int| m <= j < e ==> !#[trigger] occurs_at(s, p, j)
        }),
{
    let s = t.title@;
    let p = seq![' ', '-', ' '];
    assert(p =~= dash_sep());
    lemma_split_pat_first(s, p);
    lemma_split_pat_two(s, p);
    let pieces = split_pat(s, p);
    assert(views(c.artists@).len() == 1);
    assert(views(c.artists@)[0] == c.artists@[0]@);
    let n = pieces[0].len() as int;
    let s2 = s.skip(n + 3);
    lemma_split_pat_first(s2, p);
    assert(pieces[1] == pieces.drop_first()[0]);
    let y = pieces[1];
    let ly = y.len() as int;
    assert(y == split_pat(s2, p)[0]);
    assert(s.subrange(n + 3, n + 3 + ly) =~= s2.subrange(0, ly));
    assert forall|j: int| n + 3 <= j < n + 3 + ly implies !#[trigger] occurs_at(s, p, j) by {
        if occurs_at(s, p, j) {
            assert(s2.subrange(j - n - 3, j - n - 3 + 3) =~= s.subrange(j, j + 3));
            assert(occurs_at(s2, p, j - n - 3));
        }
    }
    if n + 3 + ly < s.len() {
        assert(occurs_at(s2, p, ly));
        assert(s2.subrange(ly, ly + 3) =~= s.subrange(n + 3 + ly, n + 3 + ly + 3));
    }
}

/// The title-split tool proposes an edit for a track exactly when its title
/// holds ` - `.
pub proof fn lemma_title_split_picks(tracks: Seq<Track>, r: Seq<(usize, Track, Track)>, k: int)
    requires
        edits_for(r, tracks, |t: Track| title_names_artist(t), |t: Track, c: Track| title_artist_split(t, c)),
        tracks.len() <= usize::MAX,
        0 <= k < tracks.len(),
    ensures
        (exists|e: int| 0 <= e < r.len() && (#[trigger] r[e]).0 == k) <==> has_substring(tracks[k].title@, seq![' ', '-', ' ']),
{
    lemma_edits_pick(r, tracks, |t: Track| title_names_artist(t), |t: Track, c: Track| title_artist_split(t, c), k);
    assert(dash_sep() =~= seq![' ', '-', ' ']);
}

/// The edits that turn titles of the form `Artist - Title` into an artist
/// and a title.
pub fn split_title_artist_edits(tracks: &Vec<Track>) -> (r: Vec<(usize, Track, Track)>)
    ensures
        edits_for(r@, tracks@, |t: Track| title_names_artist(t), |t: Track, c: Track| title_artist_split(t, c)),
{
    let dash = " - ";
    proof {
        reveal_strlit(" - ");
        assert(dash@ =~= dash_sep());
    }
    let ghost pred = |t: Track| title_names_artist(t);
    let ghost change = |t: Track, c: Track| title_artist_split(t, c);
    let mut out: Vec<(usize, Track, Track)> = Vec::new();
    let mut i: usize = 0;
    while i < tracks.len()
        invariant
            i <= tracks.len(),
            dash@ == dash_sep(),
            pred == (|t: Track| title_names_artist(t)),
            change == (|t: Track, c: Track| title_artist_split(t, c)),
            out@.map_values(|e: (usize, Track, Track)| e.0) == indices_where(tracks@.take(i as int), pred),
            forall|k: int| 0 <= k < out.len() ==> {
                &&& (#[trigger] out@[k]).0 < i
                &&& same_track(out@[k].1, tracks@[out@[k].0 as int])
                &&& change(tracks@[out@[k].0 as int], out@[k].2)
            },
        decreases tracks.len() - i,
    {
        let ghost before = out@;
        proof {
            assert(tracks@.take(i + 1).drop_last() =~= tracks@.take(i as int));
            assert(tracks@.take(i + 1).last() == tracks@[i as int]);
        }
        let t = &tracks[i];
        if contains_str(t.title.as_str(), dash) {
            proof {
                lemma_split_pat_two(t.title@, dash_sep());
            }
            let unchanged = t.clone();
            let mut changed = t.clone();
            let pieces = split_str(t.title.as_str(), dash);
            let artist = pieces[0].clone();
            let title = pieces[1].clone();
            changed.title = title;
            let mut artists: Vec<String> = Vec::new();
            artists.push(artist);
            proof {
                assert(views(artists@) =~= seq![split_pat(t.title@, dash_sep())[0]]);
            }
            changed.artists = artists;
            out.push((i, unchanged, changed));
            proof {
                assert(pred(tracks@[i as int]));
                assert(out@.map_values(|e: (usize, Track, Track)| e.0) =~= before.map_values(|e: (usize, Track, Track)| e.0).push(i));
            }
        } else {
            proof {
                assert(!pred(tracks@[i as int]));
            }
        }
        i += 1;
    }
    assert(tracks@.take(tracks.len() as int) =~= tracks@);
    out
}

/// The text `official`.
pub open spec fn official() -> Seq<char> {
    seq!['o', 'f', 'f', 'i', 'c', 'i', 'a', 'l']
}

/// The text `audio`.
pub open spec fn audio() -> Seq<char> {
    seq!['a', 'u', 'd', 'i', 'o']
}

/// A character that opens a bracketed group.
pub open spec fn is_opener(c: char) -> bool {
    c == '(' || c == '['
}

/// The character that closes a group opened by `c`.
pub open spec fn closer_of(c: char) -> char {
    if c == '(' {
        ')'
    } else {
        ']'
    }
}

/// The first position from `i` on at which `s` holds `c`, or the length of
/// `s` when there is none.
pub open spec fn next_at(s: Seq<char>, i: int, c: char) -> int
    decreases s.len() - i,
{
    if i < 0 || i >= s.len() {
        s.len() as int
    } else if s[i] == c {
        i
    } else {
        next_at(s, i + 1, c)
    }
}

/// `next_at` finds a position at or after where it starts, holding the
/// character, or runs to the end.
pub proof fn lemma_next_at_bounds(s: Seq<char>, i: int, c: char)
    requires
        0 <= i,
    ensures
        next_at(s, i, c) == s.len() || (i <= next_at(s, i, c) < s.len() && s[next_at(s, i, c)] == c),
    decreases s.len() - i,
{
    if i < s.len() && s[i] != c {
        lemma_next_at_bounds(s, i + 1, c);
    }
}

/// Text that marks a release rather than the song: it mentions `official` or
/// `audio` in any ASCII case.
pub open spec fn is_release_note(text: Seq<char>) -> bool {
    let lower = text.map_values(|c: char| ascii_lower(c));
    has_substring(lower, official()) || has_substring(lower, audio())
}

/// `s` from position `i` on, with every bracketed group whose text is a
/// release note taken out, and whether any was. A group runs from `(` or `[`
/// to the next matching `)` or `]`; an opener without one is kept as it is.
pub open spec fn cut_notes_from(s: Seq<char>, i: int) -> (Seq<char>, bool)
    decreases s.len() - i,
{
    if i < 0 || i >= s.len() {
        (Seq::<char>::empty(), false)
    } else {
        let j = next_at(s, i + 1, closer_of(s[i]));
        if is_opener(s[i]) && j < s.len() {
            proof {
                lemma_next_at_bounds(s, i + 1, closer_of(s[i]));
            }
            let rest = cut_notes_from(s, j + 1);
            if is_release_note(s.subrange(i + 1, j)) {
                (rest.0, true)
            } else {
                (s.subrange(i, j + 1) + rest.0, rest.1)
            }
        } else {
            let rest = cut_notes_from(s, i + 1);
            (seq![s[i]] + rest.0, rest.1)
        }
    }
}

/// Tracks whose title holds a bracketed release note.
pub open spec fn has_release_note(t: Track) -> bool {
    cut_notes_from(t.title@, 0).1
}

/// `c` is `t` with the bracketed release notes taken out of the title, which
/// is then trimmed.
pub open spec fn brackets_removed(t: Track, c: Track) -> bool {
    &&& same_but_title(t, c)
    &&& c.title@ == trimmed(cut_notes_from(t.title@, 0).0)
}

/// Cutting notes from position `i` on only ever removes characters: text
/// without `(` or `[` comes back whole with nothing cut, and whenever a note
/// was cut the result is shorter than the text.
proof fn lemma_cut_notes_shape(s: Seq<char>, i: int)
    requires
        0 <= i <= s.len(),
    ensures
        cut_notes_from(s, i).0.len() + (if cut_notes_from(s, i).1 { 1int } else { 0int }) <= s.len() - i,
        (forall|j: int| i <= j < s.len() ==> !is_opener(#[trigger] s[j])) ==> cut_notes_from(s, i) == (s.skip(i), false),
    decreases s.len() - i,
{
    if i < s.len() {
        let j = next_at(s, i + 1, closer_of(s[i]));
        lemma_next_at_bounds(s, i + 1, closer_of(s[i]));
        if is_opener(s[i]) && j < s.len() {
            lemma_cut_notes_shape(s, j + 1);
        } else {
            lemma_cut_notes_shape(s, i + 1);
            if forall|k: int| i <= k < s.len() ==> !is_opener(#[trigger] s[k]) {
                assert forall|k: int| i + 1 <= k < s.len() implies !is_opener(#[trigger] s[k]) by {}
                assert(seq![s[i]] + s.skip(i + 1) =~= s.skip(i));
            }
        }
    } else {
        assert(s.skip(i) =~= Seq::<char>::empty());
    }
}

/// The bracket tool never picks a title without `(` or `[`, and an edited
/// title is strictly shorter than the old one before trimming.
pub proof fn lemma_brackets_need_a_group(t: Track, c: Track)
    ensures
        (forall|j: int| 0 <= j < t.title@.len() ==> #[trigger] t.title@[j] != '(' && t.title@[j] != '[') ==> !has_release_note(t),
        has_release_note(t) ==> cut_notes_from(t.title@, 0).0.len() < t.title@.len(),
        brackets_removed(t, c) && has_release_note(t) ==> c.title@.len() < t.title@.len(),
{
    lemma_cut_notes_shape(t.title@, 0);
    lemma_trimmed_infix(cut_notes_from(t.title@, 0).0);
}

/// Takes every bracketed group whose text mentions `official` or `audio` (in
/// any ASCII case) out of `title`, and tells whether there was one.
pub fn cut_release_notes(title: &str) -> (r: (String, bool))
    ensures
        (r.0@, r.1) == cut_notes_from(title@, 0),
{
    let official_str = "official";
    let audio_str = "audio";
    proof {
        reveal_strlit("official");
        reveal_strlit("audio");
        assert(official_str@ =~= official());
        assert(audio_str@ =~= audio());
    }
    let v = chars_of(title);
    let n = v.len();
    let mut out = String::new();
    let mut found = false;
    let mut i: usize = 0;
    proof {
        assert(out@ + cut_notes_from(v@, 0).0 =~= cut_notes_from(v@, 0).0);
    }
    while i < n
        invariant
            v@ == title@,
            n == v.len(),
            i <= n,
            official_str@ == official(),
            audio_str@ == audio(),
            cut_notes_from(v@, 0) == (out@ + cut_notes_from(v@, i as int).0, found || cut_notes_from(v@, i as int).1),
        decreases n - i,
    {
        let c = v[i];
        let opener = c == '(' || c == '[';
        let close = if c == '(' { ')' } else { ']' };
        let mut j: usize = i + 1;
        while j < n && v[j] != close
            invariant
                i + 1 <= j <= n,
                n == v.len(),
                next_at(v@, i + 1, close) == next_at(v@, j as int, close),
            decreases n - j,
        {
            j += 1;
        }
        let ghost rest_i = cut_notes_from(v@, i as int);
        proof {
            assert(close == closer_of(v@[i as int]));
            assert(next_at(v@, i + 1, close) == j);
        }
        if opener && j < n {
            let ghost rest_j = cut_notes_from(v@, j + 1);
            let inner = string_from(&v, i + 1, j);
            let lower = to_ascii_lowercase(inner.as_str());
            let note = contains_str(lower.as_str(), official_str) || contains_str(lower.as_str(), audio_str);
            proof {
                assert(note == is_release_note(v@.subrange(i + 1, j as int)));
            }
            if note {
                found = true;
                proof {
                    assert(rest_i == (rest_j.0, true));
                }
            } else {
                let ghost before = out@;
                let piece = string_from(&v, i, j + 1);
                out.append(piece.as_str());
                proof {
                    assert(rest_i == (v@.subrange(i as int, j + 1) + rest_j.0, rest_j.1));
                    assert(out@ + rest_j.0 =~= before + rest_i.0);
                }
            }
            i = j + 1;
        } else {
            let ghost before = out@;
            push_char(&mut out, c);
            proof {
                let rest = cut_notes_from(v@, i + 1);
                assert(rest_i == (seq![c] + rest.0, rest.1));
                assert(out@ + rest.0 =~= before + rest_i.0);
            }
            i += 1;
        }
    }
    proof {
        assert(out@ + Seq::<char>::empty() =~= out@);
    }
    (out, found)
}

/// The edits that take bracketed release notes such as `(Official Audio)`
/// out of titles.
pub fn remove_unneeded_brackets_edits(tracks: &Vec<Track>) -> (r: Vec<(usize, Track, Track)>)
    ensures
        edits_for(r@, tracks@, |t: Track| has_release_note(t), |t: Track, c: Track| brackets_removed(t, c)),
{
    let ghost pred = |t: Track| has_release_note(t);
    let ghost change = |t: Track, c: Track| brackets_removed(t, c);
    let mut out: Vec<(usize, Track, Track)> = Vec::new();
    let mut i: usize = 0;
    while i < tracks.len()
        invariant
            i <= tracks.len(),
            pred == (|t: Track| has_release_note(t)),
            change == (|t: Track, c: Track| brackets_removed(t, c)),
            out@.map_values(|e: (usize, Track, Track)| e.0) == indices_where(tracks@.take(i as int), pred),
            forall|k: int| 0 <= k < out.len() ==> {
                &&& (#[trigger] out@[k]).0 < i
                &&& same_track(out@[k].1, tracks@[out@[k].0 as int])
                &&& change(tracks@[out@[k].0 as int], out@[k].2)
            },
        decreases tracks.len() - i,
    {
        let ghost before = out@;
        proof {
            assert(tracks@.take(i + 1).drop_last() =~= tracks@.take(i as int));
            assert(tracks@.take(i + 1).last() == tracks@[i as int]);
        }
        let t = &tracks[i];
        let (cut, noted) = cut_release_notes(t.title.as_str());
        if noted {
            let unchanged = t.clone();
            let mut changed = t.clone();
            changed.title = trim(cut.as_str());
            out.push((i, unchanged, changed));
            proof {
                assert(pred(tracks@[i as int]));
                assert(out@.map_values(|e: (usize, Track, Track)| e.0) =~= before.map_values(|e: (usize, Track, Track)| e.0).push(i));
            }
        } else {
            proof {
                assert(!pred(tracks@[i as int]));
            }
        }
        i += 1;
    }
    assert(tracks@.take(tracks.len() as int) =~= tracks@);
    out
}

/// The tools of the bulk editor.
#[derive(Debug, PartialEq, Eq, Structural, Clone, Copy)]
pub enum BulkEditorTool {
    RemoveTopic,
    SplitArtists,
    SplitTitleArtist,
    RemoveUnneededBrackets,
}

/// The edits that `tool` proposes for `tracks`.
pub fn load_edits(tool: BulkEditorTool, tracks: &Vec<Track>) -> (r: Vec<(usize, Track, Track)>)
    ensures
        match tool {
            BulkEditorTool::RemoveTopic => edits_for(r@, tracks@, |t: Track| has_topic_artist(t), |t: Track, c: Track| topic_removed(t, c)),
            BulkEditorTool::SplitArtists => edits_for(r@, tracks@, |t: Track| needs_artist_split(t), |t: Track, c: Track| artists_split(t, c)),
            BulkEditorTool::SplitTitleArtist => edits_for(r@, tracks@, |t: Track| title_names_artist(t), |t: Track, c: Track| title_artist_split(t, c)),
            BulkEditorTool::RemoveUnneededBrackets => edits_for(r@, tracks@, |t: Track| has_release_note(t), |t: Track, c: Track| brackets_removed(t, c)),
        },
{
    match tool {
        BulkEditorTool::SplitArtists => split_artists_edits(tracks),
        BulkEditorTool::SplitTitleArtist => split_title_artist_edits(tracks),
        BulkEditorTool::RemoveTopic => remove_topic_edits(tracks),
        BulkEditorTool::RemoveUnneededBrackets => remove_unneeded_brackets_edits(tracks),
    }
}

/// The menus of library management.
#[derive(Debug, PartialEq, Eq, Structural, Clone, Copy)]
pub enum LibraryMenu {
    Duplicates,
    Autotagging,
    BulkEditor,
}

// ---------------------------------------------------------------------------
// Tag checks
// ---------------------------------------------------------------------------

/// The genres that are too broad to tell tracks apart.
pub open spec fn is_bad_genre(g: Seq<char>) -> bool {
    ||| g == seq!['T', 'r', 'a', 'n', 'c', 'e']
    ||| g == seq!['E', 'l', 'e', 'c', 't', 'r', 'o', 'n', 'i', 'c']
    ||| g == seq!['J', 'a', 'z', 'z']
    ||| g == seq!['P', 'o', 'p']
    ||| g == seq!['A', 'm', 'b', 'i', 'e', 'n', 't']
    ||| g == seq!['R', 'n', 'b']
}

/// How many of `gs` are too broad.
pub open spec fn bad_count(gs: Seq<Seq<char>>) -> nat
    decreases gs.len(),
{
    if gs.len() == 0 {
        0
    } else {
        bad_count(gs.drop_last()) + if is_bad_genre(gs.last()) { 1nat } else { 0nat }
    }
}

/// Whether `genre` is one of the too-broad genres Trance, Electronic, Jazz,
/// Pop, Ambient and Rnb.
pub fn bad_genre(genre: &str) -> (r: bool)
    ensures
        r == is_bad_genre(genre@),
{
    let g = String::from_str(genre);
    let names = [
        String::from_str("Trance"),
        String::from_str("Electronic"),
        String::from_str("Jazz"),
        String::from_str("Pop"),
        String::from_str("Ambient"),
        String::from_str("Rnb"),
    ];
    proof {
        reveal_strlit("Trance");
        reveal_strlit("Electronic");
        reveal_strlit("Jazz");
        reveal_strlit("Pop");
        reveal_strlit("Ambient");
        reveal_strlit("Rnb");
        assert(names[0]@ =~= seq!['T', 'r', 'a', 'n', 'c', 'e']);
        assert(names[1]@ =~= seq!['E', 'l', 'e', 'c', 't', 'r', 'o', 'n', 'i', 'c']);
        assert(names[2]@ =~= seq!['J', 'a', 'z', 'z']);
        assert(names[3]@ =~= seq!['P', 'o', 'p']);
        assert(names[4]@ =~= seq!['A', 'm', 'b', 'i', 'e', 'n', 't']);
        assert(names[5]@ =~= seq!['R', 'n', 'b']);
    }
    g == names[0] || g == names[1] || g == names[2] || g == names[3] || g == names[4] || g == names[5]
}

/// Whether at least two of the track's genres are too broad.
pub fn bad_genres(track: &Track) -> (r: bool)
    ensures
        r == (bad_count(views(track.genre@)) >= 2),
{
    let mut count: usize = 0;
    let mut i: usize = 0;
    while i < track.genre.len()
        invariant
            i <= track.genre.len(),
            count == bad_count(views(track.genre@).take(i as int)),
            count <= i,
        decreases track.genre.len() - i,
    {
        proof {
            assert(views(track.genre@).take(i + 1).drop_last() =~= views(track.genre@).take(i as int));
            assert(views(track.genre@).take(i + 1).last() == track.genre@[i as int]@);
        }
        if bad_genre(track.genre[i].as_str()) {
            count += 1;
        }
        i += 1;
    }
    assert(views(track.genre@).take(track.genre.len() as int) =~= views(track.genre@));
    count >= 2
}

/// The text `music`.
pub open spec fn music() -> Seq<char> {
    seq!['m', 'u', 's', 'i', 'c']
}

/// Tracks without a real album: none at all, or one called `music` in any
/// ASCII case.
pub open spec fn lacks_album(t: Track) -> bool {
    t.album@.len() == 0 || t.album@.map_values(|c: char| ascii_lower(c)) == music()
}

/// Tracks without genres: none at all, or an empty first one.
pub open spec fn lacks_genres(t: Track) -> bool {
    t.genre.len() == 0 || t.genre@[0]@.len() == 0
}

/// Tracks with at least two too-broad genres.
pub open spec fn has_bad_genres(t: Track) -> bool {
    bad_count(views(t.genre@)) >= 2
}

/// The tracks whose tags need attention, each list in library order.
#[derive(Debug)]
pub struct TagGaps {
    pub no_album: Vec<usize>,
    pub no_genres: Vec<usize>,
    pub bad_genres: Vec<usize>,
}

/// Finds the tracks without an album, without genres, and with too-broad genres.
pub fn tag_gaps(tracks: &Vec<Track>) -> (r: TagGaps)
    ensures
        r.no_album@ == indices_where(tracks@, |t: Track| lacks_album(t)),
        r.no_genres@ == indices_where(tracks@, |t: Track| lacks_genres(t)),
        r.bad_genres@ == indices_where(tracks@, |t: Track| has_bad_genres(t)),
{
    let music_str = String::from_str("music");
    proof {
        reveal_strlit("music");
        assert(music_str@ =~= music());
    }
    let mut no_album: Vec<usize> = Vec::new();
    let mut no_genres: Vec<usize> = Vec::new();
    let mut bad: Vec<usize> = Vec::new();
    let mut i: usize = 0;
    while i < tracks.len()
        invariant
            i <= tracks.len(),
            music_str@ == music(),
            no_album@ == indices_where(tracks@.take(i as int), |t: Track| lacks_album(t)),
            no_genres@ == indices_where(tracks@.take(i as int), |t: Track| lacks_genres(t)),
            bad@ == indices_where(tracks@.take(i as int), |t: Track| has_bad_genres(t)),
        decreases tracks.len() - i,
    {
        proof {
            assert(tracks@.take(i + 1).drop_last() =~= tracks@.take(i as int));
            assert(tracks@.take(i + 1).last() == tracks@[i as int]);
        }
        let t = &tracks[i];
        let lower = to_ascii_lowercase(t.album.as_str());
        if t.album.as_str().unicode_len() == 0 || lower == music_str {
            no_album.push(i);
        }
        if t.genre.len() == 0 || t.genre[0].as_str().unicode_len() == 0 {
            no_genres.push(i);
        }
        if bad_genres(t) {
            bad.push(i);
        }
        i += 1;
    }
    assert(tracks@.take(tracks.len() as int) =~= tracks@);
    TagGaps { no_album, no_genres, bad_genres: bad }
}

/// The track whose tag suggestions are fetched next, after track `cached`:
/// the last remaining track without an album (taken off the list), then,
/// once those are done, a single restart at track 0, and from then on the
/// track after `cached`.
pub fn next_fetch(no_album: &mut Vec<usize>, restarted: &mut bool, cached: usize) -> (r: usize)
    requires
        old(no_album).len() > 0 || !*old(restarted) || cached < usize::MAX,
    ensures
        old(no_album).len() > 0 ==> {
            &&& r == old(no_album)@.last()
            &&& final(no_album)@ == old(no_album)@.drop_last()
            &&& *final(restarted) == *old(restarted)
        },
        old(no_album).len() == 0 && !*old(restarted) ==> {
            &&& r == 0
            &&& *final(restarted)
            &&& final(no_album)@ == old(no_album)@
        },
        old(no_album).len() == 0 && *old(restarted) ==> {
            &&& r == cached + 1
            &&& *final(restarted)
            &&& final(no_album)@ == old(no_album)@
        },
{
    match no_album.pop() {
        Some(i) => i,
        None => {
            if !*restarted {
                *restarted = true;
                0
            } else {
                cached + 1
            }
        },
    }
}

/// The number of fetched suggestions above which fetching pauses.
pub open spec fn fetch_cache_limit() -> nat {
    10
}

/// Whether the cache of fetched suggestions is full, so that fetching waits.
pub fn fetch_cache_full(cached: usize) -> (r: bool)
    ensures
        r == (cached > fetch_cache_limit()),
{
    cached > 10
}

// ---------------------------------------------------------------------------
// Tag editor
// ---------------------------------------------------------------------------

/// The artists that the tag editor's "split by comma" makes of `artist`:
/// `feat.` becomes a comma, the name is split at commas and ampersands, and
/// every piece is trimmed.
pub open spec fn comma_split(artist: Seq<char>) -> Seq<Seq<char>> {
    split_chars(replace_all(artist, feat(), seq![',']), artist_separators()).map_values(|p: Seq<char>| trimmed(p))
}

/// Splits one artist field into several artists, as the tag editor's
/// "split by comma" does.
pub fn split_by_comma(artist: &str) -> (r: Vec<String>)
    ensures
        views(r@) == comma_split(artist@),
{
    let feat_str = "feat.";
    let comma = ",";
    let mut seps: Vec<char> = Vec::new();
    seps.push(',');
    seps.push('&');
    proof {
        reveal_strlit("feat.");
        reveal_strlit(",");
        assert(feat_str@ =~= feat());
        assert(comma@ =~= seq![',']);
        assert(seps@ =~= artist_separators());
    }
    let joined = replace(artist, feat_str, comma);
    let pieces = split_any(joined.as_str(), &seps);
    let mut out: Vec<String> = Vec::new();
    push_trimmed(&mut out, &pieces);
    assert(views(out@) =~= comma_split(artist@));
    out
}

/// The tag editor's "split by comma": the first artist field becomes the
/// artists it names; the other fields are kept.
pub fn split_first_artist(tag: &mut Track)
    requires
        old(tag).artists.len() > 0,
    ensures
        views(final(tag).artists@) == comma_split(old(tag).artists@[0]@),
        final(tag).file == old(tag).file,
        final(tag).title == old(tag).title,
        final(tag).album == old(tag).album,
        final(tag).genre == old(tag).genre,
        final(tag).year == old(tag).year,
        final(tag).len == old(tag).len,
{
    let split = split_by_comma(tag.artists[0].as_str());
    tag.artists = split;
}

/// The tag editor's "Remove" beside artist `i`.
pub fn remove_artist(tag: &mut Track, i: usize)
    requires
        i < old(tag).artists.len(),
    ensures
        final(tag).artists@ == old(tag).artists@.remove(i as int),
        final(tag).file == old(tag).file,
        final(tag).title == old(tag).title,
        final(tag).album == old(tag).album,
        final(tag).genre == old(tag).genre,
        final(tag).year == old(tag).year,
        final(tag).len == old(tag).len,
{
    tag.artists.remove(i);
}

/// The tag editor's "+ Artist": an empty artist field at the end.
pub fn add_artist(tag: &mut Track)
    ensures
        final(tag).artists@.len() == old(tag).artists@.len() + 1,
        final(tag).artists@.drop_last() == old(tag).artists@,
        final(tag).artists@.last()@ == Seq::<char>::empty(),
        final(tag).file == old(tag).file,
        final(tag).title == old(tag).title,
        final(tag).album == old(tag).album,
        final(tag).genre == old(tag).genre,
        final(tag).year == old(tag).year,
        final(tag).len == old(tag).len,
{
    tag.artists.push(String::new());
    proof {
        assert(tag.artists@.drop_last() =~= old(tag).artists@);
    }
}

/// The tag editor's "Remove" beside genre `i`.
pub fn remove_genre(tag: &mut Track, i: usize)
    requires
        i < old(tag).genre.len(),
    ensures
        final(tag).genre@ == old(tag).genre@.remove(i as int),
        final(tag).file == old(tag).file,
        final(tag).title == old(tag).title,
        final(tag).album == old(tag).album,
        final(tag).artists == old(tag).artists,
        final(tag).year == old(tag).year,
        final(tag).len == old(tag).len,
{
    tag.genre.remove(i);
}

/// The tag editor's "+ Genre", and Enter in the last genre field: an empty
/// genre field at the end.
pub fn add_genre(tag: &mut Track)
    ensures
        final(tag).genre@.len() == old(tag).genre@.len() + 1,
        final(tag).genre@.drop_last() == old(tag).genre@,
        final(tag).genre@.last()@ == Seq::<char>::empty(),
        final(tag).file == old(tag).file,
        final(tag).title == old(tag).title,
        final(tag).album == old(tag).album,
        final(tag).artists == old(tag).artists,
        final(tag).year == old(tag).year,
        final(tag).len == old(tag).len,
{
    tag.genre.push(String::new());
    proof {
        assert(tag.genre@.drop_last() =~= old(tag).genre@);
    }
}

/// Enter in genre field `i`: the last field gets an empty one after it, any
/// other field leaves the genres as they are. Returns the field to move to.
pub fn genre_entered(tag: &mut Track, i: usize) -> (next: usize)
    requires
        i < old(tag).genre.len(),
    ensures
        next == i + 1,
        i + 1 == old(tag).genre.len() ==> final(tag).genre@ == old(tag).genre@.push(final(tag).genre@.last())
            && final(tag).genre@.last()@ == Seq::<char>::empty(),
        i + 1 < old(tag).genre.len() ==> final(tag).genre == old(tag).genre,
        final(tag).file == old(tag).file,
        final(tag).title == old(tag).title,
        final(tag).album == old(tag).album,
        final(tag).artists == old(tag).artists,
        final(tag).year == old(tag).year,
        final(tag).len == old(tag).len,
{
    if i == tag.genre.len() - 1 {
        tag.genre.push(String::new());
    }
    i + 1
}

} // verus!
