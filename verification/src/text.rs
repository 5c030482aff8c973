//! Character-level text helpers: classification, trimming, splitting,
//! searching and replacing, each stated over sequences of characters.
use vstd::prelude::*;

verus! {

// ---------------------------------------------------------------------------
// Character classes
// ---------------------------------------------------------------------------

/// The Unicode `White_Space` property.
pub open spec fn is_white_space(c: char) -> bool {
    let n = c as u32;
    ||| 0x09 <= n <= 0x0D
    ||| n == 0x20
    ||| n == 0x85
    ||| n == 0xA0
    ||| n == 0x1680
    ||| 0x2000 <= n <= 0x200A
    ||| n == 0x2028
    ||| n == 0x2029
    ||| n == 0x202F
    ||| n == 0x205F
    ||| n == 0x3000
}

/// ASCII punctuation: the graphic ASCII characters that are neither letters nor digits.
pub open spec fn is_ascii_punct(c: char) -> bool {
    let n = c as u32;
    ||| 0x21 <= n <= 0x2F
    ||| 0x3A <= n <= 0x40
    ||| 0x5B <= n <= 0x60
    ||| 0x7B <= n <= 0x7E
}

/// Whether `c` is white space, as `char::is_whitespace` decides it: the
/// characters with the Unicode `White_Space` property.
pub(crate) fn char_is_whitespace(c: char) -> (r: bool)
    ensures
        r == is_white_space(c),
{
    let n = c as u32;
    (0x09 <= n && n <= 0x0D) || n == 0x20 || n == 0x85 || n == 0xA0 || n == 0x1680
        || (0x2000 <= n && n <= 0x200A) || n == 0x2028 || n == 0x2029 || n == 0x202F
        || n == 0x205F || n == 0x3000
}

/// Whether `c` is ASCII punctuation, as `char::is_ascii_punctuation`
/// decides it: the four ranges of graphic ASCII characters that are neither
/// letters nor digits.
pub(crate) fn char_is_ascii_punctuation(c: char) -> (r: bool)
    ensures
        r == is_ascii_punct(c),
{
    let n = c as u32;
    (0x21 <= n && n <= 0x2F) || (0x3A <= n && n <= 0x40) || (0x5B <= n && n <= 0x60)
        || (0x7B <= n && n <= 0x7E)
}

/// The Unicode lower-case form of a string, as computed by `str::to_lowercase`.
pub uninterp spec fn lowercase(s: Seq<char>) -> Seq<char>;

/// `str::to_lowercase`: the result is the Unicode lower-case form of `s`
/// (`lowercase`), which depends on `s` alone. Nothing more is said of it here.
#[verifier::external_body]
pub(crate) fn to_lowercase(s: &str) -> (r: String)
    ensures
        r@ == lowercase(s@),
{
    s.to_lowercase()
}

/// ASCII lower-casing of one character.
pub open spec fn ascii_lower(c: char) -> char {
    if 'A' <= c <= 'Z' {
        ((c as u32) + 32) as char
    } else {
        c
    }
}

/// `String::push`: appends one character.
#[verifier::external_body]
pub(crate) fn push_char(s: &mut String, c: char)
    ensures
        final(s)@ == old(s)@.push(c),
{
    s.push(c)
}

// ---------------------------------------------------------------------------
// Building strings
// ---------------------------------------------------------------------------

/// The views of a sequence of strings.
pub open spec fn views(v: Seq<String>) -> Seq<Seq<char>> {
    v.map_values(|x: String| x@)
}

/// The characters of `s`, in order.
pub fn chars_of(s: &str) -> (r: Vec<char>)
    ensures
        r@ == s@,
{
    let mut v: Vec<char> = Vec::new();
    for c in it: s.chars()
        invariant
            v@ == it.seq().take(it.index() as int),
            it.seq() == s@,
    {
        v.push(c);
    }
    v
}

/// The string made of `v[lo..hi]`.
pub fn string_from(v: &Vec<char>, lo: usize, hi: usize) -> (r: String)
    requires
        lo <= hi <= v.len(),
    ensures
        r@ == v@.subrange(lo as int, hi as int),
{
    let mut s = String::new();
    let mut i = lo;
    while i < hi
        invariant
            lo <= i <= hi <= v.len(),
            s@ == v@.subrange(lo as int, i as int),
        decreases hi - i,
    {
        push_char(&mut s, v[i]);
        i += 1;
        assert(s@ =~= v@.subrange(lo as int, i as int));
    }
    s
}

/// ASCII lower-casing of a whole string: `A`-`Z` become `a`-`z`, everything else is kept.
pub fn to_ascii_lowercase(s: &str) -> (r: String)
    ensures
        r@ == s@.map_values(|c: char| ascii_lower(c)),
{
    let v = chars_of(s);
    let mut out = String::new();
    let mut i: usize = 0;
    while i < v.len()
        invariant
            i <= v.len(),
            v@ == s@,
            out@ == v@.take(i as int).map_values(|c: char| ascii_lower(c)),
        decreases v.len() - i,
    {
        let c = v[i];
        let l = if 'A' <= c && c <= 'Z' {
            let n: u32 = (c as u32) + 32;
            char_from_ascii(n)
        } else {
            c
        };
        push_char(&mut out, l);
        i += 1;
        assert(out@ =~= v@.take(i as int).map_values(|c: char| ascii_lower(c)));
    }
    assert(v@.take(v.len() as int) =~= v@);
    out
}

/// The character with an ASCII code point.
fn char_from_ascii(n: u32) -> (c: char)
    requires
        n < 128,
    ensures
        c as u32 == n,
        c == n as char,
{
    let b: u8 = n as u8;
    b as char
}

// ---------------------------------------------------------------------------
// Matching
// ---------------------------------------------------------------------------

/// `p` occurs in `s` starting at position `i`.
pub open spec fn occurs_at(s: Seq<char>, p: Seq<char>, i: int) -> bool {
    0 <= i && i + p.len() <= s.len() && s.subrange(i, i + p.len()) == p
}

/// `p` occurs somewhere in `s`.
pub open spec fn has_substring(s: Seq<char>, p: Seq<char>) -> bool {
    exists|i: int| occurs_at(s, p, i)
}

/// `s` begins with `p`.
pub open spec fn begins_with(s: Seq<char>, p: Seq<char>) -> bool {
    occurs_at(s, p, 0)
}

/// `s` ends with `p`.
pub open spec fn finishes_with(s: Seq<char>, p: Seq<char>) -> bool {
    p.len() <= s.len() && occurs_at(s, p, s.len() - p.len())
}

/// Whether `p` occurs in `s` at position `i`.
pub fn matches_at(s: &Vec<char>, p: &Vec<char>, i: usize) -> (r: bool)
    ensures
        r == occurs_at(s@, p@, i as int),
{
    if p.len() > s.len() || i > s.len() - p.len() {
        return false;
    }
    let mut j: usize = 0;
    while j < p.len()
        invariant
            i + p.len() <= s.len(),
            j <= p.len(),
            forall|k: int| 0 <= k < j ==> s@[i + k] == p@[k],
        decreases p.len() - j,
    {
        if s[i + j] != p[j] {
            assert(s@.subrange(i as int, i + p.len())[j as int] != p@[j as int]);
            return false;
        }
        j += 1;
    }
    assert(s@.subrange(i as int, i + p.len()) =~= p@);
    true
}

/// Whether `pat` occurs anywhere in `s`.
pub fn contains_str(s: &str, pat: &str) -> (r: bool)
    ensures
        r == has_substring(s@, pat@),
{
    let v = chars_of(s);
    let p = chars_of(pat);
    if p.len() > v.len() {
        assert forall|i: int| !occurs_at(s@, pat@, i) by {}
        return false;
    }
    let last = v.len() - p.len();
    let mut i: usize = 0;
    while i < last
        invariant
            v@ == s@,
            p@ == pat@,
            last == v.len() - p.len(),
            i <= last,
            forall|k: int| 0 <= k < i ==> !occurs_at(s@, pat@, k),
        decreases last - i,
    {
        if matches_at(&v, &p, i) {
            return true;
        }
        i += 1;
    }
    if matches_at(&v, &p, last) {
        return true;
    }
    assert forall|k: int| !occurs_at(s@, pat@, k) by {
        if 0 <= k && k < i {
        }
    }
    false
}

/// Whether `s` begins with `pat`.
pub fn starts_with(s: &str, pat: &str) -> (r: bool)
    ensures
        r == begins_with(s@, pat@),
{
    let v = chars_of(s);
    let p = chars_of(pat);
    matches_at(&v, &p, 0)
}

/// Whether `s` ends with `pat`.
pub fn ends_with(s: &str, pat: &str) -> (r: bool)
    ensures
        r == finishes_with(s@, pat@),
{
    let v = chars_of(s);
    let p = chars_of(pat);
    if p.len() > v.len() {
        return false;
    }
    matches_at(&v, &p, v.len() - p.len())
}

// ---------------------------------------------------------------------------
// Trimming
// ---------------------------------------------------------------------------

/// `s` without its leading white space.
pub open spec fn trim_start(s: Seq<char>) -> Seq<char>
    decreases s.len(),
{
    if s.len() > 0 && is_white_space(s[0]) {
        trim_start(s.drop_first())
    } else {
        s
    }
}

/// `s` without its trailing white space.
pub open spec fn trim_end(s: Seq<char>) -> Seq<char>
    decreases s.len(),
{
    if s.len() > 0 && is_white_space(s.last()) {
        trim_end(s.drop_last())
    } else {
        s
    }
}

/// `s` without leading or trailing white space, as `str::trim` gives it.
pub open spec fn trimmed(s: Seq<char>) -> Seq<char> {
    trim_end(trim_start(s))
}

proof fn lemma_trim_start_skip(s: Seq<char>, i: int)
    requires
        0 <= i <= s.len(),
        forall|k: int| 0 <= k < i ==> is_white_space(s[k]),
    ensures
        trim_start(s) == trim_start(s.skip(i)),
    decreases i,
{
    if i > 0 {
        assert(s.skip(1) =~= s.drop_first());
        lemma_trim_start_skip(s.drop_first(), i - 1);
        assert(s.drop_first().skip(i - 1) =~= s.skip(i));
    } else {
        assert(s.skip(0) =~= s);
    }
}

proof fn lemma_trim_end_take(s: Seq<char>, lo: int, hi: int)
    requires
        0 <= lo <= hi <= s.len(),
        forall|k: int| hi <= k < s.len() ==> is_white_space(s[k]),
    ensures
        trim_end(s.subrange(lo, s.len() as int)) == trim_end(s.subrange(lo, hi)),
    decreases s.len() - hi,
{
    if hi < s.len() {
        let t = s.subrange(lo, s.len() as int);
        assert(t.drop_last() =~= s.drop_last().subrange(lo, s.len() - 1));
        lemma_trim_end_take(s.drop_last(), lo, hi);
        assert(s.drop_last().subrange(lo, hi) =~= s.subrange(lo, hi));
    }
}

/// The bounds `(lo, hi)` such that `v[lo..hi]` is `v` trimmed.
pub fn trim_bounds(v: &Vec<char>) -> (r: (usize, usize))
    ensures
        r.0 <= r.1 <= v.len(),
        v@.subrange(r.0 as int, r.1 as int) == trimmed(v@),
{
    let n = v.len();
    let mut lo: usize = 0;
    while lo < n && char_is_whitespace(v[lo])
        invariant
            lo <= n == v.len(),
            forall|k: int| 0 <= k < lo ==> is_white_space(v@[k]),
        decreases n - lo,
    {
        lo += 1;
    }
    proof {
        lemma_trim_start_skip(v@, lo as int);
        assert(v@.skip(lo as int) =~= v@.subrange(lo as int, n as int));
        if lo < n {
            assert(!is_white_space(v@.skip(lo as int)[0]));
        }
    }
    let mut hi: usize = n;
    while hi > lo && char_is_whitespace(v[hi - 1])
        invariant
            lo <= hi <= n == v.len(),
            forall|k: int| hi <= k < n ==> is_white_space(v@[k]),
        decreases hi,
    {
        hi -= 1;
    }
    proof {
        lemma_trim_end_take(v@, lo as int, hi as int);
        let t = v@.subrange(lo as int, hi as int);
        if t.len() > 0 {
            assert(t.last() == v@[hi - 1]);
        }
    }
    (lo, hi)
}

/// `s` without leading or trailing white space.
pub fn trim(s: &str) -> (r: String)
    ensures
        r@ == trimmed(s@),
{
    let v = chars_of(s);
    let (lo, hi) = trim_bounds(&v);
    string_from(&v, lo, hi)
}

// ---------------------------------------------------------------------------
// Splitting
// ---------------------------------------------------------------------------

/// The pieces of `s` between the characters that belong to `seps`, as
/// `str::split` with a set of separator characters gives them.
pub open spec fn split_chars(s: Seq<char>, seps: Seq<char>) -> Seq<Seq<char>>
    decreases s.len(),
{
    if s.len() == 0 {
        seq![Seq::<char>::empty()]
    } else {
        let rest = split_chars(s.drop_first(), seps);
        if seps.contains(s[0]) {
            seq![Seq::<char>::empty()] + rest
        } else {
            rest.update(0, seq![s[0]] + rest[0])
        }
    }
}

/// The pieces of `s` between the left-most, non-overlapping occurrences of
/// `p`, as `str::split` with a non-empty string pattern gives them.
pub open spec fn split_pat(s: Seq<char>, p: Seq<char>) -> Seq<Seq<char>>
    decreases s.len(),
{
    if p.len() > 0 && begins_with(s, p) {
        seq![Seq::<char>::empty()] + split_pat(s.skip(p.len() as int), p)
    } else if s.len() == 0 {
        seq![Seq::<char>::empty()]
    } else {
        let rest = split_pat(s.drop_first(), p);
        rest.update(0, seq![s[0]] + rest[0])
    }
}

/// `s` with every left-most, non-overlapping occurrence of `p` replaced by `r`.
pub open spec fn replace_all(s: Seq<char>, p: Seq<char>, r: Seq<char>) -> Seq<char>
    decreases s.len(),
{
    if p.len() > 0 && begins_with(s, p) {
        r + replace_all(s.skip(p.len() as int), p, r)
    } else if s.len() == 0 {
        Seq::<char>::empty()
    } else {
        seq![s[0]] + replace_all(s.drop_first(), p, r)
    }
}

/// Splitting at characters always gives at least one piece.
pub proof fn lemma_split_chars_nonempty(s: Seq<char>, seps: Seq<char>)
    ensures
        split_chars(s, seps).len() >= 1,
    decreases s.len(),
{
    if s.len() > 0 {
        lemma_split_chars_nonempty(s.drop_first(), seps);
    }
}

/// Splitting at a pattern always gives at least one piece.
pub proof fn lemma_split_pat_nonempty(s: Seq<char>, p: Seq<char>)
    ensures
        split_pat(s, p).len() >= 1,
    decreases s.len(),
{
    if p.len() > 0 && begins_with(s, p) {
        lemma_split_pat_nonempty(s.skip(p.len() as int), p);
    } else if s.len() > 0 {
        lemma_split_pat_nonempty(s.drop_first(), p);
    }
}

/// A string that holds the pattern splits into at least two pieces.
pub proof fn lemma_split_pat_two(s: Seq<char>, p: Seq<char>)
    requires
        p.len() > 0,
        has_substring(s, p),
    ensures
        split_pat(s, p).len() >= 2,
    decreases s.len(),
{
    let i = choose|i: int| occurs_at(s, p, i);
    if begins_with(s, p) {
        lemma_split_pat_nonempty(s.skip(p.len() as int), p);
    } else {
        assert(i != 0);
        assert(s.drop_first().subrange(i - 1, i - 1 + p.len()) =~= s.subrange(i, i + p.len()));
        assert(occurs_at(s.drop_first(), p, i - 1));
        lemma_split_pat_two(s.drop_first(), p);
    }
}

/// Splits `s` at every character of `seps`.
pub fn split_any(s: &str, seps: &Vec<char>) -> (r: Vec<String>)
    ensures
        views(r@) == split_chars(s@, seps@),
{
    let v = chars_of(s);
    let n = v.len();
    let mut done: Vec<String> = Vec::new();
    let mut start: usize = 0;
    let mut i: usize = 0;
    proof {
        assert(v@.skip(0) =~= v@);
        lemma_split_chars_nonempty(v@, seps@);
        assert(split_chars(v@, seps@) =~= views(done@) + seq![v@.subrange(0, 0) + split_chars(v@.skip(0), seps@)[0]]
            + split_chars(v@.skip(0), seps@).drop_first());
    }
    while i < n
        invariant
            n == v.len(),
            v@ == s@,
            start <= i <= n,
            split_chars(v@, seps@) == views(done@) + seq![v@.subrange(start as int, i as int) + split_chars(v@.skip(i as int), seps@)[0]]
                + split_chars(v@.skip(i as int), seps@).drop_first(),
        decreases n - i,
    {
        let c = v[i];
        let is_sep = contains_char(seps, c);
        let ghost rest = split_chars(v@.skip(i + 1), seps@);
        proof {
            assert(v@.skip(i as int).drop_first() =~= v@.skip(i + 1));
            assert(v@.skip(i as int)[0] == c);
            lemma_split_chars_nonempty(v@.skip(i + 1), seps@);
        }
        if is_sep {
            let piece = string_from(&v, start, i);
            let ghost old_done = views(done@);
            done.push(piece);
            proof {
                assert(views(done@) =~= old_done.push(v@.subrange(start as int, i as int)));
            }
            i += 1;
            start = i;
            proof {
                assert(v@.subrange(start as int, i as int) =~= Seq::<char>::empty());
                assert(split_chars(v@, seps@) =~= views(done@) + seq![v@.subrange(start as int, i as int) + rest[0]] + rest.drop_first());
            }
        } else {
            i += 1;
            proof {
                assert(v@.subrange(start as int, i - 1) + (seq![c] + rest[0]) =~= v@.subrange(start as int, i as int) + rest[0]);
                assert(split_chars(v@, seps@) =~= views(done@) + seq![v@.subrange(start as int, i as int) + rest[0]] + rest.drop_first());
            }
        }
    }
    let last = string_from(&v, start, n);
    let ghost old_done = views(done@);
    done.push(last);
    proof {
        assert(v@.skip(n as int) =~= Seq::<char>::empty());
        assert(views(done@) =~= old_done.push(v@.subrange(start as int, n as int)));
        assert(split_chars(v@, seps@) =~= views(done@));
    }
    done
}

/// Whether `c` is one of `set`.
pub fn contains_char(set: &Vec<char>, c: char) -> (r: bool)
    ensures
        r == set@.contains(c),
{
    let mut i: usize = 0;
    while i < set.len()
        invariant
            i <= set.len(),
            forall|k: int| 0 <= k < i ==> set@[k] != c,
        decreases set.len() - i,
    {
        if set[i] == c {
            return true;
        }
        i += 1;
    }
    false
}

/// Splits `s` at every left-most, non-overlapping occurrence of the non-empty `pat`.
pub fn split_str(s: &str, pat: &str) -> (r: Vec<String>)
    requires
        pat@.len() > 0,
    ensures
        views(r@) == split_pat(s@, pat@),
{
    let v = chars_of(s);
    let p = chars_of(pat);
    let n = v.len();
    let mut done: Vec<String> = Vec::new();
    let mut start: usize = 0;
    let mut i: usize = 0;
    proof {
        assert(v@.skip(0) =~= v@);
        lemma_split_pat_nonempty(v@, p@);
        assert(split_pat(v@, p@) =~= views(done@) + seq![v@.subrange(0, 0) + split_pat(v@.skip(0), p@)[0]]
            + split_pat(v@.skip(0), p@).drop_first());
    }
    while i < n
        invariant
            n == v.len(),
            v@ == s@,
            p@ == pat@,
            p@.len() > 0,
            start <= i <= n,
            split_pat(v@, p@) == views(done@) + seq![v@.subrange(start as int, i as int) + split_pat(v@.skip(i as int), p@)[0]]
                + split_pat(v@.skip(i as int), p@).drop_first(),
        decreases n - i,
    {
        let hit = matches_at(&v, &p, i);
        proof {
            assert(v@.skip(i as int).subrange(0, p@.len() as int) =~= v@.subrange(i as int, i + p@.len()) || !(i + p@.len() <= n));
        }
        if hit {
            let ghost rest = split_pat(v@.skip(i + p@.len()), p@);
            proof {
                assert(v@.skip(i as int).subrange(0, p@.len() as int) =~= v@.subrange(i as int, i + p@.len()));
                assert(begins_with(v@.skip(i as int), p@));
                assert(v@.skip(i as int).skip(p@.len() as int) =~= v@.skip(i + p@.len()));
                lemma_split_pat_nonempty(v@.skip(i + p@.len()), p@);
            }
            let piece = string_from(&v, start, i);
            let ghost old_done = views(done@);
            done.push(piece);
            proof {
                assert(views(done@) =~= old_done.push(v@.subrange(start as int, i as int)));
            }
            i += p.len();
            start = i;
            proof {
                assert(v@.subrange(start as int, i as int) =~= Seq::<char>::empty());
                assert(split_pat(v@, p@) =~= views(done@) + seq![v@.subrange(start as int, i as int) + rest[0]] + rest.drop_first());
            }
        } else {
            let ghost rest = split_pat(v@.skip(i + 1), p@);
            let c = v[i];
            proof {
                if begins_with(v@.skip(i as int), p@) {
                    assert(v@.skip(i as int).subrange(0, p@.len() as int) =~= v@.subrange(i as int, i + p@.len()));
                }
                assert(v@.skip(i as int).drop_first() =~= v@.skip(i + 1));
                assert(v@.skip(i as int)[0] == c);
                lemma_split_pat_nonempty(v@.skip(i + 1), p@);
            }
            i += 1;
            proof {
                assert(v@.subrange(start as int, i - 1) + (seq![c] + rest[0]) =~= v@.subrange(start as int, i as int) + rest[0]);
                assert(split_pat(v@, p@) =~= views(done@) + seq![v@.subrange(start as int, i as int) + rest[0]] + rest.drop_first());
            }
        }
    }
    let last = string_from(&v, start, n);
    let ghost old_done = views(done@);
    done.push(last);
    proof {
        assert(v@.skip(n as int) =~= Seq::<char>::empty());
        assert(views(done@) =~= old_done.push(v@.subrange(start as int, n as int)));
        assert(split_pat(v@, p@) =~= views(done@));
    }
    done
}

/// `s` with every left-most, non-overlapping occurrence of the non-empty `pat` replaced by `to`.
pub fn replace(s: &str, pat: &str, to: &str) -> (r: String)
    requires
        pat@.len() > 0,
    ensures
        r@ == replace_all(s@, pat@, to@),
{
    let v = chars_of(s);
    let p = chars_of(pat);
    let t = chars_of(to);
    let n = v.len();
    let mut out = String::new();
    let mut i: usize = 0;
    proof {
        assert(v@.skip(0) =~= v@);
    }
    while i < n
        invariant
            n == v.len(),
            v@ == s@,
            p@ == pat@,
            t@ == to@,
            p@.len() > 0,
            i <= n,
            replace_all(v@, p@, t@) == out@ + replace_all(v@.skip(i as int), p@, t@),
        decreases n - i,
    {
        if matches_at(&v, &p, i) {
            proof {
                assert(v@.skip(i as int).subrange(0, p@.len() as int) =~= v@.subrange(i as int, i + p@.len()));
                assert(v@.skip(i as int).skip(p@.len() as int) =~= v@.skip(i + p@.len()));
            }
            let mut j: usize = 0;
            let ghost before = out@;
            while j < t.len()
                invariant
                    j <= t.len(),
                    out@ == before + t@.take(j as int),
                decreases t.len() - j,
            {
                push_char(&mut out, t[j]);
                j += 1;
                assert(out@ =~= before + t@.take(j as int));
            }
            proof {
                assert(t@.take(t@.len() as int) =~= t@);
                assert(replace_all(v@, p@, t@) =~= out@ + replace_all(v@.skip(i + p@.len()), p@, t@));
            }
            i += p.len();
        } else {
            let c = v[i];
            proof {
                if begins_with(v@.skip(i as int), p@) {
                    assert(v@.skip(i as int).subrange(0, p@.len() as int) =~= v@.subrange(i as int, i + p@.len()));
                }
                assert(v@.skip(i as int).drop_first() =~= v@.skip(i + 1));
                assert(v@.skip(i as int)[0] == c);
            }
            let ghost before = out@;
            push_char(&mut out, c);
            proof {
                assert(replace_all(v@, p@, t@) =~= out@ + replace_all(v@.skip(i + 1), p@, t@));
            }
            i += 1;
        }
    }
    proof {
        assert(v@.skip(n as int) =~= Seq::<char>::empty());
        assert(out@ + Seq::<char>::empty() =~= out@);
    }
    out
}

} // verus!
