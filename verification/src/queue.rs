//! Play queues and the queue manager that moves through them.
use vstd::prelude::*;

use crate::text::views;
use crate::track::{
    is_similar, same_track, similar, strip_unnessecary, stripped, track_matches, Track, TrackInfo,
};
use rand::Rng;

verus! {

/// How a queue continues once its cached order runs out.
#[derive(PartialEq, Eq, Structural, Clone, Copy, Debug)]
pub enum ShuffleMode {
    PlaySimilar,
    Random,
    Ordered,
}

/// What a queue was built from.
#[derive(Debug)]
pub enum QueueType {
    AllTracks,
    Artist(String),
    Album(String),
    Genre(String),
    Union(Vec<QueueType>),
    Exclusion(Box<QueueType>),
}

/// The text `All Tracks`.
pub open spec fn all_tracks_label() -> Seq<char> {
    seq!['A', 'l', 'l', ' ', 'T', 'r', 'a', 'c', 'k', 's']
}

/// The text `Excluding `.
pub open spec fn excluding_label() -> Seq<char> {
    seq!['E', 'x', 'c', 'l', 'u', 'd', 'i', 'n', 'g', ' ']
}

/// How a queue type is shown: its name, or the names of a union's members
/// one after another.
pub open spec fn type_label(q: QueueType) -> Seq<char>
    decreases q, 0nat,
{
    match q {
        QueueType::AllTracks => all_tracks_label(),
        QueueType::Exclusion(e) => excluding_label() + type_label(*e),
        QueueType::Artist(a) => a@,
        QueueType::Album(a) => a@,
        QueueType::Genre(g) => g@,
        QueueType::Union(ts) => labels_of(ts@, ts@.len() as nat),
    }
}

/// The labels of the first `n` queue types of `ts`, one after another.
pub open spec fn labels_of(ts: Seq<QueueType>, n: nat) -> Seq<char>
    decreases ts, n,
{
    if n == 0 || n > ts.len() {
        Seq::<char>::empty()
    } else {
        labels_of(ts, (n - 1) as nat) + type_label(ts[n - 1])
    }
}

impl QueueType {
    /// The queue types whose membership a track can decide.
    pub open spec fn is_supported(self) -> bool {
        self is AllTracks || self is Artist || self is Album
    }

    /// How this queue type is shown: `All Tracks`, the artist, album or genre
    /// name, `Excluding ` followed by the excluded type, or the members of a
    /// union one after another.
    pub fn label(&self) -> (r: String)
        ensures
            r@ == type_label(*self),
        decreases self,
    {
        match self {
            QueueType::AllTracks => {
                let s = String::from_str("All Tracks");
                proof {
                    reveal_strlit("All Tracks");
                    assert(s@ =~= all_tracks_label());
                }
                s
            },
            QueueType::Exclusion(e) => {
                let mut s = String::from_str("Excluding ");
                proof {
                    reveal_strlit("Excluding ");
                    assert(s@ =~= excluding_label());
                }
                let inner = e.label();
                s.append(inner.as_str());
                s
            },
            QueueType::Artist(a) => a.clone(),
            QueueType::Album(a) => a.clone(),
            QueueType::Genre(g) => g.clone(),
            QueueType::Union(ts) => {
                let mut s = String::new();
                let mut i: usize = 0;
                while i < ts.len()
                    invariant
                        i <= ts.len(),
                        *self == QueueType::Union(*ts),
                        s@ == labels_of(ts@, i as nat),
                    decreases ts.len() - i,
                {
                    proof {
                        assert(decreases_to!(*self => (*self)->Union_0));
                        assert(decreases_to!(*ts => ts@));
                        assert(decreases_to!(ts@ => ts@[i as int]));
                    }
                    let l = ts[i].label();
                    s.append(l.as_str());
                    i += 1;
                }
                s
            },
        }
    }
}

/// One play queue: where it came from, the order of its tracks (indices into
/// the library), the position of the current track in that order, and how it
/// continues at its end.
#[derive(Debug)]
pub struct Queue {
    pub queue_type: QueueType,
    pub current_track: usize,
    pub cached_order: Vec<usize>,
    pub shuffle_mode: ShuffleMode,
}

impl Queue {
    /// A queue over `tracks`, positioned at its first track.
    pub fn new(queue_type: QueueType, shuffle_mode: ShuffleMode, tracks: Vec<usize>) -> (r: Self)
        ensures
            r.queue_type == queue_type,
            r.current_track == 0,
            r.cached_order@ == tracks@,
            r.shuffle_mode == shuffle_mode,
    {
        Queue { queue_type, current_track: 0, cached_order: tracks, shuffle_mode }
    }

    /// An empty queue positioned at `current_track`.
    pub fn new_from_pos(queue_type: QueueType, shuffle_mode: ShuffleMode, current_track: usize) -> (r: Self)
        ensures
            r.queue_type == queue_type,
            r.current_track == current_track,
            r.cached_order@.len() == 0,
            r.shuffle_mode == shuffle_mode,
    {
        Queue { queue_type, current_track, cached_order: Vec::new(), shuffle_mode }
    }

    /// An empty radio queue over the whole library.
    pub fn all() -> (r: Self)
        ensures
            r.queue_type is AllTracks,
            r.current_track == 0,
            r.cached_order@.len() == 0,
            r.shuffle_mode == ShuffleMode::PlaySimilar,
    {
        Queue {
            queue_type: QueueType::AllTracks,
            current_track: 0,
            cached_order: Vec::new(),
            shuffle_mode: ShuffleMode::PlaySimilar,
        }
    }

    /// A radio queue over the whole library that starts with track `idx`.
    pub fn all_pos(idx: usize) -> (r: Self)
        ensures
            r.queue_type is AllTracks,
            r.current_track == 0,
            r.cached_order@ == seq![idx],
            r.shuffle_mode == ShuffleMode::PlaySimilar,
    {
        let mut order: Vec<usize> = Vec::new();
        order.push(idx);
        Queue {
            queue_type: QueueType::AllTracks,
            current_track: 0,
            cached_order: order,
            shuffle_mode: ShuffleMode::PlaySimilar,
        }
    }

    /// The library index of the current track.
    pub fn current(&self) -> (r: usize)
        requires
            self.current_track < self.cached_order.len(),
        ensures
            r == self.cached_order@[self.current_track as int],
    {
        self.cached_order[self.current_track]
    }

    /// The library index of the track at position `idx` of this queue.
    pub fn track(&self, idx: usize) -> (r: usize)
        requires
            idx < self.cached_order.len(),
        ensures
            r == self.cached_order@[idx as int],
    {
        self.cached_order[idx]
    }
}

/// What the audio side has to do when the manager changes track: record a
/// listen of the track that was playing (if it was a track of the library),
/// then play `file`.
#[derive(Debug)]
pub struct PlayRequest {
    pub listened: Option<usize>,
    pub track: usize,
    pub file: String,
}

/// The result of skipping forward.
#[derive(Debug)]
pub enum SkipStep {
    /// A track was chosen; play it.
    Play(PlayRequest),
    /// The current radio queue has run out: a similar track has to be picked
    /// and handed to `play_similar`.
    NeedSimilar,
    /// Nothing follows; the manager did not change track.
    Stay,
}

/// Holds the library and the play queues, and decides which track plays.
#[derive(Debug)]
pub struct QueueManager {
    pub all_tracks: Vec<Track>,
    pub track_info: Vec<TrackInfo>,
    pub artists: Vec<String>,
    pub genres: Vec<String>,
    pub current_playing: usize,
    pub playing: bool,
    pub current_queue: usize,
    pub queues: Vec<Queue>,
    pub queue_tracks: Vec<Vec<usize>>,
}

/// The request that playing track `idx` of `m` makes.
pub open spec fn play_request_for(m: QueueManager, idx: usize, r: PlayRequest) -> bool {
    &&& r.listened == (if m.current_playing < m.all_tracks.len() { Some(m.current_playing) } else { None })
    &&& r.track == idx
    &&& r.file == m.all_tracks@[idx as int].file
}

/// `b` is `a` with the current track set to `idx` and nothing else changed.
pub open spec fn switched_to(a: QueueManager, b: QueueManager, idx: usize) -> bool {
    &&& b.current_playing == idx
    &&& b.all_tracks == a.all_tracks
    &&& b.track_info == a.track_info
    &&& b.artists == a.artists
    &&& b.genres == a.genres
    &&& b.playing == a.playing
    &&& b.current_queue == a.current_queue
    &&& b.queues == a.queues
    &&& b.queue_tracks == a.queue_tracks
}

/// `b` is `a` with only the queues (and which is current) changed.
pub open spec fn same_library(a: QueueManager, b: QueueManager) -> bool {
    &&& b.all_tracks == a.all_tracks
    &&& b.track_info == a.track_info
    &&& b.artists == a.artists
    &&& b.genres == a.genres
    &&& b.playing == a.playing
    &&& b.queue_tracks == a.queue_tracks
}

/// `b` and `r` are what going back from `a` gives (see `QueueManager::skipback`).
pub open spec fn skipped_back(a: QueueManager, b: QueueManager, near_start: bool, r: Option<PlayRequest>) -> bool {
    if near_start && a.cur().current_track == 0 {
        r is None && b == a
    } else {
        let pos = if near_start { (a.cur().current_track - 1) as usize } else { a.cur().current_track };
        let idx = a.cur().cached_order@[pos as int];
        &&& r matches Some(req) && play_request_for(a, idx, req)
        &&& b.current_playing == idx
        &&& same_library(a, b)
        &&& b.current_queue == a.current_queue
        &&& b.queues@ == a.queues@.update(a.current_queue as int, Queue { current_track: pos, ..a.cur() })
    }
}

/// `b` and `r` are what skipping forward from `a` gives (see `QueueManager::skip`).
pub open spec fn skipped(a: QueueManager, b: QueueManager, r: SkipStep) -> bool {
    let cq = a.current_queue;
    let q = a.cur();
    let next = (q.current_track + 1) as usize;
    &&& same_library(a, b)
    &&& b.queues@ == a.queues@.update(cq as int, Queue { current_track: next, ..q })
    &&& if next < q.cached_order.len() {
        let idx = q.cached_order@[next as int];
        &&& r matches SkipStep::Play(req) && play_request_for(a, idx, req)
        &&& b.current_playing == idx
        &&& b.current_queue == cq
    } else if q.shuffle_mode == ShuffleMode::PlaySimilar {
        &&& r is NeedSimilar
        &&& b.current_playing == a.current_playing
        &&& b.current_queue == cq
    } else if a.queues.len() > cq + 1 {
        let idx = a.queues@[cq + 1].cached_order@[0];
        &&& r matches SkipStep::Play(req) && play_request_for(a, idx, req)
        &&& b.current_playing == idx
        &&& b.current_queue == cq + 1
    } else {
        &&& r is Stay
        &&& b.current_playing == a.current_playing
        &&& b.current_queue == cq
    }
}

/// `b` and `r` are what appending `next` to the current queue of `a` and
/// playing it gives (see `QueueManager::play_similar`).
pub open spec fn played_similar(a: QueueManager, b: QueueManager, next: usize, r: PlayRequest) -> bool {
    &&& same_library(a, b)
    &&& play_request_for(a, next, r)
    &&& b.current_playing == next
    &&& b.current_queue == a.current_queue
    &&& b.queues@ == a.queues@.update(a.current_queue as int, Queue { cached_order: b.cur().cached_order, ..a.cur() })
    &&& b.cur().cached_order@ == a.cur().cached_order@.push(next)
}

/// The track playing is the current entry of the current queue.
pub open spec fn in_step(m: QueueManager) -> bool {
    &&& m.current_queue < m.queues.len()
    &&& m.cur().current_track < m.cur().cached_order.len()
    &&& m.cur().cached_order@[m.cur().current_track as int] == m.current_playing
}

/// Skipping back at once after a skip that stayed in the queue returns to the
/// track that was playing, with the queues as they were.
pub proof fn lemma_skipback_undoes_skip(
    a: QueueManager,
    b: QueueManager,
    c: QueueManager,
    r1: SkipStep,
    r2: Option<PlayRequest>,
)
    requires
        a.wf(),
        a.cur().current_track + 1 < a.cur().cached_order.len(),
        skipped(a, b, r1),
        skipped_back(b, c, true, r2),
    ensures
        c.queues@ == a.queues@,
        c.current_queue == a.current_queue,
        c.current_playing == a.cur().cached_order@[a.cur().current_track as int],
        same_library(a, c),
        in_step(c),
{
    let q = a.cur();
    assert(b.cur() == Queue { current_track: (q.current_track + 1) as usize, ..q });
    assert(c.queues@ =~= a.queues@);
}

/// Skipping within a queue keeps the playing track in step with the queue.
pub proof fn lemma_skip_keeps_step(a: QueueManager, b: QueueManager, r: SkipStep)
    requires
        a.wf(),
        a.cur().current_track + 1 < a.cur().cached_order.len(),
        skipped(a, b, r),
    ensures
        in_step(b),
        r is Play,
{
}

/// Going back (when it moves) leaves the playing track in step with the queue.
pub proof fn lemma_skipback_keeps_step(a: QueueManager, b: QueueManager, near_start: bool, r: Option<PlayRequest>)
    requires
        a.wf(),
        !(near_start && a.cur().current_track == 0),
        (if near_start { a.cur().current_track - 1 } else { a.cur().current_track as int }) < a.cur().cached_order.len(),
        skipped_back(a, b, near_start, r),
    ensures
        in_step(b),
        r is Some,
{
}

/// Going back once the track has played for a while restarts it: the queue
/// keeps its position, the entry at that position plays again, and the
/// track that was playing is the one whose listen is recorded.
pub proof fn lemma_skipback_late_restarts(a: QueueManager, b: QueueManager, r: Option<PlayRequest>)
    requires
        a.wf(),
        skipped_back(a, b, false, r),
    ensures
        b.current_queue == a.current_queue,
        b.queues@[b.current_queue as int].current_track == a.queues@[a.current_queue as int].current_track,
        b.queues@[b.current_queue as int].cached_order@ == a.queues@[a.current_queue as int].cached_order@,
        r matches Some(req) && req.track == a.queues@[a.current_queue as int].cached_order@[a.queues@[a.current_queue as int].current_track as int],
        b.current_playing == a.queues@[a.current_queue as int].cached_order@[a.queues@[a.current_queue as int].current_track as int],
{
}

/// Going back within the first seconds of a track moves one entry back in
/// the queue and plays that entry; at the queue's first entry nothing
/// changes and nothing plays.
pub proof fn lemma_skipback_early_steps_back(a: QueueManager, b: QueueManager, r: Option<PlayRequest>)
    requires
        a.wf(),
        skipped_back(a, b, true, r),
    ensures
        a.queues@[a.current_queue as int].current_track == 0 ==> r is None && b == a,
        a.queues@[a.current_queue as int].current_track > 0 ==> {
            let q = a.queues@[a.current_queue as int];
            &&& b.current_queue == a.current_queue
            &&& b.queues@[b.current_queue as int].current_track == q.current_track - 1
            &&& b.queues@[b.current_queue as int].cached_order@ == q.cached_order@
            &&& r matches Some(req) && req.track == q.cached_order@[q.current_track - 1]
            &&& b.current_playing == q.cached_order@[q.current_track - 1]
        },
{
}

/// The radio does not run dry: skipping past the last entry of a radio
/// queue asks for a similar track, and playing the track picked puts it at
/// the end of the queue as the current entry.
pub proof fn lemma_radio_continues(
    a: QueueManager,
    b: QueueManager,
    c: QueueManager,
    r: SkipStep,
    next: usize,
    req: PlayRequest,
)
    requires
        a.wf(),
        a.cur().current_track + 1 == a.cur().cached_order.len(),
        a.cur().shuffle_mode == ShuffleMode::PlaySimilar,
        skipped(a, b, r),
        played_similar(b, c, next, req),
    ensures
        r is NeedSimilar,
        in_step(c),
        c.current_playing == next,
        c.current_queue == a.current_queue,
        c.cur().cached_order@ == a.cur().cached_order@.push(next),
        same_library(a, c),
{
    assert(b.cur() == Queue { current_track: (a.cur().current_track + 1) as usize, ..a.cur() });
}

/// A radio queue over the whole library matches every track, in library order.
pub proof fn lemma_all_tracks_matching(tracks: Seq<Track>)
    ensures
        matching_tracks(tracks, QueueType::AllTracks) == Seq::new(tracks.len(), |i: int| i as usize),
    decreases tracks.len(),
{
    if tracks.len() > 0 {
        lemma_all_tracks_matching(tracks.drop_last());
        assert(matching_tracks(tracks, QueueType::AllTracks) =~= Seq::new(tracks.len(), |i: int| i as usize));
    } else {
        assert(matching_tracks(tracks, QueueType::AllTracks) =~= Seq::new(tracks.len(), |i: int| i as usize));
    }
}

impl QueueManager {
    /// The manager's invariant: the current queue exists.
    pub open spec fn wf(self) -> bool {
        self.current_queue < self.queues.len()
    }

    /// Every queued index names a track of the library.
    pub open spec fn indexes_valid(self) -> bool {
        forall|q: int, k: int|
            0 <= q < self.queues.len() && 0 <= k < self.queues@[q].cached_order.len()
                ==> #[trigger] self.queues@[q].cached_order@[k] < self.all_tracks.len()
    }

    /// The queue that is playing.
    pub open spec fn cur(self) -> Queue {
        self.queues@[self.current_queue as int]
    }

    /// Makes track `idx` the current one, and says what the audio side has to do.
    pub fn play_track(&mut self, idx: usize) -> (r: PlayRequest)
        requires
            idx < old(self).all_tracks.len(),
        ensures
            play_request_for(*old(self), idx, r),
            switched_to(*old(self), *final(self), idx),
    {
        let listened = if self.current_playing < self.all_tracks.len() {
            Some(self.current_playing)
        } else {
            None
        };
        self.current_playing = idx;
        let file = self.all_tracks[idx].file.clone();
        PlayRequest { listened, track: idx, file }
    }

    /// Goes back in the current queue. When `near_start` (the current track
    /// has played for less than five seconds) the previous track of the queue
    /// plays, and at the queue's first track nothing happens; otherwise the
    /// current track plays again from its start.
    pub fn skipback(&mut self, near_start: bool) -> (r: Option<PlayRequest>)
        requires
            old(self).wf(),
            near_start && old(self).cur().current_track == 0 || ({
                let pos = if near_start { old(self).cur().current_track - 1 } else { old(self).cur().current_track as int };
                &&& pos < old(self).cur().cached_order.len()
                &&& old(self).cur().cached_order@[pos] < old(self).all_tracks.len()
            }),
        ensures
            final(self).wf(),
            old(self).indexes_valid() ==> final(self).indexes_valid(),
            skipped_back(*old(self), *final(self), near_start, r),
    {
        let cq = self.current_queue;
        if near_start {
            if self.queues[cq].current_track == 0 {
                return None;
            }
            let last = self.queues[cq].current_track - 1;
            self.set_position(cq, last);
        }
        let idx = self.queues[cq].current();
        proof {
            assert(self.queues@[cq as int].cached_order@ == old(self).cur().cached_order@);
        }
        let ghost mid = *self;
        let req = self.play_track(idx);
        proof {
            let pos = if near_start { (old(self).cur().current_track - 1) as usize } else { old(self).cur().current_track };
            if !near_start {
                assert(mid.queues@ =~= old(self).queues@.update(cq as int, Queue { current_track: pos, ..old(self).cur() }));
            }
        }
        Some(req)
    }

    /// Sets the position of queue `q` to `pos`, changing nothing else.
    fn set_position(&mut self, q: usize, pos: usize)
        requires
            q < old(self).queues.len(),
        ensures
            same_library(*old(self), *final(self)),
            final(self).current_playing == old(self).current_playing,
            final(self).current_queue == old(self).current_queue,
            final(self).queues@ == old(self).queues@.update(q as int, Queue { current_track: pos, ..old(self).queues@[q as int] }),
    {
        self.queues[q].current_track = pos;
        proof {
            assert(self.queues@ =~= old(self).queues@.update(q as int, Queue { current_track: pos, ..old(self).queues@[q as int] }));
        }
    }

    /// Moves forward in the current queue. The next track of the queue plays
    /// if there is one; past its end a radio queue asks for a similar track
    /// (`SkipStep::NeedSimilar`), and any other queue hands over to the next
    /// queue, whose first track plays, if there is a next queue.
    pub fn skip(&mut self) -> (r: SkipStep)
        requires
            old(self).wf(),
            old(self).cur().current_track < usize::MAX,
            ({
                let q = old(self).cur();
                let next = q.current_track + 1;
                if next < q.cached_order.len() {
                    q.cached_order@[next] < old(self).all_tracks.len()
                } else if q.shuffle_mode != ShuffleMode::PlaySimilar && old(self).queues.len() > old(self).current_queue + 1 {
                    let first = old(self).queues@[old(self).current_queue + 1].cached_order;
                    first.len() > 0 && first@[0] < old(self).all_tracks.len()
                } else {
                    true
                }
            }),
        ensures
            final(self).wf(),
            old(self).indexes_valid() ==> final(self).indexes_valid(),
            skipped(*old(self), *final(self), r),
    {
        let cq = self.current_queue;
        let next = self.queues[cq].current_track + 1;
        self.set_position(cq, next);
        if next < self.queues[cq].cached_order.len() {
            let idx = self.queues[cq].cached_order[next];
            return SkipStep::Play(self.play_track(idx));
        }
        match self.queues[cq].shuffle_mode {
            ShuffleMode::PlaySimilar => SkipStep::NeedSimilar,
            _ => {
                if self.queues.len() > cq + 1 {
                    self.current_queue = cq + 1;
                    let idx = self.queues[cq + 1].track(0);
                    SkipStep::Play(self.play_track(idx))
                } else {
                    SkipStep::Stay
                }
            },
        }
    }

    /// Appends the similar track `next` to the current queue and plays it.
    pub fn play_similar(&mut self, next: usize) -> (r: PlayRequest)
        requires
            old(self).wf(),
            next < old(self).all_tracks.len(),
        ensures
            final(self).wf(),
            old(self).indexes_valid() ==> final(self).indexes_valid(),
            played_similar(*old(self), *final(self), next, r),
    {
        let cq = self.current_queue;
        self.queues[cq].cached_order.push(next);
        self.play_track(next)
    }

    /// Makes queue `queue` current, positions it at `track` and plays that track.
    pub fn set_queue_and_track(&mut self, queue: usize, track: usize) -> (r: PlayRequest)
        requires
            old(self).wf(),
            queue < old(self).queues.len(),
            track < old(self).queues@[queue as int].cached_order.len(),
            old(self).queues@[queue as int].cached_order@[track as int] < old(self).all_tracks.len(),
        ensures
            final(self).wf(),
            old(self).indexes_valid() ==> final(self).indexes_valid(),
            same_library(*old(self), *final(self)),
            ({
                let idx = old(self).queues@[queue as int].cached_order@[track as int];
                &&& play_request_for(*old(self), idx, r)
                &&& final(self).current_playing == idx
            }),
            final(self).current_queue == queue,
            final(self).queues@ == old(self).queues@.update(
                queue as int,
                Queue { current_track: track, ..old(self).queues@[queue as int] },
            ),
            in_step(*final(self)),
    {
        self.current_queue = queue;
        self.set_position(queue, track);
        let idx = self.queues[queue].cached_order[track];
        self.play_track(idx)
    }

    /// The indices of the tracks for which `condition` holds, in library order.
    pub fn get_tracks_where<F>(&self, condition: F) -> (r: Vec<usize>)
        where
            F: Fn(&Track) -> bool,
        requires
            forall|i: int| 0 <= i < self.all_tracks.len() ==> call_requires(condition, (&self.all_tracks@[i],)),
        ensures
            exists|outcomes: Seq<bool>| {
                &&& outcomes.len() == self.all_tracks.len()
                &&& forall|i: int| 0 <= i < outcomes.len()
                    ==> call_ensures(condition, (&self.all_tracks@[i],), #[trigger] outcomes[i])
                &&& r@ == flagged(outcomes)
            },
    {
        let mut out: Vec<usize> = Vec::new();
        let ghost mut outcomes: Seq<bool> = Seq::empty();
        let mut i: usize = 0;
        while i < self.all_tracks.len()
            invariant
                i <= self.all_tracks.len(),
                forall|k: int| 0 <= k < self.all_tracks.len() ==> call_requires(condition, (&self.all_tracks@[k],)),
                outcomes.len() == i,
                forall|k: int| 0 <= k < i ==> call_ensures(condition, (&self.all_tracks@[k],), #[trigger] outcomes[k]),
                out@ == flagged(outcomes),
            decreases self.all_tracks.len() - i,
        {
            let b = condition(&self.all_tracks[i]);
            let ghost before = outcomes;
            proof {
                outcomes = outcomes.push(b);
                assert(outcomes.drop_last() =~= before);
                assert(outcomes.last() == b);
            }
            if b {
                out.push(i);
            }
            i += 1;
        }
        out
    }

    /// The indices of the tracks that belong to a queue of type `queue_type`, in library order.
    pub fn get_matching(&self, queue_type: QueueType) -> (r: Vec<usize>)
        requires
            queue_type.is_supported() || self.all_tracks.len() == 0,
        ensures
            r@ == matching_tracks(self.all_tracks@, queue_type),
    {
        self.matching(&queue_type)
    }

    fn matching(&self, queue_type: &QueueType) -> (r: Vec<usize>)
        requires
            queue_type.is_supported() || self.all_tracks.len() == 0,
        ensures
            r@ == matching_tracks(self.all_tracks@, *queue_type),
            forall|k: int| 0 <= k < r.len() ==> #[trigger] r@[k] < self.all_tracks.len(),
    {
        let mut out: Vec<usize> = Vec::new();
        let mut i: usize = 0;
        while i < self.all_tracks.len()
            invariant
                i <= self.all_tracks.len(),
                queue_type.is_supported() || self.all_tracks.len() == 0,
                out@ == matching_tracks(self.all_tracks@.take(i as int), *queue_type),
                forall|k: int| 0 <= k < out.len() ==> #[trigger] out@[k] < i,
            decreases self.all_tracks.len() - i,
        {
            proof {
                assert(self.all_tracks@.take(i + 1).drop_last() =~= self.all_tracks@.take(i as int));
            }
            if self.all_tracks[i].matches_type(queue_type) {
                out.push(i);
            }
            i += 1;
        }
        assert(self.all_tracks@.take(self.all_tracks.len() as int) =~= self.all_tracks@);
        out
    }

    /// Refills the current queue according to its shuffle mode: a radio queue
    /// is emptied, a random queue gets every matching track in library order,
    /// and an ordered queue is left alone.
    pub fn shuffle_queue(&mut self)
        requires
            old(self).wf(),
            old(self).cur().shuffle_mode == ShuffleMode::Random
                ==> old(self).cur().queue_type.is_supported() || old(self).all_tracks.len() == 0,
        ensures
            final(self).wf(),
            old(self).indexes_valid() ==> final(self).indexes_valid(),
            same_library(*old(self), *final(self)),
            final(self).current_playing == old(self).current_playing,
            final(self).current_queue == old(self).current_queue,
            final(self).queues@ == old(self).queues@.update(
                old(self).current_queue as int,
                Queue { cached_order: final(self).cur().cached_order, ..old(self).cur() },
            ),
            final(self).cur().cached_order@ == match old(self).cur().shuffle_mode {
                ShuffleMode::PlaySimilar => Seq::<usize>::empty(),
                ShuffleMode::Random => matching_tracks(old(self).all_tracks@, old(self).cur().queue_type),
                ShuffleMode::Ordered => old(self).cur().cached_order@,
            },
    {
        let cq = self.current_queue;
        match self.queues[cq].shuffle_mode {
            ShuffleMode::PlaySimilar => {
                self.queues[cq].cached_order = Vec::new();
            },
            ShuffleMode::Random => {
                let order = self.matching(&self.queues[cq].queue_type);
                self.queues[cq].cached_order = order;
            },
            ShuffleMode::Ordered => {},
        }
    }

    /// The queue at `idx`.
    pub fn get_queue(&self, idx: usize) -> (r: &Queue)
        requires
            idx < self.queues.len(),
        ensures
            *r == self.queues@[idx as int],
    {
        &self.queues[idx]
    }

    /// The queue that is playing.
    pub fn current_queue(&self) -> (r: &Queue)
        requires
            self.wf(),
        ensures
            *r == self.cur(),
    {
        &self.queues[self.current_queue]
    }

    /// Mutable access to the queue that is playing.
    pub fn mut_queue(&mut self) -> (r: &mut Queue)
        requires
            old(self).wf(),
        ensures
            *r == old(self).cur(),
            same_library(*old(self), *final(self)),
            final(self).current_playing == old(self).current_playing,
            final(self).current_queue == old(self).current_queue,
            final(self).queues@ == old(self).queues@.update(old(self).current_queue as int, *final(r)),
    {
        let cq = self.current_queue;
        &mut self.queues[cq]
    }
}

impl QueueManager {
    /// Adds a queue of the tracks whose artists include `artist` (compared
    /// exactly), in library order, and makes it current.
    pub fn add_artist_queue(&mut self, artist: String)
        requires
            old(self).wf(),
        ensures
            final(self).wf(),
            old(self).indexes_valid() ==> final(self).indexes_valid(),
            same_library(*old(self), *final(self)),
            final(self).current_playing == old(self).current_playing,
            final(self).queues.len() == old(self).queues.len() + 1,
            final(self).queues@.drop_last() == old(self).queues@,
            final(self).current_queue == old(self).queues.len(),
            final(self).cur().queue_type == QueueType::Artist(artist),
            final(self).cur().current_track == 0,
            final(self).cur().shuffle_mode == ShuffleMode::Ordered,
            final(self).cur().cached_order@ == indices_where(old(self).all_tracks@, |t: Track| has_name(t.artists@, artist@)),
    {
        let ghost pred = |t: Track| has_name(t.artists@, artist@);
        let tracks = {
            let a = &artist;
            let cond = |track: &Track| -> (b: bool)
                ensures
                    b == has_name(track.artists@, a@),
                { contains_name(&track.artists, a) };
            self.get_tracks_where(cond)
        };
        proof {
            lemma_flagged_outcomes(self.all_tracks@, pred, tracks@);
        }
        self.push_queue(Queue::new(QueueType::Artist(artist), ShuffleMode::Ordered, tracks));
    }

    /// Adds a queue of the tracks of album `album` (compared exactly), in
    /// library order, and makes it current.
    pub fn add_album_queue(&mut self, album: String)
        requires
            old(self).wf(),
        ensures
            final(self).wf(),
            old(self).indexes_valid() ==> final(self).indexes_valid(),
            same_library(*old(self), *final(self)),
            final(self).current_playing == old(self).current_playing,
            final(self).queues.len() == old(self).queues.len() + 1,
            final(self).queues@.drop_last() == old(self).queues@,
            final(self).current_queue == old(self).queues.len(),
            final(self).cur().queue_type == QueueType::Album(album),
            final(self).cur().current_track == 0,
            final(self).cur().shuffle_mode == ShuffleMode::Ordered,
            final(self).cur().cached_order@ == indices_where(old(self).all_tracks@, |t: Track| t.album@ == album@),
    {
        let ghost pred = |t: Track| t.album@ == album@;
        let tracks = {
            let a = &album;
            let cond = |track: &Track| -> (b: bool)
                ensures
                    b == (track.album@ == a@),
                { track.album == *a };
            self.get_tracks_where(cond)
        };
        proof {
            lemma_flagged_outcomes(self.all_tracks@, pred, tracks@);
        }
        self.push_queue(Queue::new(QueueType::Album(album), ShuffleMode::Ordered, tracks));
    }

    /// Adds a radio queue over the whole library that starts with `track`,
    /// and makes it current.
    pub fn add_all_queue(&mut self, track: usize)
        requires
            old(self).wf(),
        ensures
            final(self).wf(),
            old(self).indexes_valid() && track < old(self).all_tracks.len() ==> final(self).indexes_valid(),
            same_library(*old(self), *final(self)),
            final(self).current_playing == old(self).current_playing,
            final(self).queues.len() == old(self).queues.len() + 1,
            final(self).queues@.drop_last() == old(self).queues@,
            final(self).current_queue == old(self).queues.len(),
            final(self).cur().queue_type is AllTracks,
            final(self).cur().current_track == 0,
            final(self).cur().shuffle_mode == ShuffleMode::PlaySimilar,
            final(self).cur().cached_order@ == seq![track],
    {
        self.push_queue(Queue::all_pos(track));
    }

    /// Adds a queue of the current track's album (the empty album when no
    /// track of the library is current), and makes it current.
    pub fn add_current_album_queue(&mut self)
        requires
            old(self).wf(),
        ensures
            final(self).wf(),
            old(self).indexes_valid() ==> final(self).indexes_valid(),
            same_library(*old(self), *final(self)),
            final(self).current_playing == old(self).current_playing,
            final(self).queues.len() == old(self).queues.len() + 1,
            final(self).queues@.drop_last() == old(self).queues@,
            final(self).current_queue == old(self).queues.len(),
            ({
                let album = if old(self).current_playing < old(self).all_tracks.len() {
                    old(self).all_tracks@[old(self).current_playing as int].album@
                } else {
                    Seq::<char>::empty()
                };
                &&& final(self).cur().queue_type matches QueueType::Album(a) && a@ == album
                &&& final(self).cur().cached_order@ == indices_where(old(self).all_tracks@, |t: Track| t.album@ == album)
            }),
            final(self).cur().current_track == 0,
            final(self).cur().shuffle_mode == ShuffleMode::Ordered,
    {
        let album = match self.current_track() {
            Some(t) => t.album.clone(),
            None => String::new(),
        };
        let ghost given = album;
        self.add_album_queue(album);
        proof {
            let expected = if old(self).current_playing < old(self).all_tracks.len() {
                old(self).all_tracks@[old(self).current_playing as int].album@
            } else {
                Seq::<char>::empty()
            };
            assert(given@ == expected);
            assert((|t: Track| t.album@ == given@) =~= (|t: Track| t.album@ == expected));
        }
    }

    /// Appends track `track` to the end of the current queue ("Add to current
    /// queue"), changing nothing else.
    pub fn enqueue(&mut self, track: usize)
        requires
            old(self).wf(),
        ensures
            final(self).wf(),
            old(self).indexes_valid() && track < old(self).all_tracks.len() ==> final(self).indexes_valid(),
            same_library(*old(self), *final(self)),
            final(self).current_playing == old(self).current_playing,
            final(self).current_queue == old(self).current_queue,
            final(self).queues@ == old(self).queues@.update(
                old(self).current_queue as int,
                Queue { cached_order: final(self).cur().cached_order, ..old(self).cur() },
            ),
            final(self).cur().cached_order@ == old(self).cur().cached_order@.push(track),
    {
        let cq = self.current_queue;
        self.queues[cq].cached_order.push(track);
    }

    /// Appends `queue` and makes it current.
    fn push_queue(&mut self, queue: Queue)
        requires
            old(self).wf(),
        ensures
            final(self).wf(),
            old(self).indexes_valid() && (forall|k: int| 0 <= k < queue.cached_order.len()
                ==> #[trigger] queue.cached_order@[k] < old(self).all_tracks.len()) ==> final(self).indexes_valid(),
            same_library(*old(self), *final(self)),
            final(self).current_playing == old(self).current_playing,
            final(self).queues@ == old(self).queues@.push(queue),
            final(self).current_queue == old(self).queues.len(),
    {
        self.queues.push(queue);
        self.current_queue = self.queues.len() - 1;
        proof {
            assert(self.queues@.drop_last() =~= old(self).queues@);
        }
    }
}

impl QueueManager {
    /// Flips between playing and paused.
    pub fn toggle_playing(&mut self)
        ensures
            final(self).playing == !old(self).playing,
            final(self).all_tracks == old(self).all_tracks,
            final(self).track_info == old(self).track_info,
            final(self).artists == old(self).artists,
            final(self).genres == old(self).genres,
            final(self).current_playing == old(self).current_playing,
            final(self).current_queue == old(self).current_queue,
            final(self).queues == old(self).queues,
            final(self).queue_tracks == old(self).queue_tracks,
    {
        self.playing = !self.playing;
    }

    /// Marks the manager as playing.
    pub fn play(&mut self)
        ensures
            final(self).playing,
            final(self).all_tracks == old(self).all_tracks,
            final(self).track_info == old(self).track_info,
            final(self).artists == old(self).artists,
            final(self).genres == old(self).genres,
            final(self).current_playing == old(self).current_playing,
            final(self).current_queue == old(self).current_queue,
            final(self).queues == old(self).queues,
            final(self).queue_tracks == old(self).queue_tracks,
    {
        self.playing = true;
    }

    /// Whether the manager is playing.
    pub fn playing(&self) -> (r: bool)
        ensures
            r == self.playing,
    {
        self.playing
    }

    /// The library index of the current track.
    pub fn current(&self) -> (r: usize)
        ensures
            r == self.current_playing,
    {
        self.current_playing
    }

    /// The current track, if the current index names a track of the library.
    pub fn current_track(&self) -> (r: Option<&Track>)
        ensures
            r == (if self.current_playing < self.all_tracks.len() {
                Some(&self.all_tracks@[self.current_playing as int])
            } else {
                None
            }),
    {
        self.get_track(self.current_playing)
    }

    /// Track `idx` of the library, if there is one.
    pub fn get_track(&self, idx: usize) -> (r: Option<&Track>)
        ensures
            r == (if idx < self.all_tracks.len() { Some(&self.all_tracks@[idx as int]) } else { None }),
    {
        if idx < self.all_tracks.len() {
            Some(&self.all_tracks[idx])
        } else {
            None
        }
    }

    /// The title of the current track.
    pub fn current_track_title(&self) -> (r: Option<&str>)
        ensures
            match r {
                Some(t) => self.current_playing < self.all_tracks.len()
                    && t@ == self.all_tracks@[self.current_playing as int].title@,
                None => self.current_playing >= self.all_tracks.len(),
            },
    {
        match self.current_track() {
            Some(t) => Some(t.title.as_str()),
            None => None,
        }
    }

    /// The album of the current track.
    pub fn current_track_album(&self) -> (r: Option<&str>)
        ensures
            match r {
                Some(a) => self.current_playing < self.all_tracks.len()
                    && a@ == self.all_tracks@[self.current_playing as int].album@,
                None => self.current_playing >= self.all_tracks.len(),
            },
    {
        match self.current_track() {
            Some(t) => Some(t.album.as_str()),
            None => None,
        }
    }

    /// The artists of the current track.
    pub fn current_track_artist(&self) -> (r: Option<&Vec<String>>)
        ensures
            r == (if self.current_playing < self.all_tracks.len() {
                Some(&self.all_tracks@[self.current_playing as int].artists)
            } else {
                None
            }),
    {
        match self.current_track() {
            Some(t) => Some(&t.artists),
            None => None,
        }
    }

    /// The genres of the current track.
    pub fn current_track_genres(&self) -> (r: Option<&Vec<String>>)
        ensures
            r == (if self.current_playing < self.all_tracks.len() {
                Some(&self.all_tracks@[self.current_playing as int].genre)
            } else {
                None
            }),
    {
        match self.current_track() {
            Some(t) => Some(&t.genre),
            None => None,
        }
    }

    /// Whether entry `idx` of queue `queue` is the one playing: the queue is
    /// the current one and is positioned at that entry.
    pub fn is_current_entry(&self, queue: usize, idx: usize) -> (r: bool)
        requires
            queue < self.queues.len(),
        ensures
            r == (self.current_queue == queue && self.queues@[queue as int].current_track == idx),
    {
        self.current_queue == queue && self.queues[queue].current_track == idx
    }

    /// A copy of the track at the head of the current queue, if the queue has
    /// one and it names a track of the library.
    pub fn next_up(&self) -> (r: Option<Track>)
        requires
            self.wf(),
        ensures
            match r {
                Some(t) => self.cur().cached_order.len() > 0
                    && self.cur().cached_order@[0] < self.all_tracks.len()
                    && same_track(t, self.all_tracks@[self.cur().cached_order@[0] as int]),
                None => self.cur().cached_order.len() == 0
                    || self.cur().cached_order@[0] >= self.all_tracks.len(),
            },
    {
        let q = &self.queues[self.current_queue];
        if q.cached_order.len() == 0 {
            return None;
        }
        match self.get_track(q.cached_order[0]) {
            Some(t) => Some(t.clone()),
            None => None,
        }
    }
}

/// The position of the first name of `names` similar to `g`, or
/// `names.len()` when none is.
pub open spec fn first_similar(names: Seq<Seq<char>>, g: Seq<char>) -> int
    decreases names.len(),
{
    if names.len() == 0 {
        0
    } else {
        let f = first_similar(names.drop_last(), g);
        if f < names.len() - 1 {
            f
        } else if is_similar(g, names.last()) {
            names.len() - 1
        } else {
            names.len() as int
        }
    }
}

/// The position of the first name of `names` equal to `n`, or `names.len()`
/// when none is.
pub open spec fn first_equal(names: Seq<Seq<char>>, n: Seq<char>) -> int
    decreases names.len(),
{
    if names.len() == 0 {
        0
    } else {
        let f = first_equal(names.drop_last(), n);
        if f < names.len() - 1 {
            f
        } else if names.last() == n {
            names.len() - 1
        } else {
            names.len() as int
        }
    }
}

/// Looking up genre `g` in `table`: the table afterwards and the index of
/// the genre. A genre similar to an entry gets the first such entry; any
/// other genre is added, stripped, at the end.
pub open spec fn genre_lookup(table: Seq<Seq<char>>, g: Seq<char>) -> (Seq<Seq<char>>, int) {
    let f = first_similar(table, g);
    if f < table.len() {
        (table, f)
    } else {
        (table.push(stripped(g)), table.len() as int)
    }
}

/// Looking up the genres `gs` one after another.
pub open spec fn genres_lookup(table: Seq<Seq<char>>, gs: Seq<Seq<char>>) -> (Seq<Seq<char>>, Seq<int>)
    decreases gs.len(),
{
    if gs.len() == 0 {
        (table, Seq::<int>::empty())
    } else {
        let (t1, is) = genres_lookup(table, gs.drop_last());
        let (t2, i) = genre_lookup(t1, gs.last());
        (t2, is.push(i))
    }
}

/// Looking up the genres of each track one after another: the table
/// afterwards and the genre indices of each track.
pub open spec fn tracks_lookup(table: Seq<Seq<char>>, tracks: Seq<Track>) -> (Seq<Seq<char>>, Seq<Seq<int>>)
    decreases tracks.len(),
{
    if tracks.len() == 0 {
        (table, Seq::<Seq<int>>::empty())
    } else {
        let (t1, iss) = tracks_lookup(table, tracks.drop_last());
        let (t2, is) = genres_lookup(t1, views(tracks.last().genre@));
        (t2, iss.push(is))
    }
}

/// Looking a genre up a second time gives the index of the first lookup and
/// leaves the table alone, for every genre whose stripped form is left
/// unchanged by stripping it again (so that the entry added for it is
/// similar to it).
pub proof fn lemma_genre_lookup_stable(table: Seq<Seq<char>>, g: Seq<char>)
    requires
        stripped(stripped(g)) == stripped(g),
    ensures
        genre_lookup(genre_lookup(table, g).0, g) == genre_lookup(table, g),
{
    let f = first_similar(table, g);
    if f >= table.len() {
        let t1 = table.push(stripped(g));
        assert(t1.drop_last() =~= table);
        assert(is_similar(g, t1.last()));
        assert(first_similar(t1, g) == table.len());
    }
}

/// Looking up genres only adds to the table, and every index it gives names
/// an entry of the table it leaves.
proof fn lemma_genres_lookup_bounds(table: Seq<Seq<char>>, gs: Seq<Seq<char>>)
    ensures
        genres_lookup(table, gs).0.len() >= table.len(),
        forall|i: int| 0 <= i < genres_lookup(table, gs).1.len()
            ==> 0 <= #[trigger] genres_lookup(table, gs).1[i] < genres_lookup(table, gs).0.len(),
        genres_lookup(table, gs).1.len() == gs.len(),
    decreases gs.len(),
{
    if gs.len() > 0 {
        lemma_genres_lookup_bounds(table, gs.drop_last());
        let (t1, is) = genres_lookup(table, gs.drop_last());
        lemma_first_similar_bound(t1, gs.last());
        let (t2, i) = genre_lookup(t1, gs.last());
        assert(genres_lookup(table, gs).1 == is.push(i));
    }
}

proof fn lemma_first_similar_bound(names: Seq<Seq<char>>, g: Seq<char>)
    ensures
        0 <= first_similar(names, g) <= names.len(),
    decreases names.len(),
{
    if names.len() > 0 {
        lemma_first_similar_bound(names.drop_last(), g);
    }
}

/// Every genre index of every track names an entry of the final table.
proof fn lemma_tracks_lookup_bounds(table: Seq<Seq<char>>, tracks: Seq<Track>)
    ensures
        tracks_lookup(table, tracks).0.len() >= table.len(),
        tracks_lookup(table, tracks).1.len() == tracks.len(),
        forall|k: int, j: int| 0 <= k < tracks_lookup(table, tracks).1.len()
            && 0 <= j < tracks_lookup(table, tracks).1[k].len()
            ==> 0 <= #[trigger] tracks_lookup(table, tracks).1[k][j] < tracks_lookup(table, tracks).0.len(),
    decreases tracks.len(),
{
    if tracks.len() > 0 {
        lemma_tracks_lookup_bounds(table, tracks.drop_last());
        let (t1, iss) = tracks_lookup(table, tracks.drop_last());
        let gs = views(tracks.last().genre@);
        lemma_genres_lookup_bounds(t1, gs);
        let (t2, is) = genres_lookup(t1, gs);
        let all = tracks_lookup(table, tracks).1;
        assert(all == iss.push(is));
        assert forall|k: int, j: int| 0 <= k < all.len() && 0 <= j < all[k].len()
            implies 0 <= #[trigger] all[k][j] < t2.len() by {
            if k < iss.len() {
                assert(all[k] == iss[k]);
            } else {
                assert(all[k] == is);
            }
        }
    }
}

/// No two entries of a genre table are similar, and every entry is stored
/// stripped.
pub open spec fn genre_table_clean(t: Seq<Seq<char>>) -> bool {
    &&& forall|i: int, j: int| 0 <= i < j < t.len() ==> !is_similar(#[trigger] t[i], #[trigger] t[j])
    &&& forall|i: int| 0 <= i < t.len() ==> stripped(#[trigger] t[i]) == t[i]
}

/// Stripping each name of `gs` a second time changes it no further: the
/// premise under which a genre table built from them stays clean.
pub open spec fn names_settle(gs: Seq<Seq<char>>) -> bool {
    forall|j: int| 0 <= j < gs.len() ==> stripped(stripped(#[trigger] gs[j])) == stripped(gs[j])
}

/// Every genre of every track of `tracks` settles under stripping.
pub open spec fn genres_settle(tracks: Seq<Track>) -> bool {
    forall|k: int| 0 <= k < tracks.len() ==> names_settle(views(#[trigger] tracks[k].genre@))
}

/// When no name is similar to `g`, `first_similar` runs to the end.
proof fn lemma_first_similar_none(names: Seq<Seq<char>>, g: Seq<char>)
    requires
        first_similar(names, g) == names.len(),
    ensures
        forall|i: int| 0 <= i < names.len() ==> !is_similar(g, #[trigger] names[i]),
    decreases names.len(),
{
    if names.len() > 0 {
        let init = names.drop_last();
        lemma_first_similar_bound(init, g);
        lemma_first_similar_none(init, g);
        assert forall|i: int| 0 <= i < names.len() implies !is_similar(g, #[trigger] names[i]) by {
            if i < init.len() {
                assert(names[i] == init[i]);
            }
        }
    }
}

/// Looking a genre up keeps the table clean, when the genre's stripped form
/// strips to itself.
pub proof fn lemma_genre_lookup_clean(table: Seq<Seq<char>>, g: Seq<char>)
    requires
        genre_table_clean(table),
        stripped(stripped(g)) == stripped(g),
    ensures
        genre_table_clean(genre_lookup(table, g).0),
{
    let f = first_similar(table, g);
    lemma_first_similar_bound(table, g);
    if f >= table.len() {
        lemma_first_similar_none(table, g);
        let t = table.push(stripped(g));
        assert forall|i: int, j: int| 0 <= i < j < t.len() implies !is_similar(#[trigger] t[i], #[trigger] t[j]) by {
            if j == table.len() {
                assert(t[i] == table[i]);
                assert(!is_similar(g, table[i]));
                assert(stripped(table[i]) == table[i]);
            } else {
                assert(t[i] == table[i]);
                assert(t[j] == table[j]);
            }
        }
        assert forall|i: int| 0 <= i < t.len() implies stripped(#[trigger] t[i]) == t[i] by {
            if i < table.len() {
                assert(t[i] == table[i]);
            }
        }
    }
}

/// Looking up a list of genres that settle keeps the table clean.
proof fn lemma_genres_lookup_clean(table: Seq<Seq<char>>, gs: Seq<Seq<char>>)
    requires
        genre_table_clean(table),
        names_settle(gs),
    ensures
        genre_table_clean(genres_lookup(table, gs).0),
    decreases gs.len(),
{
    if gs.len() > 0 {
        let init = gs.drop_last();
        assert forall|j: int| 0 <= j < init.len() implies stripped(stripped(#[trigger] init[j])) == stripped(init[j]) by {
            assert(init[j] == gs[j]);
        }
        lemma_genres_lookup_clean(table, init);
        let t1 = genres_lookup(table, init).0;
        assert(gs[gs.len() - 1] == gs.last());
        assert(stripped(stripped(gs.last())) == stripped(gs.last()));
        lemma_genre_lookup_clean(t1, gs.last());
    }
}

/// The genre table that a new manager builds from its tracks has no two
/// similar entries and stores every entry stripped, when the tracks' genres
/// settle under stripping.
pub proof fn lemma_genre_table_clean(tracks: Seq<Track>)
    requires
        genres_settle(tracks),
    ensures
        genre_table_clean(tracks_lookup(Seq::<Seq<char>>::empty(), tracks).0),
    decreases tracks.len(),
{
    if tracks.len() > 0 {
        let init = tracks.drop_last();
        assert forall|k: int| 0 <= k < init.len() implies names_settle(views(#[trigger] init[k].genre@)) by {
            assert(init[k] == tracks[k]);
        }
        lemma_genre_table_clean(init);
        let t1 = tracks_lookup(Seq::<Seq<char>>::empty(), init).0;
        assert(tracks[tracks.len() - 1] == tracks.last());
        lemma_genres_lookup_clean(t1, views(tracks.last().genre@));
    }
}

/// Whether stripping every genre of every track a second time changes it no
/// further, the premise under which a new manager's genre table is clean.
pub fn genres_settle_in(tracks: &Vec<Track>) -> (r: bool)
    ensures
        r == genres_settle(tracks@),
{
    let mut k: usize = 0;
    while k < tracks.len()
        invariant
            k <= tracks.len(),
            forall|i: int| 0 <= i < k ==> names_settle(views(#[trigger] tracks@[i].genre@)),
        decreases tracks.len() - k,
    {
        let gs = &tracks[k].genre;
        let mut j: usize = 0;
        while j < gs.len()
            invariant
                j <= gs.len(),
                k < tracks.len(),
                gs == &tracks@[k as int].genre,
                forall|i: int| 0 <= i < j ==> stripped(stripped(#[trigger] views(gs@)[i])) == stripped(views(gs@)[i]),
            decreases gs.len() - j,
        {
            let once = strip_unnessecary(gs[j].as_str());
            let twice = strip_unnessecary(once.as_str());
            proof {
                assert(views(gs@)[j as int] == gs@[j as int]@);
            }
            if twice != once {
                proof {
                    assert(!names_settle(views(gs@)));
                    assert(!names_settle(views(tracks@[k as int].genre@)));
                }
                return false;
            }
            j += 1;
        }
        k += 1;
    }
    true
}

/// No element of `s` is smaller than a later one.
pub open spec fn sorted_desc(s: Seq<usize>) -> bool {
    forall|i: int, j: int| 0 <= i < j < s.len() ==> s[i] >= s[j]
}

/// The elements of `v` from largest to smallest.
pub fn sort_descending(v: &Vec<usize>) -> (r: Vec<usize>)
    ensures
        sorted_desc(r@),
        r@.to_multiset() == v@.to_multiset(),
{
    broadcast use vstd::seq_lib::group_to_multiset_ensures;
    let mut out: Vec<usize> = Vec::new();
    let mut i: usize = 0;
    while i < v.len()
        invariant
            i <= v.len(),
            sorted_desc(out@),
            out@.to_multiset() == v@.take(i as int).to_multiset(),
        decreases v.len() - i,
    {
        let x = v[i];
        let mut p: usize = 0;
        while p < out.len() && out[p] >= x
            invariant
                p <= out.len(),
                forall|k: int| 0 <= k < p ==> out@[k] >= x,
            decreases out.len() - p,
        {
            p += 1;
        }
        let ghost before = out@;
        out.insert(p, x);
        proof {
            vstd::seq_lib::to_multiset_insert(before, p as int, x);
            assert(out@ == before.insert(p as int, x));
            assert(v@.take(i + 1) =~= v@.take(i as int).push(x));
            v@.take(i as int).to_multiset_ensures();
            assert(v@.take(i as int).push(x).to_multiset() =~= v@.take(i as int).to_multiset().insert(x));
            assert forall|a: int, b: int| 0 <= a < b < out@.len() implies out@[a] >= out@[b] by {
                if b < p {
                } else if b == p {
                } else if a < p {
                    assert(out@[b] == before[b - 1]);
                } else if a == p {
                    assert(out@[b] == before[b - 1]);
                    assert(before[p as int] < x);
                } else {
                    assert(out@[a] == before[a - 1]);
                    assert(out@[b] == before[b - 1]);
                }
            }
        }
        i += 1;
    }
    assert(v@.take(v.len() as int) =~= v@);
    out
}

/// `rand::thread_rng().gen_range(0..n)`: a random index below `n`. Only the
/// bound is stated; which index comes back depends on chance.
#[verifier::external_body]
fn random_below(n: usize) -> (r: usize)
    requires
        n > 0,
    ensures
        r < n,
{
    rand::thread_rng().gen_range(0..n)
}

impl QueueManager {
    /// The index of `genre` in the genre table: the first entry similar to
    /// it, or a new entry holding it stripped.
    pub fn genre_index(&mut self, genre: &str) -> (r: usize)
        ensures
            (views(final(self).genres@), r as int) == genre_lookup(views(old(self).genres@), genre@),
            genre_table_clean(views(old(self).genres@)) && stripped(stripped(genre@)) == stripped(genre@)
                ==> genre_table_clean(views(final(self).genres@)),
            final(self).all_tracks == old(self).all_tracks,
            final(self).track_info == old(self).track_info,
            final(self).artists == old(self).artists,
            final(self).playing == old(self).playing,
            final(self).current_playing == old(self).current_playing,
            final(self).current_queue == old(self).current_queue,
            final(self).queues == old(self).queues,
            final(self).queue_tracks == old(self).queue_tracks,
    {
        proof {
            if genre_table_clean(views(self.genres@)) && stripped(stripped(genre@)) == stripped(genre@) {
                lemma_genre_lookup_clean(views(self.genres@), genre@);
            }
        }
        let mut i: usize = 0;
        while i < self.genres.len()
            invariant
                i <= self.genres.len(),
                first_similar(views(self.genres@).take(i as int), genre@) == i,
            decreases self.genres.len() - i,
        {
            proof {
                assert(views(self.genres@).take(i + 1).drop_last() =~= views(self.genres@).take(i as int));
            }
            if similar(genre, self.genres[i].as_str()) {
                proof {
                    lemma_first_prefix(views(self.genres@), genre@, i as int);
                }
                return i;
            }
            i += 1;
        }
        assert(views(self.genres@).take(i as int) =~= views(self.genres@));
        let ghost before = views(self.genres@);
        let stripped_genre = strip_unnessecary(genre);
        self.genres.push(stripped_genre);
        assert(views(self.genres@) =~= before.push(stripped(genre@)));
        self.genres.len() - 1
    }

    /// The index of `artist` in the artist table. An entry equal to the
    /// stripped artist gives its position; otherwise the stripped artist is
    /// added at the end and the table's new length is returned.
    pub fn artist_index(&mut self, artist: &str) -> (r: usize)
        ensures
            ({
                let f = first_equal(views(old(self).artists@), stripped(artist@));
                if f < old(self).artists.len() {
                    &&& r == f
                    &&& final(self).artists == old(self).artists
                } else {
                    &&& r == old(self).artists.len() + 1
                    &&& views(final(self).artists@) == views(old(self).artists@).push(stripped(artist@))
                }
            }),
            final(self).all_tracks == old(self).all_tracks,
            final(self).track_info == old(self).track_info,
            final(self).genres == old(self).genres,
            final(self).playing == old(self).playing,
            final(self).current_playing == old(self).current_playing,
            final(self).current_queue == old(self).current_queue,
            final(self).queues == old(self).queues,
            final(self).queue_tracks == old(self).queue_tracks,
    {
        let key = strip_unnessecary(artist);
        let mut i: usize = 0;
        while i < self.artists.len()
            invariant
                i <= self.artists.len(),
                key@ == stripped(artist@),
                first_equal(views(self.artists@).take(i as int), key@) == i,
            decreases self.artists.len() - i,
        {
            proof {
                assert(views(self.artists@).take(i + 1).drop_last() =~= views(self.artists@).take(i as int));
            }
            if self.artists[i] == key {
                proof {
                    lemma_first_equal_prefix(views(self.artists@), key@, i as int);
                }
                return i;
            }
            i += 1;
        }
        assert(views(self.artists@).take(i as int) =~= views(self.artists@));
        let ghost before = views(self.artists@);
        let again = strip_unnessecary(artist);
        self.artists.push(again);
        assert(views(self.artists@) =~= before.push(stripped(artist@)));
        self.artists.len()
    }
}

/// `r` is a fresh manager over `all_tracks` whose radio queue starts at `start`:
/// nothing queued but that track, playing, no artists yet, the genres of all
/// tracks looked up in order, and each track's genre indices sorted from
/// largest to smallest.
pub open spec fn fresh_manager(r: QueueManager, all_tracks: Vec<Track>, start: usize) -> bool {
    let (table, lookups) = tracks_lookup(Seq::<Seq<char>>::empty(), all_tracks@);
    &&& r.all_tracks == all_tracks
    &&& r.current_playing == start
    &&& r.playing
    &&& r.current_queue == 0
    &&& r.queues.len() == 1
    &&& r.queues@[0].queue_type is AllTracks
    &&& r.queues@[0].current_track == 0
    &&& r.queues@[0].cached_order@ == seq![start]
    &&& r.queues@[0].shuffle_mode == ShuffleMode::PlaySimilar
    &&& r.queue_tracks@.len() == 0
    &&& r.artists@.len() == 0
    &&& views(r.genres@) == table
    &&& r.track_info.len() == all_tracks.len()
    &&& forall|k: int| 0 <= k < all_tracks.len() ==> {
        &&& (#[trigger] r.track_info@[k]).artist == 0
        &&& r.track_info@[k].bpm == 100
        &&& sorted_desc(r.track_info@[k].genres@)
        &&& r.track_info@[k].genres@.to_multiset() == lookups[k].map_values(|x: int| x as usize).to_multiset()
    }
}

/// Every genre index of every track names an entry of the genre table.
pub open spec fn genres_indexed(m: QueueManager) -> bool {
    forall|k: int, j: int| 0 <= k < m.track_info.len() && 0 <= j < m.track_info@[k].genres.len()
        ==> #[trigger] m.track_info@[k].genres@[j] < m.genres.len()
}

impl QueueManager {
    /// A manager over `all_tracks` whose radio queue starts at a random track
    /// (at index 0 when the library is empty), and the request to play that
    /// track, with no listen to record; an empty library plays nothing.
    pub fn new(all_tracks: Vec<Track>) -> (r: (Self, Option<PlayRequest>))
        ensures
            fresh_manager(r.0, all_tracks, r.0.current_playing),
            genres_indexed(r.0),
            genres_settle(all_tracks@) ==> genre_table_clean(views(r.0.genres@)),
            all_tracks.len() > 0 ==> r.0.current_playing < all_tracks.len(),
            all_tracks.len() == 0 ==> r.0.current_playing == 0,
            r.0.wf(),
            all_tracks.len() > 0 ==> r.0.indexes_valid(),
            all_tracks.len() == 0 ==> r.1 is None,
            all_tracks.len() > 0 ==> (r.1 matches Some(req) && {
                &&& req.listened is None
                &&& req.track == r.0.current_playing
                &&& req.file == all_tracks@[r.0.current_playing as int].file
            }),
    {
        let start = if all_tracks.len() > 0 {
            random_below(all_tracks.len())
        } else {
            0
        };
        let m = Self::new_at(all_tracks, start);
        let opening = if start < m.all_tracks.len() {
            let file = m.all_tracks[start].file.clone();
            Some(PlayRequest { listened: None, track: start, file })
        } else {
            None
        };
        (m, opening)
    }

    /// A manager over `all_tracks` whose radio queue starts at track `start`.
    pub fn new_at(all_tracks: Vec<Track>, start: usize) -> (r: Self)
        ensures
            fresh_manager(r, all_tracks, start),
            r.wf(),
            start < all_tracks.len() ==> r.indexes_valid(),
            genres_indexed(r),
            genres_settle(all_tracks@) ==> genre_table_clean(views(r.genres@)),
    {
        let ghost tracks = all_tracks;
        let n = all_tracks.len();
        let mut queues: Vec<Queue> = Vec::new();
        queues.push(Queue::all_pos(start));
        let mut m = QueueManager {
            all_tracks,
            track_info: Vec::new(),
            artists: Vec::new(),
            genres: Vec::new(),
            current_playing: start,
            playing: true,
            current_queue: 0,
            queues,
            queue_tracks: Vec::new(),
        };
        let mut infos: Vec<TrackInfo> = Vec::new();
        let mut i: usize = 0;
        proof {
            assert(tracks@.take(0) =~= Seq::<Track>::empty());
            assert(views(m.genres@) =~= Seq::<Seq<char>>::empty());
        }
        while i < n
            invariant
                i <= n == tracks.len(),
                m.all_tracks == tracks,
                m.current_playing == start,
                m.playing,
                m.current_queue == 0,
                m.queues.len() == 1,
                m.queues@[0].queue_type is AllTracks,
                m.queues@[0].current_track == 0,
                m.queues@[0].cached_order@ == seq![start],
                m.queues@[0].shuffle_mode == ShuffleMode::PlaySimilar,
                m.queue_tracks@.len() == 0,
                m.artists@.len() == 0,
                views(m.genres@) == tracks_lookup(Seq::<Seq<char>>::empty(), tracks@.take(i as int)).0,
                infos.len() == i,
                forall|k: int| 0 <= k < i ==> {
                    &&& (#[trigger] infos@[k]).artist == 0
                    &&& infos@[k].bpm == 100
                    &&& sorted_desc(infos@[k].genres@)
                    &&& infos@[k].genres@.to_multiset() == tracks_lookup(Seq::<Seq<char>>::empty(), tracks@.take(i as int)).1[k].map_values(|x: int| x as usize).to_multiset()
                },
                tracks_lookup(Seq::<Seq<char>>::empty(), tracks@.take(i as int)).1.len() == i,
            decreases n - i,
        {
            let ghost before = tracks_lookup(Seq::<Seq<char>>::empty(), tracks@.take(i as int));
            let ghost gs = views(tracks@[i as int].genre@);
            let glen = m.all_tracks[i].genre.len();
            let mut gidx: Vec<usize> = Vec::new();
            let mut j: usize = 0;
            proof {
                assert(gs.take(0) =~= Seq::<Seq<char>>::empty());
            }
            while j < glen
                invariant
                    j <= glen == gs.len(),
                    i < n == tracks.len(),
                    gs == views(tracks@[i as int].genre@),
                    m.all_tracks == tracks,
                    m.current_playing == start,
                    m.playing,
                    m.current_queue == 0,
                    m.queues.len() == 1,
                    m.queues@[0].queue_type is AllTracks,
                    m.queues@[0].current_track == 0,
                    m.queues@[0].cached_order@ == seq![start],
                    m.queues@[0].shuffle_mode == ShuffleMode::PlaySimilar,
                    m.queue_tracks@.len() == 0,
                    m.artists@.len() == 0,
                    views(m.genres@) == genres_lookup(before.0, gs.take(j as int)).0,
                    gidx@ == genres_lookup(before.0, gs.take(j as int)).1.map_values(|x: int| x as usize),
                decreases glen - j,
            {
                let g = m.all_tracks[i].genre[j].clone();
                let ghost prev = genres_lookup(before.0, gs.take(j as int));
                let k = m.genre_index(g.as_str());
                gidx.push(k);
                proof {
                    assert(gs.take(j + 1).drop_last() =~= gs.take(j as int));
                    assert(gs.take(j + 1).last() == g@);
                    let next = genres_lookup(before.0, gs.take(j + 1));
                    assert(next.1 == prev.1.push(k as int));
                    assert(gidx@ =~= next.1.map_values(|x: int| x as usize));
                }
                j += 1;
            }
            proof {
                assert(gs.take(glen as int) =~= gs);
                assert(tracks@.take(i + 1).drop_last() =~= tracks@.take(i as int));
                assert(tracks@.take(i + 1).last() == tracks@[i as int]);
            }
            let sorted = sort_descending(&gidx);
            infos.push(TrackInfo { genres: sorted, artist: 0, bpm: 100 });
            i += 1;
        }
        m.track_info = infos;
        proof {
            assert(tracks@.take(n as int) =~= tracks@);
            if genres_settle(tracks@) {
                lemma_genre_table_clean(tracks@);
            }
            let (table, lookups) = tracks_lookup(Seq::<Seq<char>>::empty(), tracks@);
            lemma_tracks_lookup_bounds(Seq::<Seq<char>>::empty(), tracks@);
            assert(views(m.genres@).len() == m.genres.len());
            assert forall|k: int, j: int| 0 <= k < m.track_info.len() && 0 <= j < m.track_info@[k].genres.len()
                implies #[trigger] m.track_info@[k].genres@[j] < m.genres.len() by {
                let g = m.track_info@[k].genres@;
                let l = lookups[k].map_values(|x: int| x as usize);
                assert(g.contains(g[j]));
                vstd::seq_lib::to_multiset_contains(g, g[j]);
                vstd::seq_lib::to_multiset_contains(l, g[j]);
                assert(l.contains(g[j]));
                let w = choose|w: int| 0 <= w < l.len() && l[w] == g[j];
                assert(0 <= lookups[k][w] < table.len());
            }
        }
        m
    }
}

/// A match found in a prefix is the first match of the whole sequence.
proof fn lemma_first_prefix(names: Seq<Seq<char>>, g: Seq<char>, i: int)
    requires
        0 <= i < names.len(),
        first_similar(names.take(i), g) == i,
        is_similar(g, names[i]),
    ensures
        first_similar(names, g) == i,
    decreases names.len(),
{
    if names.len() == i + 1 {
        assert(names.drop_last() =~= names.take(i));
    } else {
        assert(names.drop_last().take(i) =~= names.take(i));
        lemma_first_prefix(names.drop_last(), g, i);
    }
}

/// An equal entry found in a prefix is the first one of the whole sequence.
proof fn lemma_first_equal_prefix(names: Seq<Seq<char>>, n: Seq<char>, i: int)
    requires
        0 <= i < names.len(),
        first_equal(names.take(i), n) == i,
        names[i] == n,
    ensures
        first_equal(names, n) == i,
    decreases names.len(),
{
    if names.len() == i + 1 {
        assert(names.drop_last() =~= names.take(i));
    } else {
        assert(names.drop_last().take(i) =~= names.take(i));
        lemma_first_equal_prefix(names.drop_last(), n, i);
    }
}

/// Some name of `names` equals `n`.
pub open spec fn has_name(names: Seq<String>, n: Seq<char>) -> bool {
    exists|i: int| 0 <= i < names.len() && names[i]@ == n
}

/// Whether some name of `names` equals `n`.
pub fn contains_name(names: &Vec<String>, n: &String) -> (r: bool)
    ensures
        r == has_name(names@, n@),
{
    let mut i: usize = 0;
    while i < names.len()
        invariant
            i <= names.len(),
            forall|k: int| 0 <= k < i ==> names@[k]@ != n@,
        decreases names.len() - i,
    {
        if names[i] == *n {
            return true;
        }
        i += 1;
    }
    false
}

/// The outcomes of a predicate over the tracks pick out the same indices as the predicate.
proof fn lemma_flagged_outcomes(tracks: Seq<Track>, pred: spec_fn(Track) -> bool, r: Seq<usize>)
    requires
        exists|outcomes: Seq<bool>| {
            &&& outcomes.len() == tracks.len()
            &&& forall|i: int| 0 <= i < outcomes.len() ==> #[trigger] outcomes[i] == pred(tracks[i])
            &&& r == flagged(outcomes)
        },
    ensures
        r == indices_where(tracks, pred),
        forall|k: int| 0 <= k < r.len() ==> #[trigger] r[k] < tracks.len(),
{
    let outcomes = choose|outcomes: Seq<bool>| {
        &&& outcomes.len() == tracks.len()
        &&& forall|i: int| 0 <= i < outcomes.len() ==> #[trigger] outcomes[i] == pred(tracks[i])
        &&& r == flagged(outcomes)
    };
    lemma_flagged_indices(tracks, pred, outcomes);
}

proof fn lemma_flagged_indices(tracks: Seq<Track>, pred: spec_fn(Track) -> bool, outcomes: Seq<bool>)
    requires
        outcomes.len() == tracks.len(),
        forall|i: int| 0 <= i < outcomes.len() ==> #[trigger] outcomes[i] == pred(tracks[i]),
    ensures
        flagged(outcomes) == indices_where(tracks, pred),
        forall|k: int| 0 <= k < flagged(outcomes).len() ==> #[trigger] flagged(outcomes)[k] < tracks.len(),
    decreases tracks.len(),
{
    if tracks.len() > 0 {
        let o = outcomes.drop_last();
        let t = tracks.drop_last();
        assert forall|i: int| 0 <= i < o.len() implies #[trigger] o[i] == pred(t[i]) by {
            assert(o[i] == outcomes[i]);
        }
        lemma_flagged_indices(t, pred, o);
        assert(outcomes.last() == pred(tracks.last()));
    }
}

/// The positions of the `true` entries of `bs`, in order.
pub open spec fn flagged(bs: Seq<bool>) -> Seq<usize>
    decreases bs.len(),
{
    if bs.len() == 0 {
        Seq::<usize>::empty()
    } else if bs.last() {
        flagged(bs.drop_last()).push((bs.len() - 1) as usize)
    } else {
        flagged(bs.drop_last())
    }
}

/// A position is listed by `indices_where` exactly when it names a track
/// that `pred` selects.
pub proof fn lemma_indices_where_contains(tracks: Seq<Track>, pred: spec_fn(Track) -> bool, k: int)
    requires
        tracks.len() <= usize::MAX,
        0 <= k <= usize::MAX,
    ensures
        indices_where(tracks, pred).contains(k as usize) <==> (k < tracks.len() && pred(tracks[k])),
    decreases tracks.len(),
{
    if tracks.len() > 0 {
        let init = tracks.drop_last();
        lemma_indices_where_contains(init, pred, k);
        lemma_indices_where_bounds(init, pred);
        let w = indices_where(init, pred);
        let last = (tracks.len() - 1) as usize;
        if k < init.len() {
            assert(init[k] == tracks[k]);
        }
        if pred(tracks.last()) {
            let v = w.push(last);
            if v.contains(k as usize) {
                let j = choose|j: int| 0 <= j < v.len() && v[j] == k as usize;
                if j < w.len() {
                    assert(w.contains(k as usize));
                }
            }
            if k < tracks.len() && pred(tracks[k]) {
                if k == tracks.len() - 1 {
                    assert(v[w.len() as int] == k as usize);
                } else {
                    let j = choose|j: int| 0 <= j < w.len() && w[j] == k as usize;
                    assert(v[j] == k as usize);
                }
            }
        } else {
            if k == tracks.len() - 1 {
                assert(!w.contains(k as usize));
            }
        }
    }
}

/// Every position listed by `indices_where` is below the number of tracks.
proof fn lemma_indices_where_bounds(tracks: Seq<Track>, pred: spec_fn(Track) -> bool)
    requires
        tracks.len() <= usize::MAX,
    ensures
        forall|j: int| 0 <= j < indices_where(tracks, pred).len() ==> #[trigger] indices_where(tracks, pred)[j] < tracks.len(),
    decreases tracks.len(),
{
    if tracks.len() > 0 {
        let init = tracks.drop_last();
        lemma_indices_where_bounds(init, pred);
        let w = indices_where(init, pred);
        let v = indices_where(tracks, pred);
        assert forall|j: int| 0 <= j < v.len() implies #[trigger] v[j] < tracks.len() by {
            if j < w.len() {
                assert(v[j] == w[j]);
            } else {
                assert(v[j] == (tracks.len() - 1) as usize);
            }
        }
    }
}

/// The tracks that belong to a queue type are those its membership test picks.
proof fn lemma_matching_is_indices(tracks: Seq<Track>, q: QueueType)
    ensures
        matching_tracks(tracks, q) == indices_where(tracks, |t: Track| track_matches(t, q)),
    decreases tracks.len(),
{
    if tracks.len() > 0 {
        lemma_matching_is_indices(tracks.drop_last(), q);
    }
}

/// The tracks of an artist queue are exactly those with an artist that is
/// equal to the queue's artist once both are stripped; those of an album
/// queue, exactly those whose album is equal to it once stripped; and an
/// all-tracks queue holds every track.
pub proof fn lemma_matching_by_stripped_names(tracks: Seq<Track>, q: QueueType, k: int)
    requires
        tracks.len() <= usize::MAX,
        0 <= k < tracks.len(),
    ensures
        q is AllTracks ==> matching_tracks(tracks, q).contains(k as usize),
        q matches QueueType::Artist(a) ==> (matching_tracks(tracks, q).contains(k as usize) <==> exists|i: int|
            0 <= i < tracks[k].artists.len() && stripped(#[trigger] tracks[k].artists@[i]@) == stripped(a@)),
        q matches QueueType::Album(a) ==> (matching_tracks(tracks, q).contains(k as usize) <==> stripped(tracks[k].album@) == stripped(a@)),
{
    lemma_matching_is_indices(tracks, q);
    lemma_indices_where_contains(tracks, |t: Track| track_matches(t, q), k);
    crate::track::lemma_matches_by_stripped_names(tracks[k], q);
}

/// An artist queue built by `add_artist_queue` holds track `k` exactly when
/// one of its artists is the queue's artist, character for character; an
/// album queue built by `add_album_queue` holds it exactly when its album is
/// the queue's album.
pub proof fn lemma_named_queues_hold(tracks: Seq<Track>, name: Seq<char>, k: int)
    requires
        tracks.len() <= usize::MAX,
        0 <= k < tracks.len(),
    ensures
        indices_where(tracks, |t: Track| has_name(t.artists@, name)).contains(k as usize)
            <==> exists|i: int| 0 <= i < tracks[k].artists.len() && #[trigger] tracks[k].artists@[i]@ == name,
        indices_where(tracks, |t: Track| t.album@ == name).contains(k as usize) <==> tracks[k].album@ == name,
{
    lemma_indices_where_contains(tracks, |t: Track| has_name(t.artists@, name), k);
    lemma_indices_where_contains(tracks, |t: Track| t.album@ == name, k);
}

/// The indices of the tracks that satisfy `pred`, in order.
pub open spec fn indices_where(tracks: Seq<Track>, pred: spec_fn(Track) -> bool) -> Seq<usize>
    decreases tracks.len(),
{
    if tracks.len() == 0 {
        Seq::<usize>::empty()
    } else if pred(tracks.last()) {
        indices_where(tracks.drop_last(), pred).push((tracks.len() - 1) as usize)
    } else {
        indices_where(tracks.drop_last(), pred)
    }
}

/// The indices of the tracks that belong to a queue of type `q`, in order.
pub open spec fn matching_tracks(tracks: Seq<Track>, q: QueueType) -> Seq<usize>
    decreases tracks.len(),
{
    if tracks.len() == 0 {
        Seq::<usize>::empty()
    } else if track_matches(tracks.last(), q) {
        matching_tracks(tracks.drop_last(), q).push((tracks.len() - 1) as usize)
    } else {
        matching_tracks(tracks.drop_last(), q)
    }
}

/// Whether `x` occurs in `v`.
pub fn contains_index(v: &Vec<usize>, x: usize) -> (r: bool)
    ensures
        r == v@.contains(x),
{
    let mut i: usize = 0;
    while i < v.len()
        invariant
            i <= v.len(),
            forall|k: int| 0 <= k < i ==> v@[k] != x,
        decreases v.len() - i,
    {
        if v[i] == x {
            proof {
                assert(v@[i as int] == x);
            }
            return true;
        }
        i += 1;
    }
    false
}

/// Track `i` may be picked by the radio: its first genre is known and it is
/// not already in the queue `queued`.
pub open spec fn radio_eligible_track(t: Track, i: int, queued: Seq<usize>) -> bool {
    t.genre@[0]@.len() > 0 && !queued.contains(i as usize)
}

impl QueueManager {
    /// For each track, whether the radio may pick it next: tracks without a
    /// known first genre and tracks already in the current queue get no
    /// weight.
    pub fn radio_eligible(&self) -> (r: Vec<bool>)
        requires
            self.wf(),
            forall|i: int| 0 <= i < self.all_tracks.len() ==> #[trigger] self.all_tracks@[i].genre.len() > 0,
        ensures
            r.len() == self.all_tracks.len(),
            forall|i: int| 0 <= i < r.len()
                ==> #[trigger] r@[i] == radio_eligible_track(self.all_tracks@[i], i, self.cur().cached_order@),
    {
        let queued = &self.queues[self.current_queue].cached_order;
        let mut out: Vec<bool> = Vec::new();
        let mut i: usize = 0;
        while i < self.all_tracks.len()
            invariant
                i <= self.all_tracks.len(),
                queued@ == self.cur().cached_order@,
                forall|k: int| 0 <= k < self.all_tracks.len() ==> #[trigger] self.all_tracks@[k].genre.len() > 0,
                out.len() == i,
                forall|k: int| 0 <= k < i
                    ==> #[trigger] out@[k] == radio_eligible_track(self.all_tracks@[k], k, self.cur().cached_order@),
            decreases self.all_tracks.len() - i,
        {
            let t = &self.all_tracks[i];
            assert(t.genre.len() > 0);
            let known = t.genre[0].as_str().unicode_len() > 0;
            let eligible = known && !contains_index(queued, i);
            out.push(eligible);
            i += 1;
        }
        out
    }
}

/// A shuffling strategy; it holds no state.
#[derive(Debug)]
pub struct Shuffler {}

} // verus!
