//! Messages from the system's media controls to the player.
use vstd::prelude::*;

use std::sync::mpsc::Sender;

verus! {

/// A request from the media notification or audio focus.
#[derive(Debug, PartialEq, Eq, Structural, Clone, Copy)]
pub enum MediaMsg {
    Play,
    Pause,
    Next,
    Previous,
    SeekTo(i64),
}

#[verifier::external_type_specification]
#[verifier::external_body]
#[verifier::reject_recursive_types(T)]
pub struct ExSender<T>(Sender<T>);

/// The channel to the player, with the messages it has taken so far.
pub struct MediaChannel {
    pub tx: Sender<MediaMsg>,
    /// The messages the channel has accepted, oldest first.
    pub log: Ghost<Seq<MediaMsg>>,
    /// The messages handed to the channel, accepted or not, oldest first.
    pub attempts: Ghost<Seq<MediaMsg>>,
}

impl MediaChannel {
    /// A channel over `tx` that has been handed no message yet.
    pub fn new(tx: Sender<MediaMsg>) -> (r: Self)
        ensures
            r.log@ == Seq::<MediaMsg>::empty(),
            r.attempts@ == Seq::<MediaMsg>::empty(),
    {
        MediaChannel { tx, log: Ghost(Seq::empty()), attempts: Ghost(Seq::empty()) }
    }

    /// `Sender::send`: hands `msg` to the receiving end. By its documentation
    /// it fails exactly when the receiver has been dropped, and then the
    /// message will never be received; when it succeeds the message is queued
    /// once. So every call hands `msg` over once, and the log grows by `msg`
    /// on success and stays as it was on failure. Which of the two happens,
    /// only the channel knows.
    #[verifier::external_body]
    fn send(&mut self, msg: MediaMsg) -> (sent: bool)
        ensures
            final(self).attempts@ == old(self).attempts@.push(msg),
            sent ==> final(self).log@ == old(self).log@.push(msg),
            !sent ==> final(self).log@ == old(self).log@,
    {
        self.tx.send(msg).is_ok()
    }
}

/// Forwards `msg` to the player when a channel to it is open: it is handed to
/// the channel once. Returns `false` when there is no channel; otherwise
/// whether the channel took the message, which it then holds once, after
/// those it took before.
pub fn send_media_msg(channel: &mut Option<MediaChannel>, msg: MediaMsg) -> (sent: bool)
    ensures
        old(channel).is_none() ==> !sent && final(channel).is_none(),
        old(channel).is_some() ==> final(channel).is_some(),
        old(channel).is_some() ==> final(channel).unwrap().attempts@ == old(channel).unwrap().attempts@.push(msg),
        old(channel).is_some() && sent ==> final(channel).unwrap().log@ == old(channel).unwrap().log@.push(msg),
        old(channel).is_some() && !sent ==> final(channel).unwrap().log@ == old(channel).unwrap().log@,
{
    match channel {
        Some(c) => c.send(msg),
        None => false,
    }
}

} // verus!
