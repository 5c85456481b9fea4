//! Which tweet is open, and where the keys take the reader.

use crate::timeline::{has_id, item_index, lemma_item_index, sorted_by_id, Timeline, Tweet};
use vstd::prelude::*;

verus! {

/// The keys that the list of tweets answers to.
#[derive(Clone, Copy, Debug, PartialEq, Eq, Structural)]
pub enum Pressed {
    Up,
    Down,
    Home,
    F5,
    Other,
}

/// What a key does.
#[derive(Clone, Copy, Debug, PartialEq, Eq, Structural)]
pub enum Move {
    /// Open the tweet of this id.
    Expand(u64),
    /// Ask for the page after the newest tweet.
    LoadNewer,
    /// Ask for the page before the oldest tweet.
    LoadOlder,
    /// Nothing.
    Stay,
}

/// What the key does, with the tweets `tweets` held, oldest first, and the
/// tweet `expanded` open.  Up goes to the next newer tweet and Down to the
/// next older one; past the ends they ask for more.  Home opens the newest
/// tweet, F5 asks for newer ones.  With no tweet open, or one that is not
/// held, Up and Down do nothing.
pub open spec fn moved(tweets: Seq<Tweet>, expanded: Option<u64>, key: Pressed) -> Move {
    match key {
        Pressed::Up => match expanded {
            Some(id) if has_id(tweets, id) => if item_index(tweets, id) + 1 < tweets.len() {
                Move::Expand(tweets[item_index(tweets, id) + 1].id)
            } else {
                Move::LoadNewer
            },
            _ => Move::Stay,
        },
        Pressed::Down => match expanded {
            Some(id) if has_id(tweets, id) => if item_index(tweets, id) > 0 {
                Move::Expand(tweets[item_index(tweets, id) - 1].id)
            } else {
                Move::LoadOlder
            },
            _ => Move::Stay,
        },
        Pressed::Home => if tweets.len() > 0 {
            Move::Expand(tweets.last().id)
        } else {
            Move::Stay
        },
        Pressed::F5 => Move::LoadNewer,
        Pressed::Other => Move::Stay,
    }
}

/// What the key does.
pub fn key_pressed(timeline: &Timeline, expanded: Option<u64>, key: Pressed) -> (step: Move)
    ensures
        step == moved(timeline@, expanded, key),
{
    let tweets = timeline.tweets();
    match key {
        Pressed::Up => match expanded {
            Some(id) => match timeline.find(id) {
                Some(at) => {
                    proof {
                        lemma_item_index(timeline@, at as int);
                    }
                    let held = tweets.len();
                    if at + 1 < held {
                        Move::Expand(tweets[at + 1].id)
                    } else {
                        Move::LoadNewer
                    }
                },
                None => Move::Stay,
            },
            None => Move::Stay,
        },
        Pressed::Down => match expanded {
            Some(id) => match timeline.find(id) {
                Some(at) => {
                    proof {
                        lemma_item_index(timeline@, at as int);
                    }
                    if at > 0 {
                        Move::Expand(tweets[at - 1].id)
                    } else {
                        Move::LoadOlder
                    }
                },
                None => Move::Stay,
            },
            None => Move::Stay,
        },
        Pressed::Home => match timeline.newest_id() {
            Some(id) => Move::Expand(id),
            None => Move::Stay,
        },
        Pressed::F5 => Move::LoadNewer,
        Pressed::Other => Move::Stay,
    }
}

/// The tweet to open when tweets arrive: while none is open, the tweet that
/// was read last, if it is among the tweets held.
pub fn expand_latest(timeline: &Timeline, expanded: Option<u64>, latest: Option<u64>) -> (open:
    Option<u64>)
    ensures
        open == match (expanded, latest) {
            (None, Some(id)) if has_id(timeline@, id) => Some(id),
            _ => None::<u64>,
        },
{
    match (expanded, latest) {
        (None, Some(id)) => match timeline.find(id) {
            Some(_) => Some(id),
            None => None,
        },
        _ => None,
    }
}

/// Up and Down stay among the tweets held: the tweet that they open is the
/// neighbour of the open one, newer for Up and older for Down.
pub proof fn lemma_keys_stay_in_the_list(tweets: Seq<Tweet>, expanded: u64, key: Pressed)
    requires
        sorted_by_id(tweets),
        key == Pressed::Up || key == Pressed::Down,
    ensures
        moved(tweets, Some(expanded), key) matches Move::Expand(id) ==> has_id(tweets, id) && (key
            == Pressed::Up ==> id > expanded) && (key == Pressed::Down ==> id < expanded),
{
    if has_id(tweets, expanded) {
        let at = item_index(tweets, expanded);
        if key == Pressed::Up && at + 1 < tweets.len() {
            assert(tweets[at].id < tweets[at + 1].id);
        }
        if key == Pressed::Down && at > 0 {
            assert(tweets[at - 1].id < tweets[at].id);
        }
    }
}

} // verus!
