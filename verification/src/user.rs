//! Following and unfollowing feeds.

use crate::conf::{Data, DataView};
use crate::feed::NICK;
use crate::parse::{metadata, metadata_of};
use crate::text::{chars_of, clone_strs, contains, find_in, lemma_strs_push, strs};
use vstd::prelude::*;
use vstd::string::StringExecFns;

verus! {

/// What stands between the nickname and the address in the entry of a
/// followed feed.
pub const GAP: &'static str = " ";

/// The nickname under which a feed is followed: the one that its text
/// declares, or none where nothing was retrieved or nothing is declared.
pub open spec fn followed_nick(twtxt: Option<Seq<char>>) -> Seq<char> {
    match twtxt {
        Some(text) => match metadata_of(text, NICK@) {
            Ok(nick) => nick,
            Err(_) => Seq::empty(),
        },
        None => Seq::empty(),
    }
}

/// The entry of a followed feed: its nickname, a gap and its address.
pub open spec fn follow_entry(url: Seq<char>, twtxt: Option<Seq<char>>) -> Seq<char> {
    followed_nick(twtxt) + GAP@ + url
}

/// The entries that do not hold `nick`.
pub open spec fn without(follow: Seq<Seq<char>>, nick: Seq<char>) -> Seq<Seq<char>> {
    follow.filter(|entry: Seq<char>| !contains(entry, nick))
}

/// The text that was retrieved, as plain text.
pub open spec fn retrieved(twtxt: Option<&str>) -> Option<Seq<char>> {
    match twtxt {
        Some(text) => Some(text@),
        None => None,
    }
}

/// The settings after the feed at `url` was followed.  `twtxt` is the text
/// that was retrieved from `url`, `None` where the retrieval failed; the
/// feed is followed under the nickname that the text declares.
pub fn follow(data: &Data, url: &str, twtxt: Option<&str>) -> (r: Data)
    ensures
        r@ == (DataView { follow: data@.follow.push(follow_entry(url@, retrieved(twtxt))), ..data@ }),
{
    let mut entry = match twtxt {
        Some(text) => match metadata(text, NICK) {
            Ok(nick) => nick,
            Err(_) => String::new(),
        },
        None => String::new(),
    };
    entry.append(GAP);
    entry.append(url);
    let mut list = clone_strs(&data.follow);
    let ghost before = list@;
    list.push(entry);
    proof {
        lemma_strs_push(before, list@.last());
    }
    Data { nick: data.nick.clone(), path: data.path.clone(), url: data.url.clone(), follow: list }
}

/// The settings after the feeds of `nick` were unfollowed: every entry that
/// holds `nick` is left out.
pub fn unfollow(data: &Data, nick: &str) -> (r: Data)
    ensures
        r@ == (DataView { follow: without(data@.follow, nick@), ..data@ }),
{
    let word = chars_of(nick);
    let ghost keep = |entry: Seq<char>| !contains(entry, nick@);
    let mut list: Vec<String> = Vec::new();
    let mut i: usize = 0;
    proof {
        reveal(Seq::filter);
        assert(strs(data.follow@).take(0) =~= Seq::<Seq<char>>::empty());
        assert(strs(list@) =~= Seq::<Seq<char>>::empty());
    }
    while i < data.follow.len()
        invariant
            i <= data.follow.len(),
            word@ == nick@,
            keep == (|entry: Seq<char>| !contains(entry, nick@)),
            strs(list@) == strs(data.follow@).take(i as int).filter(keep),
        decreases data.follow.len() - i,
    {
        let ghost before = list@;
        proof {
            reveal(Seq::filter);
            let done = strs(data.follow@).take(i + 1);
            assert(done.drop_last() =~= strs(data.follow@).take(i as int));
            assert(done.last() == data.follow@[i as int]@);
        }
        let entry = chars_of(data.follow[i].as_str());
        if find_in(entry.as_slice(), word.as_slice()).is_none() {
            list.push(data.follow[i].clone());
            proof {
                lemma_strs_push(before, list@.last());
            }
        }
        i += 1;
    }
    assert(strs(data.follow@).take(i as int) =~= strs(data.follow@));
    Data { nick: data.nick.clone(), path: data.path.clone(), url: data.url.clone(), follow: list }
}

} // verus!
