//! The timeline: the posts of the local feed and of the followed feeds in
//! one order, each with the feed it came from.

use crate::feed::{feed_of, TweetView, Twtxt, TwtxtView, NICK, URL};
use crate::map::{
    among, lemma_among_all, lemma_among_step, lemma_ascending_distinct, lemma_key_order, SortedMap,
};
use crate::parse::{metadata_of, LINE_END};
use crate::text::{join, join_strs, lex_lt, split, split_str, strs};
use vstd::prelude::*;
use vstd::string::StringExecFns;

verus! {

/// What stands between the nickname and the address of a rendered entry.
pub const AT: &'static str = "@";

/// What stands between the address and the timestamp of a rendered entry.
pub const INDENT: &'static str = "\n\t";

/// What stands between the timestamp and the body of a post.
pub const TAB: &'static str = "\t";

/// What ends a rendered entry, and stands between the lines of a feed.
pub const NEWLINE: &'static str = "\n";

/// A followed feed, as plain text.
pub struct SourceView {
    /// The nickname under which the feed is followed.
    pub nick: Seq<char>,
    /// The address of the feed.
    pub url: Seq<char>,
    /// The text that was retrieved from the address, if any was.
    pub text: Option<Seq<char>>,
}

/// A followed feed: the nickname and the address under which it is
/// followed, and the text that was retrieved from the address.  `text` is
/// `None` where the retrieval failed.
#[derive(Debug, PartialEq, Eq)]
pub struct Source {
    nick: String,
    url: String,
    text: Option<String>,
}

impl View for Source {
    type V = SourceView;

    closed spec fn view(&self) -> SourceView {
        SourceView {
            nick: self.nick@,
            url: self.url@,
            text: match self.text {
                Some(text) => Some(text@),
                None => None,
            },
        }
    }
}

impl Source {
    /// A followed feed with what was retrieved from its address.
    pub fn new(nick: String, url: String, text: Option<String>) -> (source: Source)
        ensures
            source@ == (SourceView {
                nick: nick@,
                url: url@,
                text: match text {
                    Some(text) => Some(text@),
                    None => None,
                },
            }),
    {
        Source { nick, url, text }
    }

    /// The nickname under which the feed is followed.
    pub fn nick(&self) -> (r: &str)
        ensures
            r@ == self@.nick,
    {
        self.nick.as_str()
    }

    /// The address of the feed.
    pub fn url(&self) -> (r: &str)
        ensures
            r@ == self@.url,
    {
        self.url.as_str()
    }

    /// The feed that the retrieved text holds.  The text must declare both
    /// its nickname and its address.
    pub fn feed(&self) -> (r: Option<Twtxt>)
        ensures
            crate::feed::feed_view(r) == source_feed(self@),
    {
        match &self.text {
            Some(text) => Twtxt::from(None, text.as_str()),
            None => None,
        }
    }
}

/// What stands between the nickname and the address in the entry of a
/// followed feed.
pub const GAP: char = ' ';

/// The nickname and the address in the entry of a followed feed: its first
/// two fields.  An entry of one field has none.
pub open spec fn followed_pair(entry: Seq<char>) -> Option<(Seq<char>, Seq<char>)> {
    let fields = split(entry, GAP);
    if fields.len() >= 2 {
        Some((fields[0], fields[1]))
    } else {
        None
    }
}

/// The nickname and the address in the entry of a followed feed.
pub fn parse_follow(entry: &str) -> (r: Option<(String, String)>)
    ensures
        r is Some <==> followed_pair(entry@) is Some,
        r matches Some(pair) ==> followed_pair(entry@) == Some((pair.0@, pair.1@)),
{
    let fields = split_str(entry, GAP);
    assert(strs(fields@).len() == fields@.len());
    if fields.len() >= 2 {
        assert(strs(fields@)[0] == fields@[0]@);
        assert(strs(fields@)[1] == fields@[1]@);
        Some((fields[0].clone(), fields[1].clone()))
    } else {
        None
    }
}

/// An entry of the timeline, as plain text.
pub struct EntryView {
    /// The nickname of the feed that the post came from.
    pub nick: Seq<char>,
    /// The address of the feed that the post came from.
    pub url: Seq<char>,
    /// When the post was made.
    pub timestamp: Seq<char>,
    /// The text of the post.
    pub body: Seq<char>,
    /// Whether the post came from the local feed.
    pub local: bool,
}

/// An entry of the timeline: a post with the feed it came from.
#[derive(Debug, PartialEq, Eq)]
pub struct Entry {
    nick: String,
    url: String,
    timestamp: String,
    body: String,
    local: bool,
}

impl View for Entry {
    type V = EntryView;

    closed spec fn view(&self) -> EntryView {
        EntryView {
            nick: self.nick@,
            url: self.url@,
            timestamp: self.timestamp@,
            body: self.body@,
            local: self.local,
        }
    }
}

/// An entry as it is shown: the feed on one line, the post on the next.
pub open spec fn rendered(entry: EntryView) -> Seq<char> {
    entry.nick + AT@ + entry.url + INDENT@ + entry.timestamp + TAB@ + entry.body + NEWLINE@
}

impl Entry {
    /// The nickname of the feed that the post came from.
    pub fn nick(&self) -> (r: &str)
        ensures
            r@ == self@.nick,
    {
        self.nick.as_str()
    }

    /// The address of the feed that the post came from.
    pub fn url(&self) -> (r: &str)
        ensures
            r@ == self@.url,
    {
        self.url.as_str()
    }

    /// When the post was made.
    pub fn timestamp(&self) -> (r: &str)
        ensures
            r@ == self@.timestamp,
    {
        self.timestamp.as_str()
    }

    /// The text of the post.
    pub fn body(&self) -> (r: &str)
        ensures
            r@ == self@.body,
    {
        self.body.as_str()
    }

    /// Whether the post came from the local feed.
    pub fn is_local(&self) -> (r: bool)
        ensures
            r == self@.local,
    {
        self.local
    }

    /// The entry as it is shown.
    pub fn render(&self) -> (r: String)
        ensures
            r@ == rendered(self@),
    {
        let mut r = self.nick.clone();
        r.append(AT);
        r.append(self.url.as_str());
        r.append(INDENT);
        r.append(self.timestamp.as_str());
        r.append(TAB);
        r.append(self.body.as_str());
        r.append(NEWLINE);
        r
    }
}

/// The posts of the timeline, each at its timestamp, in the order of the
/// timestamps.
pub type Timeline = SortedMap<Entry>;

/// The entry for the post at `timestamp`, from the feed of `nick` at `url`.
pub open spec fn entry_for(
    nick: Seq<char>,
    url: Seq<char>,
    timestamp: Seq<char>,
    post: TweetView,
    local: bool,
) -> EntryView {
    EntryView { nick, url, timestamp, body: post.body, local }
}

/// The posts of one feed as entries of the feed of `nick` at `url`.
pub open spec fn attributed(
    nick: Seq<char>,
    url: Seq<char>,
    posts: Map<Seq<char>, TweetView>,
    local: bool,
) -> Map<Seq<char>, EntryView> {
    Map::new(
        |k: Seq<char>| posts.contains_key(k),
        |k: Seq<char>| entry_for(nick, url, k, posts[k], local),
    )
}

/// The entries for the posts at the first `n` of `keys`.
pub open spec fn attributed_first(
    nick: Seq<char>,
    url: Seq<char>,
    posts: Map<Seq<char>, TweetView>,
    local: bool,
    keys: Seq<Seq<char>>,
    n: int,
) -> Map<Seq<char>, EntryView> {
    Map::new(
        |k: Seq<char>| among(keys, n, k),
        |k: Seq<char>| entry_for(nick, url, k, posts[k], local),
    )
}

/// The feed that a followed source holds: none where nothing was
/// retrieved, or where what was retrieved holds no feed.  No address is
/// supplied for it: the text must declare its own.
pub open spec fn source_feed(source: SourceView) -> Option<TwtxtView> {
    match source.text {
        Some(text) => feed_of(None, text),
        None => None,
    }
}

/// What a followed source adds to the timeline: the posts of its feed,
/// under the nickname and the address by which it is followed.
pub open spec fn contribution(source: SourceView) -> Map<Seq<char>, EntryView> {
    match source_feed(source) {
        Some(feed) => attributed(source.nick, source.url, feed.tweets, false),
        None => Map::empty(),
    }
}

/// The entries of the followed sources.  Where two sources have a post at
/// one timestamp, that of the later source stays.
pub open spec fn followed(sources: Seq<SourceView>) -> Map<Seq<char>, EntryView>
    decreases sources.len(),
{
    if sources.len() == 0 {
        Map::empty()
    } else {
        followed(sources.drop_last()).union_prefer_right(contribution(sources.last()))
    }
}

/// What the local feed adds to the timeline: its posts under its own
/// nickname and address.
pub open spec fn local_entries(local: Option<TwtxtView>) -> Map<Seq<char>, EntryView> {
    match local {
        Some(feed) => attributed(feed.nickname, feed.url, feed.tweets, true),
        None => Map::empty(),
    }
}

/// The timeline of a local feed and of followed sources.  Where the local
/// feed and a source have a post at one timestamp, that of the local feed
/// stays.
pub open spec fn merged(local: Option<TwtxtView>, sources: Seq<SourceView>) -> Map<
    Seq<char>,
    EntryView,
> {
    followed(sources).union_prefer_right(local_entries(local))
}

/// A followed source adds nothing where nothing was retrieved from it, or
/// where what was retrieved declares no nickname or no address.
pub proof fn lemma_no_contribution(source: SourceView)
    ensures
        source.text is None ==> contribution(source) == Map::<Seq<char>, EntryView>::empty(),
        source.text matches Some(text) && (metadata_of(text, NICK@) is Err || metadata_of(
            text,
            URL@,
        ) is Err) ==> contribution(source) == Map::<Seq<char>, EntryView>::empty(),
{
}

/// A post of the local feed stands in the timeline at its timestamp, as a
/// post of the local feed, whatever the sources hold at that timestamp.
pub proof fn lemma_local_post_stays(
    local: TwtxtView,
    sources: Seq<SourceView>,
    timestamp: Seq<char>,
)
    requires
        local.tweets.contains_key(timestamp),
    ensures
        merged(Some(local), sources).contains_key(timestamp),
        merged(Some(local), sources)[timestamp] == entry_for(
            local.nickname,
            local.url,
            timestamp,
            local.tweets[timestamp],
            true,
        ),
{
}

/// A post of a followed source stands in the entries of the sources at its
/// timestamp, unless a later source has a post at that timestamp.
pub proof fn lemma_followed_post(sources: Seq<SourceView>, i: int, timestamp: Seq<char>)
    requires
        0 <= i < sources.len(),
        contribution(sources[i]).contains_key(timestamp),
    ensures
        followed(sources).contains_key(timestamp),
        (forall|j: int| i < j < sources.len() ==> !contribution(#[trigger] sources[j]).contains_key(timestamp))
            ==> followed(sources)[timestamp] == contribution(sources[i])[timestamp],
    decreases sources.len(),
{
    if i < sources.len() - 1 {
        let rest = sources.drop_last();
        assert(rest[i] == sources[i]);
        lemma_followed_post(rest, i, timestamp);
        assert forall|j: int| i < j < rest.len() implies rest[j] == sources[j] by {}
        if forall|j: int| i < j < sources.len() ==> !contribution(#[trigger] sources[j]).contains_key(timestamp) {
            assert(!contribution(sources[sources.len() - 1]).contains_key(timestamp));
            assert forall|j: int| i < j < rest.len() implies !contribution(
                #[trigger] rest[j],
            ).contains_key(timestamp) by {
                assert(rest[j] == sources[j]);
            }
        }
    }
}

/// Every post of a followed source has an entry in the timeline at its
/// timestamp.
pub proof fn lemma_source_post_shown(
    local: Option<TwtxtView>,
    sources: Seq<SourceView>,
    i: int,
    timestamp: Seq<char>,
)
    requires
        0 <= i < sources.len(),
        contribution(sources[i]).contains_key(timestamp),
    ensures
        merged(local, sources).contains_key(timestamp),
{
    lemma_followed_post(sources, i, timestamp);
}

/// The timeline holds one entry for each timestamp: two places of the
/// timeline with one timestamp are one place.
pub proof fn lemma_one_entry_each(timeline: Timeline, i: int, j: int)
    requires
        timeline.wf(),
        0 <= i < timeline.keys().len(),
        0 <= j < timeline.keys().len(),
        timeline.keys()[i] == timeline.keys()[j],
    ensures
        i == j,
{
    lemma_ascending_distinct(timeline.keys(), i, j);
}

/// The timeline is in the order of the timestamps: of two of its entries
/// the one with the earlier timestamp stands first.
pub proof fn lemma_timeline_order(timeline: Timeline, earlier: Seq<char>, later: Seq<char>)
    requires
        timeline.wf(),
        timeline@.contains_key(earlier),
        timeline@.contains_key(later),
        lex_lt(earlier, later),
    ensures
        0 <= timeline.keys().index_of(earlier) < timeline.keys().index_of(later)
            < timeline.keys().len(),
{
    lemma_key_order(timeline.keys(), earlier, later);
}

/// A post of a followed source whose timestamp lies between those of two
/// posts of the local feed stands between them in the timeline.
pub proof fn lemma_merge_order(
    timeline: Timeline,
    local: TwtxtView,
    sources: Seq<SourceView>,
    i: int,
    first: Seq<char>,
    second: Seq<char>,
    third: Seq<char>,
)
    requires
        timeline.wf(),
        timeline@ == merged(Some(local), sources),
        local.tweets.contains_key(first),
        local.tweets.contains_key(third),
        0 <= i < sources.len(),
        contribution(sources[i]).contains_key(second),
        lex_lt(first, second),
        lex_lt(second, third),
    ensures
        0 <= timeline.keys().index_of(first) < timeline.keys().index_of(second)
            < timeline.keys().index_of(third) < timeline.keys().len(),
{
    lemma_local_post_stays(local, sources, first);
    lemma_local_post_stays(local, sources, third);
    lemma_source_post_shown(Some(local), sources, i, second);
    lemma_key_order(timeline.keys(), first, second);
    lemma_key_order(timeline.keys(), second, third);
}

/// The views of followed sources.
pub open spec fn source_views(sources: Seq<Source>) -> Seq<SourceView> {
    Seq::new(sources.len(), |i: int| sources[i]@)
}

/// The view of a local feed that may be missing.
pub open spec fn local_view(local: Option<&Twtxt>) -> Option<TwtxtView> {
    match local {
        Some(feed) => Some(feed@),
        None => None,
    }
}

/// Puts the posts of `feed` into `timeline`, as posts of the feed of `nick`
/// at `url`.  An entry that `timeline` had at the timestamp of one of them
/// is replaced.
pub fn add_feed(timeline: &mut Timeline, nick: &str, url: &str, feed: &Twtxt, local: bool)
    ensures
        final(timeline)@ == old(timeline)@.union_prefer_right(
            attributed(nick@, url@, feed@.tweets, local),
        ),
{
    let tweets = feed.tweets();
    let n = tweets.len();
    let ghost keys = tweets.keys();
    let ghost posts = tweets@;
    let ghost before = timeline@;
    let mut i: usize = 0;
    proof {
        lemma_among_all(keys);
        assert(before.union_prefer_right(attributed_first(nick@, url@, posts, local, keys, 0))
            =~= before);
    }
    while i < n
        invariant
            i <= n,
            n == tweets.keys().len(),
            keys == tweets.keys(),
            posts == tweets@,
            timeline@ == before.union_prefer_right(
                attributed_first(nick@, url@, posts, local, keys, i as int),
            ),
        decreases n - i,
    {
        let tweet = tweets.value_at(i);
        let timestamp = tweets.key_at(i);
        let entry = Entry {
            nick: nick.to_owned(),
            url: url.to_owned(),
            timestamp: timestamp.to_owned(),
            body: tweet.body().to_owned(),
            local,
        };
        proof {
            lemma_among_step(keys, i as int);
            assert(entry@ == entry_for(nick@, url@, keys[i as int], posts[keys[i as int]], local));
            assert(before.union_prefer_right(
                attributed_first(nick@, url@, posts, local, keys, i as int),
            ).insert(keys[i as int], entry@) =~= before.union_prefer_right(
                attributed_first(nick@, url@, posts, local, keys, i + 1),
            ));
        }
        timeline.insert(timestamp.to_owned(), entry);
        i += 1;
    }
    proof {
        lemma_among_all(keys);
        assert(attributed_first(nick@, url@, posts, local, keys, n as int) =~= attributed(
            nick@,
            url@,
            posts,
            local,
        ));
    }
}

/// The entries of the followed sources, each under the nickname and the
/// address by which its feed is followed.  A source whose text is missing
/// or holds no feed adds nothing.
pub fn pull_followed_tweets(sources: &Vec<Source>) -> (timeline: Timeline)
    ensures
        timeline@ == followed(source_views(sources@)),
        timeline.wf(),
{
    let mut timeline: Timeline = SortedMap::new();
    let mut i: usize = 0;
    assert(source_views(sources@).take(0) =~= Seq::<SourceView>::empty());
    while i < sources.len()
        invariant
            i <= sources.len(),
            timeline@ == followed(source_views(sources@).take(i as int)),
        decreases sources.len() - i,
    {
        let source = &sources[i];
        proof {
            let done = source_views(sources@).take(i + 1);
            assert(done.drop_last() =~= source_views(sources@).take(i as int));
            assert(done.last() == source@);
        }
        match source.feed() {
            Some(feed) => {
                add_feed(&mut timeline, source.nick(), source.url(), &feed, false);
            },
            None => {
                assert(timeline@.union_prefer_right(contribution(source@)) =~= timeline@);
            },
        }
        i += 1;
    }
    assert(source_views(sources@).take(i as int) =~= source_views(sources@));
    proof {
        use_type_invariant(&timeline);
    }
    timeline
}

/// The timeline of the local feed and of the followed sources: the posts of
/// the sources in the order in which they are followed, then those of the
/// local feed, each put at its timestamp.
pub fn show(local: Option<&Twtxt>, sources: &Vec<Source>) -> (timeline: Timeline)
    ensures
        timeline@ == merged(local_view(local), source_views(sources@)),
        timeline.wf(),
{
    let mut timeline = pull_followed_tweets(sources);
    match local {
        Some(feed) => {
            add_feed(&mut timeline, feed.nick(), feed.url(), feed, true);
        },
        None => {
            assert(timeline@.union_prefer_right(local_entries(None)) =~= timeline@);
        },
    }
    proof {
        use_type_invariant(&timeline);
    }
    timeline
}

/// The entries of the timeline as they are shown, in the order of their
/// timestamps.
pub fn render(timeline: &Timeline) -> (out: Vec<String>)
    ensures
        out@.len() == timeline.keys().len(),
        forall|i: int|
            0 <= i < out@.len() ==> (#[trigger] out@[i])@ == rendered(
                timeline@[timeline.keys()[i]],
            ),
{
    let mut out: Vec<String> = Vec::new();
    let n = timeline.len();
    let mut i: usize = 0;
    while i < n
        invariant
            i <= n,
            n == timeline.keys().len(),
            out@.len() == i,
            forall|j: int|
                0 <= j < i ==> (#[trigger] out@[j])@ == rendered(timeline@[timeline.keys()[j]]),
        decreases n - i,
    {
        out.push(timeline.value_at(i).render());
        i += 1;
    }
    out
}

/// The lines of a feed that are not empty.
pub open spec fn kept_lines(text: Seq<char>) -> Seq<Seq<char>> {
    split(text, LINE_END).filter(|line: Seq<char>| line.len() > 0)
}

/// The line of a post.
pub open spec fn post_line(timestamp: Seq<char>, body: Seq<char>) -> Seq<char> {
    timestamp + TAB@ + body
}

/// The text of a feed after a post was added to it: its lines that are not
/// empty, then the line of the post.
pub open spec fn appended(text: Seq<char>, timestamp: Seq<char>, body: Seq<char>) -> Seq<char> {
    join(kept_lines(text).push(post_line(timestamp, body)), NEWLINE@)
}

/// Adds a post to the text of a feed.  Empty lines of the text are left
/// out, and the post becomes its last line.
pub fn tweet(twtxt: &str, timestamp: &str, body: &str) -> (r: String)
    ensures
        r@ == appended(twtxt@, timestamp@, body@),
{
    let lines = split_str(twtxt, LINE_END);
    let ghost keep = |line: Seq<char>| line.len() > 0;
    let mut kept: Vec<String> = Vec::new();
    let mut i: usize = 0;
    proof {
        reveal(Seq::filter);
        assert(strs(lines@).take(0) =~= Seq::<Seq<char>>::empty());
        assert(strs(kept@) =~= Seq::<Seq<char>>::empty());
    }
    while i < lines.len()
        invariant
            i <= lines.len(),
            keep == (|line: Seq<char>| line.len() > 0),
            strs(kept@) == strs(lines@).take(i as int).filter(keep),
        decreases lines.len() - i,
    {
        let ghost before = kept@;
        proof {
            reveal(Seq::filter);
            let done = strs(lines@).take(i + 1);
            assert(done.drop_last() =~= strs(lines@).take(i as int));
            assert(done.last() == lines@[i as int]@);
        }
        if !lines[i].as_str().is_empty() {
            kept.push(lines[i].clone());
            proof {
                crate::text::lemma_strs_push(before, kept@.last());
            }
        }
        i += 1;
    }
    assert(strs(lines@).take(i as int) =~= strs(lines@));
    let ghost before = kept@;
    let mut line = timestamp.to_owned();
    line.append(TAB);
    line.append(body);
    kept.push(line);
    proof {
        crate::text::lemma_strs_push(before, kept@.last());
    }
    join_strs(&kept, NEWLINE)
}

} // verus!
