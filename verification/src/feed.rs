//! Posts and feeds.

use crate::map::{views_of, SortedMap};
use crate::parse::{
    body_field, has_separator, is_mention, is_skipped, is_tag, keep_mentions, keep_tags,
    lemma_fields, lemma_has_separator, lemma_marks, mentions_from, mentions_in, mentions_of,
    metadata, metadata_of, split_line, stand_in_turn, tags_among, tags_from, tags_of,
    timestamp_field, Fields, LINE_END, METADATA_MARKER, SEPARATOR,
};
use crate::stamp::{is_rfc3339, is_timestamp};
use crate::text::{clone_strs, contains, lines, lines_of, split, split_str, strs};
use vstd::prelude::*;

verus! {

/// Why a line that is neither empty nor a comment holds no post.
#[derive(Debug, Clone, Copy, PartialEq, Eq)]
pub enum ParseError {
    /// The line has no separator between a timestamp and a body.
    NoSeparator,
    /// The first field is no RFC 3339 timestamp.
    BadTimestamp,
}

impl ParseError {
    /// The failure in words.
    pub fn message(&self) -> (text: &'static str)
        ensures
            text@ == match *self {
                ParseError::NoSeparator => "no separator between timestamp and body"@,
                ParseError::BadTimestamp => "timestamp is not RFC 3339"@,
            },
    {
        match self {
            ParseError::NoSeparator => "no separator between timestamp and body",
            ParseError::BadTimestamp => "timestamp is not RFC 3339",
        }
    }
}

/// What a post holds, as plain text.
pub struct TweetView {
    /// When the post was made.
    pub timestamp: Seq<char>,
    /// The text of the post.
    pub body: Seq<char>,
    /// The mentions in the body, in their order.
    pub mentions: Seq<Seq<char>>,
    /// The tags in the body, in their order.
    pub tags: Seq<Seq<char>>,
}

/// Holds a single tweet.
#[derive(Debug, PartialEq, Eq)]
pub struct Tweet {
    timestamp: String,
    body: String,
    mentions: Vec<String>,
    tags: Vec<String>,
}

impl View for Tweet {
    type V = TweetView;

    closed spec fn view(&self) -> TweetView {
        TweetView {
            timestamp: self.timestamp@,
            body: self.body@,
            mentions: strs(self.mentions@),
            tags: strs(self.tags@),
        }
    }
}

/// The post that the two fields of a line make.
pub open spec fn post_from(timestamp: Seq<char>, body: Seq<char>) -> TweetView {
    TweetView { timestamp, body, mentions: mentions_of(body), tags: tags_of(body) }
}

/// What a line holds: a post, nothing (an empty line or a comment), or a
/// failure.
pub open spec fn post_of(line: Seq<char>) -> Result<Option<TweetView>, ParseError> {
    if is_skipped(line) {
        Ok(None)
    } else if !has_separator(line) {
        Err(ParseError::NoSeparator)
    } else if !is_timestamp(timestamp_field(line)) {
        Err(ParseError::BadTimestamp)
    } else {
        Ok(Some(post_from(timestamp_field(line), body_field(line))))
    }
}

/// Every line made of a timestamp, a separator and a body holds the post
/// of that timestamp and that body: the body is all that follows the first
/// separator, later separators included.
pub proof fn lemma_post_keeps_fields(timestamp: Seq<char>, body: Seq<char>)
    ensures
        is_timestamp(timestamp) ==> post_of(timestamp + seq![SEPARATOR] + body) == Ok::<
            Option<TweetView>,
            ParseError,
        >(Some(post_from(timestamp, body))),
        !timestamp.contains(SEPARATOR) ==> (post_of(timestamp + seq![SEPARATOR] + body) matches Ok(
            Some(post),
        ) ==> post.timestamp == timestamp && post.body == body),
{
    if !timestamp.contains(SEPARATOR) {
        lemma_fields(timestamp, body);
        if is_timestamp(timestamp) {
            let line = timestamp + seq![SEPARATOR] + body;
            assert(line[0] == timestamp[0]);
        }
    }
}

/// A line that is empty or starts a comment is passed over; another line
/// without a separator is a failure.  Neither holds a post.
pub proof fn lemma_no_post(line: Seq<char>)
    ensures
        line.len() == 0 || line[0] == '#' ==> post_of(line) == Ok::<Option<TweetView>, ParseError>(
            None,
        ),
        line.len() > 0 && line[0] != '#' && !line.contains(SEPARATOR) ==> post_of(line) == Err::<
            Option<TweetView>,
            ParseError,
        >(ParseError::NoSeparator),
{
    lemma_has_separator(line);
}

/// In the post of a line every mention opens with `@<` and ends with `>`,
/// and every tag opens with `#` and holds no white space.  The mentions
/// stand in the body in their order, none reaching into the next, and so do
/// the tags.
pub proof fn lemma_post_marks(line: Seq<char>)
    ensures
        post_of(line) matches Ok(Some(post)) ==> {
            &&& forall|i: int|
                0 <= i < post.mentions.len() ==> is_mention(#[trigger] post.mentions[i])
                    && contains(post.body, post.mentions[i])
            &&& forall|i: int|
                0 <= i < post.tags.len() ==> is_tag(#[trigger] post.tags[i]) && contains(
                    post.body,
                    post.tags[i],
                )
            &&& stand_in_turn(post.mentions, post.body)
            &&& stand_in_turn(post.tags, post.body)
        },
{
    lemma_marks(body_field(line));
}

/// The view of what `Tweet::from_str` returns.
pub open spec fn parsed_view(r: Result<Option<Tweet>, ParseError>) -> Result<
    Option<TweetView>,
    ParseError,
> {
    match r {
        Ok(Some(tweet)) => Ok(Some(tweet@)),
        Ok(None) => Ok(None),
        Err(e) => Err(e),
    }
}

impl Tweet {
    /// A post of the given parts.  `found_mentions` and `found_tags` are the
    /// matches of the two patterns in `body`.  Of them the post keeps the
    /// mention markers and the tags that stand in `body` one behind the
    /// other, the tags without the white space that the pattern took in
    /// before their `#`.
    pub fn new(
        timestamp: String,
        body: String,
        found_mentions: Vec<String>,
        found_tags: Vec<String>,
    ) -> (tweet: Tweet)
        ensures
            tweet@ == (TweetView {
                timestamp: timestamp@,
                body: body@,
                mentions: mentions_from(strs(found_mentions@), body@),
                tags: tags_from(strs(found_tags@), body@),
            }),
    {
        let mentions = keep_mentions(&found_mentions, body.as_str());
        let tags = keep_tags(&found_tags, body.as_str());
        Tweet { timestamp, body, mentions, tags }
    }

    /// Takes one line of a feed and parses it into a `Tweet`.  An empty line
    /// or a comment gives `Ok(None)`.
    pub fn from_str(line: &str) -> (r: Result<Option<Tweet>, ParseError>)
        ensures
            parsed_view(r) == post_of(line@),
    {
        match split_line(line) {
            Fields::Skipped => Ok(None),
            Fields::Unseparated => Err(ParseError::NoSeparator),
            Fields::Pair(timestamp, body) => {
                if !is_rfc3339(timestamp.as_str()) {
                    return Err(ParseError::BadTimestamp);
                }
                let mentions = mentions_in(body.as_str());
                let tags = tags_among(body.as_str());
                Ok(Some(Tweet { timestamp, body, mentions, tags }))
            },
        }
    }

    /// Returns the timestamp for a given tweet.
    pub fn timestamp(&self) -> (r: &str)
        ensures
            r@ == self@.timestamp,
    {
        self.timestamp.as_str()
    }

    /// Returns the body of the tweet.
    pub fn body(&self) -> (r: &str)
        ensures
            r@ == self@.body,
    {
        self.body.as_str()
    }

    /// Any mentions within the body of the tweet have been parsed out
    /// and are retrievable through this method.
    pub fn mentions(&self) -> (r: Vec<String>)
        ensures
            strs(r@) == self@.mentions,
    {
        clone_strs(&self.mentions)
    }

    /// Any tags within the body of the tweet have been parsed out
    /// and are retrievable through this method.
    pub fn tags(&self) -> (r: Vec<String>)
        ensures
            strs(r@) == self@.tags,
    {
        clone_strs(&self.tags)
    }
}

impl Clone for Tweet {
    /// A post with the same timestamp, body, mentions and tags.
    fn clone(&self) -> (r: Self)
        ensures
            r@ == self@,
    {
        Tweet {
            timestamp: self.timestamp.clone(),
            body: self.body.clone(),
            mentions: clone_strs(&self.mentions),
            tags: clone_strs(&self.tags),
        }
    }
}

/// The keyword that declares the nickname of a feed.
pub const NICK: &'static str = "nick";

/// The keyword that declares the address of a feed.
pub const URL: &'static str = "url";

/// The posts of a feed, each at its timestamp, in the order of the
/// timestamps.
pub type TweetMap = SortedMap<Tweet>;

/// What a feed holds, as plain text.
pub struct TwtxtView {
    /// The nickname that the feed declares.
    pub nickname: Seq<char>,
    /// The address of the feed.
    pub url: Seq<char>,
    /// The posts, each at its timestamp.
    pub tweets: Map<Seq<char>, TweetView>,
}

/// Holds tweets and metadata from a single `twtxt.txt` file.
#[derive(Debug, PartialEq, Eq)]
pub struct Twtxt {
    nickname: String,
    url: String,
    tweets: TweetMap,
}

impl View for Twtxt {
    type V = TwtxtView;

    closed spec fn view(&self) -> TwtxtView {
        TwtxtView { nickname: self.nickname@, url: self.url@, tweets: self.tweets@ }
    }
}

impl Clone for Twtxt {
    /// A feed with the same nickname, address and posts.
    fn clone(&self) -> (r: Self)
        ensures
            r@ == self@,
    {
        let tweets = self.tweets.clone();
        proof {
            assert(views_of(tweets.values()) =~= views_of(self.tweets.values()));
        }
        Twtxt { nickname: self.nickname.clone(), url: self.url.clone(), tweets }
    }
}

/// The posts among `lines`: at each timestamp the post of the last line
/// that has it.  Lines that hold no post are passed over.
pub open spec fn posts_from(lines: Seq<Seq<char>>) -> Map<Seq<char>, TweetView>
    decreases lines.len(),
{
    if lines.len() == 0 {
        Map::empty()
    } else {
        let before = posts_from(lines.drop_last());
        match post_of(lines.last()) {
            Ok(Some(post)) => before.insert(post.timestamp, post),
            _ => before,
        }
    }
}

/// The posts of a feed.
pub open spec fn posts_of(text: Seq<char>) -> Map<Seq<char>, TweetView> {
    posts_from(split(text, LINE_END))
}

/// The address of a feed: the one that its metadata declares, else the one
/// that the caller supplies for the local feed.
pub open spec fn url_of(supplied: Option<Seq<char>>, text: Seq<char>) -> Option<Seq<char>> {
    match metadata_of(text, URL@) {
        Ok(url) => Some(url),
        Err(_) => supplied,
    }
}

/// The feed that `text` holds.  There is none where the text declares no
/// nickname, or where it declares no address and is not the local feed
/// with an address supplied.
pub open spec fn feed_of(supplied: Option<Seq<char>>, text: Seq<char>) -> Option<TwtxtView> {
    match (metadata_of(text, NICK@), url_of(supplied, text)) {
        (Ok(nickname), Some(url)) => Some(TwtxtView { nickname, url, tweets: posts_of(text) }),
        _ => None,
    }
}

/// A text that declares no nickname holds no feed, whatever address is
/// supplied, and so does a text without a metadata section.  A text that
/// declares no address holds no feed unless an address is supplied.
pub proof fn lemma_feed_needs_metadata(supplied: Option<Seq<char>>, text: Seq<char>)
    ensures
        metadata_of(text, NICK@) is Err ==> feed_of(supplied, text) is None,
        metadata_of(text, URL@) is Err ==> feed_of(None, text) is None,
        !contains(text, METADATA_MARKER@) ==> feed_of(supplied, text) is None,
{
}

/// The view of a feed that may be missing.
pub open spec fn feed_view(r: Option<Twtxt>) -> Option<TwtxtView> {
    match r {
        Some(feed) => Some(feed@),
        None => None,
    }
}

/// Two feeds parsed from one text hold the same posts under the same
/// nickname, whatever address was supplied; with one address supplied they
/// are the same feed.
pub proof fn lemma_feed_depends_on_text(
    first: Option<Twtxt>,
    second: Option<Twtxt>,
    first_url: Option<Seq<char>>,
    second_url: Option<Seq<char>>,
    text: Seq<char>,
)
    requires
        feed_view(first) == feed_of(first_url, text),
        feed_view(second) == feed_of(second_url, text),
    ensures
        first_url == second_url ==> feed_view(first) == feed_view(second),
        first is Some && second is Some ==> first->0@.tweets == second->0@.tweets && first->0@.nickname
            == second->0@.nickname,
{
}

/// The view of an address that may be missing.
pub open spec fn address_view(url: Option<&str>) -> Option<Seq<char>> {
    match url {
        Some(s) => Some(s@),
        None => None,
    }
}

/// The posts among the lines of `twtxt`.
pub fn posts(twtxt: &str) -> (tweets: TweetMap)
    ensures
        tweets@ == posts_of(twtxt@),
{
    let lines = split_str(twtxt, LINE_END);
    let mut tweets: TweetMap = SortedMap::new();
    let mut i: usize = 0;
    assert(strs(lines@).take(0) =~= Seq::<Seq<char>>::empty());
    while i < lines.len()
        invariant
            i <= lines.len(),
            tweets@ == posts_from(strs(lines@).take(i as int)),
        decreases lines.len() - i,
    {
        proof {
            let done = strs(lines@).take(i + 1);
            assert(done.drop_last() =~= strs(lines@).take(i as int));
            assert(done.last() == lines@[i as int]@);
        }
        match Tweet::from_str(lines[i].as_str()) {
            Ok(Some(tweet)) => {
                let key = tweet.timestamp().to_owned();
                tweets.insert(key, tweet);
            },
            _ => {},
        }
        i += 1;
    }
    assert(strs(lines@).take(i as int) =~= strs(lines@));
    tweets
}

impl Twtxt {
    /// Returns the nickname associated with the `twtxt.txt` file.
    pub fn nick(&self) -> (r: &str)
        ensures
            r@ == self@.nickname,
    {
        self.nickname.as_str()
    }

    /// Returns the URL associated with the `twtxt.txt` file.
    pub fn url(&self) -> (r: &str)
        ensures
            r@ == self@.url,
    {
        self.url.as_str()
    }

    /// Returns a specific tweet by the timestamp key.
    pub fn tweet(&self, datestamp: &str) -> (r: Option<&Tweet>)
        ensures
            r is Some <==> self@.tweets.contains_key(datestamp@),
            r matches Some(tweet) ==> tweet@ == self@.tweets[datestamp@],
    {
        self.tweets.get(datestamp)
    }

    /// Returns all tweets as a `TweetMap`.  The tweets will be date-sorted.
    pub fn tweets(&self) -> (r: &TweetMap)
        ensures
            r@ == self@.tweets,
            r.wf(),
    {
        proof {
            use_type_invariant(&self.tweets);
        }
        &self.tweets
    }

    /// Parse the text of a `twtxt.txt` file into a `Twtxt` structure.  The
    /// text must declare a nickname and an address.  Only for the local
    /// feed may the address be missing: hand its address as `url`, and the
    /// feed has it where its metadata declares none.  For a text retrieved
    /// from elsewhere hand `None`.
    pub fn from(url: Option<&str>, twtxt: &str) -> (r: Option<Twtxt>)
        ensures
            feed_view(r) == feed_of(address_view(url), twtxt@),
    {
        let nickname = match metadata(twtxt, NICK) {
            Ok(value) => value,
            Err(_) => {
                return None;
            },
        };
        let url = match metadata(twtxt, URL) {
            Ok(value) => value,
            Err(_) => match url {
                Some(supplied) => supplied.to_owned(),
                None => {
                    return None;
                },
            },
        };
        let tweets = posts(twtxt);
        Some(Twtxt { nickname, url, tweets })
    }
}

/// Whether `made` is what `f` gives for a line whose text is `text`.
pub open spec fn made_from<F: Fn(&str) -> String>(f: F, text: Seq<char>, made: String) -> bool {
    exists|line: &str| #[trigger] line@ == text && call_ensures(f, (line,), made)
}

/// Applies a function to each line of a `twtxt.txt` file and returns what
/// it gave for each line, in the order of the lines.
pub fn mutate<F: Fn(&str) -> String>(twtxt: &str, f: F) -> (out: Vec<String>)
    requires
        forall|line: &str| call_requires(f, (line,)),
    ensures
        out@.len() == lines_of(twtxt@).len(),
        forall|i: int|
            0 <= i < out@.len() ==> made_from(f, lines_of(twtxt@)[i], #[trigger] out@[i]),
{
    let all = lines(twtxt);
    let mut out: Vec<String> = Vec::new();
    let mut i: usize = 0;
    while i < all.len()
        invariant
            i <= all.len(),
            out@.len() == i,
            strs(all@) == lines_of(twtxt@),
            forall|line: &str| call_requires(f, (line,)),
            forall|j: int| 0 <= j < i ==> made_from(f, lines_of(twtxt@)[j], #[trigger] out@[j]),
        decreases all.len() - i,
    {
        let line = all[i].as_str();
        let made = f(line);
        out.push(made);
        proof {
            assert(line@ == strs(all@)[i as int]);
            assert(call_ensures(f, (line,), out@[i as int]));
            assert(made_from(f, lines_of(twtxt@)[i as int], out@[i as int]));
        }
        i += 1;
    }
    assert(strs(all@).len() == all@.len());
    out
}

} // verus!
