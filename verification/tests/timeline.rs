use rustwtxt::timeline::{parse_follow, pull_followed_tweets, render, show, tweet, Source};
use rustwtxt::Twtxt;

const T1: &str = "2019-09-08T10:00:00Z";
const T2: &str = "2019-09-08T11:00:00Z";
const T3: &str = "2019-09-08T12:00:00Z";

fn feed_text(nick: &str, posts: &[(&str, &str)]) -> String {
    let mut text = format!(
        "# == Metadata ==\n# nick = {}\n# url = https://{}.example/twtxt.txt\n",
        nick, nick
    );
    for (timestamp, body) in posts {
        text.push_str(&format!("{}\t{}\n", timestamp, body));
    }
    text
}

fn source(nick: &str, url: &str, text: Option<String>) -> Source {
    Source::new(String::from(nick), String::from(url), text)
}

#[test]
fn remote_post_stands_between_local_posts() {
    let local = Twtxt::from(
        Some("https://me.example/twtxt.txt"),
        &feed_text("me", &[(T3, "third"), (T1, "first")]),
    )
    .unwrap();
    let sources = vec![source(
        "friend",
        "https://friend.example/twtxt.txt",
        Some(feed_text("friend", &[(T2, "second")])),
    )];
    let timeline = show(Some(&local), &sources);
    assert_eq!(timeline.len(), 3);
    assert_eq!(timeline.key_at(0), T1);
    assert_eq!(timeline.key_at(1), T2);
    assert_eq!(timeline.key_at(2), T3);
    assert_eq!(timeline.value_at(0).body(), "first");
    assert_eq!(timeline.value_at(1).body(), "second");
    assert_eq!(timeline.value_at(2).body(), "third");
    assert!(timeline.value_at(0).is_local());
    assert!(!timeline.value_at(1).is_local());
    assert!(timeline.value_at(2).is_local());
}

#[test]
fn local_post_wins_a_shared_timestamp() {
    let local = Twtxt::from(
        Some("https://me.example/twtxt.txt"),
        &feed_text("me", &[(T2, "mine")]),
    )
    .unwrap();
    let sources = vec![
        source(
            "friend",
            "https://friend.example/twtxt.txt",
            Some(feed_text("friend", &[(T2, "theirs"), (T1, "earlier")])),
        ),
        source(
            "other",
            "https://other.example/twtxt.txt",
            Some(feed_text("other", &[(T2, "another")])),
        ),
    ];
    let timeline = show(Some(&local), &sources);
    assert_eq!(timeline.len(), 2);
    let entry = timeline.get(T2).unwrap();
    assert!(entry.is_local());
    assert_eq!(entry.nick(), "me");
    assert_eq!(entry.url(), "https://me.example/twtxt.txt");
    assert_eq!(entry.timestamp(), T2);
    assert_eq!(entry.body(), "mine");
    assert_eq!(timeline.key_at(0), T1);
    assert_eq!(timeline.key_at(1), T2);
}

#[test]
fn later_source_wins_among_sources() {
    let sources = vec![
        source(
            "friend",
            "https://friend.example/twtxt.txt",
            Some(feed_text("friend", &[(T2, "theirs")])),
        ),
        source(
            "other",
            "https://other.example/twtxt.txt",
            Some(feed_text("other", &[(T2, "another")])),
        ),
    ];
    let timeline = pull_followed_tweets(&sources);
    assert_eq!(timeline.len(), 1);
    let entry = timeline.get(T2).unwrap();
    assert_eq!(entry.nick(), "other");
    assert_eq!(entry.body(), "another");
    assert!(!entry.is_local());
    assert_eq!(show(None, &sources), timeline);
}

#[test]
fn failed_sources_add_nothing() {
    let sources = vec![
        source("gone", "https://gone.example/twtxt.txt", None),
        source(
            "nameless",
            "https://nameless.example/twtxt.txt",
            Some(format!("{}\tno metadata here\n", T1)),
        ),
        source(
            "homeless",
            "https://homeless.example/twtxt.txt",
            Some(format!("# == Metadata ==\n# nick = homeless\n{}\tno address declared\n", T2)),
        ),
        source(
            "friend",
            "https://friend.example/twtxt.txt",
            Some(feed_text("theirname", &[(T3, "still here"), ("yesterday", "bad line")])),
        ),
    ];
    let timeline = show(None, &sources);
    assert_eq!(timeline.len(), 1);
    let entry = timeline.value_at(0);
    assert_eq!(entry.nick(), "friend");
    assert_eq!(entry.url(), "https://friend.example/twtxt.txt");
    assert_eq!(entry.timestamp(), T3);
    assert_eq!(entry.body(), "still here");
    assert!(show(None, &Vec::new()).is_empty());
    assert!(pull_followed_tweets(&sources[..2].iter().map(|s| source(s.nick(), s.url(), None)).collect()).is_empty());
}

#[test]
fn source_holds_what_it_was_given() {
    let held = source("friend", "https://friend.example/twtxt.txt", Some(feed_text("x", &[(T1, "a")])));
    assert_eq!(held.nick(), "friend");
    assert_eq!(held.url(), "https://friend.example/twtxt.txt");
    let feed = held.feed().unwrap();
    assert_eq!(feed.nick(), "x");
    assert_eq!(feed.url(), "https://x.example/twtxt.txt");
    assert_eq!(feed.tweets().len(), 1);
    assert!(source("friend", "u", None).feed().is_none());
    assert!(source("friend", "u", Some(String::from("no feed"))).feed().is_none());
    assert!(source("friend", "u", Some(String::from("== Metadata ==\nnick = friend\n")))
        .feed()
        .is_none());
}

#[test]
fn entries_are_rendered_in_order() {
    let local = Twtxt::from(
        Some("https://me.example/twtxt.txt"),
        &feed_text("me", &[(T3, "third #tag")]),
    )
    .unwrap();
    let sources = vec![source(
        "friend",
        "https://friend.example/twtxt.txt",
        Some(feed_text("friend", &[(T2, "second\twith tab")])),
    )];
    let timeline = show(Some(&local), &sources);
    let lines = render(&timeline);
    assert_eq!(
        lines,
        vec![
            "friend@https://friend.example/twtxt.txt\n\t2019-09-08T11:00:00Z\tsecond\twith tab\n",
            "me@https://me.example/twtxt.txt\n\t2019-09-08T12:00:00Z\tthird #tag\n",
        ]
    );
    assert_eq!(timeline.value_at(0).render(), lines[0]);
    assert!(render(&show(None, &Vec::new())).is_empty());
}

#[test]
fn follow_entry_is_nick_and_address() {
    assert_eq!(
        parse_follow("gbmor https://gbmor.dev/twtxt.txt"),
        Some((String::from("gbmor"), String::from("https://gbmor.dev/twtxt.txt")))
    );
    assert_eq!(parse_follow(" url"), Some((String::new(), String::from("url"))));
    assert_eq!(parse_follow("a b c"), Some((String::from("a"), String::from("b"))));
    assert_eq!(parse_follow("a  b"), Some((String::from("a"), String::new())));
    assert_eq!(parse_follow("alone"), None);
    assert_eq!(parse_follow(""), None);
}

#[test]
fn new_post_becomes_the_last_line() {
    assert_eq!(tweet("", T1, "hello"), "2019-09-08T10:00:00Z\thello");
    assert_eq!(
        tweet("# comment\n\nold\tpost\n\n\n", T1, "hello"),
        "# comment\nold\tpost\n2019-09-08T10:00:00Z\thello"
    );
    assert_eq!(tweet("a\nb", "t", ""), "a\nb\nt\t");
    assert_eq!(tweet("\n\n", "", ""), "\t");
}
