use rustwtxt::conf::Data;
use rustwtxt::user::{follow, unfollow};

fn settings(list: &[&str]) -> Data {
    Data {
        nick: String::from("me"),
        path: String::from("/home/me/twtxt.txt"),
        url: String::from("https://me.example/twtxt.txt"),
        follow: list.iter().map(|entry| entry.to_string()).collect(),
    }
}

#[test]
fn follow_adds_an_entry_under_the_declared_nickname() {
    let data = settings(&["a https://a.example/twtxt.txt"]);
    let text = "# == Metadata ==\n# nick = gbmor\n";
    let after = follow(&data, "https://gbmor.dev/twtxt.txt", Some(text));
    assert_eq!(
        after.follow,
        vec!["a https://a.example/twtxt.txt", "gbmor https://gbmor.dev/twtxt.txt"]
    );
    assert_eq!(after.nick, "me");
    assert_eq!(after.path, "/home/me/twtxt.txt");
    assert_eq!(after.url, "https://me.example/twtxt.txt");
    assert_eq!(data, settings(&["a https://a.example/twtxt.txt"]));
    assert_eq!(data.clone(), data);
}

#[test]
fn follow_without_nickname_leaves_it_empty() {
    let data = settings(&[]);
    let after = follow(&data, "https://x.example/twtxt.txt", None);
    assert_eq!(after.follow, vec![" https://x.example/twtxt.txt"]);
    let after = follow(&after, "https://y.example/twtxt.txt", Some("no metadata"));
    assert_eq!(
        after.follow,
        vec![" https://x.example/twtxt.txt", " https://y.example/twtxt.txt"]
    );
}

#[test]
fn unfollow_drops_the_entries_that_hold_the_nickname() {
    let data = settings(&[
        "gbmor https://gbmor.dev/twtxt.txt",
        "kas http://enotty.dk/kas.txt",
        "other https://gbmor.example/twtxt.txt",
        "benaiah https://benaiah.me/twtxt.txt",
    ]);
    let after = unfollow(&data, "gbmor");
    assert_eq!(
        after.follow,
        vec!["kas http://enotty.dk/kas.txt", "benaiah https://benaiah.me/twtxt.txt"]
    );
    assert_eq!(after.nick, "me");
    assert_eq!(after.path, "/home/me/twtxt.txt");
    assert_eq!(after.url, "https://me.example/twtxt.txt");
    assert_eq!(unfollow(&data, "nobody"), data);
    assert!(unfollow(&data, "").follow.is_empty());
    assert!(unfollow(&settings(&[]), "gbmor").follow.is_empty());
}
