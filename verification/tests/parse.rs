use rustwtxt::parse::{
    content_of, declaration_shaped, keep_mentions, keep_tags, marker_of, mention_of,
    mention_shaped, mention_to_nickname, mentions, metadata, metadata_value, nickname_of,
    split_line, standing, statuses, tag_shaped, tags, tags_in, whole_of, Fields, LookupError,
};

const FEED: &str = "# gbmor's twtxt\n\
# == Metadata ==\n\
# nick = gbmor\n\
# url = https://gbmor.dev/twtxt.txt\n\
#\n\
2019-09-08T21:22:19-04:00\tHello from rustwtxt\n\
2019-09-09T08:30:00-04:00\tHey @<benaiah https://benaiah.me/twtxt.txt>! #test works\n\
\n\
2019-09-10T12:00:00Z\tthanks @<kas http://enotty.dk/kas.txt> #soon #now\n";

#[test]
fn turn_mentions_to_nick() {
    let twtxt = "2019.09.09\tHey @<gbmor https://gbmor.dev/twtxt.txt>!";
    let mention = mention_to_nickname(twtxt).unwrap();
    assert_eq!("gbmor", mention);
}

#[test]
fn get_tags() {
    let tag_map = tags("test\t#test").unwrap();
    assert!("#test" == tag_map.get("test").unwrap());

    let tag_map = tags("test\tsome other #test here").unwrap();
    assert!("#test" == tag_map.get("test").unwrap());

    let tag_map = tags("test\tsome other #test").unwrap();
    assert!("#test" == tag_map.get("test").unwrap());

    let tag_map = tags("test\tsome #test goes #here").unwrap();
    assert!("#test #here" == tag_map.get("test").unwrap());
}

#[test]
#[should_panic]
fn bad_regex() {
    metadata("SOME DATA", "<#*#@(&$(%)@$)>").unwrap();
}

#[test]
#[should_panic]
fn no_matches() {
    metadata("SOME = DATA", "nick").unwrap();
}

#[test]
fn get_mentions() {
    let mention_map = mentions(FEED).unwrap();
    assert!(mention_map.len() > 1);
}

#[test]
fn get_username() {
    let user = metadata(FEED, "nick").unwrap();
    assert_eq!("gbmor", user);
}

#[test]
fn get_url() {
    let url = metadata(FEED, "url").unwrap();
    assert_eq!("https://gbmor.dev/twtxt.txt", url);
}

#[test]
fn get_status_map() {
    let res = statuses(FEED).unwrap();
    assert!(res.len() > 1);
}

#[test]
#[should_panic]
fn parse_bad_twtxt() {
    metadata("SOMETHING GOES HERE", "url").unwrap();
}

#[test]
#[should_panic]
fn get_bad_statuses() {
    statuses("").unwrap();
}

#[test]
fn metadata_of_the_header() {
    assert_eq!(metadata("== Metadata ==\nnick = gbmor\n", "nick"), Ok(String::from("gbmor")));
    assert_eq!(
        metadata("# == Metadata ==\n#  nick = \t gb mor \t\n# url = x\n", "nick"),
        Ok(String::from("gb"))
    );
    assert_eq!(metadata("== Metadata ==\nnick=gbmor\n", "nick"), Ok(String::from("gbmor")));
    assert_eq!(metadata("== Metadata ==\nnick \t=gbmor x\n", "nick"), Ok(String::from("gbmor")));
    assert_eq!(metadata("== Metadata ==\nnick = \nurl = x\n", "nick"), Ok(String::new()));
    assert_eq!(metadata("== Metadata ==\nnick =", "nick"), Ok(String::new()));
    assert_eq!(
        metadata("== Metadata ==\nnick = first\nnick = second\n", "nick"),
        Ok(String::from("first"))
    );
    assert_eq!(
        metadata("nick = before\n== Metadata ==\nnick = after\n", "nick"),
        Ok(String::from("after"))
    );
    assert_eq!(
        metadata("== Metadata ==\nnickname = long\nnick = short\n", "nick"),
        Ok(String::from("short"))
    );
}

#[test]
fn metadata_keyword_is_taken_letter_for_letter() {
    assert_eq!(metadata("== Metadata ==\n( = 1\n", "("), Ok(String::from("1")));
    assert_eq!(metadata("== Metadata ==\na|b = 1\n", "a|b"), Ok(String::from("1")));
    assert_eq!(metadata("== Metadata ==\na = 1\nb = 2\n", "a|b"), Err(LookupError::Missing));
    assert_eq!(metadata("== Metadata ==\nn.ck = 1\nnick = 2\n", "n.ck"), Ok(String::from("1")));
    assert_eq!(metadata("== Metadata ==\nnick = 2\n", "n.ck"), Err(LookupError::Missing));
    assert_eq!(
        metadata("== Metadata ==\n\\.+*?()|[]{}^$#&-~ = all\n", "\\.+*?()|[]{}^$#&-~"),
        Ok(String::from("all"))
    );
    assert_eq!(metadata("== Metadata ==\n = empty\n", ""), Ok(String::from("empty")));
}

#[test]
fn metadata_lookup_fails() {
    assert_eq!(metadata("nick = gbmor\n", "nick"), Err(LookupError::Missing));
    assert_eq!(metadata("", "nick"), Err(LookupError::Missing));
    assert_eq!(metadata("SOME DATA", "<#*#@(&$(%)@$)>"), Err(LookupError::Missing));
    assert_eq!(metadata("nick = gbmor\n== Metadata ==\nurl = x\n", "nick"), Err(LookupError::Missing));
    assert_eq!(metadata("== Metadata ==\nnickname\n", "nick"), Err(LookupError::NoMatch));
    assert_eq!(metadata("== Metadata ==\nnick: gbmor\n", "nick"), Err(LookupError::NoMatch));
}

fn groups(whole: Option<&str>, rest: Option<&str>) -> Option<Vec<Option<String>>> {
    Some(vec![whole.map(String::from), rest.map(String::from)])
}

#[test]
fn metadata_value_of_a_search() {
    let header = "\nk =  v \nnick = a b\nn\u{3000}=\u{3000}a\u{a0}b\r\nempty = \t\n";
    assert_eq!(metadata_value(&None, "k", header), Err(LookupError::NoMatch));
    assert_eq!(metadata_value(&Some(vec![]), "k", header), Err(LookupError::OutOfBounds));
    assert_eq!(
        metadata_value(&Some(vec![Some(String::from("k =  v "))]), "k", header),
        Err(LookupError::OutOfBounds)
    );
    assert_eq!(
        metadata_value(&groups(Some("k =  v "), None), "k", header),
        Err(LookupError::OutOfBounds)
    );
    assert_eq!(
        metadata_value(&groups(Some("k =  v "), Some("  v ")), "k", header),
        Ok(String::from("v"))
    );
    assert_eq!(
        metadata_value(&groups(Some("nick = a b"), Some(" a b")), "nick", header),
        Ok(String::from("a"))
    );
    assert_eq!(
        metadata_value(
            &groups(Some("n\u{3000}=\u{3000}a\u{a0}b\r"), Some("\u{3000}a\u{a0}b\r")),
            "n",
            header
        ),
        Ok(String::from("a"))
    );
    assert_eq!(
        metadata_value(&groups(Some("empty = \t"), Some(" \t")), "empty", header),
        Ok(String::new())
    );
}

#[test]
fn a_found_value_must_stand_in_a_declaration() {
    let header = "\nnick = a b\n";
    assert_eq!(
        metadata_value(&groups(None, Some(" a b")), "nick", header),
        Err(LookupError::NoMatch)
    );
    assert_eq!(
        metadata_value(&groups(Some("nick = a b"), Some("a b")), "nick", header),
        Err(LookupError::NoMatch)
    );
    assert_eq!(
        metadata_value(&groups(Some("nick = a b"), Some(" a b")), "ick", header),
        Err(LookupError::NoMatch)
    );
    assert_eq!(
        metadata_value(&groups(Some("nick : a b"), Some(" a b")), "nick", "\nnick : a b\n"),
        Err(LookupError::NoMatch)
    );
    assert_eq!(
        metadata_value(&groups(Some("nick = a c"), Some(" a c")), "nick", header),
        Err(LookupError::NoMatch)
    );
    assert_eq!(
        metadata_value(&groups(Some("nick = a b"), Some(" a b")), "nick", header),
        Ok(String::from("a"))
    );

    let chars = |s: &str| s.chars().collect::<Vec<char>>();
    assert!(declaration_shaped(&chars("nick \t= a"), &chars("nick"), &chars(" a")));
    assert!(declaration_shaped(&chars("nick="), &chars("nick"), &chars("")));
    assert!(declaration_shaped(&chars("="), &chars(""), &chars("")));
    assert!(!declaration_shaped(&chars("nick"), &chars("nick"), &chars("")));
    assert!(!declaration_shaped(&chars("nick x= a"), &chars("nick"), &chars(" a")));
    assert!(!declaration_shaped(&chars("nick = a"), &chars("nick"), &chars("a")));
    assert!(!declaration_shaped(&chars("nick = a"), &chars("nick"), &chars(" a ")));
    assert!(!declaration_shaped(&chars("nic"), &chars("nick"), &chars("")));
}

#[test]
fn lookup_errors_have_words() {
    assert_eq!(
        LookupError::Missing.message(),
        "File contains no metadata section, or the keyword is missing"
    );
    assert_eq!(LookupError::NoMatch.message(), "No Keyword Matches");
    assert_eq!(LookupError::OutOfBounds.message(), "Keyword Matched Out of Bounds");
}

#[test]
fn line_is_cut_at_the_first_tab() {
    assert_eq!(split_line(""), Fields::Skipped);
    assert_eq!(split_line("# comment\twith tab"), Fields::Skipped);
    assert_eq!(split_line("no tab"), Fields::Unseparated);
    assert_eq!(split_line("a\tb\tc"), Fields::Pair(String::from("a"), String::from("b\tc")));
    assert_eq!(split_line("\t"), Fields::Pair(String::new(), String::new()));
    assert_eq!(split_line("é\tü#"), Fields::Pair(String::from("é"), String::from("ü#")));
}

#[test]
fn statuses_by_timestamp() {
    let map = statuses("b\tsecond\n# c\tcomment\n\nbad line\na\tfirst\tpart\nb\tlast\n").unwrap();
    assert_eq!(map.len(), 2);
    assert_eq!(map.key_at(0), "a");
    assert_eq!(map.value_at(0), "first\tpart");
    assert_eq!(map.key_at(1), "b");
    assert_eq!(map.get("b").unwrap(), "last");
    assert!(map.get("c").is_none());
    assert!(statuses("# only\n\nnoise\n").is_none());
}

#[test]
fn mentions_by_timestamp() {
    let map = mentions(FEED).unwrap();
    assert_eq!(map.len(), 2);
    assert_eq!(map.get("2019-09-09T08:30:00-04:00").unwrap(), "benaiah https://benaiah.me/twtxt.txt");
    assert_eq!(map.get("2019-09-10T12:00:00Z").unwrap(), "kas http://enotty.dk/kas.txt");
    assert!(mentions("a\tno mention here\nb\tmail me@example.org> <x>\n").is_none());
    assert!(mentions("").is_none());
}

#[test]
fn mention_of_a_status() {
    assert_eq!(mention_of("Hey @<nick url>!"), Some(String::from("nick url")));
    assert_eq!(mention_of("@<a x> and @<b y>"), Some(String::from("a x> and @<b y")));
    assert_eq!(mention_of("a <b> @<c> d"), Some(String::from("c")));
    assert_eq!(mention_of("a <b> @< c"), None);
    assert_eq!(mention_of("mail me@example.org <x>"), None);
    assert_eq!(mention_of("<nick url>"), None);
    assert_eq!(mention_of("@<"), None);
    assert_eq!(mention_of("> @<"), None);
    assert_eq!(mention_of("@<>"), Some(String::new()));
}

#[test]
fn tags_by_timestamp() {
    let map = tags(FEED).unwrap();
    assert_eq!(map.len(), 2);
    assert_eq!(map.get("2019-09-09T08:30:00-04:00").unwrap(), "#test");
    assert_eq!(map.get("2019-09-10T12:00:00Z").unwrap(), "#soon #now");
    assert!(tags("a\tno#tag\n").is_none());
    assert!(tags("a\tnothing\n").is_none());
}

#[test]
fn tags_of_a_status() {
    assert_eq!(tags_in("#one  #two\u{2003}#three"), Some(String::from("#one #two #three")));
    assert_eq!(tags_in("a#b # c"), None);
    assert_eq!(tags_in(""), None);
}

#[test]
fn only_tags_that_stand_in_the_body_are_kept() {
    let found = vec![
        String::from(" \t#a"),
        String::new(),
        String::from("b "),
        String::from("#"),
        String::from("#c d"),
        String::from("\n#e"),
        String::from("#absent"),
    ];
    assert_eq!(keep_tags(&found, "x #a #c d\n#e"), vec!["#a", "#e"]);
    assert!(keep_tags(&Vec::new(), "#a").is_empty());
    assert!(tag_shaped(&['#', 'a']));
    assert!(!tag_shaped(&['#']));
    assert!(!tag_shaped(&['a', '#']));
    assert!(!tag_shaped(&['#', 'a', '\u{a0}']));
    assert!(!tag_shaped(&[]));
}

#[test]
fn kept_marks_stand_in_their_order() {
    let found = vec![String::from("#b"), String::from("#a"), String::from("#b")];
    assert_eq!(keep_tags(&found, "#a #b"), vec!["#b"]);
    assert_eq!(keep_tags(&found, "#b #a #b"), vec!["#b", "#a", "#b"]);
    assert_eq!(keep_tags(&found, "#b#a"), vec!["#b", "#a"]);
    let twice = vec![String::from("@<a>"), String::from("@<a>")];
    assert_eq!(keep_mentions(&twice, "@<a>"), vec!["@<a>"]);
    assert_eq!(keep_mentions(&twice, "@<a>\n@<a>"), vec!["@<a>", "@<a>"]);

    let items = vec![String::from("ab"), String::from("ba"), String::from("b"), String::new()];
    assert_eq!(standing(&items, "aba"), vec!["ab", ""]);
    assert_eq!(standing(&items, "abab"), vec!["ab", "b", ""]);
    assert_eq!(standing(&items, "xabxbab"), vec!["ab", "ba", "b", ""]);
    assert!(standing(&Vec::new(), "ab").is_empty());
    assert!(standing(&vec![String::from("a")], "").is_empty());
}

#[test]
fn only_mention_markers_that_stand_in_the_body_are_kept() {
    let found = vec![
        String::from("@<a b>"),
        String::from("<c d>"),
        String::from("@e>"),
        String::from("@<f"),
        String::from("@<absent>"),
        String::from("@<>"),
    ];
    assert_eq!(keep_mentions(&found, "@<a b> <c d> @e> @<f @<>"), vec!["@<a b>", "@<>"]);
    assert!(keep_mentions(&Vec::new(), "@<a>").is_empty());
    assert!(mention_shaped(&['@', '<', '>']));
    assert!(!mention_shaped(&['@', '<']));
    assert!(!mention_shaped(&['<', 'a', '>']));
    assert!(!mention_shaped(&['@', 'a', '>']));
    assert!(!mention_shaped(&['@', '<', 'a']));
}

#[test]
fn nickname_of_a_marker() {
    assert_eq!(nickname_of("@<nick https://example.com/twtxt.txt>"), Some(String::from("nick")));
    assert_eq!(nickname_of("@<nick>"), Some(String::from("nick")));
    assert_eq!(nickname_of("@<nick\turl>"), Some(String::from("nick")));
    assert_eq!(nickname_of("@< url>"), Some(String::new()));
    assert_eq!(nickname_of("@<>"), Some(String::new()));
    assert_eq!(nickname_of("<a>"), None);
    assert_eq!(nickname_of("<>"), None);
    assert_eq!(nickname_of("@<nick url"), None);
    assert_eq!(nickname_of(""), None);
    assert_eq!(content_of("@<nick url>"), Some(String::from("nick url")));
    assert_eq!(content_of("@<é>"), Some(String::from("é")));
    assert_eq!(content_of("@éa>"), None);
    assert_eq!(content_of("@>"), None);
}

#[test]
fn nickname_of_the_first_marker() {
    assert_eq!(mention_to_nickname("@<nick url>"), Some(String::from("nick")));
    assert_eq!(mention_to_nickname("see <ab c> and @<d e>"), Some(String::from("d")));
    assert_eq!(mention_to_nickname("see @<a b> and @<c d>"), Some(String::from("a")));
    assert_eq!(mention_to_nickname("no marker"), None);
    assert_eq!(mention_to_nickname("<a b>"), None);
    assert_eq!(mention_to_nickname("@>"), None);
    assert_eq!(mention_to_nickname("x\n@<later line>"), Some(String::from("later")));
}

#[test]
fn marker_of_a_search() {
    assert_eq!(marker_of(&None, "@<a>"), None);
    assert_eq!(marker_of(&Some(vec![]), "@<a>"), None);
    assert_eq!(marker_of(&Some(vec![Some(String::from("@<a>"))]), "x @<a> y"), Some(String::from("@<a>")));
    assert_eq!(marker_of(&Some(vec![Some(String::from("<a>"))]), "x <a> y"), None);
    assert_eq!(marker_of(&Some(vec![Some(String::from("@<b>"))]), "x @<a> y"), None);
}

#[test]
fn whole_of_a_search() {
    assert_eq!(whole_of(&None), None);
    assert_eq!(whole_of(&Some(vec![])), None);
    assert_eq!(whole_of(&Some(vec![None, Some(String::from("b"))])), None);
    assert_eq!(
        whole_of(&Some(vec![Some(String::from("a")), Some(String::from("b"))])),
        Some(String::from("a"))
    );
}
