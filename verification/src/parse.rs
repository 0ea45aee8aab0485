//! The grammar of a feed: its lines, the metadata of its header, and the
//! mentions and tags inside a post.

use crate::map::{among, lemma_among_all, lemma_among_step, SortedMap};
use crate::pattern::{
    all_matches, captures_view, escape, escaped, find_all, find_first, first_captures, pattern_ok,
};
use crate::text::{
    chars_of, contains, find, find_char, find_in, find_space, first_space, index_of, is_blank,
    is_space, is_whitespace, join, join_strs, lemma_contains_skip, lemma_contains_start,
    lemma_find_from, lemma_first_space, lemma_index_of, lemma_index_of_is, lemma_strs_push,
    lemma_trim_start, occurs_at, split, split_str, starts_at, string_of, strs, trim_start,
    trim_start_chars,
};
use vstd::prelude::*;
use vstd::string::StringExecFns;

verus! {

/// The pattern of a mention: from an `@<` to the last `>` of its line.
pub const MENTION_PATTERN: &'static str = "@<.*>";

/// The pattern of a tag: a `#` at the start of the text or after white
/// space, and what follows it up to the next white space.
pub const TAG_PATTERN: &'static str = "(^|\\s)#[^\\s]+";

/// The separator between the timestamp of a post and its body.
pub const SEPARATOR: char = '\t';

/// A line that holds no post and is passed over: an empty line, or a comment.
pub open spec fn is_skipped(line: Seq<char>) -> bool {
    line.len() == 0 || line[0] == '#'
}

/// Whether `line` has a separator.
pub open spec fn has_separator(line: Seq<char>) -> bool {
    index_of(line, SEPARATOR) < line.len()
}

/// The first field of `line`: what stands before its first separator.
pub open spec fn timestamp_field(line: Seq<char>) -> Seq<char> {
    line.take(index_of(line, SEPARATOR))
}

/// The second field of `line`: what stands behind its first separator.
pub open spec fn body_field(line: Seq<char>) -> Seq<char> {
    line.skip(index_of(line, SEPARATOR) + 1)
}

/// A line has a separator where the separator is among its characters.
pub proof fn lemma_has_separator(line: Seq<char>)
    ensures
        has_separator(line) <==> line.contains(SEPARATOR),
{
    lemma_index_of(line, SEPARATOR);
    if line.contains(SEPARATOR) {
        let i = line.index_of(SEPARATOR);
        assert(line[i] == SEPARATOR);
    }
}

/// The fields of a line that was made of a first field without a
/// separator, a separator and a second field are those two.
pub proof fn lemma_fields(timestamp: Seq<char>, body: Seq<char>)
    requires
        !timestamp.contains(SEPARATOR),
    ensures
        has_separator(timestamp + seq![SEPARATOR] + body),
        timestamp_field(timestamp + seq![SEPARATOR] + body) == timestamp,
        body_field(timestamp + seq![SEPARATOR] + body) == body,
{
    let line = timestamp + seq![SEPARATOR] + body;
    assert forall|j: int| 0 <= j < timestamp.len() implies line[j] != SEPARATOR by {
        assert(line[j] == timestamp[j]);
    }
    assert(line[timestamp.len() as int] == SEPARATOR);
    lemma_index_of_is(line, SEPARATOR, timestamp.len() as int);
    assert(line.take(timestamp.len() as int) =~= timestamp);
    assert(line.skip(timestamp.len() as int + 1) =~= body);
}

/// The two fields of a line, or why it has none.
#[derive(Debug, PartialEq, Eq)]
pub enum Fields {
    /// The line is empty or a comment.
    Skipped,
    /// The line has no separator.
    Unseparated,
    /// The timestamp and the body.
    Pair(String, String),
}

/// Cuts `line` at its first separator.
pub fn split_line(line: &str) -> (r: Fields)
    ensures
        r is Skipped <==> is_skipped(line@),
        r is Unseparated <==> !is_skipped(line@) && !has_separator(line@),
        r matches Fields::Pair(timestamp, body) ==> timestamp@ == timestamp_field(line@) && body@
            == body_field(line@),
{
    let chars = chars_of(line);
    if chars.len() == 0 || chars[0] == '#' {
        return Fields::Skipped;
    }
    let i = find_char(chars.as_slice(), SEPARATOR);
    if i == chars.len() {
        return Fields::Unseparated;
    }
    let timestamp = string_of(&chars.as_slice()[0..i]);
    let body = string_of(&chars.as_slice()[i + 1..chars.len()]);
    assert(timestamp@ =~= timestamp_field(line@));
    assert(body@ =~= body_field(line@));
    Fields::Pair(timestamp, body)
}

/// A mention marker: it opens with `@<` and ends with `>`.
pub open spec fn is_mention(m: Seq<char>) -> bool {
    m.len() >= 3 && m[0] == '@' && m[1] == '<' && m.last() == '>'
}

/// A tag: a `#` and at least one more character, none of them white space.
pub open spec fn is_tag(t: Seq<char>) -> bool {
    t.len() >= 2 && t[0] == '#' && forall|i: int| 0 <= i < t.len() ==> !is_whitespace(#[trigger] t[i])
}

/// Those of `items` that stand in `text` one behind the other: each is
/// looked for behind the end of the one that was kept before it, and is
/// left out where it does not occur there.
pub open spec fn in_turn(items: Seq<Seq<char>>, text: Seq<char>) -> Seq<Seq<char>>
    decreases items.len(),
{
    if items.len() == 0 {
        Seq::empty()
    } else {
        match find(text, items[0]) {
            Some(i) => seq![items[0]] + in_turn(items.skip(1), text.skip(i + items[0].len())),
            None => in_turn(items.skip(1), text),
        }
    }
}

/// Whether `items` stand in `text` in their order, none reaching into the
/// next: the first occurs in `text`, and the others stand in the same way
/// behind the end of its first occurrence.
pub open spec fn stand_in_turn(items: Seq<Seq<char>>, text: Seq<char>) -> bool
    decreases items.len(),
{
    items.len() == 0 || match find(text, items[0]) {
        Some(i) => stand_in_turn(items.skip(1), text.skip(i + items[0].len())),
        None => false,
    }
}

/// What `in_turn` keeps stands in the text in its order, and each of it is
/// one of the items.
pub proof fn lemma_in_turn(items: Seq<Seq<char>>, text: Seq<char>)
    ensures
        stand_in_turn(in_turn(items, text), text),
        forall|k: int|
            0 <= k < in_turn(items, text).len() ==> items.contains(#[trigger] in_turn(items, text)[k]),
    decreases items.len(),
{
    if items.len() > 0 {
        let kept = in_turn(items, text);
        match find(text, items[0]) {
            Some(i) => {
                let rest = text.skip(i + items[0].len());
                let others = in_turn(items.skip(1), rest);
                lemma_in_turn(items.skip(1), rest);
                assert(kept.skip(1) =~= others);
                assert forall|k: int| 0 <= k < kept.len() implies items.contains(
                    #[trigger] kept[k],
                ) by {
                    if k > 0 {
                        assert(kept[k] == others[k - 1]);
                        let j = items.skip(1).index_of(others[k - 1]);
                        assert(items[j + 1] == kept[k]);
                    } else {
                        assert(items[0] == kept[0]);
                    }
                }
            },
            None => {
                lemma_in_turn(items.skip(1), text);
                assert forall|k: int| 0 <= k < kept.len() implies items.contains(
                    #[trigger] kept[k],
                ) by {
                    let j = items.skip(1).index_of(kept[k]);
                    assert(items[j + 1] == kept[k]);
                }
            },
        }
    }
}

/// Each of the items that stand in a text in their order occurs in it.
pub proof fn lemma_stand_in_turn(items: Seq<Seq<char>>, text: Seq<char>)
    requires
        stand_in_turn(items, text),
    ensures
        forall|k: int| 0 <= k < items.len() ==> contains(text, #[trigger] items[k]),
    decreases items.len(),
{
    if items.len() > 0 {
        lemma_find_from(text, items[0], 0);
        let n = find(text, items[0])->0 + items[0].len();
        lemma_stand_in_turn(items.skip(1), text.skip(n));
        assert forall|k: int| 0 <= k < items.len() implies contains(text, #[trigger] items[k]) by {
            if k > 0 {
                assert(items[k] == items.skip(1)[k - 1]);
                lemma_contains_skip(text, n, items[k]);
            }
        }
    }
}

/// The mentions among the matches of the mention pattern in `body`: those
/// that are mention markers and stand in `body` one behind the other.
pub open spec fn mentions_from(found: Seq<Seq<char>>, body: Seq<char>) -> Seq<Seq<char>> {
    in_turn(found.filter(|m: Seq<char>| is_mention(m)), body)
}

/// Each of `found` without its leading white space.
pub open spec fn trimmed(found: Seq<Seq<char>>) -> Seq<Seq<char>> {
    Seq::new(found.len(), |i: int| trim_start(found[i]))
}

/// The tags among the matches of the tag pattern in `body`: each match
/// without the white space that the pattern took in before its `#`, where
/// that is a tag, and as far as they stand in `body` one behind the other.
pub open spec fn tags_from(found: Seq<Seq<char>>, body: Seq<char>) -> Seq<Seq<char>> {
    in_turn(trimmed(found).filter(|t: Seq<char>| is_tag(t)), body)
}

/// The mentions in `body`, in the order in which the search gives them.
pub open spec fn mentions_of(body: Seq<char>) -> Seq<Seq<char>> {
    if pattern_ok(MENTION_PATTERN@) {
        mentions_from(all_matches(MENTION_PATTERN@, body), body)
    } else {
        Seq::empty()
    }
}

/// The tags in `body`, in the order in which the search gives them.
pub open spec fn tags_of(body: Seq<char>) -> Seq<Seq<char>> {
    if pattern_ok(TAG_PATTERN@) {
        tags_from(all_matches(TAG_PATTERN@, body), body)
    } else {
        Seq::empty()
    }
}

/// Every mention is a mention marker and every tag is a tag; the mentions
/// stand in the body in their order, and so do the tags.
pub proof fn lemma_marks(body: Seq<char>)
    ensures
        forall|i: int|
            0 <= i < mentions_of(body).len() ==> is_mention(#[trigger] mentions_of(body)[i])
                && contains(body, mentions_of(body)[i]),
        forall|i: int|
            0 <= i < tags_of(body).len() ==> is_tag(#[trigger] tags_of(body)[i]) && contains(
                body,
                tags_of(body)[i],
            ),
        stand_in_turn(mentions_of(body), body),
        stand_in_turn(tags_of(body), body),
{
    let keep_mention = |m: Seq<char>| is_mention(m);
    let keep_tag = |t: Seq<char>| is_tag(t);
    if pattern_ok(MENTION_PATTERN@) {
        let shaped = all_matches(MENTION_PATTERN@, body).filter(keep_mention);
        lemma_in_turn(shaped, body);
        lemma_stand_in_turn(mentions_of(body), body);
        assert forall|i: int| 0 <= i < mentions_of(body).len() implies is_mention(
            #[trigger] mentions_of(body)[i],
        ) by {
            let j = shaped.index_of(mentions_of(body)[i]);
            all_matches(MENTION_PATTERN@, body).lemma_filter_pred(keep_mention, j);
        }
    }
    if pattern_ok(TAG_PATTERN@) {
        let shaped = trimmed(all_matches(TAG_PATTERN@, body)).filter(keep_tag);
        lemma_in_turn(shaped, body);
        lemma_stand_in_turn(tags_of(body), body);
        assert forall|i: int| 0 <= i < tags_of(body).len() implies is_tag(
            #[trigger] tags_of(body)[i],
        ) by {
            let j = shaped.index_of(tags_of(body)[i]);
            trimmed(all_matches(TAG_PATTERN@, body)).lemma_filter_pred(keep_tag, j);
        }
    }
}

/// Whether `m` is a mention marker.
pub fn mention_shaped(m: &[char]) -> (r: bool)
    ensures
        r == is_mention(m@),
{
    m.len() >= 3 && m[0] == '@' && m[1] == '<' && m[m.len() - 1] == '>'
}

/// Whether `t` is a tag.
pub fn tag_shaped(t: &[char]) -> (r: bool)
    ensures
        r == is_tag(t@),
{
    if t.len() < 2 || t[0] != '#' {
        return false;
    }
    let mut i: usize = 0;
    while i < t.len()
        invariant
            i <= t.len(),
            forall|j: int| 0 <= j < i ==> !is_whitespace(#[trigger] t@[j]),
        decreases t.len() - i,
    {
        if is_space(t[i]) {
            return false;
        }
        i += 1;
    }
    true
}

/// Those of `items` that stand in `body` one behind the other.
pub fn standing(items: &Vec<String>, body: &str) -> (kept: Vec<String>)
    ensures
        strs(kept@) == in_turn(strs(items@), body@),
{
    let text = chars_of(body);
    let mut kept: Vec<String> = Vec::new();
    let mut from: usize = 0;
    let mut i: usize = 0;
    proof {
        assert(strs(items@).skip(0) =~= strs(items@));
        assert(body@.skip(0) =~= body@);
        assert(strs(kept@) + in_turn(strs(items@), body@) =~= in_turn(strs(items@), body@));
    }
    while i < items.len()
        invariant
            i <= items.len(),
            from <= text.len(),
            text@ == body@,
            in_turn(strs(items@), body@) == strs(kept@) + in_turn(
                strs(items@).skip(i as int),
                body@.skip(from as int),
            ),
        decreases items.len() - i,
    {
        let ghost before = kept@;
        let ghost left = strs(items@).skip(i as int);
        let ghost rest = body@.skip(from as int);
        let item = chars_of(items[i].as_str());
        let behind = &text.as_slice()[from..text.len()];
        proof {
            assert(behind@ =~= rest);
            assert(left[0] == item@);
            assert(left.skip(1) =~= strs(items@).skip(i + 1));
        }
        match find_in(behind, item.as_slice()) {
            Some(k) => {
                kept.push(items[i].clone());
                proof {
                    lemma_strs_push(before, kept@.last());
                    let others = in_turn(left.skip(1), rest.skip(k + item@.len()));
                    assert(rest.skip(k + item@.len()) =~= body@.skip(from + k + item@.len()));
                    assert(strs(before) + (seq![item@] + others) =~= strs(kept@) + others);
                }
                from = from + k + item.len();
            },
            None => {},
        }
        i += 1;
    }
    assert(strs(kept@) + Seq::<Seq<char>>::empty() =~= strs(kept@));
    kept
}

/// The mentions among the matches of the mention pattern in `body`.
pub fn keep_mentions(found: &Vec<String>, body: &str) -> (kept: Vec<String>)
    ensures
        strs(kept@) == mentions_from(strs(found@), body@),
{
    let ghost keep = |m: Seq<char>| is_mention(m);
    let mut shaped: Vec<String> = Vec::new();
    let mut i: usize = 0;
    proof {
        reveal(Seq::filter);
        assert(strs(found@).take(0) =~= Seq::<Seq<char>>::empty());
        assert(strs(shaped@) =~= Seq::<Seq<char>>::empty());
    }
    while i < found.len()
        invariant
            i <= found.len(),
            keep == (|m: Seq<char>| is_mention(m)),
            strs(shaped@) == strs(found@).take(i as int).filter(keep),
        decreases found.len() - i,
    {
        let ghost before = shaped@;
        proof {
            reveal(Seq::filter);
            let done = strs(found@).take(i + 1);
            assert(done.drop_last() =~= strs(found@).take(i as int));
            assert(done.last() == found@[i as int]@);
        }
        let m = chars_of(found[i].as_str());
        if mention_shaped(m.as_slice()) {
            shaped.push(found[i].clone());
            proof {
                lemma_strs_push(before, shaped@.last());
            }
        }
        i += 1;
    }
    assert(strs(found@).take(i as int) =~= strs(found@));
    standing(&shaped, body)
}

/// The tags among the matches of the tag pattern in `body`.
pub fn keep_tags(found: &Vec<String>, body: &str) -> (kept: Vec<String>)
    ensures
        strs(kept@) == tags_from(strs(found@), body@),
{
    let ghost keep = |t: Seq<char>| is_tag(t);
    let mut shaped: Vec<String> = Vec::new();
    let mut i: usize = 0;
    proof {
        reveal(Seq::filter);
        assert(trimmed(strs(found@)).take(0) =~= Seq::<Seq<char>>::empty());
        assert(strs(shaped@) =~= Seq::<Seq<char>>::empty());
    }
    while i < found.len()
        invariant
            i <= found.len(),
            keep == (|t: Seq<char>| is_tag(t)),
            strs(shaped@) == trimmed(strs(found@)).take(i as int).filter(keep),
        decreases found.len() - i,
    {
        let ghost before = shaped@;
        proof {
            reveal(Seq::filter);
            let done = trimmed(strs(found@)).take(i + 1);
            assert(done.drop_last() =~= trimmed(strs(found@)).take(i as int));
            assert(done.last() == trim_start(found@[i as int]@));
        }
        let chars = chars_of(found[i].as_str());
        let t = trim_start_chars(chars.as_slice());
        if tag_shaped(t) {
            shaped.push(string_of(t));
            proof {
                lemma_strs_push(before, shaped@.last());
            }
        }
        i += 1;
    }
    assert(trimmed(strs(found@)).take(i as int) =~= trimmed(strs(found@)));
    standing(&shaped, body)
}

/// The mentions in `body`.
pub fn mentions_in(body: &str) -> (r: Vec<String>)
    ensures
        strs(r@) == mentions_of(body@),
{
    match find_all(MENTION_PATTERN, body) {
        Ok(found) => keep_mentions(&found, body),
        Err(_) => {
            let none: Vec<String> = Vec::new();
            assert(strs(none@) =~= Seq::<Seq<char>>::empty());
            none
        },
    }
}

/// The tags in `body`.
pub fn tags_among(body: &str) -> (r: Vec<String>)
    ensures
        strs(r@) == tags_of(body@),
{
    match find_all(TAG_PATTERN, body) {
        Ok(found) => keep_tags(&found, body),
        Err(_) => {
            let none: Vec<String> = Vec::new();
            assert(strs(none@) =~= Seq::<Seq<char>>::empty());
            none
        },
    }
}

/// The line that opens the metadata of a feed.
pub const METADATA_MARKER: &'static str = "== Metadata ==";

/// What follows a keyword in the pattern of its declaration: white space
/// if there is any, the sign between keyword and value, and the rest of the
/// line.
pub const VALUE_PATTERN: &'static str = "\\s*=(.*)";

/// Why a keyword has no value.
#[derive(Debug, Clone, Copy, PartialEq, Eq)]
pub enum LookupError {
    /// The text has no metadata section, or the keyword does not occur in it.
    Missing,
    /// The keyword occurs, but not in a declaration.
    NoMatch,
    /// What a search found holds no group for the value.
    OutOfBounds,
}

impl LookupError {
    /// The failure in words.
    pub fn message(&self) -> (text: &'static str)
        ensures
            text@ == match *self {
                LookupError::Missing => "File contains no metadata section, or the keyword is missing"@,
                LookupError::NoMatch => "No Keyword Matches"@,
                LookupError::OutOfBounds => "Keyword Matched Out of Bounds"@,
            },
    {
        match self {
            LookupError::Missing => "File contains no metadata section, or the keyword is missing",
            LookupError::NoMatch => "No Keyword Matches",
            LookupError::OutOfBounds => "Keyword Matched Out of Bounds",
        }
    }
}

/// What follows the first metadata marker of `text`.
pub open spec fn header_of(text: Seq<char>) -> Option<Seq<char>> {
    match find(text, METADATA_MARKER@) {
        Some(i) => Some(text.skip(i + METADATA_MARKER@.len())),
        None => None,
    }
}

/// The pattern of a declaration of `keyword`, the keyword taken letter for
/// letter.
pub open spec fn declaration_of(keyword: Seq<char>) -> Seq<char> {
    escaped(keyword) + VALUE_PATTERN@
}

/// The first token of `rest`: what stands behind its leading white space,
/// up to the next white space.
pub open spec fn first_token(rest: Seq<char>) -> Seq<char> {
    trim_start(rest).take(first_space(trim_start(rest)))
}

/// A token holds no white space.
pub proof fn lemma_first_token(rest: Seq<char>)
    ensures
        forall|i: int| 0 <= i < first_token(rest).len() ==> !is_whitespace(#[trigger] first_token(rest)[i]),
{
    lemma_first_space(trim_start(rest));
}

/// The sign between a keyword and its value.
pub const SIGN: char = '=';

/// Whether `whole` is a declaration of `keyword` with `rest` behind its
/// sign: the keyword, white space where there is any, the sign, and `rest`.
pub open spec fn is_declaration(whole: Seq<char>, keyword: Seq<char>, rest: Seq<char>) -> bool {
    let behind = trim_start(whole.skip(keyword.len() as int));
    &&& occurs_at(whole, 0, keyword)
    &&& behind.len() > 0
    &&& behind[0] == SIGN
    &&& behind.skip(1) == rest
}

/// A declaration written out: the keyword, `gap`, the sign, `space` and the
/// value.
pub open spec fn declaration(
    keyword: Seq<char>,
    gap: Seq<char>,
    space: Seq<char>,
    value: Seq<char>,
) -> Seq<char> {
    keyword + gap + seq![SIGN] + space + value
}

/// Whether `header` gives `keyword` the value `value` somewhere: it holds
/// the keyword, white space where there is any, the sign, white space where
/// there is any, and the value.
pub open spec fn declares(header: Seq<char>, keyword: Seq<char>, value: Seq<char>) -> bool {
    exists|gap: Seq<char>, space: Seq<char>|
        is_blank(gap) && is_blank(space) && contains(
            header,
            #[trigger] declaration(keyword, gap, space, value),
        )
}

/// The value in what a search for the first declaration of `keyword` in
/// `header` found: the first token of what its second capture group holds,
/// the rest of the line behind the sign.  What was found is taken only where
/// it is a declaration of the keyword that stands in `header`.
pub open spec fn value_from(
    found: Option<Seq<Option<Seq<char>>>>,
    keyword: Seq<char>,
    header: Seq<char>,
) -> Result<Seq<char>, LookupError> {
    match found {
        None => Err(LookupError::NoMatch),
        Some(g) => if g.len() > 1 && g[1] is Some {
            if g[0] is Some && is_declaration(g[0]->0, keyword, g[1]->0) && contains(
                header,
                g[0]->0,
            ) {
                Ok(first_token(g[1]->0))
            } else {
                Err(LookupError::NoMatch)
            }
        } else {
            Err(LookupError::OutOfBounds)
        },
    }
}

/// A value that was found holds no white space, and the header gives it to
/// the keyword.
pub proof fn lemma_value_from(
    found: Option<Seq<Option<Seq<char>>>>,
    keyword: Seq<char>,
    header: Seq<char>,
)
    ensures
        value_from(found, keyword, header) matches Ok(value) ==> declares(header, keyword, value)
            && forall|i: int| 0 <= i < value.len() ==> !is_whitespace(#[trigger] value[i]),
{
    if value_from(found, keyword, header) is Ok {
        let whole = found->0[0]->0;
        let rest = found->0[1]->0;
        let value = first_token(rest);
        lemma_first_token(rest);
        let after = whole.skip(keyword.len() as int);
        let n = lemma_trim_start(after);
        let m = lemma_trim_start(rest);
        lemma_first_space(trim_start(rest));
        let gap = after.take(n);
        let space = rest.take(m);
        let written = declaration(keyword, gap, space, value);
        assert(whole.subrange(0, keyword.len() as int) == keyword);
        assert(written =~= whole.take(written.len() as int));
        lemma_contains_start(header, whole, written.len() as int);
    }
}

/// The value that the metadata of `text` gives to `keyword`: the token in
/// the first declaration of the keyword behind the metadata marker.
pub open spec fn metadata_of(text: Seq<char>, keyword: Seq<char>) -> Result<
    Seq<char>,
    LookupError,
> {
    match header_of(text) {
        None => Err(LookupError::Missing),
        Some(header) => if !contains(header, keyword) {
            Err(LookupError::Missing)
        } else if !pattern_ok(declaration_of(keyword)) {
            Err(LookupError::NoMatch)
        } else {
            value_from(first_captures(declaration_of(keyword), header), keyword, header)
        },
    }
}

/// A text without a metadata section gives no keyword a value.
pub proof fn lemma_no_section(text: Seq<char>, keyword: Seq<char>)
    requires
        !contains(text, METADATA_MARKER@),
    ensures
        metadata_of(text, keyword) == Err::<Seq<char>, LookupError>(LookupError::Missing),
{
}

/// The view of a looked-up value.
pub open spec fn value_view(r: Result<String, LookupError>) -> Result<Seq<char>, LookupError> {
    match r {
        Ok(value) => Ok(value@),
        Err(e) => Err(e),
    }
}

/// Whether `whole` is a declaration of `keyword` with `rest` behind its
/// sign.
pub fn declaration_shaped(whole: &[char], keyword: &[char], rest: &[char]) -> (r: bool)
    ensures
        r == is_declaration(whole@, keyword@, rest@),
{
    if !starts_at(whole, 0, keyword) {
        return false;
    }
    let after = &whole[keyword.len()..whole.len()];
    assert(after@ =~= whole@.skip(keyword@.len() as int));
    let behind = trim_start_chars(after);
    if behind.len() == 0 || behind[0] != SIGN {
        return false;
    }
    let tail = &behind[1..behind.len()];
    assert(tail@ =~= behind@.skip(1));
    if tail.len() != rest.len() {
        return false;
    }
    assert(tail@.subrange(0, rest@.len() as int) =~= tail@);
    starts_at(tail, 0, rest)
}

/// The value in what a search for the first declaration of `keyword` in
/// `header` found.
pub fn metadata_value(found: &Option<Vec<Option<String>>>, keyword: &str, header: &str) -> (r:
    Result<String, LookupError>)
    ensures
        value_view(r) == value_from(captures_view(*found), keyword@, header@),
{
    match found {
        None => Err(LookupError::NoMatch),
        Some(g) => {
            if g.len() > 1 {
                match &g[1] {
                    Some(rest) => {
                        let chars = chars_of(rest.as_str());
                        let declared = match &g[0] {
                            Some(whole) => {
                                let all = chars_of(whole.as_str());
                                let word = chars_of(keyword);
                                let text = chars_of(header);
                                declaration_shaped(
                                    all.as_slice(),
                                    word.as_slice(),
                                    chars.as_slice(),
                                ) && find_in(text.as_slice(), all.as_slice()).is_some()
                            },
                            None => false,
                        };
                        if !declared {
                            return Err(LookupError::NoMatch);
                        }
                        let behind = trim_start_chars(chars.as_slice());
                        let end = find_space(behind);
                        let token = string_of(&behind[0..end]);
                        assert(token@ =~= first_token(rest@));
                        return Ok(token);
                    },
                    None => {},
                }
            }
            Err(LookupError::OutOfBounds)
        },
    }
}

/// This parses out the specified information in the `== Metadata ==` section
/// of a given `twtxt.txt` file.
pub fn metadata(twtxt: &str, keyword: &str) -> (r: Result<String, LookupError>)
    ensures
        value_view(r) == metadata_of(twtxt@, keyword@),
        !contains(twtxt@, METADATA_MARKER@) ==> r is Err,
        r matches Ok(value) ==> declares(header_of(twtxt@)->0, keyword@, value@) && forall|i: int|
            0 <= i < value@.len() ==> !is_whitespace(#[trigger] value@[i]),
{
    let text = chars_of(twtxt);
    let marker = chars_of(METADATA_MARKER);
    let start = match find_in(text.as_slice(), marker.as_slice()) {
        Some(i) => i + marker.len(),
        None => {
            return Err(LookupError::Missing);
        },
    };
    let header = &text.as_slice()[start..text.len()];
    assert(header@ =~= header_of(twtxt@)->0);
    let word = chars_of(keyword);
    if find_in(header, word.as_slice()).is_none() {
        return Err(LookupError::Missing);
    }
    let mut pattern = escape(keyword);
    pattern.append(VALUE_PATTERN);
    let header_text = string_of(header);
    match find_first(pattern.as_str(), header_text.as_str()) {
        Ok(found) => {
            proof {
                lemma_value_from(captures_view(found), keyword@, header@);
            }
            metadata_value(&found, keyword, header_text.as_str())
        },
        Err(_) => Err(LookupError::NoMatch),
    }
}

/// The separator between the lines of a feed.
pub const LINE_END: char = '\n';

/// What stands between the tags of one post when they are listed.
pub const TAG_GAP: &'static str = " ";

/// Whether `line` has the two fields of a post.
pub open spec fn is_status(line: Seq<char>) -> bool {
    !is_skipped(line) && has_separator(line)
}

/// The statuses among `lines`: at each first field the second field of the
/// last line that has it.
pub open spec fn statuses_from(lines: Seq<Seq<char>>) -> Map<Seq<char>, Seq<char>>
    decreases lines.len(),
{
    if lines.len() == 0 {
        Map::empty()
    } else {
        let before = statuses_from(lines.drop_last());
        let line = lines.last();
        if is_status(line) {
            before.insert(timestamp_field(line), body_field(line))
        } else {
            before
        }
    }
}

/// The statuses of a feed.
pub open spec fn statuses_of(text: Seq<char>) -> Map<Seq<char>, Seq<char>> {
    statuses_from(split(text, LINE_END))
}

/// What `f` makes of the values at the first `n` of `keys`, where it makes
/// anything of them.
pub open spec fn select_first(
    keys: Seq<Seq<char>>,
    m: Map<Seq<char>, Seq<char>>,
    n: int,
    f: spec_fn(Seq<char>) -> Option<Seq<char>>,
) -> Map<Seq<char>, Seq<char>> {
    Map::new(|k: Seq<char>| among(keys, n, k) && f(m[k]) is Some, |k: Seq<char>| f(m[k])->0)
}

/// What `f` makes of the values of `m`, where it makes anything of them.
pub open spec fn select(
    m: Map<Seq<char>, Seq<char>>,
    f: spec_fn(Seq<char>) -> Option<Seq<char>>,
) -> Map<Seq<char>, Seq<char>> {
    Map::new(|k: Seq<char>| m.contains_key(k) && f(m[k]) is Some, |k: Seq<char>| f(m[k])->0)
}

/// One more key adds what `f` makes of its value.
pub proof fn lemma_select_step(
    keys: Seq<Seq<char>>,
    m: Map<Seq<char>, Seq<char>>,
    n: int,
    f: spec_fn(Seq<char>) -> Option<Seq<char>>,
)
    requires
        0 <= n < keys.len(),
    ensures
        select_first(keys, m, n + 1, f) == match f(m[keys[n]]) {
            Some(v) => select_first(keys, m, n, f).insert(keys[n], v),
            None => select_first(keys, m, n, f),
        },
{
    let next = select_first(keys, m, n + 1, f);
    let step = match f(m[keys[n]]) {
        Some(v) => select_first(keys, m, n, f).insert(keys[n], v),
        None => select_first(keys, m, n, f),
    };
    lemma_among_step(keys, n);
    assert(next =~= step);
}

/// With all the keys of `m`, `select_first` is `select`; with none it is empty.
pub proof fn lemma_select_all(
    keys: Seq<Seq<char>>,
    m: Map<Seq<char>, Seq<char>>,
    f: spec_fn(Seq<char>) -> Option<Seq<char>>,
)
    requires
        forall|k: Seq<char>| m.contains_key(k) <==> keys.contains(k),
    ensures
        select_first(keys, m, keys.len() as int, f) == select(m, f),
        select_first(keys, m, 0, f) == Map::<Seq<char>, Seq<char>>::empty(),
{
    lemma_among_all(keys);
    assert(select_first(keys, m, keys.len() as int, f) =~= select(m, f));
    assert(select_first(keys, m, 0, f) =~= Map::<Seq<char>, Seq<char>>::empty());
}

/// The statuses of a feed, none left out where there is none.
pub fn status_map(twtxt: &str) -> (m: SortedMap<String>)
    ensures
        m@ == statuses_of(twtxt@),
{
    let lines = split_str(twtxt, LINE_END);
    let mut m: SortedMap<String> = SortedMap::new();
    let mut i: usize = 0;
    assert(strs(lines@).take(0) =~= Seq::<Seq<char>>::empty());
    while i < lines.len()
        invariant
            i <= lines.len(),
            m@ == statuses_from(strs(lines@).take(i as int)),
        decreases lines.len() - i,
    {
        proof {
            let done = strs(lines@).take(i + 1);
            assert(done.drop_last() =~= strs(lines@).take(i as int));
            assert(done.last() == lines@[i as int]@);
        }
        match split_line(lines[i].as_str()) {
            Fields::Pair(timestamp, body) => {
                m.insert(timestamp, body);
            },
            _ => {},
        }
        i += 1;
    }
    assert(strs(lines@).take(i as int) =~= strs(lines@));
    m
}

/// Pull the individual tweets from a `twtxt.txt` file into a map.  The
/// timestamp is the key while the status is the value.
pub fn statuses(twtxt: &str) -> (r: Option<SortedMap<String>>)
    ensures
        r is None <==> statuses_of(twtxt@) == Map::<Seq<char>, Seq<char>>::empty(),
        r matches Some(m) ==> m@ == statuses_of(twtxt@),
{
    let m = status_map(twtxt);
    if m.is_empty() {
        None
    } else {
        Some(m)
    }
}

/// The whole of a match: its capture group 0.
pub open spec fn whole_match(found: Option<Seq<Option<Seq<char>>>>) -> Option<Seq<char>> {
    match found {
        Some(g) => if g.len() > 0 {
            g[0]
        } else {
            None
        },
        None => None,
    }
}

/// The mention marker in what a search for the first match found: its
/// whole, where that is a mention marker and stands in `text`.
pub open spec fn marker_from(found: Option<Seq<Option<Seq<char>>>>, text: Seq<char>) -> Option<
    Seq<char>,
> {
    match whole_match(found) {
        Some(m) => if is_mention(m) && contains(text, m) {
            Some(m)
        } else {
            None
        },
        None => None,
    }
}

/// The first mention marker in `text`.
pub open spec fn first_marker(text: Seq<char>) -> Option<Seq<char>> {
    if pattern_ok(MENTION_PATTERN@) {
        marker_from(first_captures(MENTION_PATTERN@, text), text)
    } else {
        None
    }
}

/// What a mention marker holds between its opener and its closing
/// character.  A text that is no mention marker holds nothing.
pub open spec fn marker_content(marker: Seq<char>) -> Option<Seq<char>> {
    if is_mention(marker) {
        Some(marker.subrange(2, marker.len() - 1))
    } else {
        None
    }
}

/// The nickname in a mention marker: its content up to the first white
/// space.
pub open spec fn marker_nickname(marker: Seq<char>) -> Option<Seq<char>> {
    match marker_content(marker) {
        Some(content) => Some(content.take(first_space(content))),
        None => None,
    }
}

/// The nickname in the first mention marker of `line`.
pub open spec fn nickname_in(line: Seq<char>) -> Option<Seq<char>> {
    match first_marker(line) {
        Some(marker) => marker_nickname(marker),
        None => None,
    }
}

/// The mention of a status: the content of the first marker in its body.
pub open spec fn mention_in(body: Seq<char>) -> Option<Seq<char>> {
    match first_marker(body) {
        Some(marker) => marker_content(marker),
        None => None,
    }
}

/// The tags of a status, listed with a gap between them: those of a body
/// that holds at least one tag.
pub open spec fn tag_group(body: Seq<char>) -> Option<Seq<char>> {
    if tags_of(body).len() == 0 {
        None
    } else {
        Some(join(tags_of(body), TAG_GAP@))
    }
}

/// The view of a text that may be missing.
pub open spec fn text_view(r: Option<String>) -> Option<Seq<char>> {
    match r {
        Some(s) => Some(s@),
        None => None,
    }
}

/// The whole of a match that a search found.
pub fn whole_of(found: &Option<Vec<Option<String>>>) -> (r: Option<String>)
    ensures
        text_view(r) == whole_match(captures_view(*found)),
{
    match found {
        Some(g) => {
            if g.len() > 0 {
                match &g[0] {
                    Some(s) => Some(s.clone()),
                    None => None,
                }
            } else {
                None
            }
        },
        None => None,
    }
}

/// The mention marker in what a search for the first match in `text`
/// found.
pub fn marker_of(found: &Option<Vec<Option<String>>>, text: &str) -> (r: Option<String>)
    ensures
        text_view(r) == marker_from(captures_view(*found), text@),
{
    match whole_of(found) {
        Some(whole) => {
            let m = chars_of(whole.as_str());
            let all = chars_of(text);
            if mention_shaped(m.as_slice()) && find_in(all.as_slice(), m.as_slice()).is_some() {
                Some(whole)
            } else {
                None
            }
        },
        None => None,
    }
}

/// The first mention marker in `text`.
pub fn marker_in(text: &str) -> (r: Option<String>)
    ensures
        text_view(r) == first_marker(text@),
        r matches Some(marker) ==> is_mention(marker@) && contains(text@, marker@),
{
    match find_first(MENTION_PATTERN, text) {
        Ok(found) => marker_of(&found, text),
        Err(_) => None,
    }
}

/// What `marker` holds between its opener and its closing character.
pub fn content_of(marker: &str) -> (r: Option<String>)
    ensures
        text_view(r) == marker_content(marker@),
{
    let chars = chars_of(marker);
    if !mention_shaped(chars.as_slice()) {
        return None;
    }
    Some(string_of(&chars.as_slice()[2..chars.len() - 1]))
}

/// The nickname in `marker`, a mention of the form
/// `@<nick https://example.com/twtxt.txt>`.
pub fn nickname_of(marker: &str) -> (r: Option<String>)
    ensures
        text_view(r) == marker_nickname(marker@),
{
    let chars = chars_of(marker);
    if !mention_shaped(chars.as_slice()) {
        return None;
    }
    let content = &chars.as_slice()[2..chars.len() - 1];
    let end = find_space(content);
    let nickname = string_of(&content[0..end]);
    assert(nickname@ =~= content@.take(end as int));
    Some(nickname)
}

/// Takes a line that holds a mention in the form of
/// `@<nick https://example.com/twtxt.txt>` and reduces it to just the
/// nickname.
pub fn mention_to_nickname(line: &str) -> (r: Option<String>)
    ensures
        text_view(r) == nickname_in(line@),
{
    match marker_in(line) {
        Some(marker) => nickname_of(marker.as_str()),
        None => None,
    }
}

/// The mention of a status.
pub fn mention_of(body: &str) -> (r: Option<String>)
    ensures
        text_view(r) == mention_in(body@),
{
    match marker_in(body) {
        Some(marker) => content_of(marker.as_str()),
        None => None,
    }
}

/// The tags of a status, listed with a gap between them.
pub fn tags_in(body: &str) -> (r: Option<String>)
    ensures
        text_view(r) == tag_group(body@),
{
    let tags = tags_among(body);
    assert(strs(tags@).len() == tags@.len());
    if tags.len() == 0 {
        None
    } else {
        Some(join_strs(&tags, TAG_GAP))
    }
}

/// Parse the mentions out of a `twtxt.txt` file.  Returns a map with the
/// timestamp of the tweet as the key and the mention as the associated
/// value.
pub fn mentions(twtxt: &str) -> (r: Option<SortedMap<String>>)
    ensures
        r is None <==> select(statuses_of(twtxt@), |body: Seq<char>| mention_in(body)) == Map::<
            Seq<char>,
            Seq<char>,
        >::empty(),
        r matches Some(m) ==> m@ == select(
            statuses_of(twtxt@),
            |body: Seq<char>| mention_in(body),
        ),
{
    let all = status_map(twtxt);
    let ghost f = |body: Seq<char>| mention_in(body);
    let mut m: SortedMap<String> = SortedMap::new();
    let n = all.len();
    let mut i: usize = 0;
    proof {
        lemma_select_all(all.keys(), all@, f);
    }
    while i < n
        invariant
            i <= n,
            n == all.keys().len(),
            f == (|body: Seq<char>| mention_in(body)),
            m@ == select_first(all.keys(), all@, i as int, f),
        decreases n - i,
    {
        let body = all.value_at(i);
        proof {
            lemma_select_step(all.keys(), all@, i as int, f);
        }
        match mention_of(body.as_str()) {
            Some(mention) => {
                m.insert(all.key_at(i).to_owned(), mention);
            },
            None => {},
        }
        i += 1;
    }
    if m.is_empty() {
        None
    } else {
        Some(m)
    }
}

/// Parses out `#tags` from each tweet, returning a map with the timestamp
/// as the key, and the tags of the tweet as the value.
pub fn tags(twtxt: &str) -> (r: Option<SortedMap<String>>)
    ensures
        r is None <==> select(statuses_of(twtxt@), |body: Seq<char>| tag_group(body)) == Map::<
            Seq<char>,
            Seq<char>,
        >::empty(),
        r matches Some(m) ==> m@ == select(statuses_of(twtxt@), |body: Seq<char>| tag_group(body)),
{
    let all = status_map(twtxt);
    let ghost f = |body: Seq<char>| tag_group(body);
    let mut m: SortedMap<String> = SortedMap::new();
    let n = all.len();
    let mut i: usize = 0;
    proof {
        lemma_select_all(all.keys(), all@, f);
    }
    while i < n
        invariant
            i <= n,
            n == all.keys().len(),
            f == (|body: Seq<char>| tag_group(body)),
            m@ == select_first(all.keys(), all@, i as int, f),
        decreases n - i,
    {
        let body = all.value_at(i);
        proof {
            lemma_select_step(all.keys(), all@, i as int, f);
        }
        match tags_in(body.as_str()) {
            Some(group) => {
                m.insert(all.key_at(i).to_owned(), group);
            },
            None => {},
        }
        i += 1;
    }
    if m.is_empty() {
        None
    } else {
        Some(m)
    }
}

} // verus!
