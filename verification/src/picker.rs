//! The fuzzy picker shown in the Herdr popup pane: which entries it lists, and what its
//! lines say.

use crate::model;
use crate::model::{Connection, ConnectionView, Store};
use crate::number;
use crate::rank;
use crate::rank::{Rank, RankView};
use crate::split;
use crate::text;
use crate::time;
use crate::time::Timestamp;
use nucleo_matcher::pattern::{CaseMatching, Normalization, Pattern};
use nucleo_matcher::{Config, Matcher, Utf32Str};
use vstd::prelude::*;

verus! {

broadcast use {text::lemma_texts_push, rank::lemma_rank_views_push};

// ---------------------------------------------------------------- matching

/// As many characters can match a word with a score that is sure to fit into 16 bits: the
/// first of them counts 36 at most, and each further one 26.
pub const LONGEST_MATCH: usize = 2520;

/// How long the word is that the query ends with. Words are parted by spaces that have no
/// backslash in front of them. A backslash, which may stand for itself, counts twice.
pub open spec fn last_word(query: Seq<char>) -> nat
    decreases query.len(),
{
    if query.len() == 0 {
        0
    } else if query.last() == ' ' && !(query.len() > 1 && query[query.len() - 2] == '\\') {
        0
    } else if query.last() == '\\' {
        last_word(query.drop_last()) + 2
    } else {
        last_word(query.drop_last()) + 1
    }
}

/// How long the longest word of the query is.
pub open spec fn longest_word(query: Seq<char>) -> nat
    decreases query.len(),
{
    if query.len() == 0 {
        0
    } else if longest_word(query.drop_last()) < last_word(query) {
        last_word(query)
    } else {
        longest_word(query.drop_last())
    }
}

/// Letters that the matcher takes for a variant of a plain Latin letter, and some of their
/// neighbours.
pub open spec fn is_latin_variant(c: char) -> bool {
    ||| '\u{c0}' <= c <= '\u{2ae}'
    ||| '\u{363}' <= c <= '\u{36f}'
    ||| '\u{1d00}' <= c <= '\u{1ef9}'
    ||| '\u{2071}' <= c <= '\u{2184}'
    ||| '\u{2c62}' <= c <= '\u{2c7f}'
    ||| '\u{a78d}' <= c <= '\u{a7c5}'
}

/// Lower-case letters that case folding turns into another letter, as it does the final
/// sigma.
pub open spec fn is_second_form(c: char) -> bool {
    ||| c == '\u{b5}'
    ||| c == '\u{17f}'
    ||| c == '\u{345}'
    ||| c == '\u{3c2}'
    ||| '\u{3d0}' <= c <= '\u{3d1}'
    ||| '\u{3d5}' <= c <= '\u{3d6}'
    ||| '\u{3f0}' <= c <= '\u{3f1}'
    ||| c == '\u{3f5}'
    ||| '\u{13f8}' <= c <= '\u{13fd}'
    ||| '\u{1c80}' <= c <= '\u{1c88}'
    ||| c == '\u{1e9b}'
    ||| c == '\u{1fbe}'
    ||| '\u{ab70}' <= c <= '\u{abbf}'
}

/// What case folding makes of a letter, as far as letters with a second form go; any other
/// character stands for itself.
pub open spec fn folded(c: char) -> u32 {
    match c {
        'S' | '\u{17f}' => 0x73,
        '\u{392}' | '\u{3d0}' => 0x3b2,
        '\u{395}' | '\u{3f5}' => 0x3b5,
        '\u{398}' | '\u{3d1}' | '\u{3f4}' => 0x3b8,
        '\u{345}' | '\u{399}' | '\u{1fbe}' => 0x3b9,
        '\u{39a}' | '\u{3f0}' => 0x3ba,
        '\u{b5}' | '\u{39c}' => 0x3bc,
        '\u{3a0}' | '\u{3d6}' => 0x3c0,
        '\u{3a1}' | '\u{3f1}' => 0x3c1,
        '\u{3a3}' | '\u{3c2}' => 0x3c3,
        '\u{3a6}' | '\u{3d5}' => 0x3c6,
        '\u{412}' | '\u{1c80}' => 0x432,
        '\u{414}' | '\u{1c81}' => 0x434,
        '\u{41e}' | '\u{1c82}' => 0x43e,
        '\u{421}' | '\u{1c83}' => 0x441,
        '\u{422}' | '\u{1c84}' | '\u{1c85}' => 0x442,
        '\u{42a}' | '\u{1c86}' => 0x44a,
        '\u{462}' | '\u{1c87}' => 0x463,
        '\u{1e60}' | '\u{1e9b}' => 0x1e61,
        '\u{a64a}' | '\u{1c88}' => 0xa64b,
        _ => if '\u{13f8}' <= c && c <= '\u{13fd}' {
            (c as u32 - 8) as u32
        } else if '\u{ab70}' <= c && c <= '\u{abbf}' {
            (c as u32 - 0x97d0) as u32
        } else {
            c as u32
        },
    }
}

/// A space that parts two words of the query: one without a backslash in front of it.
pub open spec fn is_gap(query: Seq<char>, i: int) -> bool {
    query[i] == ' ' && !(i > 0 && query[i - 1] == '\\')
}

/// A word of the query starts at `i`, or would if there were no gap.
pub open spec fn starts_word(query: Seq<char>, i: int) -> bool {
    i == 0 || is_gap(query, i - 1)
}

/// From `i` to `j` there is no gap in the query.
pub open spec fn in_one_word(query: Seq<char>, i: int, j: int) -> bool {
    forall|k: int| i <= k <= j ==> !#[trigger] is_gap(query, k)
}

/// The word that starts at `i` holds a variant of a Latin letter.
pub open spec fn is_accented_word(query: Seq<char>, i: int) -> bool {
    starts_word(query, i) && exists|j: int|
        i <= j < query.len() && is_latin_variant(#[trigger] query[j]) && in_one_word(query, i, j)
}

/// A word of the query that holds a variant of a Latin letter starts with this letter.
pub open spec fn opens_accented_word(query: Seq<char>, letter: u32) -> bool {
    exists|i: int|
        0 <= i < query.len() && folded(#[trigger] query[i]) == letter && is_accented_word(query, i)
}

/// The text holds the second form of a letter that an accented word of the query starts
/// with.
pub open spec fn is_confusing(query: Seq<char>, haystack: Seq<char>) -> bool {
    exists|i: int|
        0 <= i < haystack.len() && is_second_form(#[trigger] haystack[i]) && opens_accented_word(
            query,
            folded(haystack[i]),
        )
}

/// A query and a text that can be scored.
pub open spec fn is_scorable(query: Seq<char>, haystack: Seq<char>) -> bool {
    &&& longest_word(query) <= LONGEST_MATCH || haystack.len() <= LONGEST_MATCH
    &&& 72 * query.len() <= u32::MAX
    &&& 4 * haystack.len() <= u32::MAX
    &&& 8 * (query.len() * haystack.len()) <= usize::MAX
    &&& !is_confusing(query, haystack)
}

/// How well a text matches a query, if it does.
pub uninterp spec fn fuzzy_score(query: Seq<char>, haystack: Seq<char>) -> Option<u32>;

/// `nucleo_matcher::pattern::Pattern::score`, of the pattern that `Pattern::parse` makes of
/// the query with case ignored and smart normalization, with a new default matcher: the
/// score of the text, or nothing when it does not match. The score depends on the two
/// texts alone and is named, not spelled out.
///
/// What it does not take is left out:
///  - It adds up the score of each word of the query in 16 bits, and their sum in 32. A word
///    that is longer than the text does not match and has no score.
///  - It panics on a text of more than 2^32-1 units. These are bytes where every grapheme
///    starts with an ASCII character, and characters otherwise.
///  - Looking for where a match begins it folds every letter; filling its matrix, with
///    normalization off, it folds upper-case letters only, and asserts that the match begins
///    where it was found. A Latin letter with an accent turns normalization off for its
///    word, and the second form of a letter is lower case and folded: where the text holds
///    the second form of the letter that such a word starts with, the match may begin at it.
#[verifier::external_body]
fn score(query: &str, haystack: &str) -> (r: Option<u32>)
    requires
        is_scorable(query@, haystack@),
    ensures
        r == fuzzy_score(query@, haystack@),
{
    let mut buf = Vec::new();
    let mut matcher = Matcher::new(Config::DEFAULT);
    Pattern::parse(query, CaseMatching::Ignore, Normalization::Smart)
        .score(Utf32Str::new(haystack, &mut buf), &mut matcher)
}

/// The scores of the entries.
pub open spec fn fuzzy_scores(all: Seq<ConnectionView>, query: Seq<char>) -> Seq<Option<u32>> {
    Seq::new(all.len(), |i: int| fuzzy_score(query, all[i].search_text()))
}

/// The ranks of the entries that have a score.
pub open spec fn score_ranks(all: Seq<ConnectionView>, scores: Seq<Option<u32>>) -> Seq<
    Option<RankView>,
> {
    Seq::new(
        all.len(),
        |i: int|
            match scores[i] {
                Some(s) => Some(
                    RankView { score: s as int, last_used: all[i].last_connected_at },
                ),
                None => None,
            },
    )
}

/// The entries that have a score, highest score first; ties fall back to most recently
/// used.
pub open spec fn by_score(all: Seq<ConnectionView>, scores: Seq<Option<u32>>) -> Seq<
    ConnectionView,
> {
    model::picked(all, rank::ranking(score_ranks(all, scores)))
}

/// The entries that match a query, in order; a blank query keeps recency order.
pub open spec fn matching(all: Seq<ConnectionView>, query: Seq<char>) -> Seq<ConnectionView> {
    if text::is_blank(query) {
        model::by_recency(all)
    } else {
        by_score(all, fuzzy_scores(all, query))
    }
}

/// Every entry can be scored against the query.
pub open spec fn is_searchable(all: Seq<ConnectionView>, query: Seq<char>) -> bool {
    text::is_blank(query) || forall|i: int|
        0 <= i < all.len() ==> is_scorable(query, (#[trigger] all[i]).search_text())
}

/// How long the longest word of the query is.
fn measure_words(query: &Vec<char>) -> (r: u64)
    requires
        72 * query@.len() <= u32::MAX,
    ensures
        r == longest_word(query@),
{
    let mut longest: u64 = 0;
    let mut last: u64 = 0;
    let mut i: usize = 0;
    while i < query.len()
        invariant
            i <= query@.len(),
            72 * query@.len() <= u32::MAX,
            longest == longest_word(query@.take(i as int)),
            last == last_word(query@.take(i as int)),
            last <= 2 * i,
        decreases query@.len() - i,
    {
        proof {
            assert(query@.take(i + 1).drop_last() =~= query@.take(i as int));
            assert(query@.take(i + 1).last() == query@[i as int]);
        }
        let escaped = i > 0 && query[i - 1] == '\\';
        if query[i] == ' ' && !escaped {
            last = 0;
        } else if query[i] == '\\' {
            last = last + 2;
        } else {
            last = last + 1;
        }
        if longest < last {
            longest = last;
        }
        i = i + 1;
    }
    assert(query@.take(i as int) =~= query@);
    longest
}

/// What case folding makes of a letter with a second form.
fn fold(c: char) -> (r: u32)
    ensures
        r == folded(c),
{
    match c {
        'S' | '\u{17f}' => 0x73,
        '\u{392}' | '\u{3d0}' => 0x3b2,
        '\u{395}' | '\u{3f5}' => 0x3b5,
        '\u{398}' | '\u{3d1}' | '\u{3f4}' => 0x3b8,
        '\u{345}' | '\u{399}' | '\u{1fbe}' => 0x3b9,
        '\u{39a}' | '\u{3f0}' => 0x3ba,
        '\u{b5}' | '\u{39c}' => 0x3bc,
        '\u{3a0}' | '\u{3d6}' => 0x3c0,
        '\u{3a1}' | '\u{3f1}' => 0x3c1,
        '\u{3a3}' | '\u{3c2}' => 0x3c3,
        '\u{3a6}' | '\u{3d5}' => 0x3c6,
        '\u{412}' | '\u{1c80}' => 0x432,
        '\u{414}' | '\u{1c81}' => 0x434,
        '\u{41e}' | '\u{1c82}' => 0x43e,
        '\u{421}' | '\u{1c83}' => 0x441,
        '\u{422}' | '\u{1c84}' | '\u{1c85}' => 0x442,
        '\u{42a}' | '\u{1c86}' => 0x44a,
        '\u{462}' | '\u{1c87}' => 0x463,
        '\u{1e60}' | '\u{1e9b}' => 0x1e61,
        '\u{a64a}' | '\u{1c88}' => 0xa64b,
        _ => if '\u{13f8}' <= c && c <= '\u{13fd}' {
            c as u32 - 8
        } else if '\u{ab70}' <= c && c <= '\u{abbf}' {
            c as u32 - 0x97d0
        } else {
            c as u32
        },
    }
}

fn latin_variant(c: char) -> (r: bool)
    ensures
        r == is_latin_variant(c),
{
    ('\u{c0}' <= c && c <= '\u{2ae}') || ('\u{363}' <= c && c <= '\u{36f}') || ('\u{1d00}' <= c && c
        <= '\u{1ef9}') || ('\u{2071}' <= c && c <= '\u{2184}') || ('\u{2c62}' <= c && c
        <= '\u{2c7f}') || ('\u{a78d}' <= c && c <= '\u{a7c5}')
}

fn second_form(c: char) -> (r: bool)
    ensures
        r == is_second_form(c),
{
    c == '\u{b5}' || c == '\u{17f}' || c == '\u{345}' || c == '\u{3c2}' || ('\u{3d0}' <= c && c
        <= '\u{3d1}') || ('\u{3d5}' <= c && c <= '\u{3d6}') || ('\u{3f0}' <= c && c <= '\u{3f1}')
        || c == '\u{3f5}' || ('\u{13f8}' <= c && c <= '\u{13fd}') || ('\u{1c80}' <= c && c
        <= '\u{1c88}') || c == '\u{1e9b}' || c == '\u{1fbe}' || ('\u{ab70}' <= c && c <= '\u{abbf}')
}

fn gap(query: &Vec<char>, i: usize) -> (r: bool)
    requires
        i < query@.len(),
    ensures
        r == is_gap(query@, i as int),
{
    query[i] == ' ' && !(i > 0 && query[i - 1] == '\\')
}

/// Does the word that starts at `i` hold a variant of a Latin letter?
fn accented_word(query: &Vec<char>, i: usize) -> (r: bool)
    requires
        i < query@.len(),
    ensures
        r == is_accented_word(query@, i as int),
{
    if i > 0 && !gap(query, i - 1) {
        return false;
    }
    let mut j: usize = i;
    while j < query.len()
        invariant
            i <= j <= query@.len(),
            starts_word(query@, i as int),
            forall|k: int| i <= k < j ==> !#[trigger] is_gap(query@, k),
            forall|k: int| i <= k < j ==> !is_latin_variant(#[trigger] query@[k]),
        decreases query@.len() - j,
    {
        if gap(query, j) {
            assert forall|k: int|
                i <= k < query@.len() && is_latin_variant(#[trigger] query@[k]) implies !in_one_word(
                query@,
                i as int,
                k,
            ) by {
                assert(is_gap(query@, j as int));
            }
            return false;
        }
        if latin_variant(query[j]) {
            assert(in_one_word(query@, i as int, j as int));
            return true;
        }
        j = j + 1;
    }
    false
}

/// Does an accented word of the query start with this letter?
fn starts_accented_word(query: &Vec<char>, letter: u32) -> (r: bool)
    ensures
        r == opens_accented_word(query@, letter),
{
    let mut i: usize = 0;
    while i < query.len()
        invariant
            i <= query@.len(),
            forall|k: int|
                0 <= k < i && folded(#[trigger] query@[k]) == letter ==> !is_accented_word(
                    query@,
                    k,
                ),
        decreases query@.len() - i,
    {
        if fold(query[i]) == letter && accented_word(query, i) {
            assert(folded(query@[i as int]) == letter);
            return true;
        }
        i = i + 1;
    }
    false
}

/// Does the text hold the second form of a letter that an accented word starts with?
fn confusing(query: &Vec<char>, haystack: &Vec<char>) -> (r: bool)
    ensures
        r == is_confusing(query@, haystack@),
{
    let mut i: usize = 0;
    while i < haystack.len()
        invariant
            i <= haystack@.len(),
            forall|k: int|
                0 <= k < i && is_second_form(#[trigger] haystack@[k]) ==> !opens_accented_word(
                    query@,
                    folded(haystack@[k]),
                ),
        decreases haystack@.len() - i,
    {
        if second_form(haystack[i]) && starts_accented_word(query, fold(haystack[i])) {
            assert(is_second_form(haystack@[i as int]));
            return true;
        }
        i = i + 1;
    }
    false
}

/// Can every entry be scored against the query?
pub fn searchable(store: &Store, query: &str) -> (r: bool)
    ensures
        r == is_searchable(store@, query@),
{
    if text::blank(query) || store.connections.len() == 0 {
        return true;
    }
    let wanted = text::to_chars(query);
    let q: usize = wanted.len();
    if q > (u32::MAX / 72) as usize {
        assert(!is_scorable(query@, store@[0].search_text()));
        return false;
    }
    let longest: u64 = measure_words(&wanted);
    let mut i: usize = 0;
    while i < store.connections.len()
        invariant
            i <= store.connections@.len(),
            q == query@.len(),
            72 * q <= u32::MAX,
            longest == longest_word(query@),
            wanted@ == query@,
            !text::is_blank(query@),
            forall|j: int|
                0 <= j < i ==> is_scorable(query@, (#[trigger] store@[j]).search_text()),
        decreases store.connections@.len() - i,
    {
        let haystack = text::to_chars(store.connections[i].search_text().as_str());
        let n: usize = haystack.len();
        assert(store@[i as int].search_text() == haystack@);
        if n > (u32::MAX / 4) as usize || (longest > LONGEST_MATCH as u64 && n > LONGEST_MATCH) {
            return false;
        }
        assert(q * n <= 59_652_323 * 1_073_741_823) by (nonlinear_arith)
            requires
                q <= 59_652_323,
                n <= 1_073_741_823,
        ;
        if 8 * ((q as u64) * (n as u64)) > usize::MAX as u64 {
            return false;
        }
        if confusing(&wanted, &haystack) {
            return false;
        }
        i = i + 1;
    }
    true
}

/// The entries that have a score, highest score first; ties fall back to most recently
/// used.
pub fn rank_matches<'a>(store: &'a Store, scores: &Vec<Option<u32>>) -> (r: Vec<&'a Connection>)
    requires
        scores@.len() == store@.len(),
    ensures
        model::ref_views(r@) == by_score(store@, scores@),
{
    let mut ranks: Vec<Option<Rank>> = Vec::new();
    let ghost expected = score_ranks(store@, scores@);
    let mut i: usize = 0;
    assert(rank::rank_views(ranks@) =~= expected.take(0));
    while i < store.connections.len()
        invariant
            i <= store.connections@.len(),
            scores@.len() == store@.len(),
            expected == score_ranks(store@, scores@),
            rank::rank_views(ranks@) == expected.take(i as int),
        decreases store.connections@.len() - i,
    {
        let last_used = store.connections[i].last_connected_at;
        ranks.push(
            match scores[i] {
                Some(score) => Some(Rank { score, last_used }),
                None => None,
            },
        );
        assert(rank::rank_views(ranks@) =~= expected.take(i + 1));
        i = i + 1;
    }
    assert(expected.take(i as int) =~= expected);
    let order = rank::rank_entries(&ranks);
    store.pick(&order)
}

/// Score every connection against the query; an empty query keeps recency order.
pub fn filter<'a>(store: &'a Store, query: &str) -> (r: Vec<&'a Connection>)
    requires
        is_searchable(store@, query@),
    ensures
        model::ref_views(r@) == matching(store@, query@),
{
    if text::blank(query) {
        return store.sorted_by_recency();
    }
    let mut scores: Vec<Option<u32>> = Vec::new();
    let ghost expected = fuzzy_scores(store@, query@);
    let mut i: usize = 0;
    assert(scores@ =~= expected.take(0));
    while i < store.connections.len()
        invariant
            i <= store.connections@.len(),
            !text::is_blank(query@),
            is_searchable(store@, query@),
            expected == fuzzy_scores(store@, query@),
            scores@ == expected.take(i as int),
        decreases store.connections@.len() - i,
    {
        assert(is_scorable(query@, store@[i as int].search_text()));
        scores.push(score(query, store.connections[i].search_text().as_str()));
        assert(scores@ =~= expected.take(i + 1));
        i = i + 1;
    }
    assert(expected.take(i as int) =~= expected);
    rank_matches(store, &scores)
}

// ---------------------------------------------------------------- ages

/// Coarse "how long ago", for a number of seconds.
pub open spec fn age(secs: int) -> Seq<char> {
    if secs < 60 {
        "just now"@
    } else if secs < 3_600 {
        number::decimal((secs / 60) as nat) + "m"@ + " ago"@
    } else if secs < 86_400 {
        number::decimal((secs / 3_600) as nat) + "h"@ + " ago"@
    } else if secs < 2_592_000 {
        number::decimal((secs / 86_400) as nat) + "d"@ + " ago"@
    } else if secs < 31_536_000 {
        number::decimal((secs / 2_592_000) as nat) + "mo"@ + " ago"@
    } else {
        number::decimal((secs / 31_536_000) as nat) + "y"@ + " ago"@
    }
}

/// How long before `now` something happened at `then`.
pub open spec fn age_at(now: (int, int), then: (int, int)) -> Seq<char> {
    age(time::whole_seconds(time::elapsed_nanos(now, then)))
}

/// Coarse "how long ago", for a number of seconds. A clock that jumped backwards does not
/// render a negative age.
pub fn humanize(secs: i64) -> (r: String)
    ensures
        r@ == age(secs as int),
{
    if secs < 60 {
        return "just now".to_string();
    }
    let s: u64 = secs as u64;
    let (n, unit): (u64, &str) = if s < 3_600 {
        (s / 60, "m")
    } else if s < 86_400 {
        (s / 3_600, "h")
    } else if s < 2_592_000 {
        (s / 86_400, "d")
    } else if s < 31_536_000 {
        (s / 2_592_000, "mo")
    } else {
        (s / 31_536_000, "y")
    };
    text::concat3(number::to_decimal(n as u128).as_str(), unit, " ago")
}

/// How long before `now` something happened at `then`.
pub fn humanize_at(now: &Timestamp, then: &Timestamp) -> (r: String)
    ensures
        r@ == age_at(now@, then@),
{
    humanize(now.seconds_since(then))
}

/// Coarse "how long ago", good enough for a one-line hint.
pub fn humanize_since(ts: &Timestamp) -> (r: String)
    ensures
        exists|now: (int, int)|
            time::valid_instant(now.0, now.1) && now.0 >= 0 && r@ == #[trigger] age_at(now, ts@),
{
    let now = Timestamp::now();
    humanize_at(&now, ts)
}

// ---------------------------------------------------------------- lines

/// `s`, cut down to `max` characters with an ellipsis at the end where it is longer.
pub open spec fn truncated(s: Seq<char>, max: nat) -> Seq<char> {
    if s.len() <= max {
        s
    } else if max == 0 {
        "…"@
    } else {
        s.take(max - 1) + "…"@
    }
}

/// `s`, cut down to `max` characters with an ellipsis at the end where it is longer.
pub fn truncate(s: &str, max: usize) -> (r: String)
    ensures
        r@ == truncated(s@, max as nat),
{
    let v = text::to_chars(s);
    if v.len() <= max {
        return s.to_string();
    }
    let kept: usize = if max == 0 {
        0
    } else {
        max - 1
    };
    let front = text::from_range(&v, 0, kept);
    let r = text::concat2(front.as_str(), "…");
    assert(r@ =~= truncated(s@, max as nat));
    r
}

/// The columns of one line of the list.
#[derive(Debug, PartialEq, Eq)]
pub struct Row {
    pub name: String,
    pub destination: String,
    pub tags: String,
    /// How long ago the connection was last used, if it ever was.
    pub age: Option<String>,
}

/// The mathematical form of a [`Row`].
pub struct RowView {
    pub name: Seq<char>,
    pub destination: Seq<char>,
    pub tags: Seq<char>,
    pub age: Option<Seq<char>>,
}

impl View for Row {
    type V = RowView;

    open spec fn view(&self) -> RowView {
        RowView {
            name: self.name@,
            destination: self.destination@,
            tags: self.tags@,
            age: text::opt_text(self.age),
        }
    }
}

/// `s` as a column of `width` characters.
pub open spec fn column(s: Seq<char>, width: nat) -> Seq<char> {
    text::padded(truncated(s, width), width)
}

/// The line for one entry. The tag column is padded even when empty, so the timestamps
/// after it line up instead of drifting with each row's tag list.
pub open spec fn row_of(c: ConnectionView, now: (int, int)) -> RowView {
    RowView {
        name: column(c.name, 18),
        destination: column(c.destination(), 30),
        tags: column(split::join(c.tags, ","@), 14),
        age: match c.last_connected_at {
            Some(ts) => Some(age_at(now, ts)),
            None => None,
        },
    }
}

fn fit(s: &str, width: usize) -> (r: String)
    ensures
        r@ == column(s@, width as nat),
{
    text::pad(truncate(s, width).as_str(), width)
}

/// The line for one entry, at the time `now`.
pub fn row(conn: &Connection, now: &Timestamp) -> (r: Row)
    ensures
        r@ == row_of(conn@, now@),
{
    Row {
        name: fit(conn.name.as_str(), 18),
        destination: fit(conn.destination().as_str(), 30),
        tags: fit(split::join_texts(&conn.tags, ",").as_str(), 14),
        age: match &conn.last_connected_at {
            Some(ts) => Some(humanize_at(now, ts)),
            None => None,
        },
    }
}

// ---------------------------------------------------------------- the footer

/// A key and what it does.
pub open spec fn hint(key: Seq<char>, label: Seq<char>) -> Seq<char> {
    key + " "@ + label + "   "@
}

/// The number of characters in a line.
pub open spec fn width_of(spans: Seq<Seq<char>>) -> nat
    decreases spans.len(),
{
    if spans.len() == 0 {
        0
    } else {
        width_of(spans.drop_last()) + spans.last().len()
    }
}

/// The key help in full.
pub open spec fn full_hints(saved: nat) -> Seq<Seq<char>> {
    seq![
        "  "@,
        hint("↑↓"@, "move"@),
        hint("enter"@, "connect"@),
        hint("^A"@, "add"@),
        hint("^E"@, "edit"@),
        hint("^D"@, "delete"@),
        hint("esc"@, "close"@),
        number::decimal(saved) + " saved"@,
    ]
}

/// The key help in a shorter wording.
pub open spec fn short_hints() -> Seq<Seq<char>> {
    seq![
        "  "@,
        hint("↑↓"@, "move"@),
        hint("⏎"@, "connect"@),
        hint("^A"@, "add"@),
        hint("^E"@, "edit"@),
        hint("^D"@, "del"@),
        "esc close"@,
    ]
}

/// A key and what it does, with as little space as possible.
pub open spec fn tight_hint(key: Seq<char>, label: Seq<char>) -> Seq<char> {
    key + " "@ + label + " "@
}

/// The key help in the shorter wording, moved together.
pub open spec fn tight_hints() -> Seq<Seq<char>> {
    seq![
        "  "@,
        tight_hint("↑↓"@, "move"@),
        tight_hint("⏎"@, "connect"@),
        tight_hint("^A"@, "add"@),
        tight_hint("^E"@, "edit"@),
        tight_hint("^D"@, "del"@),
        "esc close"@,
    ]
}

/// The key help, in a form that fits the pane it is drawn in.
pub open spec fn hints(width: nat, saved: nat) -> Seq<Seq<char>> {
    if width_of(full_hints(saved)) <= width {
        full_hints(saved)
    } else if width_of(short_hints()) <= width {
        short_hints()
    } else {
        tight_hints()
    }
}

/// A key and what it does.
pub fn key_hint(key: &str, label: &str) -> (r: String)
    ensures
        r@ == hint(key@, label@),
{
    let mut s = text::concat3(key, " ", label);
    s.append("   ");
    s
}

/// A key and what it does, with as little space as possible.
fn tight_key_hint(key: &str, label: &str) -> (r: String)
    ensures
        r@ == tight_hint(key@, label@),
{
    let mut s = text::concat3(key, " ", label);
    s.append(" ");
    s
}

proof fn lemma_width_prefix(spans: Seq<Seq<char>>, k: int)
    requires
        0 <= k <= spans.len(),
    ensures
        width_of(spans.take(k)) <= width_of(spans),
    decreases spans.len(),
{
    if k == spans.len() {
        assert(spans.take(k) =~= spans);
    } else {
        lemma_width_prefix(spans.drop_last(), k);
        assert(spans.drop_last().take(k) =~= spans.take(k));
    }
}

/// The number of characters in a line.
pub fn line_width(spans: &Vec<String>) -> (r: usize)
    requires
        width_of(text::texts(spans@)) <= usize::MAX,
    ensures
        r == width_of(text::texts(spans@)),
{
    let ghost all = text::texts(spans@);
    let mut total: usize = 0;
    let mut i: usize = 0;
    assert(all.take(0) =~= seq![]);
    while i < spans.len()
        invariant
            i <= spans@.len(),
            all == text::texts(spans@),
            total == width_of(all.take(i as int)),
            width_of(all) <= usize::MAX,
        decreases spans@.len() - i,
    {
        proof {
            assert(all.take(i + 1).drop_last() =~= all.take(i as int));
            lemma_width_prefix(all, i + 1);
        }
        total = total + text::char_count(spans[i].as_str());
        i = i + 1;
    }
    assert(all.take(i as int) =~= all);
    total
}

proof fn lemma_hint_len(key: Seq<char>, label: Seq<char>)
    ensures
        hint(key, label).len() == key.len() + label.len() + 4,
{
    reveal_strlit(" ");
    reveal_strlit("   ");
}

proof fn lemma_widths(saved: nat)
    ensures
        width_of(full_hints(saved)) == 77 + number::decimal(saved).len(),
        width_of(short_hints()) == 61,
        width_of(tight_hints()) == 51,
{
    reveal_strlit("  ");
    reveal_strlit("↑↓");
    reveal_strlit("move");
    reveal_strlit("enter");
    reveal_strlit("connect");
    reveal_strlit("^A");
    reveal_strlit("add");
    reveal_strlit("^E");
    reveal_strlit("edit");
    reveal_strlit("^D");
    reveal_strlit("delete");
    reveal_strlit("esc");
    reveal_strlit("close");
    reveal_strlit(" saved");
    reveal_strlit("⏎");
    reveal_strlit("del");
    reveal_strlit("esc close");
    lemma_hint_len("↑↓"@, "move"@);
    lemma_hint_len("enter"@, "connect"@);
    lemma_hint_len("^A"@, "add"@);
    lemma_hint_len("^E"@, "edit"@);
    lemma_hint_len("^D"@, "delete"@);
    lemma_hint_len("esc"@, "close"@);
    lemma_hint_len("⏎"@, "connect"@);
    lemma_hint_len("^D"@, "del"@);
    reveal_strlit(" ");
    reveal_with_fuel(width_of, 9);
}

/// The key help, in a form that fits the pane it is drawn in.
///
/// The picker's popup is a percentage of the terminal, so on a narrow window the full hint
/// line would simply be clipped — and it is the rightmost hints that would vanish. Falling
/// back to a shorter wording, and then moving that together, keeps every key visible instead
/// of silently losing some.
pub fn footer_hints(width: u16, saved: usize) -> (r: Vec<String>)
    ensures
        text::texts(r@) == hints(width as nat, saved as nat),
{
    let mut full: Vec<String> = Vec::new();
    full.push("  ".to_string());
    full.push(key_hint("↑↓", "move"));
    full.push(key_hint("enter", "connect"));
    full.push(key_hint("^A", "add"));
    full.push(key_hint("^E", "edit"));
    full.push(key_hint("^D", "delete"));
    full.push(key_hint("esc", "close"));
    full.push(text::concat2(number::to_decimal(saved as u128).as_str(), " saved"));
    assert(text::texts(full@) =~= full_hints(saved as nat));
    proof {
        lemma_widths(saved as nat);
        number::lemma_decimal_len(saved as nat);
    }
    if line_width(&full) <= width as usize {
        return full;
    }
    let mut short: Vec<String> = Vec::new();
    short.push("  ".to_string());
    short.push(key_hint("↑↓", "move"));
    short.push(key_hint("⏎", "connect"));
    short.push(key_hint("^A", "add"));
    short.push(key_hint("^E", "edit"));
    short.push(key_hint("^D", "del"));
    short.push("esc close".to_string());
    assert(text::texts(short@) =~= short_hints());
    if line_width(&short) <= width as usize {
        return short;
    }
    let mut tight: Vec<String> = Vec::new();
    tight.push("  ".to_string());
    tight.push(tight_key_hint("↑↓", "move"));
    tight.push(tight_key_hint("⏎", "connect"));
    tight.push(tight_key_hint("^A", "add"));
    tight.push(tight_key_hint("^E", "edit"));
    tight.push(tight_key_hint("^D", "del"));
    tight.push("esc close".to_string());
    assert(text::texts(tight@) =~= tight_hints());
    tight
}

// ---------------------------------------------------------------- geometry

/// A part of the screen.
#[derive(Clone, Copy, Debug, PartialEq, Eq, Structural)]
pub struct Area {
    pub x: u16,
    pub y: u16,
    pub width: u16,
    pub height: u16,
}

/// The smaller of two extents.
pub open spec fn at_most(a: u16, b: u16) -> u16 {
    if a <= b {
        a
    } else {
        b
    }
}

/// The middle of `area`, `width` by `height` or as much of that as there is: never more
/// than lies inside the area.
pub fn centered_rect(area: Area, width: u16, height: u16) -> (r: Area)
    requires
        area.x + (area.width - at_most(width, area.width)) / 2 <= u16::MAX,
        area.y + (area.height - at_most(height, area.height)) / 2 <= u16::MAX,
    ensures
        r.width == at_most(width, area.width),
        r.height == at_most(height, area.height),
        r.x == area.x + (area.width - r.width) / 2,
        r.y == area.y + (area.height - r.height) / 2,
        area.x <= r.x && r.x + r.width <= area.x + area.width,
        area.y <= r.y && r.y + r.height <= area.y + area.height,
{
    let width: u16 = if width <= area.width {
        width
    } else {
        area.width
    };
    let height: u16 = if height <= area.height {
        height
    } else {
        area.height
    };
    Area {
        x: area.x + (area.width - width) / 2,
        y: area.y + (area.height - height) / 2,
        width,
        height,
    }
}

// ---------------------------------------------------------------- laws

/// What a query lists are entries that have a score, all of them, a higher score before a
/// lower one and the more recently used first among equals.
pub proof fn law_by_score(all: Seq<ConnectionView>, scores: Seq<Option<u32>>)
    requires
        scores.len() == all.len(),
    ensures
        exists|p: Seq<int>|
            {
                &&& #[trigger] model::picked(all, p) == by_score(all, scores)
                &&& forall|i: int|
                    0 <= i < p.len() ==> 0 <= #[trigger] p[i] < all.len() && scores[p[i]] is Some
                &&& forall|k: int|
                    0 <= k < all.len() && scores[k] is Some ==> #[trigger] p.contains(k)
                &&& forall|i: int, j: int|
                    0 <= i < j < p.len() ==> p[i] != p[j] && scores[#[trigger] p[i]]->0
                        >= scores[#[trigger] p[j]]->0
                &&& forall|i: int, j: int|
                    0 <= i < j < p.len() && scores[#[trigger] p[i]] == scores[#[trigger] p[j]]
                        ==> !rank::more_recent(
                        all[p[j]].last_connected_at,
                        all[p[i]].last_connected_at,
                    )
            },
{
    let ranks = score_ranks(all, scores);
    rank::law_ranking_exists(ranks);
    let p = rank::ranking(ranks);
    assert(model::picked(all, p) == by_score(all, scores));
    assert forall|k: int| 0 <= k < all.len() && scores[k] is Some implies #[trigger] p.contains(
        k,
    ) by {
        assert(ranks[k] is Some);
    }
    assert forall|i: int| 0 <= i < p.len() implies 0 <= #[trigger] p[i] < all.len()
        && scores[p[i]] is Some by {
        assert(ranks[p[i]] is Some);
    }
    assert forall|i: int, j: int| 0 <= i < j < p.len() implies {
        &&& p[i] != p[j]
        &&& scores[#[trigger] p[i]]->0 >= scores[#[trigger] p[j]]->0
        &&& scores[p[i]] == scores[p[j]] ==> !rank::more_recent(
            all[p[j]].last_connected_at,
            all[p[i]].last_connected_at,
        )
    } by {
        assert(rank::precedes(ranks, p[i], p[j]));
    }
}

/// A column is exactly as wide as it should be.
pub proof fn law_columns_line_up(s: Seq<char>, width: nat)
    requires
        width > 0,
    ensures
        column(s, width).len() == width,
{
    reveal_strlit("…");
}

/// The footer fits every pane of 51 columns or more.
pub proof fn law_footer_fits(width: nat, saved: nat)
    requires
        width >= 51,
    ensures
        width_of(hints(width, saved)) <= width,
{
    lemma_widths(saved);
}

/// Does a line name the key?
pub open spec fn names_key(spans: Seq<Seq<char>>, key: Seq<char>) -> bool {
    exists|i: int| 0 <= i < spans.len() && key.is_prefix_of(#[trigger] spans[i])
}

/// The footer names every key, however wide the pane is: those that move through the list,
/// connect, change the list and leave it.
pub proof fn law_footer_names_every_key(width: nat, saved: nat)
    ensures
        names_key(hints(width, saved), "↑↓"@),
        names_key(hints(width, saved), "enter"@) || names_key(hints(width, saved), "⏎"@),
        names_key(hints(width, saved), "^A"@),
        names_key(hints(width, saved), "^E"@),
        names_key(hints(width, saved), "^D"@),
        names_key(hints(width, saved), "esc"@),
{
    reveal_strlit("esc");
    reveal_strlit("esc close");
    let f = full_hints(saved);
    let s = short_hints();
    assert("↑↓"@.is_prefix_of(f[1]) && "enter"@.is_prefix_of(f[2]));
    assert("↑↓"@.is_prefix_of(s[1]) && "⏎"@.is_prefix_of(s[2]));
    let t = tight_hints();
    assert("↑↓"@.is_prefix_of(t[1]) && "⏎"@.is_prefix_of(t[2]));
    assert("^A"@.is_prefix_of(t[3]) && "^E"@.is_prefix_of(t[4]) && "^D"@.is_prefix_of(t[5])
        && "esc"@.is_prefix_of(t[6]));
    assert("^A"@.is_prefix_of(f[3]) && "^E"@.is_prefix_of(f[4]) && "^D"@.is_prefix_of(f[5])
        && "esc"@.is_prefix_of(f[6]));
    assert("^A"@.is_prefix_of(s[3]) && "^E"@.is_prefix_of(s[4]) && "^D"@.is_prefix_of(s[5])
        && "esc"@.is_prefix_of(s[6]));
}

/// A query that is not blank lists the entries that match it, each once and no other, by
/// their scores from high to low. Among equal scores the more recently used comes first, and
/// among those that were used at the same time the one that was saved first.
pub proof fn law_query_lists_matches(all: Seq<ConnectionView>, query: Seq<char>)
    requires
        !text::all_white(query),
    ensures
        exists|p: Seq<int>|
            {
                &&& #[trigger] model::stand_at(matching(all, query), all, p)
                &&& forall|i: int|
                    0 <= i < p.len() ==> fuzzy_score(query, all[#[trigger] p[i]].search_text())
                        is Some
                &&& forall|k: int|
                    0 <= k < all.len() && fuzzy_score(query, all[k].search_text()) is Some
                        ==> #[trigger] p.contains(k)
                &&& forall|i: int, j: int|
                    0 <= i < j < p.len() ==> {
                        let a = all[#[trigger] p[i]];
                        let b = all[#[trigger] p[j]];
                        let x = fuzzy_score(query, a.search_text())->0;
                        let y = fuzzy_score(query, b.search_text())->0;
                        ||| x > y
                        ||| x == y && rank::more_recent(a.last_connected_at, b.last_connected_at)
                        ||| x == y && !rank::more_recent(
                            b.last_connected_at,
                            a.last_connected_at,
                        ) && p[i] < p[j]
                    }
            },
{
    text::law_blank(query);
    let scores = fuzzy_scores(all, query);
    let ranks = score_ranks(all, scores);
    rank::law_ranking_exists(ranks);
    let p = rank::ranking(ranks);
    assert forall|i: int| 0 <= i < p.len() implies 0 <= #[trigger] p[i] < all.len()
        && fuzzy_score(query, all[p[i]].search_text()) is Some by {
        assert(ranks[p[i]] is Some);
    }
    assert forall|k: int|
        0 <= k < all.len() && fuzzy_score(query, all[k].search_text()) is Some implies #[trigger] p.contains(
    k) by {
        assert(ranks[k] is Some);
    }
    assert forall|i: int, j: int| 0 <= i < j < p.len() implies {
        let a = all[#[trigger] p[i]];
        let b = all[#[trigger] p[j]];
        let x = fuzzy_score(query, a.search_text())->0;
        let y = fuzzy_score(query, b.search_text())->0;
        ||| x > y
        ||| x == y && rank::more_recent(a.last_connected_at, b.last_connected_at)
        ||| x == y && !rank::more_recent(b.last_connected_at, a.last_connected_at) && p[i] < p[j]
    } by {
        assert(rank::precedes(ranks, p[i], p[j]));
        assert(ranks[p[i]] is Some && ranks[p[j]] is Some);
    }
    assert(model::stand_at(matching(all, query), all, p));
}

/// Entries that have a score are listed, each once and no other, by their scores from high
/// to low; among equals the more recently used first, and then the one that was saved first.
pub proof fn law_ranked_by_score(all: Seq<ConnectionView>, scores: Seq<Option<u32>>)
    requires
        scores.len() == all.len(),
    ensures
        exists|p: Seq<int>|
            {
                &&& #[trigger] model::stand_at(by_score(all, scores), all, p)
                &&& forall|i: int| 0 <= i < p.len() ==> scores[#[trigger] p[i]] is Some
                &&& forall|k: int|
                    0 <= k < all.len() && scores[k] is Some ==> #[trigger] p.contains(k)
                &&& forall|i: int, j: int|
                    0 <= i < j < p.len() ==> {
                        let a = all[#[trigger] p[i]].last_connected_at;
                        let b = all[#[trigger] p[j]].last_connected_at;
                        let x = scores[p[i]]->0;
                        let y = scores[p[j]]->0;
                        ||| x > y
                        ||| x == y && rank::more_recent(a, b)
                        ||| x == y && !rank::more_recent(b, a) && p[i] < p[j]
                    }
            },
{
    let ranks = score_ranks(all, scores);
    rank::law_ranking_exists(ranks);
    let p = rank::ranking(ranks);
    assert forall|i: int| 0 <= i < p.len() implies 0 <= #[trigger] p[i] < all.len()
        && scores[p[i]] is Some by {
        assert(ranks[p[i]] is Some);
    }
    assert forall|k: int| 0 <= k < all.len() && scores[k] is Some implies #[trigger] p.contains(
        k,
    ) by {
        assert(ranks[k] is Some);
    }
    assert forall|i: int, j: int| 0 <= i < j < p.len() implies {
        let a = all[#[trigger] p[i]].last_connected_at;
        let b = all[#[trigger] p[j]].last_connected_at;
        let x = scores[p[i]]->0;
        let y = scores[p[j]]->0;
        ||| x > y
        ||| x == y && rank::more_recent(a, b)
        ||| x == y && !rank::more_recent(b, a) && p[i] < p[j]
    } by {
        assert(rank::precedes(ranks, p[i], p[j]));
        assert(ranks[p[i]] is Some && ranks[p[j]] is Some);
    }
    assert(model::stand_at(by_score(all, scores), all, p));
}

/// A blank query lists every entry, the most recently used first.
pub proof fn law_blank_query_lists_all(all: Seq<ConnectionView>, query: Seq<char>)
    requires
        text::all_white(query),
    ensures
        matching(all, query) == model::by_recency(all),
        matching(all, query).len() == all.len(),
{
    text::law_blank(query);
    model::law_recency_list(all);
}

/// Ordinary queries can be answered: a blank one always, and one of ASCII characters whose
/// words, or the texts, are not excessively long.
pub proof fn law_ordinary_queries_are_searchable(all: Seq<ConnectionView>, query: Seq<char>)
    requires
        text::all_white(query) || (query.len() <= 1000 && (forall|i: int|
            0 <= i < query.len() ==> #[trigger] query[i] as int <= 127) && (forall|k: int|
            0 <= k < all.len() ==> (#[trigger] all[k]).search_text().len() <= 100_000)),
    ensures
        is_searchable(all, query),
{
    text::law_blank(query);
    if !text::all_white(query) {
        assert forall|k: int| 0 <= k < all.len() implies is_scorable(
            query,
            (#[trigger] all[k]).search_text(),
        ) by {
            let haystack = all[k].search_text();
            lemma_word_bound(query);
            assert(query.len() * haystack.len() <= 1000 * 100_000) by (nonlinear_arith)
                requires
                    query.len() <= 1000,
                    haystack.len() <= 100_000,
            ;
            assert(!is_confusing(query, haystack)) by {
                if is_confusing(query, haystack) {
                    let i = choose|i: int|
                        0 <= i < haystack.len() && is_second_form(#[trigger] haystack[i])
                            && opens_accented_word(query, folded(haystack[i]));
                    let letter = folded(haystack[i]);
                    let j = choose|j: int|
                        0 <= j < query.len() && folded(#[trigger] query[j]) == letter
                            && is_accented_word(query, j);
                    let m = choose|m: int|
                        j <= m < query.len() && is_latin_variant(#[trigger] query[m])
                            && in_one_word(query, j, m);
                    assert(query[m] as int <= 127);
                }
            }
        }
    }
}

proof fn lemma_word_bound(query: Seq<char>)
    ensures
        last_word(query) <= 2 * query.len(),
        longest_word(query) <= 2 * query.len(),
    decreases query.len(),
{
    if query.len() > 0 {
        lemma_word_bound(query.drop_last());
    }
}

/// An age is told in the largest unit of which at least one has passed, and counts the whole
/// ones; what is less than a minute ago, or not yet, is just now.
pub proof fn law_age(secs: int, n: int)
    ensures
        secs < 60 ==> age(secs) == "just now"@,
        1 <= n < 60 && n * 60 <= secs < (n + 1) * 60 ==> age(secs) == number::decimal(n as nat)
            + "m"@ + " ago"@,
        1 <= n < 24 && n * 3_600 <= secs < (n + 1) * 3_600 ==> age(secs) == number::decimal(
            n as nat,
        ) + "h"@ + " ago"@,
        1 <= n < 30 && n * 86_400 <= secs < (n + 1) * 86_400 ==> age(secs) == number::decimal(
            n as nat,
        ) + "d"@ + " ago"@,
        1 <= n && n * 2_592_000 <= secs < (n + 1) * 2_592_000 && secs < 31_536_000 ==> age(secs)
            == number::decimal(n as nat) + "mo"@ + " ago"@,
        1 <= n && n * 31_536_000 <= secs < (n + 1) * 31_536_000 ==> age(secs) == number::decimal(
            n as nat,
        ) + "y"@ + " ago"@,
{
}

/// A text that fits stays as it is; one that does not is cut to the width, with an ellipsis
/// in place of its last character, and what stands in front of that is the text's own front.
pub proof fn law_truncated(s: Seq<char>, max: nat)
    ensures
        s.len() <= max ==> truncated(s, max) == s,
        s.len() > max && max > 0 ==> {
            let t = truncated(s, max);
            &&& t.len() == max
            &&& t.last() == '…'
            &&& t.drop_last() == s.take(max - 1)
        },
{
    reveal_strlit("…");
    if s.len() > max && max > 0 {
        assert(truncated(s, max).drop_last() =~= s.take(max - 1));
    }
}

/// A row shows the name, the destination and the tags of its entry, each in a column of its
/// own from the left and cut where it is too long, and how long ago it was used, if it was.
pub proof fn law_row(c: ConnectionView, now: (int, int))
    ensures
        ({
            let row = row_of(c, now);
            let tags = split::join(c.tags, seq![',']);
            &&& row.name.len() == 18 && row.destination.len() == 30 && row.tags.len() == 14
            &&& c.name.len() <= 18 ==> c.name.is_prefix_of(row.name)
            &&& c.name.len() > 18 ==> row.name == c.name.take(17).push('…')
            &&& c.destination().len() <= 30 ==> c.destination().is_prefix_of(row.destination)
            &&& c.destination().len() > 30 ==> row.destination == c.destination().take(29).push(
                '…',
            )
            &&& tags.len() <= 14 ==> tags.is_prefix_of(row.tags)
            &&& tags.len() > 14 ==> row.tags == tags.take(13).push('…')
            &&& c.last_connected_at is None ==> row.age is None
            &&& c.last_connected_at matches Some(then) ==> row.age == Some(
                age(time::whole_seconds(time::elapsed_nanos(now, then))),
            )
        }),
{
    reveal_strlit(",");
    assert(","@ =~= seq![',']);
    lemma_column(c.name, 18);
    lemma_column(c.destination(), 30);
    lemma_column(split::join(c.tags, ","@), 14);
}

proof fn lemma_column(s: Seq<char>, width: nat)
    requires
        width > 0,
    ensures
        column(s, width).len() == width,
        s.len() <= width ==> s.is_prefix_of(column(s, width)),
        s.len() > width ==> column(s, width) == s.take(width - 1).push('…'),
{
    reveal_strlit("…");
    law_columns_line_up(s, width);
    text::law_padded(s, width);
    if s.len() > width {
        assert(s.take(width - 1) + "…"@ =~= s.take(width - 1).push('…'));
    }
}

/// The footer says in full how many entries there are where there is room for that, and
/// otherwise takes as much room as it can.
pub proof fn law_footer_counts(width: nat, saved: nat)
    ensures
        width >= 77 + number::decimal(saved).len() ==> hints(width, saved).last() == number::decimal(
            saved,
        ) + " saved"@,
        61 <= width < 77 + number::decimal(saved).len() ==> width_of(hints(width, saved)) == 61,
        width < 61 ==> width_of(hints(width, saved)) == 51,
{
    lemma_widths(saved);
    number::lemma_decimal_value(saved);
}

} // verus!
