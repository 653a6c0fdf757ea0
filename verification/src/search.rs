//! Keyword search over tagged stickers, and the ranking of what it finds.
//!
//! A query is split into words. A sticker matches a word if one of its
//! tags contains the word as a substring; the comparison is exact, so
//! upper and lower case differ. Stickers that match at least one word are
//! found. They come out ordered by the number of different words they
//! match, then by popularity, both downwards; stickers that are equal in
//! both keep the order in which they were given. At most as many come out
//! as the caller asked for.

use crate::model::{sticker, tagged_sticker};
use crate::state::State;
use crate::store::{sticker_rows, tag_rows, DataStore};
use crate::text::{chars_of, contains, contains_chars, split_words, words_of};
use vstd::prelude::*;
use vstd::relations::{sorted_by, total_ordering};
use vstd::seq_lib::{lemma_sorted_unique, to_multiset_build, to_multiset_insert};

verus! {

/// How many stickers a search returns where the caller names no number.
pub const DEFAULT_LIMIT: usize = 50;

/// Whether the tag `row` is on the sticker `sticker_id` and contains
/// `word`.
pub open spec fn tag_matches(row: tagged_sticker::Row, sticker_id: i32, word: Seq<char>) -> bool {
    row.sticker_id == sticker_id && contains(row.tag, word)
}

/// Whether the sticker `sticker_id` matches `word`: one of its tags
/// contains it.
pub open spec fn is_match(tags: Seq<tagged_sticker::Row>, sticker_id: i32, word: Seq<char>) -> bool {
    exists|k: int| 0 <= k < tags.len() && tag_matches(#[trigger] tags[k], sticker_id, word)
}

/// The number of different words among `words` that the sticker
/// `sticker_id` matches. A word that the query repeats counts once, and
/// so does a word that several tags contain.
pub open spec fn match_count(
    tags: Seq<tagged_sticker::Row>,
    sticker_id: i32,
    words: Seq<Seq<char>>,
) -> nat
    decreases words.len(),
{
    if words.len() == 0 {
        0
    } else {
        let earlier = words.drop_last();
        let word = words.last();
        let counted = match_count(tags, sticker_id, earlier);
        if is_match(tags, sticker_id, word) && !earlier.contains(word) {
            counted + 1
        } else {
            counted
        }
    }
}

/// What a sticker is ranked by.
pub struct Score {
    /// The number of different words of the query that the sticker
    /// matches.
    pub matched: nat,
    /// The sticker's popularity.
    pub popularity: int,
    /// Where the sticker stands among the stickers that were searched.
    pub position: int,
}

/// Whether a sticker with the score `a` comes strictly before one with the
/// score `b`: it matches more words; or as many, and is more popular; or
/// is equal in both, and stands earlier.
pub open spec fn ranks_before(a: Score, b: Score) -> bool {
    ||| a.matched > b.matched
    ||| a.matched == b.matched && a.popularity > b.popularity
    ||| a.matched == b.matched && a.popularity == b.popularity && a.position < b.position
}

/// The order of a ranking: `ranks_before`, or the same score.
pub open spec fn comes_first() -> spec_fn(Score, Score) -> bool {
    |a: Score, b: Score| a == b || ranks_before(a, b)
}

/// The scores that are found: those of stickers that match a word.
pub open spec fn is_hit() -> spec_fn(Score) -> bool {
    |s: Score| s.matched >= 1
}

/// The score of the sticker at `position`.
pub open spec fn score_at(
    tags: Seq<tagged_sticker::Row>,
    stickers: Seq<sticker::Row>,
    words: Seq<Seq<char>>,
    position: int,
) -> Score {
    Score {
        matched: match_count(tags, stickers[position].id, words),
        popularity: stickers[position].popularity as int,
        position,
    }
}

/// The scores of all stickers, in the order of the stickers.
pub open spec fn scores(
    tags: Seq<tagged_sticker::Row>,
    stickers: Seq<sticker::Row>,
    words: Seq<Seq<char>>,
) -> Seq<Score> {
    Seq::new(stickers.len(), |position: int| score_at(tags, stickers, words, position))
}

/// The scores of the stickers that are found, best first.
pub open spec fn ranking(
    tags: Seq<tagged_sticker::Row>,
    stickers: Seq<sticker::Row>,
    words: Seq<Seq<char>>,
) -> Seq<Score> {
    scores(tags, stickers, words).filter(is_hit()).sort_by(comes_first())
}

/// What a search hands out for a score: the sticker's identifier, and what
/// the platform needs to send the sticker.
pub open spec fn entry_of(stickers: Seq<sticker::Row>) -> spec_fn(Score) -> (i32, Seq<char>) {
    |s: Score| (stickers[s.position].id, stickers[s.position].file_id)
}

/// What a search for `words` finds among `stickers` with the tags `tags`:
/// the first `limit` stickers of the ranking, or all where there are
/// fewer.
pub open spec fn found(
    tags: Seq<tagged_sticker::Row>,
    stickers: Seq<sticker::Row>,
    words: Seq<Seq<char>>,
    limit: nat,
) -> Seq<(i32, Seq<char>)> {
    let ranked = ranking(tags, stickers, words);
    let n = if limit <= ranked.len() {
        limit
    } else {
        ranked.len()
    };
    ranked.take(n as int).map_values(entry_of(stickers))
}

impl State {
    /// What a search for `raw_query` returns, cut at `limit` stickers.
    pub open spec fn search(self, raw_query: Seq<char>, limit: nat) -> Seq<(i32, Seq<char>)> {
        found(self.tags, self.stickers, words_of(raw_query), limit)
    }
}

/// The order of a ranking is total: any two scores compare, and only the
/// same score compares both ways.
pub proof fn lemma_comes_first_total()
    ensures
        total_ordering(comes_first()),
{
    let r = comes_first();
    assert forall|x: Score| #[trigger] r(x, x) by {}
    assert forall|x: Score, y: Score| #[trigger] r(x, y) && #[trigger] r(y, x) implies x == y by {}
    assert forall|x: Score, y: Score, z: Score| #[trigger] r(x, y) && #[trigger] r(y, z) implies r(
        x,
        z,
    ) by {}
    assert forall|x: Score, y: Score| #[trigger] r(x, y) || #[trigger] r(y, x) by {
        if !(r(x, y) || r(y, x)) {
            assert(x.matched == y.matched && x.popularity == y.popularity && x.position
                == y.position);
        }
    }
    assert(vstd::relations::reflexive(r));
    assert(vstd::relations::antisymmetric(r));
    assert(vstd::relations::transitive(r));
    assert(vstd::relations::strongly_connected(r));
}

/// A found sticker while it is being ranked.
#[derive(Clone, Copy)]
struct Hit {
    matched: usize,
    popularity: i64,
    position: usize,
}

impl View for Hit {
    type V = Score;

    closed spec fn view(&self) -> Score {
        Score {
            matched: self.matched as nat,
            popularity: self.popularity as int,
            position: self.position as int,
        }
    }
}

/// The scores of hits.
spec fn hit_scores(hits: Seq<Hit>) -> Seq<Score> {
    hits.map_values(|h: Hit| h@)
}

/// The views of words held as characters.
spec fn word_views(words: Seq<Vec<char>>) -> Seq<Seq<char>> {
    words.map_values(|w: Vec<char>| w@)
}

/// The view of what a search returns.
pub open spec fn entries_view(entries: Seq<(i32, String)>) -> Seq<(i32, Seq<char>)> {
    entries.map_values(|e: (i32, String)| (e.0, e.1@))
}

/// Tests whether two texts are the same.
fn same_chars(a: &Vec<char>, b: &Vec<char>) -> (same: bool)
    ensures
        same == (a@ == b@),
{
    if a.len() != b.len() {
        return false;
    }
    let mut i: usize = 0;
    while i < a.len()
        invariant
            a.len() == b.len(),
            i <= a.len(),
            forall|j: int| 0 <= j < i ==> a[j] == b[j],
        decreases a.len() - i,
    {
        if a[i] != b[i] {
            return false;
        }
        i += 1;
    }
    assert(a@ =~= b@);
    true
}

/// Tests whether the word at `t` stands among the words before it.
fn seen_earlier(words: &Vec<Vec<char>>, t: usize) -> (seen: bool)
    requires
        t < words.len(),
    ensures
        seen == word_views(words@).take(t as int).contains(words[t as int]@),
{
    let ghost earlier = word_views(words@).take(t as int);
    let mut j: usize = 0;
    while j < t
        invariant
            j <= t,
            t < words.len(),
            earlier == word_views(words@).take(t as int),
            forall|k: int| 0 <= k < j ==> earlier[k] != words[t as int]@,
        decreases t - j,
    {
        if same_chars(&words[j], &words[t]) {
            assert(earlier[j as int] == words[t as int]@);
            return true;
        }
        j += 1;
    }
    false
}

/// For each word, whether it stands for the first time: words that the
/// query repeats are counted where they stand first.
fn first_places(words: &Vec<Vec<char>>) -> (first: Vec<bool>)
    ensures
        first.len() == words.len(),
        forall|t: int|
            0 <= t < words.len() ==> #[trigger] first[t] == !word_views(words@).take(t).contains(
                words[t]@,
            ),
{
    let mut first: Vec<bool> = Vec::new();
    let mut t: usize = 0;
    while t < words.len()
        invariant
            t <= words.len(),
            first.len() == t,
            forall|j: int|
                0 <= j < t ==> #[trigger] first[j] == !word_views(words@).take(j).contains(
                    words[j]@,
                ),
        decreases words.len() - t,
    {
        first.push(!seen_earlier(words, t));
        t += 1;
    }
    first
}

/// A match: the sticker matches the word at this place.
type Match = (i32, usize);

/// Whether `found` are matches, and hold every match of one of the first
/// `done` tags with a word that stands for the first time.
spec fn are_matches(
    found: Seq<Match>,
    tags: Seq<tagged_sticker::Row>,
    words: Seq<Seq<char>>,
    first: Seq<bool>,
    done: int,
) -> bool {
    &&& forall|j: int|
        0 <= j < found.len() ==> (#[trigger] found[j]).1 < words.len() && is_match(
            tags,
            found[j].0,
            words[found[j].1 as int],
        )
    &&& forall|k: int, t: int|
        0 <= k < done && 0 <= t < words.len() && first[t] && contains(
            (#[trigger] tags[k]).tag,
            #[trigger] words[t],
        ) ==> found.contains((tags[k].sticker_id, t as usize))
}

/// Finds the matches of tags with words that stand for the first time.
fn all_matches(tags: &Vec<tagged_sticker::Model>, words: &Vec<Vec<char>>, first: &Vec<bool>) -> (found:
    Vec<Match>)
    requires
        first.len() == words.len(),
    ensures
        are_matches(found@, tag_rows(tags@), word_views(words@), first@, tags.len() as int),
{
    let ghost rows = tag_rows(tags@);
    let ghost wanted = word_views(words@);
    let mut found: Vec<Match> = Vec::new();
    let mut k: usize = 0;
    while k < tags.len()
        invariant
            k <= tags.len(),
            first.len() == words.len(),
            rows == tag_rows(tags@),
            wanted == word_views(words@),
            are_matches(found@, rows, wanted, first@, k as int),
        decreases tags.len() - k,
    {
        let tag = chars_of(tags[k].tag.as_str());
        let sticker_id = tags[k].sticker_id;
        let ghost before = found@;
        let mut t: usize = 0;
        while t < words.len()
            invariant
                t <= words.len(),
                k < tags.len(),
                first.len() == words.len(),
                rows == tag_rows(tags@),
                wanted == word_views(words@),
                tag@ == rows[k as int].tag,
                sticker_id == rows[k as int].sticker_id,
                are_matches(found@, rows, wanted, first@, k as int),
                forall|u: int|
                    0 <= u < t && first[u] && contains(tag@, #[trigger] wanted[u])
                        ==> found@.contains((sticker_id, u as usize)),
            decreases words.len() - t,
        {
            if first[t] && contains_chars(&tag, &words[t]) {
                let ghost old_found = found@;
                found.push((sticker_id, t));
                proof {
                    assert(tag_matches(rows[k as int], sticker_id, wanted[t as int]));
                    assert(is_match(rows, sticker_id, wanted[t as int]));
                    assert(found@[old_found.len() as int] == (sticker_id, t));
                    assert forall|x: Match| old_found.contains(x) implies found@.contains(x) by {
                        let j = choose|j: int| 0 <= j < old_found.len() && old_found[j] == x;
                        assert(found@[j] == x);
                    }
                    assert forall|j: int| 0 <= j < found@.len() implies (#[trigger] found@[j]).1
                        < wanted.len() && is_match(rows, found@[j].0, wanted[found@[j].1 as int]) by {
                        if j < old_found.len() {
                            assert(found@[j] == old_found[j]);
                        }
                    }
                }
            }
            t += 1;
        }
        proof {
            assert forall|a: int, u: int|
                0 <= a < k + 1 && 0 <= u < wanted.len() && first[u] && contains(
                    (#[trigger] rows[a]).tag,
                    #[trigger] wanted[u],
                ) implies found@.contains((rows[a].sticker_id, u as usize)) by {
                if a == k {
                    assert(found@.contains((sticker_id, u as usize)));
                }
            }
        }
        k += 1;
    }
    found
}

/// Tests whether a match has been found.
fn is_found(found: &Vec<Match>, sticker_id: i32, t: usize) -> (b: bool)
    ensures
        b == found@.contains((sticker_id, t)),
{
    let mut j: usize = 0;
    while j < found.len()
        invariant
            j <= found.len(),
            forall|i: int| 0 <= i < j ==> found[i] != (sticker_id, t),
        decreases found.len() - j,
    {
        if found[j].0 == sticker_id && found[j].1 == t {
            return true;
        }
        j += 1;
    }
    false
}

/// Counts the different words that a sticker matches.
fn count_matches(
    sticker_id: i32,
    words: &Vec<Vec<char>>,
    first: &Vec<bool>,
    found: &Vec<Match>,
    Ghost(tags): Ghost<Seq<tagged_sticker::Row>>,
) -> (n: usize)
    requires
        first.len() == words.len(),
        forall|t: int|
            0 <= t < words.len() ==> #[trigger] first[t] == !word_views(words@).take(t).contains(
                words[t]@,
            ),
        are_matches(found@, tags, word_views(words@), first@, tags.len() as int),
    ensures
        n == match_count(tags, sticker_id, word_views(words@)),
{
    let ghost all = word_views(words@);
    let mut n: usize = 0;
    let mut t: usize = 0;
    while t < words.len()
        invariant
            t <= words.len(),
            n <= t,
            first.len() == words.len(),
            all == word_views(words@),
            forall|u: int|
                0 <= u < words.len() ==> #[trigger] first[u] == !all.take(u).contains(words[u]@),
            are_matches(found@, tags, all, first@, tags.len() as int),
            n == match_count(tags, sticker_id, all.take(t as int)),
        decreases words.len() - t,
    {
        proof {
            assert(all.take(t + 1).drop_last() =~= all.take(t as int));
            assert(all.take(t + 1).last() == words[t as int]@);
            assert(all[t as int] == words[t as int]@);
        }
        if first[t] {
            let counted = is_found(found, sticker_id, t);
            proof {
                if counted {
                    let j = choose|j: int|
                        0 <= j < found@.len() && found@[j] == (sticker_id, t);
                    assert(is_match(tags, found@[j].0, all[found@[j].1 as int]));
                } else if is_match(tags, sticker_id, all[t as int]) {
                    let k = choose|k: int|
                        0 <= k < tags.len() && tag_matches(
                            #[trigger] tags[k],
                            sticker_id,
                            all[t as int],
                        );
                    assert(contains(tags[k].tag, all[t as int]));
                    assert(found@.contains((tags[k].sticker_id, t)));
                }
            }
            if counted {
                n += 1;
            }
        }
        t += 1;
    }
    assert(all.take(words.len() as int) =~= all);
    n
}

/// Tests whether one hit comes strictly before another.
fn hit_before(a: &Hit, b: &Hit) -> (before: bool)
    ensures
        before == ranks_before(a@, b@),
{
    a.matched > b.matched || (a.matched == b.matched && (a.popularity > b.popularity || (
    a.popularity == b.popularity && a.position < b.position)))
}

/// Where a new hit belongs in a ranking: before the first hit that it
/// comes strictly before.
fn place_of(hits: &Vec<Hit>, hit: &Hit) -> (at: usize)
    requires
        sorted_by(hit_scores(hits@), comes_first()),
    ensures
        at <= hits.len(),
        sorted_by(hit_scores(hits@).insert(at as int, hit@), comes_first()),
{
    let ghost ranked = hit_scores(hits@);
    let mut at: usize = 0;
    while at < hits.len() && !hit_before(hit, &hits[at])
        invariant
            at <= hits.len(),
            ranked == hit_scores(hits@),
            forall|j: int| 0 <= j < at ==> comes_first()(#[trigger] ranked[j], hit@),
        decreases hits.len() - at,
    {
        proof {
            lemma_comes_first_total();
            assert(comes_first()(ranked[at as int], hit@) || comes_first()(hit@, ranked[at as int]));
        }
        at += 1;
    }
    proof {
        lemma_comes_first_total();
        let grown = ranked.insert(at as int, hit@);
        assert forall|i: int, j: int| 0 <= i < j < grown.len() implies #[trigger] comes_first()(
            grown[i],
            grown[j],
        ) by {
            if j < at {
                assert(comes_first()(ranked[i], ranked[j]));
            } else if j == at {
                assert(comes_first()(ranked[i], hit@));
            } else if i == at {
                assert(comes_first()(hit@, ranked[at as int]));
                if j - 1 > at {
                    assert(comes_first()(ranked[at as int], ranked[j - 1]));
                }
            } else if i < at {
                assert(comes_first()(ranked[i], ranked[j - 1]));
            } else {
                assert(comes_first()(ranked[i - 1], ranked[j - 1]));
            }
        }
    }
    at
}

/// Searches `stickers`, tagged with `tags`, for `words`, and returns of at
/// most `limit` stickers the identifier, and what the platform needs to
/// send the sticker, best first.
pub fn search_in(
    words: &Vec<String>,
    tags: &Vec<tagged_sticker::Model>,
    stickers: &Vec<sticker::Model>,
    limit: usize,
) -> (out: Vec<(i32, String)>)
    ensures
        entries_view(out@) == found(
            tag_rows(tags@),
            sticker_rows(stickers@),
            words.deep_view(),
            limit as nat,
        ),
{
    let ghost rows = tag_rows(tags@);
    let ghost srows = sticker_rows(stickers@);
    let ghost wanted = words.deep_view();
    let mut word_chars: Vec<Vec<char>> = Vec::new();
    let mut w: usize = 0;
    while w < words.len()
        invariant
            w <= words.len(),
            word_chars.len() == w,
            forall|k: int| 0 <= k < w ==> (#[trigger] word_chars[k])@ == words[k]@,
        decreases words.len() - w,
    {
        word_chars.push(chars_of(words[w].as_str()));
        w += 1;
    }
    assert(word_views(word_chars@) =~= wanted);
    let first = first_places(&word_chars);
    let matches = all_matches(tags, &word_chars, &first);
    let ghost all = scores(rows, srows, wanted);
    let mut hits: Vec<Hit> = Vec::new();
    let mut p: usize = 0;
    proof {
        reveal(Seq::filter);
        assert(all.take(0) =~= Seq::empty());
        assert(hit_scores(hits@) =~= Seq::empty());
    }
    while p < stickers.len()
        invariant
            p <= stickers.len(),
            first.len() == word_chars.len(),
            forall|t: int|
                0 <= t < word_chars.len() ==> #[trigger] first[t] == !word_views(
                    word_chars@,
                ).take(t).contains(word_chars[t]@),
            are_matches(matches@, rows, word_views(word_chars@), first@, rows.len() as int),
            word_views(word_chars@) == wanted,
            rows == tag_rows(tags@),
            srows == sticker_rows(stickers@),
            all == scores(rows, srows, wanted),
            sorted_by(hit_scores(hits@), comes_first()),
            hit_scores(hits@).to_multiset() == all.take(p as int).filter(is_hit()).to_multiset(),
            forall|k: int| 0 <= k < hits.len() ==> (#[trigger] hits[k]).position < stickers.len(),
        decreases stickers.len() - p,
    {
        let matched = count_matches(stickers[p].id, &word_chars, &first, &matches, Ghost(rows));
        let hit = Hit { matched, popularity: stickers[p].popularity, position: p };
        let ghost ranked = hit_scores(hits@);
        proof {
            assert(hit@ == all[p as int]);
            assert(all.take(p + 1) =~= all.take(p as int).push(all[p as int]));
            all.take(p as int).lemma_filter_push(all[p as int], is_hit());
        }
        if matched >= 1 {
            let at = place_of(&hits, &hit);
            hits.insert(at, hit);
            proof {
                assert(hit_scores(hits@) =~= ranked.insert(at as int, hit@));
                to_multiset_insert(ranked, at as int, hit@);
                to_multiset_build(all.take(p as int).filter(is_hit()), hit@);
            }
        }
        p += 1;
    }
    let ghost ranked = hit_scores(hits@);
    proof {
        assert(all.take(stickers.len() as int) =~= all);
        lemma_comes_first_total();
        all.filter(is_hit()).lemma_sort_by_ensures(comes_first());
        lemma_sorted_unique(ranked, ranking(rows, srows, wanted), comes_first());
        assert(ranked == ranking(rows, srows, wanted));
    }
    let n = if limit <= hits.len() {
        limit
    } else {
        hits.len()
    };
    let mut out: Vec<(i32, String)> = Vec::new();
    let mut k: usize = 0;
    proof {
        assert(entries_view(out@) =~= ranked.take(0).map_values(entry_of(srows)));
    }
    while k < n
        invariant
            k <= n,
            n <= hits.len(),
            ranked == hit_scores(hits@),
            srows == sticker_rows(stickers@),
            forall|j: int| 0 <= j < hits.len() ==> (#[trigger] hits[j]).position < stickers.len(),
            entries_view(out@) == ranked.take(k as int).map_values(entry_of(srows)),
        decreases n - k,
    {
        let position = hits[k].position;
        let entry = (stickers[position].id, stickers[position].file_id.clone());
        proof {
            assert(entries_view(out@.push(entry)) =~= entries_view(out@).push((entry.0, entry.1@)));
            assert(ranked.take(k + 1) =~= ranked.take(k as int).push(ranked[k as int]));
            assert(ranked.take(k + 1).map_values(entry_of(srows)) =~= ranked.take(
                k as int,
            ).map_values(entry_of(srows)).push(entry_of(srows)(ranked[k as int])));
        }
        out.push(entry);
        k += 1;
    }
    out
}

impl DataStore {
    /// Searches for the stickers whose tags contain words of `raw_query`,
    /// and returns of at most `limit` of them the identifier, and what the
    /// platform needs to send the sticker, best first. A query without a
    /// word finds nothing. Nothing is changed.
    pub fn search_with_limit(&self, raw_query: &str, limit: usize) -> (out: Vec<(i32, String)>)
        ensures
            entries_view(out@) == self@.search(raw_query@, limit as nat),
    {
        let words = split_words(raw_query);
        search_in(&words, self.tags(), self.stickers(), limit)
    }

    /// Searches for the stickers whose tags contain words of `raw_query`,
    /// and returns of at most [`DEFAULT_LIMIT`] of them the identifier,
    /// and what the platform needs to send the sticker, best first.
    pub fn search(&self, raw_query: &str) -> (out: Vec<(i32, String)>)
        ensures
            entries_view(out@) == self@.search(raw_query@, DEFAULT_LIMIT as nat),
    {
        self.search_with_limit(raw_query, DEFAULT_LIMIT)
    }
}

} // verus!
