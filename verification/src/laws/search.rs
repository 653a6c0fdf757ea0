//! What a search finds, and in which order.

use crate::laws::tagging::{law_tagging_stores_each_word, law_untag_spares_others};
use crate::model::{sticker, tagged_sticker};
use crate::search::{
    comes_first, found, is_hit, is_match, lemma_comes_first_total, match_count, ranking,
    ranks_before, score_at, scores, tag_matches, Score,
};
use crate::state::{is_removed, State};
use crate::text::{contains, is_blank, lemma_words_of, occurs_at, words_of};
use vstd::prelude::*;
use vstd::relations::sorted_by;
use vstd::seq_lib::{to_multiset_contains, to_multiset_len};

verus! {

/// A sticker matches at least one of the words exactly if it matches one
/// of them.
pub proof fn lemma_match_count_positive(
    tags: Seq<tagged_sticker::Row>,
    sticker_id: i32,
    words: Seq<Seq<char>>,
)
    ensures
        match_count(tags, sticker_id, words) >= 1 <==> exists|k: int|
            0 <= k < words.len() && is_match(tags, sticker_id, #[trigger] words[k]),
    decreases words.len(),
{
    if words.len() > 0 {
        let earlier = words.drop_last();
        let word = words.last();
        lemma_match_count_positive(tags, sticker_id, earlier);
        if match_count(tags, sticker_id, earlier) >= 1 {
            let k = choose|k: int|
                0 <= k < earlier.len() && is_match(tags, sticker_id, #[trigger] earlier[k]);
            assert(is_match(tags, sticker_id, words[k]));
        } else {
            if is_match(tags, sticker_id, word) {
                if earlier.contains(word) {
                    let j = choose|j: int| 0 <= j < earlier.len() && earlier[j] == word;
                    assert(is_match(tags, sticker_id, earlier[j]));
                }
                assert(is_match(tags, sticker_id, words[words.len() - 1]));
            } else {
                if exists|k: int|
                    0 <= k < words.len() && is_match(tags, sticker_id, #[trigger] words[k]) {
                    let k = choose|k: int|
                        0 <= k < words.len() && is_match(tags, sticker_id, #[trigger] words[k]);
                    assert(k < earlier.len());
                    assert(is_match(tags, sticker_id, earlier[k]));
                }
            }
        }
    }
}

/// What a filter lets through was there before, and passes the filter.
proof fn lemma_filter_scores(all: Seq<Score>, keep: spec_fn(Score) -> bool)
    ensures
        forall|k: int|
            0 <= k < all.filter(keep).len() ==> all.contains(#[trigger] all.filter(keep)[k])
                && keep(all.filter(keep)[k]),
        all.no_duplicates() ==> all.filter(keep).no_duplicates(),
    decreases all.len(),
{
    reveal(Seq::filter);
    if all.len() > 0 {
        let init = all.drop_last();
        lemma_filter_scores(init, keep);
        let kept = all.filter(keep);
        let before = init.filter(keep);
        assert forall|k: int| 0 <= k < kept.len() implies all.contains(#[trigger] kept[k]) && keep(
            kept[k],
        ) by {
            if k < before.len() {
                let a = choose|a: int| 0 <= a < init.len() && init[a] == before[k];
                assert(all[a] == kept[k]);
            } else {
                assert(all[all.len() - 1] == kept[k]);
            }
        }
        if all.no_duplicates() {
            assert(init.no_duplicates());
            assert forall|i: int, j: int| 0 <= i < kept.len() && 0 <= j < kept.len() && i
                != j implies kept[i] != kept[j] by {
                if i < before.len() && j < before.len() {
                } else {
                    let low = if i < j {
                        i
                    } else {
                        j
                    };
                    let a = choose|a: int| 0 <= a < init.len() && init[a] == before[low];
                    assert(all[a] != all[all.len() - 1]);
                }
            }
        }
    }
}

/// The ranking holds the score of every sticker that matches a word of
/// the query, once, and no other score; and it is in order: of any two
/// scores in it, the one that ranks before the other stands before it.
pub proof fn law_ranking(
    tags: Seq<tagged_sticker::Row>,
    stickers: Seq<sticker::Row>,
    words: Seq<Seq<char>>,
)
    ensures
        ({
            let ranked = ranking(tags, stickers, words);
            &&& sorted_by(ranked, comes_first())
            &&& ranked.no_duplicates()
            &&& ranked.len() <= stickers.len()
            &&& forall|k: int|
                0 <= k < ranked.len() ==> {
                    &&& 0 <= (#[trigger] ranked[k]).position < stickers.len()
                    &&& ranked[k] == score_at(tags, stickers, words, ranked[k].position)
                    &&& ranked[k].matched >= 1
                }
            &&& forall|p: int|
                0 <= p < stickers.len() ==> (ranked.contains(
                    #[trigger] score_at(tags, stickers, words, p),
                ) <==> match_count(tags, stickers[p].id, words) >= 1)
            &&& forall|i: int, j: int|
                0 <= i < ranked.len() && 0 <= j < ranked.len() && ranks_before(
                    #[trigger] ranked[i],
                    #[trigger] ranked[j],
                ) ==> i < j
        }),
{
    let all = scores(tags, stickers, words);
    let hits = all.filter(is_hit());
    let ranked = ranking(tags, stickers, words);
    lemma_comes_first_total();
    hits.lemma_sort_by_ensures(comes_first());
    lemma_filter_scores(all, is_hit());
    all.lemma_filter_len(is_hit());
    to_multiset_len(hits);
    to_multiset_len(ranked);
    assert(all.no_duplicates()) by {
        assert forall|i: int, j: int| 0 <= i < all.len() && 0 <= j < all.len() && i
            != j implies all[i] != all[j] by {
            assert(all[i].position == i && all[j].position == j);
        }
    }
    hits.lemma_multiset_has_no_duplicates();
    ranked.lemma_multiset_has_no_duplicates_conv();
    assert forall|x: Score| ranked.contains(x) <==> hits.contains(x) by {
        to_multiset_contains(ranked, x);
        to_multiset_contains(hits, x);
    }
    assert forall|k: int| 0 <= k < ranked.len() implies {
        &&& 0 <= (#[trigger] ranked[k]).position < stickers.len()
        &&& ranked[k] == score_at(tags, stickers, words, ranked[k].position)
        &&& ranked[k].matched >= 1
    } by {
        assert(ranked.contains(ranked[k]));
        let h = choose|h: int| 0 <= h < hits.len() && hits[h] == ranked[k];
        assert(all.contains(hits[h]));
        let p = choose|p: int| 0 <= p < all.len() && all[p] == hits[h];
        assert(all[p] == score_at(tags, stickers, words, p));
    }
    assert forall|p: int| 0 <= p < stickers.len() implies (ranked.contains(
        #[trigger] score_at(tags, stickers, words, p),
    ) <==> match_count(tags, stickers[p].id, words) >= 1) by {
        let x = score_at(tags, stickers, words, p);
        assert(all[p] == x);
        if x.matched >= 1 {
            all.lemma_filter_contains(is_hit(), p);
        }
        if hits.contains(x) {
            let h = choose|h: int| 0 <= h < hits.len() && hits[h] == x;
            assert(is_hit()(hits[h]));
        }
    }
    assert forall|i: int, j: int|
        0 <= i < ranked.len() && 0 <= j < ranked.len() && ranks_before(
            #[trigger] ranked[i],
            #[trigger] ranked[j],
        ) implies i < j by {
        if j < i {
            assert(comes_first()(ranked[j], ranked[i]));
        }
    }
}

/// A search returns the first stickers of the ranking: as many as were
/// asked for, or all of them where there are fewer; of each its
/// identifier and what the platform needs to send it.
pub proof fn law_found(
    tags: Seq<tagged_sticker::Row>,
    stickers: Seq<sticker::Row>,
    words: Seq<Seq<char>>,
    limit: nat,
)
    ensures
        ({
            let ranked = ranking(tags, stickers, words);
            let out = found(tags, stickers, words, limit);
            &&& out.len() <= limit
            &&& out.len() == if limit <= ranked.len() {
                limit
            } else {
                ranked.len()
            }
            &&& forall|k: int|
                0 <= k < out.len() ==> #[trigger] out[k] == (
                    stickers[ranked[k].position].id,
                    stickers[ranked[k].position].file_id,
                )
        }),
{
}

/// A query without a word, be it empty or all white space, finds
/// nothing.
pub proof fn law_blank_query_finds_nothing(s: State, raw_query: Seq<char>, limit: nat)
    requires
        is_blank(raw_query),
    ensures
        s.search(raw_query, limit) == Seq::<(i32, Seq<char>)>::empty(),
{
    lemma_words_of(raw_query);
    let words = words_of(raw_query);
    law_ranking(s.tags, s.stickers, words);
    let ranked = ranking(s.tags, s.stickers, words);
    if ranked.len() > 0 {
        assert(ranked[0].matched >= 1);
    }
    assert(s.search(raw_query, limit) =~= Seq::<(i32, Seq<char>)>::empty());
}

/// Every text contains itself.
pub proof fn lemma_contains_itself(text: Seq<char>)
    ensures
        contains(text, text),
{
    assert(text.subrange(0, text.len() as int) =~= text);
    assert(occurs_at(text, text, 0));
}

/// A sticker that has just been tagged is found by every query that
/// holds a word which one of the new tags contains. It is in the
/// ranking, and in the result of a search that is not cut short.
pub proof fn law_tagged_sticker_is_found(
    s: State,
    caller: i64,
    file_unique_id: Seq<char>,
    file_id: Seq<char>,
    set_name: Option<Seq<char>>,
    raw_text: Seq<char>,
    now: i64,
    raw_query: Seq<char>,
    limit: nat,
)
    requires
        s.wf(),
        s.tag_at(caller, file_unique_id, file_id, set_name, raw_text, now).1 is Ok,
        exists|i: int, j: int|
            0 <= i < words_of(raw_text).len() && 0 <= j < words_of(raw_query).len() && contains(
                #[trigger] words_of(raw_text)[i],
                #[trigger] words_of(raw_query)[j],
            ),
    ensures
        ({
            let t = s.tag_at(caller, file_unique_id, file_id, set_name, raw_text, now).0;
            let known = t.sticker(file_unique_id)->0;
            &&& t.sticker(file_unique_id) is Some
            &&& match_count(t.tags, known.id, words_of(raw_query)) >= 1
            &&& limit >= t.stickers.len() ==> t.search(raw_query, limit).contains(
                (known.id, known.file_id),
            )
        }),
{
    let t = s.tag_at(caller, file_unique_id, file_id, set_name, raw_text, now).0;
    let tagged = words_of(raw_text);
    let asked = words_of(raw_query);
    law_tagging_stores_each_word(s, caller, file_unique_id, file_id, set_name, raw_text, now);
    let known = t.sticker(file_unique_id)->0;
    let (i, j) = choose|i: int, j: int|
        0 <= i < tagged.len() && 0 <= j < asked.len() && contains(
            #[trigger] tagged[i],
            #[trigger] asked[j],
        );
    let row = t.tags[s.tags.len() + i];
    assert(tag_matches(row, known.id, asked[j]));
    assert(is_match(t.tags, known.id, asked[j]));
    lemma_match_count_positive(t.tags, known.id, asked);
    let p = choose|p: int| t.sticker_at(p, file_unique_id);
    law_ranking(t.tags, t.stickers, asked);
    law_found(t.tags, t.stickers, asked, limit);
    let ranked = ranking(t.tags, t.stickers, asked);
    let x = score_at(t.tags, t.stickers, asked, p);
    assert(ranked.contains(x));
    if limit >= t.stickers.len() {
        let k = choose|k: int| 0 <= k < ranked.len() && ranked[k] == x;
        let out = t.search(raw_query, limit);
        assert(out[k] == (known.id, known.file_id));
    }
}

/// A sticker that has just been tagged is found by every query that
/// repeats one of the words it was tagged with.
pub proof fn law_tagged_sticker_is_found_by_its_tags(
    s: State,
    caller: i64,
    file_unique_id: Seq<char>,
    file_id: Seq<char>,
    set_name: Option<Seq<char>>,
    raw_text: Seq<char>,
    now: i64,
    raw_query: Seq<char>,
    limit: nat,
)
    requires
        s.wf(),
        s.tag_at(caller, file_unique_id, file_id, set_name, raw_text, now).1 is Ok,
        exists|i: int, j: int|
            0 <= i < words_of(raw_text).len() && 0 <= j < words_of(raw_query).len()
                && #[trigger] words_of(raw_text)[i] == #[trigger] words_of(raw_query)[j],
    ensures
        ({
            let t = s.tag_at(caller, file_unique_id, file_id, set_name, raw_text, now).0;
            let known = t.sticker(file_unique_id)->0;
            &&& t.sticker(file_unique_id) is Some
            &&& limit >= t.stickers.len() ==> t.search(raw_query, limit).contains(
                (known.id, known.file_id),
            )
        }),
{
    let tagged = words_of(raw_text);
    let asked = words_of(raw_query);
    let (i, j) = choose|i: int, j: int|
        0 <= i < tagged.len() && 0 <= j < asked.len() && #[trigger] tagged[i]
            == #[trigger] asked[j];
    lemma_contains_itself(tagged[i]);
    assert(contains(tagged[i], asked[j]));
    law_tagged_sticker_is_found(
        s,
        caller,
        file_unique_id,
        file_id,
        set_name,
        raw_text,
        now,
        raw_query,
        limit,
    );
}

/// A sticker is not found by a query where none of its tags contains a
/// word of the query.
pub proof fn law_unmatched_sticker_is_not_found(
    s: State,
    sticker_id: i32,
    raw_query: Seq<char>,
    limit: nat,
)
    requires
        s.wf(),
        forall|i: int, j: int|
            0 <= i < s.tags.len() && 0 <= j < words_of(raw_query).len() ==> !tag_matches(
                #[trigger] s.tags[i],
                sticker_id,
                #[trigger] words_of(raw_query)[j],
            ),
    ensures
        forall|k: int|
            0 <= k < s.search(raw_query, limit).len() ==> (#[trigger] s.search(
                raw_query,
                limit,
            )[k]).0 != sticker_id,
{
    let asked = words_of(raw_query);
    lemma_match_count_positive(s.tags, sticker_id, asked);
    assert(match_count(s.tags, sticker_id, asked) == 0) by {
        if match_count(s.tags, sticker_id, asked) >= 1 {
            let j = choose|j: int|
                0 <= j < asked.len() && is_match(s.tags, sticker_id, #[trigger] asked[j]);
            let i = choose|i: int|
                0 <= i < s.tags.len() && tag_matches(#[trigger] s.tags[i], sticker_id, asked[j]);
            assert(!tag_matches(s.tags[i], sticker_id, asked[j]));
        }
    }
    law_ranking(s.tags, s.stickers, asked);
    law_found(s.tags, s.stickers, asked, limit);
    let ranked = ranking(s.tags, s.stickers, asked);
    let out = s.search(raw_query, limit);
    assert forall|k: int| 0 <= k < out.len() implies (#[trigger] out[k]).0 != sticker_id by {
        let p = ranked[k].position;
        assert(ranked[k] == score_at(s.tags, s.stickers, asked, p));
    }
}

/// After an untag, the sticker is no longer found by a query if the tags
/// that matched the query were all among those that the untag removed.
pub proof fn law_untagged_sticker_is_not_found(
    s: State,
    caller: i64,
    file_unique_id: Seq<char>,
    raw_text: Seq<char>,
    raw_query: Seq<char>,
    limit: nat,
)
    requires
        s.wf(),
        s.is_allowed(caller),
        s.sticker(file_unique_id) is Some,
        forall|i: int, j: int|
            0 <= i < s.tags.len() && 0 <= j < words_of(raw_query).len() && tag_matches(
                #[trigger] s.tags[i],
                s.sticker(file_unique_id)->0.id,
                #[trigger] words_of(raw_query)[j],
            ) ==> is_removed(
                s.tags[i],
                s.sticker(file_unique_id)->0.id,
                words_of(raw_text),
                s.tagger(caller)->0,
            ),
    ensures
        ({
            let t = s.untag(caller, file_unique_id, raw_text).0;
            forall|k: int|
                0 <= k < t.search(raw_query, limit).len() ==> (#[trigger] t.search(
                    raw_query,
                    limit,
                )[k]).0 != s.sticker(file_unique_id)->0.id
        }),
{
    let t = s.untag(caller, file_unique_id, raw_text).0;
    let sticker_id = s.sticker(file_unique_id)->0.id;
    let asked = words_of(raw_query);
    law_untag_spares_others(s, caller, file_unique_id, raw_text);
    crate::state::lemma_without_tags_wf(s, sticker_id, words_of(raw_text), s.tagger(caller)->0);
    assert forall|i: int, j: int| 0 <= i < t.tags.len() && 0 <= j < asked.len() implies !tag_matches(
        #[trigger] t.tags[i],
        sticker_id,
        #[trigger] asked[j],
    ) by {
        assert(s.tags.contains(t.tags[i]));
        let a = choose|a: int| 0 <= a < s.tags.len() && s.tags[a] == t.tags[i];
        assert(t.tags.contains(s.tags[a]));
        if tag_matches(t.tags[i], sticker_id, asked[j]) {
            assert(tag_matches(s.tags[a], sticker_id, asked[j]));
        }
    }
    law_unmatched_sticker_is_not_found(t, sticker_id, raw_query, limit);
}

} // verus!
