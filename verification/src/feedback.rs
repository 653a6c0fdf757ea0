//! Popularity: what searchers pick rises in later searches.

use crate::state::State;
use crate::store::DataStore;
use crate::text::chars_of;
use vstd::prelude::*;

verus! {

/// Whether `c` is one of the digits `0` to `9`.
pub open spec fn is_digit(c: char) -> bool {
    '0' <= c <= '9'
}

/// Whether `text` is made of digits only.
pub open spec fn all_digits(text: Seq<char>) -> bool {
    forall|i: int| 0 <= i < text.len() ==> is_digit(#[trigger] text[i])
}

/// The number that the digits `text` write in base ten.
pub open spec fn decimal(text: Seq<char>) -> int
    decreases text.len(),
{
    if text.len() == 0 {
        0
    } else {
        decimal(text.drop_last()) * 10 + (text.last() as int - '0' as int)
    }
}

/// The number that `text` writes: digits, at least one, after at most one
/// sign, `+` or `-`. Any other text writes none.
pub open spec fn number_of(text: Seq<char>) -> Option<int> {
    if text.len() == 0 {
        None
    } else {
        let signed = text[0] == '-' || text[0] == '+';
        let digits = if signed {
            text.skip(1)
        } else {
            text
        };
        if digits.len() == 0 || !all_digits(digits) {
            None
        } else if text[0] == '-' {
            Some(-decimal(digits))
        } else {
            Some(decimal(digits))
        }
    }
}

/// The sticker that a search result's identifier names: the number it
/// writes, if it writes one that an identifier can be.
pub open spec fn sticker_id_of(result_id: Seq<char>) -> Option<i32> {
    match number_of(result_id) {
        Some(n) => if i32::MIN <= n <= i32::MAX {
            Some(n as i32)
        } else {
            None
        },
        None => None,
    }
}

/// Digits write no negative number, and no smaller one than those they
/// begin with.
pub proof fn lemma_decimal_grows(text: Seq<char>, k: int)
    requires
        all_digits(text),
        0 <= k <= text.len(),
    ensures
        0 <= decimal(text.take(k)) <= decimal(text),
    decreases text.len(),
{
    if text.len() == 0 {
        assert(text.take(k) =~= text);
    } else if k == text.len() {
        assert(text.take(k) =~= text);
        lemma_decimal_grows(text.drop_last(), 0);
        assert(is_digit(text.last()));
    } else {
        let init = text.drop_last();
        assert(init.take(k) =~= text.take(k));
        lemma_decimal_grows(init, k);
        assert(is_digit(text.last()));
    }
}

/// Reads the identifier of a search result as the identifier of a
/// sticker.
pub fn parse_sticker_id(result_id: &str) -> (id: Option<i32>)
    ensures
        id == sticker_id_of(result_id@),
{
    let chars = chars_of(result_id);
    if chars.len() == 0 {
        return None;
    }
    let negative = chars[0] == '-';
    let start: usize = if negative || chars[0] == '+' {
        1
    } else {
        0
    };
    if start == chars.len() {
        return None;
    }
    let ghost digits = chars@.skip(start as int);
    proof {
        assert(chars@.skip(0) =~= chars@);
        assert(digits.take(0) =~= Seq::empty());
    }
    let mut value: i64 = 0;
    let mut i: usize = start;
    while i < chars.len()
        invariant
            start <= i <= chars.len(),
            chars@ == result_id@,
            chars.len() > 0,
            negative == (chars[0] == '-'),
            start == if chars[0] == '-' || chars[0] == '+' {
                1usize
            } else {
                0usize
            },
            start < chars.len(),
            digits == chars@.skip(start as int),
            digits == if chars[0] == '-' || chars[0] == '+' {
                result_id@.skip(1)
            } else {
                result_id@
            },
            all_digits(digits.take(i - start)),
            value == decimal(digits.take(i - start)),
            0 <= value <= 0x8000_0000,
        decreases chars.len() - i,
    {
        let c = chars[i];
        if c < '0' || c > '9' {
            assert(!is_digit(digits[i - start]));
            return None;
        }
        let digit = (c as u32 - '0' as u32) as i64;
        proof {
            let before = digits.take(i - start);
            let now = digits.take(i - start + 1);
            assert(now.drop_last() =~= before);
            assert(now.last() == c);
            assert forall|j: int| 0 <= j < now.len() implies is_digit(#[trigger] now[j]) by {
                if j < before.len() {
                    assert(now[j] == before[j]);
                }
            }
        }
        value = value * 10 + digit;
        if value > 0x8000_0000 {
            proof {
                if all_digits(digits) {
                    lemma_decimal_grows(digits, i - start + 1);
                }
            }
            return None;
        }
        i += 1;
    }
    assert(digits.take(chars.len() - start) =~= digits);
    if negative {
        Some((-value) as i32)
    } else if value == 0x8000_0000 {
        None
    } else {
        Some(value as i32)
    }
}

/// What became of a pick.
#[derive(Debug, PartialEq, Eq, Clone, Copy)]
pub enum Selection {
    /// The sticker's popularity went up by one.
    Counted,
    /// No sticker has the identifier that was picked. Nothing changed.
    Unknown,
    /// The sticker's popularity is the largest number there is. Nothing
    /// changed.
    Saturated,
}

impl State {
    /// What recording a pick of the sticker `sticker_id` leads to.
    pub open spec fn record_selection(self, sticker_id: i32) -> (State, Selection) {
        if !self.has_sticker_id(sticker_id) {
            (self, Selection::Unknown)
        } else {
            let i = choose|i: int| self.sticker_id_at(i, sticker_id);
            if self.stickers[i].popularity == i64::MAX {
                (self, Selection::Saturated)
            } else {
                (self.picked(i), Selection::Counted)
            }
        }
    }
}

impl DataStore {
    /// Records that a searcher picked the sticker `sticker_id` from a
    /// search result: its popularity goes up by exactly one.
    ///
    /// A pick never fails. One that cannot be counted, because the sticker
    /// is not known or its popularity cannot go higher, changes nothing,
    /// and the result says so.
    pub fn record_selection(&mut self, sticker_id: i32) -> (outcome: Selection)
        requires
            old(self)@.wf(),
        ensures
            final(self)@.wf(),
            (final(self)@, outcome) == old(self)@.record_selection(sticker_id),
    {
        match self.sticker_id_position(sticker_id) {
            None => Selection::Unknown,
            Some(i) => {
                assert(self@.sticker_id_at(i as int, sticker_id));
                if self.stickers()[i].popularity == i64::MAX {
                    Selection::Saturated
                } else {
                    self.count_pick(i);
                    Selection::Counted
                }
            },
        }
    }
}

} // verus!
