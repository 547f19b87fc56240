//! Tools to read and visualize survivalist inventory records.
//!
//! The main [`Zomboid`] struct wraps a forward-only [`source::Cursor`]
//! over fallible records. It can materialize a skip/take window of the
//! remaining records as a listing ([`Zomboid::stream`]) or summarize
//! such a window as the share each distinct condition contributes to
//! the total amount ([`Zomboid::describe`]). Both results come wrapped
//! in a [`table::Table`] ready for rendering.
//!
//! The cursor is single-pass: every call consumes records from
//! wherever the previous call stopped, and the first source error met
//! aborts the call and is handed back unchanged.

use vstd::prelude::*;

pub mod model;
pub mod source;
pub mod table;
pub mod text;

use crate::model::Item;
use crate::model::Stat;
use crate::source::Cursor;
use crate::source::SourceError;
use crate::table::views_of_strings;
use crate::table::Table;

verus! {

/// The skip count that an optional setting stands for: absent means
/// "skip nothing".
pub open spec fn skip_count(skip: Option<usize>) -> nat {
    match skip {
        Some(v) => v as nat,
        None => 0,
    }
}

/// One record's worth taken off an optional take budget; an absent
/// budget is no limit and stays absent.
pub open spec fn dec_take(take: Option<usize>) -> Option<usize> {
    match take {
        Some(v) => Some((v - 1) as usize),
        None => None,
    }
}

/// The records a skip/take window over the remaining source yields:
/// after `skip` records are consumed and discarded, up to `take`
/// records are collected in source order. The first error met, whether
/// while skipping or collecting, aborts the whole window. An exhausted
/// take budget stops the window before anything more is consumed.
pub open spec fn window_items(
    s: Seq<Result<Item, SourceError>>,
    skip: nat,
    take: Option<usize>,
) -> Result<Seq<Item>, SourceError>
    decreases s.len(),
{
    if take == Some(0usize) {
        Ok(Seq::empty())
    } else if s.len() == 0 {
        Ok(Seq::empty())
    } else {
        match s[0] {
            Result::Err(e) => Err(e),
            Result::Ok(item) => {
                if skip > 0 {
                    window_items(s.skip(1), (skip - 1) as nat, take)
                } else {
                    match window_items(s.skip(1), 0, dec_take(take)) {
                        Result::Ok(rest) => Ok(seq![item] + rest),
                        Result::Err(e) => Err(e),
                    }
                }
            },
        }
    }
}

/// How many records the window consumes from the source: the skipped
/// ones, the collected ones, and the error that aborted it, if any.
pub open spec fn window_used(
    s: Seq<Result<Item, SourceError>>,
    skip: nat,
    take: Option<usize>,
) -> nat
    decreases s.len(),
{
    if take == Some(0usize) {
        0
    } else if s.len() == 0 {
        0
    } else {
        match s[0] {
            Result::Err(e) => 1,
            Result::Ok(item) => {
                if skip > 0 {
                    1 + window_used(s.skip(1), (skip - 1) as nat, take)
                } else {
                    1 + window_used(s.skip(1), 0, dec_take(take))
                }
            },
        }
    }
}

/// The header cells of a listing table.
pub open spec fn listing_header() -> Seq<Seq<char>> {
    seq!["ID"@, "NAME"@, "TYPE"@, "CONDITION"@, "AMOUNT"@]
}

/// The header cells of a statistics table.
pub open spec fn describe_header() -> Seq<Seq<char>> {
    seq!["CONDITION"@, "%"@]
}

/// How many records a window yields over an error-free source of the
/// given length: the take budget, or whatever the source still has
/// past the skipped records, whichever is smaller.
pub open spec fn window_len(source_len: int, skip: nat, take: Option<usize>) -> int {
    let avail = if source_len - skip >= 0 {
        source_len - skip
    } else {
        0
    };
    match take {
        Some(t) => if t < avail {
            t as int
        } else {
            avail
        },
        None => avail,
    }
}

/// How many records a window consumes from an error-free source of the
/// given length: the skipped and the taken ones, and never more than
/// the source has.
pub open spec fn window_used_of_clean(source_len: int, skip: nat, take: Option<usize>) -> int {
    match take {
        Some(t) => if t == 0 {
            0
        } else if skip + t < source_len {
            skip as int + t
        } else {
            source_len
        },
        None => source_len,
    }
}

/// Over an error-free source a window always succeeds and yields
/// exactly `min(take, max(0, len - skip))` records, in source order,
/// drawn from the consecutive positions starting at `skip`. It
/// consumes the skipped and the taken records and nothing more, so the
/// next window continues right where this one ended.
pub proof fn lemma_window_of_clean_source(
    s: Seq<Result<Item, SourceError>>,
    skip: nat,
    take: Option<usize>,
)
    requires
        forall|i: int| 0 <= i < s.len() ==> (#[trigger] s[i]) is Ok,
    ensures
        window_items(s, skip, take) is Ok,
        window_items(s, skip, take)->Ok_0.len() == window_len(s.len() as int, skip, take),
        forall|j: int|
            0 <= j < window_len(s.len() as int, skip, take) ==> (#[trigger] window_items(
                s,
                skip,
                take,
            )->Ok_0[j]) == s[skip + j]->Ok_0,
        window_used(s, skip, take) == window_used_of_clean(s.len() as int, skip, take),
    decreases s.len(),
{
    if take == Some(0usize) {
    } else if s.len() == 0 {
    } else {
        assert(s[0] is Ok);
        let tail = s.skip(1);
        assert forall|i: int| 0 <= i < tail.len() implies (#[trigger] tail[i]) is Ok by {
            assert(tail[i] == s[i + 1]);
        }
        if skip > 0 {
            lemma_window_of_clean_source(tail, (skip - 1) as nat, take);
            assert forall|j: int|
                0 <= j < window_len(s.len() as int, skip, take) implies (#[trigger] window_items(
                s,
                skip,
                take,
            )->Ok_0[j]) == s[skip + j]->Ok_0 by {
                assert(window_items(s, skip, take)->Ok_0[j] == window_items(
                    tail,
                    (skip - 1) as nat,
                    take,
                )->Ok_0[j]);
                assert(tail[(skip - 1) + j] == s[skip + j]);
            }
        } else {
            let item = s[0]->Ok_0;
            lemma_window_of_clean_source(tail, 0, dec_take(take));
            let rest = window_items(tail, 0, dec_take(take))->Ok_0;
            assert(window_items(s, skip, take)->Ok_0 == seq![item] + rest);
            assert forall|j: int|
                0 <= j < window_len(s.len() as int, skip, take) implies (#[trigger] window_items(
                s,
                skip,
                take,
            )->Ok_0[j]) == s[skip + j]->Ok_0 by {
                if j == 0 {
                    assert((seq![item] + rest)[0] == item);
                } else {
                    assert((seq![item] + rest)[j] == rest[j - 1]);
                    assert(rest[j - 1] == tail[0 + (j - 1)]->Ok_0);
                    assert(tail[j - 1] == s[j]);
                }
            }
        }
    }
}

/// Two successive windows are not idempotent: the source is
/// single-pass, so the second window starts right behind the records
/// the first one consumed, never at the front again. Over an
/// error-free source, the second listing's records come from the
/// positions behind `window_used_of_clean` of the first call.
pub proof fn lemma_second_window_continues(
    s: Seq<Result<Item, SourceError>>,
    skip1: nat,
    take1: Option<usize>,
    skip2: nat,
    take2: Option<usize>,
)
    requires
        forall|i: int| 0 <= i < s.len() ==> (#[trigger] s[i]) is Ok,
    ensures
        ({
            let used = window_used_of_clean(s.len() as int, skip1, take1);
            let rest = s.skip(used);
            &&& window_items(s, skip1, take1) is Ok
            &&& s.skip(window_used(s, skip1, take1) as int) == rest
            &&& window_items(rest, skip2, take2) is Ok
            &&& window_items(rest, skip2, take2)->Ok_0.len() == window_len(
                s.len() - used,
                skip2,
                take2,
            )
            &&& forall|j: int|
                0 <= j < window_len(s.len() - used, skip2, take2) ==> (#[trigger] window_items(
                    rest,
                    skip2,
                    take2,
                )->Ok_0[j]) == s[used + skip2 + j]->Ok_0
        }),
{
    lemma_window_of_clean_source(s, skip1, take1);
    let used = window_used_of_clean(s.len() as int, skip1, take1);
    let rest = s.skip(used);
    assert forall|i: int| 0 <= i < rest.len() implies (#[trigger] rest[i]) is Ok by {
        assert(rest[i] == s[used + i]);
    }
    lemma_window_of_clean_source(rest, skip2, take2);
    assert forall|j: int|
        0 <= j < window_len(s.len() - used, skip2, take2) implies (#[trigger] window_items(
        rest,
        skip2,
        take2,
    )->Ok_0[j]) == s[used + skip2 + j]->Ok_0 by {
        assert(window_items(rest, skip2, take2)->Ok_0[j] == rest[skip2 + j]->Ok_0);
        assert(rest[skip2 + j] == s[used + skip2 + j]);
    }
}

/// The distinct condition values of a window, each listed at its first
/// appearance.
pub open spec fn conditions_of(items: Seq<Item>) -> Seq<Seq<char>>
    decreases items.len(),
{
    if items.len() == 0 {
        Seq::empty()
    } else {
        let prev = conditions_of(items.drop_last());
        if prev.contains(items.last().condition@) {
            prev
        } else {
            prev.push(items.last().condition@)
        }
    }
}

/// The total amount contributed by the records of one condition.
pub open spec fn group_total(items: Seq<Item>, cond: Seq<char>) -> int
    decreases items.len(),
{
    if items.len() == 0 {
        0
    } else {
        group_total(items.drop_last(), cond) + (if items.last().condition@ == cond {
            items.last().amount as int
        } else {
            0
        })
    }
}

/// The grand total amount of a window.
pub open spec fn grand_total(items: Seq<Item>) -> int
    decreases items.len(),
{
    if items.len() == 0 {
        0
    } else {
        grand_total(items.drop_last()) + items.last().amount as int
    }
}

/// The sum of the group totals of the given conditions.
pub open spec fn sum_of_groups(items: Seq<Item>, conds: Seq<Seq<char>>) -> int
    decreases conds.len(),
{
    if conds.len() == 0 {
        0
    } else {
        sum_of_groups(items, conds.drop_last()) + group_total(items, conds.last())
    }
}

/// A group total is never negative and never exceeds the grand total.
pub proof fn lemma_group_le_grand(items: Seq<Item>, cond: Seq<char>)
    ensures
        0 <= group_total(items, cond) <= grand_total(items),
    decreases items.len(),
{
    if items.len() > 0 {
        lemma_group_le_grand(items.drop_last(), cond);
    }
}

/// The distinct conditions of a window really are distinct.
pub proof fn lemma_conditions_distinct(items: Seq<Item>)
    ensures
        conditions_of(items).no_duplicates(),
    decreases items.len(),
{
    if items.len() > 0 {
        lemma_conditions_distinct(items.drop_last());
        let prev = conditions_of(items.drop_last());
        let c = items.last().condition@;
        if !prev.contains(c) {
            assert forall|i: int, j: int|
                0 <= i < prev.push(c).len() && 0 <= j < prev.push(c).len() && i != j implies prev.push(
                c,
            )[i] != prev.push(c)[j] by {
                if i < prev.len() && j < prev.len() {
                } else if j == prev.len() {
                    assert(prev.contains(prev[i]));
                } else {
                    assert(prev.contains(prev[j]));
                }
            }
        }
    }
}

/// A condition that never appears in the window has a zero group
/// total.
pub proof fn lemma_conditions_complete(items: Seq<Item>, cond: Seq<char>)
    ensures
        !conditions_of(items).contains(cond) ==> group_total(items, cond) == 0,
    decreases items.len(),
{
    if items.len() > 0 {
        lemma_conditions_complete(items.drop_last(), cond);
        let prev = conditions_of(items.drop_last());
        let c = items.last().condition@;
        if !conditions_of(items).contains(cond) {
            if prev.contains(cond) {
                let k = choose|k: int| 0 <= k < prev.len() && prev[k] == cond;
                assert(conditions_of(items)[k] == cond);
            }
            assert(!prev.contains(cond));
            if c == cond {
                if prev.contains(c) {
                } else {
                    assert(conditions_of(items)[prev.len() as int] == c);
                }
            }
        }
    }
}

/// Appending one record to a window raises the sum of the given group
/// totals by the record's amount when its condition is among the given
/// ones, and leaves the sum unchanged otherwise.
proof fn lemma_sum_after_push(items: Seq<Item>, x: Item, conds: Seq<Seq<char>>)
    requires
        conds.no_duplicates(),
    ensures
        sum_of_groups(items.push(x), conds) == sum_of_groups(items, conds) + (if conds.contains(
            x.condition@,
        ) {
            x.amount as int
        } else {
            0
        }),
    decreases conds.len(),
{
    if conds.len() == 0 {
    } else {
        let c = conds.last();
        let rest = conds.drop_last();
        assert(rest.no_duplicates());
        lemma_sum_after_push(items, x, rest);
        assert(items.push(x).drop_last() =~= items);
        assert(group_total(items.push(x), c) == group_total(items, c) + (if x.condition@ == c {
            x.amount as int
        } else {
            0
        }));
        if conds.contains(x.condition@) {
            let k = choose|k: int| 0 <= k < conds.len() && conds[k] == x.condition@;
            if k == conds.len() - 1 {
                if rest.contains(x.condition@) {
                    let k2 = choose|k2: int| 0 <= k2 < rest.len() && rest[k2] == x.condition@;
                    assert(conds[k2] == conds[k]);
                }
                assert(!rest.contains(x.condition@));
            } else {
                assert(rest[k] == x.condition@);
                assert(rest.contains(x.condition@));
                assert(c != x.condition@);
            }
        } else {
            if rest.contains(x.condition@) {
                let k2 = choose|k2: int| 0 <= k2 < rest.len() && rest[k2] == x.condition@;
                assert(conds[k2] == x.condition@);
            }
            assert(c != x.condition@ || !conds.contains(c));
            if c == x.condition@ {
                assert(conds[conds.len() - 1] == c);
            }
        }
    }
}

/// The group totals of the distinct conditions partition the grand
/// total: their sum is exactly the whole. Every record's amount is
/// counted in exactly one group.
pub proof fn lemma_groups_partition_grand_total(items: Seq<Item>)
    ensures
        sum_of_groups(items, conditions_of(items)) == grand_total(items),
    decreases items.len(),
{
    if items.len() > 0 {
        let small = items.drop_last();
        let x = items.last();
        let c = x.condition@;
        lemma_groups_partition_grand_total(small);
        lemma_conditions_distinct(small);
        let prev = conditions_of(small);
        assert(small.push(x) =~= items);
        lemma_sum_after_push(small, x, prev);
        if prev.contains(c) {
            assert(sum_of_groups(items, prev) == sum_of_groups(small, prev) + x.amount as int);
        } else {
            assert(sum_of_groups(items, prev) == sum_of_groups(small, prev));
            assert(conditions_of(items) == prev.push(c));
            assert(conditions_of(items).drop_last() =~= prev);
            lemma_conditions_complete(small, c);
            assert(group_total(items, c) == x.amount as int);
        }
    }
}

/// The sum of the numerators of a sequence of statistics.
pub open spec fn sum_of_numers(stats: Seq<Stat>) -> int
    decreases stats.len(),
{
    if stats.len() == 0 {
        0
    } else {
        sum_of_numers(stats.drop_last()) + stats.last().spec_numer() as int
    }
}

/// Statistics whose numerators are index for index the group totals of
/// the given conditions sum to the sum of those group totals.
proof fn lemma_sum_numers_eq_groups(stats: Seq<Stat>, items: Seq<Item>, conds: Seq<Seq<char>>)
    requires
        stats.len() == conds.len(),
        forall|i: int|
            0 <= i < stats.len() ==> (#[trigger] stats[i]).spec_numer() as int == group_total(
                items,
                conds[i],
            ),
    ensures
        sum_of_numers(stats) == sum_of_groups(items, conds),
    decreases stats.len(),
{
    if stats.len() > 0 {
        assert forall|i: int|
            0 <= i < stats.drop_last().len() implies (#[trigger] stats.drop_last()[i]).spec_numer()
            as int == group_total(items, conds.drop_last()[i]) by {
            assert(stats.drop_last()[i] == stats[i]);
            assert(conds.drop_last()[i] == conds[i]);
        }
        lemma_sum_numers_eq_groups(stats.drop_last(), items, conds.drop_last());
        assert(stats.last() == stats[stats.len() - 1]);
    }
}

/// The statistics of a window sum to the whole: when their numerators
/// are, condition for condition, the group totals of the window — as
/// `describe` ensures of its result — they add up to the window's
/// grand total, the shared denominator. The fractions therefore sum to
/// one exactly.
pub proof fn lemma_stat_values_sum_to_whole(stats: Seq<Stat>, items: Seq<Item>)
    requires
        stats.len() == conditions_of(items).len(),
        forall|i: int|
            0 <= i < stats.len() ==> (#[trigger] stats[i]).spec_numer() as int == group_total(
                items,
                conditions_of(items)[i],
            ),
    ensures
        sum_of_numers(stats) == grand_total(items),
{
    lemma_groups_partition_grand_total(items);
    lemma_sum_numers_eq_groups(stats, items, conditions_of(items));
}

/// Extending a window by its next record extends the aggregates in the
/// obvious way: the new record's condition joins the distinct ones if
/// it is new, its group total and the grand total grow by the record's
/// amount, and every other group total is unchanged.
proof fn lemma_take_step(items: Seq<Item>, i: int)
    requires
        0 <= i < items.len(),
    ensures
        conditions_of(items.take(i + 1)) == (if conditions_of(items.take(i)).contains(
            items[i].condition@,
        ) {
            conditions_of(items.take(i))
        } else {
            conditions_of(items.take(i)).push(items[i].condition@)
        }),
        forall|c: Seq<char>| #[trigger]
            group_total(items.take(i + 1), c) == group_total(items.take(i), c) + (
            if items[i].condition@ == c {
                items[i].amount as int
            } else {
                0
            }),
        grand_total(items.take(i + 1)) == grand_total(items.take(i)) + items[i].amount as int,
{
    assert(items.take(i + 1).drop_last() =~= items.take(i));
    assert(items.take(i + 1).last() == items[i]);
    assert forall|c: Seq<char>| #[trigger]
        group_total(items.take(i + 1), c) == group_total(items.take(i), c) + (
        if items[i].condition@ == c {
            items[i].amount as int
        } else {
            0
        }) by {
        assert(items.take(i + 1).drop_last() == items.take(i));
    }
}

/// A window whose records all share one condition groups to that
/// single condition, whose group total is the whole grand total.
pub proof fn lemma_single_condition(items: Seq<Item>, cond: Seq<char>)
    requires
        items.len() > 0,
        forall|i: int| 0 <= i < items.len() ==> (#[trigger] items[i]).condition@ == cond,
    ensures
        conditions_of(items) =~= seq![cond],
        group_total(items, cond) == grand_total(items),
    decreases items.len(),
{
    if items.len() == 1 {
        assert(items.last() == items[0]);
        assert(items.drop_last().len() == 0);
        assert(conditions_of(items.drop_last()) == Seq::<Seq<char>>::empty());
        assert(group_total(items.drop_last(), cond) == 0);
        assert(grand_total(items.drop_last()) == 0);
        assert(conditions_of(items) =~= seq![cond]);
    } else {
        let small = items.drop_last();
        assert(forall|i: int| 0 <= i < small.len() ==> (#[trigger] small[i]).condition@ == cond);
        lemma_single_condition(small, cond);
        assert(items.last() == items[items.len() - 1]);
        assert(conditions_of(small).contains(cond)) by {
            assert(conditions_of(small)[0] == cond);
        }
    }
}

/// A reader of the survivalists' accountant data: a forward-only
/// cursor over fallible records together with the skip/take window the
/// next call will apply.
#[derive(Debug)]
pub struct Zomboid {
    it: Cursor,
    _take: Option<usize>,
    _skip: Option<usize>,
}

impl Zomboid {
    /// The records still ahead of the wrapped cursor.
    pub closed spec fn spec_remaining(&self) -> Seq<Result<Item, SourceError>> {
        self.it@
    }

    /// The take setting the next call will honor.
    pub closed spec fn spec_take(&self) -> Option<usize> {
        self._take
    }

    /// The skip setting the next call will honor.
    pub closed spec fn spec_skip(&self) -> Option<usize> {
        self._skip
    }

    /// Wraps a cursor; the window starts out as "skip nothing, take
    /// everything".
    pub fn new(it: Cursor) -> (z: Zomboid)
        ensures
            z.spec_remaining() == it@,
            z.spec_take() is None,
            z.spec_skip() is None,
    {
        Zomboid { it, _take: None, _skip: None }
    }

    /// Sets how many records the next call takes; `None` lifts the
    /// limit.
    pub fn set_take(&mut self, v: Option<usize>)
        ensures
            final(self).spec_take() == v,
            final(self).spec_skip() == old(self).spec_skip(),
            final(self).spec_remaining() == old(self).spec_remaining(),
    {
        self._take = v;
    }

    /// Sets how many records the next call skips; `None` skips
    /// nothing.
    pub fn set_skip(&mut self, v: Option<usize>)
        ensures
            final(self).spec_skip() == v,
            final(self).spec_take() == old(self).spec_take(),
            final(self).spec_remaining() == old(self).spec_remaining(),
    {
        self._skip = v;
    }

    /// The take setting currently stored.
    pub fn get_take(&self) -> (v: Option<usize>)
        ensures
            v == self.spec_take(),
    {
        self._take
    }

    /// The skip setting currently stored.
    pub fn get_skip(&self) -> (v: Option<usize>)
        ensures
            v == self.spec_skip(),
    {
        self._skip
    }

    /// Consumes the stored window from the cursor and collects the
    /// records it yields, failing fast on the first source error.
    fn collect_window(&mut self) -> (r: Result<Vec<Item>, SourceError>)
        ensures
            final(self).spec_take() == old(self).spec_take(),
            final(self).spec_skip() == old(self).spec_skip(),
            final(self).spec_remaining() == old(self).spec_remaining().skip(
                window_used(
                    old(self).spec_remaining(),
                    skip_count(old(self).spec_skip()),
                    old(self).spec_take(),
                ) as int,
            ),
            (match r {
                Result::Ok(v) => window_items(
                    old(self).spec_remaining(),
                    skip_count(old(self).spec_skip()),
                    old(self).spec_take(),
                ) == Result::<Seq<Item>, SourceError>::Ok(v@),
                Result::Err(e) => window_items(
                    old(self).spec_remaining(),
                    skip_count(old(self).spec_skip()),
                    old(self).spec_take(),
                ) == Result::<Seq<Item>, SourceError>::Err(e),
            }),
    {
        let ghost s0 = self.it@;
        let ghost k0 = skip_count(self._skip);
        let ghost t0 = self._take;
        let mut skip_left: usize = match self._skip {
            Some(v) => v,
            None => 0,
        };
        let mut take_left: Option<usize> = self._take;
        let mut out: Vec<Item> = Vec::new();
        loop
            invariant
                t0 == old(self).spec_take(),
                k0 == skip_count(old(self).spec_skip()),
                s0 == old(self).spec_remaining(),
                self._take == t0,
                self._skip == old(self)._skip,
                skip_left as nat <= k0,
                self.it@.len() <= s0.len(),
                self.it@ == s0.skip((s0.len() - self.it@.len()) as int),
                window_items(s0, k0, t0) == (match window_items(
                    self.it@,
                    skip_left as nat,
                    take_left,
                ) {
                    Result::Ok(rest) => Result::<Seq<Item>, SourceError>::Ok(out@ + rest),
                    Result::Err(e) => Result::<Seq<Item>, SourceError>::Err(e),
                }),
                window_used(s0, k0, t0) == (s0.len() - self.it@.len()) + window_used(
                    self.it@,
                    skip_left as nat,
                    take_left,
                ),
            ensures
                take_left == Some(0usize) || self.it@.len() == 0,
            decreases self.it@.len(),
        {
            if let Some(t) = take_left {
                if t == 0 {
                    break ;
                }
            }
            let ghost cur = self.it@;
            match self.it.next() {
                None => {
                    break ;
                },
                Some(Result::Err(e)) => {
                    proof {
                        assert(window_items(cur, skip_left as nat, take_left) == Result::<
                            Seq<Item>,
                            SourceError,
                        >::Err(e));
                        assert(window_used(cur, skip_left as nat, take_left) == 1);
                        assert(self.it@ =~= s0.skip((s0.len() - self.it@.len()) as int));
                    }
                    return Err(e);
                },
                Some(Result::Ok(item)) => {
                    let ghost tl_old = take_left;
                    let ghost out_old = out@;
                    let ghost item_g = item;
                    if skip_left > 0 {
                        skip_left = skip_left - 1;
                    } else {
                        out.push(item);
                        take_left = match take_left {
                            Some(t) => Some(t - 1),
                            None => None,
                        };
                        proof {
                            assert(take_left == dec_take(tl_old));
                            if window_items(cur.skip(1), 0, dec_take(tl_old)) is Ok {
                                let rest = window_items(cur.skip(1), 0, dec_take(tl_old))->Ok_0;
                                assert(out_old + (seq![item_g] + rest) =~= out_old.push(item_g)
                                    + rest);
                            }
                        }
                    }
                    proof {
                        assert(self.it@ =~= s0.skip((s0.len() - self.it@.len()) as int));
                    }
                },
            }
        }
        proof {
            assert(window_items(self.it@, skip_left as nat, take_left) == Result::<
                Seq<Item>,
                SourceError,
            >::Ok(Seq::<Item>::empty()));
            assert(out@ + Seq::<Item>::empty() =~= out@);
            assert(window_used(self.it@, skip_left as nat, take_left) == 0);
        }
        Ok(out)
    }

    /// Materializes the stored skip/take window of the remaining
    /// records as a listing table with the standard header and the
    /// default width.
    ///
    /// The cursor is consumed irreversibly: a second call continues
    /// from wherever this one stopped. The first source error met
    /// aborts the call and is returned unchanged, with no partial
    /// result.
    pub fn stream(&mut self) -> (r: Result<Table<Item>, SourceError>)
        ensures
            final(self).spec_take() == old(self).spec_take(),
            final(self).spec_skip() == old(self).spec_skip(),
            final(self).spec_remaining() == old(self).spec_remaining().skip(
                window_used(
                    old(self).spec_remaining(),
                    skip_count(old(self).spec_skip()),
                    old(self).spec_take(),
                ) as int,
            ),
            r is Ok <==> window_items(
                old(self).spec_remaining(),
                skip_count(old(self).spec_skip()),
                old(self).spec_take(),
            ) is Ok,
            (r matches Ok(table) ==> {
                &&& table.spec_rows() == window_items(
                    old(self).spec_remaining(),
                    skip_count(old(self).spec_skip()),
                    old(self).spec_take(),
                )->Ok_0
                &&& table.spec_header() == Some(listing_header())
                &&& table.spec_width() == crate::table::DEFAULT_WIDTH as int
            }),
            (r matches Err(e) ==> window_items(
                old(self).spec_remaining(),
                skip_count(old(self).spec_skip()),
                old(self).spec_take(),
            ) == Result::<Seq<Item>, SourceError>::Err(e)),
    {
        let items = match self.collect_window() {
            Ok(v) => v,
            Err(e) => {
                return Err(e);
            },
        };
        let mut header: Vec<String> = Vec::new();
        header.push(String::from_str("ID"));
        header.push(String::from_str("NAME"));
        header.push(String::from_str("TYPE"));
        header.push(String::from_str("CONDITION"));
        header.push(String::from_str("AMOUNT"));
        proof {
            assert(views_of_strings(header@) =~= listing_header());
        }
        Ok(Table::new(items).with_header(header))
    }

    /// Consumes the stored skip/take window and summarizes it: one
    /// statistic per distinct condition, in order of first appearance,
    /// each holding that condition's share of the window's total
    /// amount, wrapped in a table with the statistics header and the
    /// summary width.
    ///
    /// A window whose grand total is zero — empty, or all amounts
    /// zero — has no well-defined shares and yields no statistics at
    /// all rather than an error or division by zero. The first source
    /// error met aborts the call and is returned unchanged.
    pub fn describe(&mut self) -> (r: Result<Table<Stat>, SourceError>)
        ensures
            final(self).spec_take() == old(self).spec_take(),
            final(self).spec_skip() == old(self).spec_skip(),
            final(self).spec_remaining() == old(self).spec_remaining().skip(
                window_used(
                    old(self).spec_remaining(),
                    skip_count(old(self).spec_skip()),
                    old(self).spec_take(),
                ) as int,
            ),
            r is Ok <==> window_items(
                old(self).spec_remaining(),
                skip_count(old(self).spec_skip()),
                old(self).spec_take(),
            ) is Ok,
            (r matches Err(e) ==> window_items(
                old(self).spec_remaining(),
                skip_count(old(self).spec_skip()),
                old(self).spec_take(),
            ) == Result::<Seq<Item>, SourceError>::Err(e)),
            (r matches Ok(table) ==> {
                let items = window_items(
                    old(self).spec_remaining(),
                    skip_count(old(self).spec_skip()),
                    old(self).spec_take(),
                )->Ok_0;
                &&& table.spec_header() == Some(describe_header())
                &&& table.spec_width() == crate::table::SUMMARY_WIDTH as int
                &&& (grand_total(items) == 0 ==> table.spec_rows().len() == 0)
                &&& (grand_total(items) > 0 ==> {
                    &&& table.spec_rows().len() == conditions_of(items).len()
                    &&& (forall|i: int|
                        0 <= i < conditions_of(items).len() ==> {
                            let st = #[trigger] table.spec_rows()[i];
                            &&& st.spec_name() == conditions_of(items)[i]
                            &&& st.spec_numer() as int == group_total(items, conditions_of(items)[i])
                            &&& st.spec_denom() as int == grand_total(items)
                        })
                })
            }),
    {
        let items = match self.collect_window() {
            Ok(v) => v,
            Err(e) => {
                return Err(e);
            },
        };
        let ghost iseq = items@;
        let n = items.len();
        let mut names: Vec<String> = Vec::new();
        let mut sums: Vec<u128> = Vec::new();
        let mut total: u128 = 0;
        let mut i: usize = 0;
        while i < n
            invariant
                i <= n,
                n == iseq.len(),
                items@ == iseq,
                names@.len() == sums@.len(),
                views_of_strings(names@) == conditions_of(iseq.take(i as int)),
                forall|j: int|
                    0 <= j < sums@.len() ==> #[trigger] sums@[j] as int == group_total(
                        iseq.take(i as int),
                        views_of_strings(names@)[j],
                    ),
                total as int == grand_total(iseq.take(i as int)),
                total as int <= i as int * 0xFFFF_FFFF,
            decreases n - i,
        {
            proof {
                lemma_take_step(iseq, i as int);
                lemma_conditions_distinct(iseq.take(i as int));
                lemma_conditions_complete(iseq.take(i as int), iseq[i as int].condition@);
            }
            let amount = items[i].amount;
            match find_name(&names, &items[i].condition) {
                Some(j) => {
                    let s = sums[j];
                    proof {
                        lemma_group_le_grand(iseq.take(i as int), views_of_strings(names@)[j as int]);
                    }
                    sums[j] = s + (amount as u128);
                    proof {
                        assert(views_of_strings(names@).contains(iseq[i as int].condition@)) by {
                            assert(views_of_strings(names@)[j as int] == iseq[i as int].condition@);
                        }
                        assert forall|k: int| 0 <= k < sums@.len() implies #[trigger] sums@[k] as int
                            == group_total(
                            iseq.take(i as int + 1),
                            views_of_strings(names@)[k],
                        ) by {
                            if k != j {
                                assert(views_of_strings(names@)[k] != views_of_strings(
                                    names@,
                                )[j as int]);
                            }
                        }
                    }
                },
                None => {
                    let ghost old_names = names@;
                    names.push(items[i].condition.clone());
                    sums.push(amount as u128);
                    proof {
                        assert(views_of_strings(names@) =~= views_of_strings(old_names).push(
                            iseq[i as int].condition@,
                        ));
                        assert forall|k: int| 0 <= k < sums@.len() implies #[trigger] sums@[k] as int
                            == group_total(
                            iseq.take(i as int + 1),
                            views_of_strings(names@)[k],
                        ) by {
                            if k < sums@.len() - 1 {
                                assert(views_of_strings(names@)[k] == views_of_strings(old_names)[k]);
                                assert(!views_of_strings(old_names).contains(
                                    iseq[i as int].condition@,
                                ));
                                assert(views_of_strings(names@)[k] != iseq[i as int].condition@) by {
                                    if views_of_strings(old_names)[k] == iseq[i as int].condition@ {
                                        assert(views_of_strings(old_names).contains(
                                            iseq[i as int].condition@,
                                        ));
                                    }
                                }
                            } else {
                                assert(group_total(iseq.take(i as int), iseq[i as int].condition@)
                                    == 0);
                            }
                        }
                    }
                },
            }
            proof {
                assert(i as int + 1 <= n as int);
                assert((i as int + 1) * 0xFFFF_FFFF == i as int * 0xFFFF_FFFF + 0xFFFF_FFFF);
            }
            total = total + (amount as u128);
            i = i + 1;
        }
        proof {
            assert(iseq.take(n as int) =~= iseq);
        }

        let mut header: Vec<String> = Vec::new();
        header.push(String::from_str("CONDITION"));
        header.push(String::from_str("%"));
        proof {
            assert(views_of_strings(header@) =~= describe_header());
        }

        let mut stats: Vec<Stat> = Vec::new();
        if total > 0 {
            proof {
                assert(n as int <= usize::MAX as int);
                assert(total as int <= n as int * 0xFFFF_FFFF);
                assert(n as int * 0xFFFF_FFFF <= usize::MAX as int * 0xFFFF_FFFF);
                assert(usize::MAX as int * 0xFFFF_FFFF <= crate::model::MAX_GRAND_TOTAL as int);
            }
            let m = names.len();
            let mut k: usize = 0;
            while k < m
                invariant
                    k <= m,
                    m == names@.len(),
                    names@.len() == sums@.len(),
                    views_of_strings(names@) == conditions_of(iseq),
                    forall|j: int|
                        0 <= j < sums@.len() ==> #[trigger] sums@[j] as int == group_total(
                            iseq,
                            views_of_strings(names@)[j],
                        ),
                    total as int == grand_total(iseq),
                    1 <= total <= crate::model::MAX_GRAND_TOTAL,
                    stats@.len() == k,
                    forall|j: int|
                        0 <= j < k ==> {
                            let st = #[trigger] stats@[j];
                            &&& st.spec_name() == conditions_of(iseq)[j]
                            &&& st.spec_numer() as int == group_total(iseq, conditions_of(iseq)[j])
                            &&& st.spec_denom() == total
                        },
                decreases m - k,
            {
                proof {
                    lemma_group_le_grand(iseq, views_of_strings(names@)[k as int]);
                }
                let st = Stat::new(names[k].clone(), sums[k], total);
                stats.push(st);
                k = k + 1;
            }
        }
        Ok(Table::new(stats).with_header(header).with_width(crate::table::SUMMARY_WIDTH))
    }
}

/// Finds the index of the entry of `names` that equals `cond`, if any.
fn find_name(names: &Vec<String>, cond: &String) -> (r: Option<usize>)
    ensures
        (r matches Some(j) ==> j < names@.len() && views_of_strings(names@)[j as int] == cond@),
        (r is None ==> !views_of_strings(names@).contains(cond@)),
{
    let mut j: usize = 0;
    let n = names.len();
    while j < n
        invariant
            j <= n,
            n == names@.len(),
            forall|k: int| 0 <= k < j ==> views_of_strings(names@)[k] != cond@,
        decreases n - j,
    {
        if names[j].eq(cond) {
            return Some(j);
        }
        j = j + 1;
    }
    proof {
        if views_of_strings(names@).contains(cond@) {
            let k = choose|k: int|
                0 <= k < views_of_strings(names@).len() && views_of_strings(names@)[k] == cond@;
            assert(views_of_strings(names@)[k] != cond@);
        }
    }
    None
}

} // verus!
