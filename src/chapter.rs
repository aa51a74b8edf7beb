use vstd::prelude::*;

use crate::bound::{bound_hundredths, lemma_float_chars, lemma_single_digit_bound, parse_bound};
use crate::error::RobinError;

verus! {

/// A discovered chapter: a numeric ordinal, in hundredths, and the locator
/// its body is fetched from.
pub trait Chapter {
    spec fn ordinal(&self) -> int;

    spec fn locator(&self) -> Seq<char>;

    /// The chapter's own invariant: its ordinal is the one its title gives.
    spec fn wf(&self) -> bool;

    fn chapter_num(&self) -> (r: i64)
        ensures
            r as int == self.ordinal(),
    ;

    fn url(&self) -> (r: &String)
        ensures
            r@ == self.locator(),
    ;
}

/// The locators of a sequence of chapters.
pub open spec fn locators<C: Chapter>(s: Seq<C>) -> Seq<Seq<char>> {
    s.map_values(|c: C| c.locator())
}

/// No two chapters of `s` share a locator.
pub open spec fn unique_locators<C: Chapter>(s: Seq<C>) -> bool {
    forall|i: int, j: int|
        0 <= i < j < s.len() ==> #[trigger] s[i].locator() != #[trigger] s[j].locator()
}

/// Every chapter is well formed, and no two share a locator.
pub open spec fn chapters_wf<C: Chapter>(s: Seq<C>) -> bool {
    &&& unique_locators(s)
    &&& forall|i: int| 0 <= i < s.len() ==> #[trigger] s[i].wf()
}

/// `s` followed by each chapter of `new`, in order, whose locator is not
/// already present.
pub open spec fn merged<C: Chapter>(s: Seq<C>, new: Seq<C>) -> Seq<C>
    decreases new.len(),
{
    if new.len() == 0 {
        s
    } else {
        let m = merged(s, new.drop_last());
        if locators(m).contains(new.last().locator()) {
            m
        } else {
            m.push(new.last())
        }
    }
}

/// Appends each chapter of `new`, in order, unless a chapter with its
/// locator is already present.
pub fn merge_chapters<C: Chapter>(chapters: &mut Vec<C>, new: Vec<C>)
    ensures
        final(chapters)@ == merged(old(chapters)@, new@),
        chapters_wf(old(chapters)@) && (forall|i: int|
            0 <= i < new@.len() ==> #[trigger] new@[i].wf()) ==> chapters_wf(final(chapters)@),
{
    proof {
        if chapters_wf(chapters@) && (forall|i: int| 0 <= i < new@.len() ==> #[trigger] new@[i].wf()) {
            lemma_merged_unique(chapters@, new@);
            lemma_merged_wf(chapters@, new@);
        }
    }
    let ghost s = old(chapters)@;
    let ghost n = new@;
    let mut rest = new;
    let total = rest.len();
    let mut i: usize = 0;
    assert(n.take(0) =~= Seq::<C>::empty());
    while i < total
        invariant
            total == n.len(),
            i <= total,
            i + rest@.len() == total,
            rest@ == n.skip(i as int),
            chapters@ == merged(s, n.take(i as int)),
        decreases total - i,
    {
        let c = rest.remove(0);
        assert(n.take(i + 1).drop_last() =~= n.take(i as int));
        assert(n.take(i + 1).last() == c);
        let mut found = false;
        let mut j: usize = 0;
        while j < chapters.len()
            invariant
                j <= chapters@.len(),
                found ==> locators(chapters@).contains(c.locator()),
                !found ==> forall|k: int| 0 <= k < j ==> chapters@[k].locator() != c.locator(),
            decreases chapters.len() - j,
        {
            if chapters[j].url().eq(c.url()) {
                assert(locators(chapters@)[j as int] == c.locator());
                found = true;
            }
            j = j + 1;
        }
        if !found {
            assert(!locators(chapters@).contains(c.locator()));
            chapters.push(c);
        }
        i = i + 1;
        assert(rest@ =~= n.skip(i as int));
    }
    assert(n.take(i as int) =~= n);
}

/// Filtering keeps locators unique, and keeps only chapters that were
/// there.
pub proof fn lemma_filter_keeps_unique<C: Chapter>(s: Seq<C>, p: spec_fn(C) -> bool)
    requires
        unique_locators(s),
    ensures
        unique_locators(s.filter(p)),
        forall|i: int| 0 <= i < s.filter(p).len() ==> s.contains(#[trigger] s.filter(p)[i]),
    decreases s.len(),
{
    if s.len() > 0 {
        let d = s.drop_last();
        let x = s.last();
        assert forall|i: int, j: int| 0 <= i < j < d.len() implies #[trigger] d[i].locator()
            != #[trigger] d[j].locator() by {
            assert(s[i] == d[i] && s[j] == d[j]);
        }
        lemma_filter_keeps_unique(d, p);
        assert(s =~= d.push(x));
        d.lemma_filter_push(x, p);
        let f = d.filter(p);
        assert forall|i: int| 0 <= i < f.len() implies exists|k: int|
            0 <= k < d.len() && d[k] == #[trigger] f[i] by {
            assert(d.contains(f[i]));
        }
        if p(x) {
            assert forall|i: int, j: int| 0 <= i < j < f.push(x).len() implies #[trigger] f.push(
                x,
            )[i].locator() != #[trigger] f.push(x)[j].locator() by {
                if j == f.len() {
                    let k = choose|k: int| 0 <= k < d.len() && d[k] == f[i];
                    assert(s[k] == d[k]);
                    assert(s[s.len() - 1] == x);
                    assert(s[k].locator() != s[s.len() - 1].locator());
                } else {
                    assert(f.push(x)[i] == f[i] && f.push(x)[j] == f[j]);
                }
            }
            assert forall|i: int| 0 <= i < f.push(x).len() implies s.contains(
                #[trigger] f.push(x)[i],
            ) by {
                if i == f.len() {
                    assert(s[s.len() - 1] == x);
                } else {
                    let k = choose|k: int| 0 <= k < d.len() && d[k] == f[i];
                    assert(s[k] == d[k]);
                }
            }
        } else {
            assert forall|i: int| 0 <= i < f.len() implies s.contains(#[trigger] f[i]) by {
                let k = choose|k: int| 0 <= k < d.len() && d[k] == f[i];
                assert(s[k] == d[k]);
            }
        }
    } else {
        reveal(Seq::filter);
    }
}

proof fn lemma_merged_wf<C: Chapter>(s: Seq<C>, v: Seq<C>)
    requires
        forall|i: int| 0 <= i < s.len() ==> #[trigger] s[i].wf(),
        forall|i: int| 0 <= i < v.len() ==> #[trigger] v[i].wf(),
    ensures
        forall|i: int| 0 <= i < merged(s, v).len() ==> #[trigger] merged(s, v)[i].wf(),
    decreases v.len(),
{
    if v.len() > 0 {
        lemma_merged_wf(s, v.drop_last());
        let m = merged(s, v.drop_last());
        assert(v.last() == v[v.len() - 1]);
        assert forall|i: int| 0 <= i < m.push(v.last()).len() implies #[trigger] m.push(
            v.last(),
        )[i].wf() by {
            if i < m.len() {
                assert(m.push(v.last())[i] == m[i]);
            }
        }
    }
}

/// Merging never brings two chapters with one locator into a sequence
/// that had none.
pub proof fn lemma_merged_unique<C: Chapter>(s: Seq<C>, new: Seq<C>)
    requires
        unique_locators(s),
    ensures
        unique_locators(merged(s, new)),
        s.len() <= merged(s, new).len(),
        forall|i: int| 0 <= i < s.len() ==> merged(s, new)[i] == s[i],
    decreases new.len(),
{
    if new.len() > 0 {
        lemma_merged_unique(s, new.drop_last());
        let m = merged(s, new.drop_last());
        let c = new.last();
        if !locators(m).contains(c.locator()) {
            assert forall|i: int, j: int|
                0 <= i < j < m.push(c).len() implies #[trigger] m.push(c)[i].locator()
                != #[trigger] m.push(c)[j].locator() by {
                if j == m.len() {
                    assert(locators(m)[i] == m[i].locator());
                }
            }
        }
    }
}

/// The index of the first `:` in `s`, or `s.len()` when there is none.
pub open spec fn colon_index(s: Seq<char>) -> int
    decreases s.len(),
{
    if s.len() == 0 {
        0
    } else if s[0] == ':' {
        0
    } else {
        1 + colon_index(s.drop_first())
    }
}

/// The bounds, in hundredths, written by a non-empty range `lower:upper`;
/// `None` when `s` is not two floating-point numbers (see `is_float_token`)
/// separated by a single colon.
pub open spec fn range_bounds(s: Seq<char>) -> Option<(int, int)> {
    let k = colon_index(s);
    let lower = bound_hundredths(s.take(k));
    let upper = bound_hundredths(s.skip(k + 1));
    if k < s.len() && lower is Some && upper is Some {
        Some((lower->0, upper->0))
    } else {
        None
    }
}

/// Whether a chapter's ordinal lies within `[lb, ub]`, both ends included.
pub open spec fn in_range<C: Chapter>(lb: int, ub: int) -> spec_fn(C) -> bool {
    |c: C| lb <= c.ordinal() && c.ordinal() <= ub
}

proof fn lemma_colon_index(s: Seq<char>, k: int)
    requires
        0 <= k <= s.len(),
        forall|j: int| 0 <= j < k ==> s[j] != ':',
        k == s.len() || s[k] == ':',
    ensures
        colon_index(s) == k,
    decreases k,
{
    if k > 0 {
        lemma_colon_index(s.drop_first(), k - 1);
    }
}

proof fn lemma_colon_index_bounds(s: Seq<char>)
    ensures
        0 <= colon_index(s) <= s.len(),
        colon_index(s) < s.len() ==> s[colon_index(s)] == ':',
        forall|i: int| 0 <= i < colon_index(s) ==> s[i] != ':',
    decreases s.len(),
{
    if s.len() > 0 && s[0] != ':' {
        lemma_colon_index_bounds(s.drop_first());
        assert forall|i: int| 0 <= i < colon_index(s) implies s[i] != ':' by {
            if i > 0 {
                assert(s[i] == s.drop_first()[i - 1]);
            }
        }
    }
}

/// Two numbers joined by a single colon form a range whose bounds are
/// their values, whichever is larger.
pub proof fn lemma_range_of_joined(a: Seq<char>, b: Seq<char>)
    requires
        bound_hundredths(a) is Some,
        bound_hundredths(b) is Some,
    ensures
        range_bounds(a + seq![':'] + b) == Some((bound_hundredths(a)->0, bound_hundredths(b)->0)),
{
    let s = a + seq![':'] + b;
    lemma_float_chars(a, ':');
    assert forall|j: int| 0 <= j < a.len() implies s[j] != ':' by {
        assert(s[j] == a[j]);
    }
    lemma_colon_index(s, a.len() as int);
    assert(s.take(a.len() as int) =~= a);
    assert(s.skip(a.len() as int + 1) =~= b);
}

/// Text with no colon, or with more than one, is no range.
pub proof fn lemma_range_needs_one_colon(s: Seq<char>)
    requires
        !s.contains(':') || exists|i: int, j: int| 0 <= i < j < s.len() && s[i] == ':' && s[j]
            == ':',
    ensures
        range_bounds(s) is None,
{
    lemma_colon_index_bounds(s);
    let k = colon_index(s);
    if s.contains(':') {
        let (i, j) = choose|i: int, j: int| 0 <= i < j < s.len() && s[i] == ':' && s[j] == ':';
        assert(k <= i);
        let rest = s.skip(k + 1);
        assert(rest[j - k - 1] == ':');
        if bound_hundredths(rest) is Some {
            lemma_float_chars(rest, ':');
        }
    } else {
        if k < s.len() {
            assert(s.contains(s[k]));
        }
    }
}

/// Parses a chapter range `lower:upper` into bounds in hundredths. The empty
/// text means that no range is set; any other text that is not two numbers
/// separated by a single colon is an error.
pub fn parse_chapter_filter(a: &str) -> (r: Result<Option<(i64, i64)>, RobinError>)
    ensures
        match r {
            Ok(None) => a@.len() == 0,
            Ok(Some((lb, ub))) => a@.len() > 0 && range_bounds(a@) == Some((lb as int, ub as int)),
            Err(e) => a@.len() > 0 && range_bounds(a@) is None && e is Parse,
        },
{
    let n = a.unicode_len();
    if n == 0 {
        return Ok(None);
    }
    let mut k: usize = 0;
    loop
        invariant
            k <= n,
            n == a@.len(),
            forall|j: int| 0 <= j < k ==> a@[j] != ':',
        ensures
            k == n || a@[k as int] == ':',
        decreases n - k,
    {
        if k == n {
            break;
        }
        if a.get_char(k) == ':' {
            break;
        }
        k = k + 1;
    }
    proof {
        lemma_colon_index(a@, k as int);
    }
    if k == n {
        return Err(RobinError::Parse(String::from_str("a chapter range is written lower:upper")));
    }
    let lower = a.substring_char(0, k);
    let upper = a.substring_char(k + 1, n);
    assert(lower@ =~= a@.take(k as int));
    assert(upper@ =~= a@.skip(k + 1));
    match (parse_bound(lower), parse_bound(upper)) {
        (Some(lb), Some(ub)) => Ok(Some((lb, ub))),
        _ => Err(RobinError::Parse(String::from_str("a chapter range bound is not a number"))),
    }
}

/// Keeps the chapters whose ordinal lies within `[lb, ub]`, in their order.
pub fn apply_filter<C: Chapter>(chapters: &mut Vec<C>, lb: i64, ub: i64)
    ensures
        final(chapters)@ == old(chapters)@.filter(in_range::<C>(lb as int, ub as int)),
{
    let ghost s = old(chapters)@;
    let ghost p = in_range::<C>(lb as int, ub as int);
    let mut rest: Vec<C> = Vec::new();
    std::mem::swap(chapters, &mut rest);
    let mut kept: Vec<C> = Vec::new();
    let mut i: usize = 0;
    let total = rest.len();
    assert(s.take(0) =~= Seq::<C>::empty());
    proof {
        reveal(Seq::filter);
    }
    while i < total
        invariant
            total == s.len(),
            i <= s.len(),
            i + rest@.len() == s.len(),
            p == in_range::<C>(lb as int, ub as int),
            rest@ == s.skip(i as int),
            kept@ == s.take(i as int).filter(p),
        decreases rest.len(),
    {
        let c = rest.remove(0);
        proof {
            assert(s.take(i + 1) =~= s.take(i as int).push(c));
            s.take(i as int).lemma_filter_push(c, p);
        }
        let num = c.chapter_num();
        assert(p(c) == (lb <= num && num <= ub));
        if lb <= num && num <= ub {
            kept.push(c);
        }
        i = i + 1;
        assert(rest@ =~= s.skip(i as int));
    }
    assert(s.take(i as int) =~= s);
    *chapters = kept;
}

/// Applies the chapter range written in `filter` (see `parse_chapter_filter`);
/// the empty text keeps every chapter, and a malformed range changes nothing.
pub fn filter_chapters<C: Chapter>(chapters: &mut Vec<C>, filter: &str) -> (r: Result<(), RobinError>)
    ensures
        match r {
            Ok(()) => if filter@.len() == 0 {
                final(chapters)@ == old(chapters)@
            } else {
                match range_bounds(filter@) {
                    Some((lb, ub)) => final(chapters)@ == old(chapters)@.filter(in_range::<C>(lb, ub)),
                    None => false,
                }
            },
            Err(e) => filter@.len() > 0 && range_bounds(filter@) is None && e is Parse
                && final(chapters)@ == old(chapters)@,
        },
        chapters_wf(old(chapters)@) ==> chapters_wf(final(chapters)@),
{
    match parse_chapter_filter(filter) {
        Ok(Some((lb, ub))) => {
            let ghost s = chapters@;
            apply_filter(chapters, lb, ub);
            proof {
                if chapters_wf(s) {
                    let p = in_range::<C>(lb as int, ub as int);
                    lemma_filter_keeps_unique(s, p);
                    assert forall|i: int| 0 <= i < chapters@.len() implies #[trigger] chapters@[i].wf() by {
                        assert(s.contains(s.filter(p)[i]));
                    }
                }
            }
            Ok(())
        },
        Ok(None) => Ok(()),
        Err(e) => Err(e),
    }
}

/// Filtering by a range keeps exactly the chapters within it, in their
/// order; filtering the result again by the same range changes nothing.
pub proof fn lemma_filter_idempotent<C: Chapter>(s: Seq<C>, lb: int, ub: int)
    ensures
        s.filter(in_range::<C>(lb, ub)).filter(in_range::<C>(lb, ub)) == s.filter(
            in_range::<C>(lb, ub),
        ),
        forall|i: int|
            0 <= i < s.filter(in_range::<C>(lb, ub)).len() ==> lb <= #[trigger] s.filter(
                in_range::<C>(lb, ub),
            )[i].ordinal() <= ub,
        forall|i: int|
            0 <= i < s.len() && lb <= #[trigger] s[i].ordinal() <= ub ==> s.filter(
                in_range::<C>(lb, ub),
            ).contains(s[i]),
    decreases s.len(),
{
    let p = in_range::<C>(lb, ub);
    broadcast use Seq::lemma_filter_pred, Seq::lemma_filter_contains;
    if s.len() > 0 {
        let d = s.drop_last();
        lemma_filter_idempotent(d, lb, ub);
        assert(s =~= d.push(s.last()));
        d.lemma_filter_push(s.last(), p);
        if p(s.last()) {
            d.filter(p).lemma_filter_push(s.last(), p);
        }
    } else {
        reveal(Seq::filter);
    }
}

proof fn lemma_filter_numbered_prefix<C: Chapter>(s: Seq<C>, n: int)
    requires
        s.len() == 10,
        forall|i: int| 0 <= i < 10 ==> #[trigger] s[i].ordinal() == (i + 1) * 100,
        0 <= n <= 10,
    ensures
        s.take(n).filter(in_range::<C>(300, 700)) == s.subrange(
            2,
            if n < 2 {
                2
            } else if n > 7 {
                7
            } else {
                n
            },
        ),
    decreases n,
{
    let p = in_range::<C>(300, 700);
    if n == 0 {
        reveal(Seq::filter);
        assert(s.take(0).filter(p) =~= s.subrange(2, 2));
    } else {
        lemma_filter_numbered_prefix(s, n - 1);
        assert(s.take(n) =~= s.take(n - 1).push(s[n - 1]));
        s.take(n - 1).lemma_filter_push(s[n - 1], p);
        assert(s[n - 1].ordinal() == n * 100);
        if 3 <= n <= 7 {
            assert(s.subrange(2, n) =~= s.subrange(2, n - 1).push(s[n - 1]));
        }
    }
}

/// Chapters numbered 1 to 10, in order, filtered by the range `3:7`
/// (in hundredths, 300 to 700): exactly chapters 3, 4, 5, 6 and 7 remain,
/// in order.
pub proof fn lemma_filter_three_to_seven<C: Chapter>(s: Seq<C>)
    requires
        s.len() == 10,
        forall|i: int| 0 <= i < 10 ==> #[trigger] s[i].ordinal() == (i + 1) * 100,
    ensures
        range_bounds(seq!['3', ':', '7']) == Some((300int, 700int)),
        s.filter(in_range::<C>(300, 700)) == s.subrange(2, 7),
        s.filter(in_range::<C>(300, 700)).map_values(|c: C| c.ordinal()) == seq![
            300int,
            400,
            500,
            600,
            700,
        ],
{
    lemma_range_three_to_seven();
    lemma_filter_numbered_prefix(s, 10);
    assert(s.take(10) =~= s);
    let f = s.subrange(2, 7);
    assert(f.map_values(|c: C| c.ordinal()) =~= seq![300int, 400, 500, 600, 700]) by {
        assert(f[0] == s[2] && f[1] == s[3] && f[2] == s[4] && f[3] == s[5] && f[4] == s[6]);
    }
}

/// The range `3:7` has the bounds 300 and 700 in hundredths.
pub proof fn lemma_range_three_to_seven()
    ensures
        range_bounds(seq!['3', ':', '7']) == Some((300int, 700int)),
{
    let s = seq!['3', ':', '7'];
    lemma_colon_index(s, 1);
    assert(s.take(1) =~= seq!['3']);
    assert(s.skip(2) =~= seq!['7']);
    lemma_single_digit_bound('3');
    lemma_single_digit_bound('7');
}

} // verus!
