//! Filtering and ordering of resolved schedules: by distance from today, by
//! substring, or by a window of day counts.
use vstd::prelude::*;

use crate::cli::Command;
use crate::parser::date_window::DateWindow;
use crate::parser::schedule::Schedule;
use crate::strutil::spec_contains;
use crate::strutil::str_contains;

verus! {

/// One filtering rule over resolved schedules.
#[derive(Clone, Debug, PartialEq)]
pub enum FilterOption {
    Ranged { future: i32, past: i32 },
    All,
    SubStr(String),
    DateWindow(DateWindow),
}

impl FilterOption {
    /// A window of days around today: strictly fewer than `future` days
    /// ahead and strictly fewer than `past` days behind.
    pub fn new_ranged(future: i32, past: i32) -> (r: FilterOption)
        ensures
            r == (FilterOption::Ranged { future, past }),
    {
        FilterOption::Ranged { future, past }
    }

    /// Keeps schedules whose description contains the given text.
    pub fn new_sub_str(sub_str: String) -> (r: FilterOption)
        ensures
            r == FilterOption::SubStr(sub_str),
    {
        FilterOption::SubStr(sub_str)
    }

    /// Keeps schedules whose day count lies in the window.
    pub fn date_window(dw: DateWindow) -> (r: FilterOption)
        ensures
            r == FilterOption::DateWindow(dw),
    {
        FilterOption::DateWindow(dw)
    }
}

/// Whether one schedule passes one rule.
pub open spec fn spec_keep(sch: Schedule, f: FilterOption) -> bool {
    match f {
        FilterOption::Ranged { future, past } => sch.diff < future && sch.diff > -(past as int),
        FilterOption::All => true,
        FilterOption::SubStr(sub) => spec_contains(sch.description@, sub@),
        FilterOption::DateWindow(dw) => dw.begin <= sch.julian_day_number
            && sch.julian_day_number <= dw.end,
    }
}

/// Schedules in order of their day counts.
pub open spec fn sorted_by_jdn(s: Seq<Schedule>) -> bool {
    forall|i: int, j: int|
        0 <= i < j < s.len() ==> s[i].julian_day_number <= s[j].julian_day_number
}

/// Holding one given day count.
pub open spec fn has_jdn(v: int) -> spec_fn(Schedule) -> bool {
    |sch: Schedule| sch.julian_day_number == v
}

/// The subsequence of schedules with one given day count, in order.
pub open spec fn with_jdn(s: Seq<Schedule>, v: int) -> Seq<Schedule> {
    s.filter(has_jdn(v))
}

/// Two sequences hold, for every day count, the same schedules in the same
/// relative order: what an order-keeping (stable) rearrangement preserves.
pub open spec fn same_key_classes(a: Seq<Schedule>, b: Seq<Schedule>) -> bool {
    forall|v: int| #[trigger] with_jdn(a, v) == with_jdn(b, v)
}

proof fn lemma_filter_all_false(s: Seq<Schedule>, p: spec_fn(Schedule) -> bool)
    requires
        forall|i: int| 0 <= i < s.len() ==> !p(#[trigger] s[i]),
    ensures
        s.filter(p) == Seq::<Schedule>::empty(),
    decreases s.len(),
{
    reveal(Seq::filter);
    if s.len() > 0 {
        assert forall|i: int| 0 <= i < s.drop_last().len() implies !p(
            #[trigger] s.drop_last()[i],
        ) by {
            assert(s.drop_last()[i] == s[i]);
        }
        lemma_filter_all_false(s.drop_last(), p);
        assert(!p(s.last()));
    }
    assert(s.filter(p) =~= Seq::<Schedule>::empty());
}

proof fn lemma_filter_one(x: Schedule, p: spec_fn(Schedule) -> bool)
    ensures
        p(x) ==> seq![x].filter(p) == seq![x],
        !p(x) ==> seq![x].filter(p) == Seq::<Schedule>::empty(),
{
    reveal(Seq::filter);
    assert(seq![x].drop_last() =~= Seq::<Schedule>::empty());
    assert(seq![x].last() == x);
    assert(Seq::<Schedule>::empty().filter(p) =~= Seq::<Schedule>::empty());
    if p(x) {
        assert(seq![x].filter(p) =~= seq![x]);
    } else {
        assert(seq![x].filter(p) =~= Seq::<Schedule>::empty());
    }
}

proof fn lemma_filter_push(s: Seq<Schedule>, x: Schedule, p: spec_fn(Schedule) -> bool)
    ensures
        p(x) ==> s.push(x).filter(p) == s.filter(p).push(x),
        !p(x) ==> s.push(x).filter(p) == s.filter(p),
{
    reveal(Seq::filter);
    assert(s.push(x).drop_last() =~= s);
    assert(s.push(x).last() == x);
}

/// Removing an element that a predicate rejects leaves its filtering
/// untouched; removing the first element it accepts takes exactly the head
/// of its filtering.
proof fn lemma_filter_remove(s: Seq<Schedule>, i: int, p: spec_fn(Schedule) -> bool)
    requires
        0 <= i < s.len(),
    ensures
        !p(s[i]) ==> s.remove(i).filter(p) == s.filter(p),
        (p(s[i]) && (forall|j: int| 0 <= j < i ==> !p(#[trigger] s[j]))) ==> s.filter(p) == seq![
            s[i],
        ] + s.remove(i).filter(p),
{
    broadcast use vstd::seq_lib::group_seq_lib_default;

    let s0 = s.subrange(0, i);
    let s1 = s.subrange(i + 1, s.len() as int);
    assert(s =~= (s0 + seq![s[i]]) + s1);
    assert(s.remove(i) =~= s0 + s1);
    lemma_filter_one(s[i], p);
    assert(((s0 + seq![s[i]]) + s1).filter(p) == (s0 + seq![s[i]]).filter(p) + s1.filter(p));
    assert((s0 + seq![s[i]]).filter(p) == s0.filter(p) + seq![s[i]].filter(p));
    assert((s0 + s1).filter(p) == s0.filter(p) + s1.filter(p));
    if !p(s[i]) {
        assert(s.filter(p) =~= s.remove(i).filter(p));
    } else if forall|j: int| 0 <= j < i ==> !p(#[trigger] s[j]) {
        assert forall|j: int| 0 <= j < s0.len() implies !p(#[trigger] s0[j]) by {
            assert(s0[j] == s[j]);
        }
        lemma_filter_all_false(s0, p);
        assert(s.filter(p) =~= seq![s[i]] + s.remove(i).filter(p));
    }
}

fn keep(sch: &Schedule, f: &FilterOption) -> (r: bool)
    ensures
        r == spec_keep(*sch, *f),
{
    match f {
        FilterOption::Ranged { future, past } => (sch.diff as i64) < (*future as i64) && (
        sch.diff as i64) > -(*past as i64),
        FilterOption::All => true,
        FilterOption::SubStr(sub) => str_contains(sch.description.as_str(), sub.as_str()),
        FilterOption::DateWindow(dw) => dw.begin <= sch.julian_day_number && sch.julian_day_number
            <= dw.end,
    }
}

fn filter_vec(v: Vec<Schedule>, f: &FilterOption) -> (r: Vec<Schedule>)
    ensures
        r@ == v@.filter(|sch: Schedule| spec_keep(sch, *f)),
        forall|k: int|
            0 <= k < r@.len() ==> spec_keep(#[trigger] r@[k], *f) && v@.contains(r@[k]),
{
    let ghost orig = v@;
    let ghost pred = |sch: Schedule| spec_keep(sch, *f);
    let mut v = v;
    let mut out: Vec<Schedule> = Vec::new();
    proof {
        reveal(Seq::filter);
        assert(orig.take(0).filter(pred) =~= Seq::<Schedule>::empty());
    }
    let n = v.len();
    let mut i: usize = 0;
    while i < n
        invariant
            n == orig.len(),
            i <= n,
            v@ == orig.skip(i as int),
            out@ == orig.take(i as int).filter(pred),
            pred == (|sch: Schedule| spec_keep(sch, *f)),
            forall|k: int|
                0 <= k < out@.len() ==> spec_keep(#[trigger] out@[k], *f) && orig.contains(
                    out@[k],
                ),
        decreases n - i,
    {
        let x = v.remove(0);
        proof {
            assert(orig.skip(i as int).remove(0) =~= orig.skip(i + 1));
            assert(orig.skip(i as int)[0] == orig[i as int]);
            assert(orig.take(i + 1).drop_last() =~= orig.take(i as int));
            assert(orig.take(i + 1).last() == orig[i as int]);
        }
        if keep(&x, f) {
            out.push(x);
            proof {
                assert(orig.contains(orig[i as int]));
            }
        }
        proof {
            reveal(Seq::filter);
            assert(out@ =~= orig.take(i + 1).filter(pred));
        }
        i = i + 1;
    }
    proof {
        assert(orig.take(n as int) =~= orig);
    }
    out
}

fn sort_schedules(v: Vec<Schedule>) -> (r: Vec<Schedule>)
    ensures
        sorted_by_jdn(r@),
        same_key_classes(r@, v@),
        r@.to_multiset() == v@.to_multiset(),
        forall|k: int| 0 <= k < r@.len() ==> v@.contains(#[trigger] r@[k]),
{
    broadcast use vstd::seq_lib::group_to_multiset_ensures;
    broadcast use vstd::multiset::group_multiset_axioms;

    let ghost orig = v@;
    let mut v = v;
    let mut out: Vec<Schedule> = Vec::new();
    proof {
        assert forall|x: Schedule| #[trigger] out@.to_multiset().add(v@.to_multiset()).count(x)
            == orig.to_multiset().count(x) by {
            assert(out@.to_multiset().count(x) == 0);
        }
        assert(out@.to_multiset().add(v@.to_multiset()) =~= orig.to_multiset());
        assert forall|v0: int| #[trigger] with_jdn(out@, v0) + with_jdn(v@, v0) == with_jdn(
            orig,
            v0,
        ) by {
            lemma_filter_all_false(out@, has_jdn(v0));
            assert(with_jdn(out@, v0) + with_jdn(v@, v0) =~= with_jdn(orig, v0));
        }
    }
    while v.len() > 0
        invariant
            out@.to_multiset().add(v@.to_multiset()) == orig.to_multiset(),
            sorted_by_jdn(out@),
            forall|v0: int| #[trigger] with_jdn(out@, v0) + with_jdn(v@, v0) == with_jdn(orig, v0),
            forall|i: int, j: int|
                0 <= i < out@.len() && 0 <= j < v@.len() ==> out@[i].julian_day_number
                    <= v@[j].julian_day_number,
        decreases v.len(),
    {
        let mut mi: usize = 0;
        let mut k: usize = 1;
        while k < v.len()
            invariant
                mi < k <= v@.len(),
                forall|t: int|
                    0 <= t < k ==> v@[mi as int].julian_day_number <= v@[t].julian_day_number,
                forall|t: int|
                    0 <= t < mi ==> v@[t].julian_day_number > v@[mi as int].julian_day_number,
            decreases v.len() - k,
        {
            if v[k].julian_day_number < v[mi].julian_day_number {
                mi = k;
            }
            k = k + 1;
        }
        let ghost vpre = v@;
        let ghost outpre = out@;
        let x = v.remove(mi);
        out.push(x);
        proof {
            broadcast use vstd::seq_lib::group_to_multiset_ensures;
            broadcast use vstd::multiset::group_multiset_axioms;

            assert(x == vpre[mi as int]);
            assert(vpre.contains(x));
            assert(vpre.to_multiset().count(x) > 0);
            assert(v@ == vpre.remove(mi as int));
            assert(vpre.remove(mi as int).to_multiset() =~= vpre.to_multiset().remove(x));
            assert(out@ == outpre.push(x));
            assert(outpre.push(x).to_multiset() =~= outpre.to_multiset().insert(x));
            assert forall|y: Schedule| #[trigger] out@.to_multiset().add(v@.to_multiset()).count(y)
                == orig.to_multiset().count(y) by {
                assert(outpre.to_multiset().add(vpre.to_multiset()).count(y) == orig.to_multiset()
                    .count(y));
            }
            assert(out@.to_multiset().add(v@.to_multiset()) =~= orig.to_multiset());
            assert forall|v0: int| #[trigger] with_jdn(out@, v0) + with_jdn(v@, v0) == with_jdn(
                orig,
                v0,
            ) by {
                lemma_filter_push(outpre, x, has_jdn(v0));
                lemma_filter_remove(vpre, mi as int, has_jdn(v0));
                if x.julian_day_number == v0 {
                    assert forall|j: int| 0 <= j < mi implies !(has_jdn(v0)(
                        #[trigger] vpre[j],
                    )) by {
                        assert(vpre[j].julian_day_number > x.julian_day_number);
                    }
                    assert(with_jdn(vpre, v0) == seq![x] + with_jdn(v@, v0));
                    assert(with_jdn(out@, v0) == with_jdn(outpre, v0).push(x));
                    assert(with_jdn(outpre, v0).push(x) + with_jdn(v@, v0) =~= with_jdn(
                        outpre,
                        v0,
                    ) + (seq![x] + with_jdn(v@, v0)));
                } else {
                    assert(!(has_jdn(v0)(x)));
                    assert(with_jdn(v@, v0) == with_jdn(vpre, v0));
                    assert(with_jdn(out@, v0) == with_jdn(outpre, v0));
                }
            }
            assert forall|i: int, j: int|
                0 <= i < out@.len() && 0 <= j < v@.len() implies out@[i].julian_day_number
                <= v@[j].julian_day_number by {
                assert(v@[j] == if j < mi {
                    vpre[j]
                } else {
                    vpre[j + 1]
                });
            }
        }
    }
    proof {
        broadcast use vstd::seq_lib::group_to_multiset_ensures;
        broadcast use vstd::multiset::group_multiset_axioms;

        assert forall|x: Schedule| #[trigger] orig.to_multiset().count(x)
            == out@.to_multiset().count(x) by {
            assert(v@.to_multiset().count(x) == 0);
        }
        assert(out@.to_multiset() =~= orig.to_multiset());
        assert forall|k: int| 0 <= k < out@.len() implies orig.contains(#[trigger] out@[k]) by {
            assert(out@.contains(out@[k]));
            assert(out@.to_multiset().count(out@[k]) > 0);
            assert(orig.to_multiset().count(out@[k]) > 0);
        }
        assert forall|v0: int| #[trigger] with_jdn(out@, v0) == with_jdn(orig, v0) by {
            lemma_filter_all_false(v@, has_jdn(v0));
            assert(with_jdn(out@, v0) + with_jdn(v@, v0) =~= with_jdn(out@, v0));
        }
    }
    out
}

/// Applies one optional rule: with none the schedules pass unchanged; with
/// one they are filtered by it and ordered by day count.
pub fn filter_schedules(schedules: Vec<Schedule>, filter_options: Option<FilterOption>) -> (r: Vec<
    Schedule,
>)
    ensures
        filter_options is None ==> r@ == schedules@,
        filter_options matches Some(f) ==> sorted_by_jdn(r@) && r@.to_multiset() == schedules@
            .filter(|sch: Schedule| spec_keep(sch, f)).to_multiset(),
        filter_options matches Some(f) ==> same_key_classes(
            r@,
            schedules@.filter(|sch: Schedule| spec_keep(sch, f)),
        ),
        filter_options matches Some(f) ==> forall|k: int|
            0 <= k < r@.len() ==> spec_keep(#[trigger] r@[k], f) && schedules@.contains(r@[k]),
{
    match filter_options {
        None => schedules,
        Some(f) => {
            let kept = filter_vec(schedules, &f);
            let ghost keptv = kept@;
            let r = sort_schedules(kept);
            proof {
                assert forall|k: int|
                    0 <= k < r@.len() implies spec_keep(#[trigger] r@[k], f) && schedules@.contains(
                    r@[k],
                ) by {
                    let x = r@[k];
                    assert(keptv.contains(x));
                    let w = choose|w: int| 0 <= w < keptv.len() && keptv[w] == x;
                    assert(spec_keep(keptv[w], f));
                }
            }
            r
        },
    }
}

/// The rule a subcommand stands for: a week, a month or a year of lookahead
/// with one day behind, everything, or nothing at all.
pub fn command_to_filter(command: Option<&Command>) -> (r: Option<FilterOption>)
    ensures
        r == (match command {
            Some(c) => match *c {
                Command::Week => Some(FilterOption::Ranged { future: 7, past: 1 }),
                Command::Month => Some(FilterOption::Ranged { future: 30, past: 1 }),
                Command::Year => Some(FilterOption::Ranged { future: 365, past: 1 }),
                Command::All => Some(FilterOption::All),
                Command::Edit => None::<FilterOption>,
            },
            None => None::<FilterOption>,
        }),
{
    match command {
        Some(c) => match c {
            Command::Week => Some(FilterOption::Ranged { future: 7, past: 1 }),
            Command::Month => Some(FilterOption::Ranged { future: 30, past: 1 }),
            Command::Year => Some(FilterOption::Ranged { future: 365, past: 1 }),
            Command::All => Some(FilterOption::All),
            Command::Edit => None,
        },
        None => None,
    }
}

/// Passing every present rule of a pipeline, as one predicate.
pub open spec fn pipeline_pred(pipe: Seq<Option<FilterOption>>) -> spec_fn(Schedule) -> bool {
    |sch: Schedule| spec_pipeline_keep(sch, pipe)
}

/// One pipeline stage, on the multiset of schedules: an absent rule keeps
/// everything, a present one keeps what passes it.
pub open spec fn spec_apply_filter(
    ms: vstd::multiset::Multiset<Schedule>,
    o: Option<FilterOption>,
) -> vstd::multiset::Multiset<Schedule> {
    match o {
        None => ms,
        Some(f) => ms.filter(|sch: Schedule| spec_keep(sch, f)),
    }
}

/// The whole pipeline, folded over the multiset of schedules.
pub open spec fn spec_pipeline_multiset(
    ms: vstd::multiset::Multiset<Schedule>,
    pipe: Seq<Option<FilterOption>>,
) -> vstd::multiset::Multiset<Schedule>
    decreases pipe.len(),
{
    if pipe.len() == 0 {
        ms
    } else {
        spec_apply_filter(spec_pipeline_multiset(ms, pipe.drop_last()), pipe.last())
    }
}

/// Filtering a sequence and then collecting it is collecting it and then
/// filtering the multiset.
proof fn lemma_filter_to_multiset(s: Seq<Schedule>, pred: spec_fn(Schedule) -> bool)
    ensures
        s.filter(pred).to_multiset() == s.to_multiset().filter(pred),
    decreases s.len(),
{
    broadcast use vstd::seq_lib::group_to_multiset_ensures;
    broadcast use vstd::multiset::group_multiset_axioms;

    reveal(Seq::filter);
    if s.len() == 0 {
        assert forall|x: Schedule| #[trigger] s.filter(pred).to_multiset().count(x)
            == s.to_multiset().filter(pred).count(x) by {
            assert(!s.contains(x));
            assert(s.to_multiset().count(x) == 0);
        }
        assert(s.filter(pred).to_multiset() =~= s.to_multiset().filter(pred));
    } else {
        lemma_filter_to_multiset(s.drop_last(), pred);
        let dl = s.drop_last();
        let last = s.last();
        assert(s =~= dl.push(last));
        assert(dl.push(last).to_multiset() =~= dl.to_multiset().insert(last));
        if pred(last) {
            assert(s.filter(pred) == dl.filter(pred).push(last));
            assert(dl.filter(pred).push(last).to_multiset() =~= dl.filter(pred).to_multiset()
                .insert(last));
        } else {
            assert(s.filter(pred) == dl.filter(pred));
        }
        assert forall|x: Schedule| #[trigger] s.filter(pred).to_multiset().count(x)
            == s.to_multiset().filter(pred).count(x) by {
            assert(dl.filter(pred).to_multiset().count(x) == dl.to_multiset().filter(pred).count(
                x,
            ));
        }
        assert(s.filter(pred).to_multiset() =~= s.to_multiset().filter(pred));
    }
}

proof fn lemma_filter_first(s: Seq<Schedule>, p: spec_fn(Schedule) -> bool)
    requires
        s.len() > 0,
    ensures
        p(s[0]) ==> s.filter(p) == seq![s[0]] + s.drop_first().filter(p),
        !p(s[0]) ==> s.filter(p) == s.drop_first().filter(p),
{
    broadcast use vstd::seq_lib::group_seq_lib_default;

    assert(s =~= seq![s[0]] + s.drop_first());
    lemma_filter_one(s[0], p);
    assert((seq![s[0]] + s.drop_first()).filter(p) == seq![s[0]].filter(p) + s.drop_first().filter(
        p,
    ));
    if p(s[0]) {
        assert(s.filter(p) =~= seq![s[0]] + s.drop_first().filter(p));
    } else {
        assert(s.filter(p) =~= s.drop_first().filter(p));
    }
}

proof fn lemma_filter_nonempty_member(s: Seq<Schedule>, p: spec_fn(Schedule) -> bool)
    requires
        s.filter(p).len() > 0,
    ensures
        exists|j: int| 0 <= j < s.len() && p(#[trigger] s[j]),
    decreases s.len(),
{
    reveal(Seq::filter);
    if s.len() > 0 {
        if p(s.last()) {
            assert(p(s[s.len() - 1]));
        } else {
            lemma_filter_nonempty_member(s.drop_last(), p);
            let j = choose|j: int| 0 <= j < s.drop_last().len() && p(s.drop_last()[j]);
            assert(p(s[j]));
        }
    }
}

/// Law: the order by day count together with the per-day-count
/// subsequences determines a sequence of schedules completely. With the
/// filters' contracts this pins each result as a value, and lets the
/// stages of a pipeline compose.
pub proof fn lemma_sorted_key_classes_unique(a: Seq<Schedule>, b: Seq<Schedule>)
    requires
        sorted_by_jdn(a),
        sorted_by_jdn(b),
        same_key_classes(a, b),
    ensures
        a == b,
    decreases a.len(),
{
    if a.len() == 0 {
        if b.len() > 0 {
            let v = b[0].julian_day_number as int;
            lemma_filter_first(b, has_jdn(v));
            lemma_filter_all_false(a, has_jdn(v));
            assert(with_jdn(b, v) == with_jdn(a, v));
            assert(false);
        }
        assert(a =~= b);
    } else {
        let va = a[0].julian_day_number as int;
        if b.len() == 0 {
            lemma_filter_first(a, has_jdn(va));
            lemma_filter_all_false(b, has_jdn(va));
            assert(with_jdn(a, va) == with_jdn(b, va));
            assert(false);
        }
        let vb = b[0].julian_day_number as int;
        // the least keys agree
        assert(vb <= va) by {
            lemma_filter_first(a, has_jdn(va));
            assert(with_jdn(b, va) == with_jdn(a, va));
            lemma_filter_nonempty_member(b, has_jdn(va));
            let j = choose|j: int| 0 <= j < b.len() && has_jdn(va)(b[j]);
            assert(b[0].julian_day_number <= b[j].julian_day_number);
        }
        assert(va <= vb) by {
            lemma_filter_first(b, has_jdn(vb));
            assert(with_jdn(a, vb) == with_jdn(b, vb));
            lemma_filter_nonempty_member(a, has_jdn(vb));
            let j = choose|j: int| 0 <= j < a.len() && has_jdn(vb)(a[j]);
            assert(a[0].julian_day_number <= a[j].julian_day_number);
        }
        let v = va;
        lemma_filter_first(a, has_jdn(v));
        lemma_filter_first(b, has_jdn(v));
        assert(with_jdn(a, v) == with_jdn(b, v));
        assert(seq![a[0]] + a.drop_first().filter(has_jdn(v)) == seq![b[0]] + b.drop_first().filter(
            has_jdn(v),
        ));
        assert(a[0] == b[0]) by {
            assert((seq![a[0]] + a.drop_first().filter(has_jdn(v)))[0] == a[0]);
            assert((seq![b[0]] + b.drop_first().filter(has_jdn(v)))[0] == b[0]);
        }
        let a1 = a.drop_first();
        let b1 = b.drop_first();
        assert(sorted_by_jdn(a1)) by {
            assert(forall|i: int| 0 <= i < a1.len() ==> a1[i] == a[i + 1]);
        }
        assert(sorted_by_jdn(b1)) by {
            assert(forall|i: int| 0 <= i < b1.len() ==> b1[i] == b[i + 1]);
        }
        assert forall|u: int| #[trigger] with_jdn(a1, u) == with_jdn(b1, u) by {
            lemma_filter_first(a, has_jdn(u));
            lemma_filter_first(b, has_jdn(u));
            assert(with_jdn(a, u) == with_jdn(b, u));
            if u == v {
                assert(seq![a[0]] + with_jdn(a1, u) == seq![b[0]] + with_jdn(b1, u));
                assert(with_jdn(a1, u) =~= (seq![a[0]] + with_jdn(a1, u)).drop_first());
                assert(with_jdn(b1, u) =~= (seq![b[0]] + with_jdn(b1, u)).drop_first());
            }
        }
        lemma_sorted_key_classes_unique(a1, b1);
        assert(a =~= seq![a[0]] + a1);
        assert(b =~= seq![b[0]] + b1);
    }
}

/// Both predicates at once.
pub open spec fn and_then(
    p: spec_fn(Schedule) -> bool,
    q: spec_fn(Schedule) -> bool,
) -> spec_fn(Schedule) -> bool {
    |x: Schedule| p(x) && q(x)
}

proof fn lemma_filter_compose(s: Seq<Schedule>, p: spec_fn(Schedule) -> bool, q: spec_fn(
    Schedule,
) -> bool)
    ensures
        s.filter(p).filter(q) == s.filter(and_then(p, q)),
    decreases s.len(),
{
    reveal(Seq::filter);
    if s.len() == 0 {
        assert(s.filter(p).filter(q) =~= s.filter(and_then(p, q)));
    } else {
        lemma_filter_compose(s.drop_last(), p, q);
        if p(s.last()) {
            lemma_filter_push(s.drop_last().filter(p), s.last(), q);
        }
        assert(s.filter(p).filter(q) =~= s.filter(and_then(p, q)));
    }
}

proof fn lemma_filter_ext(s: Seq<Schedule>, p: spec_fn(Schedule) -> bool, q: spec_fn(
    Schedule,
) -> bool)
    requires
        forall|x: Schedule| #[trigger] p(x) == q(x),
    ensures
        s.filter(p) == s.filter(q),
    decreases s.len(),
{
    reveal(Seq::filter);
    if s.len() > 0 {
        lemma_filter_ext(s.drop_last(), p, q);
    }
    assert(s.filter(p) =~= s.filter(q));
}

/// Every rule of a pipeline that is present holds of a schedule.
pub open spec fn spec_pipeline_keep(sch: Schedule, pipe: Seq<Option<FilterOption>>) -> bool {
    forall|i: int|
        0 <= i < pipe.len() ==> match #[trigger] pipe[i] {
            Some(f) => spec_keep(sch, f),
            None => true,
        }
}

/// Applies each optional rule in order. Afterwards every kept schedule came
/// from the input and passes every present rule, and if any rule was
/// present the result is ordered by day count.
pub fn filter_pipeline(schedules: Vec<Schedule>, pipeline: Vec<Option<FilterOption>>) -> (r: Vec<
    Schedule,
>)
    ensures
        r@.to_multiset() == spec_pipeline_multiset(schedules@.to_multiset(), pipeline@),
        forall|k: int|
            0 <= k < r@.len() ==> spec_pipeline_keep(#[trigger] r@[k], pipeline@)
                && schedules@.contains(r@[k]),
        (forall|i: int| 0 <= i < pipeline@.len() ==> pipeline@[i] is None) ==> r@ == schedules@,
        (exists|i: int| 0 <= i < pipeline@.len() && pipeline@[i] is Some) ==> sorted_by_jdn(r@)
            && same_key_classes(r@, schedules@.filter(pipeline_pred(pipeline@))),
{
    let ghost pipe = pipeline@;
    let ghost orig = schedules@;
    let mut pipeline = pipeline;
    let mut acc = schedules;
    let n = pipeline.len();
    let mut i: usize = 0;
    proof {
        assert forall|k: int| 0 <= k < acc@.len() implies spec_pipeline_keep(
            #[trigger] acc@[k],
            pipe.take(0),
        ) && orig.contains(acc@[k]) by {
            assert(orig[k] == acc@[k]);
        }
    }
    while i < n
        invariant
            n == pipe.len(),
            i <= n,
            pipeline@ == pipe.skip(i as int),
            acc@.to_multiset() == spec_pipeline_multiset(orig.to_multiset(), pipe.take(i as int)),
            forall|k: int|
                0 <= k < acc@.len() ==> spec_pipeline_keep(#[trigger] acc@[k], pipe.take(i as int))
                    && orig.contains(acc@[k]),
            (forall|k: int| 0 <= k < i ==> pipe[k] is None) ==> acc@ == orig,
            (exists|k: int| 0 <= k < i && pipe[k] is Some) ==> same_key_classes(
                acc@,
                orig.filter(pipeline_pred(pipe.take(i as int))),
            ),
            (exists|k: int| 0 <= k < i && pipe[k] is Some) ==> sorted_by_jdn(acc@),
        decreases n - i,
    {
        let o = pipeline.remove(0);
        proof {
            assert(pipe.skip(i as int).remove(0) =~= pipe.skip(i + 1));
            assert(pipe.skip(i as int)[0] == pipe[i as int]);
        }
        let ghost accpre = acc@;
        acc = filter_schedules(acc, o);
        proof {
            let prev = pipe.take(i as int);
            assert(pipe.take(i + 1).drop_last() =~= prev);
            assert(pipe.take(i + 1).last() == pipe[i as int]);
            match pipe[i as int] {
                None => {
                    assert(acc@.to_multiset() == spec_pipeline_multiset(
                        orig.to_multiset(),
                        pipe.take(i + 1),
                    ));
                },
                Some(f) => {
                    lemma_filter_to_multiset(accpre, |sch: Schedule| spec_keep(sch, f));
                    assert(acc@.to_multiset() == spec_pipeline_multiset(
                        orig.to_multiset(),
                        pipe.take(i + 1),
                    ));
                },
            }
            assert forall|k: int| 0 <= k < acc@.len() implies spec_pipeline_keep(
                #[trigger] acc@[k],
                pipe.take(i + 1),
            ) && orig.contains(acc@[k]) by {
                let x = acc@[k];
                match pipe[i as int] {
                    None => {
                        assert(acc@ == accpre);
                        assert(spec_pipeline_keep(x, prev));
                        assert(orig.contains(x));
                    },
                    Some(f) => {
                        assert(spec_keep(x, f));
                        assert(accpre.contains(x));
                        let u = choose|u: int| 0 <= u < accpre.len() && accpre[u] == x;
                        assert(spec_pipeline_keep(accpre[u], prev));
                        assert(orig.contains(accpre[u]));
                    },
                }
                assert forall|t: int|
                    0 <= t < pipe.take(i + 1).len() implies match #[trigger] pipe.take(i + 1)[t] {
                    Some(g) => spec_keep(x, g),
                    None => true,
                } by {
                    if t < i {
                        assert(pipe.take(i + 1)[t] == prev[t]);
                    }
                }
            }
            assert forall|k: int| 0 <= k < i + 1 && pipe[k] is Some implies sorted_by_jdn(acc@) by {
                match pipe[i as int] {
                    None => {
                        assert(acc@ == accpre);
                        if k < i {
                            assert(sorted_by_jdn(accpre));
                        }
                    },
                    Some(_) => {},
                }
            }
            // the step of the predicate: one more stage conjoined
            let pi = pipeline_pred(prev);
            let pi1 = pipeline_pred(pipe.take(i + 1));
            match pipe[i as int] {
                None => {
                    assert forall|x: Schedule| #[trigger] pi1(x) == pi(x) by {
                        if pi(x) {
                            assert forall|u: int|
                                0 <= u < pipe.take(i + 1).len() implies match #[trigger] pipe.take(
                                i + 1,
                            )[u] {
                                Some(g) => spec_keep(x, g),
                                None => true,
                            } by {
                                if u < i {
                                    assert(pipe.take(i + 1)[u] == prev[u]);
                                }
                            }
                        }
                        if pi1(x) {
                            assert forall|u: int|
                                0 <= u < prev.len() implies match #[trigger] prev[u] {
                                Some(g) => spec_keep(x, g),
                                None => true,
                            } by {
                                assert(prev[u] == pipe.take(i + 1)[u]);
                            }
                        }
                    }
                    lemma_filter_ext(orig, pi, pi1);
                    if exists|k: int| 0 <= k < i + 1 && pipe[k] is Some {
                        assert(exists|k: int| 0 <= k < i && pipe[k] is Some);
                        assert(same_key_classes(acc@, orig.filter(pi1)));
                    }
                },
                Some(f) => {
                    let pf = |sch: Schedule| spec_keep(sch, f);
                    assert forall|x: Schedule| #[trigger] pi1(x) == (pi(x) && pf(x)) by {
                        if pi(x) && pf(x) {
                            assert forall|u: int|
                                0 <= u < pipe.take(i + 1).len() implies match #[trigger] pipe.take(
                                i + 1,
                            )[u] {
                                Some(g) => spec_keep(x, g),
                                None => true,
                            } by {
                                if u < i {
                                    assert(pipe.take(i + 1)[u] == prev[u]);
                                }
                            }
                        }
                        if pi1(x) {
                            assert forall|u: int|
                                0 <= u < prev.len() implies match #[trigger] prev[u] {
                                Some(g) => spec_keep(x, g),
                                None => true,
                            } by {
                                assert(prev[u] == pipe.take(i + 1)[u]);
                            }
                            assert(pipe.take(i + 1)[i as int] == pipe[i as int]);
                        }
                    }
                    assert forall|v0: int| #[trigger] with_jdn(acc@, v0) == with_jdn(
                        orig.filter(pi1),
                        v0,
                    ) by {
                        let kv = has_jdn(v0);
                        // the stage's answer, keyed
                        assert(with_jdn(acc@, v0) == accpre.filter(pf).filter(kv));
                        lemma_filter_compose(accpre, pf, kv);
                        lemma_filter_compose(accpre, kv, pf);
                        lemma_filter_ext(accpre, and_then(pf, kv), and_then(kv, pf));
                        assert(accpre.filter(pf).filter(kv) == accpre.filter(kv).filter(pf));
                        if exists|k: int| 0 <= k < i && pipe[k] is Some {
                            assert(with_jdn(accpre, v0) == with_jdn(orig.filter(pi), v0));
                            assert(accpre.filter(kv) == orig.filter(pi).filter(kv));
                            lemma_filter_compose(orig.filter(pi), kv, pf);
                            lemma_filter_compose(orig, pi, and_then(kv, pf));
                            lemma_filter_compose(orig, pi1, kv);
                            lemma_filter_ext(
                                orig,
                                and_then(pi, and_then(kv, pf)),
                                and_then(pi1, kv),
                            );
                        } else {
                            assert(accpre == orig);
                            assert forall|x: Schedule| #[trigger] pi(x) by {
                                assert(forall|u: int| 0 <= u < i ==> pipe[u] is None);
                                assert forall|u: int|
                                    0 <= u < prev.len() implies match #[trigger] prev[u] {
                                    Some(g) => spec_keep(x, g),
                                    None => true,
                                } by {
                                    assert(prev[u] == pipe[u]);
                                }
                            }
                            lemma_filter_compose(orig, kv, pf);
                            lemma_filter_compose(orig, pi1, kv);
                            lemma_filter_ext(orig, and_then(kv, pf), and_then(pi1, kv));
                        }
                    }
                },
            }
        }
        i = i + 1;
    }
    proof {
        assert(pipe.take(n as int) =~= pipe);
    }
    acc
}

} // verus!
