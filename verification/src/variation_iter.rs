//! Enumeration of the variants of a test unit: every combination of the
//! values of the options that have two or more, in the order of an odometer
//! whose last wheel turns fastest.

use vstd::prelude::*;
use compact_str::CompactString;
use crate::mixed_radix::{
    product, positive, valid_digits, digits_of, rank, successor, lemma_successor,
    lemma_digits_rank, lemma_rank_digits, lemma_rank_bound, lemma_digits_of_zero,
    lemma_digits_differ,
};
use crate::variations::{
    TestVariationProp, TestVariations, TestVariant, TestVariantView, AXIS_COUNT, compact_chars,
    compact_texts, compact_as_str, text_opt, variant_name,
};

verus! {

/// The places of the options with two or more values among the first `n`
/// options, in order.
pub open spec fn multi_upto(v: Seq<Seq<Seq<char>>>, n: int) -> Seq<int>
    decreases n,
{
    if n <= 0 {
        Seq::empty()
    } else if v[n - 1].len() >= 2 {
        multi_upto(v, n - 1).push(n - 1)
    } else {
        multi_upto(v, n - 1)
    }
}

/// The places of the options with two or more values, in order.
pub open spec fn multi_axes(v: Seq<Seq<Seq<char>>>) -> Seq<int> {
    multi_upto(v, AXIS_COUNT as int)
}

/// The options with two or more values, in order: those that a variant's
/// name speaks of.
pub open spec fn name_props_of(v: Seq<Seq<Seq<char>>>) -> Seq<TestVariationProp> {
    Seq::new(multi_axes(v).len(), |j: int| TestVariationProp::at(multi_axes(v)[j]))
}

/// For each option with two or more values, in order, the number of its
/// values.
pub open spec fn radices(v: Seq<Seq<Seq<char>>>) -> Seq<nat> {
    Seq::new(multi_axes(v).len(), |j: int| v[multi_axes(v)[j]].len())
}

/// The number of variants: the product of the numbers of values of the
/// options that have two or more; one where there is no such option.
pub open spec fn variant_count(v: Seq<Seq<Seq<char>>>) -> nat {
    product(radices(v))
}

/// The number of options with two or more values before the option at place
/// `axis`: where its digit stands among the digits.
pub open spec fn slot(v: Seq<Seq<Seq<char>>>, axis: int) -> int {
    multi_upto(v, axis).len() as int
}

/// The value of the option at place `axis` in the variant with the given
/// digits: none without values, the only value where there is one, and else
/// the value that the option's digit selects.
pub open spec fn chosen(v: Seq<Seq<Seq<char>>>, digits: Seq<nat>, axis: int) -> Option<Seq<char>> {
    if v[axis].len() == 0 {
        None
    } else if v[axis].len() == 1 {
        Some(v[axis][0])
    } else {
        Some(v[axis][digits[slot(v, axis)] as int])
    }
}

/// The values of the variant with the given digits, for each option in order.
pub open spec fn values_with(v: Seq<Seq<Seq<char>>>, digits: Seq<nat>) -> Seq<Option<Seq<char>>> {
    Seq::new(AXIS_COUNT as nat, |i: int| chosen(v, digits, i))
}

/// The variant with the given digits.
pub open spec fn variant_with(v: Seq<Seq<Seq<char>>>, digits: Seq<nat>) -> TestVariantView {
    TestVariantView {
        name: variant_name(name_props_of(v), values_with(v, digits)),
        values: values_with(v, digits),
    }
}

/// The `k`-th variant.
pub open spec fn variant_at(v: Seq<Seq<Seq<char>>>, k: nat) -> TestVariantView {
    variant_with(v, digits_of(k, radices(v)))
}

/// The places of the options with several values are in order, and each
/// such option stands at its slot.
pub proof fn lemma_multi_upto(v: Seq<Seq<Seq<char>>>, n: int)
    requires
        0 <= n,
    ensures
        multi_upto(v, n).len() <= n,
        forall|j: int|
            0 <= j < multi_upto(v, n).len() ==> 0 <= #[trigger] multi_upto(v, n)[j] < n && v[multi_upto(
                v,
                n,
            )[j]].len() >= 2 && slot(v, multi_upto(v, n)[j]) == j,
        forall|a: int|
            0 <= a < n && v[a].len() >= 2 ==> 0 <= #[trigger] slot(v, a) < multi_upto(v, n).len()
                && multi_upto(v, n)[slot(v, a)] == a,
        forall|i: int, j: int|
            0 <= i < j < multi_upto(v, n).len() ==> multi_upto(v, n)[i] < multi_upto(v, n)[j],
    decreases n,
{
    if n > 0 {
        lemma_multi_upto(v, n - 1);
        let prev = multi_upto(v, n - 1);
        let cur = multi_upto(v, n);
        if v[n - 1].len() >= 2 {
            assert forall|j: int| 0 <= j < cur.len() implies 0 <= #[trigger] cur[j] < n
                && v[cur[j]].len() >= 2 && slot(v, cur[j]) == j by {
                if j < prev.len() {
                    assert(cur[j] == prev[j]);
                }
            }
            assert forall|a: int| 0 <= a < n && v[a].len() >= 2 implies 0 <= #[trigger] slot(v, a)
                < cur.len() && cur[slot(v, a)] == a by {
                if a < n - 1 {
                    assert(prev[slot(v, a)] == a);
                }
            }
            assert forall|i: int, j: int| 0 <= i < j < cur.len() implies cur[i] < cur[j] by {
                if j < prev.len() {
                    assert(cur[i] == prev[i] && cur[j] == prev[j]);
                } else {
                    assert(cur[i] == prev[i]);
                }
            }
        }
    }
}

/// Every option with several values has two or more of them, so there is at
/// least one variant.
pub proof fn lemma_radices(v: Seq<Seq<Seq<char>>>)
    ensures
        positive(radices(v)),
        forall|j: int| 0 <= j < radices(v).len() ==> #[trigger] radices(v)[j] >= 2,
        variant_count(v) >= 1,
{
    lemma_multi_upto(v, AXIS_COUNT as int);
    assert forall|j: int| 0 <= j < radices(v).len() implies #[trigger] radices(v)[j] >= 2 by {
        assert(v[multi_axes(v)[j]].len() >= 2);
    }
    crate::mixed_radix::lemma_product_positive(radices(v));
}

/// The variants are enumerated without repetition: two different places in
/// the enumeration differ in the digit of some option, and so select
/// different values of it.
pub proof fn lemma_variants_differ(v: Seq<Seq<Seq<char>>>, k1: nat, k2: nat)
    requires
        k1 < variant_count(v),
        k2 < variant_count(v),
        k1 != k2,
    ensures
        digits_of(k1, radices(v)) != digits_of(k2, radices(v)),
        valid_digits(digits_of(k1, radices(v)), radices(v)),
        valid_digits(digits_of(k2, radices(v)), radices(v)),
{
    lemma_radices(v);
    lemma_digits_differ(k1, k2, radices(v));
    lemma_digits_rank(k1, radices(v));
    lemma_digits_rank(k2, radices(v));
}

/// Whether no option has the same value twice.
pub open spec fn values_distinct(v: Seq<Seq<Seq<char>>>) -> bool {
    forall|i: int, a: int, b: int|
        0 <= i < v.len() && 0 <= a < b < v[i].len() ==> #[trigger] v[i][a] != #[trigger] v[i][b]
}

/// Where no option has the same value twice, no two variants choose the
/// same values.
pub proof fn lemma_variants_distinct(v: Seq<Seq<Seq<char>>>, k1: nat, k2: nat)
    requires
        v.len() == AXIS_COUNT,
        values_distinct(v),
        k1 < variant_count(v),
        k2 < variant_count(v),
        k1 != k2,
    ensures
        variant_at(v, k1).values != variant_at(v, k2).values,
{
    lemma_variants_differ(v, k1, k2);
    lemma_multi_upto(v, AXIS_COUNT as int);
    let r = radices(v);
    let d1 = digits_of(k1, r);
    let d2 = digits_of(k2, r);
    if forall|j: int| 0 <= j < d1.len() ==> d1[j] == d2[j] {
        assert(d1 =~= d2);
    }
    let j = choose|j: int| 0 <= j < d1.len() && d1[j] != d2[j];
    let axis = multi_axes(v)[j];
    assert(slot(v, axis) == j);
    assert(d1[j] < r[j] && d2[j] < r[j]);
    assert(r[j] == v[axis].len());
    if d1[j] < d2[j] {
        assert(v[axis][d1[j] as int] != v[axis][d2[j] as int]);
    } else {
        assert(v[axis][d2[j] as int] != v[axis][d1[j] as int]);
    }
    assert(values_with(v, d1)[axis] == chosen(v, d1, axis));
    assert(values_with(v, d2)[axis] == chosen(v, d2, axis));
}

/// Where no option has two or more values there is exactly one variant, and
/// its name is empty.
pub proof fn lemma_single_variant(v: Seq<Seq<Seq<char>>>)
    requires
        forall|i: int| 0 <= i < AXIS_COUNT ==> (#[trigger] v[i]).len() <= 1,
    ensures
        variant_count(v) == 1,
        variant_at(v, 0).name.len() == 0,
{
    lemma_no_multi(v, AXIS_COUNT as int);
    assert(radices(v).len() == 0);
    assert(name_props_of(v).len() == 0);
}

/// Where no option has two or more values, none is found.
proof fn lemma_no_multi(v: Seq<Seq<Seq<char>>>, n: int)
    requires
        0 <= n <= AXIS_COUNT,
        forall|i: int| 0 <= i < AXIS_COUNT ==> (#[trigger] v[i]).len() <= 1,
    ensures
        multi_upto(v, n).len() == 0,
    decreases n,
{
    if n > 0 {
        lemma_no_multi(v, n - 1);
        assert(v[n - 1].len() <= 1);
    }
}

/// Goes through the values of one option, and starts again after the last.
#[derive(Debug)]
pub struct RestartableIterator<'a> {
    pub arr: &'a Vec<CompactString>,
    pub idx: usize,
}

impl<'a> RestartableIterator<'a> {
    /// An iterator before the first value of `arr`.
    pub fn new(arr: &'a Vec<CompactString>) -> (r: Self)
        ensures
            r.arr == arr,
            r.idx == 0,
    {
        RestartableIterator { arr, idx: 0 }
    }

    /// The next value. After the last value the result is `None`, once, and
    /// the iterator stands before the first value again.
    pub fn next(&mut self) -> (r: Option<Option<&'a str>>)
        ensures
            final(self).arr == old(self).arr,
            old(self).idx < old(self).arr@.len() ==> final(self).idx == old(self).idx + 1 && (r
                matches Some(Some(s)) && s@ == compact_chars(old(self).arr@[old(self).idx as int])),
            old(self).idx >= old(self).arr@.len() ==> final(self).idx == 0 && r is None,
    {
        let arr = self.arr;
        if self.idx < arr.len() {
            let s = compact_as_str(&arr[self.idx]);
            self.idx = self.idx + 1;
            Some(Some(s))
        } else {
            self.idx = 0;
            None
        }
    }
}

/// The digits that follow `d` where all digits from place `i` on are at
/// their highest: those before place `i` move on, the others start again.
proof fn lemma_successor_carry(d: Seq<nat>, r: Seq<nat>, i: int)
    requires
        valid_digits(d, r),
        0 <= i <= d.len(),
        forall|j: int| i <= j < d.len() ==> #[trigger] d[j] + 1 == r[j],
    ensures
        successor(d, r) == (match successor(d.take(i), r.take(i)) {
            Some(p) => Some(p + Seq::new((d.len() - i) as nat, |j: int| 0nat)),
            None => None,
        }),
    decreases d.len() - i,
{
    let n = d.len() as int;
    if i == n {
        assert(d.take(i) =~= d);
        assert(r.take(i) =~= r);
        match successor(d, r) {
            Some(p) => {
                assert(p + Seq::new(0nat, |j: int| 0nat) =~= p);
            },
            None => {},
        }
    } else {
        let dp = d.drop_last();
        let rp = r.drop_last();
        assert(d[n - 1] + 1 == r[n - 1]);
        assert(valid_digits(dp, rp)) by {
            assert forall|j: int| 0 <= j < dp.len() implies #[trigger] dp[j] < rp[j] by {
                assert(d[j] < r[j]);
            }
        }
        assert forall|j: int| i <= j < dp.len() implies #[trigger] dp[j] + 1 == rp[j] by {
            assert(d[j] + 1 == r[j]);
        }
        lemma_successor_carry(dp, rp, i);
        assert(dp.take(i) =~= d.take(i));
        assert(rp.take(i) =~= r.take(i));
        match successor(d.take(i), r.take(i)) {
            Some(p) => {
                assert((p + Seq::new((n - 1 - i) as nat, |j: int| 0nat)).push(0) =~= p + Seq::new(
                    (n - i) as nat,
                    |j: int| 0nat,
                ));
            },
            None => {},
        }
    }
}

/// The digits that follow `d` where the digit at place `m` can grow and all
/// digits behind it are at their highest.
proof fn lemma_successor_at(d: Seq<nat>, r: Seq<nat>, m: int)
    requires
        valid_digits(d, r),
        0 <= m < d.len(),
        d[m] + 1 < r[m],
        forall|j: int| m < j < d.len() ==> #[trigger] d[j] + 1 == r[j],
    ensures
        successor(d, r) == Some(
            d.take(m).push(d[m] + 1) + Seq::new((d.len() - m - 1) as nat, |j: int| 0nat),
        ),
{
    lemma_successor_carry(d, r, m + 1);
    let dm = d.take(m + 1);
    let rm = r.take(m + 1);
    assert(dm.last() == d[m]);
    assert(rm.last() == r[m]);
    assert(dm.drop_last() =~= d.take(m));
}

/// There are no digits after those that are all at their highest.
proof fn lemma_successor_none(d: Seq<nat>, r: Seq<nat>)
    requires
        valid_digits(d, r),
        forall|j: int| 0 <= j < d.len() ==> #[trigger] d[j] + 1 == r[j],
    ensures
        successor(d, r) is None,
{
    lemma_successor_carry(d, r, 0);
    assert(d.take(0).len() == 0);
    assert(r.take(0).len() == 0);
}

/// Goes through the variants of a test unit.
pub struct VariationIter<'a> {
    /// The options with two or more values, in order.
    name_props: Vec<TestVariationProp>,
    /// The variant that was produced last, or the first one.
    template: TestVariant<'a>,
    /// For each option with two or more values, where it stands.
    iter: Vec<RestartableIterator<'a>>,
    /// Whether the first variant has been produced.
    done: bool,
    /// Whether the last variant has been produced.
    finished: bool,
    /// The values that the variants are made of.
    source: Ghost<Seq<Seq<Seq<char>>>>,
}

impl<'a> VariationIter<'a> {
    /// The values that the variants are made of: for each option, in order,
    /// the texts of its values.
    pub closed spec fn source(&self) -> Seq<Seq<Seq<char>>> {
        self.source@
    }

    /// The digits of the variant in `template`.
    spec fn digits(&self) -> Seq<nat> {
        Seq::new(self.iter@.len(), |j: int| (self.iter@[j].idx - 1) as nat)
    }

    /// The options and their values are those of the source.
    spec fn axes_ok(&self) -> bool {
        &&& self.source@.len() == AXIS_COUNT
        &&& self.name_props@ == name_props_of(self.source@)
        &&& self.iter@.len() == self.name_props@.len()
        &&& forall|j: int|
            0 <= j < self.iter@.len() ==> compact_texts((#[trigger] self.iter@[j]).arr@)
                == self.source@[multi_axes(self.source@)[j]]
    }

    /// `template` holds the variant with the digits `d`, but for its name.
    spec fn template_has(&self, d: Seq<nat>) -> bool {
        &&& forall|j: int|
            0 <= j < self.name_props@.len() ==> text_opt(
                self.template.value(#[trigger] self.name_props@[j]),
            ) == Some(self.source@[multi_axes(self.source@)[j]][d[j] as int])
        &&& forall|p: TestVariationProp|
            self.source@[p.index()].len() < 2 ==> text_opt(#[trigger] self.template.value(p)) == (
            if self.source@[p.index()].len() == 0 {
                None
            } else {
                Some(self.source@[p.index()][0])
            })
    }

    /// The iterator's invariant.
    pub closed spec fn wf(&self) -> bool {
        &&& self.axes_ok()
        &&& self.finished ==> self.done
        &&& !self.finished ==> {
            &&& forall|j: int|
                0 <= j < self.iter@.len() ==> 1 <= (#[trigger] self.iter@[j]).idx
                    <= self.iter@[j].arr@.len()
            &&& self.template_has(self.digits())
            &&& self.template.name@ == variant_name(
                name_props_of(self.source@),
                values_with(self.source@, self.digits()),
            )
        }
        &&& !self.done ==> forall|j: int|
            0 <= j < self.iter@.len() ==> (#[trigger] self.iter@[j]).idx == 1
    }

    /// The number of variants produced so far.
    pub closed spec fn position(&self) -> nat {
        if self.finished {
            variant_count(self.source@)
        } else if self.done {
            rank(self.digits(), radices(self.source@)) + 1
        } else {
            0
        }
    }

    /// The digits are valid for the source.
    proof fn lemma_digits_valid(&self)
        requires
            self.wf(),
            !self.finished,
        ensures
            valid_digits(self.digits(), radices(self.source@)),
    {
        let v = self.source@;
        lemma_multi_upto(v, AXIS_COUNT as int);
        assert forall|j: int| 0 <= j < self.digits().len() implies #[trigger] self.digits()[j]
            < radices(v)[j] by {
            assert(compact_texts(self.iter@[j].arr@) == v[multi_axes(v)[j]]);
            assert(self.iter@[j].idx <= self.iter@[j].arr@.len());
        }
    }

    /// A template that holds the values of the digits `d` is the variant
    /// with these digits, once its name is right.
    proof fn lemma_template_view(&self, d: Seq<nat>)
        requires
            self.axes_ok(),
            self.template_has(d),
            d.len() == self.name_props@.len(),
        ensures
            self.template@.values == values_with(self.source@, d),
    {
        let v = self.source@;
        lemma_multi_upto(v, AXIS_COUNT as int);
        let a = self.template@.values;
        let b = values_with(v, d);
        assert forall|i: int| 0 <= i < AXIS_COUNT implies a[i] == b[i] by {
            let p = TestVariationProp::at(i);
            TestVariationProp::lemma_at(i);
            if v[i].len() >= 2 {
                let j = slot(v, i);
                assert(multi_axes(v)[j] == i);
                assert(self.name_props@[j] == p);
            }
        }
        assert(a =~= b);
    }
}

impl TestVariations {
    /// An iterator over the variants, before the first of them.
    pub fn iter(&self) -> (r: VariationIter<'_>)
        ensures
            r.wf(),
            r.source() == self@,
            r.position() == 0,
    {
        VariationIter::new(self)
    }
}

impl<'a> VariationIter<'a> {
    /// An iterator over the variants of `variations`, before the first.
    pub fn new(variations: &'a TestVariations) -> (r: Self)
        ensures
            r.wf(),
            r.source() == variations@,
            r.position() == 0,
    {
        let ghost v = variations@;
        let mut name_props: Vec<TestVariationProp> = Vec::new();
        let mut template = TestVariant::default();
        let mut iter: Vec<RestartableIterator<'a>> = Vec::new();
        let mut i: usize = 0;
        while i < AXIS_COUNT
            invariant
                i <= AXIS_COUNT,
                v == variations@,
                name_props@.len() == multi_upto(v, i as int).len(),
                iter@.len() == name_props@.len(),
                forall|j: int|
                    0 <= j < name_props@.len() ==> #[trigger] name_props@[j] == TestVariationProp::at(
                        multi_upto(v, i as int)[j],
                    ),
                forall|j: int|
                    0 <= j < iter@.len() ==> compact_texts((#[trigger] iter@[j]).arr@) == v[multi_upto(
                        v,
                        i as int,
                    )[j]] && iter@[j].idx == 1,
                forall|j: int|
                    0 <= j < name_props@.len() ==> text_opt(
                        template.value(#[trigger] name_props@[j]),
                    ) == Some(v[multi_upto(v, i as int)[j]][0]),
                forall|p: TestVariationProp|
                    v[p.index()].len() < 2 || p.index() >= i ==> text_opt(
                        #[trigger] template.value(p),
                    ) == (if v[p.index()].len() == 0 || p.index() >= i {
                        None
                    } else {
                        Some(v[p.index()][0])
                    }),
            decreases AXIS_COUNT - i,
        {
            let prop = TestVariationProp::from_index(i);
            let arr = variations.get(prop);
            proof {
                lemma_multi_upto(v, i as int);
                lemma_multi_upto(v, i + 1);
                TestVariationProp::lemma_at(i as int);
                assert(v[i as int] == compact_texts(arr@));
            }
            let ghost before = template;
            let ghost old_props = name_props@;
            if arr.len() == 1 {
                template.set(prop, Some(compact_as_str(&arr[0])));
                proof {
                    assert forall|j: int| 0 <= j < name_props@.len() implies text_opt(
                        template.value(#[trigger] name_props@[j]),
                    ) == Some(v[multi_upto(v, i + 1)[j]][0]) by {
                        TestVariationProp::lemma_at(multi_upto(v, i as int)[j]);
                    }
                }
            } else if arr.len() >= 2 {
                name_props.push(prop);
                let mut it = RestartableIterator::new(arr);
                let first = it.next();
                template.set(prop, first.unwrap());
                iter.push(it);
                proof {
                    assert forall|j: int| 0 <= j < name_props@.len() implies text_opt(
                        template.value(#[trigger] name_props@[j]),
                    ) == Some(v[multi_upto(v, i + 1)[j]][0]) by {
                        if j < old_props.len() {
                            TestVariationProp::lemma_at(multi_upto(v, i as int)[j]);
                            assert(name_props@[j] == old_props[j]);
                        }
                    }
                }
            }
            i += 1;
        }
        let ghost digits = Seq::new(iter@.len(), |j: int| 0nat);
        let mut r = VariationIter {
            name_props,
            template,
            iter,
            done: false,
            finished: false,
            source: Ghost(v),
        };
        proof {
            assert(r.name_props@ =~= name_props_of(v));
            assert(r.digits() =~= digits);
            assert(r.axes_ok());
            assert(r.template_has(r.digits()));
            r.lemma_template_view(r.digits());
        }
        r.rename();
        proof {
            lemma_multi_upto(v, AXIS_COUNT as int);
            assert(r.axes_ok());
            assert forall|j: int| 0 <= j < r.iter@.len() implies 1 <= (#[trigger] r.iter@[j]).idx
                <= r.iter@[j].arr@.len() by {
                assert(compact_texts(r.iter@[j].arr@) == v[multi_axes(v)[j]]);
                assert(v[multi_axes(v)[j]].len() >= 2);
            }
        }
        r
    }

    /// Gives the template the name of the variant it holds.
    fn rename(&mut self)
        requires
            old(self).axes_ok(),
            old(self).template_has(old(self).digits()),
        ensures
            final(self).name_props == old(self).name_props,
            final(self).iter == old(self).iter,
            final(self).done == old(self).done,
            final(self).finished == old(self).finished,
            final(self).source == old(self).source,
            final(self).template_has(final(self).digits()),
            final(self).template.name@ == variant_name(
                name_props_of(final(self).source@),
                values_with(final(self).source@, final(self).digits()),
            ),
    {
        proof {
            self.lemma_template_view(self.digits());
        }
        self.template.update_name(self.name_props.as_slice());
    }

    /// The next variant, or `None` after the last.
    pub fn next(&mut self) -> (r: Option<TestVariant<'a>>)
        requires
            old(self).wf(),
        ensures
            final(self).wf(),
            final(self).source() == old(self).source(),
            old(self).position() < variant_count(old(self).source()) ==> final(self).position()
                == old(self).position() + 1 && (r matches Some(t) && t@ == variant_at(
                old(self).source(),
                old(self).position(),
            )),
            old(self).position() >= variant_count(old(self).source()) ==> r is None
                && final(self).position() == old(self).position(),
    {
        let ghost v = self.source@;
        let ghost radix = radices(v);
        proof {
            lemma_radices(v);
            lemma_multi_upto(v, AXIS_COUNT as int);
        }
        if self.finished {
            return None;
        }
        let ghost d0 = self.digits();
        proof {
            self.lemma_digits_valid();
            lemma_rank_bound(d0, radix);
            lemma_successor(d0, radix);
        }
        if !self.done {
            self.done = true;
            let t = self.template.duplicate();
            proof {
                assert(d0 =~= Seq::new(radix.len(), |j: int| 0nat));
                lemma_digits_of_zero(radix);
                lemma_digits_rank(0, radix);
                self.lemma_template_view(d0);
            }
            return Some(t);
        }
        let n = self.iter.len();
        let mut i = n;
        let mut advanced = false;
        while i > 0 && !advanced
            invariant
                self.axes_ok(),
                self.source@ == v,
                self.done,
                !self.finished,
                n == self.iter@.len(),
                i <= n,
                d0.len() == n,
                valid_digits(d0, radix),
                radix == radices(v),
                forall|j: int| 0 <= j < i ==> (#[trigger] self.iter@[j]).idx == d0[j] + 1,
                !advanced ==> forall|j: int|
                    i <= j < n ==> (#[trigger] self.iter@[j]).idx == 0 && d0[j] + 1 == radix[j],
                advanced ==> i < n && self.iter@[i as int].idx == d0[i as int] + 2 && d0[i as int]
                    + 1 < radix[i as int] && forall|j: int|
                    i < j < n ==> (#[trigger] self.iter@[j]).idx == 0 && d0[j] + 1 == radix[j],
                forall|j: int|
                    0 <= j < n ==> text_opt(self.template.value(#[trigger] self.name_props@[j]))
                        == Some(
                        v[multi_axes(v)[j]][(if advanced && j == i {
                            d0[j] as int + 1
                        } else {
                            d0[j] as int
                        })],
                    ),
                forall|p: TestVariationProp|
                    v[p.index()].len() < 2 ==> text_opt(#[trigger] self.template.value(p)) == (
                    if v[p.index()].len() == 0 {
                        None
                    } else {
                        Some(v[p.index()][0])
                    }),
            decreases i + (if advanced { 0int } else { 1int }),
        {
            i = i - 1;
            let ghost axis = multi_axes(v)[i as int];
            proof {
                lemma_multi_upto(v, AXIS_COUNT as int);
                lemma_radices(v);
                assert(compact_texts(self.iter@[i as int].arr@) == v[axis]);
                assert(radix[i as int] == v[axis].len());
                assert(self.iter@[i as int].arr@.len() == radix[i as int]);
                assert(d0[i as int] < radix[i as int]);
                TestVariationProp::lemma_at(axis);
            }
            let ghost before = self.template;
            let ghost iters = self.iter@;
            match self.iter[i].next() {
                Some(value) => {
                    let prop = self.name_props[i];
                    self.template.set(prop, value);
                    advanced = true;
                    proof {
                        assert(iters[i as int].idx == d0[i as int] + 1);
                        assert(self.iter@[i as int].idx == d0[i as int] + 2);
                        assert(d0[i as int] + 1 < radix[i as int]);
                        assert forall|j: int| i < j < n implies (#[trigger] self.iter@[j]).idx == 0
                            && d0[j] + 1 == radix[j] by {
                            assert(self.iter@[j] == iters[j]);
                        }
                        assert forall|j: int| 0 <= j < n implies text_opt(
                            self.template.value(#[trigger] self.name_props@[j]),
                        ) == Some(
                            v[multi_axes(v)[j]][(if j == i {
                                d0[j] as int + 1
                            } else {
                                d0[j] as int
                            })],
                        ) by {
                            if j != i {
                                TestVariationProp::lemma_at(multi_axes(v)[j]);
                                assert(multi_axes(v)[j] != multi_axes(v)[i as int]);
                                assert(self.name_props@[j] == TestVariationProp::at(multi_axes(v)[j]));
                                assert(prop == TestVariationProp::at(axis));
                                assert(self.name_props@[j] != prop);
                                assert(self.template.value(self.name_props@[j]) == before.value(
                                    self.name_props@[j],
                                ));
                            }
                        }
                        assert forall|p: TestVariationProp| v[p.index()].len() < 2 implies text_opt(
                            #[trigger] self.template.value(p),
                        ) == (if v[p.index()].len() == 0 {
                            None
                        } else {
                            Some(v[p.index()][0])
                        }) by {
                            assert(prop.index() == axis);
                            assert(p != prop);
                            assert(self.template.value(p) == before.value(p));
                        }
                    }
                },
                None => {
                    proof {
                        assert(iters[i as int].idx == d0[i as int] + 1);
                        assert(self.iter@[i as int].idx == 0);
                        assert(d0[i as int] + 1 == radix[i as int]);
                        assert forall|j: int| i <= j < n implies (#[trigger] self.iter@[j]).idx == 0
                            && d0[j] + 1 == radix[j] by {
                            if j > i {
                                assert(self.iter@[j] == iters[j]);
                            }
                        }
                        assert forall|j: int| 0 <= j < i implies (#[trigger] self.iter@[j]).idx
                            == d0[j] + 1 by {
                            assert(self.iter@[j] == iters[j]);
                        }
                    }
                },
            }
        }
        if !advanced {
            self.finished = true;
            proof {
                assert forall|j: int| 0 <= j < d0.len() implies #[trigger] d0[j] + 1 == radix[j] by {
                    assert(self.iter@[j].idx == 0);
                }
                lemma_successor_none(d0, radix);
            }
            return None;
        }
        let m = i;
        proof {
            assert forall|j: int| m < j < d0.len() implies #[trigger] d0[j] + 1 == radix[j] by {
                assert(self.iter@[j].idx == 0);
            }
            lemma_successor_at(d0, radix, m as int);
            assert forall|j: int| 0 <= j < m + 1 implies (#[trigger] self.iter@[j]).idx
                == successor(d0, radix)->0[j] + 1 by {}
        }
        let ghost d1 = successor(d0, radix)->0;
        let mut k = m + 1;
        while k < n
            invariant
                self.axes_ok(),
                self.source@ == v,
                self.done,
                !self.finished,
                n == self.iter@.len(),
                m < k <= n,
                d0.len() == n,
                d1.len() == n,
                radix == radices(v),
                valid_digits(d1, radix),
                d1 == d0.take(m as int).push(d0[m as int] + 1) + Seq::new(
                    (n - m - 1) as nat,
                    |j: int| 0nat,
                ),
                forall|j: int| 0 <= j < k ==> (#[trigger] self.iter@[j]).idx == d1[j] + 1,
                forall|j: int| k <= j < n ==> (#[trigger] self.iter@[j]).idx == 0,
                forall|j: int|
                    0 <= j < k ==> text_opt(self.template.value(#[trigger] self.name_props@[j]))
                        == Some(v[multi_axes(v)[j]][d1[j] as int]),
                forall|p: TestVariationProp|
                    v[p.index()].len() < 2 ==> text_opt(#[trigger] self.template.value(p)) == (
                    if v[p.index()].len() == 0 {
                        None
                    } else {
                        Some(v[p.index()][0])
                    }),
            decreases n - k,
        {
            let ghost axis = multi_axes(v)[k as int];
            proof {
                lemma_multi_upto(v, AXIS_COUNT as int);
                lemma_radices(v);
                assert(compact_texts(self.iter@[k as int].arr@) == v[axis]);
                assert(radix[k as int] == v[axis].len());
                assert(radix[k as int] >= 2);
                assert(self.iter@[k as int].arr@.len() == radix[k as int]);
                TestVariationProp::lemma_at(axis);
            }
            let ghost before = self.template;
            let value = self.iter[k].next();
            let prop = self.name_props[k];
            self.template.set(prop, value.unwrap());
            proof {
                assert forall|j: int| 0 <= j < k + 1 implies text_opt(
                    self.template.value(#[trigger] self.name_props@[j]),
                ) == Some(v[multi_axes(v)[j]][d1[j] as int]) by {
                    if j != k {
                        TestVariationProp::lemma_at(multi_axes(v)[j]);
                        assert(multi_axes(v)[j] != multi_axes(v)[k as int]);
                        assert(self.name_props@[j] == TestVariationProp::at(multi_axes(v)[j]));
                        assert(prop == TestVariationProp::at(axis));
                        assert(self.name_props@[j] != prop);
                        assert(self.template.value(self.name_props@[j]) == before.value(
                            self.name_props@[j],
                        ));
                    }
                }
                assert forall|p: TestVariationProp| v[p.index()].len() < 2 implies text_opt(
                    #[trigger] self.template.value(p),
                ) == (if v[p.index()].len() == 0 {
                    None
                } else {
                    Some(v[p.index()][0])
                }) by {
                    assert(prop.index() == axis);
                    assert(p != prop);
                    assert(self.template.value(p) == before.value(p));
                }
            }
            k += 1;
        }
        proof {
            assert(self.digits() =~= d1);
            assert(self.template_has(d1));
        }
        self.rename();
        proof {
            lemma_rank_digits(d1, radix);
            lemma_rank_bound(d1, radix);
            self.lemma_template_view(d1);
        }
        let t = self.template.duplicate();
        Some(t)
    }
}

} // verus!
