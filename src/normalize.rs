use vstd::prelude::*;

use crate::error::FieldError;
use crate::maths::{ExtendedMathsF64, Level};

verus! {

/// `m` is the least value of `s` and occurs in it.
pub open spec fn is_min_of(s: Seq<i64>, m: i64) -> bool {
    &&& exists|i: int| 0 <= i < s.len() && s[i] == m
    &&& forall|i: int| 0 <= i < s.len() ==> m <= s[i]
}

/// `m` is the greatest value of `s` and occurs in it.
pub open spec fn is_max_of(s: Seq<i64>, m: i64) -> bool {
    &&& exists|i: int| 0 <= i < s.len() && s[i] == m
    &&& forall|i: int| 0 <= i < s.len() ==> s[i] <= m
}

/// The least value of a non-empty sequence.
pub open spec fn seq_min(s: Seq<i64>) -> i64 {
    choose|m: i64| is_min_of(s, m)
}

/// The greatest value of a non-empty sequence.
pub open spec fn seq_max(s: Seq<i64>) -> i64 {
    choose|m: i64| is_max_of(s, m)
}

/// All values of `s` are equal.
pub open spec fn is_constant(s: Seq<i64>) -> bool {
    forall|i: int, j: int| 0 <= i < s.len() && 0 <= j < s.len() ==> s[i] == s[j]
}

/// `v` rescaled from `[lo, hi]` onto [0, 1].
pub open spec fn level_of(v: i64, lo: i64, hi: i64) -> Level {
    Level { num: (v - lo) as u64, den: (hi - lo) as u64 }
}

/// Each value of `s` rescaled from `[min s, max s]` onto [0, 1].
pub open spec fn normalized(s: Seq<i64>) -> Seq<Level> {
    Seq::new(s.len(), |i: int| level_of(s[i], seq_min(s), seq_max(s)))
}

/// The least and greatest values are unique, so they are what `seq_min` and
/// `seq_max` choose.
pub proof fn lemma_bounds_chosen(s: Seq<i64>, lo: i64, hi: i64)
    requires
        is_min_of(s, lo),
        is_max_of(s, hi),
    ensures
        seq_min(s) == lo,
        seq_max(s) == hi,
{
    let m = seq_min(s);
    assert(is_min_of(s, m));
    let i = choose|i: int| 0 <= i < s.len() && s[i] == m;
    let j = choose|j: int| 0 <= j < s.len() && s[j] == lo;
    assert(lo <= s[i] && m <= s[j]);
    let n = seq_max(s);
    assert(is_max_of(s, n));
    let k = choose|k: int| 0 <= k < s.len() && s[k] == n;
    let l = choose|l: int| 0 <= l < s.len() && s[l] == hi;
    assert(s[k] <= hi && s[l] <= n);
}

/// Every non-empty sequence has a least and a greatest value.
pub proof fn lemma_bounds_exist(s: Seq<i64>)
    requires
        s.len() > 0,
    ensures
        is_min_of(s, seq_min(s)),
        is_max_of(s, seq_max(s)),
    decreases s.len(),
{
    if s.len() == 1 {
        assert(is_min_of(s, s[0]));
        assert(is_max_of(s, s[0]));
    } else {
        let t = s.drop_last();
        lemma_bounds_exist(t);
        let (a, b) = (seq_min(t), seq_max(t));
        let v = s.last();
        assert(forall|i: int| 0 <= i < t.len() ==> s[i] == t[i]);
        let lo = if v < a { v } else { a };
        let hi = if v > b { v } else { b };
        if v < a {
            assert(s[s.len() - 1] == lo);
        } else {
            let i = choose|i: int| 0 <= i < t.len() && t[i] == a;
            assert(s[i] == lo);
        }
        if v > b {
            assert(s[s.len() - 1] == hi);
        } else {
            let i = choose|i: int| 0 <= i < t.len() && t[i] == b;
            assert(s[i] == hi);
        }
        assert(is_min_of(s, lo));
        assert(is_max_of(s, hi));
    }
}

/// For a field that is not constant, the normalized values all lie in
/// [0, 1], the least of them is exactly 0 and the greatest exactly 1.
pub proof fn lemma_normalized_range(s: Seq<i64>)
    requires
        s.len() > 0,
        !is_constant(s),
    ensures
        forall|k: int| 0 <= k < s.len() ==> (#[trigger] normalized(s)[k]).wf(),
        exists|i: int| 0 <= i < s.len() && (#[trigger] normalized(s)[i]).num == 0,
        exists|j: int| 0 <= j < s.len() && #[trigger] normalized(s)[j].num == normalized(s)[j].den,
{
    lemma_bounds_exist(s);
    let (lo, hi) = (seq_min(s), seq_max(s));
    if lo == hi {
        assert(is_constant(s));
    }
    let i = choose|i: int| 0 <= i < s.len() && s[i] == lo;
    let j = choose|j: int| 0 <= j < s.len() && s[j] == hi;
    assert(normalized(s)[i].num == 0);
    assert(normalized(s)[j].num == normalized(s)[j].den);
    assert forall|k: int| 0 <= k < s.len() implies (#[trigger] normalized(s)[k]).wf() by {
        assert(lo <= s[k] <= hi);
    }
}

/// Normalization keeps the order of values: a greater raw value gets a
/// strictly greater normalized value (all share one denominator), and equal
/// raw values get equal normalized values.
pub proof fn lemma_normalize_monotone(s: Seq<i64>, i: int, j: int)
    requires
        s.len() > 0,
        !is_constant(s),
        0 <= i < s.len(),
        0 <= j < s.len(),
    ensures
        normalized(s)[i].den == normalized(s)[j].den,
        s[i] > s[j] ==> normalized(s)[i].num > normalized(s)[j].num,
        s[i] == s[j] ==> normalized(s)[i] == normalized(s)[j],
{
    lemma_bounds_exist(s);
    let (lo, hi) = (seq_min(s), seq_max(s));
    assert(lo <= s[i] <= hi && lo <= s[j] <= hi);
}

/// Rescaling onto [0, 1] by fixed bounds keeps the order of values: a
/// greater value gets a strictly greater level, and equal values equal levels.
pub proof fn lemma_norm_monotone(a: i64, b: i64, lo: i64, hi: i64)
    requires
        lo <= b <= hi,
        lo <= a <= hi,
        lo < hi,
    ensures
        a > b ==> level_of(b, lo, hi).le(level_of(a, lo, hi)) && !level_of(a, lo, hi).le(
            level_of(b, lo, hi),
        ),
        a == b ==> level_of(a, lo, hi) == level_of(b, lo, hi),
{
    let d = (hi - lo) as int;
    let (x, y) = ((a - lo) as int, (b - lo) as int);
    assert(level_of(a, lo, hi).num == x && level_of(b, lo, hi).num == y);
    assert(level_of(a, lo, hi).den == d && level_of(b, lo, hi).den == d);
    if a > b {
        assert(y * d < x * d) by (nonlinear_arith)
            requires
                y < x,
                d > 0,
        ;
    }
}

/// One pass over `values`: their least and greatest value, the first seeding
/// both bounds.
pub fn bounds(values: &Vec<i64>) -> (r: (i64, i64))
    requires
        values.len() > 0,
    ensures
        is_min_of(values@, r.0),
        is_max_of(values@, r.1),
        r.0 == seq_min(values@),
        r.1 == seq_max(values@),
{
    let mut lo: i64 = values[0];
    let mut hi: i64 = values[0];
    let mut i: usize = 1;
    while i < values.len()
        invariant
            1 <= i <= values.len(),
            exists|j: int| 0 <= j < i && values@[j] == lo,
            exists|j: int| 0 <= j < i && values@[j] == hi,
            forall|j: int| 0 <= j < i ==> lo <= #[trigger] values@[j] <= hi,
        decreases values.len() - i,
    {
        let v = values[i];
        if v < lo {
            lo = v;
        }
        if v > hi {
            hi = v;
        }
        i = i + 1;
    }
    proof {
        lemma_bounds_chosen(values@, lo, hi);
    }
    (lo, hi)
}

/// Two passes over `values`: find the bounds, then rescale each value onto
/// [0, 1]. No grid point is dropped or moved.
pub fn normalize(values: &Vec<i64>) -> (r: Result<Vec<Level>, FieldError>)
    ensures
        values.len() == 0 <==> r == Err::<Vec<Level>, FieldError>(FieldError::EmptyGrid),
        values.len() > 0 && is_constant(values@) <==> r == Err::<Vec<Level>, FieldError>(
            FieldError::DegenerateField,
        ),
        r is Ok <==> values.len() > 0 && !is_constant(values@),
        r is Ok ==> r->Ok_0@ == normalized(values@),
{
    if values.len() == 0 {
        return Err(FieldError::EmptyGrid);
    }
    let (lo, hi) = bounds(values);
    if lo == hi {
        assert(is_constant(values@));
        return Err(FieldError::DegenerateField);
    }
    let mut out: Vec<Level> = Vec::new();
    let mut i: usize = 0;
    while i < values.len()
        invariant
            i <= values.len(),
            lo < hi,
            is_min_of(values@, lo),
            is_max_of(values@, hi),
            lo == seq_min(values@),
            hi == seq_max(values@),
            out@.len() == i,
            forall|j: int| 0 <= j < i ==> out@[j] == normalized(values@)[j],
        decreases values.len() - i,
    {
        let level = values[i].norm((lo, hi));
        out.push(level);
        i = i + 1;
    }
    assert(out@ =~= normalized(values@));
    Ok(out)
}

/// Min-max normalization of a whole sequence of sampled field values.
pub trait ExtendedMathsIter {
    /// The field values, in sampling order.
    spec fn samples(&self) -> Seq<i64>;

    /// The values rescaled onto [0, 1] by their least and greatest value.
    fn norm(&self) -> (r: Result<Vec<Level>, FieldError>)
        ensures
            self.samples().len() == 0 <==> r == Err::<Vec<Level>, FieldError>(
                FieldError::EmptyGrid,
            ),
            self.samples().len() > 0 && is_constant(self.samples()) <==> r == Err::<
                Vec<Level>,
                FieldError,
            >(FieldError::DegenerateField),
            r is Ok <==> self.samples().len() > 0 && !is_constant(self.samples()),
            r is Ok ==> r->Ok_0@ == normalized(self.samples()),
    ;
}

impl ExtendedMathsIter for Vec<i64> {
    open spec fn samples(&self) -> Seq<i64> {
        self@
    }

    fn norm(&self) -> (r: Result<Vec<Level>, FieldError>) {
        normalize(self)
    }
}

} // verus!
