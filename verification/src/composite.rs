//! Composite temperatures: combining several readings into one derived
//! value, and evaluating the configured composites in declaration order
//! against the per-tick temperature table.

use vstd::prelude::*;
use crate::alist::alist_get;
use crate::alist::alist_map;
use crate::alist::alist_set;
use crate::arith::lemma_trunc_div_bounds;
use crate::arith::trunc_div;
use crate::arith::trunc_div_i128;
use crate::config::Composite;
use crate::config::CompositeMode;

verus! {

/// The largest element of a non-empty sequence of readings.
pub open spec fn seq_max(s: Seq<i32>) -> int
    recommends
        s.len() > 0,
    decreases s.len(),
{
    if s.len() <= 1 {
        s[0] as int
    } else {
        let m = seq_max(s.drop_last());
        if s.last() as int > m {
            s.last() as int
        } else {
            m
        }
    }
}

/// The sum of a sequence of readings.
pub open spec fn seq_sum(s: Seq<i32>) -> int
    decreases s.len(),
{
    if s.len() == 0 {
        0
    } else {
        seq_sum(s.drop_last()) + s.last()
    }
}

/// How many readings lie at or above the threshold.
pub open spec fn count_ge(s: Seq<i32>, th: int) -> int
    decreases s.len(),
{
    if s.len() == 0 {
        0
    } else {
        count_ge(s.drop_last(), th) + if s.last() >= th { 1int } else { 0int }
    }
}

/// The sum of the readings at or above the threshold.
pub open spec fn sum_ge(s: Seq<i32>, th: int) -> int
    decreases s.len(),
{
    if s.len() == 0 {
        0
    } else {
        sum_ge(s.drop_last(), th) + if s.last() >= th { s.last() as int } else { 0int }
    }
}

/// The combined value of non-empty inputs under a mode: the maximum, the
/// truncating integer mean, or the mean of the readings at or above the
/// threshold (falling back to the mean of all readings when none
/// qualifies).
pub open spec fn spec_combine(mode: CompositeMode, s: Seq<i32>) -> int
    recommends
        s.len() > 0,
{
    match mode {
        CompositeMode::Max => seq_max(s),
        CompositeMode::Mean => trunc_div(seq_sum(s), s.len() as int),
        CompositeMode::MeanMax { threshold } => {
            if count_ge(s, threshold as int) > 0 {
                trunc_div(sum_ge(s, threshold as int), count_ge(s, threshold as int))
            } else {
                trunc_div(seq_sum(s), s.len() as int)
            }
        }
    }
}

/// The sum of `n` readings lies within `n` times the reading range.
proof fn lemma_sum_bounds(s: Seq<i32>)
    ensures
        (i32::MIN as int) * s.len() <= seq_sum(s) <= (i32::MAX as int) * s.len(),
    decreases s.len(),
{
    if s.len() > 0 {
        lemma_sum_bounds(s.drop_last());
    }
}

/// The filtered sum lies within the filtered count times the reading
/// range, and the count never exceeds the length.
proof fn lemma_sum_ge_bounds(s: Seq<i32>, th: int)
    ensures
        0 <= count_ge(s, th) <= s.len(),
        (i32::MIN as int) * count_ge(s, th) <= sum_ge(s, th)
            <= (i32::MAX as int) * count_ge(s, th),
    decreases s.len(),
{
    if s.len() > 0 {
        lemma_sum_ge_bounds(s.drop_last(), th);
    }
}

/// The maximum of a non-empty sequence of readings is itself a valid
/// reading.
proof fn lemma_max_in_range(s: Seq<i32>)
    requires
        s.len() > 0,
    ensures
        i32::MIN <= seq_max(s) <= i32::MAX,
    decreases s.len(),
{
    if s.len() > 1 {
        lemma_max_in_range(s.drop_last());
    }
}

/// Every combined value is itself a valid reading.
pub proof fn lemma_combine_in_range(mode: CompositeMode, s: Seq<i32>)
    requires
        s.len() > 0,
    ensures
        i32::MIN <= spec_combine(mode, s) <= i32::MAX,
{
    match mode {
        CompositeMode::Max => {
            lemma_max_in_range(s);
        }
        CompositeMode::Mean => {
            lemma_sum_bounds(s);
            lemma_trunc_div_bounds(seq_sum(s), s.len() as int, i32::MIN as int, i32::MAX as int);
        }
        CompositeMode::MeanMax { threshold } => {
            let th = threshold as int;
            lemma_sum_ge_bounds(s, th);
            if count_ge(s, th) > 0 {
                lemma_trunc_div_bounds(sum_ge(s, th), count_ge(s, th), i32::MIN as int,
                    i32::MAX as int);
            } else {
                lemma_sum_bounds(s);
                lemma_trunc_div_bounds(seq_sum(s), s.len() as int, i32::MIN as int,
                    i32::MAX as int);
            }
        }
    }
}

/// Combines non-empty inputs under a mode.
pub fn combine(mode: &CompositeMode, inputs: &Vec<i32>) -> (r: i32)
    requires
        inputs@.len() > 0,
    ensures
        r as int == spec_combine(*mode, inputs@),
{
    let n = inputs.len();
    proof {
        assert(inputs@.take(1).drop_last() =~= Seq::<i32>::empty());
        assert(inputs@.take(n as int) =~= inputs@);
    }
    match mode {
        CompositeMode::Max => {
            let mut m = inputs[0];
            let mut i: usize = 1;
            proof {
                assert(inputs@.take(1)[0] == inputs@[0]);
            }
            while i < n
                invariant
                    1 <= i <= n == inputs@.len(),
                    m as int == seq_max(inputs@.take(i as int)),
                decreases n - i,
            {
                proof {
                    assert(inputs@.take(i + 1).drop_last() =~= inputs@.take(i as int));
                    assert(inputs@.take(i + 1).last() == inputs@[i as int]);
                }
                if inputs[i] > m {
                    m = inputs[i];
                }
                i = i + 1;
            }
            proof {
                assert(inputs@.take(n as int) =~= inputs@);
            }
            m
        }
        CompositeMode::Mean => {
            let mut sum: i128 = 0;
            let mut i: usize = 0;
            proof {
                assert(inputs@.take(0) =~= Seq::<i32>::empty());
            }
            while i < n
                invariant
                    i <= n == inputs@.len(),
                    sum == seq_sum(inputs@.take(i as int)),
                    (i32::MIN as int) * i <= sum <= (i32::MAX as int) * i,
                decreases n - i,
            {
                proof {
                    assert(inputs@.take(i + 1).drop_last() =~= inputs@.take(i as int));
                    assert(inputs@.take(i + 1).last() == inputs@[i as int]);
                }
                sum = sum + inputs[i] as i128;
                i = i + 1;
            }
            let q = trunc_div_i128(sum, n as i128);
            proof {
                lemma_sum_bounds(inputs@);
                lemma_trunc_div_bounds(seq_sum(inputs@), n as int, i32::MIN as int,
                    i32::MAX as int);
            }
            q as i32
        }
        CompositeMode::MeanMax { threshold } => {
            let th = *threshold;
            let mut sum: i128 = 0;
            let mut sum_hi: i128 = 0;
            let mut cnt_hi: usize = 0;
            let mut i: usize = 0;
            proof {
                assert(inputs@.take(0) =~= Seq::<i32>::empty());
            }
            while i < n
                invariant
                    i <= n == inputs@.len(),
                    sum == seq_sum(inputs@.take(i as int)),
                    sum_hi == sum_ge(inputs@.take(i as int), th as int),
                    cnt_hi == count_ge(inputs@.take(i as int), th as int),
                    cnt_hi <= i,
                    (i32::MIN as int) * i <= sum <= (i32::MAX as int) * i,
                    (i32::MIN as int) * cnt_hi <= sum_hi <= (i32::MAX as int) * cnt_hi,
                decreases n - i,
            {
                proof {
                    assert(inputs@.take(i + 1).drop_last() =~= inputs@.take(i as int));
                    assert(inputs@.take(i + 1).last() == inputs@[i as int]);
                }
                let v = inputs[i];
                sum = sum + v as i128;
                if v >= th {
                    sum_hi = sum_hi + v as i128;
                    cnt_hi = cnt_hi + 1;
                }
                i = i + 1;
            }
            proof {
                lemma_sum_ge_bounds(inputs@, th as int);
                lemma_sum_bounds(inputs@);
            }
            if cnt_hi > 0 {
                let q = trunc_div_i128(sum_hi, cnt_hi as i128);
                proof {
                    lemma_trunc_div_bounds(sum_ge(inputs@, th as int),
                        count_ge(inputs@, th as int), i32::MIN as int, i32::MAX as int);
                }
                q as i32
            } else {
                let q = trunc_div_i128(sum, n as i128);
                proof {
                    lemma_trunc_div_bounds(seq_sum(inputs@), n as int, i32::MIN as int,
                        i32::MAX as int);
                }
                q as i32
            }
        }
    }
}

/// The readings a composite's inputs select from the table, in input
/// order; inputs the table does not hold are dropped.
pub open spec fn gather(m: Map<Seq<char>, i32>, inputs: Seq<String>) -> Seq<i32>
    decreases inputs.len(),
{
    if inputs.len() == 0 {
        Seq::empty()
    } else {
        let rest = gather(m, inputs.drop_last());
        if m.contains_key(inputs.last()@) {
            rest.push(m[inputs.last()@])
        } else {
            rest
        }
    }
}

/// One composite's effect on the table: no entry when none of its inputs
/// is present, otherwise the combined value inserted under its name.
pub open spec fn eval_step(m: Map<Seq<char>, i32>, name: Seq<char>, c: Composite) -> Map<
    Seq<char>,
    i32,
> {
    let vs = gather(m, c.inputs@);
    if vs.len() == 0 {
        m
    } else {
        m.insert(name, spec_combine(c.mode, vs) as i32)
    }
}

/// The table after all composites are evaluated in declaration order;
/// each composite sees the entries of everything declared before it.
pub open spec fn eval_all(m: Map<Seq<char>, i32>, cs: Seq<(String, Composite)>) -> Map<
    Seq<char>,
    i32,
>
    decreases cs.len(),
{
    if cs.len() == 0 {
        m
    } else {
        eval_step(eval_all(m, cs.drop_last()), cs.last().0@, cs.last().1)
    }
}

/// Evaluates the configured composites in declaration order against the
/// temperature table, inserting each result under its composite's name;
/// composites none of whose inputs are present are skipped.
pub fn eval_composites(temps: &mut Vec<(String, i32)>, composites: &Vec<(String, Composite)>)
    ensures
        alist_map(final(temps)@) == eval_all(alist_map(old(temps)@), composites@),
{
    let n = composites.len();
    let mut i: usize = 0;
    proof {
        assert(composites@.take(0) =~= Seq::<(String, Composite)>::empty());
    }
    while i < n
        invariant
            i <= n == composites@.len(),
            alist_map(temps@) == eval_all(alist_map(old(temps)@), composites@.take(i as int)),
        decreases n - i,
    {
        let comp = &composites[i].1;
        let ghost m0 = alist_map(temps@);
        let mut vals: Vec<i32> = Vec::new();
        let k = comp.inputs.len();
        let mut j: usize = 0;
        proof {
            assert(comp.inputs@.take(0) =~= Seq::<String>::empty());
        }
        while j < k
            invariant
                j <= k == comp.inputs@.len(),
                comp == &composites@[i as int].1,
                i < composites@.len(),
                m0 == alist_map(temps@),
                vals@ == gather(m0, comp.inputs@.take(j as int)),
            decreases k - j,
        {
            proof {
                assert(comp.inputs@.take(j + 1).drop_last() =~= comp.inputs@.take(j as int));
                assert(comp.inputs@.take(j + 1).last() == comp.inputs@[j as int]);
            }
            match alist_get(temps, &comp.inputs[j]) {
                Some(v) => {
                    vals.push(*v);
                }
                None => {}
            }
            j = j + 1;
        }
        proof {
            assert(comp.inputs@.take(k as int) =~= comp.inputs@);
        }
        if vals.len() > 0 {
            let v = combine(&comp.mode, &vals);
            proof {
                lemma_combine_in_range(comp.mode, vals@);
            }
            let name = composites[i].0.clone();
            alist_set(temps, name, v);
        }
        proof {
            assert(composites@.take(i + 1).drop_last() =~= composites@.take(i as int));
            assert(composites@.take(i + 1).last() == composites@[i as int]);
        }
        i = i + 1;
    }
    proof {
        assert(composites@.take(n as int) =~= composites@);
    }
}

} // verus!
