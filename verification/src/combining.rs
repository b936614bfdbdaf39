use crate::range::{
    collapse_list, lemma_sorted_view, range_models, ranges2range, Bound, BoundModel, Range,
    RangeModel,
};
use crate::value::{lemma_tuple_view, value_models, DataValue, Value};
use vstd::prelude::*;

verus! {

/// The values of a range that is a single value or a list of single values;
/// nothing for any other range.
pub open spec fn points_of(r: RangeModel) -> Option<Seq<Value>> {
    match r {
        RangeModel::Eq(v) => Some(seq![v]),
        RangeModel::SortedRanges(rs) => if forall|i: int| 0 <= i < rs.len() ==> rs[i] is Eq {
            Some(Seq::new(rs.len(), |i: int| rs[i]->Eq_0))
        } else {
            None
        },
        _ => None,
    }
}

/// `p` in front of each of `tails`.
pub open spec fn block(p: Value, tails: Seq<Seq<Value>>) -> Seq<Seq<Value>> {
    Seq::new(tails.len(), |j: int| seq![p] + tails[j])
}

/// Each of the first `n` of `ps` in front of each of `tails`: first all with
/// the first of `ps`, then all with the second, and so on.
pub open spec fn cross(ps: Seq<Value>, tails: Seq<Seq<Value>>, n: nat) -> Seq<Seq<Value>>
    decreases n,
{
    if n == 0 || n > ps.len() {
        Seq::empty()
    } else {
        cross(ps, tails, (n - 1) as nat) + block(ps[n - 1], tails)
    }
}

/// All the tuples with one value from each of the ranges `eqs` from `k` on,
/// in the order of the ranges; nothing where a range that is reached holds
/// anything but single values.
pub open spec fn product(eqs: Seq<RangeModel>, k: nat) -> Option<Seq<Seq<Value>>>
    decreases eqs.len() - k,
{
    if k >= eqs.len() {
        Some(seq![Seq::empty()])
    } else {
        match points_of(eqs[k as int]) {
            None => None,
            Some(ps) => if ps.len() == 0 {
                Some(Seq::empty())
            } else {
                match product(eqs, k + 1) {
                    None => None,
                    Some(tails) => Some(cross(ps, tails, ps.len())),
                }
            },
        }
    }
}

/// A bound of the last column behind the prefix `t`: the tuple of prefix
/// and value, marked as an upper tuple on the upper end. An open end
/// becomes the excluded prefix itself, which as a lower tuple sorts before
/// and as an upper tuple behind all that extend it; with no prefix it stays
/// open.
pub open spec fn lift_bound(t: Seq<Value>, is_upper: bool, bound: BoundModel) -> BoundModel {
    match bound {
        BoundModel::Included(v) => BoundModel::Included(Value::Tuple(t.push(v), is_upper)),
        BoundModel::Excluded(v) => BoundModel::Excluded(Value::Tuple(t.push(v), is_upper)),
        BoundModel::Unbounded => if t.len() == 0 {
            BoundModel::Unbounded
        } else {
            BoundModel::Excluded(Value::Tuple(t, is_upper))
        },
    }
}

/// A range of the last column behind the prefix `t`, as ranges of tuples:
/// an interval between its lifted ends, a single value as the single tuple,
/// a list as its members' ranges one after the other.
pub open spec fn lift_range(t: Seq<Value>, r: RangeModel) -> Seq<RangeModel>
    decreases r, 0nat,
{
    match r {
        RangeModel::Scope { min, max } => seq![
            RangeModel::Scope {
                min: lift_bound(t, false, min),
                max: lift_bound(t, true, max),
            },
        ],
        RangeModel::Eq(v) => seq![RangeModel::Eq(Value::Tuple(t.push(v), false))],
        RangeModel::Dummy => seq![RangeModel::Dummy],
        RangeModel::SortedRanges(rs) => lift_members(t, rs, rs.len()),
    }
}

/// The ranges of the first `n` members of a list behind the prefix `t`.
pub open spec fn lift_members(t: Seq<Value>, rs: Seq<RangeModel>, n: nat) -> Seq<RangeModel>
    decreases rs, n,
{
    if n == 0 || n > rs.len() {
        Seq::empty()
    } else {
        lift_members(t, rs, (n - 1) as nat) + lift_range(t, rs[n - 1])
    }
}

/// The range `r` behind each of the first `n` prefixes, one after the other.
pub open spec fn lift_each(combos: Seq<Seq<Value>>, r: RangeModel, n: nat) -> Seq<RangeModel>
    decreases n,
{
    if n == 0 || n > combos.len() {
        Seq::empty()
    } else {
        lift_each(combos, r, (n - 1) as nat) + lift_range(combos[n - 1], r)
    }
}

/// The range `r` of the last key column combined with the single values
/// `eqs` of the columns in front of it: for every tuple of one value from
/// each, the range behind that prefix.
pub open spec fn combined(r: RangeModel, eqs: Seq<RangeModel>) -> Option<RangeModel> {
    match product(eqs, 0) {
        Some(combos) => Some(collapse_list(lift_each(combos, r, combos.len()))),
        None => None,
    }
}

/// The models of a run of tuples of values.
pub open spec fn combo_models(cs: Seq<Vec<DataValue>>) -> Seq<Seq<Value>> {
    Seq::new(cs.len(), |i: int| value_models(cs[i]@))
}

fn copy_values(values: &Vec<DataValue>) -> (r: Vec<DataValue>)
    ensures
        value_models(r@) == value_models(values@),
{
    let mut out: Vec<DataValue> = Vec::new();
    let mut i: usize = 0;
    while i < values.len()
        invariant
            i <= values.len(),
            out.len() == i,
            forall|k: int| 0 <= k < i ==> out@[k]@ == values@[k]@,
        decreases values.len() - i,
    {
        out.push(values[i].clone());
        i += 1;
    }
    assert(value_models(out@) =~= value_models(values@));
    out
}

fn with_last(tuple: &Vec<DataValue>, value: DataValue) -> (r: Vec<DataValue>)
    ensures
        value_models(r@) == value_models(tuple@).push(value@),
{
    let mut out = copy_values(tuple);
    let ghost before = value_models(out@);
    out.push(value);
    assert(value_models(out@) =~= before.push(value@));
    out
}

fn merge_value(tuple: &Vec<DataValue>, is_upper: bool, value: DataValue) -> (r: DataValue)
    ensures
        r@ == Value::Tuple(value_models(tuple@).push(value@), is_upper),
{
    let merged = with_last(tuple, value);
    proof {
        lemma_tuple_view(merged, is_upper);
    }
    DataValue::Tuple(merged, is_upper)
}

fn merge_value_on_bound(tuple: &Vec<DataValue>, is_upper: bool, bound: &Bound) -> (r: Bound)
    ensures
        r@ == lift_bound(value_models(tuple@), is_upper, bound@),
{
    match bound {
        Bound::Included(v) => Bound::Included(merge_value(tuple, is_upper, v.clone())),
        Bound::Excluded(v) => Bound::Excluded(merge_value(tuple, is_upper, v.clone())),
        Bound::Unbounded => {
            if tuple.len() == 0 {
                return Bound::Unbounded;
            }
            let values = copy_values(tuple);
            proof {
                lemma_tuple_view(values, is_upper);
            }
            Bound::Excluded(DataValue::Tuple(values, is_upper))
        },
    }
}

fn collect_tuple_range(result_ranges: &mut Vec<Range>, tuple: &Vec<DataValue>, range: &Range)
    ensures
        range_models(final(result_ranges)@) == range_models(old(result_ranges)@) + lift_range(
            value_models(tuple@),
            range@,
        ),
    decreases range,
{
    let ghost before = range_models(result_ranges@);
    let ghost t = value_models(tuple@);
    match range {
        Range::Scope { min, max } => {
            let lifted = Range::Scope {
                min: merge_value_on_bound(tuple, false, min),
                max: merge_value_on_bound(tuple, true, max),
            };
            result_ranges.push(lifted);
            assert(range_models(result_ranges@) =~= before + lift_range(t, range@));
        },
        Range::Eq(v) => {
            let lifted = Range::Eq(merge_value(tuple, false, v.clone()));
            result_ranges.push(lifted);
            assert(range_models(result_ranges@) =~= before + lift_range(t, range@));
        },
        Range::Dummy => {
            result_ranges.push(Range::Dummy);
            assert(range_models(result_ranges@) =~= before + lift_range(t, range@));
        },
        Range::SortedRanges(ranges) => {
            proof {
                lemma_sorted_view(*ranges);
            }
            let ghost rs = range_models(ranges@);
            let mut i: usize = 0;
            assert(range_models(result_ranges@) =~= before + lift_members(t, rs, 0));
            while i < ranges.len()
                invariant
                    i <= ranges.len(),
                    *range == Range::SortedRanges(*ranges),
                    rs == range_models(ranges@),
                    t == value_models(tuple@),
                    range_models(result_ranges@) == before + lift_members(t, rs, i as nat),
                decreases ranges.len() - i,
            {
                assert(decreases_to!(range => range->SortedRanges_0));
                assert(decreases_to!(*ranges => ranges@));
                assert(decreases_to!(ranges@ => ranges@[i as int]));
                assert(rs[i as int] == ranges@[i as int]@);
                let ghost so_far = range_models(result_ranges@);
                collect_tuple_range(result_ranges, tuple, &ranges[i]);
                proof {
                    lemma_lift_members_step(t, rs, (i + 1) as nat);
                    assert(range_models(result_ranges@) =~= before + lift_members(
                        t,
                        rs,
                        (i + 1) as nat,
                    ));
                }
                i += 1;
            }
        },
    }
}

/// Unfolds one step of [`lift_members`].
proof fn lemma_lift_members_step(t: Seq<Value>, rs: Seq<RangeModel>, n: nat)
    requires
        0 < n <= rs.len(),
    ensures
        lift_members(t, rs, n) == lift_members(t, rs, (n - 1) as nat) + lift_range(t, rs[n - 1]),
{
    reveal_with_fuel(lift_members, 2);
}

/// The values of a range of single values.
fn points(range: &Range) -> (r: Option<Vec<DataValue>>)
    ensures
        match points_of(range@) {
            Some(ps) => r is Some && value_models(r->0@) == ps,
            None => r is None,
        },
{
    match range {
        Range::Eq(v) => {
            let mut out: Vec<DataValue> = Vec::new();
            out.push(v.clone());
            assert(value_models(out@) =~= seq![v@]);
            Some(out)
        },
        Range::SortedRanges(ranges) => {
            proof {
                lemma_sorted_view(*ranges);
            }
            let ghost rs = range_models(ranges@);
            let mut out: Vec<DataValue> = Vec::new();
            let mut i: usize = 0;
            while i < ranges.len()
                invariant
                    i <= ranges.len(),
                    out.len() == i,
                    rs == range_models(ranges@),
                    range@ == RangeModel::SortedRanges(rs),
                    forall|k: int| 0 <= k < i ==> rs[k] is Eq && out@[k]@ == rs[k]->Eq_0,
                decreases ranges.len() - i,
            {
                assert(rs[i as int] == ranges@[i as int]@);
                match &ranges[i] {
                    Range::Eq(v) => {
                        out.push(v.clone());
                    },
                    Range::SortedRanges(inner) => {
                        proof {
                            lemma_sorted_view(*inner);
                            assert(!(rs[i as int] is Eq));
                        }
                        return None;
                    },
                    _ => {
                        assert(!(rs[i as int] is Eq));
                        return None;
                    },
                }
                i += 1;
            }
            assert(value_models(out@) =~= Seq::new(rs.len(), |i: int| rs[i]->Eq_0));
            Some(out)
        },
        _ => None,
    }
}

/// Each of `ps` in front of each of `tails`.
fn cross_all(ps: &Vec<DataValue>, tails: &Vec<Vec<DataValue>>) -> (r: Vec<Vec<DataValue>>)
    ensures
        combo_models(r@) == cross(value_models(ps@), combo_models(tails@), ps@.len()),
{
    let ghost pm = value_models(ps@);
    let ghost tm = combo_models(tails@);
    let mut out: Vec<Vec<DataValue>> = Vec::new();
    let mut i: usize = 0;
    assert(combo_models(out@) =~= cross(pm, tm, 0));
    while i < ps.len()
        invariant
            i <= ps.len(),
            pm == value_models(ps@),
            tm == combo_models(tails@),
            combo_models(out@) == cross(pm, tm, i as nat),
        decreases ps.len() - i,
    {
        let ghost start = combo_models(out@);
        let mut j: usize = 0;
        assert(combo_models(out@) =~= start + block(pm[i as int], tm).subrange(0, 0));
        while j < tails.len()
            invariant
                j <= tails.len(),
                i < ps.len(),
                pm == value_models(ps@),
                tm == combo_models(tails@),
                combo_models(out@) == start + block(pm[i as int], tm).subrange(0, j as int),
            decreases tails.len() - j,
        {
            let mut combo: Vec<DataValue> = Vec::new();
            combo.push(ps[i].clone());
            let ghost head = value_models(combo@);
            assert(head =~= seq![pm[i as int]]);
            let tail = &tails[j];
            let mut k: usize = 0;
            assert(value_models(combo@) =~= head + value_models(tail@).subrange(0, 0));
            while k < tail.len()
                invariant
                    k <= tail.len(),
                    value_models(combo@) == head + value_models(tail@).subrange(0, k as int),
                decreases tail.len() - k,
            {
                let ghost cur = value_models(combo@);
                let item = tail[k].clone();
                combo.push(item);
                assert(value_models(combo@) =~= cur.push(item@));
                assert(value_models(tail@).subrange(0, k + 1) =~= value_models(tail@).subrange(
                    0,
                    k as int,
                ).push(tail@[k as int]@));
                assert(value_models(combo@) =~= head + value_models(tail@).subrange(0, k + 1));
                k += 1;
            }
            assert(value_models(tail@).subrange(0, tail@.len() as int) =~= value_models(tail@));
            let ghost so_far = combo_models(out@);
            out.push(combo);
            proof {
                assert(tm[j as int] == value_models(tails@[j as int]@));
                assert(combo_models(out@) =~= so_far.push(value_models(combo@)));
                assert(block(pm[i as int], tm).subrange(0, j + 1) =~= block(
                    pm[i as int],
                    tm,
                ).subrange(0, j as int).push(seq![pm[i as int]] + tm[j as int]));
            }
            j += 1;
        }
        assert(block(pm[i as int], tm).subrange(0, tails@.len() as int) =~= block(pm[i as int], tm));
        i += 1;
    }
    out
}

/// All the tuples with one value from each of the ranges from `k` on.
fn tuples_from(eqs: &[Range], k: usize) -> (r: Option<Vec<Vec<DataValue>>>)
    requires
        k <= eqs@.len(),
    ensures
        match product(range_models(eqs@), k as nat) {
            Some(cs) => r is Some && combo_models(r->0@) == cs,
            None => r is None,
        },
    decreases eqs@.len() - k,
{
    if k >= eqs.len() {
        let mut out: Vec<Vec<DataValue>> = Vec::new();
        out.push(Vec::new());
        assert(value_models(out@[0]@) =~= Seq::<Value>::empty());
        assert(combo_models(out@) =~= seq![Seq::<Value>::empty()]);
        return Some(out);
    }
    assert(range_models(eqs@)[k as int] == eqs@[k as int]@);
    match points(&eqs[k]) {
        None => None,
        Some(ps) => {
            if ps.len() == 0 {
                let out: Vec<Vec<DataValue>> = Vec::new();
                assert(combo_models(out@) =~= Seq::<Seq<Value>>::empty());
                return Some(out);
            }
            match tuples_from(eqs, k + 1) {
                None => None,
                Some(tails) => Some(cross_all(&ps, &tails)),
            }
        },
    }
}

impl Range {
    /// The range of the last key column combined with the single values
    /// `eqs` of the key columns in front of it, as one range of key tuples;
    /// nothing where `eqs` holds anything but single values.
    pub fn combining_eqs(&self, eqs: &[Range]) -> (r: Option<Range>)
        ensures
            match combined(self@, range_models(eqs@)) {
                Some(m) => r is Some && r->0@ == m,
                None => r is None,
            },
    {
        let combinations = match tuples_from(eqs, 0) {
            Some(c) => c,
            None => {
                return None;
            },
        };
        let ghost combos = combo_models(combinations@);
        let mut ranges: Vec<Range> = Vec::new();
        let mut i: usize = 0;
        assert(range_models(ranges@) =~= lift_each(combos, self@, 0));
        while i < combinations.len()
            invariant
                i <= combinations.len(),
                combos == combo_models(combinations@),
                range_models(ranges@) == lift_each(combos, self@, i as nat),
            decreases combinations.len() - i,
        {
            assert(combos[i as int] == value_models(combinations@[i as int]@));
            collect_tuple_range(&mut ranges, &combinations[i], self);
            i += 1;
        }
        Some(ranges2range(ranges))
    }
}

} // verus!
