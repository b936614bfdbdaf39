use crate::decimal::ValueOrder;
use crate::expression::BinaryOperator;
use crate::range::{
    all_pieces, bound_compared, bound_order, collapse_list, ends_before, is_atom, is_before,
    is_piece, lemma_merge_atoms_shape, lemma_sorted_view, merge_atoms, merge_simple, range_models,
    ranges2range, well_formed, Bound, BoundModel, Range, RangeModel,
};
use crate::value::value_order;
use vstd::prelude::*;

verus! {

/// What to do with an incoming piece at one member of a sorted list when
/// the two are united.
#[derive(Debug, Clone, Copy, PartialEq, Eq, Structural)]
pub enum Step {
    /// The incoming piece lies before the member: it goes in here.
    Insert,
    /// The incoming piece lies behind the member: on to the next.
    Advance,
    /// The member leaves the list and the incoming piece stays as it is.
    Drop,
    /// The member leaves the list and becomes the incoming piece.
    Take,
    /// The member leaves the list and is united with the incoming piece.
    Merge,
}

/// Whether an order is there and is greater; `fallback` where it is not there.
pub open spec fn greater_or(o: Option<ValueOrder>, fallback: bool) -> bool {
    match o {
        Some(x) => x is Greater,
        None => fallback,
    }
}

/// Whether an order is there and is less; `fallback` where it is not there.
pub open spec fn less_or(o: Option<ValueOrder>, fallback: bool) -> bool {
    match o {
        Some(x) => x is Less,
        None => fallback,
    }
}

/// The step for the incoming piece `binary` at the member `current`: insert
/// where it lies wholly before the member, advance where it lies wholly
/// behind, unite the two otherwise. A null value is dropped before an
/// interval that reaches down to it. A member that is no interval and no
/// single value is dropped.
pub open spec fn step_of(binary: RangeModel, current: RangeModel) -> Step {
    match (binary, current) {
        (
            RangeModel::Scope { min: l_min, max: l_max },
            RangeModel::Scope { min: r_min, max: r_max },
        ) => if ends_before(l_max, r_min) {
            Step::Insert
        } else if ends_before(r_max, l_min) {
            Step::Advance
        } else {
            Step::Merge
        },
        (RangeModel::Scope { min: l_min, max: l_max }, RangeModel::Eq(r_val)) => {
            let r_bound = BoundModel::Included(r_val);
            if ends_before(l_max, r_bound) {
                Step::Insert
            } else if greater_or(bound_order(l_min, r_bound, true), true) {
                Step::Advance
            } else if r_val is Null {
                Step::Drop
            } else {
                Step::Merge
            }
        },
        (RangeModel::Eq(l_val), RangeModel::Eq(r_val)) => match value_order(l_val, r_val) {
            Some(ValueOrder::Less) => Step::Insert,
            Some(ValueOrder::Greater) => Step::Advance,
            _ => Step::Merge,
        },
        (RangeModel::Eq(l_val), RangeModel::Scope { min: r_min, max: r_max }) => {
            let l_bound = BoundModel::Included(l_val);
            if !(r_min is Unbounded) && less_or(bound_order(l_bound, r_min, false), true) {
                Step::Insert
            } else if ends_before(r_max, l_bound) {
                Step::Advance
            } else if l_val is Null {
                Step::Take
            } else {
                Step::Merge
            }
        },
        _ => Step::Drop,
    }
}

/// Unites the incoming piece `binary` with the sorted list `ranges` from
/// position `idx` on, step by step; gives the new list and the position
/// where the walk ended. Where uniting the incoming piece with a member
/// leaves two pieces, the lower one takes the member's place and the upper
/// one goes on as the incoming piece. What is left of the incoming piece at
/// the end of the list is appended.
pub open spec fn united(binary: RangeModel, ranges: Seq<RangeModel>, idx: nat) -> (
    Seq<RangeModel>,
    nat,
)
    decreases ranges.len() - idx,
{
    if idx >= ranges.len() {
        (
            if is_piece(binary) {
                ranges.push(binary)
            } else {
                ranges
            },
            idx,
        )
    } else {
        match step_of(binary, ranges[idx as int]) {
            Step::Insert => (ranges.insert(idx as int, binary), idx),
            Step::Advance => united(binary, ranges, idx + 1),
            Step::Drop => united(binary, ranges.remove(idx as int), idx),
            Step::Take => united(ranges[idx as int], ranges.remove(idx as int), idx),
            Step::Merge => match merge_atoms(BinaryOperator::Or, binary, ranges[idx as int]) {
                Some(RangeModel::SortedRanges(pieces)) => united(
                    pieces[1],
                    ranges.update(idx as int, pieces[0]),
                    idx + 1,
                ),
                Some(m) => united(m, ranges.remove(idx as int), idx),
                None => (ranges, idx),
            },
        }
    }
}

/// The first `n` members of `ranges`, each intersected with `binary`; what
/// comes out empty is left out.
pub open spec fn intersected(binary: RangeModel, ranges: Seq<RangeModel>, n: nat) -> Seq<
    RangeModel,
>
    decreases n,
{
    if n == 0 || n > ranges.len() {
        Seq::empty()
    } else {
        let front = intersected(binary, ranges, (n - 1) as nat);
        match merge_atoms(BinaryOperator::And, binary, ranges[n - 1]) {
            Some(m) => if is_piece(m) {
                front.push(m)
            } else {
                front
            },
            None => front,
        }
    }
}

/// The members of `ranges` intersected with each of the first `n` members
/// of `left`, in the order of `left`.
pub open spec fn intersected_lists(left: Seq<RangeModel>, ranges: Seq<RangeModel>, n: nat) -> Seq<
    RangeModel,
>
    decreases n,
{
    if n == 0 || n > left.len() {
        Seq::empty()
    } else {
        intersected_lists(left, ranges, (n - 1) as nat) + intersected(
            left[n - 1],
            ranges,
            ranges.len(),
        )
    }
}

/// Works the incoming range `binary` into the sorted list `ranges`. Under
/// `Or` an interval or a single value is united with the list from position
/// `idx` on. Under `And` every member is intersected with the incoming
/// range, and what comes out empty leaves the list. Without an incoming
/// range, with an empty one under `Or`, and under any other operator, the
/// list stays as it is.
pub open spec fn extract(
    op: BinaryOperator,
    binary: Option<RangeModel>,
    ranges: Seq<RangeModel>,
    idx: nat,
) -> (Seq<RangeModel>, nat) {
    match (op, binary) {
        (BinaryOperator::And, Some(b)) => (intersected(b, ranges, ranges.len()), idx),
        (BinaryOperator::Or, Some(b)) => if is_piece(b) {
            united(b, ranges, idx)
        } else {
            (ranges, idx)
        },
        _ => (ranges, idx),
    }
}

/// Unites the members of `left` from `k` on, one after the other, with
/// `ranges`; each walk starts where the one before ended.
pub open spec fn fold(left: Seq<RangeModel>, k: nat, ranges: Seq<RangeModel>, idx: nat) -> Seq<
    RangeModel,
>
    decreases left.len() - k,
{
    if k >= left.len() {
        ranges
    } else {
        let next = extract(BinaryOperator::Or, Some(left[k as int]), ranges, idx);
        fold(left, k + 1, next.0, next.1)
    }
}

/// Two ranges combined under `And` or `Or`; nothing under any other
/// operator. Single pieces combine directly. Under `Or` a single piece is
/// united with a list, and a list with a list member by member. Under `And`
/// the members of a list are intersected one by one with the other range,
/// or with each of its members. What comes out is brought back to one
/// range. The empty range is absorbing under `And` and neutral under `Or`.
pub open spec fn merge(op: BinaryOperator, left: RangeModel, right: RangeModel) -> Option<
    RangeModel,
> {
    match (left, right) {
        (RangeModel::Dummy, _) => match op {
            BinaryOperator::And => Some(RangeModel::Dummy),
            BinaryOperator::Or => Some(right),
            _ => None,
        },
        (_, RangeModel::Dummy) => match op {
            BinaryOperator::And => Some(RangeModel::Dummy),
            BinaryOperator::Or => Some(left),
            _ => None,
        },
        (RangeModel::SortedRanges(ls), RangeModel::SortedRanges(rs)) => match op {
            BinaryOperator::And => Some(collapse_list(intersected_lists(ls, rs, ls.len()))),
            BinaryOperator::Or => Some(collapse_list(fold(ls, 0, rs, 0))),
            _ => None,
        },
        (RangeModel::SortedRanges(rs), x) => match op {
            BinaryOperator::And | BinaryOperator::Or => Some(
                collapse_list(extract(op, Some(x), rs, 0).0),
            ),
            _ => None,
        },
        (x, RangeModel::SortedRanges(rs)) => match op {
            BinaryOperator::And | BinaryOperator::Or => Some(
                collapse_list(extract(op, Some(x), rs, 0).0),
            ),
            _ => None,
        },
        _ => merge_atoms(op, left, right),
    }
}

/// Uniting a piece with a list of pieces leaves a list of pieces.
pub proof fn lemma_united_pieces(binary: RangeModel, ranges: Seq<RangeModel>, idx: nat)
    requires
        is_piece(binary),
        all_pieces(ranges),
    ensures
        all_pieces(united(binary, ranges, idx).0),
    decreases ranges.len() - idx,
{
    if idx >= ranges.len() {
    } else {
        let cur = ranges[idx as int];
        assert(is_piece(cur));
        match step_of(binary, cur) {
            Step::Insert => {},
            Step::Advance => {
                lemma_united_pieces(binary, ranges, idx + 1);
            },
            Step::Drop => {
                lemma_united_pieces(binary, ranges.remove(idx as int), idx);
            },
            Step::Take => {
                lemma_united_pieces(cur, ranges.remove(idx as int), idx);
            },
            Step::Merge => {
                lemma_merge_atoms_shape(BinaryOperator::Or, binary, cur);
                match merge_atoms(BinaryOperator::Or, binary, cur) {
                    Some(RangeModel::SortedRanges(pieces)) => {
                        lemma_united_pieces(
                            pieces[1],
                            ranges.update(idx as int, pieces[0]),
                            idx + 1,
                        );
                    },
                    Some(m) => {
                        lemma_united_pieces(m, ranges.remove(idx as int), idx);
                    },
                    None => {},
                }
            },
        }
    }
}

/// Intersecting leaves a list of pieces.
pub proof fn lemma_intersected_pieces(binary: RangeModel, ranges: Seq<RangeModel>, n: nat)
    ensures
        all_pieces(intersected(binary, ranges, n)),
    decreases n,
{
    if n == 0 || n > ranges.len() {
    } else {
        lemma_intersected_pieces(binary, ranges, (n - 1) as nat);
    }
}

/// Intersecting two lists leaves a list of pieces.
pub proof fn lemma_intersected_lists_pieces(left: Seq<RangeModel>, ranges: Seq<RangeModel>, n: nat)
    ensures
        all_pieces(intersected_lists(left, ranges, n)),
    decreases n,
{
    if n == 0 || n > left.len() {
    } else {
        lemma_intersected_lists_pieces(left, ranges, (n - 1) as nat);
        lemma_intersected_pieces(left[n - 1], ranges, ranges.len());
    }
}

/// Working a single piece into a list of pieces leaves a list of pieces.
pub proof fn lemma_extract_pieces(
    op: BinaryOperator,
    binary: Option<RangeModel>,
    ranges: Seq<RangeModel>,
    idx: nat,
)
    requires
        all_pieces(ranges),
    ensures
        all_pieces(extract(op, binary, ranges, idx).0),
{
    match (op, binary) {
        (BinaryOperator::And, Some(b)) => {
            lemma_intersected_pieces(b, ranges, ranges.len());
        },
        (BinaryOperator::Or, Some(b)) => {
            if is_piece(b) {
                lemma_united_pieces(b, ranges, idx);
            }
        },
        _ => {},
    }
}

/// Uniting pieces with a list of pieces leaves a list of pieces.
pub proof fn lemma_fold_pieces(left: Seq<RangeModel>, k: nat, ranges: Seq<RangeModel>, idx: nat)
    requires
        all_pieces(ranges),
    ensures
        all_pieces(fold(left, k, ranges, idx)),
    decreases left.len() - k,
{
    if k < left.len() {
        lemma_extract_pieces(BinaryOperator::Or, Some(left[k as int]), ranges, idx);
        let next = extract(BinaryOperator::Or, Some(left[k as int]), ranges, idx);
        lemma_fold_pieces(left, k + 1, next.0, next.1);
    }
}

/// Normal form is kept: ranges in normal form combine into a range in
/// normal form, whose lists hold at least two members, each an interval or
/// a single value.
pub proof fn lemma_merge_well_formed(op: BinaryOperator, left: RangeModel, right: RangeModel)
    requires
        well_formed(left),
        well_formed(right),
    ensures
        merge(op, left, right) matches Some(m) ==> well_formed(m),
{
    match (left, right) {
        (RangeModel::Dummy, _) => {},
        (_, RangeModel::Dummy) => {},
        (RangeModel::SortedRanges(ls), RangeModel::SortedRanges(rs)) => {
            lemma_fold_pieces(ls, 0, rs, 0);
            lemma_intersected_lists_pieces(ls, rs, ls.len());
        },
        (RangeModel::SortedRanges(rs), x) => {
            lemma_extract_pieces(op, Some(x), rs, 0);
        },
        (x, RangeModel::SortedRanges(rs)) => {
            lemma_extract_pieces(op, Some(x), rs, 0);
        },
        _ => {
            lemma_merge_atoms_shape(op, left, right);
        },
    }
}

fn greater_or_else(o: Option<ValueOrder>, fallback: bool) -> (r: bool)
    ensures
        r == greater_or(o, fallback),
{
    match o {
        Some(ValueOrder::Greater) => true,
        Some(_) => false,
        None => fallback,
    }
}

fn less_or_else(o: Option<ValueOrder>, fallback: bool) -> (r: bool)
    ensures
        r == less_or(o, fallback),
{
    match o {
        Some(ValueOrder::Less) => true,
        Some(_) => false,
        None => fallback,
    }
}

fn is_open(bound: &Bound) -> (r: bool)
    ensures
        r == (bound@ is Unbounded),
{
    match bound {
        Bound::Unbounded => true,
        _ => false,
    }
}

fn is_a_piece(range: &Range) -> (r: bool)
    ensures
        r == is_piece(range@),
{
    match range {
        Range::Scope { .. } => true,
        Range::Eq(_) => true,
        Range::Dummy => false,
        Range::SortedRanges(rs) => {
            proof {
                lemma_sorted_view(*rs);
            }
            false
        },
    }
}

/// The step for the incoming piece at one member of the list.
fn decide(binary: &Range, current: &Range) -> (r: Step)
    ensures
        r == step_of(binary@, current@),
{
    match (binary, current) {
        (Range::Scope { min: l_min, max: l_max }, Range::Scope { min: r_min, max: r_max }) => {
            if is_before(l_max, r_min) {
                Step::Insert
            } else if is_before(r_max, l_min) {
                Step::Advance
            } else {
                Step::Merge
            }
        },
        (Range::Scope { min: l_min, max: l_max }, Range::Eq(r_val)) => {
            let r_bound = Bound::Included(r_val.clone());
            if is_before(l_max, &r_bound) {
                Step::Insert
            } else if greater_or_else(bound_compared(l_min, &r_bound, true), true) {
                Step::Advance
            } else if r_val.is_null() {
                Step::Drop
            } else {
                Step::Merge
            }
        },
        (Range::Eq(l_val), Range::Eq(r_val)) => match l_val.compare(r_val) {
            Some(ValueOrder::Less) => Step::Insert,
            Some(ValueOrder::Greater) => Step::Advance,
            _ => Step::Merge,
        },
        (Range::Eq(l_val), Range::Scope { min: r_min, max: r_max }) => {
            let l_bound = Bound::Included(l_val.clone());
            if !is_open(r_min) && less_or_else(bound_compared(&l_bound, r_min, false), true) {
                Step::Insert
            } else if is_before(r_max, &l_bound) {
                Step::Advance
            } else if l_val.is_null() {
                Step::Take
            } else {
                Step::Merge
            }
        },
        (Range::SortedRanges(rs), _) => {
            proof {
                lemma_sorted_view(*rs);
            }
            Step::Drop
        },
        (_, Range::SortedRanges(rs)) => {
            proof {
                lemma_sorted_view(*rs);
            }
            Step::Drop
        },
        _ => Step::Drop,
    }
}

/// Unites the incoming piece with the sorted list from position `*idx` on.
fn unite(binary: Range, ranges: Vec<Range>, idx: &mut usize) -> (r: Vec<Range>)
    requires
        is_piece(binary@),
        all_pieces(range_models(ranges@)),
    ensures
        (range_models(r@), *final(idx) as nat) == united(
            binary@,
            range_models(ranges@),
            *old(idx) as nat,
        ),
{
    let ghost want = united(binary@, range_models(ranges@), *old(idx) as nat);
    let mut incoming = binary;
    let mut list = ranges;
    while *idx < list.len()
        invariant
            is_piece(incoming@),
            all_pieces(range_models(list@)),
            want == united(binary@, range_models(ranges@), *old(idx) as nat),
            united(incoming@, range_models(list@), *idx as nat) == want,
        decreases list.len() - *idx,
    {
        let ghost models = range_models(list@);
        let ghost at = *idx as int;
        assert(models[at] == list@[at]@);
        assert(is_piece(models[at]));
        let step = decide(&incoming, &list[*idx]);
        match step {
            Step::Insert => {
                list.insert(*idx, incoming);
                assert(range_models(list@) =~= models.insert(at, incoming@));
                return list;
            },
            Step::Advance => {
                *idx += 1;
            },
            Step::Drop => {
                let _ = list.remove(*idx);
                assert(range_models(list@) =~= models.remove(at));
                assert(all_pieces(range_models(list@))) by {
                    assert forall|i: int| 0 <= i < models.remove(at).len() implies is_piece(
                        #[trigger] models.remove(at)[i],
                    ) by {
                        if i < at {
                            assert(models.remove(at)[i] == models[i]);
                        } else {
                            assert(models.remove(at)[i] == models[i + 1]);
                        }
                    }
                }
            },
            Step::Take => {
                let removed = list.remove(*idx);
                assert(range_models(list@) =~= models.remove(at));
                assert(all_pieces(range_models(list@))) by {
                    assert forall|i: int| 0 <= i < models.remove(at).len() implies is_piece(
                        #[trigger] models.remove(at)[i],
                    ) by {
                        if i < at {
                            assert(models.remove(at)[i] == models[i]);
                        } else {
                            assert(models.remove(at)[i] == models[i + 1]);
                        }
                    }
                }
                incoming = removed;
            },
            Step::Merge => {
                let removed = list.remove(*idx);
                assert(range_models(list@) =~= models.remove(at));
                assert(all_pieces(range_models(list@))) by {
                    assert forall|i: int| 0 <= i < models.remove(at).len() implies is_piece(
                        #[trigger] models.remove(at)[i],
                    ) by {
                        if i < at {
                            assert(models.remove(at)[i] == models[i]);
                        } else {
                            assert(models.remove(at)[i] == models[i + 1]);
                        }
                    }
                }
                proof {
                    lemma_merge_atoms_shape(BinaryOperator::Or, incoming@, removed@);
                }
                match merge_simple(BinaryOperator::Or, incoming, removed) {
                    Some(Range::SortedRanges(pieces)) => {
                        proof {
                            lemma_sorted_view(pieces);
                        }
                        let mut pieces = pieces;
                        let ghost both = range_models(pieces@);
                        let hi = pieces.pop();
                        let lo = pieces.pop();
                        match (lo, hi) {
                            (Some(lo), Some(hi)) => {
                                assert(lo@ == both[0] && hi@ == both[1]);
                                list.insert(*idx, lo);
                                assert(range_models(list@) =~= models.update(at, lo@));
                                assert(all_pieces(range_models(list@))) by {
                                    assert forall|i: int|
                                        0 <= i < models.update(at, lo@).len() implies is_piece(
                                        #[trigger] models.update(at, lo@)[i],
                                    ) by {
                                        if i != at {
                                            assert(models.update(at, lo@)[i] == models[i]);
                                        }
                                    }
                                }
                                incoming = hi;
                                *idx += 1;
                            },
                            _ => {
                                return list;
                            },
                        }
                    },
                    Some(m) => {
                        incoming = m;
                    },
                    None => {
                        return list;
                    },
                }
            },
        }
    }
    let ghost models = range_models(list@);
    list.push(incoming);
    assert(range_models(list@) =~= models.push(incoming@));
    list
}

/// Every member of the list intersected with `binary`; what comes out
/// empty is left out.
fn intersect(binary: &Range, ranges: &Vec<Range>) -> (r: Vec<Range>)
    requires
        is_atom(binary@),
        all_pieces(range_models(ranges@)),
    ensures
        range_models(r@) == intersected(binary@, range_models(ranges@), ranges@.len()),
{
    let ghost models = range_models(ranges@);
    let mut out: Vec<Range> = Vec::new();
    let mut i: usize = 0;
    assert(range_models(out@) =~= intersected(binary@, models, 0));
    while i < ranges.len()
        invariant
            i <= ranges.len(),
            models == range_models(ranges@),
            is_atom(binary@),
            all_pieces(models),
            range_models(out@) == intersected(binary@, models, i as nat),
        decreases ranges.len() - i,
    {
        let ghost before = range_models(out@);
        assert(models[i as int] == ranges@[i as int]@);
        assert(is_piece(models[i as int]));
        match merge_simple(BinaryOperator::And, binary.clone(), ranges[i].clone()) {
            Some(m) => {
                if is_a_piece(&m) {
                    out.push(m);
                    assert(range_models(out@) =~= before.push(m@));
                }
            },
            None => {},
        }
        i += 1;
    }
    out
}

/// Works the incoming range into the sorted list: unites it with the list
/// from position `*idx` on under `Or`, intersects every member with it
/// under `And`.
pub fn extract_merge_ranges(
    op: BinaryOperator,
    binary: Option<Range>,
    ranges: Vec<Range>,
    idx: &mut usize,
) -> (r: Vec<Range>)
    requires
        binary matches Some(b) ==> is_atom(b@),
        all_pieces(range_models(ranges@)),
    ensures
        (range_models(r@), *final(idx) as nat) == extract(
            op,
            model_of(binary),
            range_models(ranges@),
            *old(idx) as nat,
        ),
        all_pieces(range_models(r@)),
{
    proof {
        lemma_extract_pieces(op, model_of(binary), range_models(ranges@), *old(idx) as nat);
    }
    match (op, binary) {
        (BinaryOperator::And, Some(b)) => intersect(&b, &ranges),
        (BinaryOperator::Or, Some(b)) => if is_a_piece(&b) {
            unite(b, ranges, idx)
        } else {
            ranges
        },
        _ => ranges,
    }
}

/// The model of an incoming range.
pub open spec fn model_of(binary: Option<Range>) -> Option<RangeModel> {
    match binary {
        Some(b) => Some(b@),
        None => None,
    }
}

/// Moves every range of `more` behind those of `out`.
fn append(out: &mut Vec<Range>, more: Vec<Range>)
    ensures
        range_models(final(out)@) == range_models(old(out)@) + range_models(more@),
{
    let ghost start = range_models(out@);
    let ghost all = range_models(more@);
    let mut more = more;
    let mut rest: Vec<Range> = Vec::new();
    let n: usize = more.len();
    while more.len() > 0
        invariant
            more.len() + rest.len() == n == all.len(),
            forall|j: int| 0 <= j < more@.len() ==> (#[trigger] more@[j])@ == all[j],
            forall|j: int| 0 <= j < rest@.len() ==> (#[trigger] rest@[j])@ == all[n - 1 - j],
        decreases more.len(),
    {
        match more.pop() {
            Some(x) => rest.push(x),
            None => {},
        }
    }
    let mut k: usize = 0;
    assert(range_models(out@) =~= start + all.subrange(0, 0));
    while k < n
        invariant
            k <= n == all.len(),
            rest.len() == n - k,
            forall|j: int| 0 <= j < rest@.len() ==> (#[trigger] rest@[j])@ == all[n - 1 - j],
            range_models(out@) == start + all.subrange(0, k as int),
        decreases n - k,
    {
        let ghost before = range_models(out@);
        match rest.pop() {
            Some(x) => {
                out.push(x);
                assert(range_models(out@) =~= before.push(x@));
                assert(before.push(all[k as int]) =~= start + all.subrange(0, k + 1));
            },
            None => {},
        }
        k += 1;
    }
    assert(all.subrange(0, n as int) =~= all);
}

/// Two ranges in normal form combined under `op`; the result is in normal
/// form.
pub fn merge_binary(op: BinaryOperator, left_binary: Range, right_binary: Range) -> (r: Option<
    Range,
>)
    requires
        well_formed(left_binary@),
        well_formed(right_binary@),
    ensures
        match merge(op, left_binary@, right_binary@) {
            Some(m) => r is Some && r->0@ == m && well_formed(m),
            None => r is None,
        },
{
    proof {
        lemma_merge_well_formed(op, left_binary@, right_binary@);
    }
    match (left_binary, right_binary) {
        (Range::Dummy, binary) => match op {
            BinaryOperator::And => Some(Range::Dummy),
            BinaryOperator::Or => Some(binary),
            _ => None,
        },
        (binary, Range::Dummy) => match op {
            BinaryOperator::And => Some(Range::Dummy),
            BinaryOperator::Or => Some(binary),
            _ => None,
        },
        (Range::SortedRanges(left_ranges), Range::SortedRanges(right_ranges)) => {
            proof {
                lemma_sorted_view(left_ranges);
                lemma_sorted_view(right_ranges);
            }
            let ghost ls = range_models(left_ranges@);
            let ghost rs = range_models(right_ranges@);
            match op {
                BinaryOperator::And => {
                    let mut out: Vec<Range> = Vec::new();
                    let mut k: usize = 0;
                    assert(range_models(out@) =~= intersected_lists(ls, rs, 0));
                    while k < left_ranges.len()
                        invariant
                            k <= left_ranges.len(),
                            ls == range_models(left_ranges@),
                            rs == range_models(right_ranges@),
                            all_pieces(ls),
                            all_pieces(rs),
                            range_models(out@) == intersected_lists(ls, rs, k as nat),
                        decreases left_ranges.len() - k,
                    {
                        assert(ls[k as int] == left_ranges@[k as int]@);
                        assert(is_piece(ls[k as int]));
                        let pieces = intersect(&left_ranges[k], &right_ranges);
                        append(&mut out, pieces);
                        k += 1;
                    }
                    Some(ranges2range(out))
                },
                BinaryOperator::Or => {
                    let ghost want = fold(ls, 0, rs, 0);
                    let mut right_ranges = right_ranges;
                    let mut idx: usize = 0;
                    let mut k: usize = 0;
                    while k < left_ranges.len()
                        invariant
                            k <= left_ranges.len(),
                            ls == range_models(left_ranges@),
                            all_pieces(ls),
                            all_pieces(range_models(right_ranges@)),
                            fold(ls, k as nat, range_models(right_ranges@), idx as nat) == want,
                        decreases left_ranges.len() - k,
                    {
                        assert(ls[k as int] == left_ranges@[k as int]@);
                        assert(is_piece(ls[k as int]));
                        let ghost before = range_models(right_ranges@);
                        let ghost from = idx as nat;
                        let member = left_ranges[k].clone();
                        assert(model_of(Some(member)) == Some(ls[k as int]));
                        right_ranges = extract_merge_ranges(
                            BinaryOperator::Or,
                            Some(member),
                            right_ranges,
                            &mut idx,
                        );
                        assert((range_models(right_ranges@), idx as nat) == extract(
                            BinaryOperator::Or,
                            Some(ls[k as int]),
                            before,
                            from,
                        ));
                        assert(fold(ls, k as nat, before, from) == fold(
                            ls,
                            (k + 1) as nat,
                            range_models(right_ranges@),
                            idx as nat,
                        ));
                        k += 1;
                    }
                    Some(ranges2range(right_ranges))
                },
                _ => None,
            }
        },
        (Range::SortedRanges(ranges), binary) => {
            proof {
                lemma_sorted_view(ranges);
            }
            match op {
                BinaryOperator::And | BinaryOperator::Or => {
                    let mut idx: usize = 0;
                    let merged_ranges = extract_merge_ranges(op, Some(binary), ranges, &mut idx);
                    Some(ranges2range(merged_ranges))
                },
                _ => None,
            }
        },
        (binary, Range::SortedRanges(ranges)) => {
            proof {
                lemma_sorted_view(ranges);
            }
            match op {
                BinaryOperator::And | BinaryOperator::Or => {
                    let mut idx: usize = 0;
                    let merged_ranges = extract_merge_ranges(op, Some(binary), ranges, &mut idx);
                    Some(ranges2range(merged_ranges))
                },
                _ => None,
            }
        },
        (left, right) => merge_simple(op, left, right),
    }
}

} // verus!
