use crate::decimal::ValueOrder;
use crate::expression::BinaryOperator;
use crate::value::{value_eq, value_order, DataValue, Value};
use vstd::prelude::*;

verus! {

/// One end of an interval of values.
#[derive(Debug)]
pub enum Bound {
    Included(DataValue),
    Excluded(DataValue),
    Unbounded,
}

/// What a predicate allows a column to be: an interval, a single value,
/// nothing at all, or several of these side by side in ascending order.
#[derive(Debug)]
pub enum Range {
    Scope { min: Bound, max: Bound },
    Eq(DataValue),
    Dummy,
    SortedRanges(Vec<Range>),
}

/// Model of a [`Bound`].
pub enum BoundModel {
    Included(Value),
    Excluded(Value),
    Unbounded,
}

/// Model of a [`Range`].
pub enum RangeModel {
    Scope { min: BoundModel, max: BoundModel },
    Eq(Value),
    Dummy,
    SortedRanges(Seq<RangeModel>),
}

impl View for Bound {
    type V = BoundModel;

    open spec fn view(&self) -> BoundModel {
        match *self {
            Bound::Included(v) => BoundModel::Included(v@),
            Bound::Excluded(v) => BoundModel::Excluded(v@),
            Bound::Unbounded => BoundModel::Unbounded,
        }
    }
}

/// The model of one range.
pub open spec fn range_model(r: Range) -> RangeModel
    decreases r,
{
    match r {
        Range::Scope { min, max } => RangeModel::Scope { min: min@, max: max@ },
        Range::Eq(v) => RangeModel::Eq(v@),
        Range::Dummy => RangeModel::Dummy,
        Range::SortedRanges(rs) => RangeModel::SortedRanges(
            Seq::new(
                rs@.len(),
                |i: int|
                    if 0 <= i < rs@.len() {
                        range_model(rs@[i])
                    } else {
                        RangeModel::Dummy
                    },
            ),
        ),
    }
}

impl View for Range {
    type V = RangeModel;

    open spec fn view(&self) -> RangeModel {
        range_model(*self)
    }
}

/// The models of a run of ranges, position by position.
pub open spec fn range_models(rs: Seq<Range>) -> Seq<RangeModel> {
    Seq::new(rs.len(), |i: int| rs[i]@)
}

/// A list of ranges is modelled by the models of its members.
pub proof fn lemma_sorted_view(rs: Vec<Range>)
    ensures
        Range::SortedRanges(rs)@ == RangeModel::SortedRanges(range_models(rs@)),
{
    reveal_with_fuel(range_model, 2);
    let t = Range::SortedRanges(rs);
    assert(t@->SortedRanges_0 =~= range_models(rs@));
}

/// Equality of bounds: the same kind of end at equal values.
pub open spec fn bound_eq(a: BoundModel, b: BoundModel) -> bool {
    match (a, b) {
        (BoundModel::Included(x), BoundModel::Included(y)) => value_eq(x, y),
        (BoundModel::Excluded(x), BoundModel::Excluded(y)) => value_eq(x, y),
        (BoundModel::Unbounded, BoundModel::Unbounded) => true,
        _ => false,
    }
}

/// Equality of ranges: the same form with equal ends, values or members.
pub open spec fn range_eq(a: RangeModel, b: RangeModel) -> bool
    decreases a,
{
    match (a, b) {
        (RangeModel::Scope { min: a1, max: a2 }, RangeModel::Scope { min: b1, max: b2 }) => {
            bound_eq(a1, b1) && bound_eq(a2, b2)
        },
        (RangeModel::Eq(x), RangeModel::Eq(y)) => value_eq(x, y),
        (RangeModel::Dummy, RangeModel::Dummy) => true,
        (RangeModel::SortedRanges(xs), RangeModel::SortedRanges(ys)) => {
            &&& xs.len() == ys.len()
            &&& forall|i: int| 0 <= i < xs.len() ==> range_eq(xs[i], #[trigger] ys[i])
        },
        _ => false,
    }
}

/// Whether a range is a single piece: not a list of ranges.
pub open spec fn is_atom(r: RangeModel) -> bool {
    !(r is SortedRanges)
}

/// Whether a range is an interval or a single value.
pub open spec fn is_piece(r: RangeModel) -> bool {
    r is Scope || r is Eq
}

/// Whether all ranges of a list are intervals or single values.
pub open spec fn all_pieces(rs: Seq<RangeModel>) -> bool {
    forall|i: int| 0 <= i < rs.len() ==> is_piece(#[trigger] rs[i])
}

/// The normal form of a range: a list of ranges holds at least two, and
/// each of them is an interval or a single value, not a list and not the
/// empty range.
pub open spec fn well_formed(r: RangeModel) -> bool {
    match r {
        RangeModel::SortedRanges(rs) => rs.len() >= 2 && all_pieces(rs),
        _ => true,
    }
}

/// The value at a bound; null at an open end.
pub open spec fn bound_value(b: BoundModel) -> Value {
    match b {
        BoundModel::Included(x) => x,
        BoundModel::Excluded(x) => x,
        BoundModel::Unbounded => Value::Null,
    }
}

/// The order the other way round.
pub open spec fn reversed(o: ValueOrder) -> ValueOrder {
    match o {
        ValueOrder::Less => ValueOrder::Greater,
        ValueOrder::Equal => ValueOrder::Equal,
        ValueOrder::Greater => ValueOrder::Less,
    }
}

/// An order as it is for lower ends, the other way round for upper ends.
pub open spec fn toward(is_min: bool, o: ValueOrder) -> ValueOrder {
    if is_min {
        o
    } else {
        reversed(o)
    }
}

/// The first order, or the second where the first is a tie.
pub open spec fn then_order(o: ValueOrder, next: ValueOrder) -> ValueOrder {
    if o is Equal {
        next
    } else {
        o
    }
}

/// How two bounds stand to each other as lower ends (`is_min`) or as upper
/// ends. An open end is the least of lower ends and the greatest of upper
/// ends. At equal values an included lower end comes before an excluded
/// one, an included upper end after an excluded one. Bounds whose values
/// have no order have none.
#[verifier::opaque]
pub open spec fn bound_order(left: BoundModel, right: BoundModel, is_min: bool) -> Option<
    ValueOrder,
> {
    match (left, right) {
        (BoundModel::Unbounded, BoundModel::Unbounded) => Some(ValueOrder::Equal),
        (BoundModel::Unbounded, _) => Some(toward(is_min, ValueOrder::Less)),
        (_, BoundModel::Unbounded) => Some(toward(is_min, ValueOrder::Greater)),
        (BoundModel::Included(l), BoundModel::Included(r)) => value_order(l, r),
        (BoundModel::Included(l), BoundModel::Excluded(r)) => match value_order(l, r) {
            Some(o) => Some(then_order(o, toward(is_min, ValueOrder::Less))),
            None => None,
        },
        (BoundModel::Excluded(l), BoundModel::Excluded(r)) => value_order(l, r),
        (BoundModel::Excluded(l), BoundModel::Included(r)) => match value_order(l, r) {
            Some(o) => Some(then_order(o, toward(is_min, ValueOrder::Greater))),
            None => None,
        },
    }
}

/// Whether an interval with the upper end `max` lies wholly before one with
/// the lower end `min`, so that no value lies in both. Nothing lies beyond
/// an open end. At equal values the two are apart unless both ends are
/// included.
pub open spec fn ends_before(max: BoundModel, min: BoundModel) -> bool {
    !(max is Unbounded) && !(min is Unbounded) && match value_order(
        bound_value(max),
        bound_value(min),
    ) {
        Some(ValueOrder::Less) => true,
        Some(ValueOrder::Equal) => !(max is Included && min is Included),
        _ => false,
    }
}

/// The range from the lower end `min` to the upper end `max`: the empty
/// range where no value lies between the two, the single value where both
/// are included at one value, the interval otherwise.
pub open spec fn collapse(min: BoundModel, max: BoundModel) -> RangeModel {
    if min is Unbounded || max is Unbounded {
        RangeModel::Scope { min, max }
    } else {
        match value_order(bound_value(min), bound_value(max)) {
            Some(ValueOrder::Greater) => RangeModel::Dummy,
            Some(ValueOrder::Equal) => if min is Included && max is Included {
                RangeModel::Eq(bound_value(min))
            } else {
                RangeModel::Dummy
            },
            _ => RangeModel::Scope { min, max },
        }
    }
}

/// The interval from `min` to `max` as it comes out of a union: the single
/// value where both ends are included at one value.
pub open spec fn hull(min: BoundModel, max: BoundModel) -> RangeModel {
    if min is Included && max is Included && value_order(bound_value(min), bound_value(max))
        == Some(ValueOrder::Equal) {
        RangeModel::Eq(bound_value(min))
    } else {
        RangeModel::Scope { min, max }
    }
}

/// The intersection of two intervals: from the greater of the lower ends to
/// the lesser of the upper ends.
pub open spec fn and_scope(
    left_min: BoundModel,
    left_max: BoundModel,
    right_min: BoundModel,
    right_max: BoundModel,
) -> RangeModel {
    let min = if bound_order(left_min, right_min, true) == Some(ValueOrder::Greater) {
        left_min
    } else {
        right_min
    };
    let max = if bound_order(left_max, right_max, false) == Some(ValueOrder::Less) {
        left_max
    } else {
        right_max
    };
    collapse(min, max)
}

/// The union of two intervals: the two side by side, lower one first, where
/// they hold no value in common; otherwise from the lesser of the lower
/// ends to the greater of the upper ends.
pub open spec fn or_scope(
    left_min: BoundModel,
    left_max: BoundModel,
    right_min: BoundModel,
    right_max: BoundModel,
) -> RangeModel {
    let left_first = bound_order(left_min, right_min, true) == Some(ValueOrder::Less);
    if ends_before(left_max, right_min) || ends_before(right_max, left_min) {
        if left_first {
            RangeModel::SortedRanges(
                seq![
                    RangeModel::Scope { min: left_min, max: left_max },
                    RangeModel::Scope { min: right_min, max: right_max },
                ],
            )
        } else {
            RangeModel::SortedRanges(
                seq![
                    RangeModel::Scope { min: right_min, max: right_max },
                    RangeModel::Scope { min: left_min, max: left_max },
                ],
            )
        }
    } else {
        let min = if left_first {
            left_min
        } else {
            right_min
        };
        let max = if bound_order(left_max, right_max, false) == Some(ValueOrder::Greater) {
            left_max
        } else {
            right_max
        };
        hull(min, max)
    }
}

/// An excluded end at `eq` becomes an included one under a union.
pub open spec fn widen(bound: BoundModel, eq: Value, op: BinaryOperator) -> BoundModel {
    match bound {
        BoundModel::Excluded(v) => if value_eq(v, eq) && op is Or {
            BoundModel::Included(v)
        } else {
            BoundModel::Excluded(v)
        },
        b => b,
    }
}

/// An interval combined with a single value. Under `And`: the value where
/// the interval holds it, else nothing. Under `Or`: the interval, widened
/// by the value where the value is one of its excluded ends, or the two
/// side by side where the value lies outside; null lies before every
/// interval and is part of each whose lower end is open.
pub open spec fn scope_eq(op: BinaryOperator, min: BoundModel, max: BoundModel, eq: Value) -> Option<
    RangeModel,
> {
    let scope = RangeModel::Scope { min, max };
    match op {
        BinaryOperator::And => {
            let point = BoundModel::Included(eq);
            let below = match bound_order(point, min, true) {
                Some(o) => o is Less,
                None => !(min is Unbounded),
            };
            if below || bound_order(point, max, false) == Some(ValueOrder::Greater) {
                Some(RangeModel::Dummy)
            } else {
                Some(RangeModel::Eq(eq))
            }
        },
        BinaryOperator::Or => {
            let point = BoundModel::Excluded(eq);
            if eq is Null {
                if min is Unbounded {
                    Some(scope)
                } else {
                    Some(RangeModel::SortedRanges(seq![RangeModel::Eq(eq), scope]))
                }
            } else {
                match bound_order(point, min, true) {
                    Some(ValueOrder::Less) => Some(
                        RangeModel::SortedRanges(seq![RangeModel::Eq(eq), scope]),
                    ),
                    Some(ValueOrder::Equal) => Some(
                        RangeModel::Scope { min: widen(min, eq, op), max },
                    ),
                    _ => match bound_order(point, max, false) {
                        Some(ValueOrder::Greater) => Some(
                            RangeModel::SortedRanges(seq![scope, RangeModel::Eq(eq)]),
                        ),
                        Some(ValueOrder::Equal) => Some(
                            RangeModel::Scope { min, max: widen(max, eq, op) },
                        ),
                        _ => Some(scope),
                    },
                }
            }
        },
        _ => None,
    }
}

/// Two single values combined: equal ones are one; different ones are
/// nothing under `And`, and stand side by side, lesser first, under `Or`,
/// where null is less than every other value.
pub open spec fn eq_eq(op: BinaryOperator, left: Value, right: Value) -> Option<RangeModel> {
    if value_eq(left, right) && (op is And || op is Or) {
        Some(RangeModel::Eq(left))
    } else {
        match op {
            BinaryOperator::And => Some(RangeModel::Dummy),
            BinaryOperator::Or => if value_order(left, right) == Some(ValueOrder::Greater)
                || right is Null {
                Some(RangeModel::SortedRanges(seq![RangeModel::Eq(right), RangeModel::Eq(left)]))
            } else {
                Some(RangeModel::SortedRanges(seq![RangeModel::Eq(left), RangeModel::Eq(right)]))
            },
            _ => None,
        }
    }
}

/// Two single pieces combined under `And` or `Or`; nothing for any other
/// operator. The empty range is absorbing under `And` and neutral under
/// `Or`.
pub open spec fn merge_atoms(op: BinaryOperator, left: RangeModel, right: RangeModel) -> Option<
    RangeModel,
> {
    match (left, right) {
        (RangeModel::Dummy, x) => match op {
            BinaryOperator::And => Some(RangeModel::Dummy),
            BinaryOperator::Or => Some(x),
            _ => None,
        },
        (x, RangeModel::Dummy) => match op {
            BinaryOperator::And => Some(RangeModel::Dummy),
            BinaryOperator::Or => Some(x),
            _ => None,
        },
        (
            RangeModel::Scope { min: left_min, max: left_max },
            RangeModel::Scope { min: right_min, max: right_max },
        ) => match op {
            BinaryOperator::And => Some(and_scope(left_min, left_max, right_min, right_max)),
            BinaryOperator::Or => Some(or_scope(left_min, left_max, right_min, right_max)),
            _ => None,
        },
        (RangeModel::Scope { min, max }, RangeModel::Eq(eq)) => scope_eq(op, min, max, eq),
        (RangeModel::Eq(eq), RangeModel::Scope { min, max }) => scope_eq(op, min, max, eq),
        (RangeModel::Eq(l), RangeModel::Eq(r)) => eq_eq(op, l, r),
        _ => None,
    }
}

/// A list of ranges as one range: nothing for none, the range itself for
/// one, the list for more.
pub open spec fn collapse_list(rs: Seq<RangeModel>) -> RangeModel {
    if rs.len() == 0 {
        RangeModel::Dummy
    } else if rs.len() == 1 {
        rs[0]
    } else {
        RangeModel::SortedRanges(rs)
    }
}

/// Two single pieces combine into a single piece or into two intervals or
/// single values; the union of two intervals or single values is never
/// empty.
pub proof fn lemma_merge_atoms_shape(op: BinaryOperator, left: RangeModel, right: RangeModel)
    requires
        is_atom(left),
        is_atom(right),
    ensures
        match merge_atoms(op, left, right) {
            Some(RangeModel::SortedRanges(rs)) => rs.len() == 2 && is_piece(rs[0]) && is_piece(
                rs[1],
            ),
            Some(m) => op is Or && is_piece(left) && is_piece(right) ==> is_piece(m),
            None => true,
        },
{
}

impl Clone for Bound {
    fn clone(&self) -> (r: Self)
        ensures
            r@ == self@,
    {
        match self {
            Bound::Included(v) => Bound::Included(v.clone()),
            Bound::Excluded(v) => Bound::Excluded(v.clone()),
            Bound::Unbounded => Bound::Unbounded,
        }
    }
}

impl PartialEq for Bound {
    fn eq(&self, other: &Self) -> (r: bool) {
        match (self, other) {
            (Bound::Included(x), Bound::Included(y)) => x.eq(y),
            (Bound::Excluded(x), Bound::Excluded(y)) => x.eq(y),
            (Bound::Unbounded, Bound::Unbounded) => true,
            _ => false,
        }
    }
}

impl vstd::std_specs::cmp::PartialEqSpecImpl for Bound {
    open spec fn obeys_eq_spec() -> bool {
        true
    }

    open spec fn eq_spec(&self, other: &Self) -> bool {
        bound_eq(self@, other@)
    }
}

impl Clone for Range {
    fn clone(&self) -> (r: Self)
        ensures
            r@ == self@,
        decreases self,
    {
        match self {
            Range::Scope { min, max } => Range::Scope { min: min.clone(), max: max.clone() },
            Range::Eq(v) => Range::Eq(v.clone()),
            Range::Dummy => Range::Dummy,
            Range::SortedRanges(rs) => {
                let mut out: Vec<Range> = Vec::new();
                let mut i: usize = 0;
                while i < rs.len()
                    invariant
                        i <= rs.len(),
                        out.len() == i,
                        *self == Range::SortedRanges(*rs),
                        forall|k: int| 0 <= k < i ==> out@[k]@ == rs@[k]@,
                    decreases rs.len() - i,
                {
                    assert(decreases_to!(self => self->SortedRanges_0));
                    assert(decreases_to!(*rs => rs@));
                    assert(decreases_to!(rs@ => rs@[i as int]));
                    out.push(rs[i].clone());
                    i += 1;
                }
                proof {
                    lemma_sorted_view(out);
                    lemma_sorted_view(*rs);
                    assert(range_models(out@) =~= range_models(rs@));
                }
                Range::SortedRanges(out)
            },
        }
    }
}

impl PartialEq for Range {
    fn eq(&self, other: &Self) -> (r: bool)
        decreases self,
    {
        match (self, other) {
            (Range::Scope { min: a1, max: a2 }, Range::Scope { min: b1, max: b2 }) => a1.eq(b1)
                && a2.eq(b2),
            (Range::Eq(x), Range::Eq(y)) => x.eq(y),
            (Range::Dummy, Range::Dummy) => true,
            (Range::SortedRanges(a), Range::SortedRanges(b)) => {
                proof {
                    lemma_sorted_view(*a);
                    lemma_sorted_view(*b);
                }
                if a.len() != b.len() {
                    return false;
                }
                let mut i: usize = 0;
                while i < a.len()
                    invariant
                        i <= a.len(),
                        a.len() == b.len(),
                        *self == Range::SortedRanges(*a),
                        *other == Range::SortedRanges(*b),
                        self@ == RangeModel::SortedRanges(range_models(a@)),
                        other@ == RangeModel::SortedRanges(range_models(b@)),
                        forall|k: int| 0 <= k < i ==> range_eq(a@[k]@, b@[k]@),
                    decreases a.len() - i,
                {
                    assert(decreases_to!(self => self->SortedRanges_0));
                    assert(decreases_to!(*a => a@));
                    assert(decreases_to!(a@ => a@[i as int]));
                    if !a[i].eq(&b[i]) {
                        assert(range_models(a@)[i as int] == a@[i as int]@);
                        assert(range_models(b@)[i as int] == b@[i as int]@);
                        return false;
                    }
                    i += 1;
                }
                assert forall|k: int| 0 <= k < a@.len() implies range_eq(
                    range_models(a@)[k],
                    #[trigger] range_models(b@)[k],
                ) by {
                    assert(range_models(a@)[k] == a@[k]@);
                    assert(range_models(b@)[k] == b@[k]@);
                }
                true
            },
            _ => false,
        }
    }
}

impl vstd::std_specs::cmp::PartialEqSpecImpl for Range {
    open spec fn obeys_eq_spec() -> bool {
        true
    }

    open spec fn eq_spec(&self, other: &Self) -> bool {
        range_eq(self@, other@)
    }
}

/// The order the other way round where `is_min` is not set.
fn is_min_then_reverse(is_min: bool, order: ValueOrder) -> (r: ValueOrder)
    ensures
        r == toward(is_min, order),
{
    if is_min {
        order
    } else {
        match order {
            ValueOrder::Less => ValueOrder::Greater,
            ValueOrder::Equal => ValueOrder::Equal,
            ValueOrder::Greater => ValueOrder::Less,
        }
    }
}

/// How two bounds stand to each other as lower ends (`is_min`) or as upper
/// ends.
pub fn bound_compared(left_bound: &Bound, right_bound: &Bound, is_min: bool) -> (r: Option<
    ValueOrder,
>)
    ensures
        r == bound_order(left_bound@, right_bound@, is_min),
{
    reveal(bound_order);
    match (left_bound, right_bound) {
        (Bound::Unbounded, Bound::Unbounded) => Some(ValueOrder::Equal),
        (Bound::Unbounded, _) => Some(is_min_then_reverse(is_min, ValueOrder::Less)),
        (_, Bound::Unbounded) => Some(is_min_then_reverse(is_min, ValueOrder::Greater)),
        (Bound::Included(left), Bound::Included(right)) => left.compare(right),
        (Bound::Included(left), Bound::Excluded(right)) => match left.compare(right) {
            Some(ValueOrder::Equal) => Some(is_min_then_reverse(is_min, ValueOrder::Less)),
            o => o,
        },
        (Bound::Excluded(left), Bound::Excluded(right)) => left.compare(right),
        (Bound::Excluded(left), Bound::Included(right)) => match left.compare(right) {
            Some(ValueOrder::Equal) => Some(is_min_then_reverse(is_min, ValueOrder::Greater)),
            o => o,
        },
    }
}

/// Whether an order is there and is `want`.
fn is_order(o: Option<ValueOrder>, want: ValueOrder) -> (r: bool)
    ensures
        r == (o == Some(want)),
{
    match o {
        Some(x) => x == want,
        None => false,
    }
}

fn value_of<'a>(bound: &'a Bound) -> (r: Option<&'a DataValue>)
    ensures
        r is None <==> bound@ is Unbounded,
        r matches Some(v) ==> v@ == bound_value(bound@),
{
    match bound {
        Bound::Included(v) => Some(v),
        Bound::Excluded(v) => Some(v),
        Bound::Unbounded => None,
    }
}

fn is_included(bound: &Bound) -> (r: bool)
    ensures
        r == (bound@ is Included),
{
    match bound {
        Bound::Included(_) => true,
        _ => false,
    }
}

fn collapse_scope(min: Bound, max: Bound) -> (r: Range)
    ensures
        r@ == collapse(min@, max@),
{
    let order = match (value_of(&min), value_of(&max)) {
        (Some(a), Some(b)) => a.compare(b),
        _ => None,
    };
    let both: bool = is_included(&min) && is_included(&max);
    match order {
        Some(ValueOrder::Greater) => Range::Dummy,
        Some(ValueOrder::Equal) => match min {
            Bound::Included(val) => if both {
                Range::Eq(val)
            } else {
                Range::Dummy
            },
            _ => Range::Dummy,
        },
        _ => Range::Scope { min, max },
    }
}

fn hull_scope(min: Bound, max: Bound) -> (r: Range)
    ensures
        r@ == hull(min@, max@),
{
    let order = match (value_of(&min), value_of(&max)) {
        (Some(a), Some(b)) => a.compare(b),
        _ => None,
    };
    let both: bool = is_included(&min) && is_included(&max);
    match order {
        Some(ValueOrder::Equal) => match min {
            Bound::Included(val) => if both {
                Range::Eq(val)
            } else {
                Range::Scope { min: Bound::Included(val), max }
            },
            other => Range::Scope { min: other, max },
        },
        _ => Range::Scope { min, max },
    }
}

/// The intersection of two intervals.
pub fn and_scope_merge(left_min: Bound, left_max: Bound, right_min: Bound, right_max: Bound) -> (r:
    Range)
    ensures
        r@ == and_scope(left_min@, left_max@, right_min@, right_max@),
{
    let min = if is_order(bound_compared(&left_min, &right_min, true), ValueOrder::Greater) {
        left_min
    } else {
        right_min
    };
    let max = if is_order(bound_compared(&left_max, &right_max, false), ValueOrder::Less) {
        left_max
    } else {
        right_max
    };
    collapse_scope(min, max)
}

/// Whether an interval with the upper end `max` lies wholly before one with
/// the lower end `min`.
pub fn is_before(max: &Bound, min: &Bound) -> (r: bool)
    ensures
        r == ends_before(max@, min@),
{
    match (value_of(max), value_of(min)) {
        (Some(a), Some(b)) => match a.compare(b) {
            Some(ValueOrder::Less) => true,
            Some(ValueOrder::Equal) => !(is_included(max) && is_included(min)),
            _ => false,
        },
        _ => false,
    }
}

/// The union of two intervals.
pub fn or_scope_merge(left_min: Bound, left_max: Bound, right_min: Bound, right_max: Bound) -> (r:
    Range)
    ensures
        r@ == or_scope(left_min@, left_max@, right_min@, right_max@),
{
    let left_first: bool = is_order(bound_compared(&left_min, &right_min, true), ValueOrder::Less);
    if is_before(&left_max, &right_min) || is_before(&right_max, &left_min) {
        let mut ranges: Vec<Range> = Vec::new();
        let left = Range::Scope { min: left_min, max: left_max };
        let right = Range::Scope { min: right_min, max: right_max };
        if left_first {
            ranges.push(left);
            ranges.push(right);
        } else {
            ranges.push(right);
            ranges.push(left);
        }
        proof {
            lemma_sorted_view(ranges);
            assert(range_models(ranges@) =~= seq![ranges@[0]@, ranges@[1]@]);
        }
        return Range::SortedRanges(ranges);
    }
    let max_left: bool = is_order(bound_compared(&left_max, &right_max, false), ValueOrder::Greater);
    let min = if left_first {
        left_min
    } else {
        right_min
    };
    let max = if max_left {
        left_max
    } else {
        right_max
    };
    hull_scope(min, max)
}

fn pair(first: Range, second: Range) -> (r: Range)
    ensures
        r@ == RangeModel::SortedRanges(seq![first@, second@]),
{
    let mut ranges: Vec<Range> = Vec::new();
    ranges.push(first);
    ranges.push(second);
    proof {
        lemma_sorted_view(ranges);
        assert(range_models(ranges@) =~= seq![first@, second@]);
    }
    Range::SortedRanges(ranges)
}

fn process_exclude_bound_with_eq(bound: Bound, eq: &DataValue, op: BinaryOperator) -> (r: Bound)
    ensures
        r@ == widen(bound@, eq@, op),
{
    match bound {
        Bound::Excluded(bound_val) => {
            let is_or: bool = match op {
                BinaryOperator::Or => true,
                _ => false,
            };
            if bound_val.eq(eq) && is_or {
                Bound::Included(bound_val)
            } else {
                Bound::Excluded(bound_val)
            }
        },
        bound => bound,
    }
}

fn scope_eq_merge(op: BinaryOperator, min: Bound, max: Bound, eq: DataValue) -> (r: Option<Range>)
    ensures
        match scope_eq(op, min@, max@, eq@) {
            Some(m) => r is Some && r->0@ == m,
            None => r is None,
        },
{
    match op {
        BinaryOperator::And => {
            let bound_eq = Bound::Included(eq);
            let is_less: bool = match bound_compared(&bound_eq, &min, true) {
                Some(ValueOrder::Less) => true,
                Some(_) => false,
                None => match &min {
                    Bound::Unbounded => false,
                    _ => true,
                },
            };
            if is_less || is_order(bound_compared(&bound_eq, &max, false), ValueOrder::Greater) {
                return Some(Range::Dummy);
            }
            match bound_eq {
                Bound::Included(val) => Some(Range::Eq(val)),
                _ => Some(Range::Dummy),
            }
        },
        BinaryOperator::Or => {
            if eq.is_null() {
                let open_below: bool = match &min {
                    Bound::Unbounded => true,
                    _ => false,
                };
                return Some(
                    if open_below {
                        Range::Scope { min, max }
                    } else {
                        pair(Range::Eq(eq), Range::Scope { min, max })
                    },
                );
            }
            let bound_eq = Bound::Excluded(eq);
            let low = bound_compared(&bound_eq, &min, true);
            let high = bound_compared(&bound_eq, &max, false);
            let eq = match bound_eq {
                Bound::Excluded(val) => val,
                _ => DataValue::Null,
            };
            let range = match low {
                Some(ValueOrder::Less) => pair(Range::Eq(eq), Range::Scope { min, max }),
                Some(ValueOrder::Equal) => Range::Scope {
                    min: process_exclude_bound_with_eq(min, &eq, op),
                    max,
                },
                _ => match high {
                    Some(ValueOrder::Greater) => pair(Range::Scope { min, max }, Range::Eq(eq)),
                    Some(ValueOrder::Equal) => Range::Scope {
                        min,
                        max: process_exclude_bound_with_eq(max, &eq, op),
                    },
                    _ => Range::Scope { min, max },
                },
            };
            Some(range)
        },
        _ => None,
    }
}

fn eq_eq_merge(op: BinaryOperator, left_val: DataValue, right_val: DataValue) -> (r: Option<Range>)
    ensures
        match eq_eq(op, left_val@, right_val@) {
            Some(m) => r is Some && r->0@ == m,
            None => r is None,
        },
{
    let and_or: bool = match op {
        BinaryOperator::And | BinaryOperator::Or => true,
        _ => false,
    };
    if left_val.eq(&right_val) && and_or {
        return Some(Range::Eq(left_val));
    }
    match op {
        BinaryOperator::And => Some(Range::Dummy),
        BinaryOperator::Or => {
            if is_order(left_val.compare(&right_val), ValueOrder::Greater) || right_val.is_null() {
                Some(pair(Range::Eq(right_val), Range::Eq(left_val)))
            } else {
                Some(pair(Range::Eq(left_val), Range::Eq(right_val)))
            }
        },
        _ => None,
    }
}

/// Two single pieces combined under `op`.
pub fn merge_simple(op: BinaryOperator, left: Range, right: Range) -> (r: Option<Range>)
    requires
        is_atom(left@),
        is_atom(right@),
    ensures
        match merge_atoms(op, left@, right@) {
            Some(m) => r is Some && r->0@ == m,
            None => r is None,
        },
{
    match (left, right) {
        (Range::Dummy, binary) => match op {
            BinaryOperator::And => Some(Range::Dummy),
            BinaryOperator::Or => Some(binary),
            _ => None,
        },
        (binary, Range::Dummy) => match op {
            BinaryOperator::And => Some(Range::Dummy),
            BinaryOperator::Or => Some(binary),
            _ => None,
        },
        (
            Range::Scope { min: left_min, max: left_max },
            Range::Scope { min: right_min, max: right_max },
        ) => match op {
            BinaryOperator::And => Some(and_scope_merge(left_min, left_max, right_min, right_max)),
            BinaryOperator::Or => Some(or_scope_merge(left_min, left_max, right_min, right_max)),
            _ => None,
        },
        (Range::Scope { min, max }, Range::Eq(eq)) => scope_eq_merge(op, min, max, eq),
        (Range::Eq(eq), Range::Scope { min, max }) => scope_eq_merge(op, min, max, eq),
        (Range::Eq(left_val), Range::Eq(right_val)) => eq_eq_merge(op, left_val, right_val),
        (Range::SortedRanges(rs), _) => {
            proof {
                lemma_sorted_view(rs);
            }
            None
        },
        (_, Range::SortedRanges(rs)) => {
            proof {
                lemma_sorted_view(rs);
            }
            None
        },
    }
}

/// A list of ranges as one range.
pub fn ranges2range(merged_ranges: Vec<Range>) -> (r: Range)
    ensures
        r@ == collapse_list(range_models(merged_ranges@)),
{
    let mut merged_ranges = merged_ranges;
    if merged_ranges.len() == 0 {
        Range::Dummy
    } else if merged_ranges.len() == 1 {
        let ghost before = merged_ranges@;
        match merged_ranges.pop() {
            Some(r) => {
                assert(range_models(before)[0] == before[0]@);
                r
            },
            None => Range::Dummy,
        }
    } else {
        proof {
            lemma_sorted_view(merged_ranges);
        }
        Range::SortedRanges(merged_ranges)
    }
}

impl Range {
    /// Whether the range is a single value or a list of single values.
    pub fn only_eq(&self) -> (r: bool)
        ensures
            r == only_points(self@),
        decreases self,
    {
        match self {
            Range::Eq(_) => true,
            Range::SortedRanges(ranges) => {
                proof {
                    lemma_sorted_view(*ranges);
                }
                let mut i: usize = 0;
                while i < ranges.len()
                    invariant
                        i <= ranges.len(),
                        *self == Range::SortedRanges(*ranges),
                        self@ == RangeModel::SortedRanges(range_models(ranges@)),
                        forall|k: int| 0 <= k < i ==> only_points(range_models(ranges@)[k]),
                    decreases ranges.len() - i,
                {
                    assert(decreases_to!(self => self->SortedRanges_0));
                    assert(decreases_to!(*ranges => ranges@));
                    assert(decreases_to!(ranges@ => ranges@[i as int]));
                    assert(range_models(ranges@)[i as int] == ranges@[i as int]@);
                    if !ranges[i].only_eq() {
                        proof {
                            let rs = range_models(ranges@);
                            assert(!only_points(rs[i as int]));
                            if only_points(self@) {
                                lemma_only_points_at(rs, i as int);
                            }
                        }
                        return false;
                    }
                    i += 1;
                }
                proof {
                    lemma_only_points_all(range_models(ranges@));
                }
                true
            },
            _ => false,
        }
    }
}

/// Whether a range is a single value, or a list of such ranges.
pub open spec fn only_points(r: RangeModel) -> bool
    decreases r,
{
    match r {
        RangeModel::Eq(_) => true,
        RangeModel::SortedRanges(rs) => forall|i: int|
            0 <= i < rs.len() ==> only_points(#[trigger] rs[i]),
        _ => false,
    }
}

/// Each member of a list of single values is a single value.
pub proof fn lemma_only_points_at(rs: Seq<RangeModel>, i: int)
    requires
        0 <= i < rs.len(),
        only_points(RangeModel::SortedRanges(rs)),
    ensures
        only_points(rs[i]),
{
    let r = RangeModel::SortedRanges(rs);
    assert(decreases_to!(r => r->SortedRanges_0));
    assert(decreases_to!(rs => rs[i]));
}

/// A list whose members are single values is a list of single values.
pub proof fn lemma_only_points_all(rs: Seq<RangeModel>)
    requires
        forall|k: int| 0 <= k < rs.len() ==> only_points(#[trigger] rs[k]),
    ensures
        only_points(RangeModel::SortedRanges(rs)),
{
    let r = RangeModel::SortedRanges(rs);
    assert(decreases_to!(r => r->SortedRanges_0));
    assert forall|k: int| 0 <= k < rs.len() implies decreases_to!(rs => rs[k]) by {}
}

} // verus!
