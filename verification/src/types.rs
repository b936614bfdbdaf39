use vstd::prelude::*;

verus! {

/// Identifier of a column inside the catalog.
pub type ColumnId = u128;

/// Identifier of an index inside its table.
pub type IndexId = u32;

/// Whether a declared text length counts characters or bytes.
#[derive(Debug, Clone, Copy, PartialEq, Eq, Hash, Structural)]
pub enum CharLengthUnits {
    Characters,
    Octets,
}

/// The closed set of SQL types.
#[derive(Debug)]
pub enum LogicalType {
    SqlNull,
    Boolean,
    Tinyint,
    UTinyint,
    Smallint,
    USmallint,
    Integer,
    UInteger,
    Bigint,
    UBigint,
    Float,
    Double,
    Char(u32, CharLengthUnits),
    Varchar(Option<u32>, CharLengthUnits),
    Date,
    DateTime,
    Time(Option<u64>),
    TimeStamp(Option<u64>, bool),
    Decimal(Option<u8>, Option<u8>),
    Tuple(Vec<LogicalType>),
}

/// Mathematical model of a [`LogicalType`].
pub enum TypeModel {
    SqlNull,
    Boolean,
    Tinyint,
    UTinyint,
    Smallint,
    USmallint,
    Integer,
    UInteger,
    Bigint,
    UBigint,
    Float,
    Double,
    Char(u32, CharLengthUnits),
    Varchar(Option<u32>, CharLengthUnits),
    Date,
    DateTime,
    Time(Option<u64>),
    TimeStamp(Option<u64>, bool),
    Decimal(Option<u8>, Option<u8>),
    Tuple(Seq<TypeModel>),
}

/// The model of one type.
pub open spec fn type_model(ty: LogicalType) -> TypeModel
    decreases ty,
{
    match ty {
        LogicalType::SqlNull => TypeModel::SqlNull,
        LogicalType::Boolean => TypeModel::Boolean,
        LogicalType::Tinyint => TypeModel::Tinyint,
        LogicalType::UTinyint => TypeModel::UTinyint,
        LogicalType::Smallint => TypeModel::Smallint,
        LogicalType::USmallint => TypeModel::USmallint,
        LogicalType::Integer => TypeModel::Integer,
        LogicalType::UInteger => TypeModel::UInteger,
        LogicalType::Bigint => TypeModel::Bigint,
        LogicalType::UBigint => TypeModel::UBigint,
        LogicalType::Float => TypeModel::Float,
        LogicalType::Double => TypeModel::Double,
        LogicalType::Char(len, unit) => TypeModel::Char(len, unit),
        LogicalType::Varchar(len, unit) => TypeModel::Varchar(len, unit),
        LogicalType::Date => TypeModel::Date,
        LogicalType::DateTime => TypeModel::DateTime,
        LogicalType::Time(p) => TypeModel::Time(p),
        LogicalType::TimeStamp(p, z) => TypeModel::TimeStamp(p, z),
        LogicalType::Decimal(p, s) => TypeModel::Decimal(p, s),
        LogicalType::Tuple(tys) => TypeModel::Tuple(
            Seq::new(
                tys@.len(),
                |i: int|
                    if 0 <= i < tys@.len() {
                        type_model(tys@[i])
                    } else {
                        TypeModel::SqlNull
                    },
            ),
        ),
    }
}

/// The models of a run of types, position by position.
pub open spec fn type_models(tys: Seq<LogicalType>) -> Seq<TypeModel> {
    Seq::new(tys.len(), |i: int| tys[i]@)
}

impl View for LogicalType {
    type V = TypeModel;

    open spec fn view(&self) -> TypeModel {
        type_model(*self)
    }
}

/// A tuple type is modelled by the models of its components.
pub proof fn lemma_tuple_type_view(tys: Vec<LogicalType>)
    ensures
        LogicalType::Tuple(tys)@ == TypeModel::Tuple(type_models(tys@)),
{
    reveal_with_fuel(type_model, 2);
    let t = LogicalType::Tuple(tys);
    assert(t@->Tuple_0 =~= type_models(tys@));
}

impl Clone for LogicalType {
    fn clone(&self) -> (r: Self)
        ensures
            r@ == self@,
        decreases self,
    {
        match self {
            LogicalType::SqlNull => LogicalType::SqlNull,
            LogicalType::Boolean => LogicalType::Boolean,
            LogicalType::Tinyint => LogicalType::Tinyint,
            LogicalType::UTinyint => LogicalType::UTinyint,
            LogicalType::Smallint => LogicalType::Smallint,
            LogicalType::USmallint => LogicalType::USmallint,
            LogicalType::Integer => LogicalType::Integer,
            LogicalType::UInteger => LogicalType::UInteger,
            LogicalType::Bigint => LogicalType::Bigint,
            LogicalType::UBigint => LogicalType::UBigint,
            LogicalType::Float => LogicalType::Float,
            LogicalType::Double => LogicalType::Double,
            LogicalType::Char(len, unit) => LogicalType::Char(*len, *unit),
            LogicalType::Varchar(len, unit) => LogicalType::Varchar(*len, *unit),
            LogicalType::Date => LogicalType::Date,
            LogicalType::DateTime => LogicalType::DateTime,
            LogicalType::Time(p) => LogicalType::Time(*p),
            LogicalType::TimeStamp(p, z) => LogicalType::TimeStamp(*p, *z),
            LogicalType::Decimal(p, s) => LogicalType::Decimal(*p, *s),
            LogicalType::Tuple(tys) => {
                let mut out: Vec<LogicalType> = Vec::new();
                let mut i: usize = 0;
                while i < tys.len()
                    invariant
                        i <= tys.len(),
                        out.len() == i,
                        *self == LogicalType::Tuple(*tys),
                        forall|k: int| 0 <= k < i ==> out@[k]@ == tys@[k]@,
                    decreases tys.len() - i,
                {
                    assert(decreases_to!(self => self->Tuple_0));
                    assert(decreases_to!(*tys => tys@));
                    assert(decreases_to!(tys@ => tys@[i as int]));
                    out.push(tys[i].clone());
                    i += 1;
                }
                proof {
                    lemma_tuple_type_view(out);
                    lemma_tuple_type_view(*tys);
                    assert(type_models(out@) =~= type_models(tys@));
                }
                LogicalType::Tuple(out)
            },
        }
    }
}

impl PartialEq for LogicalType {
    fn eq(&self, other: &Self) -> (r: bool)
        decreases self,
    {
        match (self, other) {
            (LogicalType::SqlNull, LogicalType::SqlNull) => true,
            (LogicalType::Boolean, LogicalType::Boolean) => true,
            (LogicalType::Tinyint, LogicalType::Tinyint) => true,
            (LogicalType::UTinyint, LogicalType::UTinyint) => true,
            (LogicalType::Smallint, LogicalType::Smallint) => true,
            (LogicalType::USmallint, LogicalType::USmallint) => true,
            (LogicalType::Integer, LogicalType::Integer) => true,
            (LogicalType::UInteger, LogicalType::UInteger) => true,
            (LogicalType::Bigint, LogicalType::Bigint) => true,
            (LogicalType::UBigint, LogicalType::UBigint) => true,
            (LogicalType::Float, LogicalType::Float) => true,
            (LogicalType::Double, LogicalType::Double) => true,
            (LogicalType::Char(l1, u1), LogicalType::Char(l2, u2)) => *l1 == *l2 && *u1 == *u2,
            (LogicalType::Varchar(l1, u1), LogicalType::Varchar(l2, u2)) => {
                let same_len = match (l1, l2) {
                    (Some(a), Some(b)) => *a == *b,
                    (None, None) => true,
                    _ => false,
                };
                same_len && *u1 == *u2
            },
            (LogicalType::Date, LogicalType::Date) => true,
            (LogicalType::DateTime, LogicalType::DateTime) => true,
            (LogicalType::Time(p1), LogicalType::Time(p2)) => match (p1, p2) {
                (Some(a), Some(b)) => *a == *b,
                (None, None) => true,
                _ => false,
            },
            (LogicalType::TimeStamp(p1, z1), LogicalType::TimeStamp(p2, z2)) => {
                let same_p = match (p1, p2) {
                    (Some(a), Some(b)) => *a == *b,
                    (None, None) => true,
                    _ => false,
                };
                same_p && *z1 == *z2
            },
            (LogicalType::Decimal(p1, s1), LogicalType::Decimal(p2, s2)) => {
                let same_p = match (p1, p2) {
                    (Some(a), Some(b)) => *a == *b,
                    (None, None) => true,
                    _ => false,
                };
                let same_s = match (s1, s2) {
                    (Some(a), Some(b)) => *a == *b,
                    (None, None) => true,
                    _ => false,
                };
                same_p && same_s
            },
            (LogicalType::Tuple(a), LogicalType::Tuple(b)) => {
                proof {
                    lemma_tuple_type_view(*a);
                    lemma_tuple_type_view(*b);
                }
                if a.len() != b.len() {
                    assert(type_models(a@).len() != type_models(b@).len());
                    return false;
                }
                let mut i: usize = 0;
                while i < a.len()
                    invariant
                        i <= a.len(),
                        a.len() == b.len(),
                        *self == LogicalType::Tuple(*a),
                        *other == LogicalType::Tuple(*b),
                        self@ == TypeModel::Tuple(type_models(a@)),
                        other@ == TypeModel::Tuple(type_models(b@)),
                        forall|k: int| 0 <= k < i ==> a@[k]@ == b@[k]@,
                    decreases a.len() - i,
                {
                    assert(decreases_to!(self => self->Tuple_0));
                    assert(decreases_to!(*a => a@));
                    assert(decreases_to!(a@ => a@[i as int]));
                    if !a[i].eq(&b[i]) {
                        assert(type_models(a@)[i as int] == a@[i as int]@);
                        assert(type_models(b@)[i as int] == b@[i as int]@);
                        return false;
                    }
                    i += 1;
                }
                assert(type_models(a@) =~= type_models(b@));
                true
            },
            _ => false,
        }
    }
}

impl vstd::std_specs::cmp::PartialEqSpecImpl for LogicalType {
    open spec fn obeys_eq_spec() -> bool {
        true
    }

    open spec fn eq_spec(&self, other: &Self) -> bool {
        self@ == other@
    }
}

} // verus!
