use vstd::prelude::*;

verus! {

/// The kinds that an optional field can wrap: every kind but `Enum` and
/// `Optional` itself.
#[derive(Debug, Copy, Clone, PartialEq, Eq, Hash, Structural)]
pub enum OptionalType {
    Float,
    Integer,
    Text,
    Date,
    Decimal,
    Bool,
    Duration,
    DateTime,
}

/// The closed taxonomy of field kinds.
#[derive(Debug, Copy, Clone, PartialEq, Eq, Hash, Structural)]
pub enum Type {
    Float,
    Integer,
    Text,
    Date,
    Decimal,
    Bool,
    Enum,
    Duration,
    DateTime,
    Optional(OptionalType),
}

impl OptionalType {
    /// The plain kind that this optional kind wraps.
    pub open spec fn base(self) -> Type {
        match self {
            OptionalType::Float => Type::Float,
            OptionalType::Integer => Type::Integer,
            OptionalType::Text => Type::Text,
            OptionalType::Date => Type::Date,
            OptionalType::Decimal => Type::Decimal,
            OptionalType::Bool => Type::Bool,
            OptionalType::Duration => Type::Duration,
            OptionalType::DateTime => Type::DateTime,
        }
    }

    /// The optional counterpart of a kind that can be wrapped.
    pub open spec fn from_type_spec(tp: Type) -> OptionalType {
        match tp {
            Type::Float => OptionalType::Float,
            Type::Integer => OptionalType::Integer,
            Type::Text => OptionalType::Text,
            Type::Date => OptionalType::Date,
            Type::Decimal => OptionalType::Decimal,
            Type::Bool => OptionalType::Bool,
            Type::Duration => OptionalType::Duration,
            _ => OptionalType::DateTime,
        }
    }

    /// Maps a kind that can be wrapped to its optional counterpart.
    pub fn from_type(tp: &Type) -> (r: Self)
        requires
            tp.can_be_optional(),
        ensures
            r.base() == *tp,
            r == OptionalType::from_type_spec(*tp),
    {
        match tp {
            Type::Float => OptionalType::Float,
            Type::Integer => OptionalType::Integer,
            Type::Text => OptionalType::Text,
            Type::Date => OptionalType::Date,
            Type::Decimal => OptionalType::Decimal,
            Type::Bool => OptionalType::Bool,
            Type::Duration => OptionalType::Duration,
            Type::DateTime => OptionalType::DateTime,
            Type::Enum | Type::Optional(_) => {
                // excluded by the precondition
                proof {
                    assert(false);
                }
                OptionalType::Float
            },
        }
    }

    /// The plain kind that this optional kind wraps.
    pub fn to_non_optional(&self) -> (r: Type)
        ensures
            r == self.base(),
            r.can_be_optional(),
    {
        match self {
            OptionalType::Float => Type::Float,
            OptionalType::Integer => Type::Integer,
            OptionalType::Text => Type::Text,
            OptionalType::Date => Type::Date,
            OptionalType::Decimal => Type::Decimal,
            OptionalType::Bool => Type::Bool,
            OptionalType::Duration => Type::Duration,
            OptionalType::DateTime => Type::DateTime,
        }
    }
}

impl Type {
    /// A kind that `Optional` may wrap: neither `Enum` nor already optional.
    pub open spec fn can_be_optional(self) -> bool {
        !(self is Enum) && !(self is Optional)
    }

    /// `self` is `tp`, or an optional wrapper around `tp`.
    pub open spec fn is_type_spec(self, tp: Type) -> bool {
        self == tp || (self matches Type::Optional(o) && o.base() == tp)
    }

    /// The kind with any optional wrapper removed.
    pub open spec fn plain(self) -> Type {
        match self {
            Type::Optional(o) => o.base(),
            _ => self,
        }
    }

    /// Wraps a plain kind in `Optional`; calling it on `Enum` or on an
    /// optional kind is a contract violation.
    pub fn to_optional(self) -> (r: Self)
        requires
            self.can_be_optional(),
        ensures
            r matches Type::Optional(o) && o.base() == self,
            r == Type::Optional(OptionalType::from_type_spec(self)),
    {
        Type::Optional(OptionalType::from_type(&self))
    }

    /// True when `self` is `tp` or `Optional(tp)`.
    pub fn is_type(&self, tp: Self) -> (r: bool)
        ensures
            r == self.is_type_spec(tp),
    {
        if *self == tp {
            return true;
        }
        if let Type::Optional(opt) = self {
            if tp == opt.to_non_optional() {
                return true;
            }
        }
        false
    }

    pub fn is_float(&self) -> (r: bool)
        ensures
            r == self.is_type_spec(Type::Float),
    {
        self.is_type(Type::Float)
    }

    pub fn is_integer(&self) -> (r: bool)
        ensures
            r == self.is_type_spec(Type::Integer),
    {
        self.is_type(Type::Integer)
    }

    pub fn is_text(&self) -> (r: bool)
        ensures
            r == self.is_type_spec(Type::Text),
    {
        self.is_type(Type::Text)
    }

    pub fn is_date(&self) -> (r: bool)
        ensures
            r == self.is_type_spec(Type::Date),
    {
        self.is_type(Type::Date)
    }

    pub fn is_decimal(&self) -> (r: bool)
        ensures
            r == self.is_type_spec(Type::Decimal),
    {
        self.is_type(Type::Decimal)
    }

    pub fn is_bool(&self) -> (r: bool)
        ensures
            r == self.is_type_spec(Type::Bool),
    {
        self.is_type(Type::Bool)
    }

    pub fn is_enum(&self) -> (r: bool)
        ensures
            r == self.is_type_spec(Type::Enum),
            r == (*self is Enum),
    {
        self.is_type(Type::Enum)
    }

    pub fn is_duration(&self) -> (r: bool)
        ensures
            r == self.is_type_spec(Type::Duration),
    {
        self.is_type(Type::Duration)
    }

    pub fn is_optional(&self) -> (r: bool)
        ensures
            r == (*self is Optional),
    {
        matches!(self, Type::Optional(_))
    }

    /// The wrapped kind of an optional kind, `None` for a plain one.
    pub fn get_optional(&self) -> (r: Option<OptionalType>)
        ensures
            r == (match *self {
                Type::Optional(o) => Some(o),
                _ => None,
            }),
    {
        match self {
            Type::Optional(op) => Some(*op),
            _ => None,
        }
    }

    /// An integer or a float kind, optional or not.
    pub fn is_number(&self) -> (r: bool)
        ensures
            r == (self.is_type_spec(Type::Integer) || self.is_type_spec(Type::Float)),
    {
        self.is_integer() || self.is_float()
    }
}

} // verus!
