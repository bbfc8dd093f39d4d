use vstd::prelude::*;
use crate::field_type::{OptionalType, Type};
use crate::text::{contains_seq, str_contains, str_eq};

verus! {

/// Descriptor of one field of a record type: its name, kind, declared Rust
/// type, the name of the record type it belongs to, and whether it is
/// optional.
#[derive(Debug, Hash)]
pub struct Field {
    pub name: String,
    pub tp: Type,
    pub declared_type: String,
    pub parent_name: String,
    pub optional: bool,
}

/// What a descriptor holds, with names as characters.
pub struct FieldView {
    pub name: Seq<char>,
    pub tp: Type,
    pub declared_type: Seq<char>,
    pub parent_name: Seq<char>,
    pub optional: bool,
}

impl View for Field {
    type V = FieldView;

    open spec fn view(&self) -> FieldView {
        FieldView {
            name: self.name@,
            tp: self.tp,
            declared_type: self.declared_type@,
            parent_name: self.parent_name@,
            optional: self.optional,
        }
    }
}

/// The name reserved for the primary key.
pub open spec fn id_name() -> Seq<char> {
    seq!['i', 'd']
}

/// Marker of a foreign key in a field's name.
pub open spec fn foreign_marker() -> Seq<char> {
    seq!['_', 'i', 'd']
}

impl FieldView {
    /// The optional flag agrees with the kind.
    pub open spec fn wf(self) -> bool {
        self.optional == (self.tp is Optional)
    }

    pub open spec fn is_id(self) -> bool {
        self.name == id_name()
    }

    /// A naming convention, not a kind: the name contains `_id`.
    pub open spec fn is_foreign_id(self) -> bool {
        contains_seq(self.name, foreign_marker())
    }

    /// A kind that the codec does not handle.
    pub open spec fn is_custom(self) -> bool {
        self.tp is Enum
    }

    pub open spec fn is_simple(self) -> bool {
        !self.is_id() && !self.is_custom() && !self.is_foreign_id()
    }
}

/// The kind of a field declared with the Rust type named `declared`: any
/// name outside the taxonomy is a custom type.
pub open spec fn kind_of(declared: Seq<char>) -> Type {
    if declared == "f32"@ || declared == "f64"@ {
        Type::Float
    } else if declared == "i8"@ || declared == "u8"@ || declared == "i16"@ || declared == "u16"@
        || declared == "i32"@ || declared == "u32"@ || declared == "i64"@ || declared == "u64"@
        || declared == "isize"@ || declared == "usize"@ {
        Type::Integer
    } else if declared == "String"@ {
        Type::Text
    } else if declared == "NaiveDateTime"@ || declared == "DateTime"@ {
        Type::Date
    } else if declared == "Decimal"@ {
        Type::Decimal
    } else if declared == "bool"@ {
        Type::Bool
    } else if declared == "Duration"@ {
        Type::Duration
    } else {
        Type::Enum
    }
}

/// `kind_of` computed.
pub fn kind_of_declared(declared: &str) -> (r: Type)
    ensures
        r == kind_of(declared@),
{
    if str_eq(declared, "f32") || str_eq(declared, "f64") {
        Type::Float
    } else if str_eq(declared, "i8") || str_eq(declared, "u8") || str_eq(declared, "i16") || str_eq(
        declared,
        "u16",
    ) || str_eq(declared, "i32") || str_eq(declared, "u32") || str_eq(declared, "i64") || str_eq(
        declared,
        "u64",
    ) || str_eq(declared, "isize") || str_eq(declared, "usize") {
        Type::Integer
    } else if str_eq(declared, "String") {
        Type::Text
    } else if str_eq(declared, "NaiveDateTime") || str_eq(declared, "DateTime") {
        Type::Date
    } else if str_eq(declared, "Decimal") {
        Type::Decimal
    } else if str_eq(declared, "bool") {
        Type::Bool
    } else if str_eq(declared, "Duration") {
        Type::Duration
    } else {
        Type::Enum
    }
}

impl PartialEq for Field {
    fn eq(&self, other: &Field) -> (r: bool) {
        self.name == other.name && self.tp == other.tp && self.declared_type == other.declared_type
            && self.parent_name == other.parent_name && self.optional == other.optional
    }
}

impl Eq for Field {

}

impl vstd::std_specs::cmp::PartialEqSpecImpl for Field {
    open spec fn obeys_eq_spec() -> bool {
        true
    }

    open spec fn eq_spec(&self, other: &Field) -> bool {
        self@ == other@
    }
}

impl Field {
    /// A descriptor; `optional` follows from the kind.
    pub fn new(name: &str, tp: Type, declared_type: &str, parent_name: &str) -> (r: Field)
        ensures
            r@.name == name@,
            r@.tp == tp,
            r@.declared_type == declared_type@,
            r@.parent_name == parent_name@,
            r@.wf(),
    {
        let optional = tp.is_optional();
        Field {
            name: String::from_str(name),
            tp,
            declared_type: String::from_str(declared_type),
            parent_name: String::from_str(parent_name),
            optional,
        }
    }

    /// The descriptor of a field as declared: its kind follows from the
    /// declared type, wrapped in `Optional` for an optional field. A custom
    /// type cannot be optional.
    pub fn declared(name: &str, declared_type: &str, optional: bool, parent_name: &str) -> (r: Field)
        requires
            optional ==> kind_of(declared_type@) != Type::Enum,
        ensures
            r@.name == name@,
            r@.tp == (if optional {
                Type::Optional(OptionalType::from_type_spec(kind_of(declared_type@)))
            } else {
                kind_of(declared_type@)
            }),
            r@.declared_type == declared_type@,
            r@.parent_name == parent_name@,
            r@.wf(),
    {
        let kind = kind_of_declared(declared_type);
        let tp = if optional {
            kind.to_optional()
        } else {
            kind
        };
        Field::new(name, tp, declared_type, parent_name)
    }

    /// An equal descriptor.
    pub fn copy(&self) -> (r: Field)
        ensures
            r@ == self@,
    {
        Field {
            name: self.name.clone(),
            tp: self.tp,
            declared_type: self.declared_type.clone(),
            parent_name: self.parent_name.clone(),
            optional: self.optional,
        }
    }

    pub fn is_id(&self) -> (r: bool)
        ensures
            r == self@.is_id(),
    {
        proof {
            reveal_strlit("id");
            assert("id"@ =~= id_name());
        }
        str_eq(self.name.as_str(), "id")
    }

    /// The name contains `_id`.
    pub fn is_foreign_id(&self) -> (r: bool)
        ensures
            r == self@.is_foreign_id(),
    {
        proof {
            reveal_strlit("_id");
            assert("_id"@ =~= foreign_marker());
        }
        str_contains(self.name.as_str(), "_id")
    }

    pub fn is_custom(&self) -> (r: bool)
        ensures
            r == self@.is_custom(),
    {
        self.tp.is_enum()
    }

    /// Neither the primary key, a foreign key, nor a custom field.
    pub fn is_simple(&self) -> (r: bool)
        ensures
            r == self@.is_simple(),
    {
        !self.is_id() && !self.is_custom() && !self.is_foreign_id()
    }

    pub fn is_float(&self) -> (r: bool)
        ensures
            r == self.tp.is_type_spec(Type::Float),
    {
        self.tp.is_float()
    }

    pub fn is_integer(&self) -> (r: bool)
        ensures
            r == self.tp.is_type_spec(Type::Integer),
    {
        self.tp.is_integer()
    }

    pub fn is_text(&self) -> (r: bool)
        ensures
            r == self.tp.is_type_spec(Type::Text),
    {
        self.tp.is_text()
    }

    pub fn is_date(&self) -> (r: bool)
        ensures
            r == self.tp.is_type_spec(Type::Date),
    {
        self.tp.is_date()
    }

    pub fn is_decimal(&self) -> (r: bool)
        ensures
            r == self.tp.is_type_spec(Type::Decimal),
    {
        self.tp.is_decimal()
    }

    pub fn is_bool(&self) -> (r: bool)
        ensures
            r == self.tp.is_type_spec(Type::Bool),
    {
        self.tp.is_bool()
    }

    pub fn is_enum(&self) -> (r: bool)
        ensures
            r == (self.tp is Enum),
    {
        self.tp.is_enum()
    }

    pub fn is_duration(&self) -> (r: bool)
        ensures
            r == self.tp.is_type_spec(Type::Duration),
    {
        self.tp.is_duration()
    }

    pub fn is_optional(&self) -> (r: bool)
        ensures
            r == (self.tp is Optional),
    {
        self.tp.is_optional()
    }

    pub fn is_number(&self) -> (r: bool)
        ensures
            r == (self.tp.is_type_spec(Type::Integer) || self.tp.is_type_spec(Type::Float)),
    {
        self.tp.is_number()
    }

    /// The same descriptor with the kind made plain.
    pub fn non_optional(&self) -> (r: Field)
        ensures
            r@.name == self@.name,
            r@.tp == self@.tp.plain(),
            r@.declared_type == self@.declared_type,
            r@.parent_name == self@.parent_name,
            r@.wf(),
    {
        let tp = match self.tp.get_optional() {
            Some(o) => o.to_non_optional(),
            None => self.tp,
        };
        Field {
            name: self.name.clone(),
            tp,
            declared_type: self.declared_type.clone(),
            parent_name: self.parent_name.clone(),
            optional: false,
        }
    }
}

} // verus!
