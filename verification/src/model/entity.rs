//! Kinds of Java entities.

use vstd::prelude::*;

use crate::text::same;

verus! {

#[derive(Debug, Clone, Copy, PartialEq, Eq, Hash, Structural)]
pub enum JavaEntityType {
    Package,
    Class,
    Interface,
    Enum,
    EnumConstant,
    Annotation,
    Record,
    Method,
    Constructor,
    Field,
}

/// The cell type that stands for an entity kind.
pub open spec fn cell_type_of(entity_type: JavaEntityType) -> Seq<char> {
    match entity_type {
        JavaEntityType::Package => "java.package"@,
        JavaEntityType::Class => "java.class"@,
        JavaEntityType::Interface => "java.interface"@,
        JavaEntityType::Enum => "java.enum"@,
        JavaEntityType::EnumConstant => "java.enum_constant"@,
        JavaEntityType::Annotation => "java.annotation"@,
        JavaEntityType::Record => "java.record"@,
        JavaEntityType::Method => "java.method"@,
        JavaEntityType::Constructor => "java.constructor"@,
        JavaEntityType::Field => "java.field"@,
    }
}

/// The variant's name, as `Debug` prints it.
pub open spec fn entity_type_name(entity_type: JavaEntityType) -> Seq<char> {
    match entity_type {
        JavaEntityType::Package => "Package"@,
        JavaEntityType::Class => "Class"@,
        JavaEntityType::Interface => "Interface"@,
        JavaEntityType::Enum => "Enum"@,
        JavaEntityType::EnumConstant => "EnumConstant"@,
        JavaEntityType::Annotation => "Annotation"@,
        JavaEntityType::Record => "Record"@,
        JavaEntityType::Method => "Method"@,
        JavaEntityType::Constructor => "Constructor"@,
        JavaEntityType::Field => "Field"@,
    }
}

impl JavaEntityType {
    pub fn cell_type_str(&self) -> (r: &'static str)
        ensures
            r@ == cell_type_of(*self),
    {
        match self {
            JavaEntityType::Package => "java.package",
            JavaEntityType::Class => "java.class",
            JavaEntityType::Interface => "java.interface",
            JavaEntityType::Enum => "java.enum",
            JavaEntityType::EnumConstant => "java.enum_constant",
            JavaEntityType::Annotation => "java.annotation",
            JavaEntityType::Record => "java.record",
            JavaEntityType::Method => "java.method",
            JavaEntityType::Constructor => "java.constructor",
            JavaEntityType::Field => "java.field",
        }
    }

    /// The variant's name.
    pub fn name(&self) -> (r: &'static str)
        ensures
            r@ == entity_type_name(*self),
    {
        match self {
            JavaEntityType::Package => "Package",
            JavaEntityType::Class => "Class",
            JavaEntityType::Interface => "Interface",
            JavaEntityType::Enum => "Enum",
            JavaEntityType::EnumConstant => "EnumConstant",
            JavaEntityType::Annotation => "Annotation",
            JavaEntityType::Record => "Record",
            JavaEntityType::Method => "Method",
            JavaEntityType::Constructor => "Constructor",
            JavaEntityType::Field => "Field",
        }
    }
}

/// The entity kind that a cell type stands for; a class when it is unknown.
pub open spec fn entity_type_from(cell_type: Seq<char>) -> JavaEntityType {
    if cell_type == "java.package"@ {
        JavaEntityType::Package
    } else if cell_type == "java.class"@ {
        JavaEntityType::Class
    } else if cell_type == "java.interface"@ {
        JavaEntityType::Interface
    } else if cell_type == "java.enum"@ {
        JavaEntityType::Enum
    } else if cell_type == "java.enum_constant"@ {
        JavaEntityType::EnumConstant
    } else if cell_type == "java.annotation"@ {
        JavaEntityType::Annotation
    } else if cell_type == "java.record"@ {
        JavaEntityType::Record
    } else if cell_type == "java.method"@ {
        JavaEntityType::Method
    } else if cell_type == "java.constructor"@ {
        JavaEntityType::Constructor
    } else if cell_type == "java.field"@ {
        JavaEntityType::Field
    } else {
        JavaEntityType::Class
    }
}

/// Reads a cell type.
pub fn cell_type_to_entity_type(cell_type: &str) -> (r: JavaEntityType)
    ensures
        r == entity_type_from(cell_type@),
{
    if same(cell_type, "java.package") {
        JavaEntityType::Package
    } else if same(cell_type, "java.class") {
        JavaEntityType::Class
    } else if same(cell_type, "java.interface") {
        JavaEntityType::Interface
    } else if same(cell_type, "java.enum") {
        JavaEntityType::Enum
    } else if same(cell_type, "java.enum_constant") {
        JavaEntityType::EnumConstant
    } else if same(cell_type, "java.annotation") {
        JavaEntityType::Annotation
    } else if same(cell_type, "java.record") {
        JavaEntityType::Record
    } else if same(cell_type, "java.method") {
        JavaEntityType::Method
    } else if same(cell_type, "java.constructor") {
        JavaEntityType::Constructor
    } else if same(cell_type, "java.field") {
        JavaEntityType::Field
    } else {
        JavaEntityType::Class
    }
}

/// A cell type leads back to the entity kind that it was made for.
pub proof fn law_cell_type_round_trip(entity_type: JavaEntityType)
    ensures
        entity_type_from(cell_type_of(entity_type)) == entity_type,
{
    reveal_strlit("java.package");
    reveal_strlit("java.class");
    reveal_strlit("java.interface");
    reveal_strlit("java.enum");
    reveal_strlit("java.enum_constant");
    reveal_strlit("java.annotation");
    reveal_strlit("java.record");
    reveal_strlit("java.method");
    reveal_strlit("java.constructor");
    reveal_strlit("java.field");
    assert("java.package"@.len() == 12 && "java.interface"@.len() == 14 && "java.enum"@.len() == 9);
    assert("java.enum_constant"@.len() == 18 && "java.annotation"@.len() == 15 && "java.constructor"@.len() == 16);
    assert("java.class"@.len() == 10 && "java.field"@.len() == 10 && "java.class"@[5] == 'c' && "java.field"@[5] == 'f');
    assert("java.record"@.len() == 11 && "java.method"@.len() == 11 && "java.record"@[5] == 'r' && "java.method"@[5]
        == 'm');
}

} // verus!
