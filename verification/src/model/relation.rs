//! Kinds of relations between Java entities.

use vstd::prelude::*;

verus! {

#[derive(Debug, Clone, Copy, PartialEq, Eq, Hash, Structural)]
pub enum JavaRelationType {
    ContainedIn,
    Extends,
    Implements,
    Calls,
    Constructs,
    FieldAccess,
    Throws,
    Catches,
    Imports,
    AnnotatedWith,
    TypeReference,
    Overrides,
}

/// The relation type text of a relation kind.
pub open spec fn relation_text(relation_type: JavaRelationType) -> Seq<char> {
    match relation_type {
        JavaRelationType::ContainedIn => "java.contained_in"@,
        JavaRelationType::Extends => "java.extends"@,
        JavaRelationType::Implements => "java.implements"@,
        JavaRelationType::Calls => "java.calls"@,
        JavaRelationType::Constructs => "java.constructs"@,
        JavaRelationType::FieldAccess => "java.field_access"@,
        JavaRelationType::Throws => "java.throws"@,
        JavaRelationType::Catches => "java.catches"@,
        JavaRelationType::Imports => "java.imports"@,
        JavaRelationType::AnnotatedWith => "java.annotated_with"@,
        JavaRelationType::TypeReference => "java.type_reference"@,
        JavaRelationType::Overrides => "java.overrides"@,
    }
}

/// The variant's name, as `Debug` prints it.
pub open spec fn relation_name(relation_type: JavaRelationType) -> Seq<char> {
    match relation_type {
        JavaRelationType::ContainedIn => "ContainedIn"@,
        JavaRelationType::Extends => "Extends"@,
        JavaRelationType::Implements => "Implements"@,
        JavaRelationType::Calls => "Calls"@,
        JavaRelationType::Constructs => "Constructs"@,
        JavaRelationType::FieldAccess => "FieldAccess"@,
        JavaRelationType::Throws => "Throws"@,
        JavaRelationType::Catches => "Catches"@,
        JavaRelationType::Imports => "Imports"@,
        JavaRelationType::AnnotatedWith => "AnnotatedWith"@,
        JavaRelationType::TypeReference => "TypeReference"@,
        JavaRelationType::Overrides => "Overrides"@,
    }
}

impl JavaRelationType {
    pub fn relation_type_str(&self) -> (r: &'static str)
        ensures
            r@ == relation_text(*self),
    {
        match self {
            JavaRelationType::ContainedIn => "java.contained_in",
            JavaRelationType::Extends => "java.extends",
            JavaRelationType::Implements => "java.implements",
            JavaRelationType::Calls => "java.calls",
            JavaRelationType::Constructs => "java.constructs",
            JavaRelationType::FieldAccess => "java.field_access",
            JavaRelationType::Throws => "java.throws",
            JavaRelationType::Catches => "java.catches",
            JavaRelationType::Imports => "java.imports",
            JavaRelationType::AnnotatedWith => "java.annotated_with",
            JavaRelationType::TypeReference => "java.type_reference",
            JavaRelationType::Overrides => "java.overrides",
        }
    }

    /// The variant's name.
    pub fn name(&self) -> (r: &'static str)
        ensures
            r@ == relation_name(*self),
    {
        match self {
            JavaRelationType::ContainedIn => "ContainedIn",
            JavaRelationType::Extends => "Extends",
            JavaRelationType::Implements => "Implements",
            JavaRelationType::Calls => "Calls",
            JavaRelationType::Constructs => "Constructs",
            JavaRelationType::FieldAccess => "FieldAccess",
            JavaRelationType::Throws => "Throws",
            JavaRelationType::Catches => "Catches",
            JavaRelationType::Imports => "Imports",
            JavaRelationType::AnnotatedWith => "AnnotatedWith",
            JavaRelationType::TypeReference => "TypeReference",
            JavaRelationType::Overrides => "Overrides",
        }
    }
}

} // verus!
