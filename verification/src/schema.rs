//! The schema model: types, fields, constraints and named definitions.

use vstd::prelude::*;
use vstd::string::*;
use crate::text::{find_last, lemma_lookup_found, lemma_lookup_missing, lookup};
use crate::value::{CfgppValue, ValueModel};

verus! {

/// The type that a schema asks of a value. `Object` and `Enum` refer by name
/// to a definition of the schema.
#[derive(Debug, PartialEq)]
pub enum TypeDefinition {
    Null,
    Boolean,
    Integer,
    Double,
    String,
    Array(Box<TypeDefinition>),
    Object(String),
    Enum(String),
    Union(Vec<TypeDefinition>),
    Optional(Box<TypeDefinition>),
}

/// The mathematical content of a [`TypeDefinition`].
pub enum TypeModel {
    Null,
    Boolean,
    Integer,
    Double,
    Str,
    Array(Box<TypeModel>),
    Object(Seq<char>),
    Enum(Seq<char>),
    Union(Seq<TypeModel>),
    Optional(Box<TypeModel>),
}

/// The models of a sequence of types.
pub open spec fn types_view(types: Seq<TypeDefinition>) -> Seq<TypeModel> {
    Seq::new(types.len(), |i: int| types[i]@)
}

/// The models of the first `n` types of `types`.
pub open spec fn type_models_upto(types: Seq<TypeDefinition>, n: nat) -> Seq<TypeModel>
    decreases types, n,
{
    if n == 0 || n > types.len() {
        Seq::empty()
    } else {
        type_models_upto(types, (n - 1) as nat).push(types[n - 1].model())
    }
}

impl TypeDefinition {
    /// The mathematical content of the type.
    pub open spec fn model(self) -> TypeModel
        decreases self, 0nat,
    {
        match self {
            TypeDefinition::Null => TypeModel::Null,
            TypeDefinition::Boolean => TypeModel::Boolean,
            TypeDefinition::Integer => TypeModel::Integer,
            TypeDefinition::Double => TypeModel::Double,
            TypeDefinition::String => TypeModel::Str,
            TypeDefinition::Array(inner) => TypeModel::Array(Box::new(inner.model())),
            TypeDefinition::Object(name) => TypeModel::Object(name@),
            TypeDefinition::Enum(name) => TypeModel::Enum(name@),
            TypeDefinition::Union(types) => TypeModel::Union(
                type_models_upto(types@, types@.len()),
            ),
            TypeDefinition::Optional(inner) => TypeModel::Optional(Box::new(inner.model())),
        }
    }
}

impl View for TypeDefinition {
    type V = TypeModel;

    open spec fn view(&self) -> TypeModel {
        self.model()
    }
}

proof fn lemma_type_models_upto(types: Seq<TypeDefinition>, n: nat)
    requires
        n <= types.len(),
    ensures
        type_models_upto(types, n) == types_view(types).take(n as int),
    decreases n,
{
    if n > 0 {
        lemma_type_models_upto(types, (n - 1) as nat);
    }
    assert(type_models_upto(types, n) =~= types_view(types).take(n as int));
}

/// The model of a union is the sequence of its members' models.
pub proof fn lemma_union_view(types: Vec<TypeDefinition>)
    ensures
        TypeDefinition::Union(types)@ == TypeModel::Union(types_view(types@)),
{
    lemma_type_models_upto(types@, types@.len());
    assert(types_view(types@).take(types@.len() as int) == types_view(types@));
}

/// A deep copy of `ty`.
fn copy_of_type(ty: &TypeDefinition) -> (r: TypeDefinition)
    ensures
        r@ == ty@,
    decreases ty,
{
    match ty {
        TypeDefinition::Null => TypeDefinition::Null,
        TypeDefinition::Boolean => TypeDefinition::Boolean,
        TypeDefinition::Integer => TypeDefinition::Integer,
        TypeDefinition::Double => TypeDefinition::Double,
        TypeDefinition::String => TypeDefinition::String,
        TypeDefinition::Array(inner) => TypeDefinition::Array(Box::new(copy_of_type(inner))),
        TypeDefinition::Object(name) => TypeDefinition::Object(name.clone()),
        TypeDefinition::Enum(name) => TypeDefinition::Enum(name.clone()),
        TypeDefinition::Union(types) => {
            let mut copy: Vec<TypeDefinition> = Vec::new();
            let mut i: usize = 0;
            while i < types.len()
                invariant
                    i <= types@.len(),
                    *ty == TypeDefinition::Union(*types),
                    copy@.len() == i,
                    types_view(copy@) == types_view(types@).take(i as int),
                decreases types@.len() - i,
            {
                proof {
                    assert(decreases_to!(*ty => ty->Union_0));
                    assert(decreases_to!(*types => types@));
                    assert(decreases_to!(types@ => types@[i as int]));
                }
                let ghost before = copy@;
                let member = copy_of_type(&types[i]);
                copy.push(member);
                assert forall|k: int| 0 <= k < i + 1 implies types_view(copy@)[k] == types_view(
                    types@,
                ).take(i + 1)[k] by {
                    if k < i {
                        assert(types_view(before)[k] == types_view(types@).take(i as int)[k]);
                    }
                }
                assert(types_view(copy@) =~= types_view(types@).take(i + 1));
                i = i + 1;
            }
            proof {
                lemma_union_view(*types);
                lemma_union_view(copy);
                assert(types_view(types@).take(i as int) == types_view(types@));
            }
            TypeDefinition::Union(copy)
        },
        TypeDefinition::Optional(inner) => TypeDefinition::Optional(Box::new(copy_of_type(inner))),
    }
}

impl Clone for TypeDefinition {
    /// A deep copy: a type with the same model.
    fn clone(&self) -> (r: Self)
        ensures
            r@ == self@,
    {
        copy_of_type(self)
    }
}

/// A rule that a value of a field has to keep besides its type.
///
/// `MinValue` and `MaxValue` hold the IEEE 754 binary64 bit pattern of their
/// bound. `Pattern` holds the text of a regular expression. `Custom` names a
/// check that the host carries out; the library lets it pass.
#[derive(Debug, Clone, PartialEq)]
pub enum Constraint {
    MinLength(usize),
    MaxLength(usize),
    MinValue(u64),
    MaxValue(u64),
    Pattern(String),
    Custom(String),
}

/// The mathematical content of a [`Constraint`].
pub enum ConstraintModel {
    MinLength(nat),
    MaxLength(nat),
    MinValue(u64),
    MaxValue(u64),
    Pattern(Seq<char>),
    Custom(Seq<char>),
}

impl View for Constraint {
    type V = ConstraintModel;

    open spec fn view(&self) -> ConstraintModel {
        match *self {
            Constraint::MinLength(n) => ConstraintModel::MinLength(n as nat),
            Constraint::MaxLength(n) => ConstraintModel::MaxLength(n as nat),
            Constraint::MinValue(bits) => ConstraintModel::MinValue(bits),
            Constraint::MaxValue(bits) => ConstraintModel::MaxValue(bits),
            Constraint::Pattern(pattern) => ConstraintModel::Pattern(pattern@),
            Constraint::Custom(name) => ConstraintModel::Custom(name@),
        }
    }
}

/// The models of a sequence of constraints.
pub open spec fn constraints_view(constraints: Seq<Constraint>) -> Seq<ConstraintModel> {
    Seq::new(constraints.len(), |i: int| constraints[i]@)
}

/// What a schema asks of one field of an object.
#[derive(Debug, Clone)]
pub struct FieldDefinition {
    pub field_type: TypeDefinition,
    pub required: bool,
    pub default_value: Option<CfgppValue>,
    pub constraints: Vec<Constraint>,
}

/// The mathematical content of a [`FieldDefinition`].
pub struct FieldModel {
    pub field_type: TypeModel,
    pub required: bool,
    pub default_value: Option<ValueModel>,
    pub constraints: Seq<ConstraintModel>,
}

impl View for FieldDefinition {
    type V = FieldModel;

    open spec fn view(&self) -> FieldModel {
        FieldModel {
            field_type: self.field_type@,
            required: self.required,
            default_value: match self.default_value {
                Some(value) => Some(value@),
                None => None,
            },
            constraints: constraints_view(self.constraints@),
        }
    }
}

impl FieldDefinition {
    /// A field of the given type, without default and without constraints.
    pub fn new(field_type: TypeDefinition, required: bool) -> (field: Self)
        ensures
            field@ == (FieldModel {
                field_type: field_type@,
                required,
                default_value: None,
                constraints: Seq::empty(),
            }),
    {
        let field = FieldDefinition {
            field_type,
            required,
            default_value: None,
            constraints: Vec::new(),
        };
        assert(constraints_view(field.constraints@) =~= Seq::empty());
        field
    }

    /// The field with one more constraint, behind those it has.
    pub fn with_constraint(self, constraint: Constraint) -> (field: Self)
        ensures
            field@ == (FieldModel {
                constraints: self@.constraints.push(constraint@),
                ..self@
            }),
    {
        let mut field = self;
        field.constraints.push(constraint);
        assert(constraints_view(field.constraints@) =~= self@.constraints.push(constraint@));
        field
    }

    /// The field with the given default.
    pub fn with_default(self, default: CfgppValue) -> (field: Self)
        ensures
            field@ == (FieldModel { default_value: Some(default@), ..self@ }),
    {
        let mut field = self;
        field.default_value = Some(default);
        field
    }
}

/// One finding of a validation: where, what, and the kinds that were expected
/// and found.
#[derive(Debug, Clone, PartialEq)]
pub struct ValidationError {
    pub path: String,
    pub message: String,
    pub expected_type: Option<String>,
    pub actual_type: Option<String>,
}

/// The mathematical content of a [`ValidationError`].
pub struct ViolationModel {
    pub path: Seq<char>,
    pub message: Seq<char>,
    pub expected_type: Option<Seq<char>>,
    pub actual_type: Option<Seq<char>>,
}

impl View for ValidationError {
    type V = ViolationModel;

    open spec fn view(&self) -> ViolationModel {
        ViolationModel {
            path: self.path@,
            message: self.message@,
            expected_type: match self.expected_type {
                Some(text) => Some(text@),
                None => None,
            },
            actual_type: match self.actual_type {
                Some(text) => Some(text@),
                None => None,
            },
        }
    }
}

/// The models of a sequence of findings.
pub open spec fn violations_view(errors: Seq<ValidationError>) -> Seq<ViolationModel> {
    Seq::new(errors.len(), |i: int| errors[i]@)
}

impl ValidationError {
    /// The one-line description of the finding.
    pub fn to_text(&self) -> (s: String)
        ensures
            s@ == "Validation error at '"@ + self@.path + "': "@ + self@.message,
    {
        let mut s = String::new();
        s.append("Validation error at '");
        s.append(self.path.as_str());
        s.append("': ");
        s.append(self.message.as_str());
        s
    }
}

/// The fields of an object definition: names and what is asked of each, in
/// the order of their declaration.
pub type FieldModels = Seq<(Seq<char>, FieldModel)>;

/// The models of a sequence of named fields.
pub open spec fn fields_view(fields: Seq<(String, FieldDefinition)>) -> FieldModels {
    Seq::new(fields.len(), |i: int| (fields[i].0@, fields[i].1@))
}

/// The models of a sequence of texts.
pub open spec fn names_view(names: Seq<String>) -> Seq<Seq<char>> {
    Seq::new(names.len(), |i: int| names[i]@)
}

/// The models of a table of enum definitions.
pub open spec fn enums_view(enums: Seq<(String, Vec<String>)>) -> Seq<(Seq<char>, Seq<Seq<char>>)> {
    Seq::new(enums.len(), |i: int| (enums[i].0@, names_view(enums[i].1@)))
}

/// The models of a table of object definitions.
pub open spec fn objects_view(objects: Seq<(String, Vec<(String, FieldDefinition)>)>) -> Seq<
    (Seq<char>, FieldModels),
> {
    Seq::new(objects.len(), |i: int| (objects[i].0@, fields_view(objects[i].1@)))
}

/// The mathematical content of a [`Schema`]. Of two definitions with one name
/// the later one holds.
pub struct SchemaModel {
    pub enums: Seq<(Seq<char>, Seq<Seq<char>>)>,
    pub objects: Seq<(Seq<char>, FieldModels)>,
    pub root: Option<TypeModel>,
}

/// Named enum and object definitions and, optionally, the type asked of the
/// root value.
#[derive(Debug, Clone)]
pub struct Schema {
    pub(crate) enum_defs: Vec<(String, Vec<String>)>,
    pub(crate) object_schemas: Vec<(String, Vec<(String, FieldDefinition)>)>,
    pub(crate) root_schema: Option<TypeDefinition>,
}

impl View for Schema {
    type V = SchemaModel;

    closed spec fn view(&self) -> SchemaModel {
        SchemaModel {
            enums: enums_view(self.enum_defs@),
            objects: objects_view(self.object_schemas@),
            root: match self.root_schema {
                Some(ty) => Some(ty@),
                None => None,
            },
        }
    }
}

impl Schema {
    /// A schema without definitions and without root type.
    pub fn new() -> (schema: Self)
        ensures
            schema@ == (SchemaModel { enums: Seq::empty(), objects: Seq::empty(), root: None }),
    {
        let schema = Schema {
            enum_defs: Vec::new(),
            object_schemas: Vec::new(),
            root_schema: None,
        };
        assert(enums_view(schema.enum_defs@) =~= Seq::empty());
        assert(objects_view(schema.object_schemas@) =~= Seq::empty());
        schema
    }

    /// Defines the enum `name` with its allowed values.
    pub fn add_enum(&mut self, name: String, values: Vec<String>)
        ensures
            final(self)@ == (SchemaModel {
                enums: old(self)@.enums.push((name@, names_view(values@))),
                ..old(self)@
            }),
    {
        self.enum_defs.push((name, values));
        assert(enums_view(self.enum_defs@) =~= enums_view(old(self).enum_defs@).push(
            (name@, names_view(values@)),
        ));
    }

    /// Defines the object `name` with its fields.
    pub fn add_object_schema(&mut self, name: String, fields: Vec<(String, FieldDefinition)>)
        ensures
            final(self)@ == (SchemaModel {
                objects: old(self)@.objects.push((name@, fields_view(fields@))),
                ..old(self)@
            }),
    {
        self.object_schemas.push((name, fields));
        assert(objects_view(self.object_schemas@) =~= objects_view(
            old(self).object_schemas@,
        ).push((name@, fields_view(fields@))));
    }

    /// Sets the type asked of the root value.
    pub fn set_root_schema(&mut self, type_def: TypeDefinition)
        ensures
            final(self)@ == (SchemaModel { root: Some(type_def@), ..old(self)@ }),
    {
        self.root_schema = Some(type_def);
    }

    /// The fields of the object definition `name`.
    pub fn object_fields(&self, name: &str) -> (r: Option<&Vec<(String, FieldDefinition)>>)
        ensures
            match r {
                Some(fields) => lookup(self@.objects, name@) == Some(fields_view(fields@)),
                None => lookup(self@.objects, name@) is None,
            },
    {
        let wanted = name.to_owned();
        match find_last(&self.object_schemas, &wanted) {
            Some(at) => {
                proof {
                    lemma_lookup_found(self@.objects, name@, at as int);
                }
                Some(&self.object_schemas[at].1)
            },
            None => {
                proof {
                    lemma_lookup_missing(self@.objects, name@);
                }
                None
            },
        }
    }

    /// The values that the enum definition `name` allows.
    pub fn enum_values(&self, name: &str) -> (r: Option<&Vec<String>>)
        ensures
            match r {
                Some(values) => lookup(self@.enums, name@) == Some(names_view(values@)),
                None => lookup(self@.enums, name@) is None,
            },
    {
        let wanted = name.to_owned();
        match find_last(&self.enum_defs, &wanted) {
            Some(at) => {
                proof {
                    lemma_lookup_found(self@.enums, name@, at as int);
                }
                Some(&self.enum_defs[at].1)
            },
            None => {
                proof {
                    lemma_lookup_missing(self@.enums, name@);
                }
                None
            },
        }
    }

    /// The type asked of the root value.
    pub fn root_schema(&self) -> (r: Option<&TypeDefinition>)
        ensures
            match r {
                Some(ty) => self@.root == Some(ty@),
                None => self@.root is None,
            },
    {
        match &self.root_schema {
            Some(ty) => Some(ty),
            None => None,
        }
    }
}

impl Default for Schema {
    /// A schema without definitions and without root type.
    fn default() -> (schema: Self)
        ensures
            schema@ == (SchemaModel { enums: Seq::empty(), objects: Seq::empty(), root: None }),
    {
        Schema::new()
    }
}

} // verus!
