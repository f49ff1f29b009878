//! The validator: matches a value tree against a schema and collects every
//! finding.

use vstd::prelude::*;
use vstd::string::*;
use crate::number::{double_from_int, double_less, double_lt, double_of_int};
use crate::schema::{
    constraints_view,
    fields_view,
    lemma_union_view,
    names_view,
    types_view,
    violations_view,
    Constraint,
    ConstraintModel,
    FieldDefinition,
    FieldModel,
    FieldModels,
    Schema,
    SchemaModel,
    TypeDefinition,
    TypeModel,
    ValidationError,
    ViolationModel,
};
use crate::text::{
    byte_length,
    decimal_digits,
    find_last,
    lemma_lookup_found,
    lemma_lookup_missing,
    lookup,
    push_decimal,
    push_decimal_wide,
    push_text,
    utf8_len,
};
use crate::value::{
    entries_view,
    entry_index,
    lemma_array_view,
    lemma_entry_index,
    lemma_object_view,
    values_view,
    CfgppValue,
    Entries,
    ValueModel,
};

verus! {

/// Whether the regular expression `pattern` finds a match somewhere in `text`;
/// nothing where `pattern` is no regular expression.
pub uninterp spec fn regex_search(pattern: Seq<char>, text: Seq<char>) -> Option<bool>;

/// Calls `regex::Regex::new` on `pattern` and, where that gives a regular
/// expression, `regex::Regex::is_match` on `text`. The contract only names
/// the outcome: it is taken to depend on the two texts alone.
#[verifier::external_body]
fn search(pattern: &str, text: &str) -> (r: Option<bool>)
    ensures
        r == regex_search(pattern@, text@),
{
    match regex::Regex::new(pattern) {
        Ok(expression) => Some(expression.is_match(text)),
        Err(_) => None,
    }
}

/// `pattern` made to match whole texts only.
pub open spec fn anchored(pattern: Seq<char>) -> Seq<char> {
    "^(?:"@ + pattern + ")$"@
}

/// Whether `pattern` is a regular expression that matches the whole of `text`.
pub open spec fn pattern_accepts(pattern: Seq<char>, text: Seq<char>) -> bool {
    regex_search(pattern, text) is Some && regex_search(anchored(pattern), text) == Some(true)
}

/// Given the outcomes of searching `text` with a pattern and with the
/// anchored pattern, whether the pattern matches the whole of `text`.
pub fn full_match(plain: Option<bool>, whole: Option<bool>) -> (r: bool)
    ensures
        r == (plain is Some && whole == Some(true)),
{
    match plain {
        None => false,
        Some(_) => match whole {
            Some(found) => found,
            None => false,
        },
    }
}

/// Whether `pattern` is a regular expression that matches the whole of `text`.
pub fn pattern_matches(pattern: &str, text: &str) -> (r: bool)
    ensures
        r == pattern_accepts(pattern@, text@),
{
    let mut whole = String::new();
    push_text(&mut whole, "^(?:");
    push_text(&mut whole, pattern);
    push_text(&mut whole, ")$");
    full_match(search(pattern, text), search(whole.as_str(), text))
}

/// The path of the field `name` of the value at `path`.
pub open spec fn join_path(path: Seq<char>, name: Seq<char>) -> Seq<char> {
    if path.len() == 0 {
        name
    } else {
        path + "."@ + name
    }
}

/// The path of the element `index` of the value at `path`.
pub open spec fn index_path(path: Seq<char>, index: nat) -> Seq<char> {
    path + "["@ + decimal_digits(index) + "]"@
}

/// `names[i..]`, separated by a comma and a blank.
pub open spec fn joined(names: Seq<Seq<char>>, i: int) -> Seq<char>
    decreases names.len() - i,
{
    if i < 0 || i >= names.len() {
        Seq::empty()
    } else if i + 1 == names.len() {
        names[i]
    } else {
        names[i] + ", "@ + joined(names, i + 1)
    }
}

/// How diagnostics print a type.
pub open spec fn type_text(ty: TypeModel) -> Seq<char>
    decreases ty, 0nat,
{
    match ty {
        TypeModel::Null => "Null"@,
        TypeModel::Boolean => "Boolean"@,
        TypeModel::Integer => "Integer"@,
        TypeModel::Double => "Double"@,
        TypeModel::Str => "String"@,
        TypeModel::Array(inner) => "Array("@ + type_text(*inner) + ")"@,
        TypeModel::Object(name) => "Object(\""@ + name + "\")"@,
        TypeModel::Enum(name) => "Enum(\""@ + name + "\")"@,
        TypeModel::Union(types) => "Union(["@ + members_text(types, 0) + "])"@,
        TypeModel::Optional(inner) => "Optional("@ + type_text(*inner) + ")"@,
    }
}

/// How diagnostics print the types from the member `i` on, separated by a
/// comma and a blank.
pub open spec fn members_text(types: Seq<TypeModel>, i: nat) -> Seq<char>
    decreases types, types.len() - i,
{
    if i >= types.len() {
        Seq::empty()
    } else if i + 1 == types.len() {
        type_text(types[i as int])
    } else {
        type_text(types[i as int]) + ", "@ + members_text(types, i + 1)
    }
}

/// How diagnostics print a list of types.
pub open spec fn types_text(types: Seq<TypeModel>) -> Seq<char> {
    "["@ + members_text(types, 0) + "]"@
}

/// The text of a string or of an enum value.
pub open spec fn text_of(value: ValueModel) -> Option<Seq<char>> {
    match value {
        ValueModel::Str(s) => Some(s),
        ValueModel::Enum(s) => Some(s),
        _ => None,
    }
}

/// The double that a number stands for: an integer is converted to the
/// nearest double.
pub open spec fn number_of(value: ValueModel) -> Option<u64> {
    match value {
        ValueModel::Integer(i) => Some(double_of_int(i) as u64),
        ValueModel::Double(bits) => Some(bits),
        _ => None,
    }
}

/// A finding without expected and actual kind.
pub open spec fn plain_violation(path: Seq<char>, message: Seq<char>) -> ViolationModel {
    ViolationModel { path, message, expected_type: None, actual_type: None }
}

/// What one constraint finds in a value: at most one finding. A length bound
/// looks at the UTF-8 length of a string or enum value, a value bound at an
/// integer or a double, a pattern at a string or enum value; a value of
/// another kind passes, and so does every value under a custom constraint.
pub open spec fn constraint_spec(value: ValueModel, constraint: ConstraintModel, path: Seq<char>) -> Seq<
    ViolationModel,
> {
    match constraint {
        ConstraintModel::MinLength(min) => match text_of(value) {
            Some(s) => if utf8_len(s) < min {
                seq![
                    plain_violation(
                        path,
                        "String length "@ + decimal_digits(utf8_len(s)) + " is less than minimum "@
                            + decimal_digits(min),
                    ),
                ]
            } else {
                Seq::empty()
            },
            None => Seq::empty(),
        },
        ConstraintModel::MaxLength(max) => match text_of(value) {
            Some(s) => if utf8_len(s) > max {
                seq![
                    plain_violation(
                        path,
                        "String length "@ + decimal_digits(utf8_len(s)) + " exceeds maximum "@
                            + decimal_digits(max),
                    ),
                ]
            } else {
                Seq::empty()
            },
            None => Seq::empty(),
        },
        ConstraintModel::MinValue(min) => match number_of(value) {
            Some(number) => if double_lt(number, min) {
                seq![plain_violation(path, "Value is less than the minimum"@)]
            } else {
                Seq::empty()
            },
            None => Seq::empty(),
        },
        ConstraintModel::MaxValue(max) => match number_of(value) {
            Some(number) => if double_lt(max, number) {
                seq![plain_violation(path, "Value exceeds the maximum"@)]
            } else {
                Seq::empty()
            },
            None => Seq::empty(),
        },
        ConstraintModel::Pattern(pattern) => match text_of(value) {
            Some(s) => if pattern_accepts(pattern, s) {
                Seq::empty()
            } else {
                seq![
                    plain_violation(
                        path,
                        "String '"@ + s + "' does not match pattern "@ + pattern,
                    ),
                ]
            },
            None => Seq::empty(),
        },
        ConstraintModel::Custom(_) => Seq::empty(),
    }
}

/// What the constraints from `i` on find in a value, in their order.
pub open spec fn constraints_spec(
    value: ValueModel,
    constraints: Seq<ConstraintModel>,
    path: Seq<char>,
    i: int,
) -> Seq<ViolationModel>
    decreases constraints.len() - i,
{
    if i < 0 || i >= constraints.len() {
        Seq::empty()
    } else {
        constraint_spec(value, constraints[i], path) + constraints_spec(
            value,
            constraints,
            path,
            i + 1,
        )
    }
}

/// The finding for a value of another kind than its type asks.
pub open spec fn mismatch(value: ValueModel, ty: TypeModel, path: Seq<char>) -> ViolationModel {
    ViolationModel {
        path,
        message: "Type mismatch"@,
        expected_type: Some(type_text(ty)),
        actual_type: Some(value.kind_name()),
    }
}

/// The finding for a value that no member of a union accepts.
pub open spec fn union_mismatch(value: ValueModel, types: Seq<TypeModel>, path: Seq<char>) -> ViolationModel {
    ViolationModel {
        path,
        message: "Value does not match any type in union: "@ + types_text(types),
        expected_type: Some("union("@ + types_text(types) + ")"@),
        actual_type: Some(value.kind_name()),
    }
}

/// The finding for a reference to an object definition that the schema lacks.
pub open spec fn unknown_object(value: ValueModel, name: Seq<char>, path: Seq<char>) -> ViolationModel {
    ViolationModel {
        path,
        message: "Unknown object schema '"@ + name + "'"@,
        expected_type: Some("object("@ + name + ")"@),
        actual_type: Some(value.kind_name()),
    }
}

/// The finding for a reference to an enum definition that the schema lacks.
pub open spec fn unknown_enum(value: ValueModel, name: Seq<char>, path: Seq<char>) -> ViolationModel {
    ViolationModel {
        path,
        message: "Unknown enum type '"@ + name + "'"@,
        expected_type: Some("enum("@ + name + ")"@),
        actual_type: Some(value.kind_name()),
    }
}

/// The finding for an enum value that its definition does not list.
pub open spec fn invalid_enum_value(
    text: Seq<char>,
    name: Seq<char>,
    allowed: Seq<Seq<char>>,
    path: Seq<char>,
) -> ViolationModel {
    ViolationModel {
        path,
        message: "Invalid enum value '"@ + text + "', expected one of: "@ + joined(allowed, 0),
        expected_type: Some("enum("@ + name + ")"@),
        actual_type: Some("enum("@ + text + ")"@),
    }
}

/// The finding for a required field that an object lacks.
pub open spec fn missing_field(name: Seq<char>, ty: TypeModel, path: Seq<char>) -> ViolationModel {
    ViolationModel {
        path: join_path(path, name),
        message: "Required field '"@ + name + "' is missing"@,
        expected_type: Some(type_text(ty)),
        actual_type: None,
    }
}

/// The finding for a field that an object has and its definition lacks.
pub open spec fn unexpected_field(name: Seq<char>, value: ValueModel, path: Seq<char>) -> ViolationModel {
    ViolationModel {
        path: join_path(path, name),
        message: "Unexpected field '"@ + name + "'"@,
        expected_type: None,
        actual_type: Some(value.kind_name()),
    }
}

/// What an enum value's text finds against the enum `name`.
pub open spec fn enum_spec(
    schema: SchemaModel,
    value: ValueModel,
    text: Seq<char>,
    name: Seq<char>,
    path: Seq<char>,
) -> Seq<ViolationModel> {
    match lookup(schema.enums, name) {
        Some(allowed) => if allowed.contains(text) {
            Seq::empty()
        } else {
            seq![invalid_enum_value(text, name, allowed, path)]
        },
        None => seq![unknown_enum(value, name, path)],
    }
}

/// The findings of matching `value` against `ty`, in the order in which the
/// tree is walked.
///
/// A primitive type accepts values of its own kind only. An array type asks
/// its element type of every element. A reference to an object asks an object
/// with the declared fields and no others. A reference to an enum asks an
/// enum value that the definition lists; a reference by a name that could be
/// either is taken as an enum reference where the value is an enum value and
/// the schema defines an enum of that name. A union accepts what a member
/// accepts without finding, and else gives one finding of its own. An
/// optional type accepts null and what its inner type accepts.
pub open spec fn validate_type_spec(
    schema: SchemaModel,
    value: ValueModel,
    ty: TypeModel,
    path: Seq<char>,
) -> Seq<ViolationModel>
    decreases value, ty, 0nat,
{
    match ty {
        TypeModel::Null => if value is Null {
            Seq::empty()
        } else {
            seq![mismatch(value, ty, path)]
        },
        TypeModel::Boolean => if value is Boolean {
            Seq::empty()
        } else {
            seq![mismatch(value, ty, path)]
        },
        TypeModel::Integer => if value is Integer {
            Seq::empty()
        } else {
            seq![mismatch(value, ty, path)]
        },
        TypeModel::Double => if value is Double {
            Seq::empty()
        } else {
            seq![mismatch(value, ty, path)]
        },
        TypeModel::Str => if value is Str {
            Seq::empty()
        } else {
            seq![mismatch(value, ty, path)]
        },
        TypeModel::Array(inner) => match value {
            ValueModel::Array(items) => elements_spec(schema, items, *inner, path, 0),
            _ => seq![mismatch(value, ty, path)],
        },
        TypeModel::Object(name) => match value {
            ValueModel::Object(entries) => match lookup(schema.objects, name) {
                Some(fields) => declared_spec(schema, entries, fields, path, 0) + undeclared_spec(
                    entries,
                    fields,
                    path,
                    0,
                ),
                None => seq![unknown_object(value, name, path)],
            },
            ValueModel::Enum(text) => if lookup(schema.enums, name) is Some {
                enum_spec(schema, value, text, name, path)
            } else {
                seq![mismatch(value, ty, path)]
            },
            _ => seq![mismatch(value, ty, path)],
        },
        TypeModel::Enum(name) => match value {
            ValueModel::Enum(text) => enum_spec(schema, value, text, name, path),
            _ => seq![mismatch(value, ty, path)],
        },
        TypeModel::Union(types) => if member_accepts(schema, value, types, path, 0) {
            Seq::empty()
        } else {
            seq![union_mismatch(value, types, path)]
        },
        TypeModel::Optional(inner) => if value is Null {
            Seq::empty()
        } else {
            validate_type_spec(schema, value, *inner, path)
        },
    }
}

/// The findings in the elements from `i` on, each at its index behind `path`.
pub open spec fn elements_spec(
    schema: SchemaModel,
    items: Seq<ValueModel>,
    inner: TypeModel,
    path: Seq<char>,
    i: nat,
) -> Seq<ViolationModel>
    decreases items, inner, items.len() - i,
{
    if i >= items.len() {
        Seq::empty()
    } else {
        validate_type_spec(schema, items[i as int], inner, index_path(path, i)) + elements_spec(
            schema,
            items,
            inner,
            path,
            i + 1,
        )
    }
}

/// Whether a member of `types` from `i` on accepts `value` without finding.
pub open spec fn member_accepts(
    schema: SchemaModel,
    value: ValueModel,
    types: Seq<TypeModel>,
    path: Seq<char>,
    i: nat,
) -> bool
    decreases value, types, types.len() - i,
{
    if i >= types.len() {
        false
    } else {
        validate_type_spec(schema, value, types[i as int], path).len() == 0 || member_accepts(
            schema,
            value,
            types,
            path,
            i + 1,
        )
    }
}

/// What a field's definition finds in the field's value: the findings of its
/// type and, where the type finds nothing, those of its constraints.
pub open spec fn field_value_spec(
    schema: SchemaModel,
    value: ValueModel,
    field: FieldModel,
    path: Seq<char>,
) -> Seq<ViolationModel>
    decreases value, field.field_type, 1nat,
{
    let findings = validate_type_spec(schema, value, field.field_type, path);
    if findings.len() == 0 {
        constraints_spec(value, field.constraints, path, 0)
    } else {
        findings
    }
}

/// The findings for the declared fields from `i` on: of a field that the
/// object has, what its definition finds in its value; of a required field
/// that the object lacks, that it is missing.
pub open spec fn declared_spec(
    schema: SchemaModel,
    entries: Entries,
    fields: FieldModels,
    path: Seq<char>,
    i: nat,
) -> Seq<ViolationModel>
    decreases entries, fields, fields.len() - i,
{
    if i >= fields.len() {
        Seq::empty()
    } else {
        let name = fields[i as int].0;
        let field = fields[i as int].1;
        let k = entry_index(entries, name, 0);
        let here = if 0 <= k < entries.len() {
            field_value_spec(schema, entries[k].1, field, join_path(path, name))
        } else if field.required {
            seq![missing_field(name, field.field_type, path)]
        } else {
            Seq::empty()
        };
        here + declared_spec(schema, entries, fields, path, i + 1)
    }
}

/// The findings for the entries from `i` on that the definition does not
/// declare.
pub open spec fn undeclared_spec(entries: Entries, fields: FieldModels, path: Seq<char>, i: int) -> Seq<
    ViolationModel,
>
    decreases entries.len() - i,
{
    if i < 0 || i >= entries.len() {
        Seq::empty()
    } else {
        let here = if lookup(fields, entries[i].0) is None {
            seq![unexpected_field(entries[i].0, entries[i].1, path)]
        } else {
            Seq::empty()
        };
        here + undeclared_spec(entries, fields, path, i + 1)
    }
}

/// The findings of validating `value` against the schema: those of its root
/// type at the empty path, and none where the schema has no root type.
pub open spec fn validate_spec(schema: SchemaModel, value: ValueModel) -> Seq<ViolationModel> {
    match schema.root {
        Some(ty) => validate_type_spec(schema, value, ty, Seq::empty()),
        None => Seq::empty(),
    }
}

/// `a` followed by `b` and `c`.
fn concat3(a: &str, b: &str, c: &str) -> (s: String)
    ensures
        s@ == a@ + b@ + c@,
{
    let mut s = String::new();
    push_text(&mut s, a);
    push_text(&mut s, b);
    push_text(&mut s, c);
    assert(s@ =~= a@ + b@ + c@);
    s
}

/// The path of the field `name` of the value at `path`.
fn field_path(path: &str, name: &str) -> (s: String)
    ensures
        s@ == join_path(path@, name@),
{
    if path.is_empty() {
        name.to_owned()
    } else {
        concat3(path, ".", name)
    }
}

/// The path of the element `index` of the value at `path`.
fn element_path(path: &str, index: usize) -> (s: String)
    ensures
        s@ == index_path(path@, index as nat),
{
    let mut s = String::new();
    push_text(&mut s, path);
    push_text(&mut s, "[");
    push_decimal(&mut s, index);
    push_text(&mut s, "]");
    assert(s@ =~= index_path(path@, index as nat));
    s
}

/// `names`, separated by a comma and a blank.
fn join_names(names: &Vec<String>) -> (s: String)
    ensures
        s@ == joined(names_view(names@), 0),
{
    let ghost all = names_view(names@);
    let mut s = String::new();
    let mut i: usize = 0;
    assert(Seq::<char>::empty() + joined(all, 0) =~= joined(all, 0));
    while i < names.len()
        invariant
            i <= names@.len(),
            all == names_view(names@),
            joined(all, 0) == s@ + joined(all, i as int),
        decreases names@.len() - i,
    {
        let ghost before = s@;
        let ghost rest = joined(all, i + 1);
        push_text(&mut s, names[i].as_str());
        if i + 1 < names.len() {
            push_text(&mut s, ", ");
            assert(before + (all[i as int] + ", "@ + rest) =~= s@ + rest);
        }
        i = i + 1;
    }
    assert(s@ + Seq::<char>::empty() =~= s@);
    s
}

/// Appends how diagnostics print `types`, separated by a comma and a blank.
fn describe_members(types: &Vec<TypeDefinition>, out: &mut String)
    ensures
        final(out)@ == old(out)@ + members_text(types_view(types@), 0),
    decreases types_view(types@), 1nat,
{
    let ghost all = types_view(types@);
    let ghost start = out@;
    let mut i: usize = 0;
    while i < types.len()
        invariant
            i <= types@.len(),
            all == types_view(types@),
            start + members_text(all, 0) == out@ + members_text(all, i as nat),
        decreases types@.len() - i,
    {
        let ghost before = out@;
        let ghost rest = members_text(all, (i + 1) as nat);
        proof {
            assert(all[i as int] == types@[i as int]@);
            assert(decreases_to!(all => all[i as int]));
        }
        describe_type(&types[i], out);
        if i + 1 < types.len() {
            push_text(out, ", ");
            assert(before + (type_text(all[i as int]) + ", "@ + rest) =~= out@ + rest);
        } else {
            assert(rest =~= Seq::empty());
            assert(out@ + rest =~= out@);
        }
        i = i + 1;
    }
    assert(out@ + Seq::<char>::empty() =~= out@);
}

/// Appends how diagnostics print `ty`.
fn describe_type(ty: &TypeDefinition, out: &mut String)
    ensures
        final(out)@ == old(out)@ + type_text(ty@),
    decreases ty@, 0nat,
{
    let ghost start = out@;
    match ty {
        TypeDefinition::Null => push_text(out, "Null"),
        TypeDefinition::Boolean => push_text(out, "Boolean"),
        TypeDefinition::Integer => push_text(out, "Integer"),
        TypeDefinition::Double => push_text(out, "Double"),
        TypeDefinition::String => push_text(out, "String"),
        TypeDefinition::Array(inner) => {
            push_text(out, "Array(");
            proof {
                assert(decreases_to!(ty@ => ty@->Array_0));
            }
            describe_type(inner, out);
            push_text(out, ")");
            assert(out@ =~= start + type_text(ty@));
        },
        TypeDefinition::Object(name) => {
            push_text(out, "Object(\"");
            push_text(out, name.as_str());
            push_text(out, "\")");
            assert(out@ =~= start + type_text(ty@));
        },
        TypeDefinition::Enum(name) => {
            push_text(out, "Enum(\"");
            push_text(out, name.as_str());
            push_text(out, "\")");
            assert(out@ =~= start + type_text(ty@));
        },
        TypeDefinition::Union(types) => {
            proof {
                lemma_union_view(*types);
                assert(decreases_to!(ty@ => ty@->Union_0));
            }
            push_text(out, "Union([");
            describe_members(types, out);
            push_text(out, "])");
            assert(out@ =~= start + type_text(ty@));
        },
        TypeDefinition::Optional(inner) => {
            push_text(out, "Optional(");
            proof {
                assert(decreases_to!(ty@ => ty@->Optional_0));
            }
            describe_type(inner, out);
            push_text(out, ")");
            assert(out@ =~= start + type_text(ty@));
        },
    }
}

/// How diagnostics print `ty`.
fn type_description(ty: &TypeDefinition) -> (s: String)
    ensures
        s@ == type_text(ty@),
{
    let mut s = String::new();
    describe_type(ty, &mut s);
    assert(Seq::<char>::empty() + type_text(ty@) =~= type_text(ty@));
    s
}

/// How diagnostics print the list `types`.
fn types_description(types: &Vec<TypeDefinition>) -> (s: String)
    ensures
        s@ == types_text(types_view(types@)),
{
    let mut s = String::new();
    push_text(&mut s, "[");
    describe_members(types, &mut s);
    push_text(&mut s, "]");
    assert(s@ =~= types_text(types_view(types@)));
    s
}

/// Adds one finding to `errors`.
fn report(errors: &mut Vec<ValidationError>, finding: ValidationError)
    ensures
        violations_view(final(errors)@) == violations_view(old(errors)@) + seq![finding@],
{
    errors.push(finding);
    assert(violations_view(errors@) =~= violations_view(old(errors)@) + seq![finding@]);
}

/// Adds a finding without expected and actual kind.
fn report_plain(errors: &mut Vec<ValidationError>, path: &str, message: String)
    ensures
        violations_view(final(errors)@) == violations_view(old(errors)@) + seq![
            plain_violation(path@, message@),
        ],
{
    report(
        errors,
        ValidationError { path: path.to_owned(), message, expected_type: None, actual_type: None },
    );
}

/// Adds the finding for a value of another kind than its type asks.
fn report_mismatch(
    errors: &mut Vec<ValidationError>,
    value: &CfgppValue,
    type_def: &TypeDefinition,
    path: &str,
)
    ensures
        violations_view(final(errors)@) == violations_view(old(errors)@) + seq![
            mismatch(value@, type_def@, path@),
        ],
{
    report(
        errors,
        ValidationError {
            path: path.to_owned(),
            message: "Type mismatch".to_owned(),
            expected_type: Some(type_description(type_def)),
            actual_type: Some(value.kind_name().to_owned()),
        },
    );
}

/// Whether `text` is one of `allowed`.
fn is_allowed(allowed: &Vec<String>, text: &String) -> (r: bool)
    ensures
        r == names_view(allowed@).contains(text@),
{
    let mut i: usize = 0;
    while i < allowed.len()
        invariant
            i <= allowed@.len(),
            forall|j: int| 0 <= j < i ==> names_view(allowed@)[j] != text@,
        decreases allowed@.len() - i,
    {
        if allowed[i] == *text {
            assert(names_view(allowed@)[i as int] == text@);
            return true;
        }
        i = i + 1;
    }
    false
}

impl Schema {
    /// What one constraint finds in a value.
    fn validate_constraint(
        value: &CfgppValue,
        constraint: &Constraint,
        path: &str,
        errors: &mut Vec<ValidationError>,
    )
        ensures
            violations_view(final(errors)@) == violations_view(old(errors)@) + constraint_spec(
                value@,
                constraint@,
                path@,
            ),
    {
        let ghost before = violations_view(errors@);
        assert(before + Seq::<ViolationModel>::empty() =~= before);
        match constraint {
            Constraint::MinLength(min) => {
                if let Some(s) = value.as_string() {
                    let length = byte_length(s);
                    if length < *min as u128 {
                        let mut message = String::new();
                        push_text(&mut message, "String length ");
                        push_decimal_wide(&mut message, length);
                        push_text(&mut message, " is less than minimum ");
                        push_decimal(&mut message, *min);
                        assert(message@ =~= "String length "@ + decimal_digits(utf8_len(s@))
                            + " is less than minimum "@ + decimal_digits(*min as nat));
                        report_plain(errors, path, message);
                    }
                }
            },
            Constraint::MaxLength(max) => {
                if let Some(s) = value.as_string() {
                    let length = byte_length(s);
                    if length > *max as u128 {
                        let mut message = String::new();
                        push_text(&mut message, "String length ");
                        push_decimal_wide(&mut message, length);
                        push_text(&mut message, " exceeds maximum ");
                        push_decimal(&mut message, *max);
                        assert(message@ =~= "String length "@ + decimal_digits(utf8_len(s@))
                            + " exceeds maximum "@ + decimal_digits(*max as nat));
                        report_plain(errors, path, message);
                    }
                }
            },
            Constraint::MinValue(min) => {
                let number: Option<u64> = match value {
                    CfgppValue::Integer(i) => Some(double_from_int(*i)),
                    CfgppValue::Double(bits) => Some(*bits),
                    _ => None,
                };
                assert(number == number_of(value@));
                if let Some(bits) = number {
                    if double_less(bits, *min) {
                        report_plain(errors, path, "Value is less than the minimum".to_owned());
                    }
                }
            },
            Constraint::MaxValue(max) => {
                let number: Option<u64> = match value {
                    CfgppValue::Integer(i) => Some(double_from_int(*i)),
                    CfgppValue::Double(bits) => Some(*bits),
                    _ => None,
                };
                assert(number == number_of(value@));
                if let Some(bits) = number {
                    if double_less(*max, bits) {
                        report_plain(errors, path, "Value exceeds the maximum".to_owned());
                    }
                }
            },
            Constraint::Pattern(pattern) => {
                if let Some(s) = value.as_string() {
                    if !pattern_matches(pattern.as_str(), s) {
                        let mut message = String::new();
                        push_text(&mut message, "String '");
                        push_text(&mut message, s);
                        push_text(&mut message, "' does not match pattern ");
                        push_text(&mut message, pattern.as_str());
                        assert(message@ =~= "String '"@ + s@ + "' does not match pattern "@
                            + pattern@);
                        report_plain(errors, path, message);
                    }
                }
            },
            Constraint::Custom(_) => {},
        }
    }

    /// What an enum value's text finds against the enum `name`.
    fn validate_enum(
        &self,
        value: &CfgppValue,
        text: &String,
        name: &String,
        path: &str,
        errors: &mut Vec<ValidationError>,
    )
        ensures
            violations_view(final(errors)@) == violations_view(old(errors)@) + enum_spec(
                self@,
                value@,
                text@,
                name@,
                path@,
            ),
    {
        let ghost before = violations_view(errors@);
        assert(before + Seq::<ViolationModel>::empty() =~= before);
        match self.enum_values(name.as_str()) {
            Some(allowed) => {
                if !is_allowed(allowed, text) {
                    let mut message = String::new();
                    push_text(&mut message, "Invalid enum value '");
                    push_text(&mut message, text.as_str());
                    push_text(&mut message, "', expected one of: ");
                    push_text(&mut message, join_names(allowed).as_str());
                    assert(message@ =~= "Invalid enum value '"@ + text@ + "', expected one of: "@
                        + joined(names_view(allowed@), 0));
                    report(
                        errors,
                        ValidationError {
                            path: path.to_owned(),
                            message,
                            expected_type: Some(concat3("enum(", name.as_str(), ")")),
                            actual_type: Some(concat3("enum(", text.as_str(), ")")),
                        },
                    );
                }
            },
            None => {
                report(
                    errors,
                    ValidationError {
                        path: path.to_owned(),
                        message: concat3("Unknown enum type '", name.as_str(), "'"),
                        expected_type: Some(concat3("enum(", name.as_str(), ")")),
                        actual_type: Some(value.kind_name().to_owned()),
                    },
                );
            },
        }
    }

    /// What a field's definition finds in the field's value.
    fn validate_field_value(
        &self,
        value: &CfgppValue,
        field: &FieldDefinition,
        path: &str,
        errors: &mut Vec<ValidationError>,
    )
        ensures
            violations_view(final(errors)@) == violations_view(old(errors)@) + field_value_spec(
                self@,
                value@,
                field@,
                path@,
            ),
        decreases value@, field@.field_type, 1nat,
    {
        let ghost before = violations_view(errors@);
        let mut findings: Vec<ValidationError> = Vec::new();
        assert(violations_view(findings@) =~= Seq::empty());
        self.validate_type(value, &field.field_type, path, &mut findings);
        assert(violations_view(findings@) =~= validate_type_spec(
            self@,
            value@,
            field@.field_type,
            path@,
        ));
        if findings.len() == 0 {
            let ghost all = constraints_view(field.constraints@);
            let mut i: usize = 0;
            assert(before + Seq::<ViolationModel>::empty() =~= before);
            while i < field.constraints.len()
                invariant
                    i <= field.constraints@.len(),
                    all == constraints_view(field.constraints@),
                    before + constraints_spec(value@, all, path@, 0) == violations_view(errors@)
                        + constraints_spec(value@, all, path@, i as int),
                decreases field.constraints@.len() - i,
            {
                let ghost so_far = violations_view(errors@);
                Self::validate_constraint(value, &field.constraints[i], path, errors);
                assert(so_far + (constraint_spec(value@, all[i as int], path@) + constraints_spec(
                    value@,
                    all,
                    path@,
                    i + 1,
                )) =~= violations_view(errors@) + constraints_spec(value@, all, path@, i + 1));
                i = i + 1;
            }
            assert(violations_view(errors@) + Seq::<ViolationModel>::empty() =~= violations_view(
                errors@,
            ));
        } else {
            let ghost found = findings@;
            errors.append(&mut findings);
            assert(violations_view(errors@) =~= before + violations_view(found));
        }
    }

    /// The findings for the declared fields of an object.
    fn validate_declared(
        &self,
        value: &CfgppValue,
        fields: &Vec<(String, FieldDefinition)>,
        path: &str,
        errors: &mut Vec<ValidationError>,
    )
        requires
            value@ is Object,
        ensures
            violations_view(final(errors)@) == violations_view(old(errors)@) + declared_spec(
                self@,
                value@->Object_0,
                fields_view(fields@),
                path@,
                0,
            ),
        decreases value@->Object_0, fields_view(fields@), 0nat,
    {
        let ghost before = violations_view(errors@);
        let ghost entries = value@->Object_0;
        let ghost all = fields_view(fields@);
        let mut i: usize = 0;
        while i < fields.len()
            invariant
                i <= fields@.len(),
                value@ is Object,
                entries == value@->Object_0,
                all == fields_view(fields@),
                before + declared_spec(self@, entries, all, path@, 0) == violations_view(errors@)
                    + declared_spec(self@, entries, all, path@, i as nat),
            decreases fields@.len() - i,
        {
            let ghost so_far = violations_view(errors@);
            let ghost rest = declared_spec(self@, entries, all, path@, (i + 1) as nat);
            let name = &fields[i].0;
            let field = &fields[i].1;
            let at = field_path(path, name.as_str());
            match value.get(name.as_str()) {
                Some(found) => {
                    proof {
                        lemma_entry_index(entries, name@, 0);
                        let k = entry_index(entries, name@, 0);
                        assert(found@ == entries[k].1);
                        assert(decreases_to!(entries => entries[k]));
                        assert(decreases_to!(entries[k] => entries[k].1));
                    }
                    self.validate_field_value(found, field, at.as_str(), errors);
                    assert(so_far + (field_value_spec(self@, found@, field@, at@) + rest)
                        =~= violations_view(errors@) + rest);
                },
                None => {
                    if field.required {
                        report(
                            errors,
                            ValidationError {
                                path: at,
                                message: concat3("Required field '", name.as_str(), "' is missing"),
                                expected_type: Some(type_description(&field.field_type)),
                                actual_type: None,
                            },
                        );
                        assert(so_far + (seq![missing_field(name@, field@.field_type, path@)]
                            + rest) =~= violations_view(errors@) + rest);
                    } else {
                        assert(so_far + (Seq::<ViolationModel>::empty() + rest) =~= so_far + rest);
                    }
                },
            }
            i = i + 1;
        }
        assert(violations_view(errors@) + Seq::<ViolationModel>::empty() =~= violations_view(
            errors@,
        ));
    }

    /// The findings for the fields that an object has and its definition
    /// lacks.
    fn validate_undeclared(
        entries: &Vec<(String, CfgppValue)>,
        fields: &Vec<(String, FieldDefinition)>,
        path: &str,
        errors: &mut Vec<ValidationError>,
    )
        ensures
            violations_view(final(errors)@) == violations_view(old(errors)@) + undeclared_spec(
                entries_view(entries@),
                fields_view(fields@),
                path@,
                0,
            ),
    {
        let ghost before = violations_view(errors@);
        let ghost all = entries_view(entries@);
        let ghost declared = fields_view(fields@);
        let mut i: usize = 0;
        while i < entries.len()
            invariant
                i <= entries@.len(),
                all == entries_view(entries@),
                declared == fields_view(fields@),
                before + undeclared_spec(all, declared, path@, 0) == violations_view(errors@)
                    + undeclared_spec(all, declared, path@, i as int),
            decreases entries@.len() - i,
        {
            let ghost so_far = violations_view(errors@);
            let ghost rest = undeclared_spec(all, declared, path@, i + 1);
            let name = &entries[i].0;
            match find_last(fields, name) {
                Some(at) => {
                    proof {
                        lemma_lookup_found(declared, name@, at as int);
                    }
                    assert(so_far + (Seq::<ViolationModel>::empty() + rest) =~= so_far + rest);
                },
                None => {
                    proof {
                        lemma_lookup_missing(declared, name@);
                    }
                    report(
                        errors,
                        ValidationError {
                            path: field_path(path, name.as_str()),
                            message: concat3("Unexpected field '", name.as_str(), "'"),
                            expected_type: None,
                            actual_type: Some(entries[i].1.kind_name().to_owned()),
                        },
                    );
                    assert(so_far + (seq![unexpected_field(all[i as int].0, all[i as int].1, path@)]
                        + rest) =~= violations_view(errors@) + rest);
                },
            }
            i = i + 1;
        }
        assert(violations_view(errors@) + Seq::<ViolationModel>::empty() =~= violations_view(
            errors@,
        ));
    }

    /// The findings of matching `value` against `type_def`, added to `errors`.
    fn validate_type(
        &self,
        value: &CfgppValue,
        type_def: &TypeDefinition,
        path: &str,
        errors: &mut Vec<ValidationError>,
    )
        ensures
            violations_view(final(errors)@) == violations_view(old(errors)@) + validate_type_spec(
                self@,
                value@,
                type_def@,
                path@,
            ),
        decreases value@, type_def@, 0nat,
    {
        let ghost before = violations_view(errors@);
        assert(before + Seq::<ViolationModel>::empty() =~= before);
        match type_def {
            TypeDefinition::Null => {
                if !value.is_null() {
                    report_mismatch(errors, value, type_def, path);
                }
            },
            TypeDefinition::Boolean => {
                if !value.is_boolean() {
                    report_mismatch(errors, value, type_def, path);
                }
            },
            TypeDefinition::Integer => {
                if !value.is_integer() {
                    report_mismatch(errors, value, type_def, path);
                }
            },
            TypeDefinition::Double => {
                if !value.is_double() {
                    report_mismatch(errors, value, type_def, path);
                }
            },
            TypeDefinition::String => {
                if !value.is_string() {
                    report_mismatch(errors, value, type_def, path);
                }
            },
            TypeDefinition::Array(inner) => {
                match value.as_array() {
                    Some(items) => {
                        let ghost all = values_view(items@);
                        let mut i: usize = 0;
                        while i < items.len()
                            invariant
                                i <= items@.len(),
                                all == values_view(items@),
                                value@ == ValueModel::Array(all),
                                *type_def == TypeDefinition::Array(*inner),
                                before + elements_spec(self@, all, inner@, path@, 0)
                                    == violations_view(errors@) + elements_spec(
                                    self@,
                                    all,
                                    inner@,
                                    path@,
                                    i as nat,
                                ),
                            decreases items@.len() - i,
                        {
                            let ghost so_far = violations_view(errors@);
                            let ghost rest = elements_spec(
                                self@,
                                all,
                                inner@,
                                path@,
                                (i + 1) as nat,
                            );
                            let at = element_path(path, i);
                            proof {
                                assert(decreases_to!(value@ => value@->Array_0));
                                assert(decreases_to!(all => all[i as int]));
                                assert(all[i as int] == items@[i as int]@);
                            }
                            self.validate_type(&items[i], inner, at.as_str(), errors);
                            assert(so_far + (validate_type_spec(
                                self@,
                                all[i as int],
                                inner@,
                                at@,
                            ) + rest) =~= violations_view(errors@) + rest);
                            i = i + 1;
                        }
                        assert(violations_view(errors@) + Seq::<ViolationModel>::empty()
                            =~= violations_view(errors@));
                    },
                    None => {
                        report_mismatch(errors, value, type_def, path);
                    },
                }
            },
            TypeDefinition::Object(name) => {
                match value {
                    CfgppValue::Object(entries) => {
                        proof {
                            lemma_object_view(*entries);
                        }
                        match self.object_fields(name.as_str()) {
                            Some(fields) => {
                                proof {
                                    assert(decreases_to!(value@ => value@->Object_0));
                                }
                                self.validate_declared(value, fields, path, errors);
                                Self::validate_undeclared(entries, fields, path, errors);
                                assert(violations_view(errors@) =~= before + (declared_spec(
                                    self@,
                                    entries_view(entries@),
                                    fields_view(fields@),
                                    path@,
                                    0,
                                ) + undeclared_spec(
                                    entries_view(entries@),
                                    fields_view(fields@),
                                    path@,
                                    0,
                                )));
                            },
                            None => {
                                report(
                                    errors,
                                    ValidationError {
                                        path: path.to_owned(),
                                        message: concat3(
                                            "Unknown object schema '",
                                            name.as_str(),
                                            "'",
                                        ),
                                        expected_type: Some(concat3("object(", name.as_str(), ")")),
                                        actual_type: Some(value.kind_name().to_owned()),
                                    },
                                );
                            },
                        }
                    },
                    CfgppValue::Enum(text) => {
                        if self.enum_values(name.as_str()).is_some() {
                            self.validate_enum(value, text, name, path, errors);
                        } else {
                            report_mismatch(errors, value, type_def, path);
                        }
                    },
                    _ => {
                        report_mismatch(errors, value, type_def, path);
                    },
                }
            },
            TypeDefinition::Enum(name) => {
                match value {
                    CfgppValue::Enum(text) => {
                        self.validate_enum(value, text, name, path, errors);
                    },
                    _ => {
                        report_mismatch(errors, value, type_def, path);
                    },
                }
            },
            TypeDefinition::Union(types) => {
                proof {
                    lemma_union_view(*types);
                }
                let ghost all = types_view(types@);
                let mut i: usize = 0;
                let mut accepted = false;
                while i < types.len() && !accepted
                    invariant
                        i <= types@.len(),
                        all == types_view(types@),
                        type_def@ == TypeModel::Union(all),
                        accepted ==> member_accepts(self@, value@, all, path@, 0),
                        !accepted ==> member_accepts(self@, value@, all, path@, 0)
                            == member_accepts(self@, value@, all, path@, i as nat),
                    decreases types@.len() - i,
                {
                    let mut findings: Vec<ValidationError> = Vec::new();
                    assert(violations_view(findings@) =~= Seq::empty());
                    proof {
                        assert(decreases_to!(type_def@ => type_def@->Union_0));
                        assert(decreases_to!(all => all[i as int]));
                        assert(all[i as int] == types@[i as int]@);
                    }
                    self.validate_type(value, &types[i], path, &mut findings);
                    assert(violations_view(findings@) =~= validate_type_spec(
                        self@,
                        value@,
                        all[i as int],
                        path@,
                    ));
                    if findings.len() == 0 {
                        accepted = true;
                    }
                    i = i + 1;
                }
                if !accepted {
                    let listed = types_description(types);
                    report(
                        errors,
                        ValidationError {
                            path: path.to_owned(),
                            message: concat3(
                                "Value does not match any type in union: ",
                                listed.as_str(),
                                "",
                            ),
                            expected_type: Some(concat3("union(", listed.as_str(), ")")),
                            actual_type: Some(value.kind_name().to_owned()),
                        },
                    );
                    assert("Value does not match any type in union: "@ + listed@ + ""@
                        =~= "Value does not match any type in union: "@ + listed@) by {
                        reveal_strlit("");
                    }
                }
            },
            TypeDefinition::Optional(inner) => {
                if !value.is_null() {
                    proof {
                        assert(decreases_to!(type_def@ => type_def@->Optional_0));
                    }
                    self.validate_type(value, inner, path, errors);
                }
            },
        }
    }

    /// Walks a value without asking anything of it: every array and object is
    /// gone through, and nothing is found.
    fn validate_inferred(&self, value: &CfgppValue, path: &str, errors: &mut Vec<ValidationError>)
        ensures
            final(errors)@ == old(errors)@,
        decreases value@,
    {
        match value {
            CfgppValue::Object(entries) => {
                proof {
                    lemma_object_view(*entries);
                }
                let mut i: usize = 0;
                while i < entries.len()
                    invariant
                        i <= entries@.len(),
                        value@ == ValueModel::Object(entries_view(entries@)),
                        errors@ == old(errors)@,
                    decreases entries@.len() - i,
                {
                    let at = field_path(path, entries[i].0.as_str());
                    proof {
                        let all = entries_view(entries@);
                        assert(decreases_to!(value@ => value@->Object_0));
                        assert(decreases_to!(all => all[i as int]));
                        assert(decreases_to!(all[i as int] => all[i as int].1));
                        assert(all[i as int].1 == entries@[i as int].1@);
                    }
                    self.validate_inferred(&entries[i].1, at.as_str(), errors);
                    i = i + 1;
                }
            },
            CfgppValue::Array(items) => {
                proof {
                    lemma_array_view(*items);
                }
                let mut i: usize = 0;
                while i < items.len()
                    invariant
                        i <= items@.len(),
                        value@ == ValueModel::Array(values_view(items@)),
                        errors@ == old(errors)@,
                    decreases items@.len() - i,
                {
                    let at = element_path(path, i);
                    proof {
                        let all = values_view(items@);
                        assert(decreases_to!(value@ => value@->Array_0));
                        assert(decreases_to!(all => all[i as int]));
                        assert(all[i as int] == items@[i as int]@);
                    }
                    self.validate_inferred(&items[i], at.as_str(), errors);
                    i = i + 1;
                }
            },
            _ => {},
        }
    }

    /// Validates `value` against the schema and gives every finding, in the
    /// order in which the tree is walked. A schema without root type accepts
    /// every value.
    pub fn validate(&self, value: &CfgppValue) -> (r: Result<(), Vec<ValidationError>>)
        ensures
            match r {
                Ok(_) => validate_spec(self@, value@).len() == 0,
                Err(errors) => errors@.len() > 0 && violations_view(errors@) == validate_spec(
                    self@,
                    value@,
                ),
            },
    {
        let mut errors: Vec<ValidationError> = Vec::new();
        assert(violations_view(errors@) =~= Seq::empty());
        match self.root_schema() {
            Some(root) => {
                self.validate_type(value, root, "", &mut errors);
                proof {
                    reveal_strlit("");
                    assert(""@ =~= Seq::<char>::empty());
                    assert(violations_view(errors@) =~= validate_spec(self@, value@));
                }
            },
            None => {
                self.validate_inferred(value, "", &mut errors);
            },
        }
        if errors.len() == 0 {
            Ok(())
        } else {
            Err(errors)
        }
    }

    /// Validates `value` as the value of a field at `path`: against the
    /// field's type and, where the type finds nothing, against the field's
    /// constraints.
    pub fn validate_field(&self, value: &CfgppValue, field_def: &FieldDefinition, path: &str) -> (r:
        Result<(), Vec<ValidationError>>)
        ensures
            match r {
                Ok(_) => field_value_spec(self@, value@, field_def@, path@).len() == 0,
                Err(errors) => errors@.len() > 0 && violations_view(errors@) == field_value_spec(
                    self@,
                    value@,
                    field_def@,
                    path@,
                ),
            },
    {
        let mut errors: Vec<ValidationError> = Vec::new();
        assert(violations_view(errors@) =~= Seq::empty());
        self.validate_field_value(value, field_def, path, &mut errors);
        assert(violations_view(errors@) =~= field_value_spec(self@, value@, field_def@, path@));
        if errors.len() == 0 {
            Ok(())
        } else {
            Err(errors)
        }
    }
}

} // verus!
