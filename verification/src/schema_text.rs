//! The text form of a schema: enum and object definitions, line by line.

use vstd::prelude::*;
use vstd::string::*;
use crate::error::{CfgppError, CfgppResult, ErrorModel};
use crate::schema::{
    fields_view,
    names_view,
    FieldDefinition,
    FieldModel,
    FieldModels,
    Schema,
    SchemaModel,
    TypeDefinition,
    TypeModel,
};
use crate::text::{
    chars_equal,
    chars_of,
    chars_start_with,
    contains_char,
    find_char,
    index_of,
    lemma_drop_trailing_whitespace,
    lemma_skip_whitespace,
    slice_of,
    split,
    split_chars,
    starts_with,
    string_of,
    trim,
    trimmed,
    views,
};

verus! {

/// The end of `s[..to]` once the characters `c` at its end are dropped.
pub open spec fn drop_trailing(s: Seq<char>, c: char, to: int) -> int
    decreases to,
{
    if 0 < to <= s.len() && s[to - 1] == c {
        drop_trailing(s, c, to - 1)
    } else {
        to
    }
}

/// `s` without the characters `c` at its end.
pub open spec fn without_trailing(s: Seq<char>, c: char) -> Seq<char> {
    s.subrange(0, drop_trailing(s, c, s.len() as int))
}

pub proof fn lemma_drop_trailing(s: Seq<char>, c: char, to: int)
    requires
        0 <= to <= s.len(),
    ensures
        0 <= drop_trailing(s, c, to) <= to,
    decreases to,
{
    if 0 < to && s[to - 1] == c {
        lemma_drop_trailing(s, c, to - 1);
    }
}

/// Trimming makes a text no longer.
pub proof fn lemma_trimmed_len(s: Seq<char>)
    ensures
        trimmed(s).len() <= s.len(),
{
    lemma_skip_whitespace(s, 0);
    lemma_drop_trailing_whitespace(s, s.len() as int);
}

/// The type that a type text stands for: one of the five primitive names,
/// `array<T>`, `optional<T>`, or else a reference by name. Blanks around the
/// text do not count.
pub open spec fn type_of_text(s: Seq<char>) -> TypeModel
    decreases s.len(),
    via type_of_text_decreases
{
    let t = trimmed(s);
    if t == "null"@ {
        TypeModel::Null
    } else if t == "boolean"@ {
        TypeModel::Boolean
    } else if t == "integer"@ {
        TypeModel::Integer
    } else if t == "double"@ {
        TypeModel::Double
    } else if t == "string"@ {
        TypeModel::Str
    } else if t.len() >= 7 && starts_with(t, "array<"@) && t.last() == '>' {
        TypeModel::Array(Box::new(type_of_text(t.subrange(6, t.len() - 1))))
    } else if t.len() >= 10 && starts_with(t, "optional<"@) && t.last() == '>' {
        TypeModel::Optional(Box::new(type_of_text(t.subrange(9, t.len() - 1))))
    } else {
        TypeModel::Object(t)
    }
}

#[via_fn]
proof fn type_of_text_decreases(s: Seq<char>) {
    lemma_trimmed_len(s);
}

/// The items of a list: the pieces from `i` on, trimmed, without the empty
/// ones.
pub open spec fn list_items(parts: Seq<Seq<char>>, i: int) -> Seq<Seq<char>>
    decreases parts.len() - i,
{
    if i < 0 || i >= parts.len() {
        Seq::empty()
    } else {
        let item = trimmed(parts[i]);
        let here = if item.len() > 0 {
            seq![item]
        } else {
            Seq::empty()
        };
        here + list_items(parts, i + 1)
    }
}

/// The values that a comma-separated list names.
pub open spec fn enum_values(s: Seq<char>) -> Seq<Seq<char>> {
    list_items(split(s, ','), 0)
}

/// Whether a line of a definition's body is passed over: an empty line or a
/// `//` comment.
pub open spec fn is_blank_or_comment(line: Seq<char>) -> bool {
    line.len() == 0 || starts_with(line, "//"@)
}

/// The values on the lines from `j` on up to the line that holds `}`, and the
/// number of those lines. What stands on the closing line is not looked at.
pub open spec fn enum_body(lines: Seq<Seq<char>>, j: int) -> (Seq<Seq<char>>, nat)
    decreases lines.len() - j,
{
    if j < 0 || j >= lines.len() {
        (Seq::empty(), 0nat)
    } else {
        let line = trimmed(lines[j]);
        if contains_char(line, '}') {
            (Seq::empty(), 0nat)
        } else {
            let (rest, n) = enum_body(lines, j + 1);
            let here = if is_blank_or_comment(line) {
                Seq::empty()
            } else {
                enum_values(line)
            };
            (here + rest, n + 1)
        }
    }
}

/// The error for a line that starts an enum definition and has no `{`.
pub open spec fn invalid_enum() -> ErrorModel {
    ErrorModel::ParseError { message: "Invalid enum definition"@ }
}

/// The enum definition that starts on line `i`: its name, its values, and the
/// number of lines that it takes after its first. A `}` behind the `{` on the
/// first line closes the definition there; else the values stand on the lines
/// that follow, up to the line that holds `}`.
pub open spec fn enum_definition(lines: Seq<Seq<char>>, i: int) -> Result<
    (Seq<char>, Seq<Seq<char>>, nat),
    ErrorModel,
> {
    let first = trimmed(lines[i]);
    if first.len() < 5 || !starts_with(first, "enum "@) {
        Err(invalid_enum())
    } else {
        let after = first.subrange(5, first.len() as int);
        let open = index_of(after, '{', 0);
        if open >= after.len() {
            Err(invalid_enum())
        } else {
            let name = trimmed(after.subrange(0, open));
            let close = index_of(after, '}', open + 1);
            if close < after.len() {
                Ok((name, enum_values(after.subrange(open + 1, close)), 0nat))
            } else {
                let (values, n) = enum_body(lines, i + 1);
                Ok((name, values, n + 1))
            }
        }
    }
}

/// A required field of the given type, without default and without
/// constraints: what the text form declares.
pub open spec fn declared_field(ty: TypeModel) -> FieldModel {
    FieldModel { field_type: ty, required: true, default_value: None, constraints: Seq::empty() }
}

/// The first index at or after `from` whose field has the name `name`, or
/// `fields.len()`.
pub open spec fn field_index(fields: FieldModels, name: Seq<char>, from: int) -> int
    decreases fields.len() - from,
{
    if 0 <= from < fields.len() {
        if fields[from].0 == name {
            from
        } else {
            field_index(fields, name, from + 1)
        }
    } else {
        fields.len() as int
    }
}

/// The fields after `name` has been declared: a field of that name is
/// replaced in its place, a new one goes to the end.
pub open spec fn fields_insert(fields: FieldModels, name: Seq<char>, field: FieldModel) -> FieldModels {
    let i = field_index(fields, name, 0);
    if 0 <= i < fields.len() {
        fields.update(i, (name, field))
    } else {
        fields.push((name, field))
    }
}

/// The fields after the line `line` of an object definition's body: a line
/// that holds `:` declares the field named before the first `:` with the type
/// written behind it, up to the semicolons at the end; any other line
/// declares nothing.
pub open spec fn field_line(fields: FieldModels, line: Seq<char>) -> FieldModels {
    if is_blank_or_comment(line) || !contains_char(line, ':') {
        fields
    } else {
        let colon = index_of(line, ':', 0);
        let name = trimmed(line.subrange(0, colon));
        let type_text = without_trailing(trimmed(line.subrange(colon + 1, line.len() as int)), ';');
        fields_insert(fields, name, declared_field(type_of_text(type_text)))
    }
}

/// The fields declared on the lines from `j` on up to the line that holds
/// `}`, added to `acc`, and the number of those lines.
pub open spec fn object_body(lines: Seq<Seq<char>>, j: int, acc: FieldModels) -> (FieldModels, nat)
    decreases lines.len() - j,
{
    if j < 0 || j >= lines.len() {
        (acc, 0nat)
    } else {
        let line = trimmed(lines[j]);
        if contains_char(line, '}') {
            (acc, 0nat)
        } else {
            let (fields, n) = object_body(lines, j + 1, field_line(acc, line));
            (fields, n + 1)
        }
    }
}

/// The object definition that starts on line `i`, which holds `{`: its name,
/// its fields, and the number of lines that it takes after its first. The
/// fields stand on the lines that follow, up to the line that holds `}`.
pub open spec fn object_definition(lines: Seq<Seq<char>>, i: int) -> (Seq<char>, FieldModels, nat) {
    let first = trimmed(lines[i]);
    let open = index_of(first, '{', 0);
    let (fields, n) = object_body(lines, i + 1, Seq::empty());
    (trimmed(first.subrange(0, open)), fields, n + 1)
}

/// The schema after the definitions on the lines from `i` on have been added
/// to `acc`. Empty lines and lines that start with `//` or `#` are passed
/// over, and so is any line that starts no definition.
pub open spec fn schema_lines(lines: Seq<Seq<char>>, i: int, acc: SchemaModel) -> Result<
    SchemaModel,
    ErrorModel,
>
    decreases
        (if i <= lines.len() {
            lines.len() - i
        } else {
            0
        }),
{
    if i < 0 || i >= lines.len() {
        Ok(acc)
    } else {
        let line = trimmed(lines[i]);
        if line.len() == 0 || starts_with(line, "//"@) || starts_with(line, "#"@) {
            schema_lines(lines, i + 1, acc)
        } else if starts_with(line, "enum "@) {
            match enum_definition(lines, i) {
                Err(e) => Err(e),
                Ok((name, values, more)) => schema_lines(
                    lines,
                    i + 1 + more,
                    SchemaModel { enums: acc.enums.push((name, values)), ..acc },
                ),
            }
        } else if contains_char(line, '{') && !starts_with(line, "enum"@) {
            let (name, fields, more) = object_definition(lines, i);
            schema_lines(
                lines,
                i + 1 + more,
                SchemaModel { objects: acc.objects.push((name, fields)), ..acc },
            )
        } else {
            schema_lines(lines, i + 1, acc)
        }
    }
}

/// The schema that a schema text defines, or the first error.
pub open spec fn parse_schema_spec(text: Seq<char>) -> Result<SchemaModel, ErrorModel> {
    schema_lines(
        split(text, '\n'),
        0,
        SchemaModel { enums: Seq::empty(), objects: Seq::empty(), root: None },
    )
}

/// The end of `chars` once the characters `c` at its end are dropped.
fn chars_without_trailing(chars: &Vec<char>, c: char) -> (v: Vec<char>)
    ensures
        v@ == without_trailing(chars@, c),
{
    let n = chars.len();
    let mut to: usize = n;
    while to > 0 && chars[to - 1] == c
        invariant
            to <= n,
            n == chars@.len(),
            drop_trailing(chars@, c, n as int) == drop_trailing(chars@, c, to as int),
        decreases to,
    {
        to = to - 1;
    }
    slice_of(chars, 0, to)
}

/// The type that a type text stands for.
fn parse_type_definition(text: &Vec<char>) -> (ty: TypeDefinition)
    ensures
        ty@ == type_of_text(text@),
    decreases text@.len(),
{
    let t = trim(text);
    let n = t.len();
    proof {
        lemma_trimmed_len(text@);
        reveal_strlit("array<");
        reveal_strlit("optional<");
    }
    if chars_equal(&t, "null") {
        TypeDefinition::Null
    } else if chars_equal(&t, "boolean") {
        TypeDefinition::Boolean
    } else if chars_equal(&t, "integer") {
        TypeDefinition::Integer
    } else if chars_equal(&t, "double") {
        TypeDefinition::Double
    } else if chars_equal(&t, "string") {
        TypeDefinition::String
    } else if n >= 7 && chars_start_with(&t, "array<") && t[n - 1] == '>' {
        let inner = slice_of(&t, 6, n - 1);
        TypeDefinition::Array(Box::new(parse_type_definition(&inner)))
    } else if n >= 10 && chars_start_with(&t, "optional<") && t[n - 1] == '>' {
        let inner = slice_of(&t, 9, n - 1);
        TypeDefinition::Optional(Box::new(parse_type_definition(&inner)))
    } else {
        assert(t@.subrange(0, n as int) == t@);
        TypeDefinition::Object(string_of(&t, 0, n))
    }
}

/// The values that a comma-separated list names, added to `values`.
fn push_enum_values(values: &mut Vec<String>, list: &Vec<char>)
    ensures
        names_view(final(values)@) == names_view(old(values)@) + enum_values(list@),
{
    let parts = split_chars(list, ',');
    let ghost all = views(parts@);
    let ghost before = names_view(values@);
    let mut i: usize = 0;
    while i < parts.len()
        invariant
            i <= parts@.len(),
            all == views(parts@),
            before + list_items(all, 0) == names_view(values@) + list_items(all, i as int),
        decreases parts@.len() - i,
    {
        let ghost so_far = names_view(values@);
        let ghost rest = list_items(all, i + 1);
        let item = trim(&parts[i]);
        if item.len() > 0 {
            assert(item@.subrange(0, item@.len() as int) == item@);
            values.push(string_of(&item, 0, item.len()));
            assert(names_view(values@) =~= so_far + seq![item@]);
            assert(so_far + (seq![item@] + rest) =~= names_view(values@) + rest);
        } else {
            assert(so_far + (Seq::<Seq<char>>::empty() + rest) =~= so_far + rest);
        }
        i = i + 1;
    }
    assert(names_view(values@) + Seq::<Seq<char>>::empty() =~= names_view(values@));
}

/// Whether a line of a definition's body is passed over.
fn blank_or_comment(line: &Vec<char>) -> (r: bool)
    ensures
        r == is_blank_or_comment(line@),
{
    line.len() == 0 || chars_start_with(line, "//")
}

/// Declares the field `name` in `fields`.
fn insert_field(fields: &mut Vec<(String, FieldDefinition)>, name: String, field: FieldDefinition)
    ensures
        fields_view(final(fields)@) == fields_insert(fields_view(old(fields)@), name@, field@),
{
    let ghost all = fields_view(fields@);
    let mut i: usize = 0;
    while i < fields.len()
        invariant
            i <= fields@.len(),
            fields@ == old(fields)@,
            all == fields_view(fields@),
            field_index(all, name@, 0) == field_index(all, name@, i as int),
        decreases fields@.len() - i,
    {
        if fields[i].0 == name {
            fields.set(i, (name, field));
            assert(fields_view(fields@) =~= fields_insert(all, name@, field@));
            return ;
        }
        i = i + 1;
    }
    fields.push((name, field));
    assert(fields_view(fields@) =~= fields_insert(all, name@, field@));
}

/// Declares in `fields` what the line `line` of an object definition's body
/// declares.
fn apply_field_line(fields: &mut Vec<(String, FieldDefinition)>, line: &Vec<char>)
    ensures
        fields_view(final(fields)@) == field_line(fields_view(old(fields)@), line@),
{
    if blank_or_comment(line) {
        return ;
    }
    let n = line.len();
    let colon = find_char(line, ':', 0);
    if colon >= n {
        return ;
    }
    let before = slice_of(line, 0, colon);
    let name = trim(&before);
    let behind = slice_of(line, colon + 1, n);
    let type_text = chars_without_trailing(&trim(&behind), ';');
    let field = FieldDefinition::new(parse_type_definition(&type_text), true);
    assert(name@.subrange(0, name@.len() as int) == name@);
    insert_field(fields, string_of(&name, 0, name.len()), field);
}

impl Schema {
    /// The enum definition that starts on line `i`.
    fn parse_enum_definition(lines: &Vec<Vec<char>>, i: usize) -> (r: CfgppResult<
        (String, Vec<String>, usize),
    >)
        requires
            i < lines@.len(),
        ensures
            match r {
                Ok((name, values, more)) => enum_definition(views(lines@), i as int) == Ok::<
                    (Seq<char>, Seq<Seq<char>>, nat),
                    ErrorModel,
                >((name@, names_view(values@), more as nat)) && i + more <= lines@.len(),
                Err(e) => enum_definition(views(lines@), i as int) == Err::<
                    (Seq<char>, Seq<Seq<char>>, nat),
                    ErrorModel,
                >(e@),
            },
    {
        let ghost all = views(lines@);
        let total = lines.len();
        let first = trim(&lines[i]);
        proof {
            reveal_strlit("enum ");
        }
        if first.len() < 5 || !chars_start_with(&first, "enum ") {
            return Err(CfgppError::parse_error("Invalid enum definition"));
        }
        let after = slice_of(&first, 5, first.len());
        let open = find_char(&after, '{', 0);
        if open >= after.len() {
            return Err(CfgppError::parse_error("Invalid enum definition"));
        }
        let name_chars = trim(&slice_of(&after, 0, open));
        assert(name_chars@.subrange(0, name_chars@.len() as int) == name_chars@);
        let name = string_of(&name_chars, 0, name_chars.len());
        let close = find_char(&after, '}', open + 1);
        let mut values: Vec<String> = Vec::new();
        assert(names_view(values@) =~= Seq::empty());
        if close < after.len() {
            let list = slice_of(&after, open + 1, close);
            push_enum_values(&mut values, &list);
            assert(names_view(values@) =~= enum_values(list@));
            return Ok((name, values, 0));
        }
        let mut j: usize = i + 1;
        loop
            invariant_except_break
                enum_body(all, i + 1) == (
                    names_view(values@) + enum_body(all, j as int).0,
                    (enum_body(all, j as int).1 + (j - i - 1)) as nat,
                ),
            invariant
                i < j <= lines@.len(),
                all == views(lines@),
            ensures
                i < j <= lines@.len(),
                enum_body(all, i + 1) == (names_view(values@), (j - i - 1) as nat),
            decreases lines@.len() - j,
        {
            if j >= lines.len() {
                assert(names_view(values@) + Seq::<Seq<char>>::empty() =~= names_view(values@));
                break ;
            }
            let line = trim(&lines[j]);
            if find_char(&line, '}', 0) < line.len() {
                assert(names_view(values@) + Seq::<Seq<char>>::empty() =~= names_view(values@));
                break ;
            }
            let ghost so_far = names_view(values@);
            let ghost rest = enum_body(all, j + 1).0;
            if !blank_or_comment(&line) {
                push_enum_values(&mut values, &line);
                assert(so_far + (enum_values(line@) + rest) =~= names_view(values@) + rest);
            } else {
                assert(so_far + (Seq::<Seq<char>>::empty() + rest) =~= so_far + rest);
            }
            j = j + 1;
        }
        Ok((name, values, j - i))
    }

    /// The object definition that starts on line `i`.
    fn parse_object_schema(lines: &Vec<Vec<char>>, i: usize) -> (r: (
        String,
        Vec<(String, FieldDefinition)>,
        usize,
    ))
        requires
            i < lines@.len(),
        ensures
            object_definition(views(lines@), i as int) == (
                r.0@,
                fields_view(r.1@),
                r.2 as nat,
            ),
            i + r.2 <= lines@.len(),
    {
        let ghost all = views(lines@);
        let total = lines.len();
        let first = trim(&lines[i]);
        let open = find_char(&first, '{', 0);
        let name_chars = trim(&slice_of(&first, 0, open));
        assert(name_chars@.subrange(0, name_chars@.len() as int) == name_chars@);
        let name = string_of(&name_chars, 0, name_chars.len());
        let mut fields: Vec<(String, FieldDefinition)> = Vec::new();
        assert(fields_view(fields@) =~= Seq::empty());
        let mut j: usize = i + 1;
        loop
            invariant_except_break
                object_body(all, i + 1, Seq::empty()) == (
                    object_body(all, j as int, fields_view(fields@)).0,
                    (object_body(all, j as int, fields_view(fields@)).1 + (j - i - 1)) as nat,
                ),
            invariant
                i < j <= lines@.len(),
                all == views(lines@),
            ensures
                i < j <= lines@.len(),
                object_body(all, i + 1, Seq::empty()) == (fields_view(fields@), (j - i - 1) as nat),
            decreases lines@.len() - j,
        {
            if j >= lines.len() {
                break ;
            }
            let line = trim(&lines[j]);
            if find_char(&line, '}', 0) < line.len() {
                break ;
            }
            apply_field_line(&mut fields, &line);
            j = j + 1;
        }
        (name, fields, j - i)
    }

    /// Reads a schema from its text form: `enum Name { a, b }` defines an
    /// enum, `Name {` followed by lines `field: type;` and a line with `}`
    /// defines an object. A schema that was read has no root type.
    pub fn parse(schema_text: &str) -> (r: CfgppResult<Schema>)
        ensures
            match r {
                Ok(schema) => parse_schema_spec(schema_text@) == Ok::<SchemaModel, ErrorModel>(
                    schema@,
                ),
                Err(e) => parse_schema_spec(schema_text@) == Err::<SchemaModel, ErrorModel>(e@),
            },
    {
        let chars = chars_of(schema_text);
        let lines = split_chars(&chars, '\n');
        let ghost all = views(lines@);
        let mut schema = Schema::new();
        let ghost empty = schema@;
        let mut i: usize = 0;
        while i < lines.len()
            invariant
                i <= lines@.len(),
                all == views(lines@),
                all == split(schema_text@, '\n'),
                empty == (SchemaModel { enums: Seq::empty(), objects: Seq::empty(), root: None }),
                schema_lines(all, 0, empty) == schema_lines(all, i as int, schema@),
            decreases lines@.len() - i,
        {
            let line = trim(&lines[i]);
            let ghost at = i as int;
            let ghost acc = schema@;
            assert(line@ == trimmed(all[at]));
            if line.len() == 0 || chars_start_with(&line, "//") || chars_start_with(&line, "#") {
                i = i + 1;
            } else if chars_start_with(&line, "enum ") {
                match Self::parse_enum_definition(&lines, i) {
                    Err(e) => {
                        assert(schema_lines(all, at, acc) == Err::<SchemaModel, ErrorModel>(e@));
                        return Err(e);
                    },
                    Ok((name, values, more)) => {
                        schema.add_enum(name, values);
                        assert(schema_lines(all, at, acc) == schema_lines(
                            all,
                            at + 1 + more,
                            schema@,
                        ));
                        if more < lines.len() - i {
                            i = i + 1 + more;
                        } else {
                            assert(schema_lines(all, at + 1 + more, schema@) == Ok::<
                                SchemaModel,
                                ErrorModel,
                            >(schema@));
                            i = lines.len();
                            assert(schema_lines(all, i as int, schema@) == Ok::<
                                SchemaModel,
                                ErrorModel,
                            >(schema@));
                        }
                    },
                }
            } else if find_char(&line, '{', 0) < line.len() && !chars_start_with(&line, "enum") {
                let (name, fields, more) = Self::parse_object_schema(&lines, i);
                schema.add_object_schema(name, fields);
                assert(schema_lines(all, at, acc) == schema_lines(all, at + 1 + more, schema@));
                if more < lines.len() - i {
                    i = i + 1 + more;
                } else {
                    assert(schema_lines(all, at + 1 + more, schema@) == Ok::<
                        SchemaModel,
                        ErrorModel,
                    >(schema@));
                    i = lines.len();
                    assert(schema_lines(all, i as int, schema@) == Ok::<SchemaModel, ErrorModel>(
                        schema@,
                    ));
                }
            } else {
                i = i + 1;
            }
        }
        Ok(schema)
    }
}

} // verus!
