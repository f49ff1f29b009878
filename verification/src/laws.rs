//! Laws that relate the parts of the library to one another.

use vstd::prelude::*;
use crate::error::ErrorModel;
use crate::lexer::{
    lex,
    punctuation_kind,
    scan_at,
    scan_from,
    Scan,
    TokenModel,
    TokenType,
};
use crate::parser::{
    depth_exceeded,
    merge_from,
    parse_elements_spec,
    parse_fields_spec,
    parse_include_spec,
    parse_spec,
    parse_value_spec,
    ParseEnv,
};
use crate::schema::{FieldModels, SchemaModel, TypeModel, ViolationModel};
use crate::text::{
    all_digits,
    contains_char,
    decimal_digits,
    decimal_value,
    digit_char,
    digit_value,
    index_of,
    is_digit,
    skip_whitespace,
    lemma_index_of,
    lookup,
    split,
    split_from,
};
use crate::validate::{
    declared_spec,
    member_accepts,
    undeclared_spec,
    unexpected_field,
    union_mismatch,
    validate_type_spec,
};
use crate::value::{
    bracket_index,
    entries_get,
    entries_insert,
    entries_insert_all,
    entry_index,
    lemma_entry_index,
    lemma_insert_unique,
    unique_keys,
    Entries,
    ValueModel,
};

verus! {

/// A union accepts a value exactly if one of its members accepts it without
/// finding.
pub proof fn lemma_member_accepts(
    schema: SchemaModel,
    value: ValueModel,
    types: Seq<TypeModel>,
    path: Seq<char>,
    from: nat,
)
    ensures
        member_accepts(schema, value, types, path, from) <==> exists|i: int|
            from <= i < types.len() && (#[trigger] validate_type_spec(
                schema,
                value,
                types[i],
                path,
            )).len() == 0,
    decreases types.len() - from,
{
    if from < types.len() {
        lemma_member_accepts(schema, value, types, path, from + 1);
        if validate_type_spec(schema, value, types[from as int], path).len() == 0 {
            assert(from <= from < types.len() && validate_type_spec(
                schema,
                value,
                types[from as int],
                path,
            ).len() == 0);
        }
    }
}

/// Validation against a union finds nothing where a member accepts the value,
/// and else gives exactly one finding, which names the union: what the members
/// found is not passed on.
pub proof fn lemma_union_validation(
    schema: SchemaModel,
    value: ValueModel,
    types: Seq<TypeModel>,
    path: Seq<char>,
)
    ensures
        (exists|i: int|
            0 <= i < types.len() && (#[trigger] validate_type_spec(
                schema,
                value,
                types[i],
                path,
            )).len() == 0) ==> validate_type_spec(schema, value, TypeModel::Union(types), path)
            == Seq::<ViolationModel>::empty(),
        !(exists|i: int|
            0 <= i < types.len() && (#[trigger] validate_type_spec(
                schema,
                value,
                types[i],
                path,
            )).len() == 0) ==> validate_type_spec(schema, value, TypeModel::Union(types), path)
            == seq![union_mismatch(value, types, path)],
{
    lemma_member_accepts(schema, value, types, path, 0);
}

/// A union of string and integer accepts every string and every integer, and
/// gives exactly one finding for a value of any other kind.
pub proof fn lemma_union_of_string_and_integer(schema: SchemaModel, value: ValueModel, path: Seq<char>)
    ensures
        (value is Str || value is Integer) ==> validate_type_spec(
            schema,
            value,
            TypeModel::Union(seq![TypeModel::Str, TypeModel::Integer]),
            path,
        ).len() == 0,
        !(value is Str || value is Integer) ==> validate_type_spec(
            schema,
            value,
            TypeModel::Union(seq![TypeModel::Str, TypeModel::Integer]),
            path,
        ).len() == 1,
{
    let types = seq![TypeModel::Str, TypeModel::Integer];
    lemma_member_accepts(schema, value, types, path, 0);
    if value is Str {
        assert(validate_type_spec(schema, value, types[0], path).len() == 0);
    } else if value is Integer {
        assert(validate_type_spec(schema, value, types[1], path).len() == 0);
    } else {
        assert forall|i: int| 0 <= i < types.len() implies (#[trigger] validate_type_spec(
            schema,
            value,
            types[i],
            path,
        )).len() != 0 by {
            if i == 0 {
                assert(types[i] == TypeModel::Str);
            } else {
                assert(types[i] == TypeModel::Integer);
            }
        }
    }
}

/// An entry whose key the definition does not declare is among the findings
/// for the undeclared entries.
pub proof fn lemma_undeclared_found(
    entries: Entries,
    fields: FieldModels,
    path: Seq<char>,
    from: int,
    at: int,
)
    requires
        0 <= from <= at < entries.len(),
        lookup(fields, entries[at].0) is None,
    ensures
        undeclared_spec(entries, fields, path, from).contains(
            unexpected_field(entries[at].0, entries[at].1, path),
        ),
    decreases at - from,
{
    let wanted = unexpected_field(entries[at].0, entries[at].1, path);
    let rest = undeclared_spec(entries, fields, path, from + 1);
    let here = if lookup(fields, entries[from].0) is None {
        seq![unexpected_field(entries[from].0, entries[from].1, path)]
    } else {
        Seq::empty()
    };
    assert(undeclared_spec(entries, fields, path, from) == here + rest);
    if from == at {
        assert((here + rest)[0] == wanted);
    } else {
        lemma_undeclared_found(entries, fields, path, from + 1, at);
        let k = choose|k: int| 0 <= k < rest.len() && rest[k] == wanted;
        assert((here + rest)[here.len() + k] == wanted);
    }
}

/// Object definitions are closed: an entry of an object under a key that the
/// referenced definition does not declare gives an unexpected-field finding,
/// whatever the object's other entries are.
pub proof fn lemma_undeclared_field_is_reported(
    schema: SchemaModel,
    entries: Entries,
    name: Seq<char>,
    path: Seq<char>,
    at: int,
)
    requires
        lookup(schema.objects, name) is Some,
        0 <= at < entries.len(),
        lookup(lookup(schema.objects, name)->0, entries[at].0) is None,
    ensures
        validate_type_spec(schema, ValueModel::Object(entries), TypeModel::Object(name), path).contains(
            unexpected_field(entries[at].0, entries[at].1, path),
        ),
{
    let fields = lookup(schema.objects, name)->0;
    let declared = declared_spec(schema, entries, fields, path, 0);
    let undeclared = undeclared_spec(entries, fields, path, 0);
    let wanted = unexpected_field(entries[at].0, entries[at].1, path);
    lemma_undeclared_found(entries, fields, path, 0, at);
    let k = choose|k: int| 0 <= k < undeclared.len() && undeclared[k] == wanted;
    assert((declared + undeclared)[declared.len() + k] == wanted);
}

/// A chain of files: each file but the last is an include of the next, and
/// the last file parses to a value at every depth.
pub open spec fn include_chain(env: ParseEnv, names: Seq<Seq<char>>) -> bool {
    &&& names.len() >= 1
    &&& forall|k: int|
        0 <= k < names.len() ==> lookup(env.files, #[trigger] names[k]) is Some && lex(
            lookup(env.files, names[k])->0,
        ) is Ok
    &&& forall|k: int|
        0 <= k < names.len() - 1 ==> is_include_of(
            lex(lookup(env.files, #[trigger] names[k])->0)->Ok_0,
            names[k + 1],
        )
    &&& forall|depth: nat| #[trigger]
        parse_value_spec(
            env,
            lex(lookup(env.files, names[names.len() - 1])->0)->Ok_0,
            0,
            depth,
        ) is Ok
}

/// The tokens start with an include directive that names `path`.
pub open spec fn is_include_of(tokens: Seq<TokenModel>, path: Seq<char>) -> bool {
    &&& tokens.len() >= 2
    &&& (tokens[0].kind == TokenType::Include || tokens[0].kind == TokenType::Import)
    &&& tokens[1].kind == TokenType::String
    &&& tokens[1].lexeme == path
}

/// Including the file `names[from]` at `depth` succeeds exactly if the rest of
/// the chain fits under the depth limit, and else fails with the include error
/// that names the limit.
pub proof fn lemma_include_chain_from(
    env: ParseEnv,
    names: Seq<Seq<char>>,
    tokens: Seq<TokenModel>,
    depth: nat,
    from: int,
)
    requires
        env.process_includes,
        include_chain(env, names),
        0 <= from < names.len(),
        is_include_of(tokens, names[from]),
    ensures
        depth + (names.len() - from) <= env.max_include_depth ==> parse_value_spec(
            env,
            tokens,
            0,
            depth,
        ) is Ok,
        depth + (names.len() - from) > env.max_include_depth ==> parse_value_spec(
            env,
            tokens,
            0,
            depth,
        ) == Err::<(ValueModel, nat), ErrorModel>(depth_exceeded(env.max_include_depth)),
    decreases names.len() - from,
{
    assert(parse_value_spec(env, tokens, 0, depth) == parse_include_spec(env, tokens, 0, depth));
    if depth < env.max_include_depth {
        let content = lookup(env.files, names[from])->0;
        let inner = lex(content)->Ok_0;
        if from < names.len() - 1 {
            lemma_include_chain_from(env, names, inner, depth + 1, from + 1);
        } else {
            assert(parse_value_spec(env, inner, 0, depth + 1) is Ok);
        }
    }
}

/// The include depth limit: a source that includes the first file of a chain
/// of `names.len()` files, each of which includes the next, parses exactly if
/// the length of the chain is at most the limit, and else fails with an
/// include error.
pub proof fn lemma_include_depth_limit(env: ParseEnv, names: Seq<Seq<char>>, tokens: Seq<TokenModel>)
    requires
        env.process_includes,
        include_chain(env, names),
        is_include_of(tokens, names[0]),
    ensures
        names.len() <= env.max_include_depth ==> parse_value_spec(env, tokens, 0, 0) is Ok,
        names.len() > env.max_include_depth ==> parse_value_spec(env, tokens, 0, 0) is Err
            && parse_value_spec(env, tokens, 0, 0)->Err_0 is IncludeError,
{
    lemma_include_chain_from(env, names, tokens, 0, 0);
}

/// A text in which `c` does not occur is its own single piece.
pub proof fn lemma_split_single(s: Seq<char>, c: char)
    requires
        !contains_char(s, c),
    ensures
        split(s, c) == seq![s],
{
    lemma_index_of(s, c, 0);
    assert(s.subrange(0, s.len() as int) == s);
}

/// Where `c` occurs nowhere in `s`, the search for it runs to the end.
pub proof fn lemma_absent(s: Seq<char>, c: char)
    requires
        forall|k: int| 0 <= k < s.len() ==> s[k] != c,
    ensures
        !contains_char(s, c),
{
    lemma_index_of(s, c, 0);
}

/// A path that is one plain key leads to the entry under that key.
pub proof fn lemma_get_path_key(value: ValueModel, key: Seq<char>)
    requires
        !contains_char(key, '.'),
        !contains_char(key, '['),
    ensures
        value.get_path(key) == value.get(key),
{
    lemma_split_single(key, '.');
    let parts = seq![key];
    assert(value.path_step(parts[0]) == value.get(key));
    match value.get(key) {
        Some(next) => {
            assert(next.walk(parts, 1) == Some(next));
        },
        None => {},
    }
}

/// The digit that stands for `d` stands for `d`.
pub proof fn lemma_digit_char(d: nat)
    requires
        d < 10,
    ensures
        is_digit(digit_char(d)),
        digit_value(digit_char(d)) == d,
        digit_char(d) != '+',
{
}

/// Reading the decimal numeral of `n` gives `n` back.
pub proof fn lemma_decimal_roundtrip(n: nat)
    ensures
        decimal_digits(n).len() > 0,
        all_digits(decimal_digits(n)),
        decimal_value(decimal_digits(n)) == n,
        decimal_digits(n)[0] != '+',
    decreases n,
{
    if n < 10 {
        lemma_digit_char(n);
        let digits = seq![digit_char(n)];
        assert(digits.drop_last() =~= Seq::<char>::empty());
        assert(decimal_value(digits.drop_last()) == 0);
    } else {
        lemma_decimal_roundtrip(n / 10);
        lemma_digit_char(n % 10);
        let shorter = decimal_digits(n / 10);
        let digits = shorter.push(digit_char(n % 10));
        assert(digits.drop_last() =~= shorter);
        assert(digits[0] == shorter[0]);
        assert forall|i: int| 0 <= i < digits.len() implies is_digit(#[trigger] digits[i]) by {
            if i < shorter.len() {
                assert(digits[i] == shorter[i]);
            }
        }
    }
}

/// A path that is a plain key with an index in brackets leads to the element
/// at that index of the array under that key; without a key, to the element
/// of the value itself.
pub proof fn lemma_get_path_index(value: ValueModel, key: Seq<char>, index: nat)
    requires
        !contains_char(key, '.'),
        !contains_char(key, '['),
        index <= usize::MAX,
    ensures
        value.get_path(key + "["@ + decimal_digits(index) + "]"@) == (if key.len() > 0 {
            match value.get(key) {
                Some(inner) => inner.get_index(index),
                None => None,
            }
        } else {
            value.get_index(index)
        }),
{
    reveal_strlit("[");
    reveal_strlit("]");
    let digits = decimal_digits(index);
    let path = key + "["@ + digits + "]"@;
    lemma_decimal_roundtrip(index);
    lemma_index_of(key, '.', 0);
    lemma_index_of(key, '[', 0);
    assert(path.len() == key.len() + digits.len() + 2);
    assert forall|k: int| 0 <= k < path.len() implies path[k] != '.' by {
        if k < key.len() {
            assert(path[k] == key[k]);
        } else if k == key.len() {
            assert(path[k] == '[');
        } else if k < key.len() + 1 + digits.len() {
            assert(path[k] == digits[k - key.len() - 1]);
        } else {
            assert(path[k] == ']');
        }
    }
    lemma_absent(path, '.');
    lemma_split_single(path, '.');
    lemma_index_of(path, '[', 0);
    let open = index_of(path, '[', 0);
    assert(path[key.len() as int] == '[');
    assert(open == key.len()) by {
        if open < key.len() {
            assert(path[open] == key[open]);
        }
    }
    assert(path.last() == ']');
    assert(path.subrange(0, open) =~= key);
    assert(path.subrange(open + 1, path.len() - 1) =~= digits);
    assert(bracket_index(digits) == Some(index));
    let parts = seq![path];
    let step = value.path_step(parts[0]);
    match step {
        Some(next) => {
            assert(next.walk(parts, 1) == Some(next));
        },
        None => {},
    }
}

/// What was assigned to a key last is what the key leads to, and an
/// assignment leaves what the other keys lead to as it was.
pub proof fn lemma_assignment(entries: Entries, key: Seq<char>, value: ValueModel, other: Seq<char>)
    ensures
        entries_get(entries_insert(entries, key, value), key) == Some(value),
        other != key ==> entries_get(entries_insert(entries, key, value), other) == entries_get(
            entries,
            other,
        ),
{
    let after = entries_insert(entries, key, value);
    lemma_entry_index(entries, key, 0);
    lemma_entry_index(after, key, 0);
    let i = entry_index(entries, key, 0);
    let j = entry_index(after, key, 0);
    if i < entries.len() {
        assert(after[i].0 == key);
        if j < i {
            assert(after[j].0 == entries[j].0);
        }
    } else {
        assert(after[entries.len() as int].0 == key);
        if j < entries.len() {
            assert(after[j] == entries[j]);
        }
    }
    if other != key {
        lemma_entry_index(entries, other, 0);
        lemma_entry_index(after, other, 0);
        let a = entry_index(entries, other, 0);
        let b = entry_index(after, other, 0);
        if a < entries.len() {
            assert(after[a] == entries[a]);
            if b < a {
                assert(after[b].0 == other);
                if b == i {
                } else {
                    assert(after[b] == entries[b]);
                }
            }
        } else {
            if b < after.len() {
                if b < entries.len() && b != i {
                    assert(after[b] == entries[b]);
                }
            }
        }
    }
}

/// The entries hold well-formed values under unique keys.
pub open spec fn entries_wf(entries: Entries) -> bool {
    unique_keys(entries) && forall|i: int|
        0 <= i < entries.len() ==> (#[trigger] entries[i]).1.wf()
}

/// An assignment keeps the entries well formed.
pub proof fn lemma_insert_wf(entries: Entries, key: Seq<char>, value: ValueModel)
    requires
        entries_wf(entries),
        value.wf(),
    ensures
        entries_wf(entries_insert(entries, key, value)),
{
    lemma_insert_unique(entries, key, value);
    lemma_entry_index(entries, key, 0);
    let after = entries_insert(entries, key, value);
    let at = entry_index(entries, key, 0);
    assert forall|i: int| 0 <= i < after.len() implies (#[trigger] after[i]).1.wf() by {
        if i == at {
        } else {
            assert(after[i] == entries[i]);
        }
    }
}

/// Every value that the parser builds is well formed: no object of it holds a
/// key twice.
pub proof fn lemma_parse_value_wf(env: ParseEnv, tokens: Seq<TokenModel>, pos: int, depth: nat)
    ensures
        parse_value_spec(env, tokens, pos, depth) is Ok ==> parse_value_spec(
            env,
            tokens,
            pos,
            depth,
        )->Ok_0.0.wf(),
    decreases
        crate::parser::include_budget(env, depth),
        crate::parser::tokens_left(tokens, pos),
        1nat,
{
    if 0 <= pos < tokens.len() {
        let token = tokens[pos];
        match token.kind {
            TokenType::LeftBrace => {
                lemma_parse_fields_wf(env, tokens, pos + 1, depth, Seq::empty());
            },
            TokenType::LeftBracket => {
                lemma_parse_elements_wf(env, tokens, pos + 1, depth, Seq::empty());
            },
            TokenType::Identifier => {
                if pos + 1 < tokens.len() && tokens[pos + 1].kind == TokenType::LeftBrace {
                    lemma_parse_fields_wf(env, tokens, pos + 2, depth, Seq::empty());
                    let r = parse_fields_spec(env, tokens, pos + 2, depth, Seq::empty());
                    if r is Ok {
                        let outer = seq![(token.lexeme, ValueModel::Object(r->Ok_0.0))];
                        assert(entries_wf(outer));
                    }
                }
            },
            TokenType::Include => {
                lemma_parse_include_wf(env, tokens, pos, depth);
            },
            TokenType::Import => {
                lemma_parse_include_wf(env, tokens, pos, depth);
            },
            _ => {},
        }
    }
}

/// The fields that the parser collects are well formed.
pub proof fn lemma_parse_fields_wf(
    env: ParseEnv,
    tokens: Seq<TokenModel>,
    pos: int,
    depth: nat,
    acc: Entries,
)
    requires
        entries_wf(acc),
    ensures
        parse_fields_spec(env, tokens, pos, depth, acc) is Ok ==> entries_wf(
            parse_fields_spec(env, tokens, pos, depth, acc)->Ok_0.0,
        ),
    decreases
        crate::parser::include_budget(env, depth),
        crate::parser::tokens_left(tokens, pos),
        0nat,
{
    if 0 <= pos < tokens.len() && tokens[pos].kind == TokenType::Identifier && pos + 1
        < tokens.len() && tokens[pos + 1].kind == TokenType::Equals {
        lemma_parse_value_wf(env, tokens, pos + 2, depth);
        match parse_value_spec(env, tokens, pos + 2, depth) {
            Ok((value, more)) => {
                let after = pos + 3 + more;
                let semicolon: nat = if after < tokens.len() && tokens[after].kind
                    == TokenType::Semicolon {
                    1
                } else {
                    0
                };
                let next = if env.syntax_only {
                    acc
                } else {
                    entries_insert(acc, tokens[pos].lexeme, value)
                };
                if !env.syntax_only {
                    lemma_insert_wf(acc, tokens[pos].lexeme, value);
                }
                lemma_parse_fields_wf(env, tokens, after + semicolon, depth, next);
            },
            Err(_) => {},
        }
    }
}

/// The elements that the parser collects are well formed.
pub proof fn lemma_parse_elements_wf(
    env: ParseEnv,
    tokens: Seq<TokenModel>,
    pos: int,
    depth: nat,
    acc: Seq<ValueModel>,
)
    requires
        forall|i: int| 0 <= i < acc.len() ==> (#[trigger] acc[i]).wf(),
    ensures
        parse_elements_spec(env, tokens, pos, depth, acc) is Ok ==> forall|i: int|
            0 <= i < parse_elements_spec(env, tokens, pos, depth, acc)->Ok_0.0.len() ==> (
            #[trigger] parse_elements_spec(env, tokens, pos, depth, acc)->Ok_0.0[i]).wf(),
    decreases
        crate::parser::include_budget(env, depth),
        crate::parser::tokens_left(tokens, pos),
        2nat,
{
    if 0 <= pos < tokens.len() && tokens[pos].kind != TokenType::RightBracket && tokens[pos].kind
        != TokenType::Eof {
        lemma_parse_value_wf(env, tokens, pos, depth);
        match parse_value_spec(env, tokens, pos, depth) {
            Ok((value, more)) => {
                let after = pos + 1 + more;
                let comma: nat = if after < tokens.len() && tokens[after].kind
                    == TokenType::Comma {
                    1
                } else {
                    0
                };
                let next = if env.syntax_only {
                    acc
                } else {
                    acc.push(value)
                };
                lemma_parse_elements_wf(env, tokens, after + comma, depth, next);
            },
            Err(_) => {},
        }
    }
}

/// The value of an include is well formed.
pub proof fn lemma_parse_include_wf(env: ParseEnv, tokens: Seq<TokenModel>, pos: int, depth: nat)
    ensures
        parse_include_spec(env, tokens, pos, depth) is Ok ==> parse_include_spec(
            env,
            tokens,
            pos,
            depth,
        )->Ok_0.0.wf(),
    decreases
        crate::parser::include_budget(env, depth),
        crate::parser::tokens_left(tokens, pos),
        0nat,
{
    if 0 <= pos < tokens.len() && env.process_includes && depth < env.max_include_depth && pos + 1
        < tokens.len() && tokens[pos + 1].kind == TokenType::String {
        match lookup(env.files, tokens[pos + 1].lexeme) {
            Some(content) => match lex(content) {
                Ok(inner) => {
                    lemma_parse_value_wf(env, inner, 0, depth + 1);
                },
                Err(_) => {},
            },
            None => {},
        }
    }
}

/// Every value that a source text parses to is well formed.
pub proof fn lemma_parse_wf(env: ParseEnv, input: Seq<char>)
    ensures
        parse_spec(env, input) is Ok ==> parse_spec(env, input)->Ok_0.wf(),
{
    match lex(input) {
        Ok(tokens) => {
            lemma_parse_value_wf(env, tokens, 0, 0);
        },
        Err(_) => {},
    }
}

/// Behind a prefix, the search for `c` goes on as in the rest alone.
pub proof fn lemma_index_of_shift(prefix: Seq<char>, rest: Seq<char>, c: char, from: int)
    requires
        0 <= from <= rest.len(),
    ensures
        index_of(prefix + rest, c, prefix.len() + from) == prefix.len() + index_of(rest, c, from),
    decreases rest.len() - from,
{
    let whole = prefix + rest;
    if from < rest.len() {
        assert(whole[prefix.len() + from] == rest[from]);
        if rest[from] != c {
            lemma_index_of_shift(prefix, rest, c, from + 1);
        }
    }
}

/// Behind a prefix, the pieces are those of the rest alone.
pub proof fn lemma_split_shift(prefix: Seq<char>, rest: Seq<char>, c: char, from: int)
    requires
        0 <= from <= rest.len(),
    ensures
        split_from(prefix + rest, c, prefix.len() + from) == split_from(rest, c, from),
    decreases rest.len() - from,
{
    let whole = prefix + rest;
    lemma_index_of_shift(prefix, rest, c, from);
    lemma_index_of(rest, c, from);
    let k = index_of(rest, c, from);
    if k < rest.len() {
        lemma_split_shift(prefix, rest, c, k + 1);
        assert(whole.subrange(prefix.len() + from, prefix.len() + k) =~= rest.subrange(from, k));
    } else {
        assert(whole.subrange(prefix.len() + from, whole.len() as int) =~= rest.subrange(
            from,
            rest.len() as int,
        ));
    }
}

/// The pieces of two texts joined by the separator are the pieces of the
/// first followed by the pieces of the second.
pub proof fn lemma_split_joined(first: Seq<char>, second: Seq<char>, c: char, from: int)
    requires
        0 <= from <= first.len(),
    ensures
        split_from(first + seq![c] + second, c, from) == split_from(first, c, from) + split(
            second,
            c,
        ),
    decreases first.len() - from,
{
    let head = first + seq![c];
    let whole = head + second;
    lemma_index_of(first, c, from);
    lemma_index_of(whole, c, from);
    let k = index_of(first, c, from);
    let w = index_of(whole, c, from);
    assert(whole[first.len() as int] == c);
    assert forall|j: int| 0 <= j < first.len() implies whole[j] == first[j] by {}
    if k < first.len() {
        assert(w == k) by {
            if w < k {
                assert(whole[w] == first[w]);
            }
        }
        lemma_split_joined(first, second, c, k + 1);
        assert(whole.subrange(from, k) =~= first.subrange(from, k));
        assert(split_from(whole, c, from) =~= split_from(first, c, from) + split(second, c));
    } else {
        assert(w == first.len()) by {
            if w < first.len() {
                assert(whole[w] == first[w]);
            }
        }
        lemma_split_shift(head, second, c, 0);
        assert(whole.subrange(from, w) =~= first.subrange(from, first.len() as int));
        assert(split_from(whole, c, from) =~= split_from(first, c, from) + split(second, c));
    }
}

/// Behind the first segments, a walk goes on as over the rest alone.
pub proof fn lemma_walk_shift(value: ValueModel, first: Seq<Seq<char>>, rest: Seq<Seq<char>>, from: int)
    requires
        0 <= from <= rest.len(),
    ensures
        value.walk(first + rest, first.len() + from) == value.walk(rest, from),
    decreases rest.len() - from,
{
    if from < rest.len() {
        assert((first + rest)[first.len() + from] == rest[from]);
        match value.path_step(rest[from]) {
            Some(next) => {
                lemma_walk_shift(next, first, rest, from + 1);
            },
            None => {},
        }
    }
}

/// A walk over segments followed by more segments is the walk over the first
/// followed, from where it leads, by the walk over the rest.
pub proof fn lemma_walk_joined(value: ValueModel, first: Seq<Seq<char>>, rest: Seq<Seq<char>>, from: int)
    requires
        0 <= from <= first.len(),
    ensures
        value.walk(first + rest, from) == (match value.walk(first, from) {
            Some(reached) => reached.walk(rest, 0),
            None => None,
        }),
    decreases first.len() - from,
{
    if from < first.len() {
        assert((first + rest)[from] == first[from]);
        match value.path_step(first[from]) {
            Some(next) => {
                lemma_walk_joined(next, first, rest, from + 1);
            },
            None => {},
        }
    } else {
        lemma_walk_shift(value, first, rest, 0);
    }
}

/// Paths compose: a path, a dot and a second path lead to where the second
/// path leads from where the first one leads.
pub proof fn lemma_get_path_joined(value: ValueModel, first: Seq<char>, second: Seq<char>)
    ensures
        value.get_path(first + "."@ + second) == (match value.get_path(first) {
            Some(reached) => reached.get_path(second),
            None => None,
        }),
{
    reveal_strlit(".");
    assert("."@ =~= seq!['.']);
    lemma_split_joined(first, second, '.', 0);
    lemma_walk_joined(value, split(first, '.'), split(second, '.'), 0);
}

/// Assigning entries in order keeps the entries well formed.
pub proof fn lemma_insert_all_wf(acc: Entries, items: Entries, from: int)
    requires
        entries_wf(acc),
        forall|i: int| 0 <= i < items.len() ==> (#[trigger] items[i]).1.wf(),
    ensures
        entries_wf(entries_insert_all(acc, items, from)),
    decreases items.len() - from,
{
    if 0 <= from < items.len() {
        lemma_insert_wf(acc, items[from].0, items[from].1);
        lemma_insert_all_wf(entries_insert(acc, items[from].0, items[from].1), items, from + 1);
    }
}

/// Merging well-formed values gives well-formed entries.
pub proof fn lemma_merge_wf(acc: Entries, values: Seq<ValueModel>, from: int)
    requires
        entries_wf(acc),
        forall|i: int| 0 <= i < values.len() ==> (#[trigger] values[i]).wf(),
    ensures
        entries_wf(merge_from(acc, values, from)),
    decreases values.len() - from,
{
    if 0 <= from < values.len() {
        let next = match values[from] {
            ValueModel::Object(entries) => entries_insert_all(acc, entries, 0),
            _ => acc,
        };
        match values[from] {
            ValueModel::Object(entries) => {
                assert(values[from].wf());
                lemma_insert_all_wf(acc, entries, 0);
            },
            _ => {},
        }
        lemma_merge_wf(next, values, from + 1);
    }
}

/// A kind that the scanner hands on: neither the end of the input nor what
/// it drops.
pub open spec fn is_content(kind: TokenType) -> bool {
    kind != TokenType::Eof && kind != TokenType::Comment && kind != TokenType::Whitespace && kind
        != TokenType::Newline
}

/// What the scanner finds at an index is a token of content, a comment, or an
/// error.
pub proof fn lemma_scan_at_content(chars: Seq<char>, j: int)
    requires
        0 <= j < chars.len(),
    ensures
        scan_at(chars, j) matches Scan::Token { kind, .. } ==> is_content(kind),
{
    let c = chars[j];
    if punctuation_kind(c) is Some {
    } else if is_digit(c) {
    } else {
    }
}

/// The scanner's result ends in the one `Eof` token, and holds before it
/// neither comments nor whitespace.
pub proof fn lemma_scan_shape(chars: Seq<char>, from: int)
    ensures
        scan_from(chars, from) matches Ok(tokens) ==> tokens.len() >= 1 && tokens.last().kind
            == TokenType::Eof && forall|k: int|
            0 <= k < tokens.len() - 1 ==> is_content((#[trigger] tokens[k]).kind),
    decreases
        (if from <= chars.len() {
            chars.len() - from
        } else {
            0
        }),
{
    let j = skip_whitespace(chars, from);
    if from < 0 || j < from || j >= chars.len() {
    } else {
        lemma_scan_at_content(chars, j);
        match scan_at(chars, j) {
            Scan::Token { kind, lexeme, more } => {
                lemma_scan_shape(chars, j + 1 + more);
                match scan_from(chars, j + 1 + more) {
                    Ok(rest) => {
                        let tokens = scan_from(chars, from)->Ok_0;
                        assert(tokens.len() == rest.len() + 1);
                        assert(tokens.last() == rest.last());
                        assert forall|k: int| 0 <= k < tokens.len() - 1 implies is_content(
                            (#[trigger] tokens[k]).kind,
                        ) by {
                            if k > 0 {
                                assert(tokens[k] == rest[k - 1]);
                            }
                        }
                    },
                    Err(_) => {},
                }
            },
            Scan::Comment { more } => {
                lemma_scan_shape(chars, j + 1 + more);
            },
            Scan::Error { .. } => {},
        }
    }
}

/// Whether a field starts at `pos`: an identifier and `=`.
pub open spec fn field_starts(tokens: Seq<TokenModel>, pos: int) -> bool {
    0 <= pos && pos + 1 < tokens.len() && tokens[pos].kind == TokenType::Identifier && tokens[pos
        + 1].kind == TokenType::Equals
}

/// The position behind the value that starts at `pos` and takes `more` tokens
/// after its first, and behind the separator `separator` if one follows.
pub open spec fn behind(tokens: Seq<TokenModel>, pos: int, more: nat, separator: TokenType) -> int {
    let after = pos + 1 + more;
    if after < tokens.len() && tokens[after].kind == separator {
        after + 1
    } else {
        after
    }
}

/// The value that the fields from `pos` on write last under `key`; nothing
/// where they do not write under it.
pub open spec fn last_written(
    env: ParseEnv,
    tokens: Seq<TokenModel>,
    pos: int,
    depth: nat,
    key: Seq<char>,
) -> Option<ValueModel>
    decreases crate::parser::tokens_left(tokens, pos),
{
    if field_starts(tokens, pos) {
        match parse_value_spec(env, tokens, pos + 2, depth) {
            Ok((value, more)) => match last_written(
                env,
                tokens,
                behind(tokens, pos + 2, more, TokenType::Semicolon),
                depth,
                key,
            ) {
                Some(later) => Some(later),
                None => if tokens[pos].lexeme == key {
                    Some(value)
                } else {
                    None
                },
            },
            Err(_) => None,
        }
    } else {
        None
    }
}

/// The fields of a parsed object hold under every key what the source wrote
/// under it last, and what stood under it before where the source does not
/// write under it.
pub proof fn lemma_fields_hold_what_was_written(
    env: ParseEnv,
    tokens: Seq<TokenModel>,
    pos: int,
    depth: nat,
    acc: Entries,
    key: Seq<char>,
)
    requires
        !env.syntax_only,
        parse_fields_spec(env, tokens, pos, depth, acc) is Ok,
    ensures
        entries_get(parse_fields_spec(env, tokens, pos, depth, acc)->Ok_0.0, key) == (
        match last_written(env, tokens, pos, depth, key) {
            Some(value) => Some(value),
            None => entries_get(acc, key),
        }),
    decreases crate::parser::tokens_left(tokens, pos),
{
    if 0 <= pos < tokens.len() && tokens[pos].kind != TokenType::RightBrace {
        assert(field_starts(tokens, pos));
        match parse_value_spec(env, tokens, pos + 2, depth) {
            Ok((value, more)) => {
                let next = entries_insert(acc, tokens[pos].lexeme, value);
                let on = behind(tokens, pos + 2, more, TokenType::Semicolon);
                lemma_assignment(acc, tokens[pos].lexeme, value, key);
                lemma_fields_hold_what_was_written(env, tokens, on, depth, next, key);
            },
            Err(_) => {},
        }
    }
}

/// Round trip of an object literal: a plain key under which the literal
/// writes leads, in the value that the literal parses to, to the value
/// written under it last.
pub proof fn lemma_object_literal_round_trip(
    env: ParseEnv,
    tokens: Seq<TokenModel>,
    pos: int,
    depth: nat,
    key: Seq<char>,
)
    requires
        !env.syntax_only,
        0 <= pos < tokens.len(),
        tokens[pos].kind == TokenType::LeftBrace,
        parse_value_spec(env, tokens, pos, depth) is Ok,
        last_written(env, tokens, pos + 1, depth, key) is Some,
        !contains_char(key, '.'),
        !contains_char(key, '['),
    ensures
        parse_value_spec(env, tokens, pos, depth)->Ok_0.0.get_path(key) == last_written(
            env,
            tokens,
            pos + 1,
            depth,
            key,
        ),
{
    lemma_fields_hold_what_was_written(env, tokens, pos + 1, depth, Seq::empty(), key);
    lemma_get_path_key(parse_value_spec(env, tokens, pos, depth)->Ok_0.0, key);
}

/// The element that the elements from `pos` on write at `index`, counted from
/// zero; nothing where they write fewer.
pub open spec fn written_at(
    env: ParseEnv,
    tokens: Seq<TokenModel>,
    pos: int,
    depth: nat,
    index: nat,
) -> Option<ValueModel>
    decreases crate::parser::tokens_left(tokens, pos),
{
    if 0 <= pos < tokens.len() && tokens[pos].kind != TokenType::RightBracket && tokens[pos].kind
        != TokenType::Eof {
        match parse_value_spec(env, tokens, pos, depth) {
            Ok((value, more)) => if index == 0 {
                Some(value)
            } else {
                written_at(
                    env,
                    tokens,
                    behind(tokens, pos, more, TokenType::Comma),
                    depth,
                    (index - 1) as nat,
                )
            },
            Err(_) => None,
        }
    } else {
        None
    }
}

/// The elements of a parsed array are what stood there before, followed by
/// what the source writes, in its order.
pub proof fn lemma_elements_hold_what_was_written(
    env: ParseEnv,
    tokens: Seq<TokenModel>,
    pos: int,
    depth: nat,
    acc: Seq<ValueModel>,
    index: nat,
)
    requires
        !env.syntax_only,
        parse_elements_spec(env, tokens, pos, depth, acc) is Ok,
    ensures
        acc.len() <= parse_elements_spec(env, tokens, pos, depth, acc)->Ok_0.0.len(),
        forall|j: int|
            0 <= j < acc.len() ==> parse_elements_spec(env, tokens, pos, depth, acc)->Ok_0.0[j]
                == acc[j],
        written_at(env, tokens, pos, depth, index) matches Some(value) ==> acc.len() + index
            < parse_elements_spec(env, tokens, pos, depth, acc)->Ok_0.0.len()
            && parse_elements_spec(env, tokens, pos, depth, acc)->Ok_0.0[(acc.len()
            + index) as int] == value,
    decreases crate::parser::tokens_left(tokens, pos),
{
    if 0 <= pos < tokens.len() && tokens[pos].kind != TokenType::RightBracket {
        match parse_value_spec(env, tokens, pos, depth) {
            Ok((value, more)) => {
                let next = acc.push(value);
                let on = behind(tokens, pos, more, TokenType::Comma);
                let items = parse_elements_spec(env, tokens, pos, depth, acc)->Ok_0.0;
                assert(parse_elements_spec(env, tokens, on, depth, next)->Ok_0.0 == items);
                if index == 0 {
                    lemma_elements_hold_what_was_written(env, tokens, on, depth, next, 0);
                    assert(items[acc.len() as int] == next[acc.len() as int]);
                } else {
                    lemma_elements_hold_what_was_written(
                        env,
                        tokens,
                        on,
                        depth,
                        next,
                        (index - 1) as nat,
                    );
                }
                assert forall|j: int| 0 <= j < acc.len() implies items[j] == acc[j] by {
                    assert(items[j] == next[j]);
                }
            },
            Err(_) => {},
        }
    }
}

/// Round trip of an array literal: an index in brackets leads, in the value
/// that the literal parses to, to the element written at that index.
pub proof fn lemma_array_literal_round_trip(
    env: ParseEnv,
    tokens: Seq<TokenModel>,
    pos: int,
    depth: nat,
    index: nat,
)
    requires
        !env.syntax_only,
        0 <= pos < tokens.len(),
        tokens[pos].kind == TokenType::LeftBracket,
        parse_value_spec(env, tokens, pos, depth) is Ok,
        written_at(env, tokens, pos + 1, depth, index) is Some,
        index <= usize::MAX,
    ensures
        parse_value_spec(env, tokens, pos, depth)->Ok_0.0.get_path(
            "["@ + decimal_digits(index) + "]"@,
        ) == written_at(env, tokens, pos + 1, depth, index),
{
    lemma_elements_hold_what_was_written(env, tokens, pos + 1, depth, Seq::empty(), index);
    let value = parse_value_spec(env, tokens, pos, depth)->Ok_0.0;
    lemma_absent(Seq::<char>::empty(), '.');
    lemma_absent(Seq::<char>::empty(), '[');
    lemma_get_path_index(value, Seq::empty(), index);
    assert(Seq::<char>::empty() + "["@ + decimal_digits(index) + "]"@ =~= "["@ + decimal_digits(
        index,
    ) + "]"@);
}

} // verus!
