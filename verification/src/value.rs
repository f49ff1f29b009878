//! The value tree: the data model that parsing produces and validation reads.

use vstd::prelude::*;
use vstd::string::*;
use vstd::std_specs::cmp::PartialEqSpecImpl;
use crate::number::{double_eq, double_equal};
use crate::error::{CfgppError, CfgppResult, ErrorModel};
use crate::text::{
    chars_of,
    contains_char,
    decimal_within,
    find_char,
    index_of,
    lemma_index_of,
    parse_decimal,
    split,
    split_chars,
    string_of,
    views,
};

verus! {

/// A configuration value.
///
/// A `Double` holds the IEEE 754 binary64 bit pattern of its number: the
/// library itself performs no floating-point arithmetic. An `Object` holds its
/// entries in the order in which their keys were first assigned; no key occurs
/// twice in an object that this library built.
#[derive(Debug)]
pub enum CfgppValue {
    Null,
    Boolean(bool),
    Integer(i64),
    Double(u64),
    String(String),
    Enum(String),
    Array(Vec<CfgppValue>),
    Object(Vec<(String, CfgppValue)>),
}

/// The mathematical content of a [`CfgppValue`].
pub enum ValueModel {
    Null,
    Boolean(bool),
    Integer(int),
    Double(u64),
    Str(Seq<char>),
    Enum(Seq<char>),
    Array(Seq<ValueModel>),
    Object(Seq<(Seq<char>, ValueModel)>),
}

/// The entries of an object, as keys and value models.
pub type Entries = Seq<(Seq<char>, ValueModel)>;

/// The first index at or after `from` whose entry has the key `key`, or
/// `entries.len()`.
pub open spec fn entry_index(entries: Entries, key: Seq<char>, from: int) -> int
    decreases entries.len() - from,
{
    if 0 <= from < entries.len() {
        if entries[from].0 == key {
            from
        } else {
            entry_index(entries, key, from + 1)
        }
    } else {
        entries.len() as int
    }
}

/// The value stored under `key`, if any.
pub open spec fn entries_get(entries: Entries, key: Seq<char>) -> Option<ValueModel> {
    let i = entry_index(entries, key, 0);
    if 0 <= i < entries.len() {
        Some(entries[i].1)
    } else {
        None
    }
}

/// The entries after `key` has been assigned `value`: an existing entry keeps
/// its place and takes the new value, a new key goes to the end.
pub open spec fn entries_insert(entries: Entries, key: Seq<char>, value: ValueModel) -> Entries {
    let i = entry_index(entries, key, 0);
    if 0 <= i < entries.len() {
        entries.update(i, (key, value))
    } else {
        entries.push((key, value))
    }
}

/// The entries after assigning `items[from..]` in order.
pub open spec fn entries_insert_all(entries: Entries, items: Entries, from: int) -> Entries
    decreases items.len() - from,
{
    if 0 <= from < items.len() {
        entries_insert_all(
            entries_insert(entries, items[from].0, items[from].1),
            items,
            from + 1,
        )
    } else {
        entries
    }
}

/// No key occurs twice.
pub open spec fn unique_keys(entries: Entries) -> bool {
    forall|i: int, j: int|
        0 <= i < j < entries.len() ==> (#[trigger] entries[i]).0 != (#[trigger] entries[j]).0
}

/// The array index that a path segment's bracket holds: an optional `+` and a
/// decimal numeral that fits the machine word.
pub open spec fn bracket_index(s: Seq<char>) -> Option<nat> {
    if s.len() > 0 && s[0] == '+' {
        decimal_within(s.subrange(1, s.len() as int), usize::MAX as nat)
    } else {
        decimal_within(s, usize::MAX as nat)
    }
}

impl ValueModel {
    /// The name of the value's kind.
    pub open spec fn kind_name(self) -> Seq<char> {
        match self {
            ValueModel::Null => "null"@,
            ValueModel::Boolean(_) => "boolean"@,
            ValueModel::Integer(_) => "integer"@,
            ValueModel::Double(_) => "double"@,
            ValueModel::Str(_) => "string"@,
            ValueModel::Enum(_) => "enum"@,
            ValueModel::Array(_) => "array"@,
            ValueModel::Object(_) => "object"@,
        }
    }

    /// Every object in the tree has unique keys.
    pub open spec fn wf(self) -> bool
        decreases self,
    {
        match self {
            ValueModel::Array(items) => forall|i: int|
                0 <= i < items.len() ==> (#[trigger] items[i]).wf(),
            ValueModel::Object(entries) => unique_keys(entries) && forall|i: int|
                0 <= i < entries.len() ==> (#[trigger] entries[i]).1.wf(),
            _ => true,
        }
    }

    /// The entry of an object under `key`; nothing for a missing key or for
    /// any value that is no object.
    pub open spec fn get(self, key: Seq<char>) -> Option<ValueModel> {
        match self {
            ValueModel::Object(entries) => entries_get(entries, key),
            _ => None,
        }
    }

    /// The element of an array at `index`; nothing past the end or for any
    /// value that is no array.
    pub open spec fn get_index(self, index: nat) -> Option<ValueModel> {
        match self {
            ValueModel::Array(items) => if index < items.len() {
                Some(items[index as int])
            } else {
                None
            },
            _ => None,
        }
    }

    /// One segment of a path: `key`, `key[index]` or `[index]`.
    pub open spec fn path_step(self, part: Seq<char>) -> Option<ValueModel> {
        if contains_char(part, '[') && part.len() > 0 && part.last() == ']' {
            let b = index_of(part, '[', 0);
            let field = part.subrange(0, b);
            match bracket_index(part.subrange(b + 1, part.len() - 1)) {
                None => None,
                Some(i) => if field.len() > 0 {
                    match self.get(field) {
                        None => None,
                        Some(inner) => inner.get_index(i),
                    }
                } else {
                    self.get_index(i)
                },
            }
        } else {
            self.get(part)
        }
    }

    /// The value reached by the segments `parts[from..]`, one after the other.
    pub open spec fn walk(self, parts: Seq<Seq<char>>, from: int) -> Option<ValueModel>
        decreases parts.len() - from,
    {
        if 0 <= from < parts.len() {
            match self.path_step(parts[from]) {
                None => None,
                Some(next) => next.walk(parts, from + 1),
            }
        } else {
            Some(self)
        }
    }

    /// The value reached by a dotted path such as `servers[0].name`.
    pub open spec fn get_path(self, path: Seq<char>) -> Option<ValueModel> {
        self.walk(split(path, '.'), 0)
    }

    /// Number of elements of an array or of entries of an object; zero for
    /// every other value.
    pub open spec fn len(self) -> nat {
        match self {
            ValueModel::Array(items) => items.len(),
            ValueModel::Object(entries) => entries.len(),
            _ => 0,
        }
    }
}

/// The models of a sequence of values.
pub open spec fn values_view(items: Seq<CfgppValue>) -> Seq<ValueModel> {
    Seq::new(items.len(), |i: int| items[i]@)
}

/// The models of a sequence of entries.
pub open spec fn entries_view(entries: Seq<(String, CfgppValue)>) -> Entries {
    Seq::new(entries.len(), |i: int| (entries[i].0@, entries[i].1@))
}

/// The models of the first `n` values of `items`.
pub open spec fn models_upto(items: Seq<CfgppValue>, n: nat) -> Seq<ValueModel>
    decreases items, n,
{
    if n == 0 || n > items.len() {
        Seq::empty()
    } else {
        models_upto(items, (n - 1) as nat).push(items[n - 1].model())
    }
}

/// The models of the first `n` entries of `entries`.
pub open spec fn entry_models_upto(entries: Seq<(String, CfgppValue)>, n: nat) -> Entries
    decreases entries, n,
{
    if n == 0 || n > entries.len() {
        Seq::empty()
    } else {
        entry_models_upto(entries, (n - 1) as nat).push(
            (entries[n - 1].0@, entries[n - 1].1.model()),
        )
    }
}

impl CfgppValue {
    /// The mathematical content of the value.
    pub open spec fn model(self) -> ValueModel
        decreases self, 0nat,
    {
        match self {
            CfgppValue::Null => ValueModel::Null,
            CfgppValue::Boolean(b) => ValueModel::Boolean(b),
            CfgppValue::Integer(i) => ValueModel::Integer(i as int),
            CfgppValue::Double(d) => ValueModel::Double(d),
            CfgppValue::String(s) => ValueModel::Str(s@),
            CfgppValue::Enum(s) => ValueModel::Enum(s@),
            CfgppValue::Array(items) => ValueModel::Array(models_upto(items@, items@.len())),
            CfgppValue::Object(entries) => ValueModel::Object(
                entry_models_upto(entries@, entries@.len()),
            ),
        }
    }
}

impl View for CfgppValue {
    type V = ValueModel;

    open spec fn view(&self) -> ValueModel {
        self.model()
    }
}

proof fn lemma_models_upto(items: Seq<CfgppValue>, n: nat)
    requires
        n <= items.len(),
    ensures
        models_upto(items, n) == values_view(items).take(n as int),
    decreases n,
{
    if n > 0 {
        lemma_models_upto(items, (n - 1) as nat);
    }
    assert(models_upto(items, n) =~= values_view(items).take(n as int));
}

proof fn lemma_entry_models_upto(entries: Seq<(String, CfgppValue)>, n: nat)
    requires
        n <= entries.len(),
    ensures
        entry_models_upto(entries, n) == entries_view(entries).take(n as int),
    decreases n,
{
    if n > 0 {
        lemma_entry_models_upto(entries, (n - 1) as nat);
    }
    assert(entry_models_upto(entries, n) =~= entries_view(entries).take(n as int));
}

/// The model of an array is the sequence of its elements' models.
pub proof fn lemma_array_view(items: Vec<CfgppValue>)
    ensures
        CfgppValue::Array(items)@ == ValueModel::Array(values_view(items@)),
{
    lemma_models_upto(items@, items@.len());
    assert(values_view(items@).take(items@.len() as int) == values_view(items@));
}

/// The model of an object is the sequence of its entries' models.
pub proof fn lemma_object_view(entries: Vec<(String, CfgppValue)>)
    ensures
        CfgppValue::Object(entries)@ == ValueModel::Object(entries_view(entries@)),
{
    lemma_entry_models_upto(entries@, entries@.len());
    assert(entries_view(entries@).take(entries@.len() as int) == entries_view(entries@));
}

/// Where the search for a key ends, and that no entry before that place has
/// the key.
pub proof fn lemma_entry_index(entries: Entries, key: Seq<char>, from: int)
    requires
        0 <= from <= entries.len(),
    ensures
        from <= entry_index(entries, key, from) <= entries.len(),
        entry_index(entries, key, from) < entries.len() ==> entries[entry_index(
            entries,
            key,
            from,
        )].0 == key,
        forall|k: int| from <= k < entry_index(entries, key, from) ==> entries[k].0 != key,
    decreases entries.len() - from,
{
    if from < entries.len() && entries[from].0 != key {
        lemma_entry_index(entries, key, from + 1);
    }
}

/// Assigning a key keeps the keys unique.
pub proof fn lemma_insert_unique(entries: Entries, key: Seq<char>, value: ValueModel)
    requires
        unique_keys(entries),
    ensures
        unique_keys(entries_insert(entries, key, value)),
        entries_get(entries_insert(entries, key, value), key) == Some(value),
{
    lemma_entry_index(entries, key, 0);
    let after = entries_insert(entries, key, value);
    let i = entry_index(entries, key, 0);
    assert forall|a: int, b: int| 0 <= a < b < after.len() implies (#[trigger] after[a]).0 != (
    #[trigger] after[b]).0 by {
        if i < entries.len() {
            assert(after[a].0 == entries[a].0);
            assert(after[b].0 == entries[b].0);
        } else if b == entries.len() {
            assert(after[a] == entries[a]);
        } else {
            assert(after[a] == entries[a]);
            assert(after[b] == entries[b]);
        }
    }
    lemma_entry_index(after, key, 0);
    let j = entry_index(after, key, 0);
    if i < entries.len() {
        assert(after[i].0 == key);
        if j < i {
            assert(after[j].0 == entries[j].0);
        }
    } else {
        assert(after[entries.len() as int].0 == key);
        if j < entries.len() {
            assert(after[j] == entries[j]);
        }
    }
}

/// A deep copy of `value`.
fn copy_of(value: &CfgppValue) -> (r: CfgppValue)
    ensures
        r@ == value@,
    decreases value,
{
    match value {
        CfgppValue::Null => CfgppValue::Null,
        CfgppValue::Boolean(b) => CfgppValue::Boolean(*b),
        CfgppValue::Integer(i) => CfgppValue::Integer(*i),
        CfgppValue::Double(d) => CfgppValue::Double(*d),
        CfgppValue::String(s) => CfgppValue::String(s.clone()),
        CfgppValue::Enum(s) => CfgppValue::Enum(s.clone()),
        CfgppValue::Array(items) => {
            let mut copy: Vec<CfgppValue> = Vec::new();
            let mut i: usize = 0;
            while i < items.len()
                invariant
                    i <= items@.len(),
                    *value == CfgppValue::Array(*items),
                    copy@.len() == i,
                    values_view(copy@) == values_view(items@).take(i as int),
                decreases items@.len() - i,
            {
                proof {
                    assert(decreases_to!(*value => value->Array_0));
                    assert(decreases_to!(items@ => items@[i as int]));
                }
                let ghost before = copy@;
                let item = copy_of(&items[i]);
                copy.push(item);
                assert forall|k: int| 0 <= k < i + 1 implies values_view(copy@)[k]
                    == values_view(items@).take(i + 1)[k] by {
                    if k < i {
                        assert(values_view(before)[k] == values_view(items@).take(i as int)[k]);
                    }
                }
                assert(values_view(copy@) =~= values_view(items@).take(i + 1));
                i = i + 1;
            }
            proof {
                lemma_array_view(*items);
                lemma_array_view(copy);
                assert(values_view(items@).take(i as int) == values_view(items@));
            }
            CfgppValue::Array(copy)
        },
        CfgppValue::Object(entries) => {
            let mut copy: Vec<(String, CfgppValue)> = Vec::new();
            let mut i: usize = 0;
            while i < entries.len()
                invariant
                    i <= entries@.len(),
                    *value == CfgppValue::Object(*entries),
                    copy@.len() == i,
                    entries_view(copy@) == entries_view(entries@).take(i as int),
                decreases entries@.len() - i,
            {
                proof {
                    assert(decreases_to!(*value => value->Object_0));
                    assert(decreases_to!(entries@ => entries@[i as int]));
                    assert(decreases_to!(entries@[i as int] => entries@[i as int].1));
                }
                let ghost before = copy@;
                let key = entries[i].0.clone();
                let value = copy_of(&entries[i].1);
                copy.push((key, value));
                assert forall|k: int| 0 <= k < i + 1 implies entries_view(copy@)[k]
                    == entries_view(entries@).take(i + 1)[k] by {
                    if k < i {
                        assert(entries_view(before)[k] == entries_view(entries@).take(
                            i as int,
                        )[k]);
                    }
                }
                assert(entries_view(copy@) =~= entries_view(entries@).take(i + 1));
                i = i + 1;
            }
            proof {
                lemma_object_view(*entries);
                lemma_object_view(copy);
                assert(entries_view(entries@).take(i as int) == entries_view(entries@));
            }
            CfgppValue::Object(copy)
        },
    }
}

impl Clone for CfgppValue {
    /// A deep copy: a value with the same model.
    fn clone(&self) -> (r: Self)
        ensures
            r@ == self@,
    {
        copy_of(self)
    }
}

/// The position of the entry under `key`, or `entries.len()`.
fn entry_position(entries: &Vec<(String, CfgppValue)>, key: &String) -> (r: usize)
    ensures
        r == entry_index(entries_view(entries@), key@, 0),
        r <= entries@.len(),
        r < entries@.len() ==> entries@[r as int].0@ == key@,
{
    let mut i: usize = 0;
    while i < entries.len()
        invariant
            i <= entries@.len(),
            entry_index(entries_view(entries@), key@, 0) == entry_index(
                entries_view(entries@),
                key@,
                i as int,
            ),
        decreases entries@.len() - i,
    {
        if entries[i].0 == *key {
            return i;
        }
        i = i + 1;
    }
    i
}

/// Assigns `value` to `key` in `entries`.
pub fn insert_entry(entries: &mut Vec<(String, CfgppValue)>, key: String, value: CfgppValue)
    ensures
        entries_view(final(entries)@) == entries_insert(
            entries_view(old(entries)@),
            key@,
            value@,
        ),
{
    let at = entry_position(entries, &key);
    if at < entries.len() {
        entries.set(at, (key, value));
    } else {
        entries.push((key, value));
    }
    assert(entries_view(entries@) =~= entries_insert(
        entries_view(old(entries)@),
        key@,
        value@,
    ));
}

impl CfgppValue {
    /// The null value.
    pub fn null() -> (v: Self)
        ensures
            v@ == ValueModel::Null,
    {
        CfgppValue::Null
    }

    /// A boolean value.
    pub fn boolean(value: bool) -> (v: Self)
        ensures
            v@ == ValueModel::Boolean(value),
    {
        CfgppValue::Boolean(value)
    }

    /// An integer value.
    pub fn integer(value: i64) -> (v: Self)
        ensures
            v@ == ValueModel::Integer(value as int),
    {
        CfgppValue::Integer(value)
    }

    /// The double whose IEEE 754 binary64 bit pattern is `bits`.
    pub fn double(bits: u64) -> (v: Self)
        ensures
            v@ == ValueModel::Double(bits),
    {
        CfgppValue::Double(bits)
    }

    /// A string value.
    pub fn string(value: &str) -> (v: Self)
        ensures
            v@ == ValueModel::Str(value@),
    {
        CfgppValue::String(value.to_owned())
    }

    /// An enum value.
    pub fn enum_value(value: &str) -> (v: Self)
        ensures
            v@ == ValueModel::Enum(value@),
    {
        CfgppValue::Enum(value.to_owned())
    }

    /// An empty array.
    pub fn array() -> (v: Self)
        ensures
            v@ == ValueModel::Array(Seq::empty()),
    {
        let items: Vec<CfgppValue> = Vec::new();
        proof {
            lemma_array_view(items);
            assert(values_view(items@) =~= Seq::empty());
        }
        CfgppValue::Array(items)
    }

    /// The array of `values`, in their order.
    pub fn array_with_values(values: Vec<CfgppValue>) -> (v: Self)
        ensures
            v@ == ValueModel::Array(values_view(values@)),
            (forall|i: int| 0 <= i < values@.len() ==> (#[trigger] values@[i])@.wf()) ==> v@.wf(),
    {
        proof {
            lemma_array_view(values);
        }
        CfgppValue::Array(values)
    }

    /// An empty object.
    pub fn object() -> (v: Self)
        ensures
            v@ == ValueModel::Object(Seq::empty()),
    {
        let entries: Vec<(String, CfgppValue)> = Vec::new();
        proof {
            lemma_object_view(entries);
            assert(entries_view(entries@) =~= Seq::empty());
        }
        CfgppValue::Object(entries)
    }

    /// The object that results from assigning `values` in order to an empty
    /// object: of two entries with one key the later one stays.
    pub fn object_with_values(values: Vec<(String, CfgppValue)>) -> (v: Self)
        ensures
            v@ == ValueModel::Object(
                entries_insert_all(Seq::empty(), entries_view(values@), 0),
            ),
            (forall|i: int| 0 <= i < values@.len() ==> (#[trigger] values@[i]).1@.wf())
                ==> v@.wf(),
    {
        proof {
            if forall|i: int| 0 <= i < values@.len() ==> (#[trigger] values@[i]).1@.wf() {
                let items = entries_view(values@);
                assert forall|i: int| 0 <= i < items.len() implies (#[trigger] items[i]).1.wf() by {
                    assert(items[i].1 == values@[i].1@);
                }
                crate::laws::lemma_insert_all_wf(Seq::empty(), items, 0);
            }
        }
        let mut entries: Vec<(String, CfgppValue)> = Vec::new();
        let ghost all = entries_view(values@);
        let ghost given = values@;
        assert(entries_view(entries@) =~= Seq::empty());
        for entry in it: values
            invariant
                it.seq() == given,
                all == entries_view(given),
                entries_insert_all(Seq::empty(), all, 0) == entries_insert_all(
                    entries_view(entries@),
                    all,
                    it.index() as int,
                ),
        {
            let (key, value) = entry;
            insert_entry(&mut entries, key, value);
        }
        proof {
            lemma_object_view(entries);
        }
        CfgppValue::Object(entries)
    }
}

impl CfgppValue {
    /// The name of the value's kind.
    pub fn kind_name(&self) -> (r: &'static str)
        ensures
            r@ == self@.kind_name(),
    {
        match self {
            CfgppValue::Null => "null",
            CfgppValue::Boolean(_) => "boolean",
            CfgppValue::Integer(_) => "integer",
            CfgppValue::Double(_) => "double",
            CfgppValue::String(_) => "string",
            CfgppValue::Enum(_) => "enum",
            CfgppValue::Array(_) => "array",
            CfgppValue::Object(_) => "object",
        }
    }

    /// Whether the value is null.
    pub fn is_null(&self) -> (r: bool)
        ensures
            r == (self@ is Null),
    {
        match self {
            CfgppValue::Null => true,
            _ => false,
        }
    }

    /// Whether the value is a boolean.
    pub fn is_boolean(&self) -> (r: bool)
        ensures
            r == (self@ is Boolean),
    {
        match self {
            CfgppValue::Boolean(_) => true,
            _ => false,
        }
    }

    /// Whether the value is an integer.
    pub fn is_integer(&self) -> (r: bool)
        ensures
            r == (self@ is Integer),
    {
        match self {
            CfgppValue::Integer(_) => true,
            _ => false,
        }
    }

    /// Whether the value is a double.
    pub fn is_double(&self) -> (r: bool)
        ensures
            r == (self@ is Double),
    {
        match self {
            CfgppValue::Double(_) => true,
            _ => false,
        }
    }

    /// Whether the value is a string.
    pub fn is_string(&self) -> (r: bool)
        ensures
            r == (self@ is Str),
    {
        match self {
            CfgppValue::String(_) => true,
            _ => false,
        }
    }

    /// Whether the value is an enum value.
    pub fn is_enum(&self) -> (r: bool)
        ensures
            r == (self@ is Enum),
    {
        match self {
            CfgppValue::Enum(_) => true,
            _ => false,
        }
    }

    /// Whether the value is an array.
    pub fn is_array(&self) -> (r: bool)
        ensures
            r == (self@ is Array),
    {
        match self {
            CfgppValue::Array(_) => true,
            _ => false,
        }
    }

    /// Whether the value is an object.
    pub fn is_object(&self) -> (r: bool)
        ensures
            r == (self@ is Object),
    {
        match self {
            CfgppValue::Object(_) => true,
            _ => false,
        }
    }

    /// The boolean that the value holds.
    pub fn as_boolean(&self) -> (r: Option<bool>)
        ensures
            r == (match self@ {
                ValueModel::Boolean(b) => Some(b),
                _ => None,
            }),
    {
        match self {
            CfgppValue::Boolean(b) => Some(*b),
            _ => None,
        }
    }

    /// The integer that the value holds.
    pub fn as_integer(&self) -> (r: Option<i64>)
        ensures
            match self@ {
                ValueModel::Integer(i) => r is Some && r->0 == i,
                _ => r is None,
            },
    {
        match self {
            CfgppValue::Integer(i) => Some(*i),
            _ => None,
        }
    }

    /// The IEEE 754 binary64 bit pattern of a double.
    pub fn as_double(&self) -> (r: Option<u64>)
        ensures
            r == (match self@ {
                ValueModel::Double(d) => Some(d),
                _ => None,
            }),
    {
        match self {
            CfgppValue::Double(d) => Some(*d),
            _ => None,
        }
    }

    /// The text of a string or of an enum value.
    pub fn as_string(&self) -> (r: Option<&str>)
        ensures
            match self@ {
                ValueModel::Str(s) => r is Some && r->0@ == s,
                ValueModel::Enum(s) => r is Some && r->0@ == s,
                _ => r is None,
            },
    {
        match self {
            CfgppValue::String(s) => Some(s.as_str()),
            CfgppValue::Enum(s) => Some(s.as_str()),
            _ => None,
        }
    }

    /// The elements of an array.
    pub fn as_array(&self) -> (r: Option<&Vec<CfgppValue>>)
        ensures
            match r {
                Some(items) => *self == CfgppValue::Array(*items) && self@ == ValueModel::Array(
                    values_view(items@),
                ),
                None => !(self@ is Array),
            },
    {
        match self {
            CfgppValue::Array(items) => {
                proof {
                    lemma_array_view(*items);
                }
                Some(items)
            },
            _ => None,
        }
    }

    /// The entries of an object.
    pub fn as_object(&self) -> (r: Option<&Vec<(String, CfgppValue)>>)
        ensures
            match r {
                Some(entries) => *self == CfgppValue::Object(*entries) && self@
                    == ValueModel::Object(entries_view(entries@)),
                None => !(self@ is Object),
            },
    {
        match self {
            CfgppValue::Object(entries) => {
                proof {
                    lemma_object_view(*entries);
                }
                Some(entries)
            },
            _ => None,
        }
    }

    /// The entry of an object under `key`.
    pub fn get(&self, key: &str) -> (r: Option<&CfgppValue>)
        ensures
            match r {
                Some(v) => self@.get(key@) == Some(v@),
                None => self@.get(key@) is None,
            },
    {
        match self {
            CfgppValue::Object(entries) => {
                proof {
                    lemma_object_view(*entries);
                }
                let wanted = key.to_owned();
                let at = entry_position(entries, &wanted);
                if at < entries.len() {
                    Some(&entries[at].1)
                } else {
                    None
                }
            },
            _ => None,
        }
    }

    /// The element of an array at `index`.
    pub fn get_index(&self, index: usize) -> (r: Option<&CfgppValue>)
        ensures
            match r {
                Some(v) => self@.get_index(index as nat) == Some(v@),
                None => self@.get_index(index as nat) is None,
            },
    {
        match self {
            CfgppValue::Array(items) => {
                proof {
                    lemma_array_view(*items);
                }
                if index < items.len() {
                    Some(&items[index])
                } else {
                    None
                }
            },
            _ => None,
        }
    }

    /// One segment of a path.
    fn step(&self, part: &Vec<char>) -> (r: Option<&CfgppValue>)
        ensures
            match r {
                Some(v) => self@.path_step(part@) == Some(v@),
                None => self@.path_step(part@) is None,
            },
    {
        let n = part.len();
        let b = find_char(part, '[', 0);
        proof {
            lemma_index_of(part@, '[', 0);
        }
        if b < n && part[n - 1] == ']' {
            let first: usize = if b + 1 < n - 1 && part[b + 1] == '+' {
                b + 2
            } else {
                b + 1
            };
            let ghost inner = part@.subrange(b + 1, n - 1);
            assert(inner.len() > 0 && inner[0] == '+' ==> inner.subrange(1, inner.len() as int)
                == part@.subrange(first as int, n - 1));
            assert(!(inner.len() > 0 && inner[0] == '+') ==> inner == part@.subrange(
                first as int,
                n - 1,
            ));
            let index = match parse_decimal(part, first, n - 1, usize::MAX as u64) {
                Some(i) => i as usize,
                None => { return None; },
            };
            if b > 0 {
                let field = string_of(part, 0, b);
                match self.get(field.as_str()) {
                    Some(inner_value) => inner_value.get_index(index),
                    None => None,
                }
            } else {
                self.get_index(index)
            }
        } else {
            let key = string_of(part, 0, n);
            assert(part@.subrange(0, n as int) == part@);
            self.get(key.as_str())
        }
    }

    /// The value reached by a dotted path such as `servers[0].name`; nothing
    /// as soon as one segment is missing.
    pub fn get_path(&self, path: &str) -> (r: Option<&CfgppValue>)
        ensures
            match r {
                Some(v) => self@.get_path(path@) == Some(v@),
                None => self@.get_path(path@) is None,
            },
    {
        let chars = chars_of(path);
        let parts = split_chars(&chars, '.');
        let mut current: &CfgppValue = self;
        let mut i: usize = 0;
        while i < parts.len()
            invariant
                i <= parts@.len(),
                views(parts@) == split(path@, '.'),
                self@.get_path(path@) == current@.walk(views(parts@), i as int),
            decreases parts@.len() - i,
        {
            match current.step(&parts[i]) {
                Some(next) => {
                    current = next;
                },
                None => {
                    return None;
                },
            }
            i = i + 1;
        }
        Some(current)
    }

    /// Assigns `value` to `key` in an object; any other value is left as it
    /// is and a type error names its kind.
    pub fn set(&mut self, key: &str, value: CfgppValue) -> (r: CfgppResult<()>)
        ensures
            match old(self)@ {
                ValueModel::Object(entries) => r is Ok && final(self)@ == ValueModel::Object(
                    entries_insert(entries, key@, value@),
                ),
                other => final(self)@ == other && r is Err && r->Err_0@ == (ErrorModel::TypeError {
                    expected: "object"@,
                    actual: other.kind_name(),
                }),
            },
            old(self)@.wf() && value@.wf() ==> final(self)@.wf(),
    {
        match self {
            CfgppValue::Object(entries) => {
                proof {
                    lemma_object_view(*entries);
                    if old(self)@.wf() {
                        lemma_insert_unique(entries_view(entries@), key@, value@);
                    }
                }
                insert_entry(entries, key.to_owned(), value);
                proof {
                    lemma_object_view(*entries);
                }
                Ok(())
            },
            _ => Err(CfgppError::type_error("object", self.kind_name())),
        }
    }

    /// Appends `value` to an array; any other value is left as it is and a
    /// type error names its kind.
    pub fn push(&mut self, value: CfgppValue) -> (r: CfgppResult<()>)
        ensures
            match old(self)@ {
                ValueModel::Array(items) => r is Ok && final(self)@ == ValueModel::Array(
                    items.push(value@),
                ),
                other => final(self)@ == other && r is Err && r->Err_0@ == (ErrorModel::TypeError {
                    expected: "array"@,
                    actual: other.kind_name(),
                }),
            },
            old(self)@.wf() && value@.wf() ==> final(self)@.wf(),
    {
        match self {
            CfgppValue::Array(items) => {
                proof {
                    lemma_array_view(*items);
                }
                items.push(value);
                proof {
                    lemma_array_view(*items);
                    assert(values_view(items@) =~= values_view(old(self)->Array_0@).push(value@));
                }
                Ok(())
            },
            _ => Err(CfgppError::type_error("array", self.kind_name())),
        }
    }

    /// Number of elements of an array or of entries of an object; zero for
    /// every other value.
    pub fn len(&self) -> (r: usize)
        ensures
            r == self@.len(),
    {
        match self {
            CfgppValue::Array(items) => {
                proof {
                    lemma_array_view(*items);
                }
                items.len()
            },
            CfgppValue::Object(entries) => {
                proof {
                    lemma_object_view(*entries);
                }
                entries.len()
            },
            _ => 0,
        }
    }

    /// Whether an array or an object holds nothing; false for every other
    /// value.
    pub fn is_empty(&self) -> (r: bool)
        ensures
            r == ((self@ is Array || self@ is Object) && self@.len() == 0),
    {
        match self {
            CfgppValue::Array(items) => {
                proof {
                    lemma_array_view(*items);
                }
                items.len() == 0
            },
            CfgppValue::Object(entries) => {
                proof {
                    lemma_object_view(*entries);
                }
                entries.len() == 0
            },
            _ => false,
        }
    }
}

impl CfgppValue {
    /// The elements of an array, to change them in place.
    pub fn as_array_mut(&mut self) -> (r: Option<&mut Vec<CfgppValue>>)
        ensures
            match r {
                Some(items) => *old(self) == CfgppValue::Array(*items) && *final(self)
                    == CfgppValue::Array(*final(items)),
                None => !(old(self)@ is Array) && *final(self) == *old(self),
            },
    {
        match self {
            CfgppValue::Array(items) => Some(items),
            _ => None,
        }
    }

    /// The entries of an object, to change them in place. Who changes them
    /// keeps the keys unique.
    pub fn as_object_mut(&mut self) -> (r: Option<&mut Vec<(String, CfgppValue)>>)
        ensures
            match r {
                Some(entries) => *old(self) == CfgppValue::Object(*entries) && *final(self)
                    == CfgppValue::Object(*final(entries)),
                None => !(old(self)@ is Object) && *final(self) == *old(self),
            },
    {
        match self {
            CfgppValue::Object(entries) => Some(entries),
            _ => None,
        }
    }
}

impl From<bool> for CfgppValue {
    fn from(value: bool) -> (v: Self) {
        CfgppValue::Boolean(value)
    }
}

impl vstd::std_specs::convert::FromSpecImpl<bool> for CfgppValue {
    open spec fn obeys_from_spec() -> bool {
        true
    }

    open spec fn from_spec(value: bool) -> Self {
        CfgppValue::Boolean(value)
    }
}

impl From<i32> for CfgppValue {
    fn from(value: i32) -> (v: Self) {
        CfgppValue::Integer(value as i64)
    }
}

impl vstd::std_specs::convert::FromSpecImpl<i32> for CfgppValue {
    open spec fn obeys_from_spec() -> bool {
        true
    }

    open spec fn from_spec(value: i32) -> Self {
        CfgppValue::Integer(value as i64)
    }
}

impl From<i64> for CfgppValue {
    fn from(value: i64) -> (v: Self) {
        CfgppValue::Integer(value)
    }
}

impl vstd::std_specs::convert::FromSpecImpl<i64> for CfgppValue {
    open spec fn obeys_from_spec() -> bool {
        true
    }

    open spec fn from_spec(value: i64) -> Self {
        CfgppValue::Integer(value)
    }
}

impl From<String> for CfgppValue {
    fn from(value: String) -> (v: Self) {
        CfgppValue::String(value)
    }
}

impl vstd::std_specs::convert::FromSpecImpl<String> for CfgppValue {
    open spec fn obeys_from_spec() -> bool {
        true
    }

    open spec fn from_spec(value: String) -> Self {
        CfgppValue::String(value)
    }
}

impl From<Vec<CfgppValue>> for CfgppValue {
    fn from(value: Vec<CfgppValue>) -> (v: Self) {
        CfgppValue::Array(value)
    }
}

impl vstd::std_specs::convert::FromSpecImpl<Vec<CfgppValue>> for CfgppValue {
    open spec fn obeys_from_spec() -> bool {
        true
    }

    open spec fn from_spec(value: Vec<CfgppValue>) -> Self {
        CfgppValue::Array(value)
    }
}

impl CfgppValue {
    /// The elements of an array; nothing for any other value.
    pub open spec fn items(self) -> Seq<CfgppValue> {
        match self {
            CfgppValue::Array(items) => items@,
            _ => Seq::empty(),
        }
    }

    /// The entries of an object; nothing for any other value.
    pub open spec fn entries(self) -> Seq<(String, CfgppValue)> {
        match self {
            CfgppValue::Object(entries) => entries@,
            _ => Seq::empty(),
        }
    }

    /// The element of an array at `index`, to change it in place.
    pub fn get_index_mut(&mut self, index: usize) -> (r: Option<&mut CfgppValue>)
        ensures
            match r {
                Some(item) => {
                    &&& *old(self) is Array
                    &&& *final(self) is Array
                    &&& index < old(self).items().len()
                    &&& *item == old(self).items()[index as int]
                    &&& final(self).items() == old(self).items().update(index as int, *final(item))
                },
                None => old(self)@.get_index(index as nat) is None && *final(self) == *old(self),
            },
    {
        match self {
            CfgppValue::Array(items) => {
                proof {
                    lemma_array_view(*items);
                }
                if index < items.len() {
                    Some(&mut items[index])
                } else {
                    None
                }
            },
            _ => None,
        }
    }

    /// The entry of an object under `key`, to change it in place.
    pub fn get_mut(&mut self, key: &str) -> (r: Option<&mut CfgppValue>)
        ensures
            match r {
                Some(item) => {
                    let at = entry_index(entries_view(old(self).entries()), key@, 0);
                    &&& *old(self) is Object
                    &&& *final(self) is Object
                    &&& 0 <= at < old(self).entries().len()
                    &&& *item == old(self).entries()[at].1
                    &&& final(self).entries() == old(self).entries().update(
                        at,
                        (old(self).entries()[at].0, *final(item)),
                    )
                },
                None => old(self)@.get(key@) is None && *final(self) == *old(self),
            },
    {
        match self {
            CfgppValue::Object(entries) => {
                proof {
                    lemma_object_view(*entries);
                }
                let wanted = key.to_owned();
                let at = entry_position(entries, &wanted);
                if at < entries.len() {
                    Some(&mut entries[at].1)
                } else {
                    None
                }
            },
            _ => None,
        }
    }
}

impl<'a> From<&'a str> for CfgppValue {
    /// A string value with the text of `value`.
    fn from(value: &'a str) -> (v: Self)
        ensures
            v@ == ValueModel::Str(value@),
    {
        CfgppValue::String(value.to_owned())
    }
}

impl<'a> vstd::std_specs::convert::FromSpecImpl<&'a str> for CfgppValue {
    /// The conversion makes a new string, which only its text determines:
    /// what it gives is stated on `from` itself, over the model.
    open spec fn obeys_from_spec() -> bool {
        false
    }

    open spec fn from_spec(value: &'a str) -> Self {
        arbitrary()
    }
}

/// Whether two values are equal: they are of one kind and hold the same.
/// Doubles are equal as numbers. Arrays are equal element by element. Objects
/// are equal where they have as many entries and every entry of the first has
/// its equal under the same key in the second: the order of the entries does
/// not count.
pub open spec fn same_value(a: ValueModel, b: ValueModel) -> bool
    decreases a,
{
    match a {
        ValueModel::Null => b is Null,
        ValueModel::Boolean(x) => b == ValueModel::Boolean(x),
        ValueModel::Integer(x) => b == ValueModel::Integer(x),
        ValueModel::Double(x) => b is Double && double_eq(x, b->Double_0),
        ValueModel::Str(x) => b == ValueModel::Str(x),
        ValueModel::Enum(x) => b == ValueModel::Enum(x),
        ValueModel::Array(x) => b is Array && x.len() == b->Array_0.len() && forall|i: int|
            0 <= i < x.len() ==> same_value(#[trigger] x[i], b->Array_0[i]),
        ValueModel::Object(x) => b is Object && x.len() == b->Object_0.len() && forall|i: int|
            0 <= i < x.len() ==> same_entry(#[trigger] x[i], b->Object_0),
    }
}

/// Whether `entries` holds under the key of `entry` a value equal to the one
/// of `entry`.
pub open spec fn same_entry(entry: (Seq<char>, ValueModel), entries: Entries) -> bool
    decreases entry,
{
    match entries_get(entries, entry.0) {
        Some(found) => same_value(entry.1, found),
        None => false,
    }
}

/// Whether two values are equal.
fn values_equal(a: &CfgppValue, b: &CfgppValue) -> (r: bool)
    ensures
        r == same_value(a@, b@),
    decreases a@,
{
    match a {
        CfgppValue::Null => b.is_null(),
        CfgppValue::Boolean(x) => match b {
            CfgppValue::Boolean(y) => *x == *y,
            _ => false,
        },
        CfgppValue::Integer(x) => match b {
            CfgppValue::Integer(y) => *x == *y,
            _ => false,
        },
        CfgppValue::Double(x) => match b {
            CfgppValue::Double(y) => double_equal(*x, *y),
            _ => false,
        },
        CfgppValue::String(x) => match b {
            CfgppValue::String(y) => *x == *y,
            _ => false,
        },
        CfgppValue::Enum(x) => match b {
            CfgppValue::Enum(y) => *x == *y,
            _ => false,
        },
        CfgppValue::Array(xs) => match b {
            CfgppValue::Array(ys) => {
                proof {
                    lemma_array_view(*xs);
                    lemma_array_view(*ys);
                }
                if xs.len() != ys.len() {
                    return false;
                }
                let mut i: usize = 0;
                while i < xs.len()
                    invariant
                        i <= xs@.len() == ys@.len(),
                        a@ == ValueModel::Array(values_view(xs@)),
                        b@ == ValueModel::Array(values_view(ys@)),
                        forall|k: int|
                            0 <= k < i ==> same_value(
                                #[trigger] values_view(xs@)[k],
                                values_view(ys@)[k],
                            ),
                    decreases xs@.len() - i,
                {
                    proof {
                        assert(decreases_to!(a@ => a@->Array_0));
                        assert(values_view(xs@)[i as int] == xs@[i as int]@);
                        assert(values_view(ys@)[i as int] == ys@[i as int]@);
                    }
                    if !values_equal(&xs[i], &ys[i]) {
                        return false;
                    }
                    i = i + 1;
                }
                true
            },
            _ => false,
        },
        CfgppValue::Object(xs) => match b {
            CfgppValue::Object(ys) => {
                proof {
                    lemma_object_view(*xs);
                    lemma_object_view(*ys);
                }
                if xs.len() != ys.len() {
                    return false;
                }
                let mut i: usize = 0;
                while i < xs.len()
                    invariant
                        i <= xs@.len() == ys@.len(),
                        a@ == ValueModel::Object(entries_view(xs@)),
                        b@ == ValueModel::Object(entries_view(ys@)),
                        *b == CfgppValue::Object(*ys),
                        forall|k: int|
                            0 <= k < i ==> same_entry(
                                #[trigger] entries_view(xs@)[k],
                                entries_view(ys@),
                            ),
                    decreases xs@.len() - i,
                {
                    proof {
                        let all = entries_view(xs@);
                        assert(decreases_to!(a@ => a@->Object_0));
                        assert(decreases_to!(all => all[i as int]));
                        assert(decreases_to!(all[i as int] => all[i as int].1));
                        assert(all[i as int] == (xs@[i as int].0@, xs@[i as int].1@));
                    }
                    match b.get(xs[i].0.as_str()) {
                        Some(found) => {
                            if !values_equal(&xs[i].1, found) {
                                assert(!same_entry(
                                    entries_view(xs@)[i as int],
                                    entries_view(ys@),
                                ));
                                return false;
                            }
                        },
                        None => {
                            assert(!same_entry(entries_view(xs@)[i as int], entries_view(ys@)));
                            return false;
                        },
                    }
                    i = i + 1;
                }
                true
            },
            _ => false,
        },
    }
}

impl PartialEq for CfgppValue {
    /// Whether the two values are equal; the order of an object's entries
    /// does not count.
    fn eq(&self, other: &Self) -> (r: bool) {
        values_equal(self, other)
    }
}

impl PartialEqSpecImpl for CfgppValue {
    open spec fn obeys_eq_spec() -> bool {
        true
    }

    open spec fn eq_spec(&self, other: &Self) -> bool {
        same_value(self@, other@)
    }
}

} // verus!
