//! A syntax tree of configuration sources, for tools that want to look at a
//! source before it is evaluated.
//!
//! The parser builds values directly and does not go through this tree.

use vstd::prelude::*;
use vstd::string::*;
use crate::error::{CfgppError, CfgppResult, ErrorModel};
use crate::value::{
    entries_insert,
    entries_view,
    insert_entry,
    lemma_array_view,
    lemma_object_view,
    values_view,
    CfgppValue,
    Entries,
    ValueModel,
};

verus! {

/// Binary operators that the configuration language represents structurally.
/// No evaluator is defined for them.
#[derive(Debug, Clone, Copy, PartialEq, Eq)]
pub enum BinaryOperator {
    Add,
    Subtract,
    Multiply,
    Divide,
}

/// A node of the syntax tree.
#[derive(Debug, PartialEq)]
pub enum AstNode {
    /// The root of a source: its top-level objects and assignments.
    Root { objects: Vec<AstNode> },
    /// An object, named or not, with its fields in their order.
    Object { name: Option<String>, fields: Vec<(String, AstNode)> },
    /// An array literal.
    Array { elements: Vec<AstNode> },
    /// An enum definition.
    EnumDef { name: String, values: Vec<String> },
    /// An include directive.
    Include { path: String },
    /// A reference to an environment variable.
    EnvVar { name: String, default: Option<String> },
    /// The assignment of a value to a key.
    Assignment { key: String, value: Box<AstNode> },
    /// A literal value.
    Literal { value: CfgppValue },
    /// Two operands and their operator.
    Expression { operator: BinaryOperator, left: Box<AstNode>, right: Box<AstNode> },
    /// A name qualified by namespaces.
    Namespace { parts: Vec<String> },
}

/// The mathematical content of an [`AstNode`].
pub enum AstModel {
    Root { objects: Seq<AstModel> },
    Object { name: Option<Seq<char>>, fields: Seq<(Seq<char>, AstModel)> },
    Array { elements: Seq<AstModel> },
    EnumDef { name: Seq<char>, values: Seq<Seq<char>> },
    Include { path: Seq<char> },
    EnvVar { name: Seq<char>, default: Option<Seq<char>> },
    Assignment { key: Seq<char>, value: Box<AstModel> },
    Literal { value: ValueModel },
    Expression { operator: BinaryOperator, left: Box<AstModel>, right: Box<AstModel> },
    Namespace { parts: Seq<Seq<char>> },
}

/// The models of a sequence of texts.
pub open spec fn texts_of(texts: Seq<String>) -> Seq<Seq<char>> {
    Seq::new(texts.len(), |i: int| texts[i]@)
}

/// The model of an optional text.
pub open spec fn text_of_option(text: Option<String>) -> Option<Seq<char>> {
    match text {
        Some(t) => Some(t@),
        None => None,
    }
}

/// The models of a sequence of nodes.
pub open spec fn nodes_view(nodes: Seq<AstNode>) -> Seq<AstModel> {
    Seq::new(nodes.len(), |i: int| nodes[i]@)
}

/// The models of a sequence of named nodes.
pub open spec fn named_nodes_view(fields: Seq<(String, AstNode)>) -> Seq<(Seq<char>, AstModel)> {
    Seq::new(fields.len(), |i: int| (fields[i].0@, fields[i].1@))
}

/// The models of the first `n` nodes of `nodes`.
pub open spec fn nodes_upto(nodes: Seq<AstNode>, n: nat) -> Seq<AstModel>
    decreases nodes, n,
{
    if n == 0 || n > nodes.len() {
        Seq::empty()
    } else {
        nodes_upto(nodes, (n - 1) as nat).push(nodes[n - 1].model())
    }
}

/// The models of the first `n` named nodes of `fields`.
pub open spec fn named_nodes_upto(fields: Seq<(String, AstNode)>, n: nat) -> Seq<
    (Seq<char>, AstModel),
>
    decreases fields, n,
{
    if n == 0 || n > fields.len() {
        Seq::empty()
    } else {
        named_nodes_upto(fields, (n - 1) as nat).push((fields[n - 1].0@, fields[n - 1].1.model()))
    }
}

impl AstNode {
    /// The mathematical content of the node.
    pub open spec fn model(self) -> AstModel
        decreases self, 0nat,
    {
        match self {
            AstNode::Root { objects } => AstModel::Root {
                objects: nodes_upto(objects@, objects@.len()),
            },
            AstNode::Object { name, fields } => AstModel::Object {
                name: text_of_option(name),
                fields: named_nodes_upto(fields@, fields@.len()),
            },
            AstNode::Array { elements } => AstModel::Array {
                elements: nodes_upto(elements@, elements@.len()),
            },
            AstNode::EnumDef { name, values } => AstModel::EnumDef {
                name: name@,
                values: texts_of(values@),
            },
            AstNode::Include { path } => AstModel::Include { path: path@ },
            AstNode::EnvVar { name, default } => AstModel::EnvVar {
                name: name@,
                default: text_of_option(default),
            },
            AstNode::Assignment { key, value } => AstModel::Assignment {
                key: key@,
                value: Box::new(value.model()),
            },
            AstNode::Literal { value } => AstModel::Literal { value: value@ },
            AstNode::Expression { operator, left, right } => AstModel::Expression {
                operator,
                left: Box::new(left.model()),
                right: Box::new(right.model()),
            },
            AstNode::Namespace { parts } => AstModel::Namespace { parts: texts_of(parts@) },
        }
    }
}

impl View for AstNode {
    type V = AstModel;

    open spec fn view(&self) -> AstModel {
        self.model()
    }
}

/// The models of the first nodes are the first models of all nodes.
pub proof fn lemma_nodes_view(nodes: Seq<AstNode>, n: nat)
    requires
        n <= nodes.len(),
    ensures
        nodes_upto(nodes, n) == nodes_view(nodes).take(n as int),
        n == nodes.len() ==> nodes_upto(nodes, n) == nodes_view(nodes),
    decreases n,
{
    if n > 0 {
        lemma_nodes_view(nodes, (n - 1) as nat);
    }
    assert(nodes_upto(nodes, n) =~= nodes_view(nodes).take(n as int));
    if n == nodes.len() {
        assert(nodes_view(nodes).take(n as int) == nodes_view(nodes));
    }
}

/// The models of the first named nodes are the first models of all of them.
pub proof fn lemma_named_nodes_view(fields: Seq<(String, AstNode)>, n: nat)
    requires
        n <= fields.len(),
    ensures
        named_nodes_upto(fields, n) == named_nodes_view(fields).take(n as int),
        n == fields.len() ==> named_nodes_upto(fields, n) == named_nodes_view(fields),
    decreases n,
{
    if n > 0 {
        lemma_named_nodes_view(fields, (n - 1) as nat);
    }
    assert(named_nodes_upto(fields, n) =~= named_nodes_view(fields).take(n as int));
    if n == fields.len() {
        assert(named_nodes_view(fields).take(n as int) == named_nodes_view(fields));
    }
}

impl AstModel {
    /// The name of the node's kind.
    pub open spec fn kind_name(self) -> Seq<char> {
        match self {
            AstModel::Root { .. } => "root"@,
            AstModel::Object { .. } => "object"@,
            AstModel::Array { .. } => "array"@,
            AstModel::EnumDef { .. } => "enum_def"@,
            AstModel::Include { .. } => "include"@,
            AstModel::EnvVar { .. } => "env_var"@,
            AstModel::Assignment { .. } => "assignment"@,
            AstModel::Literal { .. } => "literal"@,
            AstModel::Expression { .. } => "expression"@,
            AstModel::Namespace { .. } => "namespace"@,
        }
    }
}

/// The error for a node that stands for no value.
pub open spec fn no_value(node: AstModel) -> ErrorModel {
    ErrorModel::ParseError { message: "Cannot convert "@ + node.kind_name() + " to value"@ }
}

/// The value that a node stands for: a literal for its value, an object for
/// the object of its fields' values, an array for the array of its elements'
/// values, an assignment for the value that it assigns, and a root for the
/// object that holds each named object under its name and each assigned value
/// under its key. Any other node stands for no value; the first node that
/// does not, in the order of the tree, gives the error.
pub open spec fn node_value(node: AstModel) -> Result<ValueModel, ErrorModel>
    decreases node, 0nat,
{
    match node {
        AstModel::Literal { value } => Ok(value),
        AstModel::Object { name, fields } => match fields_value(fields, 0, Seq::empty()) {
            Ok(entries) => Ok(ValueModel::Object(entries)),
            Err(e) => Err(e),
        },
        AstModel::Array { elements } => match elements_value(elements, 0, Seq::empty()) {
            Ok(items) => Ok(ValueModel::Array(items)),
            Err(e) => Err(e),
        },
        AstModel::Assignment { key, value } => node_value(*value),
        AstModel::Root { objects } => match root_value(objects, 0, Seq::empty()) {
            Ok(entries) => Ok(ValueModel::Object(entries)),
            Err(e) => Err(e),
        },
        _ => Err(no_value(node)),
    }
}

/// The values of the fields from `i` on, assigned in order to `acc`.
pub open spec fn fields_value(fields: Seq<(Seq<char>, AstModel)>, i: nat, acc: Entries) -> Result<
    Entries,
    ErrorModel,
>
    decreases fields, fields.len() - i,
{
    if i >= fields.len() {
        Ok(acc)
    } else {
        match node_value(fields[i as int].1) {
            Err(e) => Err(e),
            Ok(value) => fields_value(fields, i + 1, entries_insert(acc, fields[i as int].0, value)),
        }
    }
}

/// The values of the elements from `i` on, appended in order to `acc`.
pub open spec fn elements_value(elements: Seq<AstModel>, i: nat, acc: Seq<ValueModel>) -> Result<
    Seq<ValueModel>,
    ErrorModel,
>
    decreases elements, elements.len() - i,
{
    if i >= elements.len() {
        Ok(acc)
    } else {
        match node_value(elements[i as int]) {
            Err(e) => Err(e),
            Ok(value) => elements_value(elements, i + 1, acc.push(value)),
        }
    }
}

/// What the top-level nodes from `i` on hold, assigned in order to `acc`: a
/// named object under its name, an assigned value under its key. Any other
/// node is passed over.
pub open spec fn root_value(objects: Seq<AstModel>, i: nat, acc: Entries) -> Result<
    Entries,
    ErrorModel,
>
    decreases objects, objects.len() - i,
{
    if i >= objects.len() {
        Ok(acc)
    } else {
        match objects[i as int] {
            AstModel::Object { name: Some(name), fields } => match fields_value(
                fields,
                0,
                Seq::empty(),
            ) {
                Err(e) => Err(e),
                Ok(entries) => root_value(
                    objects,
                    i + 1,
                    entries_insert(acc, name, ValueModel::Object(entries)),
                ),
            },
            AstModel::Assignment { key, value } => match node_value(*value) {
                Err(e) => Err(e),
                Ok(found) => root_value(objects, i + 1, entries_insert(acc, key, found)),
            },
            _ => root_value(objects, i + 1, acc),
        }
    }
}

/// `r` stands for `model`.
pub open spec fn value_result(r: CfgppResult<CfgppValue>, model: Result<ValueModel, ErrorModel>) -> bool {
    match r {
        Ok(value) => model == Ok::<ValueModel, ErrorModel>(value@),
        Err(e) => model == Err::<ValueModel, ErrorModel>(e@),
    }
}

/// `r` stands for `model`.
pub open spec fn entries_result(
    r: CfgppResult<Vec<(String, CfgppValue)>>,
    model: Result<Entries, ErrorModel>,
) -> bool {
    match r {
        Ok(entries) => model == Ok::<Entries, ErrorModel>(entries_view(entries@)),
        Err(e) => model == Err::<Entries, ErrorModel>(e@),
    }
}

/// The values of `fields`, assigned in order to an empty object.
fn fields_to_value(fields: &Vec<(String, AstNode)>) -> (r: CfgppResult<Vec<(String, CfgppValue)>>)
    ensures
        entries_result(r, fields_value(named_nodes_view(fields@), 0, Seq::empty())),
    decreases named_nodes_view(fields@), 0nat,
{
    let ghost all = named_nodes_view(fields@);
    let mut entries: Vec<(String, CfgppValue)> = Vec::new();
    let mut i: usize = 0;
    assert(entries_view(entries@) =~= Seq::empty());
    while i < fields.len()
        invariant
            i <= fields@.len(),
            all == named_nodes_view(fields@),
            fields_value(all, 0, Seq::empty()) == fields_value(all, i as nat, entries_view(entries@)),
        decreases fields@.len() - i,
    {
        proof {
            assert(decreases_to!(all => all[i as int]));
            assert(decreases_to!(all[i as int] => all[i as int].1));
            assert(all[i as int].1 == fields@[i as int].1@);
        }
        match fields[i].1.to_value() {
            Err(e) => {
                return Err(e);
            },
            Ok(value) => {
                insert_entry(&mut entries, fields[i].0.clone(), value);
            },
        }
        i = i + 1;
    }
    Ok(entries)
}

/// The values of `elements`, in their order.
fn elements_to_value(elements: &Vec<AstNode>) -> (r: CfgppResult<Vec<CfgppValue>>)
    ensures
        match r {
            Ok(items) => elements_value(nodes_view(elements@), 0, Seq::empty()) == Ok::<
                Seq<ValueModel>,
                ErrorModel,
            >(values_view(items@)),
            Err(e) => elements_value(nodes_view(elements@), 0, Seq::empty()) == Err::<
                Seq<ValueModel>,
                ErrorModel,
            >(e@),
        },
    decreases nodes_view(elements@), 0nat,
{
    let ghost all = nodes_view(elements@);
    let mut items: Vec<CfgppValue> = Vec::new();
    let mut i: usize = 0;
    assert(values_view(items@) =~= Seq::empty());
    while i < elements.len()
        invariant
            i <= elements@.len(),
            all == nodes_view(elements@),
            elements_value(all, 0, Seq::empty()) == elements_value(
                all,
                i as nat,
                values_view(items@),
            ),
        decreases elements@.len() - i,
    {
        proof {
            assert(decreases_to!(all => all[i as int]));
            assert(all[i as int] == elements@[i as int]@);
        }
        match elements[i].to_value() {
            Err(e) => {
                return Err(e);
            },
            Ok(value) => {
                let ghost before = values_view(items@);
                items.push(value);
                assert(values_view(items@) =~= before.push(value@));
            },
        }
        i = i + 1;
    }
    Ok(items)
}

/// What the top-level nodes `objects` hold, assigned in order to an empty
/// object.
fn root_to_value(objects: &Vec<AstNode>) -> (r: CfgppResult<Vec<(String, CfgppValue)>>)
    ensures
        entries_result(r, root_value(nodes_view(objects@), 0, Seq::empty())),
    decreases nodes_view(objects@), 0nat,
{
    let ghost all = nodes_view(objects@);
    let mut entries: Vec<(String, CfgppValue)> = Vec::new();
    let mut i: usize = 0;
    assert(entries_view(entries@) =~= Seq::empty());
    while i < objects.len()
        invariant
            i <= objects@.len(),
            all == nodes_view(objects@),
            root_value(all, 0, Seq::empty()) == root_value(all, i as nat, entries_view(entries@)),
        decreases objects@.len() - i,
    {
        proof {
            assert(decreases_to!(all => all[i as int]));
            assert(all[i as int] == objects@[i as int]@);
        }
        match &objects[i] {
            AstNode::Object { name: Some(name), fields } => {
                proof {
                    lemma_named_nodes_view(fields@, fields@.len());
                    assert(decreases_to!(all[i as int] => all[i as int]->Object_fields));
                }
                match fields_to_value(fields) {
                    Err(e) => {
                        return Err(e);
                    },
                    Ok(inner) => {
                        proof {
                            lemma_object_view(inner);
                        }
                        insert_entry(&mut entries, name.clone(), CfgppValue::Object(inner));
                    },
                }
            },
            AstNode::Assignment { key, value } => {
                proof {
                    assert(decreases_to!(all[i as int] => all[i as int]->Assignment_value));
                }
                match value.to_value() {
                    Err(e) => {
                        return Err(e);
                    },
                    Ok(found) => {
                        insert_entry(&mut entries, key.clone(), found);
                    },
                }
            },
            _ => {},
        }
        i = i + 1;
    }
    Ok(entries)
}

impl AstNode {
    /// A root with its top-level nodes.
    pub fn root(objects: Vec<AstNode>) -> (node: Self)
        ensures
            node@ == (AstModel::Root { objects: nodes_view(objects@) }),
    {
        proof {
            lemma_nodes_view(objects@, objects@.len());
        }
        AstNode::Root { objects }
    }

    /// An object, named or not, with its fields.
    pub fn object(name: Option<String>, fields: Vec<(String, AstNode)>) -> (node: Self)
        ensures
            node@ == (AstModel::Object {
                name: text_of_option(name),
                fields: named_nodes_view(fields@),
            }),
    {
        proof {
            lemma_named_nodes_view(fields@, fields@.len());
        }
        AstNode::Object { name, fields }
    }

    /// An array literal.
    pub fn array(elements: Vec<AstNode>) -> (node: Self)
        ensures
            node@ == (AstModel::Array { elements: nodes_view(elements@) }),
    {
        proof {
            lemma_nodes_view(elements@, elements@.len());
        }
        AstNode::Array { elements }
    }

    /// A literal value.
    pub fn literal(value: CfgppValue) -> (node: Self)
        ensures
            node@ == (AstModel::Literal { value: value@ }),
    {
        AstNode::Literal { value }
    }

    /// The assignment of `value` to `key`.
    pub fn assignment(key: String, value: AstNode) -> (node: Self)
        ensures
            node@ == (AstModel::Assignment { key: key@, value: Box::new(value@) }),
    {
        AstNode::Assignment { key, value: Box::new(value) }
    }

    /// An include directive.
    pub fn include_directive(path: String) -> (node: Self)
        ensures
            node@ == (AstModel::Include { path: path@ }),
    {
        AstNode::Include { path }
    }

    /// A reference to an environment variable.
    pub fn env_var(name: String, default: Option<String>) -> (node: Self)
        ensures
            node@ == (AstModel::EnvVar { name: name@, default: text_of_option(default) }),
    {
        AstNode::EnvVar { name, default }
    }

    /// An enum definition.
    pub fn enum_def(name: String, values: Vec<String>) -> (node: Self)
        ensures
            node@ == (AstModel::EnumDef { name: name@, values: texts_of(values@) }),
    {
        AstNode::EnumDef { name, values }
    }

    /// Two operands and their operator.
    pub fn expression(operator: BinaryOperator, left: AstNode, right: AstNode) -> (node: Self)
        ensures
            node@ == (AstModel::Expression {
                operator,
                left: Box::new(left@),
                right: Box::new(right@),
            }),
    {
        AstNode::Expression { operator, left: Box::new(left), right: Box::new(right) }
    }

    /// A name qualified by namespaces.
    pub fn namespace(parts: Vec<String>) -> (node: Self)
        ensures
            node@ == (AstModel::Namespace { parts: texts_of(parts@) }),
    {
        AstNode::Namespace { parts }
    }

    /// The name of the node's kind.
    pub fn kind_name(&self) -> (r: &'static str)
        ensures
            r@ == self@.kind_name(),
    {
        match self {
            AstNode::Root { .. } => "root",
            AstNode::Object { .. } => "object",
            AstNode::Array { .. } => "array",
            AstNode::EnumDef { .. } => "enum_def",
            AstNode::Include { .. } => "include",
            AstNode::EnvVar { .. } => "env_var",
            AstNode::Assignment { .. } => "assignment",
            AstNode::Literal { .. } => "literal",
            AstNode::Expression { .. } => "expression",
            AstNode::Namespace { .. } => "namespace",
        }
    }

    /// Whether the node is a literal.
    pub fn is_literal(&self) -> (r: bool)
        ensures
            r == (self@ is Literal),
    {
        match self {
            AstNode::Literal { .. } => true,
            _ => false,
        }
    }

    /// Whether the node is an object.
    pub fn is_object(&self) -> (r: bool)
        ensures
            r == (self@ is Object),
    {
        match self {
            AstNode::Object { .. } => true,
            _ => false,
        }
    }

    /// Whether the node is an array.
    pub fn is_array(&self) -> (r: bool)
        ensures
            r == (self@ is Array),
    {
        match self {
            AstNode::Array { .. } => true,
            _ => false,
        }
    }

    /// Whether the node is an assignment.
    pub fn is_assignment(&self) -> (r: bool)
        ensures
            r == (self@ is Assignment),
    {
        match self {
            AstNode::Assignment { .. } => true,
            _ => false,
        }
    }

    /// The value of a literal node.
    pub fn as_literal(&self) -> (r: Option<&CfgppValue>)
        ensures
            match r {
                Some(value) => self@ == (AstModel::Literal { value: value@ }),
                None => !(self@ is Literal),
            },
    {
        match self {
            AstNode::Literal { value } => Some(value),
            _ => None,
        }
    }

    /// The fields of an object node.
    pub fn as_object(&self) -> (r: Option<&Vec<(String, AstNode)>>)
        ensures
            match r {
                Some(fields) => self@ is Object && self@->Object_fields == named_nodes_view(
                    fields@,
                ),
                None => !(self@ is Object),
            },
    {
        match self {
            AstNode::Object { fields, .. } => {
                proof {
                    lemma_named_nodes_view(fields@, fields@.len());
                }
                Some(fields)
            },
            _ => None,
        }
    }

    /// The elements of an array node.
    pub fn as_array(&self) -> (r: Option<&Vec<AstNode>>)
        ensures
            match r {
                Some(elements) => self@ == (AstModel::Array { elements: nodes_view(elements@) }),
                None => !(self@ is Array),
            },
    {
        match self {
            AstNode::Array { elements } => {
                proof {
                    lemma_nodes_view(elements@, elements@.len());
                }
                Some(elements)
            },
            _ => None,
        }
    }

    /// The value that the node stands for, or the error of the first node in
    /// it that stands for none.
    pub fn to_value(&self) -> (r: CfgppResult<CfgppValue>)
        ensures
            value_result(r, node_value(self@)),
        decreases self@, 0nat,
    {
        match self {
            AstNode::Literal { value } => Ok(value.clone()),
            AstNode::Object { fields, .. } => {
                proof {
                    lemma_named_nodes_view(fields@, fields@.len());
                    assert(decreases_to!(self@ => self@->Object_fields));
                }
                match fields_to_value(fields) {
                    Err(e) => Err(e),
                    Ok(entries) => {
                        proof {
                            lemma_object_view(entries);
                        }
                        Ok(CfgppValue::Object(entries))
                    },
                }
            },
            AstNode::Array { elements } => {
                proof {
                    lemma_nodes_view(elements@, elements@.len());
                    assert(decreases_to!(self@ => self@->Array_elements));
                }
                match elements_to_value(elements) {
                    Err(e) => Err(e),
                    Ok(items) => {
                        proof {
                            lemma_array_view(items);
                        }
                        Ok(CfgppValue::Array(items))
                    },
                }
            },
            AstNode::Assignment { value, .. } => {
                proof {
                    assert(decreases_to!(self@ => self@->Assignment_value));
                }
                value.to_value()
            },
            AstNode::Root { objects } => {
                proof {
                    lemma_nodes_view(objects@, objects@.len());
                    assert(decreases_to!(self@ => self@->Root_objects));
                }
                match root_to_value(objects) {
                    Err(e) => Err(e),
                    Ok(entries) => {
                        proof {
                            lemma_object_view(entries);
                        }
                        Ok(CfgppValue::Object(entries))
                    },
                }
            },
            _ => {
                let mut message = String::new();
                message.append("Cannot convert ");
                message.append(self.kind_name());
                message.append(" to value");
                assert(message@ =~= "Cannot convert "@ + self@.kind_name() + " to value"@);
                Err(CfgppError::ParseError { message })
            },
        }
    }
}

/// A copy of `texts`.
fn copy_of_texts(texts: &Vec<String>) -> (r: Vec<String>)
    ensures
        texts_of(r@) == texts_of(texts@),
{
    let mut copy: Vec<String> = Vec::new();
    let mut i: usize = 0;
    while i < texts.len()
        invariant
            i <= texts@.len(),
            copy@.len() == i,
            forall|k: int| 0 <= k < i ==> copy@[k]@ == texts@[k]@,
        decreases texts@.len() - i,
    {
        copy.push(texts[i].clone());
        i = i + 1;
    }
    assert(texts_of(copy@) =~= texts_of(texts@));
    copy
}

/// A copy of an optional text.
fn copy_of_option(text: &Option<String>) -> (r: Option<String>)
    ensures
        text_of_option(r) == text_of_option(*text),
{
    match text {
        Some(t) => Some(t.clone()),
        None => None,
    }
}

/// A deep copy of `nodes`.
fn copy_of_nodes(nodes: &Vec<AstNode>) -> (r: Vec<AstNode>)
    ensures
        nodes_view(r@) == nodes_view(nodes@),
    decreases nodes_view(nodes@), 0nat,
{
    let ghost all = nodes_view(nodes@);
    let mut copy: Vec<AstNode> = Vec::new();
    let mut i: usize = 0;
    while i < nodes.len()
        invariant
            i <= nodes@.len(),
            all == nodes_view(nodes@),
            copy@.len() == i,
            forall|k: int| 0 <= k < i ==> copy@[k]@ == nodes@[k]@,
        decreases nodes@.len() - i,
    {
        proof {
            assert(decreases_to!(all => all[i as int]));
            assert(all[i as int] == nodes@[i as int]@);
        }
        copy.push(copy_of_node(&nodes[i]));
        i = i + 1;
    }
    assert(nodes_view(copy@) =~= nodes_view(nodes@));
    copy
}

/// A deep copy of `fields`.
fn copy_of_named_nodes(fields: &Vec<(String, AstNode)>) -> (r: Vec<(String, AstNode)>)
    ensures
        named_nodes_view(r@) == named_nodes_view(fields@),
    decreases named_nodes_view(fields@), 0nat,
{
    let ghost all = named_nodes_view(fields@);
    let mut copy: Vec<(String, AstNode)> = Vec::new();
    let mut i: usize = 0;
    while i < fields.len()
        invariant
            i <= fields@.len(),
            all == named_nodes_view(fields@),
            copy@.len() == i,
            forall|k: int|
                0 <= k < i ==> copy@[k].0@ == fields@[k].0@ && copy@[k].1@ == fields@[k].1@,
        decreases fields@.len() - i,
    {
        proof {
            assert(decreases_to!(all => all[i as int]));
            assert(decreases_to!(all[i as int] => all[i as int].1));
            assert(all[i as int].1 == fields@[i as int].1@);
        }
        copy.push((fields[i].0.clone(), copy_of_node(&fields[i].1)));
        i = i + 1;
    }
    assert(named_nodes_view(copy@) =~= named_nodes_view(fields@));
    copy
}

/// A deep copy of `node`.
fn copy_of_node(node: &AstNode) -> (r: AstNode)
    ensures
        r@ == node@,
    decreases node@, 0nat,
{
    match node {
        AstNode::Root { objects } => {
            proof {
                lemma_nodes_view(objects@, objects@.len());
                assert(decreases_to!(node@ => node@->Root_objects));
            }
            AstNode::root(copy_of_nodes(objects))
        },
        AstNode::Object { name, fields } => {
            proof {
                lemma_named_nodes_view(fields@, fields@.len());
                assert(decreases_to!(node@ => node@->Object_fields));
            }
            AstNode::object(copy_of_option(name), copy_of_named_nodes(fields))
        },
        AstNode::Array { elements } => {
            proof {
                lemma_nodes_view(elements@, elements@.len());
                assert(decreases_to!(node@ => node@->Array_elements));
            }
            AstNode::array(copy_of_nodes(elements))
        },
        AstNode::EnumDef { name, values } => AstNode::enum_def(name.clone(), copy_of_texts(values)),
        AstNode::Include { path } => AstNode::include_directive(path.clone()),
        AstNode::EnvVar { name, default } => AstNode::env_var(name.clone(), copy_of_option(default)),
        AstNode::Assignment { key, value } => {
            proof {
                assert(decreases_to!(node@ => node@->Assignment_value));
            }
            AstNode::assignment(key.clone(), copy_of_node(value))
        },
        AstNode::Literal { value } => AstNode::literal(value.clone()),
        AstNode::Expression { operator, left, right } => {
            proof {
                assert(decreases_to!(node@ => node@->Expression_left));
                assert(decreases_to!(node@ => node@->Expression_right));
            }
            AstNode::expression(*operator, copy_of_node(left), copy_of_node(right))
        },
        AstNode::Namespace { parts } => AstNode::namespace(copy_of_texts(parts)),
    }
}

impl Clone for AstNode {
    /// A deep copy: a node with the same model.
    fn clone(&self) -> (r: Self)
        ensures
            r@ == self@,
    {
        copy_of_node(self)
    }
}

} // verus!
