//! Operators, functions and converters known to the parser and the model.
use vstd::prelude::*;
use crate::types::{
    lemma_node_views_index, lemma_node_views_map, node_view, node_views, Function, Node, NodeView,
    OperationNode, Operator, ValueNode,
};

verus! {

/// Whether two string slices hold the same characters.
pub(crate) fn str_equal(a: &str, b: &str) -> (r: bool)
    ensures
        r == (a@ == b@),
{
    String::from_str(a) == String::from_str(b)
}

/// The first function of `fs` named `name`.
pub open spec fn find_function_spec(fs: Seq<Function>, name: Seq<char>) -> Option<Function>
    decreases fs.len(),
{
    if fs.len() == 0 {
        None
    } else if fs[0].name@ == name {
        Some(fs[0])
    } else {
        find_function_spec(fs.subrange(1, fs.len() as int), name)
    }
}

/// The first operator of `os` named `name` that takes `arity` arguments.
pub open spec fn find_operator_spec(os: Seq<Operator>, name: Seq<char>, arity: usize) -> Option<
    Operator,
>
    decreases os.len(),
{
    if os.len() == 0 {
        None
    } else if os[0].name@ == name && os[0].arguments_number == arity {
        Some(os[0])
    } else {
        find_operator_spec(os.subrange(1, os.len() as int), name, arity)
    }
}

/// An operation that converters rewrite from or to.
#[derive(Debug, PartialEq)]
pub enum ConverterOperation {
    Operator(Operator),
    Function(Function),
}

impl Clone for ConverterOperation {
    fn clone(&self) -> (r: Self)
        ensures
            r == *self,
    {
        match self {
            ConverterOperation::Operator(o) => ConverterOperation::Operator(o.clone()),
            ConverterOperation::Function(f) => ConverterOperation::Function(f.clone()),
        }
    }
}

/// Two operations that print the same (same name and same attributes).
pub open spec fn same_operation(a: ConverterOperation, b: ConverterOperation) -> bool {
    match (a, b) {
        (ConverterOperation::Operator(x), ConverterOperation::Operator(y)) => {
            &&& x.name@ == y.name@
            &&& x.precedence == y.precedence
            &&& x.associativity == y.associativity
            &&& x.arguments_number == y.arguments_number
            &&& x.complexity == y.complexity
        },
        (ConverterOperation::Function(x), ConverterOperation::Function(y)) => {
            &&& x.name@ == y.name@
            &&& x.arguments_number == y.arguments_number
            &&& x.complexity == y.complexity
        },
        _ => false,
    }
}

/// Decides `same_operation`.
pub fn operation_eq(a: &ConverterOperation, b: &ConverterOperation) -> (r: bool)
    ensures
        r == same_operation(*a, *b),
{
    match (a, b) {
        (ConverterOperation::Operator(x), ConverterOperation::Operator(y)) => {
            str_equal(x.name.as_str(), y.name.as_str()) && x.precedence == y.precedence
                && x.associativity == y.associativity && x.arguments_number == y.arguments_number
                && x.complexity == y.complexity
        },
        (ConverterOperation::Function(x), ConverterOperation::Function(y)) => {
            str_equal(x.name.as_str(), y.name.as_str()) && x.arguments_number
                == y.arguments_number && x.complexity == y.complexity
        },
        _ => false,
    }
}

/// When a converter applies to the arguments of an operation.
#[derive(Debug, Clone, Copy, PartialEq, Eq, Structural)]
pub enum ConversionCondition {
    /// Always.
    Always,
    /// When the argument at `position` is a constant whose bit pattern lies
    /// in `low..=high`.
    ConstantInRange { position: usize, low: u64, high: u64 },
}

/// How a converter rewrites the arguments of an operation.
#[derive(Debug, Clone, Copy, PartialEq, Eq, Structural)]
pub enum ArgumentsTransform {
    /// Inserts the constant with bit pattern `value` at `position`.
    InsertConstant { position: usize, value: u64 },
    /// Appends the constant with bit pattern `value` after the arguments.
    AppendConstant { value: u64 },
    /// Removes the argument at `position`.
    RemoveArgument { position: usize },
}

pub open spec fn condition_holds(c: ConversionCondition, args: Seq<Node>) -> bool {
    match c {
        ConversionCondition::Always => true,
        ConversionCondition::ConstantInRange { position, low, high } => {
            &&& position < args.len()
            &&& args[position as int] matches Node::Value(ValueNode::Constant(b))
            &&& low <= b <= high
        },
    }
}

pub open spec fn transformed(t: ArgumentsTransform, args: Seq<Node>) -> Seq<Node> {
    match t {
        ArgumentsTransform::InsertConstant { position, value } => {
            if position <= args.len() {
                args.insert(position as int, Node::Value(ValueNode::Constant(value)))
            } else {
                args
            }
        },
        ArgumentsTransform::AppendConstant { value } => args.push(Node::Value(ValueNode::Constant(value))),
        ArgumentsTransform::RemoveArgument { position } => {
            if position < args.len() {
                args.remove(position as int)
            } else {
                args
            }
        },
    }
}

/// Rewrites one operation into another, e.g. `ln(x)` into `log(e, x)`.
#[derive(Debug)]
pub struct Converter {
    pub from: ConverterOperation,
    pub to: ConverterOperation,
    pub condition: ConversionCondition,
    pub transform: ArgumentsTransform,
}

/// Two converters are equal when they convert from and to the same
/// operations.
impl PartialEq for Converter {
    fn eq(&self, other: &Converter) -> (r: bool) {
        operation_eq(&self.from, &other.from) && operation_eq(&self.to, &other.to)
    }
}

impl vstd::std_specs::cmp::PartialEqSpecImpl for Converter {
    open spec fn obeys_eq_spec() -> bool {
        true
    }

    open spec fn eq_spec(&self, other: &Converter) -> bool {
        same_operation(self.from, other.from) && same_operation(self.to, other.to)
    }
}

/// The operation and the arguments that a conversion yields.
#[derive(Debug, PartialEq)]
pub struct ConvertOutputData {
    pub operation: ConverterOperation,
    pub arguments: Vec<Node>,
}

impl ConvertOutputData {
    /// The node that applies the operation to the arguments.
    pub open spec fn node_spec(self) -> Node {
        match self.operation {
            ConverterOperation::Function(f) => Node::Function(
                OperationNode { operation: f, arguments: self.arguments },
            ),
            ConverterOperation::Operator(o) => Node::Operator(
                OperationNode { operation: o, arguments: self.arguments },
            ),
        }
    }

    pub fn to_node(self) -> (r: Node)
        ensures
            r == self.node_spec(),
    {
        match self.operation {
            ConverterOperation::Function(function) => Node::Function(
                OperationNode { operation: function, arguments: self.arguments },
            ),
            ConverterOperation::Operator(operator) => Node::Operator(
                OperationNode { operation: operator, arguments: self.arguments },
            ),
        }
    }
}

/// Applies an arguments transform.
fn transform_arguments(t: ArgumentsTransform, arguments: Vec<Node>) -> (r: Vec<Node>)
    ensures
        r@ == transformed(t, arguments@),
{
    let mut arguments = arguments;
    match t {
        ArgumentsTransform::InsertConstant { position, value } => {
            if position <= arguments.len() {
                arguments.insert(position, Node::Value(ValueNode::Constant(value)));
            }
        },
        ArgumentsTransform::AppendConstant { value } => {
            arguments.push(Node::Value(ValueNode::Constant(value)));
        },
        ArgumentsTransform::RemoveArgument { position } => {
            if position < arguments.len() {
                arguments.remove(position);
            }
        },
    }
    arguments
}

/// Decides `condition_holds`.
fn condition_check(c: ConversionCondition, arguments: &[Node]) -> (r: bool)
    ensures
        r == condition_holds(c, arguments@),
{
    match c {
        ConversionCondition::Always => true,
        ConversionCondition::ConstantInRange { position, low, high } => {
            if position < arguments.len() {
                match &arguments[position] {
                    Node::Value(ValueNode::Constant(b)) => low <= *b && *b <= high,
                    _ => false,
                }
            } else {
                false
            }
        },
    }
}

impl Converter {
    pub open spec fn applies(&self, operation: ConverterOperation, arguments: Seq<Node>) -> bool {
        same_operation(operation, self.from) && condition_holds(self.condition, arguments)
    }

    pub fn is_conversion_possible(&self, operation: &ConverterOperation, arguments: &[Node]) -> (r:
        bool)
        ensures
            r == self.applies(*operation, arguments@),
    {
        operation_eq(operation, &self.from) && condition_check(self.condition, arguments)
    }

    pub fn convert(&self, arguments: Vec<Node>) -> (r: ConvertOutputData)
        ensures
            r.operation == self.to,
            r.arguments@ == transformed(self.transform, arguments@),
    {
        ConvertOutputData {
            operation: self.to.clone(),
            arguments: transform_arguments(self.transform, arguments),
        }
    }
}

/// What the first applicable converter of `cs` makes of `operation` applied
/// to `arguments`; unchanged when none applies.
pub open spec fn convert_spec(cs: Seq<Converter>, operation: ConverterOperation, arguments: Seq<
    Node,
>) -> (ConverterOperation, Seq<Node>)
    decreases cs.len(),
{
    if cs.len() == 0 {
        (operation, arguments)
    } else if cs[0].applies(operation, arguments) {
        (cs[0].to, transformed(cs[0].transform, arguments))
    } else {
        convert_spec(cs.subrange(1, cs.len() as int), operation, arguments)
    }
}

/// Operators, functions and converters available to the parser and the model,
/// and the complexity of variables and constants.
pub struct Settings {
    pub operators: Vec<Operator>,
    pub functions: Vec<Function>,
    pub converters: Vec<Converter>,
    pub variable_complexity: u32,
    pub constant_complexity: u32,
}

impl Settings {
    pub fn find_function_by_name(&self, name: &str) -> (r: Option<Function>)
        ensures
            r == find_function_spec(self.functions@, name@),
    {
        let ghost fs = self.functions@;
        assert(fs.skip(0) =~= fs);
        let mut i: usize = 0;
        while i < self.functions.len()
            invariant
                0 <= i <= fs.len(),
                fs == self.functions@,
                find_function_spec(fs, name@) == find_function_spec(fs.skip(i as int), name@),
            decreases fs.len() - i,
        {
            let ghost rest = fs.skip(i as int);
            assert(rest[0] == fs[i as int]);
            assert(rest.subrange(1, rest.len() as int) =~= fs.skip(i + 1));
            if str_equal(self.functions[i].name.as_str(), name) {
                return Some(self.functions[i].clone());
            }
            i = i + 1;
        }
        None
    }

    fn find_operator(&self, name: &str, arity: usize) -> (r: Option<Operator>)
        ensures
            r == find_operator_spec(self.operators@, name@, arity),
    {
        let ghost os = self.operators@;
        assert(os.skip(0) =~= os);
        let mut i: usize = 0;
        while i < self.operators.len()
            invariant
                0 <= i <= os.len(),
                os == self.operators@,
                find_operator_spec(os, name@, arity) == find_operator_spec(
                    os.skip(i as int),
                    name@,
                    arity,
                ),
            decreases os.len() - i,
        {
            let ghost rest = os.skip(i as int);
            assert(rest[0] == os[i as int]);
            assert(rest.subrange(1, rest.len() as int) =~= os.skip(i + 1));
            if str_equal(self.operators[i].name.as_str(), name) && self.operators[i].arguments_number
                == arity {
                return Some(self.operators[i].clone());
            }
            i = i + 1;
        }
        None
    }

    pub fn find_unary_operator_by_name(&self, name: &str) -> (r: Option<Operator>)
        ensures
            r == find_operator_spec(self.operators@, name@, 1),
    {
        self.find_operator(name, 1)
    }

    pub fn find_binary_operator_by_name(&self, name: &str) -> (r: Option<Operator>)
        ensures
            r == find_operator_spec(self.operators@, name@, 2),
    {
        self.find_operator(name, 2)
    }

    /// The converters, in order, that convert from `operation`.
    pub fn find_converters(&self, operation: &ConverterOperation) -> (r: Vec<&Converter>)
        ensures
            r@.map_values(|c: &Converter| *c) == self.converters@.filter(
                |c: Converter| same_operation(c.from, *operation),
            ),
    {
        let ghost cs = self.converters@;
        let ghost pred = |c: Converter| same_operation(c.from, *operation);
        let mut r: Vec<&Converter> = Vec::new();
        let mut i: usize = 0;
        while i < self.converters.len()
            invariant
                0 <= i <= cs.len(),
                cs == self.converters@,
                pred == (|c: Converter| same_operation(c.from, *operation)),
                r@.map_values(|c: &Converter| *c) == cs.take(i as int).filter(pred),
            decreases cs.len() - i,
        {
            proof {
                reveal_with_fuel(Seq::<_>::filter, 1);
                assert(cs.take(i + 1).drop_last() =~= cs.take(i as int));
            }
            let ghost old_r = r@;
            if operation_eq(&self.converters[i].from, operation) {
                r.push(&self.converters[i]);
                assert(r@.map_values(|c: &Converter| *c) =~= old_r.map_values(|c: &Converter| *c).push(cs[i as int]));
            } else {
                assert(r@ == old_r);
            }
            i = i + 1;
        }
        proof {
            assert(cs.take(cs.len() as int) =~= cs);
        }
        r
    }

    /// Applies the first converter that applies to `operation` on
    /// `arguments`; returns them unchanged when none does.
    pub fn convert(&self, operation: ConverterOperation, arguments: Vec<Node>) -> (r:
        ConvertOutputData)
        ensures
            (r.operation, r.arguments@) == convert_spec(self.converters@, operation, arguments@),
    {
        let ghost cs = self.converters@;
        assert(cs.skip(0) =~= cs);
        let mut i: usize = 0;
        while i < self.converters.len()
            invariant
                0 <= i <= cs.len(),
                cs == self.converters@,
                convert_spec(cs, operation, arguments@) == convert_spec(
                    cs.skip(i as int),
                    operation,
                    arguments@,
                ),
            decreases cs.len() - i,
        {
            let ghost rest = cs.skip(i as int);
            assert(rest[0] == cs[i as int]);
            assert(rest.subrange(1, rest.len() as int) =~= cs.skip(i + 1));
            if self.converters[i].is_conversion_possible(&operation, arguments.as_slice()) {
                return self.converters[i].convert(arguments);
            }
            i = i + 1;
        }
        ConvertOutputData { operation, arguments }
    }
}

} // verus!

verus! {

pub open spec fn condition_holds_view(c: ConversionCondition, args: Seq<NodeView>) -> bool {
    match c {
        ConversionCondition::Always => true,
        ConversionCondition::ConstantInRange { position, low, high } => {
            &&& position < args.len()
            &&& args[position as int] matches NodeView::Constant(b)
            &&& low <= b <= high
        },
    }
}

pub open spec fn transformed_view(t: ArgumentsTransform, args: Seq<NodeView>) -> Seq<NodeView> {
    match t {
        ArgumentsTransform::InsertConstant { position, value } => {
            if position <= args.len() {
                args.insert(position as int, NodeView::Constant(value))
            } else {
                args
            }
        },
        ArgumentsTransform::AppendConstant { value } => args.push(NodeView::Constant(value)),
        ArgumentsTransform::RemoveArgument { position } => {
            if position < args.len() {
                args.remove(position as int)
            } else {
                args
            }
        },
    }
}

/// `convert_spec` on views.
pub open spec fn convert_view_spec(cs: Seq<Converter>, operation: ConverterOperation, arguments: Seq<
    NodeView,
>) -> (ConverterOperation, Seq<NodeView>)
    decreases cs.len(),
{
    if cs.len() == 0 {
        (operation, arguments)
    } else if same_operation(operation, cs[0].from) && condition_holds_view(
        cs[0].condition,
        arguments,
    ) {
        (cs[0].to, transformed_view(cs[0].transform, arguments))
    } else {
        convert_view_spec(cs.subrange(1, cs.len() as int), operation, arguments)
    }
}

/// Converting and then taking views is taking views and then converting.
pub proof fn lemma_convert_view(cs: Seq<Converter>, operation: ConverterOperation, args: Seq<Node>)
    ensures
        convert_spec(cs, operation, args).0 == convert_view_spec(cs, operation, node_views(args)).0,
        node_views(convert_spec(cs, operation, args).1) == convert_view_spec(
            cs,
            operation,
            node_views(args),
        ).1,
    decreases cs.len(),
{
    lemma_node_views_map(args);
    if cs.len() > 0 {
        let c = cs[0];
        lemma_node_views_index(args);
        assert(condition_holds(c.condition, args) == condition_holds_view(
            c.condition,
            node_views(args),
        ));
        let t = transformed(c.transform, args);
        lemma_node_views_map(t);
        match c.transform {
            ArgumentsTransform::InsertConstant { position, value } => {
                if position <= args.len() {
                    assert(t.map_values(|n: Node| node_view(n)) =~= args.map_values(
                        |n: Node| node_view(n),
                    ).insert(position as int, NodeView::Constant(value)));
                }
            },
            ArgumentsTransform::AppendConstant { value } => {
                assert(t.map_values(|n: Node| node_view(n)) =~= args.map_values(|n: Node| node_view(n)).push(
                    NodeView::Constant(value),
                ));
            },
            ArgumentsTransform::RemoveArgument { position } => {
                if position < args.len() {
                    assert(t.map_values(|n: Node| node_view(n)) =~= args.map_values(
                        |n: Node| node_view(n),
                    ).remove(position as int));
                }
            },
        }
        lemma_convert_view(cs.subrange(1, cs.len() as int), operation, args);
    }
}

} // verus!
