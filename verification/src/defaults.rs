//! The default operators, functions and converters.
use vstd::prelude::*;
use crate::settings::{
    convert_view_spec, find_function_spec, find_operator_spec, same_operation, ArgumentsTransform,
    ConversionCondition, Converter, ConverterOperation, Settings,
};
use crate::types::{Associativity, Function, NodeView, Operator};

verus! {

/// The bit pattern of Euler's number `e` as an IEEE-754 binary64 value.
pub const E_BITS: u64 = 0x4005bf0a8b145769u64;

/// The bit pattern of `0.5`.
pub const HALF_BITS: u64 = 0x3fe0000000000000u64;

/// The bit patterns of the binary64 values `c` with `|c - e| <= 0.001`
/// (computed in binary64) form the range `E_LOW_BITS..=E_HIGH_BITS`.
pub const E_LOW_BITS: u64 = 0x4005bcfe4159f934u64;

pub const E_HIGH_BITS: u64 = 0x4005c116d4ceb59eu64;

/// The bit patterns of the binary64 values `c` with `|c - 0.5| <= 0.001`
/// (computed in binary64) form the range `HALF_LOW_BITS..=HALF_HIGH_BITS`.
pub const HALF_LOW_BITS: u64 = 0x3fdfef9db22d0e57u64;

pub const HALF_HIGH_BITS: u64 = 0x3fe0083126e978d4u64;

pub open spec fn operator_is(
    o: Operator,
    name: Seq<char>,
    arguments_number: usize,
    precedence: u8,
    associativity: Associativity,
    complexity: u32,
) -> bool {
    &&& o.name@ == name
    &&& o.arguments_number == arguments_number
    &&& o.precedence == precedence
    &&& o.associativity == associativity
    &&& o.complexity == complexity
}

pub open spec fn function_is(f: Function, name: Seq<char>, arguments_number: usize, complexity: u32) -> bool {
    &&& f.name@ == name
    &&& f.arguments_number == arguments_number
    &&& f.complexity == complexity
}

/// The default operators: binary `+ - * / ^` and unary `+ -`.
pub open spec fn default_operators_spec(os: Seq<Operator>) -> bool {
    &&& os.len() == 7
    &&& operator_is(os[0], "+"@, 2, 1, Associativity::Left, 1)
    &&& operator_is(os[1], "-"@, 2, 1, Associativity::Left, 1)
    &&& operator_is(os[2], "*"@, 2, 2, Associativity::Left, 2)
    &&& operator_is(os[3], "/"@, 2, 2, Associativity::Left, 2)
    &&& operator_is(os[4], "^"@, 2, 3, Associativity::Right, 3)
    &&& operator_is(os[5], "+"@, 1, 4, Associativity::Right, 1)
    &&& operator_is(os[6], "-"@, 1, 4, Associativity::Right, 1)
}

/// The default functions.
pub open spec fn default_functions_spec(fs: Seq<Function>) -> bool {
    &&& fs.len() == 21
    &&& function_is(fs[0], "abs"@, 1, 3)
    &&& function_is(fs[1], "log"@, 2, 4)
    &&& function_is(fs[2], "sin"@, 1, 4)
    &&& function_is(fs[3], "arcsin"@, 1, 5)
    &&& function_is(fs[4], "cos"@, 1, 4)
    &&& function_is(fs[5], "arccos"@, 1, 5)
    &&& function_is(fs[6], "tan"@, 1, 5)
    &&& function_is(fs[7], "arctan"@, 1, 6)
    &&& function_is(fs[8], "cot"@, 1, 5)
    &&& function_is(fs[9], "arccot"@, 1, 6)
    &&& function_is(fs[10], "sinh"@, 1, 5)
    &&& function_is(fs[11], "arsinh"@, 1, 6)
    &&& function_is(fs[12], "cosh"@, 1, 5)
    &&& function_is(fs[13], "arcosh"@, 1, 6)
    &&& function_is(fs[14], "tanh"@, 1, 6)
    &&& function_is(fs[15], "artanh"@, 1, 7)
    &&& function_is(fs[16], "coth"@, 1, 6)
    &&& function_is(fs[17], "arcoth"@, 1, 7)
    &&& function_is(fs[18], "ln"@, 1, 4)
    &&& function_is(fs[19], "exp"@, 1, 3)
    &&& function_is(fs[20], "sqrt"@, 1, 3)
}

/// The default converters, from the internal form to the output form and
/// back: `ln(x)` is `log(e, x)`, `exp(x)` is `e ^ x`, `sqrt(x)` is `x ^ 0.5`.
pub open spec fn default_converters_spec(cs: Seq<Converter>, os: Seq<Operator>, fs: Seq<Function>) -> bool {
    let circumflex = ConverterOperation::Operator(find_operator_spec(os, "^"@, 2).unwrap());
    let log = ConverterOperation::Function(find_function_spec(fs, "log"@).unwrap());
    let ln = ConverterOperation::Function(find_function_spec(fs, "ln"@).unwrap());
    let exp = ConverterOperation::Function(find_function_spec(fs, "exp"@).unwrap());
    let sqrt = ConverterOperation::Function(find_function_spec(fs, "sqrt"@).unwrap());
    &&& cs.len() == 6
    &&& cs[0] == Converter {
        from: ln,
        to: log,
        condition: ConversionCondition::Always,
        transform: ArgumentsTransform::InsertConstant { position: 0, value: E_BITS },
    }
    &&& cs[1] == Converter {
        from: exp,
        to: circumflex,
        condition: ConversionCondition::Always,
        transform: ArgumentsTransform::InsertConstant { position: 0, value: E_BITS },
    }
    &&& cs[2] == Converter {
        from: sqrt,
        to: circumflex,
        condition: ConversionCondition::Always,
        transform: ArgumentsTransform::AppendConstant { value: HALF_BITS },
    }
    &&& cs[3] == Converter {
        from: log,
        to: ln,
        condition: ConversionCondition::ConstantInRange { position: 0, low: E_LOW_BITS, high: E_HIGH_BITS },
        transform: ArgumentsTransform::RemoveArgument { position: 0 },
    }
    &&& cs[4] == Converter {
        from: circumflex,
        to: exp,
        condition: ConversionCondition::ConstantInRange { position: 0, low: E_LOW_BITS, high: E_HIGH_BITS },
        transform: ArgumentsTransform::RemoveArgument { position: 0 },
    }
    &&& cs[5] == Converter {
        from: circumflex,
        to: sqrt,
        condition: ConversionCondition::ConstantInRange { position: 1, low: HALF_LOW_BITS, high: HALF_HIGH_BITS },
        transform: ArgumentsTransform::RemoveArgument { position: 1 },
    }
}

fn operator(name: &str, arguments_number: usize, precedence: u8, associativity: Associativity, complexity: u32) -> (r: Operator)
    ensures
        operator_is(r, name@, arguments_number, precedence, associativity, complexity),
{
    Operator { name: String::from_str(name), arguments_number, precedence, associativity, complexity }
}

fn function(name: &str, arguments_number: usize, complexity: u32) -> (r: Function)
    ensures
        function_is(r, name@, arguments_number, complexity),
{
    Function { name: String::from_str(name), arguments_number, complexity }
}

impl Settings {
    pub fn get_default_operators() -> (r: Vec<Operator>)
        ensures
            default_operators_spec(r@),
    {
        let mut r: Vec<Operator> = Vec::new();
        r.push(operator("+", 2, 1, Associativity::Left, 1));
        r.push(operator("-", 2, 1, Associativity::Left, 1));
        r.push(operator("*", 2, 2, Associativity::Left, 2));
        r.push(operator("/", 2, 2, Associativity::Left, 2));
        r.push(operator("^", 2, 3, Associativity::Right, 3));
        r.push(operator("+", 1, 4, Associativity::Right, 1));
        r.push(operator("-", 1, 4, Associativity::Right, 1));
        r
    }

    pub fn get_default_functions() -> (r: Vec<Function>)
        ensures
            default_functions_spec(r@),
    {
        let mut r: Vec<Function> = Vec::new();
        r.push(function("abs", 1, 3));
        r.push(function("log", 2, 4));
        r.push(function("sin", 1, 4));
        r.push(function("arcsin", 1, 5));
        r.push(function("cos", 1, 4));
        r.push(function("arccos", 1, 5));
        r.push(function("tan", 1, 5));
        r.push(function("arctan", 1, 6));
        r.push(function("cot", 1, 5));
        r.push(function("arccot", 1, 6));
        r.push(function("sinh", 1, 5));
        r.push(function("arsinh", 1, 6));
        r.push(function("cosh", 1, 5));
        r.push(function("arcosh", 1, 6));
        r.push(function("tanh", 1, 6));
        r.push(function("artanh", 1, 7));
        r.push(function("coth", 1, 6));
        r.push(function("arcoth", 1, 7));
        r.push(function("ln", 1, 4));
        r.push(function("exp", 1, 3));
        r.push(function("sqrt", 1, 3));
        r
    }

    /// The default converters between the operators and functions of `self`.
    pub fn get_default_converters(&self) -> (r: Vec<Converter>)
        requires
            find_operator_spec(self.operators@, "^"@, 2) is Some,
            find_function_spec(self.functions@, "log"@) is Some,
            find_function_spec(self.functions@, "ln"@) is Some,
            find_function_spec(self.functions@, "exp"@) is Some,
            find_function_spec(self.functions@, "sqrt"@) is Some,
        ensures
            default_converters_spec(r@, self.operators@, self.functions@),
    {
        let circumflex = self.find_binary_operator_by_name("^").unwrap();
        let log = self.find_function_by_name("log").unwrap();
        let ln = self.find_function_by_name("ln").unwrap();
        let exp = self.find_function_by_name("exp").unwrap();
        let sqrt = self.find_function_by_name("sqrt").unwrap();
        let mut r: Vec<Converter> = Vec::new();
        r.push(Converter {
            from: ConverterOperation::Function(ln.clone()),
            to: ConverterOperation::Function(log.clone()),
            condition: ConversionCondition::Always,
            transform: ArgumentsTransform::InsertConstant { position: 0, value: E_BITS },
        });
        r.push(Converter {
            from: ConverterOperation::Function(exp.clone()),
            to: ConverterOperation::Operator(circumflex.clone()),
            condition: ConversionCondition::Always,
            transform: ArgumentsTransform::InsertConstant { position: 0, value: E_BITS },
        });
        r.push(Converter {
            from: ConverterOperation::Function(sqrt.clone()),
            to: ConverterOperation::Operator(circumflex.clone()),
            condition: ConversionCondition::Always,
            transform: ArgumentsTransform::AppendConstant { value: HALF_BITS },
        });
        r.push(Converter {
            from: ConverterOperation::Function(log),
            to: ConverterOperation::Function(ln),
            condition: ConversionCondition::ConstantInRange { position: 0, low: E_LOW_BITS, high: E_HIGH_BITS },
            transform: ArgumentsTransform::RemoveArgument { position: 0 },
        });
        r.push(Converter {
            from: ConverterOperation::Operator(circumflex.clone()),
            to: ConverterOperation::Function(exp),
            condition: ConversionCondition::ConstantInRange { position: 0, low: E_LOW_BITS, high: E_HIGH_BITS },
            transform: ArgumentsTransform::RemoveArgument { position: 0 },
        });
        r.push(Converter {
            from: ConverterOperation::Operator(circumflex),
            to: ConverterOperation::Function(sqrt),
            condition: ConversionCondition::ConstantInRange { position: 1, low: HALF_LOW_BITS, high: HALF_HIGH_BITS },
            transform: ArgumentsTransform::RemoveArgument { position: 1 },
        });
        r
    }

    /// Replaces the operators with the default ones.
    pub fn set_default_operators(&mut self)
        ensures
            default_operators_spec(final(self).operators@),
            final(self).functions == old(self).functions,
            final(self).converters == old(self).converters,
            final(self).variable_complexity == old(self).variable_complexity,
            final(self).constant_complexity == old(self).constant_complexity,
    {
        self.operators = Settings::get_default_operators();
    }

    /// Replaces the functions with the default ones.
    pub fn set_default_functions(&mut self)
        ensures
            default_functions_spec(final(self).functions@),
            final(self).operators == old(self).operators,
            final(self).converters == old(self).converters,
            final(self).variable_complexity == old(self).variable_complexity,
            final(self).constant_complexity == old(self).constant_complexity,
    {
        self.functions = Settings::get_default_functions();
    }

    /// Replaces the converters with the default ones, built from the
    /// operators and functions of `self`.
    pub fn set_default_converters(&mut self)
        requires
            find_operator_spec(old(self).operators@, "^"@, 2) is Some,
            find_function_spec(old(self).functions@, "log"@) is Some,
            find_function_spec(old(self).functions@, "ln"@) is Some,
            find_function_spec(old(self).functions@, "exp"@) is Some,
            find_function_spec(old(self).functions@, "sqrt"@) is Some,
        ensures
            default_converters_spec(final(self).converters@, old(self).operators@, old(self).functions@),
            final(self).operators == old(self).operators,
            final(self).functions == old(self).functions,
            final(self).variable_complexity == old(self).variable_complexity,
            final(self).constant_complexity == old(self).constant_complexity,
    {
        self.converters = self.get_default_converters();
    }

    /// The default settings: the default operators, functions and
    /// converters; variables and constants have complexity 1.
    pub fn default() -> (r: Settings)
        ensures
            default_operators_spec(r.operators@),
            default_functions_spec(r.functions@),
            default_converters_spec(r.converters@, r.operators@, r.functions@),
            r.variable_complexity == 1,
            r.constant_complexity == 1,
    {
        let mut settings = Settings {
            operators: Settings::get_default_operators(),
            functions: Settings::get_default_functions(),
            converters: Vec::new(),
            variable_complexity: 1,
            constant_complexity: 1,
        };
        proof {
            lemma_default_names_found(settings.operators@, settings.functions@);
        }
        settings.converters = settings.get_default_converters();
        settings
    }
}

/// The names that the default converters look up are in the default tables.
pub proof fn lemma_default_names_found(os: Seq<Operator>, fs: Seq<Function>)
    requires
        default_operators_spec(os),
        default_functions_spec(fs),
    ensures
        find_operator_spec(os, "^"@, 2) == Some(os[4]),
        find_function_spec(fs, "log"@) == Some(fs[1]),
        find_function_spec(fs, "ln"@) == Some(fs[18]),
        find_function_spec(fs, "exp"@) == Some(fs[19]),
        find_function_spec(fs, "sqrt"@) == Some(fs[20]),
{
    reveal_strlit("*");
    reveal_strlit("+");
    reveal_strlit("-");
    reveal_strlit("/");
    reveal_strlit("^");
    reveal_strlit("abs");
    reveal_strlit("arccos");
    reveal_strlit("arccot");
    reveal_strlit("arcosh");
    reveal_strlit("arcoth");
    reveal_strlit("arcsin");
    reveal_strlit("arctan");
    reveal_strlit("arsinh");
    reveal_strlit("artanh");
    reveal_strlit("cos");
    reveal_strlit("cosh");
    reveal_strlit("cot");
    reveal_strlit("coth");
    reveal_strlit("exp");
    reveal_strlit("ln");
    reveal_strlit("log");
    reveal_strlit("sin");
    reveal_strlit("sinh");
    reveal_strlit("sqrt");
    reveal_strlit("tan");
    reveal_strlit("tanh");
    assert(os[0].name@[0] != "^"@[0]);
    assert(os[1].name@[0] != "^"@[0]);
    assert(os[2].name@[0] != "^"@[0]);
    assert(os[3].name@[0] != "^"@[0]);
    assert(fs[0].name@[0] != "log"@[0]);
    assert(fs[0].name@.len() != "ln"@.len());
    assert(fs[1].name@.len() != "ln"@.len());
    assert(fs[2].name@.len() != "ln"@.len());
    assert(fs[3].name@.len() != "ln"@.len());
    assert(fs[4].name@.len() != "ln"@.len());
    assert(fs[5].name@.len() != "ln"@.len());
    assert(fs[6].name@.len() != "ln"@.len());
    assert(fs[7].name@.len() != "ln"@.len());
    assert(fs[8].name@.len() != "ln"@.len());
    assert(fs[9].name@.len() != "ln"@.len());
    assert(fs[10].name@.len() != "ln"@.len());
    assert(fs[11].name@.len() != "ln"@.len());
    assert(fs[12].name@.len() != "ln"@.len());
    assert(fs[13].name@.len() != "ln"@.len());
    assert(fs[14].name@.len() != "ln"@.len());
    assert(fs[15].name@.len() != "ln"@.len());
    assert(fs[16].name@.len() != "ln"@.len());
    assert(fs[17].name@.len() != "ln"@.len());
    assert(fs[0].name@[0] != "exp"@[0]);
    assert(fs[1].name@[0] != "exp"@[0]);
    assert(fs[2].name@[0] != "exp"@[0]);
    assert(fs[3].name@.len() != "exp"@.len());
    assert(fs[4].name@[0] != "exp"@[0]);
    assert(fs[5].name@.len() != "exp"@.len());
    assert(fs[6].name@[0] != "exp"@[0]);
    assert(fs[7].name@.len() != "exp"@.len());
    assert(fs[8].name@[0] != "exp"@[0]);
    assert(fs[9].name@.len() != "exp"@.len());
    assert(fs[10].name@.len() != "exp"@.len());
    assert(fs[11].name@.len() != "exp"@.len());
    assert(fs[12].name@.len() != "exp"@.len());
    assert(fs[13].name@.len() != "exp"@.len());
    assert(fs[14].name@.len() != "exp"@.len());
    assert(fs[15].name@.len() != "exp"@.len());
    assert(fs[16].name@.len() != "exp"@.len());
    assert(fs[17].name@.len() != "exp"@.len());
    assert(fs[18].name@.len() != "exp"@.len());
    assert(fs[0].name@.len() != "sqrt"@.len());
    assert(fs[1].name@.len() != "sqrt"@.len());
    assert(fs[2].name@.len() != "sqrt"@.len());
    assert(fs[3].name@.len() != "sqrt"@.len());
    assert(fs[4].name@.len() != "sqrt"@.len());
    assert(fs[5].name@.len() != "sqrt"@.len());
    assert(fs[6].name@.len() != "sqrt"@.len());
    assert(fs[7].name@.len() != "sqrt"@.len());
    assert(fs[8].name@.len() != "sqrt"@.len());
    assert(fs[9].name@.len() != "sqrt"@.len());
    assert(fs[10].name@[1] != "sqrt"@[1]);
    assert(fs[11].name@.len() != "sqrt"@.len());
    assert(fs[12].name@[0] != "sqrt"@[0]);
    assert(fs[13].name@.len() != "sqrt"@.len());
    assert(fs[14].name@[0] != "sqrt"@[0]);
    assert(fs[15].name@.len() != "sqrt"@.len());
    assert(fs[16].name@[0] != "sqrt"@[0]);
    assert(fs[17].name@.len() != "sqrt"@.len());
    assert(fs[18].name@.len() != "sqrt"@.len());
    assert(fs[19].name@.len() != "sqrt"@.len());
    lemma_find_operator_at(os, "^"@, 2, 4);
    lemma_find_function_at(fs, "log"@, 1);
    lemma_find_function_at(fs, "ln"@, 18);
    lemma_find_function_at(fs, "exp"@, 19);
    lemma_find_function_at(fs, "sqrt"@, 20);
}

/// The search finds the first match.
pub proof fn lemma_find_operator_at(os: Seq<Operator>, name: Seq<char>, arity: usize, k: int)
    requires
        0 <= k < os.len(),
        os[k].name@ == name && os[k].arguments_number == arity,
        forall|j: int| 0 <= j < k ==> !(os[j].name@ == name && os[j].arguments_number == arity),
    ensures
        find_operator_spec(os, name, arity) == Some(os[k]),
    decreases k,
{
    if k > 0 {
        let t = os.subrange(1, os.len() as int);
        assert forall|j: int| 0 <= j < k - 1 implies !(t[j].name@ == name && t[j].arguments_number == arity) by {
            assert(t[j] == os[j + 1]);
        }
        lemma_find_operator_at(t, name, arity, k - 1);
        assert(!(os[0].name@ == name && os[0].arguments_number == arity));
    }
}

/// The search finds the first match.
pub proof fn lemma_find_function_at(fs: Seq<Function>, name: Seq<char>, k: int)
    requires
        0 <= k < fs.len(),
        fs[k].name@ == name,
        forall|j: int| 0 <= j < k ==> fs[j].name@ != name,
    ensures
        find_function_spec(fs, name) == Some(fs[k]),
    decreases k,
{
    if k > 0 {
        let t = fs.subrange(1, fs.len() as int);
        assert forall|j: int| 0 <= j < k - 1 implies t[j].name@ != name by {
            assert(t[j] == fs[j + 1]);
        }
        lemma_find_function_at(t, name, k - 1);
        assert(fs[0].name@ != name);
    }
}

/// Converting, then converting the result.
pub open spec fn convert_twice(cs: Seq<Converter>, operation: ConverterOperation, arguments: Seq<NodeView>) -> (
    ConverterOperation,
    Seq<NodeView>,
) {
    let once = convert_view_spec(cs, operation, arguments);
    convert_view_spec(cs, once.0, once.1)
}

/// With the default settings, `ln(x)`, `exp(x)` and `sqrt(x)` are stored as
/// `log(e, x)`, `e ^ x` and `x ^ 0.5`, and converting these back, as the
/// output of a tree does, gives the functions again; for `sqrt` this holds
/// unless `x` is itself a constant within 0.001 of `e`, which `^` turns
/// into `exp`.
pub proof fn law_default_conversion_round_trip(
    cs: Seq<Converter>,
    os: Seq<Operator>,
    fs: Seq<Function>,
    k: int,
    x: NodeView,
)
    requires
        default_operators_spec(os),
        default_functions_spec(fs),
        default_converters_spec(cs, os, fs),
        k == 18 || k == 19 || (k == 20 && !(x matches NodeView::Constant(b) && E_LOW_BITS <= b
            <= E_HIGH_BITS)),
    ensures
        convert_view_spec(cs, ConverterOperation::Function(fs[k]), seq![x]).0 != ConverterOperation::Function(
            fs[k],
        ),
        convert_twice(cs, ConverterOperation::Function(fs[k]), seq![x]) == (
            ConverterOperation::Function(fs[k]),
            seq![x],
        ),
{
    lemma_default_names_found(os, fs);
    reveal_strlit("^");
    reveal_strlit("log");
    reveal_strlit("ln");
    reveal_strlit("exp");
    reveal_strlit("sqrt");
    reveal_with_fuel(convert_view_spec, 7);
    let ln = ConverterOperation::Function(fs[18]);
    let log = ConverterOperation::Function(fs[1]);
    let exp = ConverterOperation::Function(fs[19]);
    let sqrt = ConverterOperation::Function(fs[20]);
    let circumflex = ConverterOperation::Operator(os[4]);
    assert(fs[19].name@[0] != fs[1].name@[0]);
    assert(!same_operation(ln, exp) && !same_operation(ln, sqrt) && !same_operation(ln, log));
    assert(!same_operation(exp, ln) && !same_operation(exp, sqrt) && !same_operation(exp, log));
    assert(!same_operation(sqrt, ln) && !same_operation(sqrt, exp) && !same_operation(sqrt, log));
    assert(!same_operation(log, ln) && !same_operation(log, exp) && !same_operation(log, sqrt));
    assert(!same_operation(circumflex, ln) && !same_operation(circumflex, exp) && !same_operation(circumflex, sqrt)
        && !same_operation(circumflex, log));
    assert(same_operation(circumflex, circumflex) && same_operation(log, log));
    assert(E_LOW_BITS <= E_BITS <= E_HIGH_BITS);
    assert(HALF_LOW_BITS <= HALF_BITS <= HALF_HIGH_BITS);
    if k == 18 {
        let once = seq![NodeView::Constant(E_BITS), x];
        assert(seq![x].insert(0, NodeView::Constant(E_BITS)) =~= once);
        assert(once.remove(0) =~= seq![x]);
    } else if k == 19 {
        let once = seq![NodeView::Constant(E_BITS), x];
        assert(seq![x].insert(0, NodeView::Constant(E_BITS)) =~= once);
        assert(once.remove(0) =~= seq![x]);
    } else {
        let once = seq![x, NodeView::Constant(HALF_BITS)];
        assert(seq![x].push(NodeView::Constant(HALF_BITS)) =~= once);
        assert(once.remove(1) =~= seq![x]);
    }
}

} // verus!
