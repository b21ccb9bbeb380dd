//! The catalog of trigonometric functions, as data.
//!
//! Each function declares a name, how its arguments are completed, its usage,
//! its examples, its documentation, and a routine. A routine says which
//! floating-point primitives evaluate the function and in what order; the
//! arithmetic itself is left to whoever evaluates it.

use vstd::prelude::*;

verus! {

pub const TRIGONOMETRIC_URL: &'static str = "https://en.wikipedia.org/wiki/Trigonometric_functions";

pub const INVERSE_TRIGONOMETRIC_URL: &'static str =
    "https://en.wikipedia.org/wiki/Inverse_trigonometric_functions";

pub const HYPERBOLIC_URL: &'static str = "https://en.wikipedia.org/wiki/Hyperbolic_functions";

pub const INVERSE_HYPERBOLIC_URL: &'static str =
    "https://en.wikipedia.org/wiki/Inverse_hyperbolic_functions";

/// Where `ATAN2` stands in the catalog.
pub const ATAN2_INDEX: usize = 6;

/// A floating-point operation of one argument.
#[derive(Clone, Copy, Debug, PartialEq, Eq, Structural)]
pub enum Primitive {
    Sin,
    Cos,
    Tan,
    Asin,
    Acos,
    Atan,
    Sinh,
    Cosh,
    Tanh,
    Asinh,
    Acosh,
    Atanh,
    ToDegrees,
    ToRadians,
}

/// How a function is evaluated on its arguments.
#[derive(Clone, Copy, Debug, PartialEq, Eq, Structural)]
pub enum Routine {
    /// The primitive of the argument.
    Direct(Primitive),
    /// The reciprocal of the primitive of the argument.
    ReciprocalOf(Primitive),
    /// The primitive of the reciprocal of the argument.
    OfReciprocal(Primitive),
    /// The inverse cotangent that is continuous over all numbers: the arc
    /// tangent of the reciprocal for a positive argument, that plus half a
    /// turn for a negative one, and a quarter turn at zero.
    ArcCotangent,
    /// For the arguments `(x, y)`, the angle from the X axis to the point
    /// `(x, y)`: the two-argument arc tangent of `y` and `x`, in that order.
    Atan2,
}

impl Routine {
    pub open spec fn arity_of(self) -> nat {
        match self {
            Routine::Atan2 => 2,
            _ => 1,
        }
    }

    /// The number of arguments the routine takes.
    pub fn arity(&self) -> (count: usize)
        ensures
            count == self.arity_of(),
    {
        match self {
            Routine::Atan2 => 2,
            _ => 1,
        }
    }
}

/// One function of the catalog.
#[derive(Clone, Debug)]
pub struct FormulaFunction {
    pub name: String,
    pub arg_completion: String,
    pub usage: String,
    pub examples: Vec<String>,
    pub doc: String,
    pub routine: Routine,
}

/// What a function of the catalog is in contracts.
pub struct FunctionView {
    pub name: Seq<char>,
    pub arg_completion: Seq<char>,
    pub usage: Seq<char>,
    pub examples: Seq<Seq<char>>,
    pub doc: Seq<char>,
    pub routine: Routine,
}

/// The texts of a vector of strings.
pub open spec fn texts(strings: Seq<String>) -> Seq<Seq<char>> {
    Seq::new(strings.len(), |i: int| strings[i]@)
}

impl View for FormulaFunction {
    type V = FunctionView;

    open spec fn view(&self) -> FunctionView {
        FunctionView {
            name: self.name@,
            arg_completion: self.arg_completion@,
            usage: self.usage@,
            examples: texts(self.examples@),
            doc: self.doc@,
            routine: self.routine,
        }
    }
}

/// The views of a vector of functions.
pub open spec fn function_views(functions: Seq<FormulaFunction>) -> Seq<FunctionView> {
    Seq::new(functions.len(), |i: int| functions[i]@)
}

/// A function and its inverse, which the catalog lists side by side.
pub struct Pairing {
    pub short_name: &'static str,
    pub full_name: &'static str,
    pub forward: Routine,
    pub inverse: Routine,
    pub inverse_range: Option<&'static str>,
}

/// What a pairing is in contracts.
pub struct PairingView {
    pub short_name: Seq<char>,
    pub full_name: Seq<char>,
    pub forward: Routine,
    pub inverse: Routine,
    pub inverse_range: Option<Seq<char>>,
}

impl View for Pairing {
    type V = PairingView;

    open spec fn view(&self) -> PairingView {
        PairingView {
            short_name: self.short_name@,
            full_name: self.full_name@,
            forward: self.forward,
            inverse: self.inverse,
            inverse_range: match self.inverse_range {
                Some(range) => Some(range@),
                None => None,
            },
        }
    }
}

/// The views of a vector of pairings.
pub open spec fn pairing_views(pairings: Seq<Pairing>) -> Seq<PairingView> {
    Seq::new(pairings.len(), |i: int| pairings[i]@)
}

/// The six trigonometric functions beside their inverses.
pub open spec fn trigonometric_pairings() -> Seq<PairingView> {
    seq![
        PairingView {
            short_name: "SIN"@,
            full_name: "sine"@,
            forward: Routine::Direct(Primitive::Sin),
            inverse: Routine::Direct(Primitive::Asin),
            inverse_range: Some("0 to π"@),
        },
        PairingView {
            short_name: "COS"@,
            full_name: "cosine"@,
            forward: Routine::Direct(Primitive::Cos),
            inverse: Routine::Direct(Primitive::Acos),
            inverse_range: Some("0 to π"@),
        },
        PairingView {
            short_name: "TAN"@,
            full_name: "tangent"@,
            forward: Routine::Direct(Primitive::Tan),
            inverse: Routine::Direct(Primitive::Atan),
            inverse_range: Some("-π/2 to π/2"@),
        },
        PairingView {
            short_name: "CSC"@,
            full_name: "cosecant"@,
            forward: Routine::ReciprocalOf(Primitive::Sin),
            inverse: Routine::OfReciprocal(Primitive::Asin),
            inverse_range: Some("-π/2 to π/2"@),
        },
        PairingView {
            short_name: "SEC"@,
            full_name: "secant"@,
            forward: Routine::ReciprocalOf(Primitive::Cos),
            inverse: Routine::OfReciprocal(Primitive::Acos),
            inverse_range: Some("0 to π"@),
        },
        PairingView {
            short_name: "COT"@,
            full_name: "cotangent"@,
            forward: Routine::ReciprocalOf(Primitive::Tan),
            inverse: Routine::ArcCotangent,
            inverse_range: Some("0 to π"@),
        },
    ]
}

/// The six hyperbolic functions beside their inverses.
pub open spec fn hyperbolic_pairings() -> Seq<PairingView> {
    seq![
        PairingView {
            short_name: "SINH"@,
            full_name: "hyperbolic sine"@,
            forward: Routine::Direct(Primitive::Sinh),
            inverse: Routine::Direct(Primitive::Asinh),
            inverse_range: None,
        },
        PairingView {
            short_name: "COSH"@,
            full_name: "hyperbolic cosine"@,
            forward: Routine::Direct(Primitive::Cosh),
            inverse: Routine::Direct(Primitive::Acosh),
            inverse_range: None,
        },
        PairingView {
            short_name: "TANH"@,
            full_name: "hyperbolic tangent"@,
            forward: Routine::Direct(Primitive::Tanh),
            inverse: Routine::Direct(Primitive::Atanh),
            inverse_range: None,
        },
        PairingView {
            short_name: "CSCH"@,
            full_name: "hyperbolic cosecant"@,
            forward: Routine::ReciprocalOf(Primitive::Sinh),
            inverse: Routine::OfReciprocal(Primitive::Asinh),
            inverse_range: None,
        },
        PairingView {
            short_name: "SECH"@,
            full_name: "hyperbolic secant"@,
            forward: Routine::ReciprocalOf(Primitive::Cosh),
            inverse: Routine::OfReciprocal(Primitive::Acosh),
            inverse_range: None,
        },
        PairingView {
            short_name: "COTH"@,
            full_name: "hyperbolic cotangent"@,
            forward: Routine::ReciprocalOf(Primitive::Tanh),
            inverse: Routine::OfReciprocal(Primitive::Atanh),
            inverse_range: None,
        },
    ]
}

/// The documentation of the function of a pairing.
pub open spec fn forward_doc(full_name: Seq<char>, url: Seq<char>) -> Seq<char> {
    "Returns the ["@ + full_name + "]("@ + url + ") of an angle in radians."@
}

/// What the documentation of an inverse says of its range.
pub open spec fn range_note(inverse_range: Option<Seq<char>>) -> Seq<char> {
    match inverse_range {
        Some(range) => ", ranging from "@ + range,
        None => Seq::empty(),
    }
}

/// The documentation of the inverse of a pairing.
pub open spec fn inverse_doc(
    full_name: Seq<char>,
    url: Seq<char>,
    inverse_range: Option<Seq<char>>,
) -> Seq<char> {
    "Returns the [inverse "@ + full_name + "]("@ + url + ") of a number, in radians"@ + range_note(
        inverse_range,
    ) + "."@
}

/// The function of a pairing: it takes an angle in radians.
pub open spec fn forward_function(pairing: PairingView, url: Seq<char>) -> FunctionView {
    FunctionView {
        name: pairing.short_name,
        arg_completion: "${1:radians}"@,
        usage: "radians"@,
        examples: seq![pairing.short_name + "(PI() * 2/3)"@],
        doc: forward_doc(pairing.full_name, url),
        routine: pairing.forward,
    }
}

/// The inverse of a pairing: its name is that of the function behind an `A`,
/// it takes a number, and its example invokes it on a cell.
pub open spec fn inverse_function(pairing: PairingView, url: Seq<char>) -> FunctionView {
    FunctionView {
        name: "A"@ + pairing.short_name,
        arg_completion: "${1:number}"@,
        usage: "number"@,
        examples: seq!["A"@ + pairing.short_name + "(A1)"@],
        doc: inverse_doc(pairing.full_name, url, pairing.inverse_range),
        routine: pairing.inverse,
    }
}

/// The functions of a list of pairings: each function, then its inverse.
pub open spec fn expand(pairings: Seq<PairingView>, url: Seq<char>, inverse_url: Seq<char>) -> Seq<
    FunctionView,
>
    decreases pairings.len(),
{
    if pairings.len() == 0 {
        Seq::empty()
    } else {
        expand(pairings.drop_last(), url, inverse_url).push(
            forward_function(pairings.last(), url),
        ).push(inverse_function(pairings.last(), inverse_url))
    }
}

pub open spec fn degrees_function() -> FunctionView {
    FunctionView {
        name: "DEGREES"@,
        arg_completion: "${1:radians}"@,
        usage: "radians"@,
        examples: seq!["DEGREES(PI() / 2)"@],
        doc: "Converts radians to degrees"@,
        routine: Routine::Direct(Primitive::ToDegrees),
    }
}

pub open spec fn radians_function() -> FunctionView {
    FunctionView {
        name: "RADIANS"@,
        arg_completion: "${1:degrees}"@,
        usage: "degrees"@,
        examples: seq!["RADIANS(90)"@],
        doc: "Converts degrees to radians"@,
        routine: Routine::Direct(Primitive::ToRadians),
    }
}

pub open spec fn atan2_function() -> FunctionView {
    FunctionView {
        name: "ATAN2"@,
        arg_completion: "{$1:x}, {$2:y}"@,
        usage: "x, y"@,
        examples: seq!["ATAN2(2, 1)"@],
        doc: "Returns the counterclockwise angle, in radians, from the X axis to the point `(x, y)`. Note that the argument order is reversed compared to the [typical `atan2()` function](https://en.wikipedia.org/wiki/Atan2)."@,
        routine: Routine::Atan2,
    }
}

/// The catalog: the two conversions, the trigonometric pairings, the
/// hyperbolic pairings, and `ATAN2` put in at its index.
pub open spec fn catalog() -> Seq<FunctionView> {
    (seq![degrees_function(), radians_function()] + expand(
        trigonometric_pairings(),
        TRIGONOMETRIC_URL@,
        INVERSE_TRIGONOMETRIC_URL@,
    ) + expand(hyperbolic_pairings(), HYPERBOLIC_URL@, INVERSE_HYPERBOLIC_URL@)).insert(
        ATAN2_INDEX as int,
        atan2_function(),
    )
}

/// `example` is an invocation of the function `name`: the name, an opening
/// bracket, and whatever follows.
pub open spec fn invokes(example: Seq<char>, name: Seq<char>) -> bool {
    &&& example.len() > name.len()
    &&& example.take(name.len() as int) == name
    &&& example[name.len() as int] == '('
}

/// What every function of the catalog declares: a name, a usage, a
/// documentation text, and at least one example, each of them an invocation
/// of the function itself.
pub open spec fn is_declared(function: FunctionView) -> bool {
    &&& function.name.len() > 0
    &&& function.usage.len() > 0
    &&& function.doc.len() > 0
    &&& function.examples.len() > 0
    &&& forall|k: int|
        0 <= k < function.examples.len() ==> invokes(#[trigger] function.examples[k], function.name)
}

/// Every pairing of the list has a name.
pub open spec fn all_named(pairings: Seq<PairingView>) -> bool {
    forall|i: int| 0 <= i < pairings.len() ==> (#[trigger] pairings[i]).short_name.len() > 0
}

/// A name with arguments in brackets behind it invokes that name.
proof fn lemma_name_then_arguments_invokes(name: Seq<char>, arguments: Seq<char>)
    requires
        arguments.len() > 0,
        arguments[0] == '(',
    ensures
        invokes(name + arguments, name),
{
    assert((name + arguments).take(name.len() as int) =~= name);
}

/// The function and the inverse of a named pairing are declared in full.
proof fn lemma_pairing_is_declared(pairing: PairingView, url: Seq<char>, inverse_url: Seq<char>)
    requires
        pairing.short_name.len() > 0,
    ensures
        is_declared(forward_function(pairing, url)),
        is_declared(inverse_function(pairing, inverse_url)),
{
    reveal_strlit("radians");
    reveal_strlit("number");
    reveal_strlit("Returns the [");
    reveal_strlit("Returns the [inverse ");
    reveal_strlit("(PI() * 2/3)");
    reveal_strlit("(A1)");
    lemma_name_then_arguments_invokes(pairing.short_name, "(PI() * 2/3)"@);
    lemma_name_then_arguments_invokes("A"@ + pairing.short_name, "(A1)"@);
}

/// The functions of named pairings are declared in full.
proof fn lemma_expanded_pairings_are_declared(
    pairings: Seq<PairingView>,
    url: Seq<char>,
    inverse_url: Seq<char>,
)
    requires
        all_named(pairings),
    ensures
        forall|i: int|
            0 <= i < expand(pairings, url, inverse_url).len() ==> is_declared(
                #[trigger] expand(pairings, url, inverse_url)[i],
            ),
    decreases pairings.len(),
{
    if pairings.len() > 0 {
        let front = pairings.drop_last();
        assert forall|i: int| 0 <= i < front.len() implies (#[trigger] front[i]).short_name.len()
            > 0 by {
            assert(front[i] == pairings[i]);
        }
        lemma_expanded_pairings_are_declared(front, url, inverse_url);
        assert(pairings[pairings.len() - 1].short_name.len() > 0);
        lemma_pairing_is_declared(pairings.last(), url, inverse_url);
        let earlier = expand(front, url, inverse_url);
        let all = expand(pairings, url, inverse_url);
        assert forall|i: int| 0 <= i < all.len() implies is_declared(#[trigger] all[i]) by {
            if i < earlier.len() {
                assert(all[i] == earlier[i]);
            }
        }
    }
}

/// Every pairing of the two tables has a name.
proof fn lemma_tables_are_named()
    ensures
        all_named(trigonometric_pairings()),
        all_named(hyperbolic_pairings()),
{
    reveal_strlit("SIN");
    reveal_strlit("COS");
    reveal_strlit("TAN");
    reveal_strlit("CSC");
    reveal_strlit("SEC");
    reveal_strlit("COT");
    reveal_strlit("SINH");
    reveal_strlit("COSH");
    reveal_strlit("TANH");
    reveal_strlit("CSCH");
    reveal_strlit("SECH");
    reveal_strlit("COTH");
}

/// The three functions that stand alone are declared in full.
proof fn lemma_single_functions_are_declared()
    ensures
        is_declared(degrees_function()),
        is_declared(radians_function()),
        is_declared(atan2_function()),
{
    reveal_strlit("DEGREES");
    reveal_strlit("RADIANS");
    reveal_strlit("ATAN2");
    reveal_strlit("radians");
    reveal_strlit("degrees");
    reveal_strlit("x, y");
    reveal_strlit("DEGREES(PI() / 2)");
    reveal_strlit("RADIANS(90)");
    reveal_strlit("ATAN2(2, 1)");
    reveal_strlit("Converts radians to degrees");
    reveal_strlit("Converts degrees to radians");
    reveal_strlit(
        "Returns the counterclockwise angle, in radians, from the X axis to the point `(x, y)`. Note that the argument order is reversed compared to the [typical `atan2()` function](https://en.wikipedia.org/wiki/Atan2).",
    );
    assert("DEGREES(PI() / 2)"@.take(7) =~= "DEGREES"@);
    assert("RADIANS(90)"@.take(7) =~= "RADIANS"@);
    assert("ATAN2(2, 1)"@.take(5) =~= "ATAN2"@);
}

/// Every function of the catalog has a name, a usage and a documentation
/// text, and each of its examples is an invocation of that very function.
pub proof fn law_catalog_functions_are_declared()
    ensures
        catalog().len() == 27,
        forall|i: int| 0 <= i < catalog().len() ==> is_declared(#[trigger] catalog()[i]),
{
    let trigonometric = expand(
        trigonometric_pairings(),
        TRIGONOMETRIC_URL@,
        INVERSE_TRIGONOMETRIC_URL@,
    );
    let hyperbolic = expand(hyperbolic_pairings(), HYPERBOLIC_URL@, INVERSE_HYPERBOLIC_URL@);
    let listed = seq![degrees_function(), radians_function()] + trigonometric + hyperbolic;
    lemma_tables_are_named();
    lemma_single_functions_are_declared();
    lemma_expand_len(trigonometric_pairings(), TRIGONOMETRIC_URL@, INVERSE_TRIGONOMETRIC_URL@);
    lemma_expand_len(hyperbolic_pairings(), HYPERBOLIC_URL@, INVERSE_HYPERBOLIC_URL@);
    lemma_expanded_pairings_are_declared(
        trigonometric_pairings(),
        TRIGONOMETRIC_URL@,
        INVERSE_TRIGONOMETRIC_URL@,
    );
    lemma_expanded_pairings_are_declared(
        hyperbolic_pairings(),
        HYPERBOLIC_URL@,
        INVERSE_HYPERBOLIC_URL@,
    );
    assert(trigonometric.len() == 12);
    assert(hyperbolic.len() == 12);
    assert forall|i: int| 0 <= i < listed.len() implies is_declared(#[trigger] listed[i]) by {
        if i < 2 {
        } else if i < 14 {
            assert(listed[i] == trigonometric[i - 2]);
        } else {
            assert(listed[i] == hyperbolic[i - 14]);
        }
    }
    assert forall|i: int| 0 <= i < catalog().len() implies is_declared(
        #[trigger] catalog()[i],
    ) by {
        if i < ATAN2_INDEX {
            assert(catalog()[i] == listed[i]);
        } else if i > ATAN2_INDEX {
            assert(catalog()[i] == listed[i - 1]);
        }
    }
}

/// A list of pairings gives two functions for each.
pub proof fn lemma_expand_len(pairings: Seq<PairingView>, url: Seq<char>, inverse_url: Seq<char>)
    ensures
        expand(pairings, url, inverse_url).len() == 2 * pairings.len(),
    decreases pairings.len(),
{
    if pairings.len() > 0 {
        lemma_expand_len(pairings.drop_last(), url, inverse_url);
    }
}

/// Builds a catalog entry with one example.
fn describe(
    name: String,
    arg_completion: &str,
    usage: &str,
    example: String,
    doc: String,
    routine: Routine,
) -> (function: FormulaFunction)
    ensures
        function@ == (FunctionView {
            name: name@,
            arg_completion: arg_completion@,
            usage: usage@,
            examples: seq![example@],
            doc: doc@,
            routine,
        }),
{
    let mut examples: Vec<String> = Vec::new();
    examples.push(example);
    let function = FormulaFunction {
        name,
        arg_completion: String::from_str(arg_completion),
        usage: String::from_str(usage),
        examples,
        doc,
        routine,
    };
    assert(function@.examples =~= seq![example@]);
    function
}

/// The function of a pairing.
fn forward_of(pairing: &Pairing, url: &str) -> (function: FormulaFunction)
    ensures
        function@ == forward_function(pairing@, url@),
{
    let mut example = String::from_str(pairing.short_name);
    example.append("(PI() * 2/3)");
    let mut doc = String::from_str("Returns the [");
    doc.append(pairing.full_name);
    doc.append("](");
    doc.append(url);
    doc.append(") of an angle in radians.");
    describe(
        String::from_str(pairing.short_name),
        "${1:radians}",
        "radians",
        example,
        doc,
        pairing.forward,
    )
}

/// The inverse of a pairing.
fn inverse_of(pairing: &Pairing, url: &str) -> (function: FormulaFunction)
    ensures
        function@ == inverse_function(pairing@, url@),
{
    let mut name = String::from_str("A");
    name.append(pairing.short_name);
    let mut example = name.clone();
    example.append("(A1)");
    let mut doc = String::from_str("Returns the [inverse ");
    doc.append(pairing.full_name);
    doc.append("](");
    doc.append(url);
    doc.append(") of a number, in radians");
    match pairing.inverse_range {
        Some(range) => {
            let mut note = String::from_str(", ranging from ");
            note.append(range);
            doc.append(note.as_str());
        },
        None => {
            assert(doc@ + Seq::<char>::empty() =~= doc@);
        },
    }
    doc.append(".");
    describe(name, "${1:number}", "number", example, doc, pairing.inverse)
}

/// Appends to `functions` the functions of `pairings`: each function, then
/// its inverse.
fn append_pairings(
    functions: &mut Vec<FormulaFunction>,
    pairings: &Vec<Pairing>,
    url: &str,
    inverse_url: &str,
)
    ensures
        function_views(final(functions)@) == function_views(old(functions)@) + expand(
            pairing_views(pairings@),
            url@,
            inverse_url@,
        ),
{
    let ghost before = function_views(functions@);
    let ghost rows = pairing_views(pairings@);
    let count: usize = pairings.len();
    let mut i: usize = 0;
    assert(before + expand(rows.take(0), url@, inverse_url@) =~= before);
    while i < count
        invariant
            i <= count,
            count == pairings.len(),
            rows == pairing_views(pairings@),
            function_views(functions@) == before + expand(rows.take(i as int), url@, inverse_url@),
        decreases count - i,
    {
        let ghost sofar = function_views(functions@);
        let forward = forward_of(&pairings[i], url);
        let inverse = inverse_of(&pairings[i], inverse_url);
        functions.push(forward);
        functions.push(inverse);
        proof {
            assert(rows.take(i + 1).drop_last() =~= rows.take(i as int));
            assert(rows.take(i + 1).last() == pairings@[i as int]@);
            assert(function_views(functions@) =~= sofar.push(forward@).push(inverse@));
            assert(sofar.push(forward@).push(inverse@) =~= before + expand(
                rows.take(i + 1),
                url@,
                inverse_url@,
            ));
        }
        i = i + 1;
    }
    assert(rows.take(count as int) =~= rows);
}

/// The table of the trigonometric pairings.
fn trigonometric_table() -> (table: Vec<Pairing>)
    ensures
        pairing_views(table@) == trigonometric_pairings(),
{
    let mut table: Vec<Pairing> = Vec::new();
    table.push(
        Pairing {
            short_name: "SIN",
            full_name: "sine",
            forward: Routine::Direct(Primitive::Sin),
            inverse: Routine::Direct(Primitive::Asin),
            inverse_range: Some("0 to π"),
        },
    );
    table.push(
        Pairing {
            short_name: "COS",
            full_name: "cosine",
            forward: Routine::Direct(Primitive::Cos),
            inverse: Routine::Direct(Primitive::Acos),
            inverse_range: Some("0 to π"),
        },
    );
    table.push(
        Pairing {
            short_name: "TAN",
            full_name: "tangent",
            forward: Routine::Direct(Primitive::Tan),
            inverse: Routine::Direct(Primitive::Atan),
            inverse_range: Some("-π/2 to π/2"),
        },
    );
    table.push(
        Pairing {
            short_name: "CSC",
            full_name: "cosecant",
            forward: Routine::ReciprocalOf(Primitive::Sin),
            inverse: Routine::OfReciprocal(Primitive::Asin),
            inverse_range: Some("-π/2 to π/2"),
        },
    );
    table.push(
        Pairing {
            short_name: "SEC",
            full_name: "secant",
            forward: Routine::ReciprocalOf(Primitive::Cos),
            inverse: Routine::OfReciprocal(Primitive::Acos),
            inverse_range: Some("0 to π"),
        },
    );
    table.push(
        Pairing {
            short_name: "COT",
            full_name: "cotangent",
            forward: Routine::ReciprocalOf(Primitive::Tan),
            inverse: Routine::ArcCotangent,
            inverse_range: Some("0 to π"),
        },
    );
    assert(pairing_views(table@) =~= trigonometric_pairings());
    table
}

/// The table of the hyperbolic pairings.
fn hyperbolic_table() -> (table: Vec<Pairing>)
    ensures
        pairing_views(table@) == hyperbolic_pairings(),
{
    let mut table: Vec<Pairing> = Vec::new();
    table.push(
        Pairing {
            short_name: "SINH",
            full_name: "hyperbolic sine",
            forward: Routine::Direct(Primitive::Sinh),
            inverse: Routine::Direct(Primitive::Asinh),
            inverse_range: None,
        },
    );
    table.push(
        Pairing {
            short_name: "COSH",
            full_name: "hyperbolic cosine",
            forward: Routine::Direct(Primitive::Cosh),
            inverse: Routine::Direct(Primitive::Acosh),
            inverse_range: None,
        },
    );
    table.push(
        Pairing {
            short_name: "TANH",
            full_name: "hyperbolic tangent",
            forward: Routine::Direct(Primitive::Tanh),
            inverse: Routine::Direct(Primitive::Atanh),
            inverse_range: None,
        },
    );
    table.push(
        Pairing {
            short_name: "CSCH",
            full_name: "hyperbolic cosecant",
            forward: Routine::ReciprocalOf(Primitive::Sinh),
            inverse: Routine::OfReciprocal(Primitive::Asinh),
            inverse_range: None,
        },
    );
    table.push(
        Pairing {
            short_name: "SECH",
            full_name: "hyperbolic secant",
            forward: Routine::ReciprocalOf(Primitive::Cosh),
            inverse: Routine::OfReciprocal(Primitive::Acosh),
            inverse_range: None,
        },
    );
    table.push(
        Pairing {
            short_name: "COTH",
            full_name: "hyperbolic cotangent",
            forward: Routine::ReciprocalOf(Primitive::Tanh),
            inverse: Routine::OfReciprocal(Primitive::Atanh),
            inverse_range: None,
        },
    );
    assert(pairing_views(table@) =~= hyperbolic_pairings());
    table
}

/// Builds the catalog of trigonometric functions.
pub fn get_functions() -> (functions: Vec<FormulaFunction>)
    ensures
        function_views(functions@) == catalog(),
        forall|i: int| 0 <= i < functions.len() ==> is_declared(#[trigger] functions[i]@),
{
    
    let mut functions: Vec<FormulaFunction> = Vec::new();
    functions.push(
        describe(
            String::from_str("DEGREES"),
            "${1:radians}",
            "radians",
            String::from_str("DEGREES(PI() / 2)"),
            String::from_str("Converts radians to degrees"),
            Routine::Direct(Primitive::ToDegrees),
        ),
    );
    functions.push(
        describe(
            String::from_str("RADIANS"),
            "${1:degrees}",
            "degrees",
            String::from_str("RADIANS(90)"),
            String::from_str("Converts degrees to radians"),
            Routine::Direct(Primitive::ToRadians),
        ),
    );
    assert(function_views(functions@) =~= seq![degrees_function(), radians_function()]);
    let trigonometric = trigonometric_table();
    append_pairings(
        &mut functions,
        &trigonometric,
        TRIGONOMETRIC_URL,
        INVERSE_TRIGONOMETRIC_URL,
    );
    let hyperbolic = hyperbolic_table();
    append_pairings(&mut functions, &hyperbolic, HYPERBOLIC_URL, INVERSE_HYPERBOLIC_URL);
    let ghost listed = function_views(functions@);
    proof {
        lemma_expand_len(
            trigonometric_pairings(),
            TRIGONOMETRIC_URL@,
            INVERSE_TRIGONOMETRIC_URL@,
        );
        lemma_expand_len(hyperbolic_pairings(), HYPERBOLIC_URL@, INVERSE_HYPERBOLIC_URL@);
        assert(trigonometric_pairings().len() == 6);
        assert(hyperbolic_pairings().len() == 6);
        assert(listed.len() == 26);
    }
    let atan2 = describe(
        String::from_str("ATAN2"),
        "{$1:x}, {$2:y}",
        "x, y",
        String::from_str("ATAN2(2, 1)"),
        String::from_str(
            "Returns the counterclockwise angle, in radians, from the X axis to the point `(x, y)`. Note that the argument order is reversed compared to the [typical `atan2()` function](https://en.wikipedia.org/wiki/Atan2).",
        ),
        Routine::Atan2,
    );
    functions.insert(ATAN2_INDEX, atan2);
    assert(function_views(functions@) =~= listed.insert(ATAN2_INDEX as int, atan2_function()));
    proof {
        law_catalog_functions_are_declared();
        assert forall|i: int| 0 <= i < functions.len() implies is_declared(
            #[trigger] functions[i]@,
        ) by {
            assert(functions[i]@ == function_views(functions@)[i]);
        }
    }
    functions
}

/// Looks a function up by its name: the index of the first function of that
/// name, or `None` if no function has it.
pub fn find_function(functions: &Vec<FormulaFunction>, name: &str) -> (found: Option<usize>)
    ensures
        match found {
            Some(at) => {
                &&& at < functions.len()
                &&& functions[at as int].name@ == name@
                &&& forall|k: int| 0 <= k < at ==> (#[trigger] functions[k]).name@ != name@
            },
            None => forall|k: int|
                0 <= k < functions.len() ==> (#[trigger] functions[k]).name@ != name@,
        },
{
    let wanted = String::from_str(name);
    let count: usize = functions.len();
    let mut i: usize = 0;
    while i < count
        invariant
            i <= count,
            count == functions.len(),
            wanted@ == name@,
            forall|k: int| 0 <= k < i ==> (#[trigger] functions[k]).name@ != name@,
        decreases count - i,
    {
        if functions[i].name == wanted {
            return Some(i);
        }
        i = i + 1;
    }
    None
}

} // verus!
