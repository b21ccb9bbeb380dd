use std::f64::consts::PI;

use quadratic_core::{
    find_function, get_functions, Cell, CellKind, Primitive, Routine, TypeMismatch,
};

fn primitive(primitive: Primitive, x: f64) -> f64 {
    match primitive {
        Primitive::Sin => x.sin(),
        Primitive::Cos => x.cos(),
        Primitive::Tan => x.tan(),
        Primitive::Asin => x.asin(),
        Primitive::Acos => x.acos(),
        Primitive::Atan => x.atan(),
        Primitive::Sinh => x.sinh(),
        Primitive::Cosh => x.cosh(),
        Primitive::Tanh => x.tanh(),
        Primitive::Asinh => x.asinh(),
        Primitive::Acosh => x.acosh(),
        Primitive::Atanh => x.atanh(),
        Primitive::ToDegrees => x.to_degrees(),
        Primitive::ToRadians => x.to_radians(),
    }
}

fn arc_cotangent(x: f64) -> f64 {
    if x > 0.0 {
        x.recip().atan()
    } else if x < 0.0 {
        x.recip().atan() + PI
    } else {
        std::f64::consts::FRAC_PI_2
    }
}

fn evaluate(routine: Routine, arguments: &[f64]) -> f64 {
    assert_eq!(routine.arity(), arguments.len());
    match routine {
        Routine::Direct(p) => primitive(p, arguments[0]),
        Routine::ReciprocalOf(p) => primitive(p, arguments[0]).recip(),
        Routine::OfReciprocal(p) => primitive(p, arguments[0].recip()),
        Routine::ArcCotangent => arc_cotangent(arguments[0]),
        Routine::Atan2 => f64::atan2(arguments[1], arguments[0]),
    }
}

fn routine_of(name: &str) -> Routine {
    let functions = get_functions();
    match find_function(&functions, name) {
        Some(at) => functions[at].routine,
        None => panic!("no function is named {name}"),
    }
}

/// Evaluates the function `name` of the catalog on numbers.
fn call(name: &str, arguments: &[f64]) -> f64 {
    evaluate(routine_of(name), arguments)
}

/// Evaluates the function `name` of the catalog on cells, which it reads
/// through the numeric conversion boundary.
fn call_on_cells(name: &str, cells: &[Cell]) -> Result<f64, TypeMismatch> {
    let mut arguments = vec![];
    for cell in cells {
        arguments.push(cell.to_integer()? as f64);
    }
    Ok(call(name, &arguments))
}

fn number_to_string(number: f64) -> String {
    format!("{number}")
}

fn assert_f64_approx_eq(expected: f64, actual: &str) {
    const EPSILON: f64 = 0.0001;
    let number: f64 = match actual.parse() {
        Ok(number) => number,
        Err(_) => panic!("{actual} is no number"),
    };
    assert!(
        (expected - number).abs() < EPSILON,
        "wanted {expected} but got {actual}",
    );
}

fn test_trig_fn(name: &str, input_output_pairs: &[(f64, f64)]) {
    for &(input, expected_output) in input_output_pairs {
        println!("Testing that {name}({input}) = {expected_output}");
        assert_f64_approx_eq(expected_output, &number_to_string(call(name, &[input])));
    }
}

#[test]
fn test_formula_radian_degree_conversion() {
    assert_eq!("-4", number_to_string(call("RADIANS", &[-720.0]) / PI));
    assert_eq!("-720", number_to_string(call("DEGREES", &[-PI * 4.0])));
}

#[test]
fn test_formula_trigonometry() {
    let test_cases = &[
        (-2.0 * PI, 0.0),
        (-1.5 * PI, 1.0),
        (-1.0 * PI, 0.0),
        (-0.75 * PI, -0.70711),
        (-0.5 * PI, -1.0),
        (-0.25 * PI, -0.70711),
        (0.0 * PI, 0.0),
        (0.25 * PI, 0.70711),
        (0.5 * PI, 1.0),
        (0.75 * PI, 0.70711),
        (1.0 * PI, 0.0),
        (1.5 * PI, -1.0),
        (2.0 * PI, 0.0),
    ];
    test_trig_fn("SIN", test_cases);

    let test_cases = &[
        (-2.0 * PI, 1.0),
        (-1.5 * PI, 0.0),
        (-1.0 * PI, -1.0),
        (-0.75 * PI, -0.70711),
        (-0.5 * PI, 0.0),
        (-0.25 * PI, 0.70711),
        (0.0 * PI, 1.0),
        (0.25 * PI, 0.70711),
        (0.5 * PI, 0.0),
        (0.75 * PI, -0.70711),
        (1.0 * PI, -1.0),
        (1.5 * PI, 0.0),
        (2.0 * PI, 1.0),
    ];
    test_trig_fn("COS", test_cases);

    let test_cases = &[
        (-2.0 * PI, 0.0),
        (-1.0 * PI, 0.0),
        (-0.75 * PI, 1.0),
        (-0.25 * PI, -1.0),
        (0.0 * PI, 0.0),
        (0.25 * PI, 1.0),
        (0.75 * PI, -1.0),
        (1.0 * PI, 0.0),
        (2.0 * PI, 0.0),
    ];
    test_trig_fn("TAN", test_cases);

    let test_cases = &[
        (-1.5 * PI, 1.0),
        (-0.75 * PI, -1.41421),
        (-0.5 * PI, -1.0),
        (-0.25 * PI, -1.41421),
        (0.25 * PI, 1.41421),
        (0.5 * PI, 1.0),
        (0.75 * PI, 1.41421),
        (1.5 * PI, -1.0),
    ];
    test_trig_fn("CSC", test_cases);

    let test_cases = &[
        (-2.0 * PI, 1.0),
        (-1.0 * PI, -1.0),
        (-0.75 * PI, -1.41421),
        (-0.25 * PI, 1.41421),
        (0.0 * PI, 1.0),
        (0.25 * PI, 1.41421),
        (0.75 * PI, -1.41421),
        (1.0 * PI, -1.0),
        (2.0 * PI, 1.0),
    ];
    test_trig_fn("SEC", test_cases);

    let test_cases = &[
        (-1.5 * PI, 0.0),
        (-0.9 * PI, 3.07768),
        (-0.75 * PI, 1.0),
        (-0.5 * PI, 0.0),
        (-0.25 * PI, -1.0),
        (0.25 * PI, 1.0),
        (0.5 * PI, 0.0),
        (0.75 * PI, -1.0),
        (0.9 * PI, -3.07768),
        (1.5 * PI, 0.0),
    ];
    test_trig_fn("COT", test_cases);

    let test_cases = &[
        (-2.0 * PI, -267.74489),
        (-1.5 * PI, -55.6544),
        (-1.0 * PI, -11.54874),
        (-0.75 * PI, -5.22797),
        (-0.5 * PI, -2.3013),
        (-0.25 * PI, -0.86867),
        (0.0 * PI, 0.0),
        (0.25 * PI, 0.86867),
        (0.5 * PI, 2.3013),
        (0.75 * PI, 5.22797),
        (1.0 * PI, 11.54874),
        (1.5 * PI, 55.6544),
        (2.0 * PI, 267.74489),
    ];
    test_trig_fn("SINH", test_cases);

    let test_cases = &[
        (-2.0 * PI, 267.74676),
        (-1.5 * PI, 55.66338),
        (-1.0 * PI, 11.59195),
        (-0.75 * PI, 5.32275),
        (-0.5 * PI, 2.50918),
        (-0.25 * PI, 1.32461),
        (0.0 * PI, 1.0),
        (0.25 * PI, 1.32461),
        (0.5 * PI, 2.50918),
        (0.75 * PI, 5.32275),
        (1.0 * PI, 11.59195),
        (1.5 * PI, 55.66338),
        (2.0 * PI, 267.74676),
    ];
    test_trig_fn("COSH", test_cases);

    let test_cases = &[
        (-2.0 * PI, -0.99999),
        (-1.5 * PI, -0.99984),
        (-1.0 * PI, -0.99627),
        (-0.75 * PI, -0.98219),
        (-0.5 * PI, -0.91715),
        (-0.25 * PI, -0.65579),
        (0.0 * PI, 0.0),
        (0.25 * PI, 0.65579),
        (0.5 * PI, 0.91715),
        (0.75 * PI, 0.98219),
        (1.0 * PI, 0.99627),
        (1.5 * PI, 0.99984),
        (2.0 * PI, 0.99999),
    ];
    test_trig_fn("TANH", test_cases);

    let test_cases = &[
        (-2.0 * PI, -0.00373),
        (-1.5 * PI, -0.01797),
        (-1.0 * PI, -0.08659),
        (-0.75 * PI, -0.19128),
        (-0.5 * PI, -0.43454),
        (-0.25 * PI, -1.15118),
        (0.25 * PI, 1.15118),
        (0.5 * PI, 0.43454),
        (0.75 * PI, 0.19128),
        (1.0 * PI, 0.08659),
        (1.5 * PI, 0.01797),
        (2.0 * PI, 0.00373),
    ];
    test_trig_fn("CSCH", test_cases);

    let test_cases = &[
        (-2.0 * PI, 0.00373),
        (-1.5 * PI, 0.01797),
        (-1.0 * PI, 0.08627),
        (-0.75 * PI, 0.18787),
        (-0.5 * PI, 0.39854),
        (-0.25 * PI, 0.75494),
        (0.0 * PI, 1.0),
        (0.25 * PI, 0.75494),
        (0.5 * PI, 0.39854),
        (0.75 * PI, 0.18787),
        (1.0 * PI, 0.08627),
        (1.5 * PI, 0.01797),
        (2.0 * PI, 0.00373),
    ];
    test_trig_fn("SECH", test_cases);

    let test_cases = &[
        (-2.0 * PI, -1.00001),
        (-1.5 * PI, -1.00016),
        (-1.0 * PI, -1.00374),
        (-0.75 * PI, -1.01813),
        (-0.5 * PI, -1.09033),
        (-0.25 * PI, -1.52487),
        (0.25 * PI, 1.52487),
        (0.5 * PI, 1.09033),
        (0.75 * PI, 1.01813),
        (1.0 * PI, 1.00374),
        (1.5 * PI, 1.00016),
        (2.0 * PI, 1.00001),
    ];
    test_trig_fn("COTH", test_cases);

    assert!(number_to_string(call("ATAN2", &[2.0, 1.0])).starts_with("0.4636"));
}

#[test]
fn test_formula_inverse_trigonometry() {
    let test_cases = &[
        (-1.0, -0.5 * PI),
        (-0.70711, -0.25 * PI),
        (0.0, 0.0 * PI),
        (0.70711, 0.25 * PI),
        (1.0, 0.5 * PI),
    ];
    test_trig_fn("ASIN", test_cases);

    let test_cases = &[
        (1.0, 0.0 * PI),
        (0.70711, 0.25 * PI),
        (0.0, 0.5 * PI),
        (-0.70711, 0.75 * PI),
        (-1.0, 1.0 * PI),
    ];
    test_trig_fn("ACOS", test_cases);

    let test_cases = &[(-1.0, -0.25 * PI), (0.0, 0.0 * PI), (1.0, 0.25 * PI)];
    test_trig_fn("ATAN", test_cases);

    let test_cases = &[
        (-1.0, -0.5 * PI),
        (-1.41421, -0.25 * PI),
        (1.41421, 0.25 * PI),
        (1.0, 0.5 * PI),
    ];
    test_trig_fn("ACSC", test_cases);

    let test_cases = &[
        (1.0, 0.0 * PI),
        (1.41421, 0.25 * PI),
        (-1.41421, 0.75 * PI),
        (-1.0, 1.0 * PI),
    ];
    test_trig_fn("ASEC", test_cases);

    let test_cases = &[
        (1.0, 0.25 * PI),
        (0.0, 0.5 * PI),
        (-1.0, 0.75 * PI),
        (-3.07768, 0.9 * PI),
    ];
    test_trig_fn("ACOT", test_cases);

    let test_cases = &[
        (-267.74489, -2.0 * PI),
        (-55.6544, -1.5 * PI),
        (-11.54874, -1.0 * PI),
        (-5.22797, -0.75 * PI),
        (-2.3013, -0.5 * PI),
        (-0.86867, -0.25 * PI),
        (0.0, 0.0 * PI),
        (0.86867, 0.25 * PI),
        (2.3013, 0.5 * PI),
        (5.22797, 0.75 * PI),
        (11.54874, 1.0 * PI),
        (55.6544, 1.5 * PI),
        (267.74489, 2.0 * PI),
    ];
    test_trig_fn("ASINH", test_cases);

    let test_cases = &[
        (1.0, 0.0 * PI),
        (1.32461, 0.25 * PI),
        (2.50918, 0.5 * PI),
        (5.32275, 0.75 * PI),
        (11.59195, 1.0 * PI),
        (55.66338, 1.5 * PI),
        (267.74676, 2.0 * PI),
    ];
    test_trig_fn("ACOSH", test_cases);

    let test_cases = &[
        (-0.99627208, -1.0 * PI),
        (-0.98219338, -0.75 * PI),
        (-0.91715234, -0.5 * PI),
        (-0.6557942, -0.25 * PI),
        (0.0, 0.0 * PI),
        (0.6557942, 0.25 * PI),
        (0.91715234, 0.5 * PI),
        (0.98219338, 0.75 * PI),
        (0.99627208, 1.0 * PI),
    ];
    test_trig_fn("ATANH", test_cases);

    let test_cases = &[
        (-0.0037349, -2.0 * PI),
        (-0.01796803, -1.5 * PI),
        (-0.08658954, -1.0 * PI),
        (-0.19127876, -0.75 * PI),
        (-0.43453721, -0.5 * PI),
        (-1.15118387, -0.25 * PI),
        (1.15118387, 0.25 * PI),
        (0.43453721, 0.5 * PI),
        (0.19127876, 0.75 * PI),
        (0.08658954, 1.0 * PI),
        (0.01796803, 1.5 * PI),
        (0.0037349, 2.0 * PI),
    ];
    test_trig_fn("ACSCH", test_cases);

    let test_cases = &[
        (1.0, 0.0 * PI),
        (0.754939709, 0.25 * PI),
        (0.398536815, 0.5 * PI),
        (0.187872734, 0.75 * PI),
        (0.086266738, 1.0 * PI),
        (0.017965132, 1.5 * PI),
        (0.003734872, 2.0 * PI),
    ];
    test_trig_fn("ASECH", test_cases);

    let test_cases = &[
        (-1.000161412, -1.5 * PI),
        (-1.00374187, -1.0 * PI),
        (-1.01812944, -0.75 * PI),
        (-1.09033141, -0.5 * PI),
        (-1.52486862, -0.25 * PI),
        (1.52486862, 0.25 * PI),
        (1.09033141, 0.5 * PI),
        (1.01812944, 0.75 * PI),
        (1.00374187, 1.0 * PI),
        (1.000161412, 1.5 * PI),
    ];
    test_trig_fn("ACOTH", test_cases);
}

#[test]
fn numeric_function_on_an_empty_cell_is_a_type_mismatch() {
    assert_eq!(
        call_on_cells("SIN", &[Cell::Empty]),
        Err(TypeMismatch { expected: CellKind::Integer, found: CellKind::Empty })
    );
    assert_eq!(
        call_on_cells("ATAN2", &[Cell::Integer(2), Cell::Empty]),
        Err(TypeMismatch { expected: CellKind::Integer, found: CellKind::Empty })
    );
    assert_eq!(call_on_cells("COS", &[Cell::Integer(0)]), Ok(1.0));
    assert_eq!(call_on_cells("DEGREES", &[Cell::Integer(0)]), Ok(0.0));
}

#[test]
fn catalog_lists_the_functions_in_order() {
    let names: Vec<String> = get_functions().into_iter().map(|f| f.name).collect();
    assert_eq!(
        names,
        vec![
            "DEGREES", "RADIANS", "SIN", "ASIN", "COS", "ACOS", "ATAN2", "TAN", "ATAN", "CSC",
            "ACSC", "SEC", "ASEC", "COT", "ACOT", "SINH", "ASINH", "COSH", "ACOSH", "TANH",
            "ATANH", "CSCH", "ACSCH", "SECH", "ASECH", "COTH", "ACOTH",
        ]
    );
}

#[test]
fn catalog_names_are_distinct() {
    let functions = get_functions();
    for (at, function) in functions.iter().enumerate() {
        assert_eq!(find_function(&functions, &function.name), Some(at));
    }
}

#[test]
fn unknown_names_are_not_found() {
    let functions = get_functions();
    assert_eq!(find_function(&functions, "SINE"), None);
    assert_eq!(find_function(&functions, "sin"), None);
    assert_eq!(find_function(&functions, ""), None);
    assert_eq!(find_function(&functions, "ATAN3"), None);
    assert_eq!(find_function(&vec![], "SIN"), None);
}

#[test]
fn lookup_returns_the_first_function_of_a_name() {
    let mut functions = get_functions();
    let copy = functions[2].clone();
    functions.push(copy);
    assert_eq!(find_function(&functions, "SIN"), Some(2));
}

#[test]
fn catalog_entries_declare_what_they_are() {
    let functions = get_functions();
    let sin = &functions[find_function(&functions, "SIN").unwrap()];
    assert_eq!(sin.arg_completion, "${1:radians}");
    assert_eq!(sin.usage, "radians");
    assert_eq!(sin.examples, vec!["SIN(PI() * 2/3)"]);
    assert_eq!(
        sin.doc,
        "Returns the [sine](https://en.wikipedia.org/wiki/Trigonometric_functions) of an angle in radians."
    );
    assert_eq!(sin.routine, Routine::Direct(Primitive::Sin));

    let atan = &functions[find_function(&functions, "ATAN").unwrap()];
    assert_eq!(atan.arg_completion, "${1:number}");
    assert_eq!(atan.usage, "number");
    assert_eq!(atan.examples, vec!["ATAN(A1)"]);
    assert_eq!(
        atan.doc,
        "Returns the [inverse tangent](https://en.wikipedia.org/wiki/Inverse_trigonometric_functions) of a number, in radians, ranging from -π/2 to π/2."
    );
    assert_eq!(atan.routine, Routine::Direct(Primitive::Atan));

    let acsch = &functions[find_function(&functions, "ACSCH").unwrap()];
    assert_eq!(
        acsch.doc,
        "Returns the [inverse hyperbolic cosecant](https://en.wikipedia.org/wiki/Inverse_hyperbolic_functions) of a number, in radians."
    );
    assert_eq!(acsch.routine, Routine::OfReciprocal(Primitive::Asinh));

    let sech = &functions[find_function(&functions, "SECH").unwrap()];
    assert_eq!(
        sech.doc,
        "Returns the [hyperbolic secant](https://en.wikipedia.org/wiki/Hyperbolic_functions) of an angle in radians."
    );
    assert_eq!(sech.routine, Routine::ReciprocalOf(Primitive::Cosh));

    let degrees = &functions[0];
    assert_eq!(degrees.name, "DEGREES");
    assert_eq!(degrees.examples, vec!["DEGREES(PI() / 2)"]);
    assert_eq!(degrees.doc, "Converts radians to degrees");
    let radians = &functions[1];
    assert_eq!(radians.arg_completion, "${1:degrees}");
    assert_eq!(radians.usage, "degrees");
    assert_eq!(radians.examples, vec!["RADIANS(90)"]);
    assert_eq!(radians.doc, "Converts degrees to radians");

    let atan2 = &functions[6];
    assert_eq!(atan2.name, "ATAN2");
    assert_eq!(atan2.arg_completion, "{$1:x}, {$2:y}");
    assert_eq!(atan2.usage, "x, y");
    assert_eq!(atan2.examples, vec!["ATAN2(2, 1)"]);
    assert!(atan2.doc.starts_with("Returns the counterclockwise angle, in radians,"));
    assert!(atan2.doc.ends_with("(https://en.wikipedia.org/wiki/Atan2)."));
    assert_eq!(atan2.routine, Routine::Atan2);
    assert_eq!(atan2.routine.arity(), 2);
    assert_eq!(sin.routine.arity(), 1);
}

#[test]
fn arc_cotangent_is_continuous_at_zero() {
    assert_eq!(routine_of("ACOT"), Routine::ArcCotangent);
    assert_f64_approx_eq(0.5 * PI, &number_to_string(call("ACOT", &[0.0])));
    assert_f64_approx_eq(0.5 * PI, &number_to_string(call("ACOT", &[1e-9])));
    assert_f64_approx_eq(0.5 * PI, &number_to_string(call("ACOT", &[-1e-9])));
}

#[test]
fn every_example_invokes_its_own_function() {
    let functions = get_functions();
    assert_eq!(functions.len(), 27);
    for function in &functions {
        assert!(!function.name.is_empty());
        assert!(!function.usage.is_empty());
        assert!(!function.doc.is_empty());
        assert!(!function.examples.is_empty());
        for example in &function.examples {
            assert!(
                example.starts_with(&format!("{}(", function.name)),
                "{example} does not invoke {}",
                function.name,
            );
        }
    }
    let acoth = &functions[find_function(&functions, "ACOTH").unwrap()];
    assert_eq!(acoth.examples, vec!["ACOTH(A1)"]);
    let asin = &functions[find_function(&functions, "ASIN").unwrap()];
    assert_eq!(asin.examples, vec!["ASIN(A1)"]);
    let cot = &functions[find_function(&functions, "COT").unwrap()];
    assert_eq!(cot.examples, vec!["COT(PI() * 2/3)"]);
}
