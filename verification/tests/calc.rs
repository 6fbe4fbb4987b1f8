use stage_runtime::calc::{parse_calc, parse_calc_tree, parse_calc_value, parse_length, CalcExpr, CalcUnit, LengthSpec};

fn v(u: CalcUnit, t: &str) -> Box<CalcExpr> {
    Box::new(CalcExpr::Value(u, t.to_string()))
}

fn chars(s: &str) -> Vec<char> {
    s.chars().collect()
}

#[test]
fn percent_minus_pixels() {
    assert_eq!(
        parse_calc("calc(100% - 40px)"),
        Some(CalcExpr::Sub(v(CalcUnit::Percent, "100"), v(CalcUnit::Px, "40")))
    );
}

#[test]
fn division_by_a_number() {
    assert_eq!(
        parse_calc("  calc(256px / 2) "),
        Some(CalcExpr::Div(v(CalcUnit::Px, "256"), v(CalcUnit::Number, "2")))
    );
}

#[test]
fn additive_operators_bind_loosest_and_group_left() {
    // 1px + 2px * 3 - 4px  ==  (1px + (2px * 3)) - 4px
    assert_eq!(
        parse_calc_tree(&chars("1px + 2px * 3 - 4px")),
        Some(CalcExpr::Sub(
            Box::new(CalcExpr::Add(
                v(CalcUnit::Px, "1"),
                Box::new(CalcExpr::Mul(v(CalcUnit::Px, "2"), v(CalcUnit::Number, "3")))
            )),
            v(CalcUnit::Px, "4")
        ))
    );
}

#[test]
fn parentheses_group() {
    assert_eq!(
        parse_calc("calc((100% - 20px) / 2 + 1em)"),
        Some(CalcExpr::Add(
            Box::new(CalcExpr::Div(
                Box::new(CalcExpr::Sub(v(CalcUnit::Percent, "100"), v(CalcUnit::Px, "20"))),
                v(CalcUnit::Number, "2")
            )),
            v(CalcUnit::Em, "1")
        ))
    );
    assert_eq!(parse_calc_tree(&chars(" ((5vw)) ")), Some(CalcExpr::Value(CalcUnit::Vw, "5".to_string())));
}

#[test]
fn signs_are_not_operators() {
    assert_eq!(
        parse_calc_tree(&chars("-5px + 3vh")),
        Some(CalcExpr::Add(v(CalcUnit::Px, "-5"), v(CalcUnit::Vh, "3")))
    );
    // An exponent's sign follows a letter other than `x`.
    assert_eq!(parse_calc_value(&chars("1e-3px")), Some(CalcExpr::Value(CalcUnit::Px, "1e-3".to_string())));
    assert_eq!(parse_calc_tree(&chars("1e-3px")), Some(CalcExpr::Value(CalcUnit::Px, "1e-3".to_string())));
}

#[test]
fn unreadable_values_fail() {
    assert_eq!(parse_calc("calc(1rem)"), None);
    assert_eq!(parse_calc("calc(10px + abc)"), None);
    assert_eq!(parse_calc("calc()"), None);
    assert_eq!(parse_calc("calc("), None);
    assert_eq!(parse_calc("calc(1px"), None);
    assert_eq!(parse_calc("10px"), None);
}

#[test]
fn lengths_by_unit() {
    assert_eq!(parse_length(" 0 "), LengthSpec::Px("0".to_string()));
    assert_eq!(parse_length("auto"), LengthSpec::Auto);
    assert_eq!(parse_length("50 %"), LengthSpec::Percent("50".to_string()));
    assert_eq!(parse_length("2rem"), LengthSpec::Rem("2".to_string()));
    assert_eq!(parse_length("1.5em"), LengthSpec::Em("1.5".to_string()));
    assert_eq!(parse_length("10vw"), LengthSpec::Vw("10".to_string()));
    assert_eq!(parse_length("10vh"), LengthSpec::Vh("10".to_string()));
    assert_eq!(parse_length("12px"), LengthSpec::Px("12".to_string()));
    assert_eq!(parse_length("7"), LengthSpec::Px("7".to_string()));
    assert_eq!(parse_length("wide"), LengthSpec::Px("wide".to_string()));
    assert_eq!(
        parse_length("calc(100% - 1px)"),
        LengthSpec::Calc(Some(CalcExpr::Sub(v(CalcUnit::Percent, "100"), v(CalcUnit::Px, "1"))))
    );
    assert_eq!(parse_length("calc(oops)"), LengthSpec::Calc(None));
}
