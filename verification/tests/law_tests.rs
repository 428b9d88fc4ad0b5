use std::path::PathBuf;
use veritool_core::design::{Module, ParamDecl};
use veritool_core::env::ParamMap;
use veritool_core::params::{evaluate_expr, ParamEnv};

fn module_with(params: &[(&str, &str)]) -> Module {
    Module {
        name: "m".to_string(),
        file: PathBuf::from("m.sv"),
        span: (0, 0),
        params: params.iter().map(|(n, v)| ParamDecl { name: n.to_string(), value: v.to_string() }).collect(),
        ports: Vec::new(),
        signals: Vec::new(),
        instances: Vec::new(),
        ff_decls: Vec::new(),
    }
}

#[test]
fn a_map_reads_back_the_last_binding() {
    let mut m = ParamMap::new();
    m.insert("A".to_string(), 1);
    m.insert("B".to_string(), 2);
    m.insert("A".to_string(), 3);
    assert_eq!(m.get("A"), Some(3));
    assert_eq!(m.get("B"), Some(2));
    assert_eq!(m.get("C"), None);
}

#[test]
fn a_parameter_named_by_a_later_one_gives_its_value() {
    let m = module_with(&[("A", "5"), ("B", "A"), ("C", "MISSING"), ("D", "B * 2")]);
    let env = ParamEnv::from_module(&m);
    assert_eq!(env.get("B"), Some(5));
    assert_eq!(env.get("C"), None);
    assert_eq!(env.get("D"), Some(10));
    // a parameter does not see the ones after it
    let m = module_with(&[("X", "Y"), ("Y", "1")]);
    let env = ParamEnv::from_module(&m);
    assert_eq!(env.get("X"), None);
    assert_eq!(env.get("Y"), Some(1));
}

#[test]
fn a_name_evaluates_to_its_binding() {
    let mut m = ParamMap::new();
    m.insert("_w0".to_string(), -4);
    assert_eq!(evaluate_expr("_w0", &m), Some(-4));
    assert_eq!(evaluate_expr("w0", &m), None);
}

#[test]
fn a_decimal_number_evaluates_to_itself() {
    let m = ParamMap::new();
    assert_eq!(evaluate_expr("007", &m), Some(7));
    assert_eq!(evaluate_expr("9223372036854775807", &m), Some(i64::MAX));
    assert_eq!(evaluate_expr("9223372036854775808", &m), None);
}

#[test]
fn identifiers_may_hold_unicode_letters() {
    let mut m = ParamMap::new();
    m.insert("aé".to_string(), 3);
    m.insert("a".to_string(), 9);
    assert_eq!(evaluate_expr("aé + 1", &m), Some(4));
    assert_eq!(evaluate_expr("\u{3000}a\u{3000}", &m), Some(9));
}

#[test]
fn powers_check_for_overflow() {
    let m = ParamMap::new();
    assert_eq!(evaluate_expr("(-2) ** 63", &m), Some(i64::MIN));
    assert_eq!(evaluate_expr("(-2) ** 64", &m), None);
    assert_eq!(evaluate_expr("(0 - 1) ** 5", &m), Some(-1));
    assert_eq!(evaluate_expr("1 ** 4000000000", &m), Some(1));
    assert_eq!(evaluate_expr("0 ** 0", &m), Some(1));
    assert_eq!(evaluate_expr("3 ** 39", &m), Some(4052555153018976267));
    assert_eq!(evaluate_expr("3 ** 40", &m), None);
    assert_eq!(evaluate_expr("2 ** 4294967296", &m), Some(1));
}

#[test]
fn parentheses_keep_the_value() {
    let mut m = ParamMap::new();
    m.insert("W".to_string(), 6);
    assert_eq!(evaluate_expr("(W - 1) | 8", &m), Some(13));
    assert_eq!(evaluate_expr("((W - 1) | 8)", &m), Some(13));
    assert_eq!(evaluate_expr("((1 | 2))", &m), Some(3));
    // a comparison is not read inside parentheses
    assert_eq!(evaluate_expr("3 < 4", &m), Some(1));
    assert_eq!(evaluate_expr("(3 < 4)", &m), None);
}
