use veritool_core::env::ParamMap;
use veritool_core::params::{evaluate_clog2, evaluate_expr};

fn params(pairs: &[(&str, i64)]) -> ParamMap {
    let mut m = ParamMap::new();
    for (k, v) in pairs {
        m.insert(k.to_string(), *v);
    }
    m
}

#[test]
fn test_literals() {
    let p = ParamMap::new();
    assert_eq!(evaluate_expr("8", &p), Some(8));
    assert_eq!(evaluate_expr("255", &p), Some(255));
    assert_eq!(evaluate_expr("8'd255", &p), Some(255));
    assert_eq!(evaluate_expr("8'hFF", &p), Some(255));
    assert_eq!(evaluate_expr("8'b11111111", &p), Some(255));
    assert_eq!(evaluate_expr("1'b0", &p), Some(0));
    assert_eq!(evaluate_expr("1'b1", &p), Some(1));
}

#[test]
fn test_arithmetic() {
    let p = ParamMap::new();
    assert_eq!(evaluate_expr("3 + 4", &p), Some(7));
    assert_eq!(evaluate_expr("10 - 3", &p), Some(7));
    assert_eq!(evaluate_expr("3 * 4", &p), Some(12));
    assert_eq!(evaluate_expr("12 / 4", &p), Some(3));
    assert_eq!(evaluate_expr("10 % 3", &p), Some(1));
    assert_eq!(evaluate_expr("2 ** 8", &p), Some(256));
}

#[test]
fn test_shifts() {
    let p = ParamMap::new();
    assert_eq!(evaluate_expr("1 << 3", &p), Some(8));
    assert_eq!(evaluate_expr("16 >> 2", &p), Some(4));
}

#[test]
fn test_bitwise() {
    let p = ParamMap::new();
    assert_eq!(evaluate_expr("0xF0 & 0xFF", &p), None); // 0x prefix not supported
    assert_eq!(evaluate_expr("8'hF0 & 8'hFF", &p), Some(0xF0));
    assert_eq!(evaluate_expr("4'b1010 | 4'b0101", &p), Some(0xF));
    assert_eq!(evaluate_expr("4'b1010 ^ 4'b1100", &p), Some(6));
}

#[test]
fn test_params() {
    let p = params(&[("WIDTH", 8), ("DEPTH", 16)]);
    assert_eq!(evaluate_expr("WIDTH", &p), Some(8));
    assert_eq!(evaluate_expr("WIDTH - 1", &p), Some(7));
    assert_eq!(evaluate_expr("WIDTH * DEPTH", &p), Some(128));
    assert_eq!(evaluate_expr("WIDTH + 0", &p), Some(8));
}

#[test]
fn test_clog2() {
    let p = params(&[("DEPTH", 16), ("N", 256)]);
    assert_eq!(evaluate_expr("$clog2(16)", &p), Some(4));
    assert_eq!(evaluate_expr("$clog2(256)", &p), Some(8));
    assert_eq!(evaluate_expr("$clog2(DEPTH)", &p), Some(4));
    assert_eq!(evaluate_expr("$clog2(N)", &p), Some(8));
    // Edge cases
    assert_eq!(evaluate_clog2(1), 1);
    assert_eq!(evaluate_clog2(2), 1);
    assert_eq!(evaluate_clog2(3), 2);
    assert_eq!(evaluate_clog2(4), 2);
    assert_eq!(evaluate_clog2(5), 3);
}

#[test]
fn test_nested_expr() {
    let p = params(&[("WIDTH", 8), ("ADDR_W", 4)]);
    // [ADDR_W:0] → width = ADDR_W + 1 = 5
    assert_eq!(evaluate_expr("ADDR_W + 1", &p), Some(5));
    // [WIDTH-1:0] → width = WIDTH - 1 - 0 + 1 = WIDTH = 8
    assert_eq!(evaluate_expr("WIDTH - 1", &p), Some(7));
}

#[test]
fn test_unresolvable() {
    let p = ParamMap::new();
    // Unknown identifier returns None
    assert_eq!(evaluate_expr("UNKNOWN", &p), None);
    assert_eq!(evaluate_expr("WIDTH - 1", &p), None);
}

#[test]
fn test_clog2_addr_w() {
    // ADDR_W = $clog2(DEPTH) where DEPTH=16 → 4
    let p = params(&[("DEPTH", 16)]);
    assert_eq!(evaluate_expr("$clog2(DEPTH)", &p), Some(4));
}

#[test]
fn test_comparison_operators() {
    let p = params(&[("N", 4), ("I", 3)]);
    // relational
    assert_eq!(evaluate_expr("3 < 4", &p), Some(1));
    assert_eq!(evaluate_expr("4 < 3", &p), Some(0));
    assert_eq!(evaluate_expr("3 <= 3", &p), Some(1));
    assert_eq!(evaluate_expr("3 >= 4", &p), Some(0));
    assert_eq!(evaluate_expr("4 > 3", &p), Some(1));
    // equality
    assert_eq!(evaluate_expr("3 == 3", &p), Some(1));
    assert_eq!(evaluate_expr("3 != 4", &p), Some(1));
    assert_eq!(evaluate_expr("3 == 4", &p), Some(0));
    // with params
    assert_eq!(evaluate_expr("I < N", &p), Some(1));
    assert_eq!(evaluate_expr("I < N - 1", &p), Some(0)); // 3 < 3 == 0
    assert_eq!(evaluate_expr("I <= N - 1", &p), Some(1)); // 3 <= 3 == 1
}
