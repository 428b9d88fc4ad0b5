use indexmap::IndexMap;
use std::path::PathBuf;
use veritool_core::args::{detect_top_module, parse_defines, parse_param_override, parse_param_overrides, Commands, OutputFormat, OverrideError};
use veritool_core::design::{ClockEdge, DataType, Design, Direction, FfDecl, Instance, Module, NetKind, ParamDecl, Port, Range, ResetKind, Signal};
use veritool_core::env::ParamMap;
use veritool_core::ff::{collect_ff_rows, count_module_ffs_with_env, try_collect_ff_rows, try_count_module_ffs};
use veritool_core::params::{evaluate_expr, try_evaluate_expr, ParamEnv};
use veritool_core::expr::Evaluation;
use veritool_core::width::{calculate_ff_width, calculate_width, calculate_width_with_map, calculate_width_with_params};

fn range(msb: &str, lsb: &str) -> Range {
    Range { msb: msb.to_string(), lsb: lsb.to_string() }
}

fn signal(name: &str, packed: Option<Range>, unpacked: Vec<Range>) -> Signal {
    Signal { name: name.to_string(), net_kind: NetKind::Logic, data_type: DataType::Logic, packed_width: packed, unpacked_dims: unpacked }
}

fn port(name: &str, dir: Direction, packed: Option<Range>) -> Port {
    Port { name: name.to_string(), direction: dir, net_kind: NetKind::Logic, data_type: DataType::Logic, packed_width: packed, unpacked_dims: Vec::new() }
}

fn ff(name: &str) -> FfDecl {
    FfDecl { signal_name: name.to_string(), packed_width: None, unpacked_dims: Vec::new(), clock_edge: ClockEdge::Posedge, reset_kind: ResetKind::NoReset }
}

fn param(name: &str, value: &str) -> ParamDecl {
    ParamDecl { name: name.to_string(), value: value.to_string() }
}

fn inst(name: &str, module_ref: &str, overrides: &[(&str, &str)]) -> Instance {
    Instance {
        inst_name: name.to_string(),
        module_ref: module_ref.to_string(),
        param_overrides: overrides.iter().map(|(k, v)| (k.to_string(), v.to_string())).collect(),
    }
}

fn module(name: &str) -> Module {
    Module {
        name: name.to_string(),
        file: PathBuf::from("design.sv"),
        span: (0, 0),
        params: Vec::new(),
        ports: Vec::new(),
        signals: Vec::new(),
        instances: Vec::new(),
        ff_decls: Vec::new(),
    }
}

fn design(mods: Vec<Module>) -> Design {
    let mut modules = IndexMap::new();
    for m in mods {
        modules.insert(m.name.clone(), m);
    }
    Design { modules, files: Vec::new() }
}

fn fifo() -> Module {
    let mut m = module("fifo_sync");
    m.params = vec![param("WIDTH", "8"), param("DEPTH", "16"), param("ADDR_W", "$clog2(DEPTH)")];
    m.ports = vec![port("clk", Direction::Input, None), port("dout", Direction::Output, Some(range("WIDTH-1", "0")))];
    m.signals = vec![
        signal("mem", Some(range("WIDTH-1", "0")), vec![range("0", "DEPTH-1")]),
        signal("wr_ptr", Some(range("ADDR_W", "0")), Vec::new()),
        signal("rd_ptr", Some(range("ADDR_W", "0")), Vec::new()),
    ];
    m.ff_decls = vec![ff("mem"), ff("wr_ptr"), ff("rd_ptr"), ff("dout"), ff("flag")];
    m
}

#[test]
fn widths_follow_packed_times_unpacked() {
    let mut p = ParamMap::new();
    p.insert("WIDTH".to_string(), 8);
    p.insert("DEPTH".to_string(), 16);
    let mem = signal("mem", Some(range("WIDTH-1", "0")), vec![range("0", "DEPTH-1")]);
    assert_eq!(calculate_width_with_map(&mem, &p), 128);
    let reversed = signal("r", Some(range("0", "7")), Vec::new());
    assert_eq!(calculate_width(&reversed), 8);
    // an unresolvable bound counts as one bit
    let unknown = signal("u", Some(range("N-1", "0")), Vec::new());
    assert_eq!(calculate_width(&unknown), 1);
    assert_eq!(calculate_ff_width(&signal("b", None, Vec::new())), 1);
    let two_d = signal("m2", Some(range("3", "0")), vec![range("0", "1"), range("2", "0")]);
    assert_eq!(calculate_ff_width(&two_d), 24);
}

#[test]
fn fifo_localparams_are_evaluated_in_order() {
    let m = fifo();
    let env = ParamEnv::from_module(&m);
    assert_eq!(env.get("WIDTH"), Some(8));
    assert_eq!(env.get("DEPTH"), Some(16));
    assert_eq!(env.get("ADDR_W"), Some(4));
    assert_eq!(env.get("MISSING"), None);
    assert_eq!(calculate_width_with_params(&m.signals[1], &env), 5);
    assert_eq!(calculate_width_with_params(&m.signals[0], &env), 128);
}

#[test]
fn overrides_replace_defaults_last_one_winning() {
    let m = fifo();
    let env = ParamEnv::from_module(&m).with_overrides(&[("WIDTH".to_string(), 16), ("WIDTH".to_string(), 32)]);
    assert_eq!(env.get("WIDTH"), Some(32));
    assert_eq!(env.get("DEPTH"), Some(16));
    assert_eq!(env.as_map().get("WIDTH"), Some(32));
    // the override does not re-evaluate later parameters
    assert_eq!(env.get("ADDR_W"), Some(4));
    let empty = ParamEnv::new();
    assert_eq!(empty.get("WIDTH"), None);
    let d: ParamEnv = Default::default();
    assert_eq!(d.get("WIDTH"), None);
}

#[test]
fn module_ff_count_uses_signals_then_ports_then_one_bit() {
    let m = fifo();
    let env = ParamEnv::from_module(&m);
    // mem 128 + wr_ptr 5 + rd_ptr 5 + dout (port) 8 + flag (undeclared) 1
    assert_eq!(count_module_ffs_with_env(&m, &env), 147);
    assert_eq!(try_count_module_ffs(&m, env.as_map()), Some(147));
    let env16 = ParamEnv::from_module(&m).with_overrides(&[("WIDTH".to_string(), 16)]);
    assert_eq!(count_module_ffs_with_env(&m, &env16), 16 * 16 + 5 + 5 + 16 + 1);
}

#[test]
fn ff_count_overflow_is_reported() {
    let mut m = module("big");
    m.signals = vec![signal("x", Some(range("9223372036854775807", "0")), Vec::new())];
    m.ff_decls = vec![ff("x")];
    let env = ParamEnv::new();
    assert_eq!(try_count_module_ffs(&m, env.as_map()), None);
}

fn hierarchy_design() -> Design {
    let mut top = module("top1");
    top.params = vec![param("W", "4")];
    top.instances = vec![inst("u_alu", "alu", &[("N", "W * 2")]), inst("u_rf", "reg_file", &[])];
    let mut alu = module("alu");
    alu.params = vec![param("N", "8")];
    alu.signals = vec![signal("acc", Some(range("N-1", "0")), Vec::new())];
    alu.ff_decls = vec![ff("acc")];
    let mut rf = module("reg_file");
    rf.signals = vec![signal("regs", Some(range("7", "0")), vec![range("0", "3")])];
    rf.ff_decls = vec![ff("regs")];
    rf.instances = vec![inst("u_back", "top1", &[])];
    design(vec![top, alu, rf])
}

#[test]
fn ff_rows_pass_parameters_down() {
    let d = hierarchy_design();
    let mut visited = Vec::new();
    let rows = collect_ff_rows(&d, "top1", &[], &mut visited);
    assert!(visited.is_empty());
    assert_eq!(
        rows,
        vec![("top1".to_string(), 0, 40), ("alu".to_string(), 8, 8), ("reg_file".to_string(), 32, 32)]
    );
    let rows = try_collect_ff_rows(&d, "top1", &[("W".to_string(), 8)], &mut visited).unwrap();
    assert_eq!(rows[0], ("top1".to_string(), 0, 48));
    assert_eq!(rows[1], ("alu".to_string(), 16, 16));
    assert!(try_collect_ff_rows(&d, "nowhere", &[], &mut visited).unwrap().is_empty());
}

#[test]
fn top_modules_are_those_nobody_instantiates() {
    let d = hierarchy_design();
    assert_eq!(detect_top_module(&d), Vec::<String>::new());
    let mut top = module("top1");
    top.instances = vec![inst("u_alu", "alu", &[]), inst("u_rf", "reg_file", &[])];
    let d = design(vec![module("alu"), top, module("reg_file"), module("spare")]);
    assert_eq!(detect_top_module(&d), vec!["top1".to_string(), "spare".to_string()]);
}

#[test]
fn defines_split_at_the_first_equals() {
    let r = parse_defines(&["NAME=VAL".to_string(), "FLAG".to_string(), "A=B=C".to_string(), "=X".to_string()]);
    assert_eq!(
        r,
        vec![
            ("NAME".to_string(), Some("VAL".to_string())),
            ("FLAG".to_string(), None),
            ("A".to_string(), Some("B=C".to_string())),
            ("".to_string(), Some("X".to_string())),
        ]
    );
}

#[test]
fn param_overrides_are_read_or_reported() {
    assert_eq!(parse_param_override(" WIDTH = 16 ").unwrap(), ("WIDTH".to_string(), 16));
    assert_eq!(parse_param_override("N=-3").unwrap(), ("N".to_string(), -3));
    assert_eq!(parse_param_override("N=+7").unwrap(), ("N".to_string(), 7));
    assert_eq!(parse_param_override("N=-9223372036854775808").unwrap(), ("N".to_string(), i64::MIN));
    match parse_param_override("N=9223372036854775808") {
        Err(OverrideError::NotInteger(n, v)) => {
            assert_eq!(n, "N");
            assert_eq!(v, "9223372036854775808");
        }
        other => panic!("unexpected {:?}", other),
    }
    match parse_param_override("WIDTH=abc") {
        Err(OverrideError::NotInteger(n, v)) => {
            assert_eq!(n, "WIDTH");
            assert_eq!(v, "abc");
        }
        other => panic!("unexpected {:?}", other),
    }
    match parse_param_override(" WIDTH ") {
        Err(OverrideError::MissingEquals(s)) => assert_eq!(s, "WIDTH"),
        other => panic!("unexpected {:?}", other),
    }
    let (ok, errors) = parse_param_overrides(&["A=1".to_string(), "B".to_string(), "C=x".to_string(), "D=4".to_string()]);
    assert_eq!(ok, vec![("A".to_string(), 1), ("D".to_string(), 4)]);
    assert_eq!(errors.len(), 2);
    match &errors[0] {
        OverrideError::MissingEquals(s) => assert_eq!(s, "B"),
        other => panic!("unexpected {:?}", other),
    }
    match &errors[1] {
        OverrideError::NotInteger(n, v) => assert_eq!((n.as_str(), v.as_str()), ("C", "x")),
        other => panic!("unexpected {:?}", other),
    }
}

#[test]
fn commands_give_their_files() {
    let c = Commands::Hier { files: vec![PathBuf::from("a.sv"), PathBuf::from("b.sv")] };
    assert_eq!(c.files(), &[PathBuf::from("a.sv"), PathBuf::from("b.sv")][..]);
    let c = Commands::Top { files: Vec::new() };
    assert!(c.files().is_empty());
    assert_eq!(OutputFormat::Csv, OutputFormat::Csv);
    assert_ne!(OutputFormat::Text, OutputFormat::Json);
}

#[test]
fn evaluation_traps_are_told_apart() {
    let p = ParamMap::new();
    assert_eq!(try_evaluate_expr("1 / 0", &p), Evaluation::Undefined);
    assert_eq!(try_evaluate_expr("-9223372036854775807 - 1", &p), Evaluation::Value(i64::MIN));
    assert_eq!(evaluate_expr("2 ** 62", &p), Some(1 << 62));
    assert_eq!(evaluate_expr("2 ** 63", &p), None);
    assert_eq!(evaluate_expr("$CLOG2(16)", &p), Some(4));
    assert_eq!(evaluate_expr("  7  ", &p), Some(7));
    assert_eq!(evaluate_expr("(3 + 4) * 2", &p), Some(14));
    assert_eq!(evaluate_expr("~0", &p), Some(-1));
    assert_eq!(evaluate_expr("3 +", &p), None);
    assert_eq!(evaluate_expr("1_000", &p), Some(1000));
}

#[test]
fn ff_rows_follow_the_hierarchy_lines() {
    let d = hierarchy_design();
    let rows = collect_ff_rows(&d, "top1", &[], &mut Vec::new());
    let lines = veritool_core::analyze::hierarchy::hierarchy_lines(&d, "top1");
    let expanded: Vec<String> = lines
        .iter()
        .filter(|v| !v.circular && d.modules.contains_key(&v.module))
        .map(|v| v.module.clone())
        .collect();
    let names: Vec<String> = rows.iter().map(|r| r.0.clone()).collect();
    assert_eq!(names, expanded);
    assert_eq!(lines.len(), 4);
    assert!(lines[3].circular);
}

#[test]
fn widths_ignore_bound_and_dimension_order() {
    let mut p = ParamMap::new();
    p.insert("W".to_string(), 8);
    let a = signal("a", Some(range("W-1", "0")), vec![range("0", "3"), range("2", "0")]);
    let b = signal("b", Some(range("0", "W-1")), vec![range("0", "2"), range("3", "0")]);
    assert_eq!(calculate_width_with_map(&a, &p), 96);
    assert_eq!(calculate_width_with_map(&b, &p), 96);
}
