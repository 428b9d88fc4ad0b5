use indexmap::IndexMap;
use std::path::PathBuf;
use veritool_core::analyze::hierarchy::{build_hierarchy, hierarchy_lines, HierarchyError};
use veritool_core::design::{DataType, Design, Direction, FfDecl, Instance, Module, NetKind, Port, Range, Signal};
use veritool_core::format::csv::{format_ff_csv, format_hier_csv, format_ports_csv, format_report_csv, format_signals_csv, format_top_csv};
use veritool_core::format::text::{direction_name, hier_list_lines, hier_tree_lines, port_rows, signal_rows, top_list_lines, top_text_lines};
use veritool_core::report::{format_range, format_type};
use veritool_core::visit::{
    always_is_clocked, data_type_from_keywords, direction_from_keyword, ff_decl_for_target, identifier_text, instantiation, net_kind_from_keyword,
    packed_range, param_decl, visit_events, AlwaysKind, NetPortHeader, VariablePortHeader, VisitEvent,
};

fn range(msb: &str, lsb: &str) -> Range {
    Range { msb: msb.to_string(), lsb: lsb.to_string() }
}

fn empty_design() -> Design {
    Design { modules: IndexMap::new(), files: Vec::new() }
}

fn counter_events() -> Vec<VisitEvent> {
    vec![
        VisitEvent::EnterModule { ansi: true, name: Some("counter".to_string()) },
        VisitEvent::AnsiNetPort {
            name: Some("clk".to_string()),
            header: Some(NetPortHeader { direction: Some(Direction::Input), data_type: DataType::Logic, packed_width: None, net_kind: NetKind::Wire }),
            unpacked_dims: Vec::new(),
        },
        VisitEvent::AnsiNetPort { name: Some("rst".to_string()), header: None, unpacked_dims: Vec::new() },
        VisitEvent::AnsiVariablePort {
            name: Some("q".to_string()),
            header: Some(VariablePortHeader { direction: Some(Direction::Output), data_type: DataType::Logic, packed_width: Some(range("WIDTH-1", "0")) }),
            unpacked_dims: Vec::new(),
        },
        VisitEvent::EnterAlways(true),
        VisitEvent::NonblockingAssignment(Some(ff_decl_for_target("q"))),
        VisitEvent::NonblockingAssignment(Some(ff_decl_for_target("q[0]"))),
        VisitEvent::LeaveAlways,
        VisitEvent::EnterAlways(false),
        VisitEvent::NonblockingAssignment(Some(ff_decl_for_target("comb"))),
        VisitEvent::LeaveAlways,
        VisitEvent::LeaveModule,
    ]
}

#[test]
fn walk_builds_the_counter_module() {
    let mut d = empty_design();
    let file = PathBuf::from("counter.sv");
    visit_events(counter_events(), &file, &mut d);
    assert_eq!(d.modules.len(), 1);
    let m = d.modules.get("counter").unwrap();
    assert_eq!(m.ports.len(), 3);
    assert_eq!(m.ports[0].name, "clk");
    assert_eq!(m.ports[0].net_kind, NetKind::Wire);
    // a port without a header repeats the previous one's
    assert_eq!(m.ports[1].direction, Direction::Input);
    assert_eq!(m.ports[1].net_kind, NetKind::Wire);
    assert_eq!(m.ports[2].direction, Direction::Output);
    assert_eq!(m.ports[2].packed_width.as_ref().unwrap().msb, "WIDTH-1");
    // q assigned twice in clocked blocks is one FF; comb is not clocked
    let names: Vec<&str> = m.ff_decls.iter().map(|f: &FfDecl| f.signal_name.as_str()).collect();
    assert_eq!(names, vec!["q"]);
    assert_eq!(m.file, file);
}

#[test]
fn nested_and_unfinished_modules() {
    let mut d = empty_design();
    let file = PathBuf::from("x.sv");
    let evs = vec![
        VisitEvent::EnterModule { ansi: false, name: None },
        VisitEvent::EnterModule { ansi: true, name: Some("inner".to_string()) },
        VisitEvent::Signals(vec![Signal { name: "hidden".to_string(), net_kind: NetKind::Wire, data_type: DataType::Logic, packed_width: None, unpacked_dims: Vec::new() }]),
        VisitEvent::LeaveModule,
        VisitEvent::Ports(vec![Port { name: "a".to_string(), direction: Direction::Input, net_kind: NetKind::Logic, data_type: DataType::Logic, packed_width: None, unpacked_dims: Vec::new() }]),
        VisitEvent::LeaveModule,
        VisitEvent::EnterModule { ansi: true, name: Some("open".to_string()) },
        VisitEvent::Instances(vec![Instance { inst_name: "u0".to_string(), module_ref: "leaf".to_string(), param_overrides: Vec::new() }]),
    ];
    visit_events(evs, &file, &mut d);
    let keys: Vec<&String> = d.modules.keys().collect();
    assert_eq!(keys, vec!["<unknown>", "open"]);
    for (k, m) in &d.modules {
        assert_eq!(k, &m.name);
    }
    let outer = d.modules.get("<unknown>").unwrap();
    assert_eq!(outer.ports.len(), 1);
    assert!(outer.signals.is_empty());
    assert_eq!(d.modules.get("open").unwrap().instances.len(), 1);
}

#[test]
fn keyword_helpers() {
    assert_eq!(direction_from_keyword(" output "), Direction::Output);
    assert_eq!(direction_from_keyword("inout"), Direction::Inout);
    assert_eq!(direction_from_keyword("ref"), Direction::Input);
    assert_eq!(net_kind_from_keyword(Some("tri1")), NetKind::Wire);
    assert_eq!(net_kind_from_keyword(Some("interconnect")), NetKind::Logic);
    assert_eq!(net_kind_from_keyword(None), NetKind::Logic);
    assert!(matches!(data_type_from_keywords(Some("reg"), None), DataType::Reg));
    assert!(matches!(data_type_from_keywords(None, Some("int")), DataType::Int));
    assert!(matches!(data_type_from_keywords(None, Some("shortint")), DataType::ShortInt));
    assert!(matches!(data_type_from_keywords(None, None), DataType::Logic));
    match data_type_from_keywords(Some(" bits "), None) {
        DataType::Custom(n) => assert_eq!(n, "bits"),
        other => panic!("unexpected {:?}", other),
    }
    assert!(packed_range(" ", "").is_none());
    assert_eq!(packed_range(" 7 ", "0").unwrap().msb, "7");
    assert_eq!(identifier_text("\\\\weird ", true), "weird");
    assert_eq!(identifier_text(" plain ", false), "plain");
    assert!(always_is_clocked(Some(AlwaysKind::AlwaysFf), false));
    assert!(always_is_clocked(Some(AlwaysKind::Always), true));
    assert!(!always_is_clocked(Some(AlwaysKind::Always), false));
    assert!(!always_is_clocked(Some(AlwaysKind::AlwaysComb), true));
    assert!(!always_is_clocked(None, true));
    assert_eq!(ff_decl_for_target("mem[ i ]").signal_name, "mem");
    let p = param_decl(Some("W".to_string()), Some("  8 ")).unwrap();
    assert_eq!(p.value, "8");
    assert!(param_decl(Some("W".to_string()), Some("   ")).is_none());
    assert!(param_decl(None, Some("8")).is_none());
    let insts = instantiation(Some("alu".to_string()), vec![("u0".to_string(), vec![("N".to_string(), " W * 2 ".to_string())])]);
    assert_eq!(insts.len(), 1);
    assert_eq!(insts[0].module_ref, "alu");
    assert_eq!(insts[0].param_overrides[0].1, "W * 2");
    assert!(instantiation(None, vec![("u0".to_string(), Vec::new())]).is_empty());
}

fn module(name: &str, instances: Vec<(&str, &str)>) -> Module {
    Module {
        name: name.to_string(),
        file: PathBuf::from("h.sv"),
        span: (0, 0),
        params: Vec::new(),
        ports: Vec::new(),
        signals: Vec::new(),
        instances: instances
            .into_iter()
            .map(|(i, m)| Instance { inst_name: i.to_string(), module_ref: m.to_string(), param_overrides: Vec::new() })
            .collect(),
        ff_decls: Vec::new(),
    }
}

fn cyclic_design() -> Design {
    let mut modules = IndexMap::new();
    modules.insert("top1".to_string(), module("top1", vec![("u_alu", "alu"), ("u_rf", "reg_file")]));
    modules.insert("alu".to_string(), module("alu", vec![("u_add", "adder")]));
    modules.insert("reg_file".to_string(), module("reg_file", vec![("u_loop", "top1")]));
    Design { modules, files: Vec::new() }
}

#[test]
fn hierarchy_lines_cut_cycles() {
    let d = cyclic_design();
    let vs = hierarchy_lines(&d, "top1");
    let summary: Vec<(usize, Option<usize>, &str, &str, bool, bool)> =
        vs.iter().map(|v| (v.depth, v.parent, v.instance.as_str(), v.module.as_str(), v.last, v.circular)).collect();
    assert_eq!(
        summary,
        vec![
            (0, None, "top1", "top1", true, false),
            (1, Some(0), "u_alu", "alu", false, false),
            (2, Some(1), "u_add", "adder", true, false),
            (1, Some(0), "u_rf", "reg_file", true, false),
            (2, Some(3), "u_loop", "top1", true, true),
        ]
    );
    assert_eq!(
        hier_tree_lines(&vs),
        vec![
            "└─ top1".to_string(),
            "   ├─ u_alu (alu)".to_string(),
            "   │  └─ u_add (adder)".to_string(),
            "   └─ u_rf (reg_file)".to_string(),
            "      └─ u_loop (top1)".to_string(),
            "         (circular reference)".to_string(),
        ]
    );
    assert_eq!(
        hier_list_lines(&vs),
        vec![
            "- **top1**".to_string(),
            "  - `u_alu` (alu)".to_string(),
            "    - `u_add` (adder)".to_string(),
            "  - `u_rf` (reg_file)".to_string(),
            "    - `u_loop` (top1)".to_string(),
            "      _(circular)_".to_string(),
        ]
    );
}

#[test]
fn hierarchy_of_an_unknown_top_is_its_line() {
    let d = cyclic_design();
    let vs = hierarchy_lines(&d, "ghost");
    assert_eq!(vs.len(), 1);
    assert_eq!(hier_tree_lines(&vs), vec!["└─ ghost".to_string()]);
}

#[test]
fn resolve_instances_gives_the_module_instances() {
    let d = cyclic_design();
    let env = veritool_core::params::ParamEnv::new();
    let insts = d.resolve_instances("top1", &env);
    let names: Vec<(&str, &str)> = insts.iter().map(|i| (i.inst_name.as_str(), i.module_ref.as_str())).collect();
    assert_eq!(names, vec![("u_alu", "alu"), ("u_rf", "reg_file")]);
    assert!(d.resolve_instances("nope", &env).is_empty());
}

#[test]
fn build_hierarchy_gives_the_tree_or_an_error() {
    let d = cyclic_design();
    let n = build_hierarchy(&d, "top1").unwrap();
    assert_eq!((n.module_name.as_str(), n.instance_name.as_str()), ("top1", "top1"));
    let kids: Vec<(&str, &str)> = n.children.iter().map(|c| (c.instance_name.as_str(), c.module_name.as_str())).collect();
    assert_eq!(kids, vec![("u_alu", "alu"), ("u_rf", "reg_file")]);
    // adder is not in the design: not expanded
    assert_eq!(n.children[0].children.len(), 1);
    assert_eq!(n.children[0].children[0].module_name, "adder");
    assert!(n.children[0].children[0].children.is_empty());
    // reg_file instantiates top1 again: the cycle is cut there
    let back = &n.children[1].children[0];
    assert_eq!((back.instance_name.as_str(), back.module_name.as_str()), ("u_loop", "top1"));
    assert!(back.children.is_empty());
    match build_hierarchy(&d, "nope") {
        Err(e) => {
            assert_eq!(e.message(), "Top module 'nope' not found");
            match e {
                HierarchyError::TopNotFound(name) => assert_eq!(name, "nope"),
            }
        }
        other => panic!("unexpected {:?}", other.map(|n| n.module_name)),
    }
}

#[test]
fn rows_show_direction_type_and_ranges() {
    let mut m = module("m", Vec::new());
    m.ports = vec![
        Port { name: "a".to_string(), direction: Direction::Inout, net_kind: NetKind::Wire, data_type: DataType::Logic, packed_width: Some(range("3", "0")), unpacked_dims: Vec::new() },
        Port { name: "b".to_string(), direction: Direction::Output, net_kind: NetKind::Var, data_type: DataType::Int, packed_width: None, unpacked_dims: Vec::new() },
    ];
    m.signals = vec![Signal {
        name: "mem".to_string(),
        net_kind: NetKind::Logic,
        data_type: DataType::Reg,
        packed_width: Some(range("7", "0")),
        unpacked_dims: vec![range("0", "15"), range("1", "0")],
    }];
    let pr = port_rows(&m);
    assert_eq!((pr[0].direction.as_str(), pr[0].type_text.as_str(), pr[0].width.as_str(), pr[0].name.as_str()), ("inout", "wire", "[3:0]", "a"));
    assert_eq!((pr[1].direction.as_str(), pr[1].type_text.as_str(), pr[1].width.as_str()), ("output", "var int", ""));
    let sr = signal_rows(&m);
    assert_eq!((sr[0].type_text.as_str(), sr[0].packed.as_str(), sr[0].unpacked.as_str(), sr[0].name.as_str()), ("reg", "[7:0]", "[0:15][1:0]", "mem"));
    assert_eq!(direction_name(&Direction::Input), "input");
    assert_eq!(format_type(&DataType::Logic, &NetKind::Unknown), "logic");
    assert_eq!(format_type(&DataType::Custom("wire".to_string()), &NetKind::Wire), "wire");
    assert_eq!(format_type(&DataType::Byte, &NetKind::Unknown), "byte");
    assert_eq!(format_range(&None), "");
}

#[test]
fn csv_forms_write_nothing_yet() {
    let d = cyclic_design();
    let m = module("m", Vec::new());
    assert!(format_ports_csv(&m).is_ok());
    assert!(format_signals_csv(&m).is_ok());
    assert!(format_ff_csv(&m).is_ok());
    assert!(format_hier_csv(&d, "top1").is_ok());
    assert!(format_top_csv(&["top1".to_string()]).is_ok());
    assert!(format_report_csv(&d, "top1").is_ok());
}

#[test]
fn unclocked_blocks_give_no_ffs() {
    let mut d = empty_design();
    let evs = vec![
        VisitEvent::EnterModule { ansi: true, name: Some("comb".to_string()) },
        VisitEvent::EnterAlways(false),
        VisitEvent::NonblockingAssignment(Some(ff_decl_for_target("y"))),
        VisitEvent::LeaveAlways,
        VisitEvent::NonblockingAssignment(Some(ff_decl_for_target("z"))),
        VisitEvent::LeaveModule,
    ];
    visit_events(evs, &PathBuf::from("comb.sv"), &mut d);
    assert!(d.modules.get("comb").unwrap().ff_decls.is_empty());
}

#[test]
fn top_module_views() {
    let tops = vec!["top1".to_string(), "spare".to_string()];
    assert_eq!(top_text_lines(&tops), vec!["Top modules:".to_string(), "  top1".to_string(), "  spare".to_string()]);
    assert_eq!(
        top_list_lines(&tops),
        vec!["## Top Modules".to_string(), String::new(), "- `top1`".to_string(), "- `spare`".to_string()]
    );
}
