//! Tests of probe naming, probe source generation and trace planning.

use ltrace_bcc::elf::SymbolSet;
use ltrace_bcc::orchestrate::plan_trace;
use ltrace_bcc::probes::generate_probe_source;
use ltrace_bcc::probes::probe_name;

const PRELUDE: &str = "BPF_PERF_OUTPUT(events);
struct data_t {
    char libc_function[20];
    char arg1_contents[20];
    size_t arg1;
    size_t arg2;
    size_t arg3;
};
";

fn expected_block(name: &str) -> String {
    format!(
        "int trace_fun_{}(struct pt_regs *ctx) {{
    struct data_t data = {{}};
    data.arg3 = PT_REGS_PARM3(ctx);
    data.arg2 = PT_REGS_PARM2(ctx);
    data.arg1 = PT_REGS_PARM1(ctx);
    bpf_probe_read(&data.arg1_contents, sizeof(data.arg1_contents), (void *)data.arg1);
    strcpy(data.libc_function, \"{}\");
    events.perf_submit(ctx, &data, sizeof(data));
    return 0;
}};
",
        name, name
    )
}

#[test]
fn probe_name_is_prefix_plus_function() {
    assert_eq!(probe_name("open"), "trace_fun_open");
    assert_eq!(probe_name(""), "trace_fun_");
}

#[test]
fn probe_names_of_distinct_functions_differ() {
    assert_ne!(probe_name("read"), probe_name("write"));
}

#[test]
fn empty_set_generates_only_the_prelude() {
    let fns = SymbolSet::new();
    assert_eq!(generate_probe_source(&fns), PRELUDE);
}

#[test]
fn source_holds_one_probe_per_function_in_order() {
    let mut fns = SymbolSet::new();
    fns.insert("open".to_string());
    fns.insert("close".to_string());
    let expected = format!("{}{}{}", PRELUDE, expected_block("open"), expected_block("close"));
    assert_eq!(generate_probe_source(&fns), expected);
}

#[test]
fn generation_is_deterministic() {
    let mut fns = SymbolSet::new();
    fns.insert("read".to_string());
    fns.insert("write".to_string());
    assert_eq!(generate_probe_source(&fns), generate_probe_source(&fns));
}

#[test]
fn duplicate_inserts_generate_one_probe() {
    let mut fns = SymbolSet::new();
    fns.insert("open".to_string());
    fns.insert("open".to_string());
    let expected = format!("{}{}", PRELUDE, expected_block("open"));
    assert_eq!(generate_probe_source(&fns), expected);
}

#[test]
fn plan_lists_probe_and_target_per_function() {
    let mut fns = SymbolSet::new();
    fns.insert("open".to_string());
    fns.insert("read".to_string());
    fns.insert("close".to_string());
    let plan = plan_trace(&fns).unwrap();
    assert_eq!(plan.source, generate_probe_source(&fns));
    assert_eq!(plan.probes.len(), 3);
    let pairs: Vec<(&str, &str)> = plan
        .probes
        .iter()
        .map(|p| (p.probe.as_str(), p.target.as_str()))
        .collect();
    assert_eq!(
        pairs,
        vec![
            ("trace_fun_open", "open"),
            ("trace_fun_read", "read"),
            ("trace_fun_close", "close"),
        ]
    );
}

#[test]
fn empty_set_has_no_plan() {
    assert!(plan_trace(&SymbolSet::new()).is_none());
}
