//! Probe source generation.
//!
//! One probe definition is emitted per traced function, in set order. Each
//! probe captures the first three call arguments by ordinal position, makes
//! a best-effort 20-byte copy of the memory the first argument points to,
//! copies the function's name into the fixed-size name field, and submits
//! one event record laid out exactly as [`crate::codec`] decodes it.
//!
//! The caller in front of the instrumentation runtime prepends the kernel
//! header directives its compiler needs; everything below them is produced
//! here.

use vstd::prelude::*;

use crate::elf::SymbolSet;

verus! {

/// The fixed prefix probe names are derived with. The derivation keeps the
/// whole function name, so distinct functions never collide
/// ([`lemma_probe_names_injective`]).
pub open spec fn probe_prefix() -> Seq<char> {
    "trace_fun_"@
}

/// The name of the probe generated for `function`.
pub fn probe_name(function: &str) -> (r: String)
    ensures
        r@ == probe_prefix() + function@,
{
    let mut r = String::from_str("trace_fun_");
    r.append(function);
    r
}

/// Law: probe naming is injective — two distinct function names get two
/// distinct probe names, so every probe can be attached individually.
pub proof fn lemma_probe_names_injective(n1: Seq<char>, n2: Seq<char>)
    requires
        n1 != n2,
    ensures
        probe_prefix() + n1 != probe_prefix() + n2,
{
    let p = probe_prefix().len() as int;
    assert((probe_prefix() + n1).skip(p) =~= n1);
    assert((probe_prefix() + n2).skip(p) =~= n2);
}

/// The fixed head of the probe program: the event channel and the record
/// layout, matching [`crate::codec`] field for field.
pub open spec fn source_prelude() -> Seq<char> {
    "BPF_PERF_OUTPUT(events);
struct data_t {
    char libc_function[20];
    char arg1_contents[20];
    size_t arg1;
    size_t arg2;
    size_t arg3;
};
"@
}

/// The text of one probe before its function's name.
pub open spec fn block_head() -> Seq<char> {
    "int trace_fun_"@
}

/// The text of one probe between the two uses of its function's name.
pub open spec fn block_mid() -> Seq<char> {
    "(struct pt_regs *ctx) {
    struct data_t data = {};
    data.arg3 = PT_REGS_PARM3(ctx);
    data.arg2 = PT_REGS_PARM2(ctx);
    data.arg1 = PT_REGS_PARM1(ctx);
    bpf_probe_read(&data.arg1_contents, sizeof(data.arg1_contents), (void *)data.arg1);
    strcpy(data.libc_function, \""@
}

/// The text of one probe after the second use of its function's name.
pub open spec fn block_tail() -> Seq<char> {
    "\");
    events.perf_submit(ctx, &data, sizeof(data));
    return 0;
};
"@
}

/// One probe definition: the name appears twice, in the probe's own name
/// and in the copy into the record's name field.
pub open spec fn probe_block(name: Seq<char>) -> Seq<char> {
    block_head() + name + block_mid() + name + block_tail()
}

/// The whole probe program body: the prelude, then one block per name, in
/// the order given.
pub open spec fn probe_source(names: Seq<Seq<char>>) -> Seq<char>
    decreases names.len(),
{
    if names.len() == 0 {
        source_prelude()
    } else {
        probe_source(names.drop_last()) + probe_block(names.last())
    }
}

/// Emits the probe program for `functions`: deterministic in the set's
/// insertion order, one probe definition per name.
pub fn generate_probe_source(functions: &SymbolSet) -> (s: String)
    ensures
        s@ == probe_source(functions.to_seq()),
{
    let names = functions.names();
    let ghost all = functions.to_seq();
    let mut s = String::from_str(
        "BPF_PERF_OUTPUT(events);
struct data_t {
    char libc_function[20];
    char arg1_contents[20];
    size_t arg1;
    size_t arg2;
    size_t arg3;
};
",
    );
    let mut i: usize = 0;
    proof {
        assert(all.take(0) =~= Seq::<Seq<char>>::empty());
        assert(s@ == probe_source(all.take(0)));
    }
    while i < names.len()
        invariant
            i <= names@.len(),
            all == names.deep_view(),
            s@ == probe_source(all.take(i as int)),
        decreases names@.len() - i,
    {
        let name = &names[i];
        proof {
            assert(name@ == all[i as int]);
        }
        s.append("int trace_fun_");
        s.append(name.as_str());
        s.append(
            "(struct pt_regs *ctx) {
    struct data_t data = {};
    data.arg3 = PT_REGS_PARM3(ctx);
    data.arg2 = PT_REGS_PARM2(ctx);
    data.arg1 = PT_REGS_PARM1(ctx);
    bpf_probe_read(&data.arg1_contents, sizeof(data.arg1_contents), (void *)data.arg1);
    strcpy(data.libc_function, \"",
        );
        s.append(name.as_str());
        s.append(
            "\");
    events.perf_submit(ctx, &data, sizeof(data));
    return 0;
};
",
        );
        proof {
            let t = all.take(i + 1);
            assert(t.drop_last() =~= all.take(i as int));
            assert(t.last() == all[i as int]);
            assert(s@ =~= probe_source(all.take(i as int)) + probe_block(all[i as int]));
        }
        i = i + 1;
    }
    proof {
        assert(all.take(names@.len() as int) =~= all);
    }
    s
}

} // verus!
