//! Launching the fused Metal kernels of the Mamba blocks, and what the array
//! library's status codes mean.

use vstd::prelude::*;

use crate::text;
use crate::text::{concat2, concat3, decimal_int_text, decimal_text};

verus! {

/// A number under a name, for a kernel's template.
#[derive(Debug, Clone, Copy)]
pub struct TemplateInt {
    pub name: &'static str,
    pub value: i32,
}

/// How a kernel is launched: the shapes of its two outputs, how many threads run
/// along each axis and how many of them in a group, and the numbers that its
/// template takes.
#[derive(Debug)]
pub struct Launch {
    pub out_shape: Vec<i32>,
    pub state_shape: Vec<i32>,
    pub grid: (i32, i32, i32),
    pub group: (i32, i32, i32),
    pub first: TemplateInt,
    pub second: TemplateInt,
}

/// The launch of the recurrent update: for every head and every place in it, a
/// row of threads that share the state.
pub fn ssm_launch(heads: i32, head_dim: i32, state_dim: i32) -> (r: Launch)
    ensures
        r.out_shape@ == seq![heads, head_dim],
        r.state_shape@ == seq![heads, head_dim, state_dim],
        r.grid == (32i32, head_dim, heads),
        r.group == (32i32, 8i32, 1i32),
        r.first.name@ == "Dh"@ && r.first.value == head_dim,
        r.second.name@ == "Ds"@ && r.second.value == state_dim,
        r.state_shape@.take(2) == r.out_shape@,
        r.grid.2 == r.out_shape@[0],
        r.grid.1 == r.out_shape@[1],
        r.grid.0 == r.group.0,
        r.first.value == r.out_shape@[1],
        r.second.value == r.state_shape@[2],
{
    let r = Launch {
        out_shape: vec![heads, head_dim],
        state_shape: vec![heads, head_dim, state_dim],
        grid: (32, head_dim, heads),
        group: (32, 8, 1),
        first: TemplateInt { name: "Dh", value: head_dim },
        second: TemplateInt { name: "Ds", value: state_dim },
    };
    assert(r.state_shape@.take(2) =~= r.out_shape@);
    r
}

/// The launch of the convolution's update: one thread for each channel.
pub fn conv_launch(dim: i32, kernel: i32) -> (r: Launch)
    requires
        kernel > i32::MIN,
    ensures
        r.out_shape@ == seq![dim],
        r.state_shape@ == seq![1i32, (kernel - 1) as i32, dim],
        r.grid == (dim, 1i32, 1i32),
        r.group == (256i32, 1i32, 1i32),
        r.first.name@ == "Dim"@ && r.first.value == dim,
        r.second.name@ == "K"@ && r.second.value == kernel,
        r.grid.0 == r.out_shape@[0],
        r.state_shape@[2] == r.out_shape@[0],
        r.first.value == r.out_shape@[0],
        r.state_shape@[1] + 1 == r.second.value,
{
    Launch {
        out_shape: vec![dim],
        state_shape: vec![1, kernel - 1, dim],
        grid: (dim, 1, 1),
        group: (256, 1, 1),
        first: TemplateInt { name: "Dim", value: dim },
        second: TemplateInt { name: "K", value: kernel },
    }
}

/// What is said of a call of the array library that failed.
pub open spec fn call_failure(name: Seq<char>, rc: int) -> Seq<char> {
    name + " failed: rc="@ + text::decimal_int(rc)
}

/// Whether a call of the array library succeeded: its status is 0.
pub fn check_call(name: &str, rc: i32) -> (r: Result<(), String>)
    ensures
        match r {
            Ok(()) => rc == 0,
            Err(m) => rc != 0 && m@ == call_failure(name@, rc as int),
        },
{
    if rc == 0 {
        return Ok(());
    }
    Err(concat3(name, " failed: rc=", decimal_int_text(rc).as_str()))
}

/// What is said of a kernel that did not run, or did not give its two outputs.
pub open spec fn kernel_defect(name: Seq<char>, rc: int, outputs: nat) -> Option<Seq<char>> {
    if rc != 0 {
        Some(call_failure(name, rc))
    } else if outputs != 2 {
        Some(name + " returned "@ + text::decimal(outputs) + " outputs, expected 2"@)
    } else {
        None
    }
}

/// Whether a kernel ran and gave its two outputs.
pub fn check_kernel(name: &str, rc: i32, outputs: usize) -> (r: Result<(), String>)
    ensures
        match r {
            Ok(()) => kernel_defect(name@, rc as int, outputs as nat) is None,
            Err(m) => kernel_defect(name@, rc as int, outputs as nat) == Some(m@),
        },
{
    check_call(name, rc)?;
    if outputs != 2 {
        let mut m = concat2(name, " returned ");
        m.append(decimal_text(outputs as u64).as_str());
        m.append(" outputs, expected 2");
        return Err(m);
    }
    Ok(())
}

/// A kernel has run where its status is 0 and it gave two outputs, and else has not.
pub proof fn law_which_kernels_have_run(name: Seq<char>, rc: int, outputs: nat)
    ensures
        kernel_defect(name, rc, outputs) is None <==> rc == 0 && outputs == 2,
        rc != 0 ==> kernel_defect(name, rc, outputs) == Some(
            name + " failed: rc="@ + text::decimal_int(rc),
        ),
{
}

} // verus!
