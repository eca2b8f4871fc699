//! The argument list of the image conversion command for one resolved unit.

use vstd::prelude::*;
use crate::album::{ParameterSet, Transformation, UnitModel};
use crate::decimal::{decimal, to_decimal};

verus! {

/// The arguments that stand for one operation.
pub open spec fn operation_arguments(t: Transformation) -> Seq<Seq<char>> {
    match t {
        Transformation::Size { width, height } => seq![
            "-size"@,
            decimal(width as nat) + seq!['x'] + decimal(height as nat),
        ],
        Transformation::Normalize => seq!["-normalize"@],
        Transformation::Enhance => seq!["-enhance"@],
        Transformation::Unsharp { radius } => seq!["-unsharp"@, decimal(radius as nat)],
    }
}

/// The arguments of a list of operations, in order.
pub open spec fn operations_arguments(ops: Seq<Transformation>) -> Seq<Seq<char>>
    decreases ops.len(),
{
    if ops.len() == 0 {
        Seq::empty()
    } else {
        operations_arguments(ops.drop_last()) + operation_arguments(ops.last())
    }
}

/// The full argument list: the `convert` subcommand, the operations, then
/// the input and the output path.
pub open spec fn conversion_arguments_of(unit: UnitModel) -> Seq<Seq<char>> {
    seq!["convert"@] + operations_arguments(unit.operations) + seq![unit.input, unit.output]
}

/// The contents of a list of strings.
pub open spec fn texts(v: Seq<String>) -> Seq<Seq<char>> {
    Seq::new(v.len(), |i: int| v[i]@)
}

fn push_text(args: &mut Vec<String>, s: String)
    ensures
        texts(final(args)@) == texts(old(args)@).push(s@),
{
    args.push(s);
    assert(texts(final(args)@) =~= texts(old(args)@).push(s@));
}

/// The arguments handed to the image conversion command for `unit`.
pub fn conversion_arguments(unit: &ParameterSet) -> (r: Vec<String>)
    ensures
        texts(r@) == conversion_arguments_of(unit.model()),
{
    let mut args: Vec<String> = Vec::new();
    push_text(&mut args, String::from_str("convert"));
    let ops = &unit.transformations;
    let mut i: usize = 0;
    while i < ops.len()
        invariant
            i <= ops.len(),
            ops@ == unit.transformations@,
            texts(args@) == seq!["convert"@] + operations_arguments(ops@.subrange(0, i as int)),
        decreases ops.len() - i,
    {
        let ghost before = texts(args@);
        let op = ops[i];
        match op {
            Transformation::Size { width, height } => {
                push_text(&mut args, String::from_str("-size"));
                proof { reveal_strlit("x"); }
                let dims = to_decimal(width as usize).concat("x").concat(to_decimal(height as usize).as_str());
                assert(dims@ =~= decimal(width as nat) + seq!['x'] + decimal(height as nat));
                push_text(&mut args, dims);
                assert(texts(args@) =~= before + operation_arguments(op));
            },
            Transformation::Normalize => push_text(&mut args, String::from_str("-normalize")),
            Transformation::Enhance => push_text(&mut args, String::from_str("-enhance")),
            Transformation::Unsharp { radius } => {
                push_text(&mut args, String::from_str("-unsharp"));
                push_text(&mut args, to_decimal(radius as usize));
            },
        }
        proof {
            let done = ops@.subrange(0, i + 1);
            assert(done.drop_last() =~= ops@.subrange(0, i as int));
            assert(texts(args@) =~= before + operation_arguments(op));
            assert(texts(args@) =~= seq!["convert"@] + operations_arguments(done));
        }
        i = i + 1;
    }
    assert(ops@.subrange(0, ops@.len() as int) =~= ops@);
    push_text(&mut args, unit.input.clone());
    push_text(&mut args, unit.output.clone());
    assert(texts(args@) =~= conversion_arguments_of(unit.model()));
    args
}

} // verus!
