//! What an assembler needs to know of a piece of code before it emits any of it: the
//! labels that the code defines, each of which gets a label of the assembler up front
//! so that jumps forward and backward can be resolved.
use vstd::prelude::*;
use crate::instr::{Instr, Label, code_view};
use crate::laws::label_defs;

verus! {

/// The names of a list of labels.
pub open spec fn label_names(ls: Seq<Label>) -> Seq<Seq<char>> {
    ls.map_values(|l: Label| l@)
}

/// The labels that `cmds` defines, in the order in which they stand.
pub fn defined_labels(cmds: &Vec<Instr>) -> (r: Vec<Label>)
    ensures
        label_names(r@) == label_defs(code_view(cmds@)),
{
    let mut r: Vec<Label> = Vec::new();
    let mut i: usize = 0;
    while i < cmds.len()
        invariant
            i <= cmds.len(),
            label_names(r@) == label_defs(code_view(cmds@.take(i as int))),
        decreases cmds.len() - i,
    {
        proof {
            assert(code_view(cmds@.take(i + 1)).drop_last() =~= code_view(cmds@.take(i as int)));
            assert(code_view(cmds@.take(i + 1)).last() == cmds@[i as int]@);
        }
        if let Instr::LabelI(l) = &cmds[i] {
            let ghost before = r@;
            r.push(l.clone());
            proof {
                assert(label_names(r@) =~= label_names(before).push(l@));
            }
        }
        i = i + 1;
    }
    proof {
        assert(cmds@.take(cmds@.len() as int) =~= cmds@);
    }
    r
}

} // verus!
