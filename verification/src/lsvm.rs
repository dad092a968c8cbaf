//! The listing of VMs: one line for each, with its state and its names.

use vstd::prelude::*;
use vstd::string::StringSliceAdditionalSpecFns;

verus! {

/// Whether a VM in the state that the VMM reports under this name is
/// running: it is, unless it has only been created.
pub fn is_running(state: &str) -> (r: bool)
    ensures
        r == (state.spec_bytes() != "Created".spec_bytes()),
{
    let a = state.as_bytes();
    let b = "Created".as_bytes();
    if a.len() != b.len() {
        return true;
    }
    let mut i: usize = 0;
    while i < a.len()
        invariant
            i <= a@.len(),
            a@.len() == b@.len(),
            a@ == state.spec_bytes(),
            b@ == "Created".spec_bytes(),
            forall|j: int| 0 <= j < i ==> a@[j] == b@[j],
        decreases a@.len() - i,
    {
        if a[i] != b[i] {
            return true;
        }
        i += 1;
    }
    assert(a@ =~= b@);
    false
}

/// How a state is shown: in bold green if the VM runs, in red if it does
/// not, in yellow if its state is not known.
pub open spec fn status_text(running: Option<bool>) -> Seq<u8> {
    match running {
        Some(true) => " \x1B[32;1mRUNNING\x1B[0m ".spec_bytes(),
        Some(false) => " \x1B[31mSTOPPED\x1B[0m ".spec_bytes(),
        None => " \x1B[33mUNKNOWN\x1B[0m ".spec_bytes(),
    }
}

/// The names one behind the other, with a space between each two.
pub open spec fn joined(names: Seq<Vec<u8>>) -> Seq<u8>
    decreases names.len(),
{
    if names.len() == 0 {
        Seq::empty()
    } else if names.len() == 1 {
        names[0]@
    } else {
        joined(names.drop_last()) + seq![0x20u8] + names.last()@
    }
}

/// The line that lists a VM: its id, its state, its names, a newline.
pub fn vm_line(id: &[u8], running: Option<bool>, names: &Vec<Vec<u8>>) -> (line: Vec<u8>)
    ensures
        line@ == id@ + status_text(running) + joined(names@) + seq![0x0au8],
{
    let mut line: Vec<u8> = Vec::new();
    line.extend_from_slice(id);
    let status = match running {
        Some(true) => " \x1B[32;1mRUNNING\x1B[0m ",
        Some(false) => " \x1B[31mSTOPPED\x1B[0m ",
        None => " \x1B[33mUNKNOWN\x1B[0m ",
    };
    line.extend_from_slice(status.as_bytes());
    let ghost front = line@;
    assert(front =~= id@ + status_text(running));
    let mut i: usize = 0;
    assert(names@.take(0) =~= Seq::<Vec<u8>>::empty());
    while i < names.len()
        invariant
            i <= names@.len(),
            line@ == front + joined(names@.take(i as int)),
        decreases names@.len() - i,
    {
        assert(names@.take(i + 1).drop_last() =~= names@.take(i as int));
        assert(names@.take(i + 1).last() == names@[i as int]);
        if i > 0 {
            line.push(0x20);
        }
        line.extend_from_slice(names[i].as_slice());
        i += 1;
        assert(line@ =~= front + joined(names@.take(i as int)));
    }
    assert(names@.take(i as int) =~= names@);
    line.push(0x0a);
    assert(line@ =~= id@ + status_text(running) + joined(names@) + seq![0x0au8]);
    line
}

} // verus!
