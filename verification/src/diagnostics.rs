//! Names of the files that hold a dump of the topology.

use crate::state::{state_label, state_name};
use crate::supervisor::DumpLabel;
use crate::text::{decimal, push_decimal};
use vstd::prelude::*;
use vstd::string::StringExecFns;

verus! {

/// The text of a dump's label: the name of the state that was entered, or
/// `error`.
pub open spec fn label_text(label: DumpLabel) -> Seq<char> {
    match label {
        DumpLabel::State(state) => state_name(state),
        DumpLabel::Error => "error"@,
    }
}

/// The stem of a dump's file name: the seconds since the epoch, a hyphen,
/// and the label.
pub open spec fn dot_stem(epoch_secs: nat, label: DumpLabel) -> Seq<char> {
    decimal(epoch_secs) + "-"@ + label_text(label)
}

/// Returns the text of a dump's label.
pub fn label_name(label: DumpLabel) -> (text: &'static str)
    ensures
        text@ == label_text(label),
{
    match label {
        DumpLabel::State(state) => state_label(state),
        DumpLabel::Error => "error",
    }
}

/// Writes the stem of the file name of a dump taken at `epoch_secs`.
pub fn dot_file_stem(epoch_secs: u64, label: DumpLabel) -> (stem: String)
    ensures
        stem@ == dot_stem(epoch_secs as nat, label),
{
    let mut stem = String::new();
    push_decimal(&mut stem, epoch_secs);
    stem.append("-");
    stem.append(label_name(label));
    proof {
        assert(Seq::<char>::empty() + decimal(epoch_secs as nat) =~= decimal(epoch_secs as nat));
    }
    stem
}

/// Writes the file name of a dump taken at `epoch_secs`.
pub fn dot_file_name(epoch_secs: u64, label: DumpLabel) -> (name: String)
    ensures
        name@ == dot_stem(epoch_secs as nat, label) + ".dot"@,
{
    let mut name = dot_file_stem(epoch_secs, label);
    name.append(".dot");
    name
}

} // verus!
