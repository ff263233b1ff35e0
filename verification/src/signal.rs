//! What an interrupt of the command line does to the job that it watches.

use vstd::prelude::*;

use crate::text;

verus! {

/// What is to be done after an interrupt.
#[derive(Debug, Clone, Copy, PartialEq, Eq, Structural)]
pub enum CtrlCAction {
    /// The command line ends, the job goes on.
    Detach,
    /// The job is cancelled.
    Cancel,
    /// The job is cancelled, for nobody could be asked.
    DefaultCancel,
}

/// What an answer to the question stands for: `d` and `detach`, in letters of
/// either case, let the job go on; anything else cancels it.
pub open spec fn chosen(answer: Option<Seq<char>>) -> CtrlCAction {
    match answer {
        None => CtrlCAction::DefaultCancel,
        Some(line) => {
            let word = text::lowered(text::trimmed(line));
            if word == "d"@ || word == "detach"@ {
                CtrlCAction::Detach
            } else {
                CtrlCAction::Cancel
            }
        },
    }
}

/// Decides by the line that was typed; there is none where nobody could be
/// asked.
pub fn prompt_action(answer: Option<&str>) -> (r: CtrlCAction)
    ensures
        r == chosen(
            match answer {
                Some(line) => Some(line@),
                None => None,
            },
        ),
{
    match answer {
        None => CtrlCAction::DefaultCancel,
        Some(line) => {
            let cs = text::chars_of(line);
            let word = text::to_lower(&text::trim(&cs));
            if text::str_eq(word.as_str(), "d") || text::str_eq(word.as_str(), "detach") {
                CtrlCAction::Detach
            } else {
                CtrlCAction::Cancel
            }
        },
    }
}

} // verus!
