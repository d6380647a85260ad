//! The phases of one interactive session.

use vstd::prelude::*;

verus! {

/// Where the wizard stands: entering a path, choosing a stack, confirming
/// the choice, or deciding whether to configure another project.
#[derive(Debug, Clone, Copy, PartialEq, Eq, Structural)]
pub enum AppState {
    SelectingPath,
    SelectingStack,
    Confirming,
    ContinueOrQuit,
}

} // verus!
