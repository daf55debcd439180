use vstd::prelude::*;

verus! {

/// What kind of event a notice reports.
#[derive(Clone, Copy, Debug, PartialEq, Eq, Structural)]
#[allow(non_camel_case_types)]
pub enum MessageType {
    NEW_RECV,
    NEW_POP,
}

/// A notice of an event.
#[allow(non_camel_case_types)]
pub struct message {
    msg_type: MessageType,
}

} // verus!
