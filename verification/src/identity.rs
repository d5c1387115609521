//! How the terminal names itself, and the fixed replies it gives to queries.
use vstd::prelude::*;

verus! {

/// The value the child process sees in `TERM`.
pub const TERM: &'static str = "xterm-256color";

/// The program name reported in the version reply.
pub const PROGRAM: &'static str = "termite";

/// The program version reported in the version reply.
pub const PROGRAM_VERSION: &'static str = "0.1.0";

/// Reply to a primary device-attributes query (`CSI c`): `ESC [ ? 1 ; 2 c`.
pub open spec fn spec_primary_device_attributes() -> Seq<u8> {
    seq![0x1bu8, 0x5b, 0x3f, 0x31, 0x3b, 0x32, 0x63]
}

/// Reply to a secondary device-attributes query (`CSI > c`): `ESC [ > 0 ; 0 ; 0 c`.
pub open spec fn spec_secondary_device_attributes() -> Seq<u8> {
    seq![0x1bu8, 0x5b, 0x3e, 0x30, 0x3b, 0x30, 0x3b, 0x30, 0x63]
}

/// Reply to a keyboard-protocol query (`CSI ? u`): `ESC [ ? 0 u`.
pub open spec fn spec_keyboard_protocol_query() -> Seq<u8> {
    seq![0x1bu8, 0x5b, 0x3f, 0x30, 0x75]
}

/// Reply to a query of the default background colour (`OSC 11 ; ?`):
/// `ESC ] 11 ; rgb:1010/1212/1818 ESC \`.
pub open spec fn spec_default_background_reply() -> Seq<u8> {
    seq![
        0x1bu8, 0x5d, 0x31, 0x31, 0x3b, 0x72, 0x67, 0x62, 0x3a, 0x31, 0x30, 0x31, 0x30, 0x2f,
        0x31, 0x32, 0x31, 0x32, 0x2f, 0x31, 0x38, 0x31, 0x38, 0x1b, 0x5c,
    ]
}

/// Reply to a terminal-version query (`CSI > q`):
/// `ESC P > | termite 0.1.0 ESC \`.
pub open spec fn spec_version_reply() -> Seq<u8> {
    seq![
        0x1bu8, 0x50, 0x3e, 0x7c, 0x74, 0x65, 0x72, 0x6d, 0x69, 0x74, 0x65, 0x20, 0x30, 0x2e,
        0x31, 0x2e, 0x30, 0x1b, 0x5c,
    ]
}

pub fn primary_device_attributes() -> (r: Vec<u8>)
    ensures
        r@ == spec_primary_device_attributes(),
{
    vec![0x1b, 0x5b, 0x3f, 0x31, 0x3b, 0x32, 0x63]
}

pub fn secondary_device_attributes() -> (r: Vec<u8>)
    ensures
        r@ == spec_secondary_device_attributes(),
{
    vec![0x1b, 0x5b, 0x3e, 0x30, 0x3b, 0x30, 0x3b, 0x30, 0x63]
}

pub fn keyboard_protocol_query() -> (r: Vec<u8>)
    ensures
        r@ == spec_keyboard_protocol_query(),
{
    vec![0x1b, 0x5b, 0x3f, 0x30, 0x75]
}

pub fn default_background_reply() -> (r: Vec<u8>)
    ensures
        r@ == spec_default_background_reply(),
{
    vec![
        0x1b, 0x5d, 0x31, 0x31, 0x3b, 0x72, 0x67, 0x62, 0x3a, 0x31, 0x30, 0x31, 0x30, 0x2f, 0x31,
        0x32, 0x31, 0x32, 0x2f, 0x31, 0x38, 0x31, 0x38, 0x1b, 0x5c,
    ]
}

/// The reply to a terminal-version query, naming the program and its version.
pub fn version_reply() -> (r: Vec<u8>)
    ensures
        r@ == spec_version_reply(),
{
    vec![
        0x1b, 0x50, 0x3e, 0x7c, 0x74, 0x65, 0x72, 0x6d, 0x69, 0x74, 0x65, 0x20, 0x30, 0x2e, 0x31,
        0x2e, 0x30, 0x1b, 0x5c,
    ]
}

} // verus!
