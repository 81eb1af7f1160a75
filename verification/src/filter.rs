//! The naming convention that tells keyboard devices from the other entries
//! of the device directory.

use crate::bytes::{ends_with, has_suffix};
use vstd::prelude::*;
use vstd::string::StringSliceAdditionalSpecFns;

verus! {

/// The ending that the name of every keyboard-class event node carries.
pub const KEYBOARD_SUFFIX: &'static str = "-event-kbd";

/// The bytes of [`KEYBOARD_SUFFIX`].
pub open spec fn keyboard_suffix() -> Seq<u8> {
    KEYBOARD_SUFFIX.spec_bytes()
}

/// An entry denotes a keyboard exactly when its bytes end with the suffix.
pub open spec fn is_keyboard_name(entry: Seq<u8>) -> bool {
    has_suffix(entry, keyboard_suffix())
}

/// The suffix, byte by byte.
pub proof fn lemma_keyboard_suffix_bytes()
    ensures
        keyboard_suffix() == seq![45u8, 101u8, 118u8, 101u8, 110u8, 116u8, 45u8, 107u8, 98u8, 100u8],
{
    reveal_strlit("-event-kbd");
    vstd::string::is_ascii_spec_bytes(KEYBOARD_SUFFIX);
    assert(keyboard_suffix() =~= seq![
        45u8,
        101u8,
        118u8,
        101u8,
        110u8,
        116u8,
        45u8,
        107u8,
        98u8,
        100u8,
    ]);
}

/// Whether a directory entry, given by the bytes of its name or of its path,
/// is a keyboard-class input device.
pub fn is_keyboard_device(entry: &[u8]) -> (r: bool)
    ensures
        r == is_keyboard_name(entry@),
{
    ends_with(entry, KEYBOARD_SUFFIX.as_bytes())
}

} // verus!
