//! Clipboard requests of the child process (OSC 52): the payload is base64
//! of UTF-8 text, and the selector names the primary selection or the
//! regular clipboard.
use vstd::prelude::*;

use crate::terminal::ClipboardStore;

verus! {

/// Which clipboard a request writes.
#[derive(Debug, Clone, Copy, PartialEq, Eq, Structural)]
pub enum ClipboardKind {
    Regular,
    Primary,
}

/// What the standard base64 engine of `base64` decodes `bytes` to: `None`
/// where they are not valid padded base64 of the standard alphabet.
pub uninterp spec fn base64_standard_decoded(bytes: Seq<u8>) -> Option<Seq<u8>>;

/// `base64::engine::general_purpose::STANDARD.decode` of `base64`: the
/// decoded bytes, or `None` where the engine reports a decode error.
/// Claimed: the result is the engine's decoding of `bytes`, named as a
/// whole.
#[verifier::external_body]
fn base64_decode(bytes: &[u8]) -> (r: Option<Vec<u8>>)
    ensures
        match r {
            Some(v) => base64_standard_decoded(bytes@) == Some(v@),
            None => base64_standard_decoded(bytes@) is None,
        },
{
    base64::Engine::decode(&base64::engine::general_purpose::STANDARD, bytes).ok()
}

/// `std::str::from_utf8`: whether `bytes` are well-formed UTF-8. Claimed:
/// it succeeds exactly on the well-formed encodings, as its documentation
/// says.
#[verifier::external_body]
fn is_utf8(bytes: &[u8]) -> (r: bool)
    ensures
        r == vstd::utf8::valid_utf8(bytes@),
{
    std::str::from_utf8(bytes).is_ok()
}

/// The clipboard that selector `selector` names: the primary selection for
/// `p`, the regular clipboard for anything else.
pub open spec fn clipboard_kind_of(selector: u8) -> ClipboardKind {
    if selector == 0x70 {
        ClipboardKind::Primary
    } else {
        ClipboardKind::Regular
    }
}

/// The clipboard that selector `selector` names; see `clipboard_kind_of`.
pub fn clipboard_kind(selector: u8) -> (r: ClipboardKind)
    ensures
        r == clipboard_kind_of(selector),
{
    if selector == 0x70 {
        ClipboardKind::Primary
    } else {
        ClipboardKind::Regular
    }
}

/// What a clipboard request writes, given what its payload decodes to:
/// nothing unless it decodes to non-empty UTF-8 text; else that text, into
/// the clipboard its selector names.
pub open spec fn spec_clipboard_write(selector: u8, decoded: Option<Seq<u8>>) -> Option<(ClipboardKind, Seq<u8>)> {
    match decoded {
        Some(text) => if text.len() > 0 && vstd::utf8::valid_utf8(text) {
            Some((clipboard_kind_of(selector), text))
        } else {
            None
        },
        None => None,
    }
}

/// The text that the request with selector `selector` and base64 payload
/// `base64` writes, and into which clipboard; see `spec_clipboard_write`.
pub fn clipboard_store_payload(selector: u8, base64: &[u8]) -> (r: Option<(ClipboardKind, Vec<u8>)>)
    ensures
        match r {
            Some((kind, text)) => spec_clipboard_write(selector, base64_standard_decoded(base64@)) == Some(
                (kind, text@),
            ),
            None => spec_clipboard_write(selector, base64_standard_decoded(base64@)) is None,
        },
{
    let bytes = match base64_decode(base64) {
        Some(bytes) => bytes,
        None => {
            return None;
        },
    };
    if bytes.len() == 0 || !is_utf8(bytes.as_slice()) {
        return None;
    }
    Some((clipboard_kind(selector), bytes))
}

/// What a clipboard request of the terminal writes; see
/// `clipboard_store_payload`.
pub fn clipboard_write(store: &ClipboardStore) -> (r: Option<(ClipboardKind, Vec<u8>)>)
    ensures
        match r {
            Some((kind, text)) => spec_clipboard_write(store.clipboard, base64_standard_decoded(store.base64@))
                == Some((kind, text@)),
            None => spec_clipboard_write(store.clipboard, base64_standard_decoded(store.base64@)) is None,
        },
{
    clipboard_store_payload(store.clipboard, store.base64.as_slice())
}

} // verus!
