//! Decoding the Windows-1252 text of QB strings.
use encoding_rs::WINDOWS_1252;
use vstd::prelude::*;

verus! {

/// The text that encoding_rs's `WINDOWS_1252.decode` gives for `bytes`.
pub uninterp spec fn windows_1252_decode(bytes: Seq<u8>) -> Seq<char>;

/// Whether `bytes` begins with a byte order mark (of UTF-8, UTF-16LE or UTF-16BE),
/// which `decode` follows in place of Windows-1252.
pub open spec fn starts_with_bom(bytes: Seq<u8>) -> bool {
    ||| bytes.len() >= 3 && bytes[0] == 0xEF && bytes[1] == 0xBB && bytes[2] == 0xBF
    ||| bytes.len() >= 2 && bytes[0] == 0xFF && bytes[1] == 0xFE
    ||| bytes.len() >= 2 && bytes[0] == 0xFE && bytes[1] == 0xFF
}

/// Calls encoding_rs's `WINDOWS_1252.decode` and keeps the text. The result is
/// named, not stated, beyond these facts of the source: without a byte order
/// mark, Windows-1252 is a single-byte encoding (one character per byte) whose
/// bytes below 0x80 are the ASCII characters.
#[verifier::external_body]
pub(crate) fn decode_windows_1252(bytes: &[u8]) -> (r: String)
    ensures
        r@ == windows_1252_decode(bytes@),
        !starts_with_bom(bytes@) ==> r@.len() == bytes@.len(),
        !starts_with_bom(bytes@) ==> forall|i: int|
            0 <= i < bytes@.len() && bytes@[i] < 0x80 ==> #[trigger] r@[i] == bytes@[i] as char,
{
    let (s, _, _) = WINDOWS_1252.decode(bytes);
    s.into_owned()
}

} // verus!
