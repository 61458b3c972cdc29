//! Bytes as text.
use crate::text::{longer_than, take_chars};
use vstd::prelude::*;
use vstd::string::*;
use vstd::utf8::{decode_utf8, valid_utf8};

verus! {

/// The text of bytes in which every sequence that is not UTF-8 stands as a replacement character.
pub uninterp spec fn lossy_text(bytes: Seq<u8>) -> Seq<char>;

/// `String::from_utf8_lossy`: the text of the bytes, which is their decoding where they are valid
/// UTF-8.
#[verifier::external_body]
pub(crate) fn utf8_lossy(bytes: &[u8]) -> (r: String)
    ensures
        r@ == lossy_text(bytes@),
        valid_utf8(bytes@) ==> r@ == decode_utf8(bytes@),
{
    String::from_utf8_lossy(bytes).into_owned()
}

/// `std::str::from_utf8`: the text of bytes that are valid UTF-8, and nothing of others.
#[verifier::external_body]
pub(crate) fn utf8_text(bytes: &[u8]) -> (r: Option<&str>)
    ensures
        match r {
            Some(text) => valid_utf8(bytes@) && text@ == decode_utf8(bytes@),
            None => !valid_utf8(bytes@),
        },
{
    std::str::from_utf8(bytes).ok()
}

/// The number of characters that a preview keeps.
pub const PREVIEW_CHARS: usize = 2000;

/// What a preview shows of a text.
pub open spec fn preview_of(text: Seq<char>) -> Seq<char> {
    if text.len() <= PREVIEW_CHARS {
        text
    } else {
        text.take(PREVIEW_CHARS as int) + "\n[truncated]"@
    }
}

/// The preview of a text.
pub fn preview_text(text: &str) -> (r: String)
    ensures
        r@ == preview_of(text@),
{
    let mut preview = take_chars(text, PREVIEW_CHARS);
    if longer_than(text, PREVIEW_CHARS) {
        preview.append("\n[truncated]");
    }
    preview
}

/// The preview of the output of a command: its first characters, and a mark where there are
/// more.
pub fn preview_bytes(bytes: &[u8]) -> (r: String)
    ensures
        r@ == preview_of(lossy_text(bytes@)),
        valid_utf8(bytes@) ==> r@ == preview_of(decode_utf8(bytes@)),
{
    let text = utf8_lossy(bytes);
    preview_text(text.as_str())
}

/// A preview is never longer than the characters it keeps and its mark.
pub proof fn preview_is_short(text: Seq<char>)
    ensures
        preview_of(text).len() <= PREVIEW_CHARS + 12,
        text.len() <= PREVIEW_CHARS ==> preview_of(text) == text,
        text.len() > PREVIEW_CHARS ==> "\n[truncated]"@.is_suffix_of(preview_of(text)),
{
    reveal_strlit("\n[truncated]");
    if text.len() > PREVIEW_CHARS {
        let p = preview_of(text);
        assert(p.subrange(p.len() - 12, p.len() as int) =~= "\n[truncated]"@);
    }
}

/// A preview shows the first two thousand characters of a text, all of them, and says where there
/// are more.
pub proof fn preview_shows_the_start(text: Seq<char>)
    ensures
        text.len() <= 2000 ==> preview_of(text) == text,
        text.len() > 2000 ==> preview_of(text) == text.subrange(0, 2000) + "\n[truncated]"@,
{
}

} // verus!
