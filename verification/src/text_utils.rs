//! Cutting texts down to a size that a model can take.

use vstd::prelude::*;

use crate::text::{chars_of, decimal, decimal_of, text_between};

verus! {

/// How many characters a text may have.
pub const MAX_TEXT_CHARS: usize = 20_000;

/// A text without its middle where it is too long: half of what may stay comes from its front and
/// half from its end, with a note on how much is gone.
pub open spec fn truncated(text: Seq<char>) -> Seq<char> {
    if text.len() <= MAX_TEXT_CHARS {
        text
    } else {
        let tail = MAX_TEXT_CHARS as int / 2;
        let head = MAX_TEXT_CHARS - tail;
        text.take(head) + "\n……已截断"@ + decimal_of((text.len() - MAX_TEXT_CHARS) as nat)
            + "个字符……\n"@ + text.skip(text.len() - tail)
    }
}

/// Cuts out the middle of a text that is too long.
pub fn truncate_long_text(text: &str) -> (r: String)
    ensures
        r@ == truncated(text@),
{
    let chars = chars_of(text);
    let total: usize = chars.len();
    if total <= MAX_TEXT_CHARS {
        return text.to_owned();
    }
    let tail: usize = MAX_TEXT_CHARS / 2;
    let head: usize = MAX_TEXT_CHARS - tail;
    let mut r = text_between(&chars, 0, head);
    assert(r@ =~= text@.take(head as int));
    r.push_str("\n……已截断");
    r.push_str(&decimal((total - head - tail) as u64));
    r.push_str("个字符……\n");
    let end = text_between(&chars, total - tail, total);
    assert(end@ =~= text@.skip(total - tail));
    r.push_str(&end);
    r
}

/// A text within the limit stays as it is; of one beyond it, the first and the last characters up
/// to half the limit stay, each at its end of the result.
pub proof fn law_ends_of_long_texts_stay(text: Seq<char>)
    ensures
        text.len() <= MAX_TEXT_CHARS ==> truncated(text) == text,
        text.len() > MAX_TEXT_CHARS ==> {
            let half = MAX_TEXT_CHARS as int / 2;
            &&& truncated(text).len() >= MAX_TEXT_CHARS
            &&& truncated(text).take(half) == text.take(half)
            &&& truncated(text).skip(truncated(text).len() - half) == text.skip(text.len() - half)
        },
{
    if text.len() > MAX_TEXT_CHARS {
        let half = MAX_TEXT_CHARS as int / 2;
        let r = truncated(text);
        assert(r.take(half) =~= text.take(half));
        assert(r.skip(r.len() - half) =~= text.skip(text.len() - half));
    }
}

} // verus!
