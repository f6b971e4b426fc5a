//! The template language: literal text with references to names, written
//! `{{ name }}`.
//!
//! Only texts of this language are handed to the template engine. Everything
//! else that the engine has markup for, tags and filters, is refused here,
//! before the engine sees it.

use vstd::prelude::*;
use vstd::string::StrSliceExecFns;

verus! {

/// A space or a tab.
pub open spec fn blank(c: char) -> bool {
    c == ' ' || c == '\t'
}

/// A letter of the Latin alphabet or an underscore.
pub open spec fn name_start(c: char) -> bool {
    ||| 'a' as u32 <= c as u32 <= 'z' as u32
    ||| 'A' as u32 <= c as u32 <= 'Z' as u32
    ||| c == '_'
}

/// A letter of the Latin alphabet, an underscore or a digit.
pub open spec fn name_part(c: char) -> bool {
    name_start(c) || '0' as u32 <= c as u32 <= '9' as u32
}

/// Where the blanks that start at `at` end.
pub open spec fn blanks_end(text: Seq<char>, at: int) -> int
    decreases text.len() - at,
{
    if 0 <= at < text.len() && blank(text[at]) {
        blanks_end(text, at + 1)
    } else {
        at
    }
}

/// Where the name that starts at `at` ends.
pub open spec fn name_end(text: Seq<char>, at: int) -> int
    decreases text.len() - at,
{
    if 0 <= at < text.len() && name_part(text[at]) {
        name_end(text, at + 1)
    } else {
        at
    }
}

/// Whether `word` stands in `text` at `at`.
pub open spec fn has_word(text: Seq<char>, at: int, word: Seq<char>) -> bool {
    &&& 0 <= at
    &&& at + word.len() <= text.len()
    &&& forall|k: int| 0 <= k < word.len() ==> text[at + k] == #[trigger] word[k]
}

/// Whether the name between `from` and `to` is one that the engine does not
/// read as a name: one that begins with `true` or ends with `false`, which
/// it reads as a truth value, or the name of one of its tags.
pub open spec fn reserved(text: Seq<char>, from: int, to: int) -> bool {
    ||| has_word(text, from, "true"@) && from + "true"@.len() <= to
    ||| from + "false"@.len() <= to && has_word(text, to - "false"@.len(), "false"@)
    ||| has_word(text, from, "assign"@) && to - from == "assign"@.len()
    ||| has_word(text, from, "break"@) && to - from == "break"@.len()
    ||| has_word(text, from, "continue"@) && to - from == "continue"@.len()
    ||| has_word(text, from, "cycle"@) && to - from == "cycle"@.len()
    ||| has_word(text, from, "inc"@) && has_word(text, from + "inc"@.len(), "lude"@) && to - from
        == "inc"@.len() + "lude"@.len()
}

/// Whether markup opens at `at`: `{{` or `{%`.
pub open spec fn opens(text: Seq<char>, at: int) -> bool {
    &&& 0 <= at
    &&& at + 1 < text.len()
    &&& text[at] == '{'
    &&& text[at + 1] == '{' || text[at + 1] == '%'
}

/// Where the reference that opens at `at` ends, if one does: `{{`, blanks, a
/// name that is not reserved, blanks, `}}`.
pub open spec fn reference_end(text: Seq<char>, at: int) -> Option<int> {
    let name = blanks_end(text, at + 2);
    let after = name_end(text, name);
    let close = blanks_end(text, after);
    if text[at + 1] == '{' && name < text.len() && name_start(text[name]) && !reserved(
        text,
        name,
        after,
    ) && close + 1 < text.len() && text[close] == '}' && text[close + 1] == '}' {
        Some(close + 2)
    } else {
        None
    }
}

/// Whether `text`, from `at` on, is literal text and references only.
pub open spec fn plain_from(text: Seq<char>, at: int) -> bool
    decreases text.len() - at,
{
    if at < 0 || at >= text.len() {
        true
    } else if opens(text, at) {
        match reference_end(text, at) {
            Some(end) => plain_from(
                text,
                if end > at {
                    end
                } else {
                    at + 1
                },
            ),
            None => false,
        }
    } else {
        plain_from(text, at + 1)
    }
}

/// Whether `text` is literal text and references only.
pub open spec fn plain(text: Seq<char>) -> bool {
    plain_from(text, 0)
}

/// Whether `text` holds no markup at all, so that it stands for itself.
pub open spec fn literal(text: Seq<char>) -> bool {
    forall|at: int| 0 <= at < text.len() ==> !#[trigger] opens(text, at)
}

/// A text without markup is literal text.
pub proof fn lemma_literal_is_plain(text: Seq<char>)
    requires
        literal(text),
    ensures
        plain(text),
{
    lemma_literal_is_plain_from(text, 0);
}

proof fn lemma_literal_is_plain_from(text: Seq<char>, at: int)
    requires
        literal(text),
        0 <= at,
    ensures
        plain_from(text, at),
    decreases text.len() - at,
{
    if at < text.len() {
        assert(!opens(text, at));
        lemma_literal_is_plain_from(text, at + 1);
    }
}

fn is_blank(c: char) -> (b: bool)
    ensures
        b == blank(c),
{
    c == ' ' || c == '\t'
}

fn is_name_start(c: char) -> (b: bool)
    ensures
        b == name_start(c),
{
    let code = c as u32;
    ('a' as u32 <= code && code <= 'z' as u32) || ('A' as u32 <= code && code <= 'Z' as u32) || c
        == '_'
}

fn is_name_part(c: char) -> (b: bool)
    ensures
        b == name_part(c),
{
    let code = c as u32;
    is_name_start(c) || ('0' as u32 <= code && code <= '9' as u32)
}

fn skip_blanks(text: &str, length: usize, at: usize) -> (end: usize)
    requires
        length == text@.len(),
        at <= length,
    ensures
        end == blanks_end(text@, at as int),
        at <= end <= length,
{
    let mut end = at;
    while end < length && is_blank(text.get_char(end))
        invariant
            at <= end <= length,
            length == text@.len(),
            blanks_end(text@, at as int) == blanks_end(text@, end as int),
        decreases length - end,
    {
        end = end + 1;
    }
    end
}

fn skip_name(text: &str, length: usize, at: usize) -> (end: usize)
    requires
        length == text@.len(),
        at <= length,
    ensures
        end == name_end(text@, at as int),
        at <= end <= length,
{
    let mut end = at;
    while end < length && is_name_part(text.get_char(end))
        invariant
            at <= end <= length,
            length == text@.len(),
            name_end(text@, at as int) == name_end(text@, end as int),
        decreases length - end,
    {
        end = end + 1;
    }
    end
}

fn word_at(text: &str, length: usize, at: usize, word: &str) -> (found: bool)
    requires
        length == text@.len(),
        at <= length,
    ensures
        found == has_word(text@, at as int, word@),
{
    let size = word.unicode_len();
    if size > length - at {
        return false;
    }
    let mut k: usize = 0;
    while k < size
        invariant
            k <= size,
            size == word@.len(),
            length == text@.len(),
            at + size <= length,
            forall|j: int| 0 <= j < k ==> text@[at + j] == #[trigger] word@[j],
        decreases size - k,
    {
        if text.get_char(at + k) != word.get_char(k) {
            return false;
        }
        k = k + 1;
    }
    true
}

fn is_word(text: &str, length: usize, from: usize, to: usize, word: &str) -> (found: bool)
    requires
        length == text@.len(),
        from <= to <= length,
    ensures
        found == (has_word(text@, from as int, word@) && to - from == word@.len()),
{
    to - from == word.unicode_len() && word_at(text, length, from, word)
}

fn is_reserved(text: &str, length: usize, from: usize, to: usize) -> (found: bool)
    requires
        length == text@.len(),
        from <= to <= length,
    ensures
        found == reserved(text@, from as int, to as int),
{
    let size = to - from;
    let truth = "true".unicode_len();
    let falsity = "false".unicode_len();
    let first = "inc".unicode_len();
    let second = "lude".unicode_len();
    if truth <= size && word_at(text, length, from, "true") {
        return true;
    }
    if falsity <= size && word_at(text, length, to - falsity, "false") {
        return true;
    }
    if is_word(text, length, from, to, "assign") || is_word(text, length, from, to, "break")
        || is_word(text, length, from, to, "continue") || is_word(text, length, from, to, "cycle") {
        return true;
    }
    first <= size && size - first == second && word_at(text, length, from, "inc") && word_at(
        text,
        length,
        from + first,
        "lude",
    )
}

/// Whether `text` is literal text and references only.
pub fn is_plain(text: &str) -> (found: bool)
    ensures
        found == plain(text@),
{
    let length = text.unicode_len();
    let mut at: usize = 0;
    while at < length
        invariant
            at <= length,
            length == text@.len(),
            plain(text@) == plain_from(text@, at as int),
        decreases length - at,
    {
        let open = text.get_char(at) == '{' && at + 1 < length && (text.get_char(at + 1) == '{'
            || text.get_char(at + 1) == '%');
        if !open {
            at = at + 1;
        } else {
            if text.get_char(at + 1) != '{' {
                return false;
            }
            let name = skip_blanks(text, length, at + 2);
            if name >= length || !is_name_start(text.get_char(name)) {
                return false;
            }
            let after = skip_name(text, length, name);
            if is_reserved(text, length, name, after) {
                return false;
            }
            let close = skip_blanks(text, length, after);
            if close >= length || close + 1 >= length {
                return false;
            }
            if text.get_char(close) != '}' || text.get_char(close + 1) != '}' {
                return false;
            }
            assert(reference_end(text@, at as int) == Some(close + 2));
            at = close + 2;
        }
    }
    true
}

} // verus!
