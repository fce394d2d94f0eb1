//! Text that the printer can print.

use vstd::prelude::*;

verus! {

/// Part 1 of the characters that code page 437 has beyond ASCII.
pub open spec fn in_upper_half_1(c: char) -> bool {
    ('\u{00a1}' <= c && c <= '\u{00a3}')
        || c == '\u{00a5}'
        || ('\u{00aa}' <= c && c <= '\u{00ac}')
        || ('\u{00b0}' <= c && c <= '\u{00b2}')
        || c == '\u{00b5}'
        || c == '\u{00b7}'
        || ('\u{00ba}' <= c && c <= '\u{00bd}')
        || c == '\u{00bf}'
        || ('\u{00c4}' <= c && c <= '\u{00c7}')
        || c == '\u{00c9}'
        || c == '\u{00d1}'
        || c == '\u{00d6}'
}

fn is_in_upper_half_1(c: char) -> (r: bool)
    ensures
        r == in_upper_half_1(c),
{
    ('\u{00a1}' <= c && c <= '\u{00a3}')
        || c == '\u{00a5}'
        || ('\u{00aa}' <= c && c <= '\u{00ac}')
        || ('\u{00b0}' <= c && c <= '\u{00b2}')
        || c == '\u{00b5}'
        || c == '\u{00b7}'
        || ('\u{00ba}' <= c && c <= '\u{00bd}')
        || c == '\u{00bf}'
        || ('\u{00c4}' <= c && c <= '\u{00c7}')
        || c == '\u{00c9}'
        || c == '\u{00d1}'
        || c == '\u{00d6}'
}

/// Part 2 of the characters that code page 437 has beyond ASCII.
pub open spec fn in_upper_half_2(c: char) -> bool {
    c == '\u{00dc}'
        || ('\u{00df}' <= c && c <= '\u{00e2}')
        || ('\u{00e4}' <= c && c <= '\u{00ef}')
        || ('\u{00f1}' <= c && c <= '\u{00f4}')
        || ('\u{00f6}' <= c && c <= '\u{00f7}')
        || ('\u{00f9}' <= c && c <= '\u{00fc}')
        || c == '\u{00ff}'
        || c == '\u{0192}'
        || c == '\u{0393}'
        || c == '\u{0398}'
        || c == '\u{03a3}'
        || c == '\u{03a6}'
}

fn is_in_upper_half_2(c: char) -> (r: bool)
    ensures
        r == in_upper_half_2(c),
{
    c == '\u{00dc}'
        || ('\u{00df}' <= c && c <= '\u{00e2}')
        || ('\u{00e4}' <= c && c <= '\u{00ef}')
        || ('\u{00f1}' <= c && c <= '\u{00f4}')
        || ('\u{00f6}' <= c && c <= '\u{00f7}')
        || ('\u{00f9}' <= c && c <= '\u{00fc}')
        || c == '\u{00ff}'
        || c == '\u{0192}'
        || c == '\u{0393}'
        || c == '\u{0398}'
        || c == '\u{03a3}'
        || c == '\u{03a6}'
}

/// Part 3 of the characters that code page 437 has beyond ASCII.
pub open spec fn in_upper_half_3(c: char) -> bool {
    c == '\u{03a9}'
        || c == '\u{03b1}'
        || ('\u{03b4}' <= c && c <= '\u{03b5}')
        || c == '\u{03c0}'
        || ('\u{03c3}' <= c && c <= '\u{03c4}')
        || c == '\u{03c6}'
        || c == '\u{207f}'
        || c == '\u{20a7}'
        || ('\u{2219}' <= c && c <= '\u{221a}')
        || c == '\u{221e}'
        || c == '\u{2229}'
        || c == '\u{2248}'
}

fn is_in_upper_half_3(c: char) -> (r: bool)
    ensures
        r == in_upper_half_3(c),
{
    c == '\u{03a9}'
        || c == '\u{03b1}'
        || ('\u{03b4}' <= c && c <= '\u{03b5}')
        || c == '\u{03c0}'
        || ('\u{03c3}' <= c && c <= '\u{03c4}')
        || c == '\u{03c6}'
        || c == '\u{207f}'
        || c == '\u{20a7}'
        || ('\u{2219}' <= c && c <= '\u{221a}')
        || c == '\u{221e}'
        || c == '\u{2229}'
        || c == '\u{2248}'
}

/// Part 4 of the characters that code page 437 has beyond ASCII.
pub open spec fn in_upper_half_4(c: char) -> bool {
    c == '\u{2261}'
        || ('\u{2264}' <= c && c <= '\u{2265}')
        || c == '\u{2310}'
        || ('\u{2320}' <= c && c <= '\u{2321}')
        || c == '\u{2500}'
        || c == '\u{2502}'
        || c == '\u{250c}'
        || c == '\u{2510}'
        || c == '\u{2514}'
        || c == '\u{2518}'
        || c == '\u{251c}'
        || c == '\u{2524}'
}

fn is_in_upper_half_4(c: char) -> (r: bool)
    ensures
        r == in_upper_half_4(c),
{
    c == '\u{2261}'
        || ('\u{2264}' <= c && c <= '\u{2265}')
        || c == '\u{2310}'
        || ('\u{2320}' <= c && c <= '\u{2321}')
        || c == '\u{2500}'
        || c == '\u{2502}'
        || c == '\u{250c}'
        || c == '\u{2510}'
        || c == '\u{2514}'
        || c == '\u{2518}'
        || c == '\u{251c}'
        || c == '\u{2524}'
}

/// Part 5 of the characters that code page 437 has beyond ASCII.
pub open spec fn in_upper_half_5(c: char) -> bool {
    c == '\u{252c}'
        || c == '\u{2534}'
        || c == '\u{253c}'
        || ('\u{2550}' <= c && c <= '\u{256c}')
        || c == '\u{2580}'
        || c == '\u{2584}'
        || c == '\u{2588}'
        || c == '\u{258c}'
        || ('\u{2590}' <= c && c <= '\u{2593}')
        || c == '\u{25a0}'
}

fn is_in_upper_half_5(c: char) -> (r: bool)
    ensures
        r == in_upper_half_5(c),
{
    c == '\u{252c}'
        || c == '\u{2534}'
        || c == '\u{253c}'
        || ('\u{2550}' <= c && c <= '\u{256c}')
        || c == '\u{2580}'
        || c == '\u{2584}'
        || c == '\u{2588}'
        || c == '\u{258c}'
        || ('\u{2590}' <= c && c <= '\u{2593}')
        || c == '\u{25a0}'
}

/// Whether code page 437 has the character in its upper half: the
/// accented letters, the box drawing characters, the Greek letters and the
/// mathematical signs that stand there.
pub open spec fn in_upper_half(c: char) -> bool {
    in_upper_half_1(c)
        || in_upper_half_2(c)
        || in_upper_half_3(c)
        || in_upper_half_4(c)
        || in_upper_half_5(c)
}

/// Whether the printer can print the character: a visible ASCII character,
/// a space, a line feed, or a character of the upper half of code page
/// 437.
pub open spec fn safe(c: char) -> bool {
    ('!' <= c && c <= '~') || c == ' ' || c == '\n' || in_upper_half(c)
}

/// The text without the characters that the printer cannot print.
pub open spec fn sanitized(text: Seq<char>) -> Seq<char> {
    text.filter(|c: char| safe(c))
}

/// Whether the printer can print the character.
pub fn is_safe(c: char) -> (r: bool)
    ensures
        r == safe(c),
{
    ('!' <= c && c <= '~') || c == ' ' || c == '\n' || is_in_upper_half_1(c)
        || is_in_upper_half_2(c)
        || is_in_upper_half_3(c)
        || is_in_upper_half_4(c)
        || is_in_upper_half_5(c)
}

/// The string made of the characters, by `Iterator::collect`.
#[verifier::external_body]
pub(crate) fn string_of(chars: &Vec<char>) -> (s: String)
    ensures
        s@ == chars@,
{
    chars.iter().collect()
}

/// The text without the characters that the printer cannot print.
pub fn sanitize(text: &str) -> (clean: String)
    ensures
        clean@ == sanitized(text@),
{
    let mut kept: Vec<char> = Vec::new();
    let n = text.unicode_len();
    let mut i: usize = 0;
    proof {
        reveal(Seq::filter);
        assert(text@.take(0) =~= Seq::<char>::empty());
    }
    while i < n
        invariant
            i <= n,
            n == text@.len(),
            kept@ == sanitized(text@.take(i as int)),
        decreases n - i,
    {
        let c = text.get_char(i);
        proof {
            reveal(Seq::filter);
            assert(text@.take(i + 1).drop_last() =~= text@.take(i as int));
            assert(text@.take(i + 1).last() == c);
        }
        if is_safe(c) {
            kept.push(c);
        }
        i = i + 1;
    }
    proof {
        assert(text@.take(n as int) =~= text@);
    }
    string_of(&kept)
}

/// The truth value that a text spells: `true` or `false`.
pub open spec fn truth_of(text: Seq<char>) -> Option<bool> {
    if text == "true"@ {
        Some(true)
    } else if text == "false"@ {
        Some(false)
    } else {
        None
    }
}

/// Reads a truth value.
pub fn bool_from_str(s: &str) -> (r: Option<bool>)
    ensures
        r == truth_of(s@),
{
    let text = s.to_owned();
    if text == "true".to_owned() {
        Some(true)
    } else if text == "false".to_owned() {
        Some(false)
    } else {
        None
    }
}

} // verus!
