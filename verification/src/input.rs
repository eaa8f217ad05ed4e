//! What a line typed at the console means: a word that ends the game, an
//! answer to a question, a choice from the menu, or text to be judged as a
//! guess.

use crate::number::{parse_integer, parsed, ParsedInteger};
use crate::tier::DifficultyTier;
use vstd::prelude::*;
use vstd::string::StrSliceExecFns;

verus! {

/// Whether `c` is white space: one of the characters that Unicode gives the
/// property White_Space, the line ends among them.
pub open spec fn is_blank(c: char) -> bool {
    let code = c as u32;
    ||| 0x09 <= code <= 0x0D
    ||| code == 0x20
    ||| code == 0x85
    ||| code == 0xA0
    ||| code == 0x1680
    ||| 0x2000 <= code <= 0x200A
    ||| code == 0x2028
    ||| code == 0x2029
    ||| code == 0x202F
    ||| code == 0x205F
    ||| code == 0x3000
}

/// Whether every character of `s` is white space.
pub open spec fn all_blank(s: Seq<char>) -> bool {
    forall|i: int| 0 <= i < s.len() ==> is_blank(#[trigger] s[i])
}

/// Whether `s.subrange(from, to)` is `s` without the white space that leads
/// and trails it: only white space is cut off, and what is left neither
/// begins nor ends with any.
pub open spec fn is_trim_of(s: Seq<char>, from: int, to: int) -> bool {
    &&& 0 <= from <= to <= s.len()
    &&& all_blank(s.subrange(0, from))
    &&& all_blank(s.subrange(to, s.len() as int))
    &&& from < to ==> !is_blank(s[from]) && !is_blank(s[to - 1])
}

/// The index of the first character of `s` that is not white space, or the
/// length of `s` where there is none.
pub open spec fn trim_start(s: Seq<char>) -> int
    decreases s.len(),
{
    if s.len() == 0 || !is_blank(s[0]) {
        0
    } else {
        1 + trim_start(s.drop_first())
    }
}

/// The index behind the last character of `s` that is not white space, or
/// zero where there is none.
pub open spec fn trim_end(s: Seq<char>) -> int
    decreases s.len(),
{
    if s.len() == 0 || !is_blank(s.last()) {
        s.len() as int
    } else {
        trim_end(s.drop_last())
    }
}

/// `s` without the white space that leads and trails it.
pub open spec fn trimmed(s: Seq<char>) -> Seq<char> {
    if trim_start(s) >= trim_end(s) {
        Seq::empty()
    } else {
        s.subrange(trim_start(s), trim_end(s))
    }
}

/// Where the text proper begins: everything in front is white space, and the
/// character there, if there is one, is not.
pub proof fn lemma_trim_start(s: Seq<char>)
    ensures
        0 <= trim_start(s) <= s.len(),
        all_blank(s.subrange(0, trim_start(s))),
        trim_start(s) < s.len() ==> !is_blank(s[trim_start(s)]),
    decreases s.len(),
{
    if s.len() == 0 || !is_blank(s[0]) {
    } else {
        let rest = s.drop_first();
        lemma_trim_start(rest);
        let a = trim_start(s);
        assert forall|i: int| 0 <= i < a implies is_blank(#[trigger] s.subrange(0, a)[i]) by {
            if i > 0 {
                assert(s.subrange(0, a)[i] == rest.subrange(0, a - 1)[i - 1]);
            }
        }
        if a < s.len() {
            assert(s[a] == rest[a - 1]);
        }
    }
}

/// Where the text proper ends: everything behind is white space, and the
/// character in front, if there is one, is not.
pub proof fn lemma_trim_end(s: Seq<char>)
    ensures
        0 <= trim_end(s) <= s.len(),
        all_blank(s.subrange(trim_end(s), s.len() as int)),
        trim_end(s) > 0 ==> !is_blank(s[trim_end(s) - 1]),
    decreases s.len(),
{
    if s.len() == 0 || !is_blank(s.last()) {
    } else {
        let rest = s.drop_last();
        lemma_trim_end(rest);
        let b = trim_end(s);
        let tail = s.subrange(b, s.len() as int);
        assert forall|i: int| 0 <= i < tail.len() implies is_blank(#[trigger] tail[i]) by {
            if i < tail.len() - 1 {
                assert(tail[i] == rest.subrange(b, rest.len() as int)[i]);
            }
        }
        if b > 0 {
            assert(s[b - 1] == rest[b - 1]);
        }
    }
}

/// The text proper begins at one index only.
pub proof fn lemma_trim_start_is_unique(s: Seq<char>, from: int)
    requires
        0 <= from <= s.len(),
        all_blank(s.subrange(0, from)),
        from < s.len() ==> !is_blank(s[from]),
    ensures
        trim_start(s) == from,
{
    lemma_trim_start(s);
    let a = trim_start(s);
    if a < from {
        assert(s.subrange(0, from)[a] == s[a]);
    } else if from < a {
        assert(s.subrange(0, a)[from] == s[from]);
    }
}

/// The text proper ends at one index only.
pub proof fn lemma_trim_end_is_unique(s: Seq<char>, to: int)
    requires
        0 <= to <= s.len(),
        all_blank(s.subrange(to, s.len() as int)),
        to > 0 ==> !is_blank(s[to - 1]),
    ensures
        trim_end(s) == to,
{
    lemma_trim_end(s);
    let b = trim_end(s);
    if b < to {
        assert(s.subrange(b, s.len() as int)[to - 1 - b] == s[to - 1]);
    } else if to < b {
        assert(s.subrange(to, s.len() as int)[b - 1 - to] == s[b - 1]);
    }
}

/// Trimming cuts off white space only, and what it leaves neither begins nor
/// ends with white space.
pub proof fn lemma_trimmed_is_a_trim(s: Seq<char>)
    ensures
        exists|from: int, to: int| #[trigger]
            is_trim_of(s, from, to) && trimmed(s) == s.subrange(from, to),
{
    lemma_trim_start(s);
    lemma_trim_end(s);
    let a = trim_start(s);
    let b = trim_end(s);
    if a < b {
        assert(is_trim_of(s, a, b));
    } else {
        assert(all_blank(s.subrange(a, s.len() as int))) by {
            assert forall|i: int| 0 <= i < s.len() - a implies is_blank(
                #[trigger] s.subrange(a, s.len() as int)[i],
            ) by {
                assert(s.subrange(a, s.len() as int)[i] == s.subrange(b, s.len() as int)[i + a
                    - b]);
            }
        }
        assert(is_trim_of(s, a, a));
        assert(trimmed(s) =~= s.subrange(a, a));
    }
}

/// However the white space around a text is cut off, what is left is the
/// trimmed text.
pub proof fn lemma_every_trim_is_trimmed(s: Seq<char>, from: int, to: int)
    requires
        is_trim_of(s, from, to),
    ensures
        trimmed(s) == s.subrange(from, to),
{
    if from < to {
        lemma_trim_start_is_unique(s, from);
        lemma_trim_end_is_unique(s, to);
    } else {
        let n = s.len() as int;
        assert(all_blank(s)) by {
            assert forall|i: int| 0 <= i < n implies is_blank(#[trigger] s[i]) by {
                if i < from {
                    assert(s[i] == s.subrange(0, from)[i]);
                } else {
                    assert(s[i] == s.subrange(to, n)[i - to]);
                }
            }
        }
        assert(s.subrange(0, n) =~= s);
        lemma_trim_start_is_unique(s, n);
        lemma_trim_end_is_unique(s, 0);
        assert(trimmed(s) =~= s.subrange(from, to));
    }
}

/// Whether `c` is white space.
fn is_blank_char(c: char) -> (b: bool)
    ensures
        b == is_blank(c),
{
    let code: u32 = c as u32;
    (0x09 <= code && code <= 0x0D) || code == 0x20 || code == 0x85 || code == 0xA0 || code
        == 0x1680 || (0x2000 <= code && code <= 0x200A) || code == 0x2028 || code == 0x2029 || code
        == 0x202F || code == 0x205F || code == 0x3000
}

/// Cuts the leading and trailing white space off `text`.
pub fn trim(text: &str) -> (inner: &str)
    ensures
        inner@ == trimmed(text@),
{
    let n: usize = text.unicode_len();
    let mut from: usize = 0;
    while from < n && is_blank_char(text.get_char(from))
        invariant
            from <= n,
            n == text@.len(),
            all_blank(text@.subrange(0, from as int)),
        decreases n - from,
    {
        assert forall|i: int| 0 <= i < from + 1 implies is_blank(
            #[trigger] text@.subrange(0, from + 1)[i],
        ) by {
            if i < from {
                assert(text@.subrange(0, from + 1)[i] == text@.subrange(0, from as int)[i]);
            }
        }
        from = from + 1;
    }
    let mut to: usize = n;
    while to > from && is_blank_char(text.get_char(to - 1))
        invariant
            from <= to <= n,
            n == text@.len(),
            all_blank(text@.subrange(to as int, n as int)),
        decreases to,
    {
        assert forall|i: int| 0 <= i < n - to + 1 implies is_blank(
            #[trigger] text@.subrange(to - 1, n as int)[i],
        ) by {
            if i > 0 {
                assert(text@.subrange(to - 1, n as int)[i] == text@.subrange(
                    to as int,
                    n as int,
                )[i - 1]);
            }
        }
        to = to - 1;
    }
    proof {
        lemma_every_trim_is_trimmed(text@, from as int, to as int);
    }
    text.substring_char(from, to)
}

/// The code point of `c` with the capital letters A to Z turned into small
/// ones.
pub open spec fn small_code(c: char) -> u32 {
    if 'A' <= c <= 'Z' {
        (c as u32 + 32) as u32
    } else {
        c as u32
    }
}

/// Whether `s` is the word `word`, capital letters taken for small ones.
/// `word` is meant to be written in small letters.
pub open spec fn is_word(s: Seq<char>, word: Seq<char>) -> bool {
    s.len() == word.len() && forall|i: int|
        0 <= i < s.len() ==> small_code(#[trigger] s[i]) == word[i] as u32
}

/// Whether `text` is the word `word`, capital letters taken for small ones.
pub fn matches_word(text: &str, word: &str) -> (b: bool)
    ensures
        b == is_word(text@, word@),
{
    let n: usize = text.unicode_len();
    if n != word.unicode_len() {
        return false;
    }
    let mut i: usize = 0;
    while i < n
        invariant
            i <= n,
            n == text@.len(),
            n == word@.len(),
            forall|k: int| 0 <= k < i ==> small_code(#[trigger] text@[k]) == word@[k] as u32,
        decreases n - i,
    {
        let c: char = text.get_char(i);
        let code: u32 = c as u32;
        let small: u32 = if 0x41 <= code && code <= 0x5A {
            code + 32
        } else {
            code
        };
        assert(small == small_code(c));
        if small != word.get_char(i) as u32 {
            return false;
        }
        i = i + 1;
    }
    true
}

/// Whether the line asks to leave the game: `q` or `quit`, in capital or
/// small letters, with white space around it or none.
pub open spec fn is_quit(line: Seq<char>) -> bool {
    is_word(trimmed(line), "q"@) || is_word(trimmed(line), "quit"@)
}

/// What a line typed in answer to the prompt for a guess is.
pub enum GuessLine<'a> {
    /// The player leaves the game.
    Quit,
    /// Text to be judged as a guess, the white space around it cut off.
    Guess(&'a str),
}

/// Reads a line typed in answer to the prompt for a guess. The words that
/// end the game are seen here; everything else is a guess, to be judged by
/// the round.
pub fn read_guess_line<'a>(line: &'a str) -> (read: GuessLine<'a>)
    ensures
        is_quit(line@) <==> read is Quit,
        read matches GuessLine::Guess(text) ==> text@ == trimmed(line@),
{
    let inner = trim(line);
    if matches_word(inner, "q") || matches_word(inner, "quit") {
        GuessLine::Quit
    } else {
        GuessLine::Guess(inner)
    }
}

/// The answer that a line gives to the question whether to play again: yes
/// for `y` or `yes`, no for `n` or `no`, in capital or small letters, with
/// white space around it or none. Any other line is no answer.
pub open spec fn play_again_answer(line: Seq<char>) -> Option<bool> {
    if is_word(trimmed(line), "y"@) || is_word(trimmed(line), "yes"@) {
        Some(true)
    } else if is_word(trimmed(line), "n"@) || is_word(trimmed(line), "no"@) {
        Some(false)
    } else {
        None
    }
}

/// Reads the answer to the question whether to play again. `None` means
/// that the question has to be asked once more.
pub fn read_play_again(line: &str) -> (answer: Option<bool>)
    ensures
        answer == play_again_answer(line@),
{
    let inner = trim(line);
    if matches_word(inner, "y") || matches_word(inner, "yes") {
        Some(true)
    } else if matches_word(inner, "n") || matches_word(inner, "no") {
        Some(false)
    } else {
        None
    }
}

/// The tier that a line picks from the menu: the line, white space cut off,
/// must be the number of a menu entry.
pub open spec fn menu_choice(line: Seq<char>) -> Option<DifficultyTier> {
    match parsed(trimmed(line)) {
        ParsedInteger::Value(choice) => DifficultyTier::spec_from_menu_choice(choice),
        _ => None,
    }
}

/// Reads a choice from the menu of tiers. `None` means that the menu has to
/// be shown once more.
pub fn read_menu_choice(line: &str) -> (tier: Option<DifficultyTier>)
    ensures
        tier == menu_choice(line@),
{
    match parse_integer(trim(line)) {
        ParsedInteger::Value(choice) => DifficultyTier::from_menu_choice(choice),
        _ => None,
    }
}

} // verus!
