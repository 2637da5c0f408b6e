//! Plain text: substrings, line ends, upper case and decimal numbers.

use vstd::prelude::*;

verus! {

/// `needle` occurs in `hay` as a run of consecutive characters.
pub open spec fn has_infix(hay: Seq<char>, needle: Seq<char>) -> bool {
    exists|at: int| infix_at(hay, needle, at)
}

/// `needle` occurs in `hay` at position `at`.
pub open spec fn infix_at(hay: Seq<char>, needle: Seq<char>, at: int) -> bool {
    &&& 0 <= at
    &&& at + needle.len() <= hay.len()
    &&& hay.subrange(at, at + needle.len()) == needle
}

/// The characters of `text`, one by one.
fn chars_of(text: &str) -> (chars: Vec<char>)
    ensures
        chars@ == text@,
{
    let mut chars: Vec<char> = Vec::new();
    for c in iter: text.chars()
        invariant
            iter.seq() == text@,
            chars@ == text@.take(iter.index() as int),
    {
        chars.push(c);
    }
    chars
}

/// Whether the characters of `needle` stand in `hay` from position `at` on.
fn matches_at(hay: &Vec<char>, needle: &Vec<char>, at: usize) -> (found: bool)
    requires
        at + needle@.len() <= hay@.len(),
    ensures
        found == infix_at(hay@, needle@, at as int),
{
    let mut i: usize = 0;
    while i < needle.len()
        invariant
            i <= needle.len(),
            at + needle.len() <= hay.len(),
            forall|j: int| 0 <= j < i ==> hay@[at + j] == needle@[j],
        decreases needle@.len() - i,
    {
        if hay[at + i] != needle[i] {
            assert(hay@.subrange(at as int, at + needle@.len())[i as int] != needle@[i as int]);
            return false;
        }
        i += 1;
    }
    assert(hay@.subrange(at as int, at + needle@.len()) =~= needle@);
    true
}

/// Whether `needle` occurs in `hay`.
pub fn contains(hay: &str, needle: &str) -> (found: bool)
    ensures
        found == has_infix(hay@, needle@),
{
    let hay_chars = chars_of(hay);
    let needle_chars = chars_of(needle);
    if needle_chars.len() > hay_chars.len() {
        return false;
    }
    let last: usize = hay_chars.len() - needle_chars.len();
    let mut at: usize = 0;
    while at < last
        invariant
            hay_chars@ == hay@,
            needle_chars@ == needle@,
            last == hay@.len() - needle@.len(),
            at <= last,
            forall|i: int| 0 <= i < at ==> !infix_at(hay@, needle@, i),
        decreases last - at,
    {
        if matches_at(&hay_chars, &needle_chars, at) {
            return true;
        }
        at += 1;
    }
    assert(forall|i: int| infix_at(hay@, needle@, i) ==> i <= last);
    matches_at(&hay_chars, &needle_chars, last)
}

/// A character that ends a line.
pub open spec fn is_line_end(c: char) -> bool {
    c == '\n' || c == '\r'
}

/// `line` without the line ends at its very end.
pub open spec fn trimmed(line: Seq<char>) -> Seq<char>
    decreases line.len(),
{
    if line.len() > 0 && is_line_end(line.last()) {
        trimmed(line.drop_last())
    } else {
        line
    }
}

/// Cuts all trailing `\n` and `\r` off `line`.
pub fn trim_line_end(line: &str) -> (kept: String)
    ensures
        kept@ == trimmed(line@),
{
    let mut end: usize = line.unicode_len();
    assert(line@.take(end as int) =~= line@);
    while end > 0
        invariant
            end <= line@.len(),
            trimmed(line@.take(end as int)) == trimmed(line@),
        ensures
            end <= line@.len(),
            line@.take(end as int) == trimmed(line@),
        decreases end,
    {
        let c: char = line.get_char(end - 1);
        assert(line@.take(end as int).drop_last() =~= line@.take(end - 1));
        if c != '\n' && c != '\r' {
            break;
        }
        end -= 1;
    }
    line.substring_char(0, end).to_string()
}

/// The upper case form of a text, as `str::to_uppercase` gives it.
pub uninterp spec fn uppercase(text: Seq<char>) -> Seq<char>;

/// The upper case form of an ASCII letter; any other character as it is.
pub open spec fn ascii_upper(c: char) -> char {
    if 'a' <= c <= 'z' {
        ((c as int) - 32) as char
    } else {
        c
    }
}

/// Every character of `text` in its ASCII upper case form.
pub open spec fn ascii_uppercase(text: Seq<char>) -> Seq<char> {
    text.map_values(|c: char| ascii_upper(c))
}

/// Calls `str::to_uppercase`. Claims that its result depends on the text alone,
/// and that of a text made of ASCII characters it turns `a` to `z` into `A` to
/// `Z` and keeps the rest. Of other characters nothing more is said: their
/// upper case forms are Unicode's.
#[verifier::external_body]
pub(crate) fn to_upper(text: &str) -> (upper: String)
    ensures
        upper@ == uppercase(text@),
        vstd::utf8::is_ascii_chars(text@) ==> upper@ == ascii_uppercase(text@),
{
    text.to_uppercase()
}

/// The digit that stands for `d`, which is below ten.
pub open spec fn digit(d: nat) -> char {
    (('0' as nat) + d) as char
}

/// `n` in decimal notation.
pub open spec fn decimal(n: nat) -> Seq<char>
    decreases n,
{
    if n < 10 {
        seq![digit(n)]
    } else {
        decimal(n / 10).push(digit(n % 10))
    }
}

/// The digit for `d`, as a text of one character.
fn digit_text(d: usize) -> (text: &'static str)
    requires
        d < 10,
    ensures
        text@ == seq![digit(d as nat)],
{
    proof {
        reveal_strlit("0");
        reveal_strlit("1");
        reveal_strlit("2");
        reveal_strlit("3");
        reveal_strlit("4");
        reveal_strlit("5");
        reveal_strlit("6");
        reveal_strlit("7");
        reveal_strlit("8");
        reveal_strlit("9");
    }
    match d {
        0 => "0",
        1 => "1",
        2 => "2",
        3 => "3",
        4 => "4",
        5 => "5",
        6 => "6",
        7 => "7",
        8 => "8",
        _ => "9",
    }
}

/// Writes `n` in decimal notation.
pub fn to_decimal(n: usize) -> (text: String)
    ensures
        text@ == decimal(n as nat),
    decreases n,
{
    if n < 10 {
        return digit_text(n).to_string();
    }
    let mut text: String = to_decimal(n / 10);
    text.append(digit_text(n % 10));
    assert(text@ =~= decimal(n as nat));
    text
}

/// What stands between two texts occurs in them put together.
pub proof fn law_part_occurs(before: Seq<char>, part: Seq<char>, after: Seq<char>)
    ensures
        has_infix(before + part + after, part),
{
    let whole = before + part + after;
    let at = before.len() as int;
    assert(whole.subrange(at, at + part.len()) =~= part);
    assert(infix_at(whole, part, at));
}

/// A text in which another occurs is made of what stands before it, of it, and of
/// what stands after it.
pub proof fn law_text_splits_at_part(whole: Seq<char>, part: Seq<char>)
    requires
        has_infix(whole, part),
    ensures
        exists|before: Seq<char>, after: Seq<char>| whole == #[trigger] (before + part + after),
{
    let at = choose|at: int| infix_at(whole, part, at);
    let before = whole.take(at);
    let after = whole.skip(at + part.len());
    assert(whole.subrange(at, at + part.len()) == part);
    assert forall|i: int| 0 <= i < part.len() implies whole[at + i] == part[i] by {
        assert(whole.subrange(at, at + part.len())[i] == part[i]);
    }
    assert(whole =~= before + part + after);
}

/// Nothing but `\n` and `\r` is cut off, at the end only, and all of that is.
pub proof fn law_trimming_cuts_line_ends_only(line: Seq<char>)
    ensures
        trimmed(line).len() <= line.len(),
        forall|i: int| 0 <= i < trimmed(line).len() ==> #[trigger] trimmed(line)[i] == line[i],
        forall|i: int|
            trimmed(line).len() <= i < line.len() ==> #[trigger] line[i] == '\n' || line[i] == '\r',
        trimmed(line).len() > 0 ==> trimmed(line).last() != '\n' && trimmed(line).last() != '\r',
    decreases line.len(),
{
    if line.len() > 0 && is_line_end(line.last()) {
        let shorter = line.drop_last();
        law_trimming_cuts_line_ends_only(shorter);
        assert forall|i: int| trimmed(line).len() <= i < line.len() implies #[trigger] line[i]
            == '\n' || line[i] == '\r' by {
            if i < shorter.len() {
                assert(shorter[i] == line[i]);
            }
        }
        assert forall|i: int| 0 <= i < trimmed(line).len() implies #[trigger] trimmed(line)[i]
            == line[i] by {
            assert(shorter[i] == line[i]);
        }
    }
}

/// A text with line ends put behind it is what it was once they are trimmed, if it
/// did not end in one itself.
pub proof fn law_trimming_undoes_line_ends(text: Seq<char>, ends: Seq<char>)
    requires
        text.len() > 0 ==> text.last() != '\n' && text.last() != '\r',
        forall|i: int| 0 <= i < ends.len() ==> #[trigger] ends[i] == '\n' || ends[i] == '\r',
    ensures
        trimmed(text + ends) == text,
{
    let whole = text + ends;
    let kept = trimmed(whole);
    law_trimming_cuts_line_ends_only(whole);
    if kept.len() < text.len() {
        assert(whole[text.len() - 1] == text.last());
    }
    if kept.len() > text.len() {
        assert(whole[kept.len() - 1] == ends[kept.len() - 1 - text.len()]);
    }
    assert(kept =~= text);
}

/// Upper case changes the letters `a` to `z` into `A` to `Z`, each in its place,
/// and nothing else.
pub proof fn law_upper_case_of_ascii(text: Seq<char>)
    ensures
        ascii_uppercase(text).len() == text.len(),
        forall|i: int|
            0 <= i < text.len() ==> {
                let c = text[i];
                let upper = #[trigger] ascii_uppercase(text)[i];
                if 'a' <= c <= 'z' {
                    upper as int - 'A' as int == c as int - 'a' as int
                } else {
                    upper == c
                }
            },
{
}

/// A number is written with its last digit behind the number without it, down to
/// the numbers of one digit.
pub proof fn law_decimal_goes_by_digits(n: nat, d: nat)
    requires
        d < 10,
    ensures
        decimal(d) == seq![('0' as int + d) as char],
        n > 0 ==> decimal(10 * n + d) == decimal(n) + seq![('0' as int + d) as char],
{
    if n > 0 {
        assert((10 * n + d) / 10 == n && (10 * n + d) % 10 == d);
        assert(decimal(10 * n + d) =~= decimal(n) + seq![('0' as int + d) as char]);
    }
}

/// A number is written in digits, without a zero in front of it, and no two numbers
/// are written the same way.
pub proof fn law_decimal_tells_the_number(a: nat, b: nat)
    ensures
        decimal(a).len() > 0,
        forall|i: int| 0 <= i < decimal(a).len() ==> '0' <= #[trigger] decimal(a)[i] <= '9',
        a > 0 ==> decimal(a)[0] != '0',
        decimal(a) == decimal(b) ==> a == b,
    decreases a,
{
    if a >= 10 {
        law_decimal_tells_the_number(a / 10, b / 10);
    }
    if decimal(a) == decimal(b) {
        assert(decimal(a).last() == digit(a % 10) && decimal(b).last() == digit(b % 10));
        if a >= 10 && b >= 10 {
            assert(decimal(a / 10) =~= decimal(a).drop_last());
            assert(decimal(b / 10) =~= decimal(b).drop_last());
        } else if b >= 10 {
            law_decimal_length(b);
        } else if a >= 10 {
            law_decimal_length(a);
        }
    }
}

/// A number of ten or more takes two digits or more.
pub proof fn law_decimal_length(n: nat)
    requires
        n >= 10,
    ensures
        decimal(n).len() >= 2,
{
    assert(decimal(n / 10).len() >= 1);
}

} // verus!
