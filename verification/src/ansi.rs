//! What is left of a text once its escape sequences are taken out, and the laws
//! that styling a text leaves that alone.

use crate::style::{self, Style, ESC};
use vstd::prelude::*;

verus! {

/// `text` without its escape sequences: a sequence begins with `ESC` and `[` and
/// ends with the next `m`, or with the text. `inside` says that one has begun.
pub open spec fn stripped_from(text: Seq<char>, inside: bool) -> Seq<char>
    decreases text.len(),
{
    if text.len() == 0 {
        Seq::empty()
    } else if inside {
        stripped_from(text.skip(1), text[0] != 'm')
    } else if starts_sequence(text) {
        stripped_from(text.skip(2), true)
    } else {
        seq![text[0]] + stripped_from(text.skip(1), false)
    }
}

/// `text` begins with an escape sequence.
pub open spec fn starts_sequence(text: Seq<char>) -> bool {
    text.len() > 1 && text[0] == ESC && text[1] == '['
}

/// `text` without its escape sequences.
pub open spec fn stripped(text: Seq<char>) -> Seq<char> {
    stripped_from(text, false)
}

/// Inside a sequence, everything up to and with the first `m` goes.
proof fn lemma_skip_to_m(body: Seq<char>, rest: Seq<char>)
    requires
        !body.contains('m'),
    ensures
        stripped_from(body + seq!['m'] + rest, true) == stripped_from(rest, false),
    decreases body.len(),
{
    let whole = body + seq!['m'] + rest;
    if body.len() == 0 {
        assert(whole.skip(1) =~= rest);
    } else {
        assert(body.contains(body[0]));
        let shorter = body.skip(1);
        assert forall|i: int| 0 <= i < shorter.len() implies shorter[i] != 'm' by {
            assert(body.contains(body[i + 1]));
        }
        assert(whole.skip(1) =~= shorter + seq!['m'] + rest);
        lemma_skip_to_m(shorter, rest);
    }
}

/// A sequence at the start goes, whatever follows.
proof fn lemma_strip_opening(code: Seq<char>, rest: Seq<char>)
    requires
        !code.contains('m'),
    ensures
        stripped(style::opening(code) + rest) == stripped(rest),
{
    let whole = style::opening(code) + rest;
    assert(whole.skip(2) =~= code + seq!['m'] + rest);
    lemma_skip_to_m(code, rest);
}

/// A reset ends whatever sequence has begun before it.
proof fn lemma_strip_reset(rest: Seq<char>, inside: bool)
    ensures
        stripped_from(style::reset() + rest, inside) == stripped_from(rest, false),
{
    let whole = style::reset() + rest;
    if inside {
        assert(whole =~= seq![ESC, '[', '0'] + seq!['m'] + rest);
        lemma_skip_to_m(seq![ESC, '[', '0'], rest);
    } else {
        assert(whole.skip(2) =~= seq!['0'] + seq!['m'] + rest);
        lemma_skip_to_m(seq!['0'], rest);
    }
}

/// A reset at the end leaves nothing behind.
proof fn lemma_strip_final_reset(text: Seq<char>, inside: bool)
    ensures
        stripped_from(text + style::reset(), inside) == stripped_from(text, inside),
    decreases text.len(),
{
    let whole = text + style::reset();
    if text.len() == 0 {
        assert(whole =~= style::reset() + Seq::<char>::empty());
        lemma_strip_reset(Seq::empty(), inside);
    } else if inside {
        assert(whole.skip(1) =~= text.skip(1) + style::reset());
        lemma_strip_final_reset(text.skip(1), text[0] != 'm');
    } else if starts_sequence(text) {
        assert(whole.skip(2) =~= text.skip(2) + style::reset());
        lemma_strip_final_reset(text.skip(2), true);
    } else {
        assert(whole.skip(1) =~= text.skip(1) + style::reset());
        lemma_strip_final_reset(text.skip(1), false);
    }
}

/// Turning a style on again after each reset leaves the rest of the text alone.
proof fn lemma_strip_repainted(code: Seq<char>, text: Seq<char>, inside: bool)
    requires
        !code.contains('m'),
    ensures
        stripped_from(style::repainted(code, text), inside) == stripped_from(text, inside),
    decreases text.len(),
{
    let all = style::repainted(code, text);
    if text.len() == 0 {
    } else if style::reset().is_prefix_of(text) {
        let rest = text.skip(4);
        assert(text =~= style::reset() + rest);
        assert(all =~= style::reset() + (style::opening(code) + style::repainted(code, rest)));
        lemma_strip_reset(style::opening(code) + style::repainted(code, rest), inside);
        lemma_strip_opening(code, style::repainted(code, rest));
        lemma_strip_repainted(code, rest, false);
        lemma_strip_reset(rest, inside);
    } else {
        assert(all.skip(1) =~= style::repainted(code, text.skip(1)));
        assert(all[0] == text[0]);
        if inside {
            lemma_strip_repainted(code, text.skip(1), text[0] != 'm');
        } else if starts_sequence(text) {
            let tail = text.skip(1);
            assert(tail[0] == '[');
            assert(!style::reset().is_prefix_of(tail)) by {
                assert(style::reset()[0] == ESC);
            }
            assert(all.skip(2) =~= style::repainted(code, tail.skip(1)));
            assert(tail.skip(1) =~= text.skip(2));
            assert(starts_sequence(all));
            lemma_strip_repainted(code, text.skip(2), true);
        } else {
            lemma_strip_repainted(code, text.skip(1), false);
            if text.len() > 1 {
                assert(style::repainted(code, text.skip(1))[0] == text[1]);
            }
            assert(!starts_sequence(all));
        }
    }
}

/// Styling keeps the text: whether or not the style is written out, what is left
/// without escape sequences is what the text itself has left without them.
pub proof fn law_style_keeps_text(out: Seq<char>, code: Seq<char>, text: Seq<char>)
    requires
        style::shows(out, code, text),
        !code.contains('m'),
    ensures
        stripped(out) == stripped(text),
{
    if out != text {
        lemma_strip_final_reset(style::opening(code) + style::repainted(code, text), false);
        lemma_strip_opening(code, style::repainted(code, text));
        lemma_strip_repainted(code, text, false);
    }
}

/// A text that holds no `ESC` is all that is left of it, and of what follows it
/// nothing is lost to it.
pub proof fn law_plain_text_stays(text: Seq<char>, rest: Seq<char>)
    requires
        !text.contains(ESC),
    ensures
        stripped(text) == text,
        stripped(text + rest) == text + stripped(rest),
    decreases text.len(),
{
    if text.len() == 0 {
        assert(text + rest =~= rest);
        assert(text + stripped(rest) =~= stripped(rest));
        assert(stripped(text) =~= text);
    } else {
        assert(text.contains(text[0]));
        let shorter = text.skip(1);
        assert forall|i: int| 0 <= i < shorter.len() implies shorter[i] != ESC by {
            assert(text.contains(text[i + 1]));
        }
        law_plain_text_stays(shorter, rest);
        assert((text + rest).skip(1) =~= shorter + rest);
        assert(stripped(text) =~= text);
        assert(stripped(text + rest) =~= text + stripped(rest));
    }
}

/// Two different texts without `ESC` never come out alike, whatever their styles
/// and whether or not each style is written out.
pub proof fn law_plain_texts_look_different(
    out_a: Seq<char>,
    code_a: Seq<char>,
    a: Seq<char>,
    out_b: Seq<char>,
    code_b: Seq<char>,
    b: Seq<char>,
)
    requires
        style::shows(out_a, code_a, a),
        style::shows(out_b, code_b, b),
        !code_a.contains('m'),
        !code_b.contains('m'),
        !a.contains(ESC),
        !b.contains(ESC),
        a != b,
    ensures
        out_a != out_b,
{
    law_style_keeps_text(out_a, code_a, a);
    law_style_keeps_text(out_b, code_b, b);
    law_plain_text_stays(a, Seq::empty());
    law_plain_text_stays(b, Seq::empty());
}

/// A text without `ESC` has no reset to paint over.
proof fn lemma_plain_text_is_not_repainted(code: Seq<char>, text: Seq<char>)
    requires
        !text.contains(ESC),
    ensures
        style::repainted(code, text) == text,
    decreases text.len(),
{
    if text.len() > 0 {
        assert(text.contains(text[0]));
        assert(style::reset()[0] == ESC);
        let shorter = text.skip(1);
        assert forall|i: int| 0 <= i < shorter.len() implies shorter[i] != ESC by {
            assert(text.contains(text[i + 1]));
        }
        lemma_plain_text_is_not_repainted(code, shorter);
        assert(style::repainted(code, text) =~= text);
    }
}

/// A styled text without `ESC` takes nothing of what follows it: without escape
/// sequences there stand the text and what the rest has left.
pub proof fn law_style_ends_with_its_text(
    out: Seq<char>,
    code: Seq<char>,
    text: Seq<char>,
    rest: Seq<char>,
)
    requires
        style::shows(out, code, text),
        !code.contains('m'),
        !text.contains(ESC),
    ensures
        stripped(out + rest) == text + stripped(rest),
{
    if out == text {
        law_plain_text_stays(text, rest);
    } else {
        lemma_plain_text_is_not_repainted(code, text);
        assert(out + rest =~= style::opening(code) + (text + (style::reset() + rest)));
        lemma_strip_opening(code, text + (style::reset() + rest));
        law_plain_text_stays(text, style::reset() + rest);
        lemma_strip_reset(rest, false);
    }
}

/// With styles on, a text without escape sequences stands whole between the sequence
/// that turns its style on and the one that turns it off; with styles off, any text
/// stands as it is.
pub proof fn law_style_wraps_the_whole_text(code: Seq<char>, text: Seq<char>)
    ensures
        style::rendered(false, code, text) == text,
        style::rendered(true, code, text) == seq!['\x1b', '['] + code + seq!['m']
            + style::repainted(code, text) + seq!['\x1b', '[', '0', 'm'],
        !text.contains('\x1b') ==> style::rendered(true, code, text) == seq!['\x1b', '[']
            + code + seq!['m'] + text + seq!['\x1b', '[', '0', 'm'],
{
    assert(style::rendered(true, code, text) =~= seq!['\x1b', '['] + code + seq!['m']
        + style::repainted(code, text) + seq!['\x1b', '[', '0', 'm']);
    if !text.contains('\x1b') {
        lemma_plain_text_is_not_repainted(code, text);
        assert(style::rendered(true, code, text) =~= seq!['\x1b', '['] + code + seq!['m'] + text
            + seq!['\x1b', '[', '0', 'm']);
    }
}

/// What a call for a style gave is the text itself, or the text whole between the
/// sequences of that style, where it holds no escape sequence of its own.
pub proof fn law_shown_text_is_whole(style: Style, text: Seq<char>, out: Seq<char>)
    requires
        style::shown_as(style, text, out),
        !text.contains('\x1b'),
    ensures
        out == text || out == seq!['\x1b', '['] + style.code() + seq!['m'] + text + seq![
            '\x1b',
            '[',
            '0',
            'm',
        ],
{
    style::law_shown_text_shows(style, text, out);
    law_style_wraps_the_whole_text(style.code(), text);
}

/// What a call for a style gave reads, without escape sequences, as the text does.
pub proof fn law_shown_text_reads_the_same(style: Style, text: Seq<char>, out: Seq<char>)
    requires
        style::shown_as(style, text, out),
    ensures
        stripped(out) == stripped(text),
{
    style::law_shown_text_shows(style, text, out);
    style::law_codes_are_plain(style);
    law_style_keeps_text(out, style.code(), text);
}

/// A text that resets styles within goes on in its style after the reset.
pub proof fn law_style_goes_on_after_a_reset(code: Seq<char>, before: Seq<char>, after: Seq<char>)
    requires
        !before.contains('\x1b'),
    ensures
        style::repainted(code, before + seq!['\x1b', '[', '0', 'm'] + after) == before + seq![
            '\x1b',
            '[',
            '0',
            'm',
        ] + (seq!['\x1b', '['] + code + seq!['m']) + style::repainted(code, after),
    decreases before.len(),
{
    let reset = seq!['\x1b', '[', '0', 'm'];
    let whole = before + reset + after;
    let opening = seq!['\x1b', '['] + code + seq!['m'];
    if before.len() == 0 {
        assert(whole.subrange(0, 4) =~= style::reset());
        assert(whole.skip(4) =~= after);
        assert(style::repainted(code, whole) =~= before + reset + opening + style::repainted(
            code,
            after,
        ));
    } else {
        assert(before.contains(before[0]));
        let shorter = before.skip(1);
        assert forall|i: int| 0 <= i < shorter.len() implies shorter[i] != '\x1b' by {
            assert(before.contains(before[i + 1]));
        }
        law_style_goes_on_after_a_reset(code, shorter, after);
        assert(whole.skip(1) =~= shorter + reset + after);
        assert(style::reset()[0] == '\x1b');
        assert(style::repainted(code, whole) =~= before + reset + opening + style::repainted(
            code,
            after,
        ));
    }
}

} // verus!
