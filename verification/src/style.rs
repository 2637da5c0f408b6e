//! Terminal styles: what a styled text looks like in characters, and the calls
//! into `colored` that produce one.
//!
//! `colored` decides whether to write escape sequences at all: by a switch that
//! the program can set, else by the environment and by whether standard output
//! is a terminal. How the switch stands is not for this library to say, so each
//! call below reports it beside the text. The switch is taken to stay as it is
//! while a call runs, and `colored` to be built without its `no-color` feature.

use colored::control::SHOULD_COLORIZE;
use colored::Colorize;
use vstd::prelude::*;

verus! {

/// The character that starts an escape sequence.
pub const ESC: char = '\x1b';

/// The escape sequence that turns the style `code` on.
pub open spec fn opening(code: Seq<char>) -> Seq<char> {
    seq![ESC, '['] + code + seq!['m']
}

/// The escape sequence that turns every style off.
pub open spec fn reset() -> Seq<char> {
    seq![ESC, '[', '0', 'm']
}

/// `text` with the style `code` turned on again after each reset within it.
pub open spec fn repainted(code: Seq<char>, text: Seq<char>) -> Seq<char>
    decreases text.len(),
{
    if text.len() == 0 {
        text
    } else if reset().is_prefix_of(text) {
        reset() + opening(code) + repainted(code, text.skip(4))
    } else {
        seq![text[0]] + repainted(code, text.skip(1))
    }
}

/// `text` in the style `code`, between the sequences that turn it on and off.
pub open spec fn painted(code: Seq<char>, text: Seq<char>) -> Seq<char> {
    opening(code) + repainted(code, text) + reset()
}

/// `text` in the style `code` as it comes out: painted if styles are on, else bare.
pub open spec fn rendered(on: bool, code: Seq<char>, text: Seq<char>) -> Seq<char> {
    if on {
        painted(code, text)
    } else {
        text
    }
}

/// `out` is `text` in the style `code`, with styles on or off.
pub open spec fn shows(out: Seq<char>, code: Seq<char>, text: Seq<char>) -> bool {
    out == rendered(true, code, text) || out == rendered(false, code, text)
}

/// A styled text as it came out, and whether styles were on.
#[derive(Debug)]
pub struct Shown {
    /// Whether styles were on.
    pub on: bool,
    /// The text.
    pub out: String,
}

/// The text with the style turned on again is no shorter than the text.
proof fn lemma_repainted_grows(code: Seq<char>, text: Seq<char>)
    ensures
        repainted(code, text).len() >= text.len(),
    decreases text.len(),
{
    if text.len() == 0 {
    } else if reset().is_prefix_of(text) {
        lemma_repainted_grows(code, text.skip(4));
    } else {
        lemma_repainted_grows(code, text.skip(1));
    }
}

/// A style that is written out shows: the painted text is never the bare one.
pub proof fn law_painted_differs_from_bare(code: Seq<char>, text: Seq<char>)
    ensures
        painted(code, text) != text,
{
    lemma_repainted_grows(code, text);
    assert(painted(code, text).len() > text.len());
}

/// A style makes a difference to a text if and only if styles are on.
pub proof fn law_style_shows_when_on(on: bool, code: Seq<char>, text: Seq<char>)
    ensures
        on <==> rendered(on, code, text) != text,
        on <==> rendered(on, code, text) == painted(code, text),
{
    law_painted_differs_from_bare(code, text);
}

/// A text that begins with an opening sequence tells the code of the sequence and
/// what follows it.
proof fn lemma_opening_is_told(
    code_a: Seq<char>,
    rest_a: Seq<char>,
    code_b: Seq<char>,
    rest_b: Seq<char>,
)
    requires
        !code_a.contains('m'),
        !code_b.contains('m'),
        opening(code_a) + rest_a == opening(code_b) + rest_b,
    ensures
        code_a == code_b,
        rest_a == rest_b,
{
    let all_a = opening(code_a) + rest_a;
    let all_b = opening(code_b) + rest_b;
    let (n_a, n_b) = (code_a.len() as int, code_b.len() as int);
    assert forall|i: int| 0 <= i < n_a implies #[trigger] code_a[i] == all_a[i + 2] by {}
    assert forall|i: int| 0 <= i < n_b implies #[trigger] code_b[i] == all_b[i + 2] by {}
    assert(all_a[n_a + 2] == 'm' && all_b[n_b + 2] == 'm');
    if n_a < n_b {
        assert(code_b.contains(code_b[n_a]));
    }
    if n_b < n_a {
        assert(code_a.contains(code_a[n_b]));
    }
    assert(code_a =~= code_b);
    assert(rest_a =~= all_a.skip(n_a + 3));
    assert(rest_b =~= all_b.skip(n_b + 3));
}

/// Turning the style on again after resets makes no reset at the start where there
/// was none, and takes none away.
proof fn lemma_repainted_starts_alike(code: Seq<char>, text: Seq<char>)
    ensures
        reset().is_prefix_of(repainted(code, text)) <==> reset().is_prefix_of(text),
{
    let all = repainted(code, text);
    assert(reset().len() == 4 && reset()[0] == ESC && reset()[1] == '[' && reset()[2] == '0'
        && reset()[3] == 'm');
    if reset().is_prefix_of(text) {
        assert(reset().is_prefix_of(all));
    } else if reset().is_prefix_of(all) {
        assert forall|i: int| 0 <= i < 4 implies all[i] == reset()[i] by {
            assert(all.subrange(0, 4)[i] == all[i]);
        }
        // None of the first four characters starts a reset but the first.
        assert(all == seq![text[0]] + repainted(code, text.skip(1)));
        let one = text.skip(1);
        assert(repainted(code, one) =~= all.skip(1));
        assert(one.len() > 0 && !reset().is_prefix_of(one));
        let two = one.skip(1);
        assert(repainted(code, two) =~= all.skip(2));
        assert(two.len() > 0 && !reset().is_prefix_of(two));
        let three = two.skip(1);
        assert(repainted(code, three) =~= all.skip(3));
        assert(three.len() > 0 && !reset().is_prefix_of(three));
        assert(text.subrange(0, 4) =~= reset());
        assert(false);
    }
}

/// The text can be told from the text with the style turned on again.
proof fn lemma_repainted_is_told(code: Seq<char>, a: Seq<char>, b: Seq<char>)
    requires
        repainted(code, a) == repainted(code, b),
    ensures
        a == b,
    decreases a.len(),
{
    lemma_repainted_grows(code, a);
    lemma_repainted_grows(code, b);
    lemma_repainted_starts_alike(code, a);
    lemma_repainted_starts_alike(code, b);
    if a.len() == 0 {
        assert(b =~= a);
    } else if reset().is_prefix_of(a) {
        let head = reset() + opening(code);
        assert(repainted(code, a.skip(4)) =~= repainted(code, a).skip(head.len() as int));
        assert(repainted(code, b.skip(4)) =~= repainted(code, b).skip(head.len() as int));
        lemma_repainted_is_told(code, a.skip(4), b.skip(4));
        assert(a =~= reset() + a.skip(4));
        assert(b =~= reset() + b.skip(4));
    } else {
        assert(b.len() > 0);
        assert(repainted(code, a.skip(1)) =~= repainted(code, a).skip(1));
        assert(repainted(code, b.skip(1)) =~= repainted(code, b).skip(1));
        lemma_repainted_is_told(code, a.skip(1), b.skip(1));
        assert(a[0] == repainted(code, a)[0]);
        assert(b[0] == repainted(code, b)[0]);
        assert(a =~= seq![a[0]] + a.skip(1));
        assert(b =~= seq![b[0]] + b.skip(1));
    }
}

/// Nothing is blurred by a style: two texts come out alike only if they are the
/// same and, where styles are on, in the same style.
pub proof fn law_shown_alike_only_if_alike(
    on: bool,
    code_a: Seq<char>,
    a: Seq<char>,
    code_b: Seq<char>,
    b: Seq<char>,
)
    requires
        !code_a.contains('m'),
        !code_b.contains('m'),
    ensures
        rendered(on, code_a, a) == rendered(on, code_b, b) <==> a == b && (on ==> code_a
            == code_b),
{
    if on && painted(code_a, a) == painted(code_b, b) {
        let body_a = repainted(code_a, a);
        let body_b = repainted(code_b, b);
        assert(painted(code_a, a) =~= opening(code_a) + (body_a + reset()));
        assert(painted(code_b, b) =~= opening(code_b) + (body_b + reset()));
        lemma_opening_is_told(code_a, body_a + reset(), code_b, body_b + reset());
        assert(body_a =~= (body_a + reset()).take(body_a.len() as int));
        assert(body_b =~= (body_b + reset()).take(body_b.len() as int));
        lemma_repainted_is_told(code_a, a, b);
    }
}

/// A way to show a text.
#[derive(Clone, Copy, Debug, PartialEq, Eq, Structural)]
pub enum Style {
    /// In bold.
    Bold,
    /// Dimmed.
    Dimmed,
    /// In green.
    Green,
    /// In yellow.
    Yellow,
    /// In cyan.
    Cyan,
    /// In bold red.
    BoldRed,
    /// In bold blue.
    BoldBlue,
    /// In bold magenta.
    BoldMagenta,
    /// In bold cyan.
    BoldCyan,
    /// In bold bright green.
    BoldBrightGreen,
    /// In bold bright yellow.
    BoldBrightYellow,
}

impl Style {
    /// The numbers that stand for the style in an escape sequence.
    pub open spec fn code(self) -> Seq<char> {
        match self {
            Style::Bold => "1"@,
            Style::Dimmed => "2"@,
            Style::Green => "32"@,
            Style::Yellow => "33"@,
            Style::Cyan => "36"@,
            Style::BoldRed => "1;31"@,
            Style::BoldBlue => "1;34"@,
            Style::BoldMagenta => "1;35"@,
            Style::BoldCyan => "1;36"@,
            Style::BoldBrightGreen => "1;92"@,
            Style::BoldBrightYellow => "1;93"@,
        }
    }
}

/// The characters of the codes.
proof fn lemma_codes()
    ensures
        "1"@ == seq!['1'],
        "2"@ == seq!['2'],
        "32"@ == seq!['3', '2'],
        "33"@ == seq!['3', '3'],
        "36"@ == seq!['3', '6'],
        "1;31"@ == seq!['1', ';', '3', '1'],
        "1;34"@ == seq!['1', ';', '3', '4'],
        "1;35"@ == seq!['1', ';', '3', '5'],
        "1;36"@ == seq!['1', ';', '3', '6'],
        "1;92"@ == seq!['1', ';', '9', '2'],
        "1;93"@ == seq!['1', ';', '9', '3'],
{
    reveal_strlit("1");
    reveal_strlit("2");
    reveal_strlit("32");
    reveal_strlit("33");
    reveal_strlit("36");
    reveal_strlit("1;31");
    reveal_strlit("1;34");
    reveal_strlit("1;35");
    reveal_strlit("1;36");
    reveal_strlit("1;92");
    reveal_strlit("1;93");
}

/// The styles are those of the terminal: bold is 1, dimmed 2, the colors count from
/// 30 on and the bright ones from 90 on.
pub proof fn law_styles_are_those_of_the_terminal(style: Style)
    ensures
        style.code() == match style {
            Style::Bold => seq!['1'],
            Style::Dimmed => seq!['2'],
            Style::Green => seq!['3', '2'],
            Style::Yellow => seq!['3', '3'],
            Style::Cyan => seq!['3', '6'],
            Style::BoldRed => seq!['1', ';', '3', '1'],
            Style::BoldBlue => seq!['1', ';', '3', '4'],
            Style::BoldMagenta => seq!['1', ';', '3', '5'],
            Style::BoldCyan => seq!['1', ';', '3', '6'],
            Style::BoldBrightGreen => seq!['1', ';', '9', '2'],
            Style::BoldBrightYellow => seq!['1', ';', '9', '3'],
        },
{
    lemma_codes();
}

/// No style holds the character that ends its escape sequence.
pub proof fn law_codes_are_plain(style: Style)
    ensures
        style.code().len() > 0,
        !style.code().contains('m'),
{
    lemma_codes();
}

/// Different styles are written differently: no text painted in the one is the
/// text painted in the other.
pub proof fn law_styles_look_different(a: Style, b: Style, text: Seq<char>)
    requires
        a != b,
    ensures
        a.code() != b.code(),
        painted(a.code(), text) != painted(b.code(), text),
{
    lemma_codes();
    law_codes_are_plain(a);
    law_codes_are_plain(b);
    if a.code() == b.code() {
        assert(a.code().len() == b.code().len());
        assert(a.code()[0] == b.code()[0]);
        if a.code().len() > 1 {
            assert(a.code()[1] == b.code()[1]);
        }
        if a.code().len() > 3 {
            assert(a.code()[2] == b.code()[2]);
            assert(a.code()[3] == b.code()[3]);
        }
        assert(false);
    }
    law_shown_alike_only_if_alike(true, a.code(), text, b.code(), text);
}

/// Calls `bold` of `colored::Colorize`, the `Display` of what comes out, and
/// `should_colorize` of `SHOULD_COLORIZE`. Claims that the text is painted with
/// the code `1` if the switch is on, and bare if it is off.
#[verifier::external_body]
fn bold(text: &str) -> (shown: Shown)
    ensures
        shown.out@ == rendered(shown.on, "1"@, text@),
{
    let on: bool = SHOULD_COLORIZE.should_colorize();
    Shown { on, out: format!("{}", text.bold()) }
}

/// Calls `dimmed` of `colored::Colorize`, the `Display` of what comes out, and
/// `should_colorize` of `SHOULD_COLORIZE`. Claims that the text is painted with
/// the code `2` if the switch is on, and bare if it is off.
#[verifier::external_body]
fn dimmed(text: &str) -> (shown: Shown)
    ensures
        shown.out@ == rendered(shown.on, "2"@, text@),
{
    let on: bool = SHOULD_COLORIZE.should_colorize();
    Shown { on, out: format!("{}", text.dimmed()) }
}

/// Calls `green` of `colored::Colorize`, the `Display` of what comes out, and
/// `should_colorize` of `SHOULD_COLORIZE`. Claims that the text is painted with
/// the code `32` if the switch is on, and bare if it is off.
#[verifier::external_body]
fn green(text: &str) -> (shown: Shown)
    ensures
        shown.out@ == rendered(shown.on, "32"@, text@),
{
    let on: bool = SHOULD_COLORIZE.should_colorize();
    Shown { on, out: format!("{}", text.green()) }
}

/// Calls `yellow` of `colored::Colorize`, the `Display` of what comes out, and
/// `should_colorize` of `SHOULD_COLORIZE`. Claims that the text is painted with
/// the code `33` if the switch is on, and bare if it is off.
#[verifier::external_body]
fn yellow(text: &str) -> (shown: Shown)
    ensures
        shown.out@ == rendered(shown.on, "33"@, text@),
{
    let on: bool = SHOULD_COLORIZE.should_colorize();
    Shown { on, out: format!("{}", text.yellow()) }
}

/// Calls `cyan` of `colored::Colorize`, the `Display` of what comes out, and
/// `should_colorize` of `SHOULD_COLORIZE`. Claims that the text is painted with
/// the code `36` if the switch is on, and bare if it is off.
#[verifier::external_body]
fn cyan(text: &str) -> (shown: Shown)
    ensures
        shown.out@ == rendered(shown.on, "36"@, text@),
{
    let on: bool = SHOULD_COLORIZE.should_colorize();
    Shown { on, out: format!("{}", text.cyan()) }
}

/// Calls `red`, then `bold`, of `colored::Colorize`, the `Display` of what comes
/// out, and `should_colorize` of `SHOULD_COLORIZE`. Claims that the text is
/// painted with the code `1;31` if the switch is on, and bare if it is off.
#[verifier::external_body]
fn bold_red(text: &str) -> (shown: Shown)
    ensures
        shown.out@ == rendered(shown.on, "1;31"@, text@),
{
    let on: bool = SHOULD_COLORIZE.should_colorize();
    Shown { on, out: format!("{}", text.red().bold()) }
}

/// Calls `blue`, then `bold`, of `colored::Colorize`, the `Display` of what comes
/// out, and `should_colorize` of `SHOULD_COLORIZE`. Claims that the text is
/// painted with the code `1;34` if the switch is on, and bare if it is off.
#[verifier::external_body]
fn bold_blue(text: &str) -> (shown: Shown)
    ensures
        shown.out@ == rendered(shown.on, "1;34"@, text@),
{
    let on: bool = SHOULD_COLORIZE.should_colorize();
    Shown { on, out: format!("{}", text.blue().bold()) }
}

/// Calls `magenta`, then `bold`, of `colored::Colorize`, the `Display` of what
/// comes out, and `should_colorize` of `SHOULD_COLORIZE`. Claims that the text is
/// painted with the code `1;35` if the switch is on, and bare if it is off.
#[verifier::external_body]
fn bold_magenta(text: &str) -> (shown: Shown)
    ensures
        shown.out@ == rendered(shown.on, "1;35"@, text@),
{
    let on: bool = SHOULD_COLORIZE.should_colorize();
    Shown { on, out: format!("{}", text.magenta().bold()) }
}

/// Calls `cyan`, then `bold`, of `colored::Colorize`, the `Display` of what comes
/// out, and `should_colorize` of `SHOULD_COLORIZE`. Claims that the text is
/// painted with the code `1;36` if the switch is on, and bare if it is off.
#[verifier::external_body]
fn bold_cyan(text: &str) -> (shown: Shown)
    ensures
        shown.out@ == rendered(shown.on, "1;36"@, text@),
{
    let on: bool = SHOULD_COLORIZE.should_colorize();
    Shown { on, out: format!("{}", text.cyan().bold()) }
}

/// Calls `bright_green`, then `bold`, of `colored::Colorize`, the `Display` of
/// what comes out, and `should_colorize` of `SHOULD_COLORIZE`. Claims that the
/// text is painted with the code `1;92` if the switch is on, and bare if it is
/// off.
#[verifier::external_body]
fn bold_bright_green(text: &str) -> (shown: Shown)
    ensures
        shown.out@ == rendered(shown.on, "1;92"@, text@),
{
    let on: bool = SHOULD_COLORIZE.should_colorize();
    Shown { on, out: format!("{}", text.bright_green().bold()) }
}

/// Calls `bright_yellow`, then `bold`, of `colored::Colorize`, the `Display` of
/// what comes out, and `should_colorize` of `SHOULD_COLORIZE`. Claims that the
/// text is painted with the code `1;93` if the switch is on, and bare if it is
/// off.
#[verifier::external_body]
fn bold_bright_yellow(text: &str) -> (shown: Shown)
    ensures
        shown.out@ == rendered(shown.on, "1;93"@, text@),
{
    let on: bool = SHOULD_COLORIZE.should_colorize();
    Shown { on, out: format!("{}", text.bright_yellow().bold()) }
}

/// `shown` is what the call into `colored` for the style gave for `text`.
pub closed spec fn came_of(style: Style, text: &str, shown: Shown) -> bool {
    match style {
        Style::Bold => call_ensures(bold, (text,), shown),
        Style::Dimmed => call_ensures(dimmed, (text,), shown),
        Style::Green => call_ensures(green, (text,), shown),
        Style::Yellow => call_ensures(yellow, (text,), shown),
        Style::Cyan => call_ensures(cyan, (text,), shown),
        Style::BoldRed => call_ensures(bold_red, (text,), shown),
        Style::BoldBlue => call_ensures(bold_blue, (text,), shown),
        Style::BoldMagenta => call_ensures(bold_magenta, (text,), shown),
        Style::BoldCyan => call_ensures(bold_cyan, (text,), shown),
        Style::BoldBrightGreen => call_ensures(bold_bright_green, (text,), shown),
        Style::BoldBrightYellow => call_ensures(bold_bright_yellow, (text,), shown),
    }
}

/// `out` is a text that the call into `colored` for the style gave for `text`.
pub open spec fn shown_as(style: Style, text: Seq<char>, out: Seq<char>) -> bool {
    exists|given: &str, shown: Shown| #[trigger]
        came_of(style, given, shown) && given@ == text && shown.out@ == out
}

/// Each style has its own call, which is handed the text itself.
proof fn law_each_style_has_its_call(style: Style, text: &str, shown: Shown)
    requires
        came_of(style, text, shown),
    ensures
        match style {
            Style::Bold => call_ensures(bold, (text,), shown),
            Style::Dimmed => call_ensures(dimmed, (text,), shown),
            Style::Green => call_ensures(green, (text,), shown),
            Style::Yellow => call_ensures(yellow, (text,), shown),
            Style::Cyan => call_ensures(cyan, (text,), shown),
            Style::BoldRed => call_ensures(bold_red, (text,), shown),
            Style::BoldBlue => call_ensures(bold_blue, (text,), shown),
            Style::BoldMagenta => call_ensures(bold_magenta, (text,), shown),
            Style::BoldCyan => call_ensures(bold_cyan, (text,), shown),
            Style::BoldBrightGreen => call_ensures(bold_bright_green, (text,), shown),
            Style::BoldBrightYellow => call_ensures(bold_bright_yellow, (text,), shown),
        },
{
}

/// What a call gave is the text painted if styles were on, else the bare text.
pub proof fn law_what_came_is_rendered(style: Style, text: &str, shown: Shown)
    requires
        came_of(style, text, shown),
    ensures
        shown.out@ == rendered(shown.on, style.code(), text@),
{
    law_each_style_has_its_call(style, text, shown);
}

/// A text that is shown in a style was given by the call for that style.
pub proof fn law_shown_text_came_of_a_call(style: Style, text: Seq<char>, out: Seq<char>)
    requires
        shown_as(style, text, out),
    ensures
        exists|given: &str, shown: Shown| #[trigger]
            came_of(style, given, shown) && given@ == text && shown.out@ == out,
{
}

/// A text that a call gave shows the text that the call was given.
pub proof fn law_shown_text_shows(style: Style, text: Seq<char>, out: Seq<char>)
    requires
        shown_as(style, text, out),
    ensures
        shows(out, style.code(), text),
{
    let (given, shown) = choose|given: &str, shown: Shown| #[trigger]
        came_of(style, given, shown) && given@ == text && shown.out@ == out;
    law_what_came_is_rendered(style, given, shown);
}

/// Shows `text` in the given style: painted if styles are on, else bare.
pub fn paint(style: Style, text: &str) -> (shown: Shown)
    ensures
        came_of(style, text, shown),
        shown.out@ == rendered(shown.on, style.code(), text@),
{
    match style {
        Style::Bold => bold(text),
        Style::Dimmed => dimmed(text),
        Style::Green => green(text),
        Style::Yellow => yellow(text),
        Style::Cyan => cyan(text),
        Style::BoldRed => bold_red(text),
        Style::BoldBlue => bold_blue(text),
        Style::BoldMagenta => bold_magenta(text),
        Style::BoldCyan => bold_cyan(text),
        Style::BoldBrightGreen => bold_bright_green(text),
        Style::BoldBrightYellow => bold_bright_yellow(text),
    }
}

} // verus!
