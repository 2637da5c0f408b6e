//! Colors of the output: one for each file's prefix, one for each log level.

use crate::ansi;
use crate::registry::Tracking;
use crate::style::{self, Shown, Style};
use crate::text;
use vstd::prelude::*;

verus! {

/// How many colors there are for the prefixes.
pub const PREFIX_COLORS: usize = 5;

/// The style of the prefix of the file with color index `idx`: bold, in cyan,
/// magenta, blue, bright yellow or bright green, and from the start again.
pub open spec fn prefix_style_at(idx: nat) -> Style {
    let turn = idx % (PREFIX_COLORS as nat);
    if turn == 0 {
        Style::BoldCyan
    } else if turn == 1 {
        Style::BoldMagenta
    } else if turn == 2 {
        Style::BoldBlue
    } else if turn == 3 {
        Style::BoldBrightYellow
    } else {
        Style::BoldBrightGreen
    }
}

/// Finds the style of the prefix of the file with color index `idx`.
pub fn prefix_style(idx: usize) -> (style: Style)
    ensures
        style == prefix_style_at(idx as nat),
{
    match idx % PREFIX_COLORS {
        0 => Style::BoldCyan,
        1 => Style::BoldMagenta,
        2 => Style::BoldBlue,
        3 => Style::BoldBrightYellow,
        _ => Style::BoldBrightGreen,
    }
}

/// Shows `text` in the color that belongs to the color index `idx`, and tells
/// whether styles were on.
pub fn prefix_shown(text: &str, idx: usize) -> (shown: Shown)
    ensures
        style::came_of(prefix_style_at(idx as nat), text, shown),
        shown.out@ == style::rendered(shown.on, prefix_style_at(idx as nat).code(), text@),
{
    style::paint(prefix_style(idx), text)
}

/// Shows `text` in the color that belongs to the color index `idx`.
pub fn color_prefix(text: &str, idx: usize) -> (out: String)
    ensures
        style::shown_as(prefix_style_at(idx as nat), text@, out@),
        style::shows(out@, prefix_style_at(idx as nat).code(), text@),
{
    prefix_shown(text, idx).out
}

/// What a log line is about, as far as its words tell.
#[derive(Clone, Copy, Debug, PartialEq, Eq, Structural)]
pub enum Level {
    /// An error, a fatal error or a critical one.
    Error,
    /// A warning.
    Warn,
    /// A piece of information.
    Info,
    /// A message for debugging.
    Debug,
    /// A step of a trace.
    Trace,
}

/// The level that the words of `upper`, a line in upper case, stand for. Where
/// words of several levels occur, the gravest level wins.
pub open spec fn level_in(upper: Seq<char>) -> Option<Level> {
    if text::has_infix(upper, "ERROR"@) || text::has_infix(upper, "FATAL"@) || text::has_infix(
        upper,
        "CRITICAL"@,
    ) {
        Some(Level::Error)
    } else if text::has_infix(upper, "WARN"@) {
        Some(Level::Warn)
    } else if text::has_infix(upper, "INFO"@) {
        Some(Level::Info)
    } else if text::has_infix(upper, "DEBUG"@) {
        Some(Level::Debug)
    } else if text::has_infix(upper, "TRACE"@) {
        Some(Level::Trace)
    } else {
        None
    }
}

/// Finds the level of a line that is already in upper case.
pub fn level_of_upper(upper: &str) -> (level: Option<Level>)
    ensures
        level == level_in(upper@),
{
    if text::contains(upper, "ERROR") || text::contains(upper, "FATAL") || text::contains(
        upper,
        "CRITICAL",
    ) {
        Some(Level::Error)
    } else if text::contains(upper, "WARN") {
        Some(Level::Warn)
    } else if text::contains(upper, "INFO") {
        Some(Level::Info)
    } else if text::contains(upper, "DEBUG") {
        Some(Level::Debug)
    } else if text::contains(upper, "TRACE") {
        Some(Level::Trace)
    } else {
        None
    }
}

/// Finds the level of a line, whatever the case of its letters.
pub fn level_of(line: &str) -> (level: Option<Level>)
    ensures
        level == level_in(text::uppercase(line@)),
        vstd::utf8::is_ascii_chars(line@) ==> level == level_in(text::ascii_uppercase(line@)),
{
    let upper: String = text::to_upper(line);
    level_of_upper(upper.as_str())
}

/// The style of a line of the given level: errors are in bold red, warnings in
/// yellow, information in green, debugging in cyan, traces dimmed.
pub open spec fn style_of_level(level: Level) -> Style {
    match level {
        Level::Error => Style::BoldRed,
        Level::Warn => Style::Yellow,
        Level::Info => Style::Green,
        Level::Debug => Style::Cyan,
        Level::Trace => Style::Dimmed,
    }
}

/// Finds the style of a line of the given level.
pub fn level_style(level: Level) -> (style: Style)
    ensures
        style == style_of_level(level),
{
    match level {
        Level::Error => Style::BoldRed,
        Level::Warn => Style::Yellow,
        Level::Info => Style::Green,
        Level::Debug => Style::Cyan,
        Level::Trace => Style::Dimmed,
    }
}

/// `out` is `line` in the style of `level`, or bare; without a level it is bare.
pub open spec fn shows_level(out: Seq<char>, level: Option<Level>, line: Seq<char>) -> bool {
    match level {
        Some(level) => style::shows(out, style_of_level(level).code(), line),
        None => out == line,
    }
}

/// `out` is what the call for the style of `level` gave for `line`; without a level
/// it is the line.
pub open spec fn shown_at_level(out: Seq<char>, level: Option<Level>, line: Seq<char>) -> bool {
    match level {
        Some(level) => style::shown_as(style_of_level(level), line, out),
        None => out == line,
    }
}

/// Shows `line` in the style of `level`, and tells whether styles were on.
pub fn level_shown(line: &str, level: Level) -> (shown: Shown)
    ensures
        style::came_of(style_of_level(level), line, shown),
        shown.out@ == style::rendered(shown.on, style_of_level(level).code(), line@),
{
    style::paint(level_style(level), line)
}

/// `shown` is what comes out of a line of the given level: the line painted if
/// styles are on and bare if not, or nothing for a line without a level.
pub open spec fn is_shown_as(shown: Option<Shown>, level: Option<Level>, line: Seq<char>) -> bool {
    match (shown, level) {
        (Some(shown), Some(level)) => shown.out@ == style::rendered(
            shown.on,
            style_of_level(level).code(),
            line,
        ),
        (None, None) => true,
        _ => false,
    }
}

/// Shows `line` in the style of the level that it is found to have, and tells
/// whether styles were on; `None` if it has no level.
pub fn content_shown(line: &str) -> (shown: Option<Shown>)
    ensures
        is_shown_as(shown, level_in(text::uppercase(line@)), line@),
        vstd::utf8::is_ascii_chars(line@) ==> is_shown_as(
            shown,
            level_in(text::ascii_uppercase(line@)),
            line@,
        ),
        level_in(text::uppercase(line@)) matches Some(level) ==> style::came_of(
            style_of_level(level),
            line,
            shown->0,
        ),
        vstd::utf8::is_ascii_chars(line@) ==> (level_in(
            text::ascii_uppercase(line@),
        ) matches Some(level) ==> style::came_of(style_of_level(level), line, shown->0)),
{
    match level_of(line) {
        Some(level) => Some(level_shown(line, level)),
        None => None,
    }
}

/// Shows `line` in the style of the level that it is found to have; a line without
/// a level as it is.
pub fn colorize_content(line: &str) -> (out: String)
    ensures
        shows_level(out@, level_in(text::uppercase(line@)), line@),
        vstd::utf8::is_ascii_chars(line@) ==> shows_level(
            out@,
            level_in(text::ascii_uppercase(line@)),
            line@,
        ),
        shown_at_level(out@, level_in(text::uppercase(line@)), line@),
        vstd::utf8::is_ascii_chars(line@) ==> shown_at_level(
            out@,
            level_in(text::ascii_uppercase(line@)),
            line@,
        ),
{
    match content_shown(line) {
        Some(shown) => shown.out,
        None => line.to_string(),
    }
}

/// Coloring a prefix keeps its text: without escape sequences it reads as before.
pub proof fn law_prefix_keeps_text(out: Seq<char>, idx: nat, text: Seq<char>)
    requires
        style::shows(out, prefix_style_at(idx).code(), text),
    ensures
        ansi::stripped(out) == ansi::stripped(text),
{
    style::law_codes_are_plain(prefix_style_at(idx));
    ansi::law_style_keeps_text(out, prefix_style_at(idx).code(), text);
}

/// Coloring a line keeps its text: without escape sequences it reads as before.
pub proof fn law_content_keeps_text(out: Seq<char>, level: Option<Level>, line: Seq<char>)
    requires
        shows_level(out, level, line),
    ensures
        ansi::stripped(out) == ansi::stripped(line),
{
    if let Some(level) = level {
        style::law_codes_are_plain(style_of_level(level));
        ansi::law_style_keeps_text(out, style_of_level(level).code(), line);
    }
}

/// Any two of five consecutive color indices give different prefixes, and so do
/// any two that leave different remainders by five.
pub proof fn law_neighbours_look_different(i: nat, j: nat, text: Seq<char>)
    requires
        i < j < i + PREFIX_COLORS || i % (PREFIX_COLORS as nat) != j % (PREFIX_COLORS as nat),
    ensures
        prefix_style_at(i) != prefix_style_at(j),
        style::painted(prefix_style_at(i).code(), text) != style::painted(
            prefix_style_at(j).code(),
            text,
        ),
{
    style::law_styles_look_different(prefix_style_at(i), prefix_style_at(j), text);
}

/// Tracked files can be told apart by the color of their prefixes: those of two
/// files look different if and only if the color indices leave different
/// remainders by five, as any two do that are less than five apart.
pub proof fn law_tracked_files_look_different(
    state: Tracking,
    a: Seq<u8>,
    b: Seq<u8>,
    text: Seq<char>,
)
    requires
        state.sound(),
        state.indices.contains_key(a),
        state.indices.contains_key(b),
        a != b,
    ensures
        style::painted(prefix_style_at(state.indices[a]).code(), text) != style::painted(
            prefix_style_at(state.indices[b]).code(),
            text,
        ) <==> state.indices[a] % (PREFIX_COLORS as nat) != state.indices[b] % (
        PREFIX_COLORS as nat),
        -PREFIX_COLORS < state.indices[a] - state.indices[b] < PREFIX_COLORS
            ==> state.indices[a] % (PREFIX_COLORS as nat) != state.indices[b] % (
        PREFIX_COLORS as nat),
{
    let (i, j) = (state.indices[a], state.indices[b]);
    if i % (PREFIX_COLORS as nat) != j % (PREFIX_COLORS as nat) {
        law_neighbours_look_different(i, j, text);
    }
}

/// Prefixes repeat their look after five indices.
pub proof fn law_prefix_colors_cycle(idx: nat)
    ensures
        prefix_style_at(idx + PREFIX_COLORS as nat) == prefix_style_at(idx),
{
}

/// Lines of different levels are painted differently.
pub proof fn law_levels_look_different(a: Level, b: Level, line: Seq<char>)
    requires
        a != b,
    ensures
        style::painted(style_of_level(a).code(), line) != style::painted(
            style_of_level(b).code(),
            line,
        ),
{
    style::law_styles_look_different(style_of_level(a), style_of_level(b), line);
}

/// The case of the letters of a word does not matter: a word that occurs in a
/// line occurs in upper case in the line in upper case.
pub proof fn law_word_in_any_case(line: Seq<char>, word: Seq<char>)
    requires
        text::has_infix(line, word),
    ensures
        text::has_infix(text::ascii_uppercase(line), text::ascii_uppercase(word)),
{
    let at = choose|at: int| text::infix_at(line, word, at);
    let upper_line = text::ascii_uppercase(line);
    let upper_word = text::ascii_uppercase(word);
    assert(upper_line.subrange(at, at + word.len()) =~= upper_word) by {
        assert forall|i: int| 0 <= i < word.len() implies upper_line[at + i] == upper_word[i] by {
            assert(line.subrange(at, at + word.len())[i] == word[i]);
        }
    }
    assert(text::infix_at(upper_line, upper_word, at));
}

/// A line that holds `error`, `fatal` or `critical`, in letters of any case, is
/// an error, whatever else it holds.
pub proof fn law_error_words_win(line: Seq<char>, word: Seq<char>)
    requires
        text::has_infix(line, word),
        text::ascii_uppercase(word) == "ERROR"@ || text::ascii_uppercase(word) == "FATAL"@
            || text::ascii_uppercase(word) == "CRITICAL"@,
    ensures
        level_in(text::ascii_uppercase(line)) == Some(Level::Error),
{
    law_word_in_any_case(line, word);
}

/// A line that holds `warn`, in letters of any case, and no word of a graver level
/// is a warning, however long it is and whatever else it holds.
pub proof fn law_warn_word_tells(line: Seq<char>, word: Seq<char>)
    requires
        text::has_infix(line, word),
        text::ascii_uppercase(word) == "WARN"@,
        !text::has_infix(text::ascii_uppercase(line), "ERROR"@),
        !text::has_infix(text::ascii_uppercase(line), "FATAL"@),
        !text::has_infix(text::ascii_uppercase(line), "CRITICAL"@),
    ensures
        level_in(text::ascii_uppercase(line)) == Some(Level::Warn),
{
    law_word_in_any_case(line, word);
}

/// A line that holds `info`, in letters of any case, and no word of a graver level
/// is information, however long it is and whatever else it holds.
pub proof fn law_info_word_tells(line: Seq<char>, word: Seq<char>)
    requires
        text::has_infix(line, word),
        text::ascii_uppercase(word) == "INFO"@,
        !text::has_infix(text::ascii_uppercase(line), "ERROR"@),
        !text::has_infix(text::ascii_uppercase(line), "FATAL"@),
        !text::has_infix(text::ascii_uppercase(line), "CRITICAL"@),
        !text::has_infix(text::ascii_uppercase(line), "WARN"@),
    ensures
        level_in(text::ascii_uppercase(line)) == Some(Level::Info),
{
    law_word_in_any_case(line, word);
}

/// A line that holds `debug`, in letters of any case, and no word of a graver level
/// is for debugging, however long it is and whatever else it holds.
pub proof fn law_debug_word_tells(line: Seq<char>, word: Seq<char>)
    requires
        text::has_infix(line, word),
        text::ascii_uppercase(word) == "DEBUG"@,
        !text::has_infix(text::ascii_uppercase(line), "ERROR"@),
        !text::has_infix(text::ascii_uppercase(line), "FATAL"@),
        !text::has_infix(text::ascii_uppercase(line), "CRITICAL"@),
        !text::has_infix(text::ascii_uppercase(line), "WARN"@),
        !text::has_infix(text::ascii_uppercase(line), "INFO"@),
    ensures
        level_in(text::ascii_uppercase(line)) == Some(Level::Debug),
{
    law_word_in_any_case(line, word);
}

/// A line that holds `trace`, in letters of any case, and no word of a graver level
/// is part of a trace, however long it is and whatever else it holds.
pub proof fn law_trace_word_tells(line: Seq<char>, word: Seq<char>)
    requires
        text::has_infix(line, word),
        text::ascii_uppercase(word) == "TRACE"@,
        !text::has_infix(text::ascii_uppercase(line), "ERROR"@),
        !text::has_infix(text::ascii_uppercase(line), "FATAL"@),
        !text::has_infix(text::ascii_uppercase(line), "CRITICAL"@),
        !text::has_infix(text::ascii_uppercase(line), "WARN"@),
        !text::has_infix(text::ascii_uppercase(line), "INFO"@),
        !text::has_infix(text::ascii_uppercase(line), "DEBUG"@),
    ensures
        level_in(text::ascii_uppercase(line)) == Some(Level::Trace),
{
    law_word_in_any_case(line, word);
}

/// A line has a level if and only if one of the seven words occurs in it, in upper
/// case.
pub proof fn law_level_is_told_by_words_only(upper: Seq<char>)
    ensures
        level_in(upper) is Some <==> {
            ||| text::has_infix(upper, "ERROR"@)
            ||| text::has_infix(upper, "FATAL"@)
            ||| text::has_infix(upper, "CRITICAL"@)
            ||| text::has_infix(upper, "WARN"@)
            ||| text::has_infix(upper, "INFO"@)
            ||| text::has_infix(upper, "DEBUG"@)
            ||| text::has_infix(upper, "TRACE"@)
        },
{
}

/// The words of its level and of no graver one occur in a line that has a level.
pub proof fn law_level_is_the_gravest_that_is_told(upper: Seq<char>)
    ensures
        level_in(upper) == Some(Level::Error) <==> text::has_infix(upper, "ERROR"@)
            || text::has_infix(upper, "FATAL"@) || text::has_infix(upper, "CRITICAL"@),
        level_in(upper) == Some(Level::Warn) ==> text::has_infix(upper, "WARN"@),
        level_in(upper) == Some(Level::Info) ==> text::has_infix(upper, "INFO"@)
            && !text::has_infix(upper, "WARN"@),
        level_in(upper) == Some(Level::Debug) ==> text::has_infix(upper, "DEBUG"@)
            && !text::has_infix(upper, "INFO"@) && !text::has_infix(upper, "WARN"@),
        level_in(upper) == Some(Level::Trace) ==> text::has_infix(upper, "TRACE"@)
            && !text::has_infix(upper, "DEBUG"@) && !text::has_infix(upper, "INFO"@)
            && !text::has_infix(upper, "WARN"@),
{
}

/// Text around a line takes no level away: at most a graver one comes of it.
pub proof fn law_more_text_keeps_the_level(before: Seq<char>, upper: Seq<char>, after: Seq<char>)
    ensures
        level_in(upper) is Some ==> level_in(before + upper + after) is Some,
        level_in(upper) == Some(Level::Error) ==> level_in(before + upper + after) == Some(
            Level::Error,
        ),
        level_in(upper) == Some(Level::Warn) ==> level_in(before + upper + after) == Some(
            Level::Warn,
        ) || level_in(before + upper + after) == Some(Level::Error),
        level_in(before + upper + after) is None ==> level_in(upper) is None,
{
    let whole = before + upper + after;
    assert forall|word: Seq<char>| #[trigger] text::has_infix(upper, word) implies text::has_infix(
        whole,
        word,
    ) by {
        let at = choose|at: int| text::infix_at(upper, word, at);
        let moved = before.len() + at;
        assert(whole.subrange(moved, moved + word.len()) =~= upper.subrange(at, at + word.len()));
        assert(text::infix_at(whole, word, moved));
    }
}

/// The words that tell a level, letter by letter.
pub proof fn law_words_are_spelled_out()
    ensures
        "ERROR"@ == seq!['E', 'R', 'R', 'O', 'R'],
        "FATAL"@ == seq!['F', 'A', 'T', 'A', 'L'],
        "CRITICAL"@ == seq!['C', 'R', 'I', 'T', 'I', 'C', 'A', 'L'],
        "WARN"@ == seq!['W', 'A', 'R', 'N'],
        "INFO"@ == seq!['I', 'N', 'F', 'O'],
        "DEBUG"@ == seq!['D', 'E', 'B', 'U', 'G'],
        "TRACE"@ == seq!['T', 'R', 'A', 'C', 'E'],
{
    reveal_strlit("ERROR");
    reveal_strlit("FATAL");
    reveal_strlit("CRITICAL");
    reveal_strlit("WARN");
    reveal_strlit("INFO");
    reveal_strlit("DEBUG");
    reveal_strlit("TRACE");
}

/// Errors are bold red, warnings yellow, information green, debugging cyan and
/// traces dimmed, in the numbers of the terminal.
pub proof fn law_colors_of_levels()
    ensures
        style_of_level(Level::Error).code() == seq!['1', ';', '3', '1'],
        style_of_level(Level::Warn).code() == seq!['3', '3'],
        style_of_level(Level::Info).code() == seq!['3', '2'],
        style_of_level(Level::Debug).code() == seq!['3', '6'],
        style_of_level(Level::Trace).code() == seq!['2'],
{
    style::law_styles_are_those_of_the_terminal(style_of_level(Level::Error));
    style::law_styles_are_those_of_the_terminal(style_of_level(Level::Warn));
    style::law_styles_are_those_of_the_terminal(style_of_level(Level::Info));
    style::law_styles_are_those_of_the_terminal(style_of_level(Level::Debug));
    style::law_styles_are_those_of_the_terminal(style_of_level(Level::Trace));
}

/// Prefixes are in bold and go through cyan, magenta, blue, bright yellow and bright
/// green, in the numbers of the terminal.
pub proof fn law_colors_of_prefixes(idx: nat)
    ensures
        idx % 5 == 0 ==> prefix_style_at(idx).code() == seq!['1', ';', '3', '6'],
        idx % 5 == 1 ==> prefix_style_at(idx).code() == seq!['1', ';', '3', '5'],
        idx % 5 == 2 ==> prefix_style_at(idx).code() == seq!['1', ';', '3', '4'],
        idx % 5 == 3 ==> prefix_style_at(idx).code() == seq!['1', ';', '9', '3'],
        idx % 5 == 4 ==> prefix_style_at(idx).code() == seq!['1', ';', '9', '2'],
{
    style::law_styles_are_those_of_the_terminal(prefix_style_at(idx));
}

/// A line without a level comes out as it is. One with a level comes out whole: as
/// it is, or between the sequences of the style of its level.
pub proof fn law_content_comes_out_whole(out: Seq<char>, level: Option<Level>, line: Seq<char>)
    requires
        shown_at_level(out, level, line),
        !line.contains('\x1b'),
    ensures
        level is None ==> out == line,
        level matches Some(level) ==> style::shown_as(style_of_level(level), line, out) && (out
            == line || out == seq!['\x1b', '['] + style_of_level(level).code() + seq!['m'] + line
            + seq!['\x1b', '[', '0', 'm']),
{
    if let Some(level) = level {
        ansi::law_shown_text_is_whole(style_of_level(level), line, out);
    }
}

/// A line without a level comes out as it is; for one with a level the call for the
/// style of its level is made, and its result comes out.
pub proof fn law_level_decides_how_a_line_comes_out(
    out: Seq<char>,
    level: Option<Level>,
    line: Seq<char>,
)
    ensures
        shown_at_level(out, None, line) <==> out == line,
        shows_level(out, None, line) <==> out == line,
        level matches Some(level) ==> (shown_at_level(out, Some(level), line) ==> style::shown_as(
            style_of_level(level),
            line,
            out,
        )),
        level matches Some(level) ==> (shows_level(out, Some(level), line) ==> out
            == style::rendered(true, style_of_level(level).code(), line) || out == line),
{
}

/// A line that has a level is shown, and painted if styles are on; one that has
/// none is not.
pub proof fn law_lines_with_a_level_are_shown(
    shown: Option<Shown>,
    level: Option<Level>,
    line: Seq<char>,
)
    requires
        is_shown_as(shown, level, line),
    ensures
        shown is Some <==> level is Some,
        shown matches Some(shown) ==> (level matches Some(level) ==> {
            &&& !shown.on ==> shown.out@ == line
            &&& shown.on && !line.contains('\x1b') ==> shown.out@ == seq!['\x1b', '[']
                + style_of_level(level).code() + seq!['m'] + line + seq!['\x1b', '[', '0', 'm']
        }),
{
    if let Some(level) = level {
        ansi::law_style_wraps_the_whole_text(style_of_level(level).code(), line);
    }
}

} // verus!
