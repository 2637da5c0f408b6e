//! Lines on their way from the readers to the printer, and how they are printed.

use crate::ansi;
use crate::color::{self, Level};
use crate::path::FilePath;
use crate::style::{self, ESC};
use crate::text;
use vstd::prelude::*;

verus! {

/// A line of a file.
#[derive(Debug)]
pub struct LogLine {
    /// The file.
    pub path: FilePath,
    /// The line, without its end.
    pub line: String,
    /// The color index of the file.
    pub color_idx: usize,
}

/// What matters of a line on its way.
pub struct LineView {
    /// The bytes of the file's path.
    pub path: Seq<u8>,
    /// The name of the file.
    pub name: Option<Seq<char>>,
    /// The text of the line.
    pub line: Seq<char>,
    /// The color index of the file.
    pub color_idx: usize,
}

impl View for LogLine {
    type V = LineView;

    open spec fn view(&self) -> LineView {
        LineView {
            path: self.path@,
            name: self.path.file_name(),
            line: self.line@,
            color_idx: self.color_idx,
        }
    }
}

/// The name of a file in its prefix; `?` stands for a name that is not Unicode.
pub open spec fn label(name: Option<Seq<char>>) -> Seq<char> {
    match name {
        Some(name) => seq!['['] + name + seq![']'],
        None => seq!['[', '?', ']'],
    }
}

/// `out` is the printed form of `message`, put together from the colored label
/// `prefix` and the line `content` in the color of `level`.
pub open spec fn printed_from(
    out: Seq<char>,
    prefix: Seq<char>,
    content: Seq<char>,
    message: LineView,
    level: Option<Level>,
) -> bool {
    &&& out == prefix + seq![' '] + content
    &&& style::shows(
        prefix,
        color::prefix_style_at(message.color_idx as nat).code(),
        label(message.name),
    )
    &&& style::shown_as(
        color::prefix_style_at(message.color_idx as nat),
        label(message.name),
        prefix,
    )
    &&& color::shows_level(content, level, message.line)
    &&& color::shown_at_level(content, level, message.line)
}

/// `out` is the printed form of `message`, a line of the given level.
pub open spec fn prints(out: Seq<char>, message: LineView, level: Option<Level>) -> bool {
    exists|prefix: Seq<char>, content: Seq<char>|
        printed_from(out, prefix, content, message, level)
}

/// The label of a file, in brackets.
pub fn file_label(path: &FilePath) -> (text: String)
    ensures
        text@ == label(path.file_name()),
{
    proof {
        reveal_strlit("[");
        reveal_strlit("]");
        reveal_strlit("[?]");
    }
    match path.name() {
        Some(name) => {
            let mut text: String = "[".to_string();
            text.append(name);
            text.append("]");
            assert(text@ =~= seq!['['] + name@ + seq![']']);
            text
        },
        None => {
            let text: String = "[?]".to_string();
            assert(text@ =~= seq!['[', '?', ']']);
            text
        },
    }
}

/// Puts a colored prefix and a colored line together.
pub fn join_line(prefix: &str, content: &str) -> (out: String)
    ensures
        out@ == prefix@ + seq![' '] + content@,
{
    proof {
        reveal_strlit(" ");
    }
    let mut out: String = prefix.to_string();
    out.append(" ");
    out.append(content);
    assert(out@ =~= prefix@ + seq![' '] + content@);
    out
}

/// The line to print for `message`: the file's name in its color, and the line in
/// the color of its level.
pub fn render_line(message: &LogLine) -> (out: String)
    ensures
        prints(out@, message@, color::level_in(text::uppercase(message.line@))),
        vstd::utf8::is_ascii_chars(message.line@) ==> prints(
            out@,
            message@,
            color::level_in(text::ascii_uppercase(message.line@)),
        ),
{
    let label: String = file_label(&message.path);
    let prefix: String = color::color_prefix(label.as_str(), message.color_idx);
    let content: String = color::colorize_content(message.line.as_str());
    let out: String = join_line(prefix.as_str(), content.as_str());
    proof {
        let level = color::level_in(text::uppercase(message.line@));
        assert(printed_from(out@, prefix@, content@, message@, level));
        if vstd::utf8::is_ascii_chars(message.line@) {
            let level = color::level_in(text::ascii_uppercase(message.line@));
            assert(printed_from(out@, prefix@, content@, message@, level));
        }
    }
    out
}

/// A printed line keeps its text: without escape sequences there stand the name in
/// brackets, a space and what the line itself has left.
pub proof fn law_printed_line_keeps_text(out: Seq<char>, message: LineView, level: Option<Level>)
    requires
        prints(out, message, level),
        !label(message.name).contains(ESC),
    ensures
        ansi::stripped(out) == label(message.name) + seq![' '] + ansi::stripped(message.line),
{
    let (prefix, content) = choose|prefix: Seq<char>, content: Seq<char>|
        printed_from(out, prefix, content, message, level);
    let code = color::prefix_style_at(message.color_idx as nat).code();
    style::law_codes_are_plain(color::prefix_style_at(message.color_idx as nat));
    assert(out =~= prefix + (seq![' '] + content));
    ansi::law_style_ends_with_its_text(prefix, code, label(message.name), seq![' '] + content);
    ansi::law_plain_text_stays(seq![' '], content);
    color::law_content_keeps_text(content, level, message.line);
    assert(ansi::stripped(out) =~= label(message.name) + seq![' '] + ansi::stripped(message.line));
}

/// Each file can be told by its prefix: those of two files come out alike if and
/// only if the labels are the same and, where styles are on, the color indices leave
/// the same remainder by five. The labels of two different names are different.
pub proof fn law_prefix_tells_files_apart(
    on: bool,
    name_a: Option<Seq<char>>,
    idx_a: nat,
    name_b: Option<Seq<char>>,
    idx_b: nat,
)
    ensures
        style::rendered(on, color::prefix_style_at(idx_a).code(), label(name_a))
            == style::rendered(on, color::prefix_style_at(idx_b).code(), label(name_b)) <==> label(
            name_a,
        ) == label(name_b) && (on ==> idx_a % (color::PREFIX_COLORS as nat) == idx_b % (
        color::PREFIX_COLORS as nat)),
        name_a is Some && name_b is Some && name_a != name_b ==> label(name_a) != label(name_b),
{
    let (style_a, style_b) = (color::prefix_style_at(idx_a), color::prefix_style_at(idx_b));
    style::law_codes_are_plain(style_a);
    style::law_codes_are_plain(style_b);
    style::law_shown_alike_only_if_alike(
        on,
        style_a.code(),
        label(name_a),
        style_b.code(),
        label(name_b),
    );
    if style_a != style_b {
        style::law_styles_look_different(style_a, style_b, label(name_a));
    }
    if let (Some(a), Some(b)) = (name_a, name_b) {
        if label(name_a) == label(name_b) {
            assert(a =~= label(name_a).subrange(1, label(name_a).len() - 1));
            assert(b =~= label(name_b).subrange(1, label(name_b).len() - 1));
        }
    }
}

/// Whether or not each is in color, the prefixes of files whose labels differ look
/// different, where no `ESC` is in a label.
pub proof fn law_labels_look_different(
    prefix_a: Seq<char>,
    name_a: Option<Seq<char>>,
    idx_a: nat,
    prefix_b: Seq<char>,
    name_b: Option<Seq<char>>,
    idx_b: nat,
)
    requires
        style::shows(prefix_a, color::prefix_style_at(idx_a).code(), label(name_a)),
        style::shows(prefix_b, color::prefix_style_at(idx_b).code(), label(name_b)),
        !label(name_a).contains(ESC),
        !label(name_b).contains(ESC),
        label(name_a) != label(name_b),
    ensures
        prefix_a != prefix_b,
{
    let (style_a, style_b) = (color::prefix_style_at(idx_a), color::prefix_style_at(idx_b));
    style::law_codes_are_plain(style_a);
    style::law_codes_are_plain(style_b);
    ansi::law_plain_texts_look_different(
        prefix_a,
        style_a.code(),
        label(name_a),
        prefix_b,
        style_b.code(),
        label(name_b),
    );
}

/// A line on its way is its file, its name, its text and its color, and all of each.
pub proof fn law_line_is_seen_whole(message: LogLine)
    ensures
        message@.path == message.path@,
        message@.name == message.path.file_name(),
        message@.line == message.line@,
        message@.color_idx == message.color_idx,
{
}

/// The label is the whole name in brackets, and a question mark for a name that is
/// not Unicode.
pub proof fn law_label_is_the_whole_name(name: Option<Seq<char>>)
    ensures
        name matches Some(name) ==> {
            let text = label(Some(name));
            &&& text.len() == name.len() + 2
            &&& text[0] == '['
            &&& text.last() == ']'
            &&& forall|i: int| 0 <= i < name.len() ==> #[trigger] name[i] == text[i + 1]
        },
        label(None) == seq!['[', '?', ']'],
{
}

/// A printed line is the label of its file, as the call for the color of the file
/// gave it, a space, and the line: as it is if it has no level, else as the call for
/// the style of its level gave it.
pub proof fn law_printed_line_is_prefix_and_content(
    out: Seq<char>,
    message: LineView,
    level: Option<Level>,
)
    requires
        prints(out, message, level),
    ensures
        exists|prefix: Seq<char>, content: Seq<char>|
            #![trigger prefix + seq![' '] + content]
            {
                &&& out == prefix + seq![' '] + content
                &&& style::shown_as(
                    color::prefix_style_at(message.color_idx as nat),
                    label(message.name),
                    prefix,
                )
                &&& level is None ==> content == message.line
                &&& level matches Some(level) ==> style::shown_as(
                    color::style_of_level(level),
                    message.line,
                    content,
                )
            },
{
    let (prefix, content) = choose|prefix: Seq<char>, content: Seq<char>|
        printed_from(out, prefix, content, message, level);
    assert(out == prefix + seq![' '] + content);
}

/// Where neither name nor line holds an escape sequence, both are printed whole: the
/// line ends with the text or with the text and a reset.
pub proof fn law_line_is_printed_whole(out: Seq<char>, message: LineView, level: Option<Level>)
    requires
        prints(out, message, level),
        !label(message.name).contains('\x1b'),
        !message.line.contains('\x1b'),
    ensures
        ansi::stripped(out) == label(message.name) + seq![' '] + message.line,
        level is None ==> out.len() >= message.line.len() && out.skip(
            out.len() - message.line.len(),
        ) == message.line,
{
    law_printed_line_keeps_text(out, message, level);
    ansi::law_plain_text_stays(message.line, Seq::empty());
    if level is None {
        let (prefix, content) = choose|prefix: Seq<char>, content: Seq<char>|
            printed_from(out, prefix, content, message, level);
        assert(out.skip(out.len() - message.line.len()) =~= message.line);
    }
}

} // verus!
