//! What the program says about itself: the banner at the start, and the notice of
//! a new file.

use crate::message;
use crate::style::{self, Style};
use crate::text;
use vstd::prelude::*;

verus! {

/// `out` is what a call for the given style gave for `text`: it is in that style or
/// bare.
pub open spec fn styled(out: Seq<char>, style: Style, text: Seq<char>) -> bool {
    &&& style::shows(out, style.code(), text)
    &&& style::shown_as(style, text, out)
}

/// `out` is `label` followed by `text` in the given style.
pub open spec fn labelled(
    out: Seq<char>,
    label: Seq<char>,
    style: Style,
    text: Seq<char>,
) -> bool {
    &&& label.is_prefix_of(out)
    &&& styled(out.skip(label.len() as int), style, text)
}

/// Puts `label` before a styled text.
fn with_label(label: &str, shown: &str) -> (out: String)
    ensures
        out@ == label@ + shown@,
        out@.skip(label@.len() as int) == shown@,
        label@.is_prefix_of(out@),
{
    let mut out: String = label.to_string();
    out.append(shown);
    assert(out@.skip(label@.len() as int) =~= shown@);
    assert(label@.is_prefix_of(out@));
    out
}

/// The characters of each text.
pub open spec fn texts(lines: Seq<String>) -> Seq<Seq<char>> {
    lines.map_values(|line: String| line@)
}

/// The line that tells how many files there are.
pub open spec fn count_line(n: nat) -> Seq<char> {
    "  Tailing "@ + text::decimal(n) + " existing file(s):"@
}

/// `lines` tell which of the files `existing` are tailed at the start.
pub open spec fn lists_files(lines: Seq<Seq<char>>, existing: Seq<Seq<char>>) -> bool {
    if existing.len() == 0 {
        &&& lines.len() == 1
        &&& labelled(
            lines[0],
            "  "@,
            Style::Yellow,
            "No existing files match. Watching for new files..."@,
        )
    } else {
        &&& lines.len() == existing.len() + 1
        &&& lines[0] == count_line(existing.len())
        &&& forall|i: int|
            0 <= i < existing.len() ==> labelled(
                lines[i + 1],
                "    "@,
                Style::Green,
                #[trigger] existing[i],
            )
    }
}

/// `lines` are the banner for the directory `dir`, the pattern `pattern` and the
/// files `existing`.
pub open spec fn is_banner(
    lines: Seq<Seq<char>>,
    dir: Seq<char>,
    pattern: Seq<char>,
    existing: Seq<Seq<char>>,
) -> bool {
    &&& lines.len() >= 4
    &&& styled(lines[0], Style::Bold, "=== dirtail ==="@)
    &&& labelled(lines[1], "  Dir     : "@, Style::Cyan, dir)
    &&& labelled(lines[2], "  Pattern : "@, Style::Cyan, pattern)
    &&& lists_files(lines.subrange(3, lines.len() - 1), existing)
    &&& styled(lines.last(), Style::Bold, "==============="@)
}

/// Tells which files are tailed at the start.
fn file_list(existing: &Vec<String>) -> (lines: Vec<String>)
    ensures
        lists_files(texts(lines@), texts(existing@)),
{
    let mut lines: Vec<String> = Vec::new();
    if existing.len() == 0 {
        let shown: String = style::paint(
            Style::Yellow,
            "No existing files match. Watching for new files...",
        ).out;
        lines.push(with_label("  ", shown.as_str()));
        return lines;
    }
    let mut count: String = "  Tailing ".to_string();
    count.append(text::to_decimal(existing.len()).as_str());
    count.append(" existing file(s):");
    lines.push(count);
    let mut i: usize = 0;
    while i < existing.len()
        invariant
            i <= existing@.len(),
            lines@.len() == i + 1,
            lines@[0]@ == count_line(existing@.len()),
            forall|j: int|
                0 <= j < i ==> labelled(
                    lines@[j + 1]@,
                    "    "@,
                    Style::Green,
                    #[trigger] existing@[j]@,
                ),
        decreases existing@.len() - i,
    {
        let ghost before = lines@;
        let shown: String = style::paint(Style::Green, existing[i].as_str()).out;
        lines.push(with_label("    ", shown.as_str()));
        assert forall|j: int| 0 <= j < i + 1 implies labelled(
            lines@[j + 1]@,
            "    "@,
            Style::Green,
            #[trigger] existing@[j]@,
        ) by {
            if j < i {
                assert(lines@[j + 1] == before[j + 1]);
            }
        }
        i += 1;
    }
    proof {
        let all = texts(lines@);
        let files = texts(existing@);
        assert forall|j: int| 0 <= j < files.len() implies labelled(
            all[j + 1],
            "    "@,
            Style::Green,
            #[trigger] files[j],
        ) by {
            assert(files[j] == existing@[j]@);
        }
    }
    lines
}

/// The banner that is printed at the start, line by line.
pub fn banner(dir: &str, pattern: &str, existing: &Vec<String>) -> (lines: Vec<String>)
    ensures
        is_banner(texts(lines@), dir@, pattern@, texts(existing@)),
{
    let mut lines: Vec<String> = Vec::new();
    lines.push(style::paint(Style::Bold, "=== dirtail ===").out);
    let shown_dir: String = style::paint(Style::Cyan, dir).out;
    lines.push(with_label("  Dir     : ", shown_dir.as_str()));
    let shown_pattern: String = style::paint(Style::Cyan, pattern).out;
    lines.push(with_label("  Pattern : ", shown_pattern.as_str()));
    let mut list: Vec<String> = file_list(existing);
    let ghost listed = texts(list@);
    let ghost head = lines@;
    lines.append(&mut list);
    lines.push(style::paint(Style::Bold, "===============").out);
    proof {
        let all = texts(lines@);
        assert(all.subrange(3, all.len() - 1) =~= listed);
        assert(all[0] == head[0]@ && all[1] == head[1]@ && all[2] == head[2]@);
    }
    lines
}

/// `out` announces the new file at `path`, put together from the styled texts
/// `head` and `shown`.
pub open spec fn announced_from(
    out: Seq<char>,
    head: Seq<char>,
    shown: Seq<char>,
    path: Seq<char>,
) -> bool {
    &&& out == head + seq![' '] + shown
    &&& styled(head, Style::Bold, "[dirtail] new file:"@)
    &&& styled(shown, Style::Green, path)
}

/// The notice that a new file is tailed; `path` is its path as it is shown.
pub fn new_file_notice(path: &str) -> (out: String)
    ensures
        exists|head: Seq<char>, shown: Seq<char>| announced_from(out@, head, shown, path@),
{
    let head: String = style::paint(Style::Bold, "[dirtail] new file:").out;
    let shown: String = style::paint(Style::Green, path).out;
    let out: String = message::join_line(head.as_str(), shown.as_str());
    assert(announced_from(out@, head@, shown@, path@));
    out
}

/// The banner has a head, the directory, the pattern, the files and a foot. Each text
/// is whole, as the call for its style gave it; files are counted and each is on a
/// line of its own, in order.
pub proof fn law_banner_tells_everything(
    lines: Seq<String>,
    dir: Seq<char>,
    pattern: Seq<char>,
    existing: Seq<String>,
)
    requires
        is_banner(texts(lines), dir, pattern, texts(existing)),
    ensures
        lines.len() == 5 + existing.len(),
        style::shown_as(Style::Bold, "=== dirtail ==="@, lines[0]@),
        "  Dir     : "@.is_prefix_of(lines[1]@),
        style::shown_as(Style::Cyan, dir, lines[1]@.skip("  Dir     : "@.len() as int)),
        "  Pattern : "@.is_prefix_of(lines[2]@),
        style::shown_as(Style::Cyan, pattern, lines[2]@.skip("  Pattern : "@.len() as int)),
        existing.len() == 0 ==> {
            &&& "  "@.is_prefix_of(lines[3]@)
            &&& style::shown_as(
                Style::Yellow,
                "No existing files match. Watching for new files..."@,
                lines[3]@.skip("  "@.len() as int),
            )
        },
        existing.len() > 0 ==> lines[3]@ == "  Tailing "@ + text::decimal(existing.len())
            + " existing file(s):"@,
        forall|j: int|
            4 <= j < 4 + existing.len() ==> "    "@.is_prefix_of(#[trigger] lines[j]@),
        forall|i: int|
            0 <= i < existing.len() ==> style::shown_as(
                Style::Green,
                #[trigger] existing[i]@,
                lines[i + 4]@.skip("    "@.len() as int),
            ),
        style::shown_as(Style::Bold, "==============="@, lines.last()@),
{
    let all = texts(lines);
    let files = texts(existing);
    let listed = all.subrange(3, all.len() - 1);
    assert(listed[0] == lines[3]@);
    assert forall|i: int| 0 <= i < existing.len() implies labelled(
        lines[i + 4]@,
        "    "@,
        Style::Green,
        #[trigger] existing[i]@,
    ) by {
        assert(files[i] == existing[i]@);
        assert(listed[i + 1] == lines[i + 4]@);
    }
    assert forall|j: int| 4 <= j < 4 + existing.len() implies "    "@.is_prefix_of(
        #[trigger] lines[j]@,
    ) by {
        let file = existing[j - 4]@;
        assert(labelled(lines[j]@, "    "@, Style::Green, file));
    }
}

/// The notice of a new file is its head, a space and the whole path, as the calls for
/// their styles gave them.
pub proof fn law_notice_tells_the_path(
    out: Seq<char>,
    head: Seq<char>,
    shown: Seq<char>,
    path: Seq<char>,
)
    requires
        announced_from(out, head, shown, path),
    ensures
        out == head + seq![' '] + shown,
        style::shown_as(Style::Bold, "[dirtail] new file:"@, head),
        style::shown_as(Style::Green, path, shown),
{
}

} // verus!
