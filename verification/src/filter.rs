//! Which file names to tail.

use crate::cli::Cli;
use crate::path::FilePath;
use vstd::prelude::*;

verus! {

/// A text without a backslash, which separates path components on some platforms
/// and not on others. The slash does so on each that this crate is built for.
pub open spec fn portable(text: Seq<char>) -> bool {
    !text.contains('\\')
}

/// What is wrong with a pattern, in the words of `glob::Pattern::new`; nothing if
/// it compiles. `backslash` says whether a backslash separates path components.
pub uninterp spec fn pattern_fault(backslash: bool, pattern: Seq<char>) -> Option<Seq<char>>;

/// Whether a pattern compiles and `glob::Pattern::matches` then accepts a name.
/// `backslash` says whether a backslash separates path components, and `alike`
/// whether a slash in a pattern stands for it too.
pub uninterp spec fn pattern_matches(
    backslash: bool,
    alike: bool,
    pattern: Seq<char>,
    name: Seq<char>,
) -> bool;

/// Calls `glob::Pattern::new`, and `std::path::is_separator` on the backslash, which
/// is all of the platform that the former looks at. Claims that what it says of a
/// pattern depends on the pattern and on that alone, and on the pattern alone where
/// no backslash is in it; that it gives an error text only for a pattern that does
/// not compile; and that the pattern `*` compiles.
#[verifier::external_body]
fn check_pattern(pattern: &str) -> (checked: (bool, Result<(), String>))
    ensures
        match checked.1 {
            Ok(_) => pattern_fault(checked.0, pattern@) is None,
            Err(message) => pattern_fault(checked.0, pattern@) == Some(message@),
        },
        portable(pattern@) ==> match checked.1 {
            Ok(_) => pattern_fault(!checked.0, pattern@) is None,
            Err(message) => pattern_fault(!checked.0, pattern@) == Some(message@),
        },
        pattern@ == "*"@ ==> checked.1 is Ok,
{
    let backslash: bool = std::path::is_separator('\\');
    match glob::Pattern::new(pattern) {
        Ok(_) => (backslash, Ok(())),
        Err(error) => (backslash, Err(error.to_string())),
    }
}

/// Calls `glob::Pattern::new` and, if the pattern compiles, its `matches` on the
/// name; beside that `std::path::is_separator` on the backslash, and `matches` of
/// the pattern `/` on it, which are all of the platform that the result rests on.
/// Claims that the result depends on pattern, name and those two alone, and on
/// pattern and name alone where neither holds a backslash; that a slash stands for a
/// backslash only where both separate; and that the pattern `*` matches every name.
#[verifier::external_body]
fn match_pattern(pattern: &str, name: &str) -> (matched: (bool, bool, bool))
    ensures
        matched.1 ==> matched.0,
        matched.2 == pattern_matches(matched.0, matched.1, pattern@, name@),
        portable(pattern@) && portable(name@) ==> {
            &&& matched.2 == pattern_matches(false, false, pattern@, name@)
            &&& matched.2 == pattern_matches(true, false, pattern@, name@)
            &&& matched.2 == pattern_matches(true, true, pattern@, name@)
        },
        pattern@ == "*"@ ==> matched.2,
{
    let backslash: bool = std::path::is_separator('\\');
    let alike: bool = match glob::Pattern::new("/") {
        Ok(slash) => slash.matches("\\"),
        Err(_) => false,
    };
    match glob::Pattern::new(pattern) {
        Ok(compiled) => (backslash, alike, compiled.matches(name)),
        Err(_) => (backslash, alike, false),
    }
}

/// `accepted` is what the pattern says of the name on some kind of platform: where
/// the slash alone separates, where the backslash does too, or where it does and a
/// slash in a pattern stands for it.
pub open spec fn said_somewhere(pattern: Seq<char>, name: Seq<char>, accepted: bool) -> bool {
    ||| accepted == pattern_matches(false, false, pattern, name)
    ||| accepted == pattern_matches(true, false, pattern, name)
    ||| accepted == pattern_matches(true, true, pattern, name)
}

/// `accepted` is what the pattern says of the name on every kind of platform.
pub open spec fn said_everywhere(pattern: Seq<char>, name: Seq<char>, accepted: bool) -> bool {
    &&& accepted == pattern_matches(false, false, pattern, name)
    &&& accepted == pattern_matches(true, false, pattern, name)
    &&& accepted == pattern_matches(true, true, pattern, name)
}

/// A pattern that does not compile.
#[derive(Debug)]
pub struct PatternError {
    /// What is wrong with it.
    pub message: String,
}

/// A glob pattern that file names are held against.
#[derive(Debug)]
pub struct NameFilter {
    pattern: String,
}

impl View for NameFilter {
    type V = Seq<char>;

    /// The pattern.
    closed spec fn view(&self) -> Seq<char> {
        self.pattern@
    }
}

impl NameFilter {
    /// `filter` is an outcome for `pattern` on a platform of the given kind: a
    /// filter if the pattern compiles, else what is wrong with it.
    pub open spec fn comes_from(
        filter: Result<NameFilter, PatternError>,
        backslash: bool,
        pattern: Seq<char>,
    ) -> bool {
        match filter {
            Ok(filter) => filter@ == pattern && pattern_fault(backslash, pattern) is None,
            Err(error) => pattern_fault(backslash, pattern) == Some(error.message@),
        }
    }

    /// Makes the filter for `pattern`, or says why the pattern does not compile. On
    /// which kind of platform that is matters only if a backslash is in it.
    pub fn new(pattern: &str) -> (filter: Result<NameFilter, PatternError>)
        ensures
            Self::comes_from(filter, false, pattern@) || Self::comes_from(filter, true, pattern@),
            portable(pattern@) ==> Self::comes_from(filter, false, pattern@) && Self::comes_from(
                filter,
                true,
                pattern@,
            ),
            pattern@ == "*"@ ==> filter is Ok,
    {
        match check_pattern(pattern).1 {
            Ok(_) => Ok(NameFilter { pattern: pattern.to_string() }),
            Err(message) => Err(PatternError { message }),
        }
    }

    /// `accepted` is an answer that the filter can give for a file whose name is
    /// `name`: no to a file without a Unicode name, else what the pattern says of
    /// the name on some kind of platform, and on each where no backslash is there.
    pub open spec fn answers(&self, name: Option<Seq<char>>, accepted: bool) -> bool {
        match name {
            None => !accepted,
            Some(name) => {
                &&& said_somewhere(self@, name, accepted)
                &&& portable(self@) && portable(name) ==> said_everywhere(self@, name, accepted)
                &&& self@ == "*"@ ==> accepted
            },
        }
    }

    /// Whether the file at `path` is one to tail, going by its name.
    pub fn accepts(&self, path: &FilePath) -> (accepted: bool)
        ensures
            self.answers(path.file_name(), accepted),
    {
        match path.name() {
            Some(name) => match_pattern(self.pattern.as_str(), name).2,
            None => false,
        }
    }
}

/// Without a pattern among the arguments that counts, every file with a Unicode name
/// is tailed. A pattern by position counts only beside a directory by position.
pub proof fn law_no_pattern_means_every_name(
    cli: Cli,
    filter: NameFilter,
    name: Seq<char>,
    accepted: bool,
)
    requires
        cli.pattern_flag is None,
        cli.pattern_pos is None || cli.dir_pos is None,
        filter@ == cli.chosen_pattern(),
        filter.answers(Some(name), accepted),
    ensures
        accepted,
{
}

/// A filter keeps the pattern that it was made for; and whether one is made, or what
/// is said against the pattern, is what `glob` finds on one kind of platform, and on
/// both if no backslash is in the pattern.
pub proof fn law_glob_decides_on_patterns(
    filter: Result<NameFilter, PatternError>,
    backslash: bool,
    pattern: Seq<char>,
)
    requires
        NameFilter::comes_from(filter, backslash, pattern),
    ensures
        filter is Ok <==> pattern_fault(backslash, pattern) is None,
        filter matches Ok(made) ==> made@ == pattern,
        filter matches Err(error) ==> pattern_fault(backslash, pattern) == Some(error.message@),
{
}

/// A name is accepted if and only if `glob` matches it to the pattern, whatever it
/// looks like: on each kind of platform if no backslash is in it or in the pattern,
/// else on one. A file without a Unicode name is not accepted.
pub proof fn law_glob_decides_on_names(
    filter: NameFilter,
    name: Option<Seq<char>>,
    accepted: bool,
)
    requires
        filter.answers(name, accepted),
    ensures
        name is None ==> !accepted,
        name matches Some(name) ==> accepted == pattern_matches(false, false, filter@, name)
            || accepted == pattern_matches(true, false, filter@, name) || accepted
            == pattern_matches(true, true, filter@, name),
        name matches Some(name) ==> (!filter@.contains('\\') && !name.contains('\\') ==> accepted
            == pattern_matches(false, false, filter@, name) && accepted == pattern_matches(
            true,
            false,
            filter@,
            name,
        ) && accepted == pattern_matches(true, true, filter@, name)),
        name is Some && filter@ == seq!['*'] ==> accepted,
{
    reveal_strlit("*");
    assert("*"@ =~= seq!['*']);
}

/// Two files of the same name are answered alike by filters of the same pattern, if
/// no backslash is in either.
pub proof fn law_same_pattern_same_answers(
    a: NameFilter,
    b: NameFilter,
    name: Option<Seq<char>>,
    by_a: bool,
    by_b: bool,
)
    requires
        a@ == b@,
        !a@.contains('\\'),
        name matches Some(name) ==> !name.contains('\\'),
        a.answers(name, by_a),
        b.answers(name, by_b),
    ensures
        by_a == by_b,
{
}

/// A text is portable if and only if none of its characters is a backslash.
pub proof fn law_portable_is_without_backslash(text: Seq<char>)
    ensures
        portable(text) <==> forall|i: int| 0 <= i < text.len() ==> #[trigger] text[i] != '\\',
{
    if !portable(text) {
        let i = choose|i: int| 0 <= i < text.len() && text[i] == '\\';
        assert(text[i] == '\\');
    } else {
        assert forall|i: int| 0 <= i < text.len() implies #[trigger] text[i] != '\\' by {
            assert(text.contains(text[i]));
        }
    }
}

} // verus!
