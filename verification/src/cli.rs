//! The command line: which directory to watch and which names to match.

use vstd::prelude::*;

verus! {

/// The arguments of the program. Directory and pattern can each be given by
/// position or by a named flag.
#[derive(Debug)]
pub struct Cli {
    /// Directory to watch, by position.
    pub dir_pos: Option<String>,
    /// Pattern for the names, by position. It counts only after a directory.
    pub pattern_pos: Option<String>,
    /// Directory to watch, by flag.
    pub dir_flag: Option<String>,
    /// Pattern for the names, by flag.
    pub pattern_flag: Option<String>,
}

impl Cli {
    /// The directory that the arguments ask for: the flag before the position,
    /// and the current directory if there is neither.
    pub open spec fn chosen_dir(&self) -> Seq<char> {
        match (self.dir_flag, self.dir_pos) {
            (Some(dir), _) => dir@,
            (None, Some(dir)) => dir@,
            (None, None) => "."@,
        }
    }

    /// The pattern that the arguments ask for: the flag before the position, a
    /// pattern by position only beside a directory by position, and every name
    /// if there is neither.
    pub open spec fn chosen_pattern(&self) -> Seq<char> {
        match (self.pattern_flag, self.dir_pos, self.pattern_pos) {
            (Some(pattern), _, _) => pattern@,
            (None, Some(_), Some(pattern)) => pattern@,
            _ => "*"@,
        }
    }

    /// Finds the directory to watch.
    pub fn resolve_dir(&self) -> (dir: String)
        ensures
            dir@ == self.chosen_dir(),
    {
        if let Some(dir) = &self.dir_flag {
            dir.clone()
        } else if let Some(dir) = &self.dir_pos {
            dir.clone()
        } else {
            ".".to_string()
        }
    }

    /// Finds the pattern that names have to match.
    pub fn resolve_pattern(&self) -> (pattern: String)
        ensures
            pattern@ == self.chosen_pattern(),
    {
        if let Some(pattern) = &self.pattern_flag {
            return pattern.clone();
        }
        if self.dir_pos.is_some() {
            if let Some(pattern) = &self.pattern_pos {
                return pattern.clone();
            }
        }
        "*".to_string()
    }
}

/// A flag wins over what is given by position.
pub proof fn law_flags_win(cli: Cli)
    ensures
        cli.dir_flag matches Some(dir) ==> cli.chosen_dir() == dir@,
        cli.pattern_flag matches Some(pattern) ==> cli.chosen_pattern() == pattern@,
{
}

/// A pattern by position without a directory by position does not count.
pub proof fn law_lone_pattern_is_ignored(cli: Cli)
    requires
        cli.dir_pos is None,
    ensures
        cli.chosen_pattern() == (Cli { pattern_pos: None, ..cli }).chosen_pattern(),
{
}

/// The directory that is watched is the one that was given: by flag, else by
/// position, whatever the patterns are; and the current one if none was given.
pub proof fn law_given_directory_is_watched(cli: Cli)
    ensures
        cli.dir_flag matches Some(dir) ==> cli.chosen_dir() == dir@,
        cli.dir_flag is None ==> (cli.dir_pos matches Some(dir) ==> cli.chosen_dir() == dir@),
        cli.dir_flag is None && cli.dir_pos is None ==> cli.chosen_dir() == seq!['.'],
{
    reveal_strlit(".");
}

/// Which directory is watched does not hang on the patterns that are given.
pub proof fn law_directory_ignores_patterns(a: Cli, b: Cli)
    requires
        a.dir_flag == b.dir_flag,
        a.dir_pos == b.dir_pos,
    ensures
        a.chosen_dir() == b.chosen_dir(),
{
}

/// The pattern that counts is the one that was given: by flag, else by position
/// after a directory; and `*` if there is none of the kind.
pub proof fn law_given_pattern_counts(cli: Cli)
    ensures
        cli.pattern_flag matches Some(pattern) ==> cli.chosen_pattern() == pattern@,
        cli.pattern_flag is None && cli.dir_pos is Some ==> (cli.pattern_pos matches Some(pattern)
            ==> cli.chosen_pattern() == pattern@),
        cli.pattern_flag is None && (cli.dir_pos is None || cli.pattern_pos is None)
            ==> cli.chosen_pattern() == seq!['*'],
{
    reveal_strlit("*");
}

/// Which pattern counts does not hang on what the directories are, only on whether
/// one is given by position.
pub proof fn law_pattern_ignores_directories(a: Cli, b: Cli)
    requires
        a.pattern_flag == b.pattern_flag,
        a.pattern_pos == b.pattern_pos,
        a.dir_pos is Some <==> b.dir_pos is Some,
    ensures
        a.chosen_pattern() == b.chosen_pattern(),
{
}

} // verus!
