//! Reduction of a tool's `--help` output to one displayable line.
use vstd::prelude::*;
use crate::text::{decode_lossy, lines_of, lossy_of, split_lines, trim, trim_of, views_of};

verus! {

/// Whether a line is a name followed by a three-part version number, as
/// the pattern `^\S+\s+(\d+\.\d+\.\d+)$` of the `regex` crate decides.
pub uninterp spec fn version_banner(line: Seq<char>) -> bool;

/// Relies on `regex::Regex::new`, which accepts this pattern, and on
/// `regex::Regex::is_match`: whether the line matches it.
#[verifier::external_body]
fn is_version_banner(line: &str) -> (r: bool)
    ensures
        r == version_banner(line@),
{
    regex::Regex::new(r"^\S+\s+(\d+\.\d+\.\d+)$").unwrap().is_match(line)
}

/// The outcome of summarizing one tool's help output.
pub enum Summary {
    /// A line taken from the help output.
    Extracted(String),
    /// The tool could not be launched or did not exit successfully.
    NoHelp,
    /// The tool succeeded but its output held no usable line.
    Unparsable,
}

pub open spec fn no_help_text() -> Seq<char> {
    "no command help available"@
}

pub open spec fn unparsable_text() -> Seq<char> {
    "could not parse the help string"@
}

/// The line a set of trimmed help lines yields, if any: the first line,
/// or, where the first line is a version banner, the third line when it
/// is longer than two characters.
pub open spec fn picked_line(lines: Seq<Seq<char>>, banner: bool) -> Option<Seq<char>> {
    if lines.len() == 0 {
        None
    } else if !banner {
        Some(lines[0])
    } else if lines.len() > 2 && lines[2].len() > 2 {
        Some(lines[2])
    } else {
        None
    }
}

/// The trimmed lines of a tool's standard output.
pub open spec fn help_lines(out: Seq<u8>) -> Seq<Seq<char>> {
    lines_of(lossy_of(out)).map_values(|l: Seq<char>| trim_of(l))
}

/// Whether the first of a set of lines is a version banner.
pub open spec fn starts_with_banner(lines: Seq<Seq<char>>) -> bool {
    lines.len() > 0 && version_banner(lines[0])
}

impl Summary {
    /// The extracted line, if this is one.
    pub open spec fn extracted(&self) -> Option<Seq<char>> {
        match self {
            Summary::Extracted(t) => Some(t@),
            _ => None,
        }
    }

    /// The text a summary is displayed as.
    pub open spec fn spec_text(&self) -> Seq<char> {
        match self {
            Summary::Extracted(t) => t@,
            Summary::NoHelp => no_help_text(),
            Summary::Unparsable => unparsable_text(),
        }
    }

    /// The text this summary is displayed as.
    pub fn text(&self) -> (r: String)
        ensures
            r@ == self.spec_text(),
    {
        proof {
            reveal_strlit("no command help available");
            reveal_strlit("could not parse the help string");
        }
        match self {
            Summary::Extracted(t) => t.clone(),
            Summary::NoHelp => String::from_str("no command help available"),
            Summary::Unparsable => String::from_str("could not parse the help string"),
        }
    }
}

/// Picks the summary from a tool's trimmed help lines, given whether the
/// first line is a version banner.
pub fn choose_summary(lines: &Vec<String>, banner: bool) -> (r: Summary)
    ensures
        !(r is NoHelp),
        r.extracted() == picked_line(views_of(lines@), banner),
{
    if lines.len() == 0 {
        Summary::Unparsable
    } else if !banner {
        Summary::Extracted(lines[0].clone())
    } else if lines.len() > 2 && lines[2].as_str().unicode_len() > 2 {
        Summary::Extracted(lines[2].clone())
    } else {
        Summary::Unparsable
    }
}

/// Summarizes a tool's `--help` run from whether it succeeded and what it
/// wrote to standard output. A run that could not be launched counts as
/// one that did not succeed.
pub fn summarize_output(success: bool, stdout: &Vec<u8>) -> (r: Summary)
    ensures
        !success ==> r is NoHelp,
        success ==> !(r is NoHelp) && r.extracted() == picked_line(
            help_lines(stdout@),
            starts_with_banner(help_lines(stdout@)),
        ),
        success && starts_with_banner(help_lines(stdout@)) && (help_lines(stdout@).len() < 3
            || help_lines(stdout@)[2].len() <= 2) ==> r is Unparsable,
        success && help_lines(stdout@).len() > 0 && !version_banner(help_lines(stdout@)[0])
            ==> r.extracted() == Some(help_lines(stdout@)[0]),
        success && help_lines(stdout@).len() == 0 ==> r is Unparsable,
{
    if !success {
        return Summary::NoHelp;
    }
    let text = decode_lossy(stdout);
    let raw = split_lines(text.as_str());
    let ghost raw_lines = lines_of(text@);
    let mut lines: Vec<String> = Vec::new();
    let mut i: usize = 0;
    while i < raw.len()
        invariant
            i <= raw@.len(),
            views_of(raw@) == raw_lines,
            lines@.len() == i,
            forall|j: int| 0 <= j < i ==> #[trigger] lines@[j]@ == trim_of(raw_lines[j]),
        decreases raw@.len() - i,
    {
        let t = trim(raw[i].as_str());
        lines.push(t);
        i = i + 1;
    }
    assert(views_of(lines@) =~= help_lines(stdout@));
    let banner = if lines.len() > 0 {
        is_version_banner(lines[0].as_str())
    } else {
        false
    };
    choose_summary(&lines, banner)
}

} // verus!
