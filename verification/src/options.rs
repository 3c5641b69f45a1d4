//! The options of one run and how the command line resolves to them.

use crate::cli::{
    all_named, declare_flag, declare_value, declared_names, fail_message, fail_text,
    free_arguments, free_values, matched_names, matched_present, matched_value, names_include,
    new_options, option_present, option_value, parse_arguments, parse_outcome, usage, usage_text,
};
use vstd::prelude::*;
use vstd::string::{StrSliceExecFns, StringExecFns};

verus! {

/// Lines shown when the command line names no count.
pub const DEFAULT_LINES: usize = 10;

/// Whether the item count is counted from the end of a source or names the
/// number of leading lines to pass over.
#[derive(Clone, Copy, Debug, PartialEq, Eq, Structural)]
pub enum Direction {
    FromTop,
    FromBottom,
}

/// The resolved options of one run.
#[derive(Clone, Debug, PartialEq, Eq)]
pub struct TailOptions {
    pub show_help: bool,
    pub show_version: bool,
    pub output_headers: bool,
    pub item_count: usize,
    pub direction: Direction,
    pub files: Vec<String>,
}

/// `TailOptions` with its strings as sequences of characters.
pub struct TailOptionsView {
    pub show_help: bool,
    pub show_version: bool,
    pub output_headers: bool,
    pub item_count: usize,
    pub direction: Direction,
    pub files: Seq<Seq<char>>,
}

impl View for TailOptions {
    type V = TailOptionsView;

    open spec fn view(&self) -> TailOptionsView {
        TailOptionsView {
            show_help: self.show_help,
            show_version: self.show_version,
            output_headers: self.output_headers,
            item_count: self.item_count,
            direction: self.direction,
            files: self.files.deep_view(),
        }
    }
}

/// What one command line gave for each option, before any of it is
/// interpreted.
#[derive(Clone, Debug, PartialEq, Eq)]
pub struct OptionValues {
    pub lines: Option<String>,
    pub quiet: bool,
    pub silent: bool,
    pub verbose: bool,
    pub help: bool,
    pub version: bool,
    pub free: Vec<String>,
}

/// `OptionValues` with its strings as sequences of characters.
pub struct OptionValuesView {
    pub lines: Option<Seq<char>>,
    pub quiet: bool,
    pub silent: bool,
    pub verbose: bool,
    pub help: bool,
    pub version: bool,
    pub free: Seq<Seq<char>>,
}

impl View for OptionValues {
    type V = OptionValuesView;

    open spec fn view(&self) -> OptionValuesView {
        OptionValuesView {
            lines: self.lines.deep_view(),
            quiet: self.quiet,
            silent: self.silent,
            verbose: self.verbose,
            help: self.help,
            version: self.version,
            free: self.free.deep_view(),
        }
    }
}

pub open spec fn is_digit(c: char) -> bool {
    '0' <= c && c <= '9'
}

/// The value of a decimal digit; zero for any other character.
pub open spec fn digit_value(c: char) -> nat {
    if is_digit(c) {
        (c as nat - '0' as nat) as nat
    } else {
        0
    }
}

/// The number that a sequence of decimal digits writes, most significant
/// digit first.
pub open spec fn decimal_value(digits: Seq<char>) -> nat
    decreases digits.len(),
{
    if digits.len() == 0 {
        0
    } else {
        decimal_value(digits.drop_last()) * 10 + digit_value(digits.last())
    }
}

pub open spec fn all_digits(s: Seq<char>) -> bool {
    forall|i: int| 0 <= i < s.len() ==> is_digit(#[trigger] s[i])
}

/// `s` without the one `+` that may lead it.
pub open spec fn without_plus(s: Seq<char>) -> Seq<char> {
    if s.len() > 0 && s[0] == '+' {
        s.skip(1)
    } else {
        s
    }
}

/// The unsigned number that `s` writes: an optional `+`, then one or more
/// decimal digits, of a value that a `usize` holds.
pub open spec fn unsigned_value(s: Seq<char>) -> Option<usize> {
    let digits = without_plus(s);
    if digits.len() > 0 && all_digits(digits) && decimal_value(digits) <= usize::MAX {
        Some(decimal_value(digits) as usize)
    } else {
        None
    }
}

pub open spec fn invalid_count_message(number: Seq<char>) -> Seq<char> {
    number + ": invalid number of lines"@
}

/// The count and direction that the argument of `--lines` writes: a
/// leading `+` counts from the top, and what follows it is the number.
pub open spec fn item_count_of(s: Seq<char>) -> Result<(usize, Direction), Seq<char>> {
    let from_top = s.len() > 0 && s[0] == '+';
    let number = if from_top {
        s.skip(1)
    } else {
        s
    };
    match unsigned_value(number) {
        Some(n) => Ok(
            (
                n,
                if from_top {
                    Direction::FromTop
                } else {
                    Direction::FromBottom
                },
            ),
        ),
        None => Err(invalid_count_message(number)),
    }
}

/// The options that the given values resolve to, or the message that
/// rejects them.
pub open spec fn resolved(values: OptionValuesView) -> Result<TailOptionsView, Seq<char>> {
    let count = match values.lines {
        Some(s) => item_count_of(s),
        None => Ok((DEFAULT_LINES, Direction::FromBottom)),
    };
    match count {
        Err(message) => Err(message),
        Ok((item_count, direction)) => Ok(
            TailOptionsView {
                show_help: values.help,
                show_version: values.version,
                output_headers: !values.quiet && !values.silent && (values.verbose
                    || values.free.len() > 1),
                item_count,
                direction,
                files: values.free,
            },
        ),
    }
}

/// `r` is the executable form of `expected`.
pub open spec fn options_agree(
    r: Result<TailOptions, String>,
    expected: Result<TailOptionsView, Seq<char>>,
) -> bool {
    match r {
        Ok(options) => expected == Ok::<TailOptionsView, Seq<char>>(options@),
        Err(message) => expected == Err::<TailOptionsView, Seq<char>>(message@),
    }
}

/// What the matches of a command line hold for the options of this tool.
pub open spec fn values_of(matches: getopts::Matches) -> OptionValuesView {
    OptionValuesView {
        lines: matched_value(matches, "lines"@),
        quiet: matched_present(matches, "quiet"@),
        silent: matched_present(matches, "silent"@),
        verbose: matched_present(matches, "verbose"@),
        help: matched_present(matches, "help"@),
        version: matched_present(matches, "version"@),
        free: free_arguments(matches),
    }
}

/// The table declares each option that this tool reads, and none without
/// a name.
pub open spec fn declares_tail_options(names: Seq<(Seq<char>, Seq<char>)>) -> bool {
    &&& all_named(names)
    &&& names_include(names, "lines"@)
    &&& names_include(names, "quiet"@)
    &&& names_include(names, "silent"@)
    &&& names_include(names, "verbose"@)
    &&& names_include(names, "help"@)
    &&& names_include(names, "version"@)
}

/// The names of the options of this tool, as `option_table` declares them.
pub open spec fn tail_option_names() -> Seq<(Seq<char>, Seq<char>)> {
    seq![
        ("n"@, "lines"@),
        ("q"@, "quiet"@),
        (""@, "silent"@),
        ("v"@, "verbose"@),
        ("h"@, "help"@),
        ("V"@, "version"@),
    ]
}

proof fn lemma_decimal_value_of_prefix(digits: Seq<char>, k: int)
    requires
        0 <= k <= digits.len(),
    ensures
        decimal_value(digits.take(k)) <= decimal_value(digits),
    decreases digits.len() - k,
{
    if k < digits.len() {
        lemma_decimal_value_of_prefix(digits, k + 1);
        assert(digits.take(k + 1).drop_last() =~= digits.take(k));
    } else {
        assert(digits.take(k) =~= digits);
    }
}

/// Reads an unsigned decimal number: an optional `+`, then decimal digits.
/// Anything else, and a value that a `usize` cannot hold, gives `None`.
pub fn parse_unsigned(s: &str) -> (r: Option<usize>)
    ensures
        r == unsigned_value(s@),
{
    let len = s.unicode_len();
    let start: usize = if len > 0 && s.get_char(0) == '+' {
        1
    } else {
        0
    };
    if start == len {
        return None;
    }
    let ghost digits = s@.skip(start as int);
    assert(digits == without_plus(s@));
    let mut acc: usize = 0;
    let mut i: usize = start;
    assert(s@.subrange(start as int, i as int) =~= Seq::<char>::empty());
    while i < len
        invariant
            start <= i <= len,
            len == s@.len(),
            digits == s@.skip(start as int),
            digits == without_plus(s@),
            forall|j: int| start <= j < i ==> is_digit(#[trigger] s@[j]),
            acc == decimal_value(s@.subrange(start as int, i as int)),
        decreases len - i,
    {
        let c = s.get_char(i);
        if !('0' <= c && c <= '9') {
            assert(!is_digit(digits[i - start]));
            return None;
        }
        let d: usize = (c as u32 - '0' as u32) as usize;
        let ghost next = s@.subrange(start as int, i + 1);
        proof {
            assert(next.drop_last() =~= s@.subrange(start as int, i as int));
            assert(next.last() == c);
            assert(decimal_value(next) == acc * 10 + d);
            assert(next =~= digits.take(i + 1 - start));
            lemma_decimal_value_of_prefix(digits, i + 1 - start);
        }
        let scaled = match acc.checked_mul(10) {
            Some(v) => v,
            None => {
                return None;
            },
        };
        acc = match scaled.checked_add(d) {
            Some(v) => v,
            None => {
                return None;
            },
        };
        i = i + 1;
    }
    proof {
        assert(s@.subrange(start as int, i as int) =~= digits);
        assert forall|j: int| 0 <= j < digits.len() implies is_digit(#[trigger] digits[j]) by {
            assert(digits[j] == s@[j + start]);
        }
    }
    Some(acc)
}

/// Reads the argument of `--lines`: a leading `+` counts from the top, and
/// what follows it is the count. What is no number is rejected with a
/// message that names it.
pub fn parse_item_count(nstr: &str) -> (r: Result<(usize, Direction), String>)
    ensures
        match r {
            Ok(pair) => item_count_of(nstr@) == Ok::<(usize, Direction), Seq<char>>(pair),
            Err(message) => item_count_of(nstr@) == Err::<(usize, Direction), Seq<char>>(
                message@,
            ),
        },
{
    let len = nstr.unicode_len();
    let from_top = len > 0 && nstr.get_char(0) == '+';
    let number: &str = if from_top {
        nstr.substring_char(1, len)
    } else {
        nstr
    };
    proof {
        if from_top {
            assert(number@ =~= nstr@.skip(1));
        }
    }
    match parse_unsigned(number) {
        Some(n) => Ok(
            (
                n,
                if from_top {
                    Direction::FromTop
                } else {
                    Direction::FromBottom
                },
            ),
        ),
        None => Err(String::from_str(number).concat(": invalid number of lines")),
    }
}

/// Interprets the values of one command line.
pub fn resolve_options(values: OptionValues) -> (r: Result<TailOptions, String>)
    ensures
        options_agree(r, resolved(values@)),
{
    let (item_count, direction) = match &values.lines {
        Some(nstr) => match parse_item_count(nstr.as_str()) {
            Ok(pair) => pair,
            Err(message) => {
                return Err(message);
            },
        },
        None => (DEFAULT_LINES, Direction::FromBottom),
    };
    let output_headers = !values.quiet && !values.silent && (values.verbose || values.free.len()
        > 1);
    Ok(
        TailOptions {
            show_help: values.help,
            show_version: values.version,
            output_headers,
            item_count,
            direction,
            files: values.free,
        },
    )
}

/// The option table of this tool.
pub fn option_table() -> (options: getopts::Options)
    ensures
        declared_names(options) == tail_option_names(),
        declares_tail_options(declared_names(options)),
{
    proof {
        reveal_strlit("n");
        reveal_strlit("lines");
        reveal_strlit("q");
        reveal_strlit("quiet");
        reveal_strlit("");
        reveal_strlit("silent");
        reveal_strlit("v");
        reveal_strlit("verbose");
        reveal_strlit("h");
        reveal_strlit("help");
        reveal_strlit("V");
        reveal_strlit("version");
    }
    let mut options = new_options();
    declare_value(
        &mut options,
        "n",
        "lines",
        "output the last K lines, or use -n +K to output lines starting with the Kth",
        "K",
    );
    declare_flag(&mut options, "q", "quiet", "never output file name headers");
    declare_flag(&mut options, "", "silent", "same as --quiet");
    declare_flag(&mut options, "v", "verbose", "always output file name headers");
    declare_flag(&mut options, "h", "help", "display this help and exit");
    declare_flag(&mut options, "V", "version", "display version information and exit");
    proof {
        let names = declared_names(options);
        assert(names =~= tail_option_names());
        assert(names[0].1 == "lines"@);
        assert(names[1].1 == "quiet"@);
        assert(names[2].1 == "silent"@);
        assert(names[3].1 == "verbose"@);
        assert(names[4].1 == "help"@);
        assert(names[5].1 == "version"@);
    }
    options
}

/// Copies out of the matches what this tool reads.
fn read_matches(matches: &getopts::Matches) -> (values: OptionValues)
    requires
        declares_tail_options(matched_names(*matches)),
    ensures
        values@ == values_of(*matches),
{
    OptionValues {
        lines: option_value(matches, "lines"),
        quiet: option_present(matches, "quiet"),
        silent: option_present(matches, "silent"),
        verbose: option_present(matches, "verbose"),
        help: option_present(matches, "help"),
        version: option_present(matches, "version"),
        free: free_values(matches),
    }
}

/// What `parse_options` returns for each outcome of parsing the command
/// line.
pub open spec fn options_of_outcome(
    outcome: Result<getopts::Matches, getopts::Fail>,
) -> Result<TailOptionsView, Seq<char>> {
    match outcome {
        Ok(matches) => resolved(values_of(matches)),
        Err(fail) => Err(fail_text(fail)),
    }
}

/// Parses the arguments against the table and resolves the options they
/// select. A command line that the table rejects gives the parser's
/// message; a count that is no number gives `invalid_count_message`.
pub fn parse_options(args: &Vec<String>, options: &getopts::Options) -> (r: Result<
    TailOptions,
    String,
>)
    requires
        declares_tail_options(declared_names(*options)),
    ensures
        options_agree(r, options_of_outcome(parse_outcome(*options, args.deep_view()))),
{
    match parse_arguments(options, args) {
        Ok(matches) => resolve_options(read_matches(&matches)),
        Err(fail) => Err(fail_message(&fail)),
    }
}

/// The first line of the help text.
pub open spec fn usage_brief(program: Seq<char>) -> Seq<char> {
    "Usage: "@ + program + " [OPTION]... [FILE]..."@
}

/// The help text of the program: its usage line, then the options of the
/// table as the option parser lays them out.
pub fn help_text(program: &str, options: &getopts::Options) -> (text: String)
    ensures
        text@ == usage_text(*options, usage_brief(program@)),
{
    let mut brief = String::from_str("Usage: ");
    brief.append(program);
    brief.append(" [OPTION]... [FILE]...");
    usage(options, brief.as_str())
}

/// The line that `--version` prints.
pub fn version_line() -> (line: String)
    ensures
        line@ == "tail-rust v0.0.1"@,
{
    String::from_str("tail-rust v0.0.1")
}

} // verus!
