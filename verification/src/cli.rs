//! The option parser that the command line goes through.
//!
//! Everything here states, without proof, what the `getopts` crate does.
//! The types are opaque: a table of declared options, the matches of one
//! parsed command line, and the failure of one. What they hold is spoken of
//! through the spec functions below, which have no body.

use vstd::prelude::*;

verus! {

/// `getopts::Options`: a table of declared options.
#[verifier::external_type_specification]
#[verifier::external_body]
pub struct ExOptions(getopts::Options);

/// `getopts::Matches`: what one command line gave for each option.
#[verifier::external_type_specification]
#[verifier::external_body]
pub struct ExMatches(getopts::Matches);

/// `getopts::Fail`: why a command line was rejected.
#[verifier::external_type_specification]
#[verifier::external_body]
pub struct ExFail(getopts::Fail);

/// The short and the long name of each option that the table declares, in
/// the order of declaration. An option without one of the two has the empty
/// sequence in its place.
pub uninterp spec fn declared_names(options: getopts::Options) -> Seq<(Seq<char>, Seq<char>)>;

/// What parsing `args` against the table yields.
pub uninterp spec fn parse_outcome(options: getopts::Options, args: Seq<Seq<char>>) -> Result<
    getopts::Matches,
    getopts::Fail,
>;

/// The names under which the matches can be queried: those of the table
/// they were parsed against.
pub uninterp spec fn matched_names(matches: getopts::Matches) -> Seq<(Seq<char>, Seq<char>)>;

/// The argument that the first occurrence of the option carried, if any.
pub uninterp spec fn matched_value(matches: getopts::Matches, name: Seq<char>) -> Option<Seq<char>>;

/// Whether the option occurred on the command line.
pub uninterp spec fn matched_present(matches: getopts::Matches, name: Seq<char>) -> bool;

/// The arguments that belong to no option, in command-line order.
pub uninterp spec fn free_arguments(matches: getopts::Matches) -> Seq<Seq<char>>;

/// The message that describes the failure.
pub uninterp spec fn fail_text(fail: getopts::Fail) -> Seq<char>;

/// The help text of the table under the given first line.
pub uninterp spec fn usage_text(options: getopts::Options, brief: Seq<char>) -> Seq<char>;

/// A short name is empty or one ASCII character; a long name is empty or
/// has at least two ASCII characters.
pub open spec fn valid_names(short_name: Seq<char>, long_name: Seq<char>) -> bool {
    &&& vstd::utf8::is_ascii_chars(short_name)
    &&& vstd::utf8::is_ascii_chars(long_name)
    &&& short_name.len() <= 1
    &&& long_name.len() != 1
}

/// Every declared option has a short or a long name.
pub open spec fn all_named(names: Seq<(Seq<char>, Seq<char>)>) -> bool {
    forall|i: int| 0 <= i < names.len() ==> (#[trigger] names[i]).0.len() + names[i].1.len() > 0
}

/// `name` is the short or the long name of a declared option.
pub open spec fn names_include(names: Seq<(Seq<char>, Seq<char>)>, name: Seq<char>) -> bool {
    &&& name.len() > 0
    &&& exists|i: int|
        0 <= i < names.len() && ((#[trigger] names[i]).0 == name || names[i].1 == name)
}

/// `getopts::Options::new`: a table that declares no option.
#[verifier::external_body]
pub(crate) fn new_options() -> (options: getopts::Options)
    ensures
        declared_names(options) == Seq::<(Seq<char>, Seq<char>)>::empty(),
{
    getopts::Options::new()
}

/// `getopts::Options::optflag`: appends an option that takes no argument
/// and may occur once. The call panics on names that `valid_names` rejects.
#[verifier::external_body]
pub(crate) fn declare_flag(
    options: &mut getopts::Options,
    short_name: &str,
    long_name: &str,
    desc: &str,
)
    requires
        valid_names(short_name@, long_name@),
    ensures
        declared_names(*final(options)) == declared_names(*old(options)).push(
            (short_name@, long_name@),
        ),
{
    options.optflag(short_name, long_name, desc);
}

/// `getopts::Options::optopt`: appends an option that takes an argument and
/// may occur once. The call panics on names that `valid_names` rejects.
#[verifier::external_body]
pub(crate) fn declare_value(
    options: &mut getopts::Options,
    short_name: &str,
    long_name: &str,
    desc: &str,
    hint: &str,
)
    requires
        valid_names(short_name@, long_name@),
    ensures
        declared_names(*final(options)) == declared_names(*old(options)).push(
            (short_name@, long_name@),
        ),
{
    options.optopt(short_name, long_name, desc, hint);
}

/// `getopts::Options::parse`: the outcome depends on the table and the
/// arguments alone. Matches answer to the names of the table. The call
/// panics where the table holds an option without any name.
#[verifier::external_body]
pub(crate) fn parse_arguments(options: &getopts::Options, args: &Vec<String>) -> (r: Result<
    getopts::Matches,
    getopts::Fail,
>)
    requires
        all_named(declared_names(*options)),
    ensures
        r == parse_outcome(*options, args.deep_view()),
        r matches Ok(m) ==> matched_names(m) == declared_names(*options),
{
    options.parse(args)
}

/// `getopts::Matches::opt_str`: panics on a name that is not declared.
#[verifier::external_body]
pub(crate) fn option_value(matches: &getopts::Matches, name: &str) -> (r: Option<String>)
    requires
        names_include(matched_names(*matches), name@),
    ensures
        r.deep_view() == matched_value(*matches, name@),
{
    matches.opt_str(name)
}

/// `getopts::Matches::opt_present`: panics on a name that is not declared.
#[verifier::external_body]
pub(crate) fn option_present(matches: &getopts::Matches, name: &str) -> (r: bool)
    requires
        names_include(matched_names(*matches), name@),
    ensures
        r == matched_present(*matches, name@),
{
    matches.opt_present(name)
}

/// The field `free` of `getopts::Matches`, copied out.
#[verifier::external_body]
pub(crate) fn free_values(matches: &getopts::Matches) -> (r: Vec<String>)
    ensures
        r.deep_view() == free_arguments(*matches),
{
    matches.free.clone()
}

/// The `Display` text of a `getopts::Fail`.
#[verifier::external_body]
pub(crate) fn fail_message(fail: &getopts::Fail) -> (r: String)
    ensures
        r@ == fail_text(*fail),
{
    fail.to_string()
}

/// `getopts::Options::usage`: the brief line, then one entry for each
/// option of the table.
#[verifier::external_body]
pub(crate) fn usage(options: &getopts::Options, brief: &str) -> (text: String)
    ensures
        text@ == usage_text(*options, brief@),
{
    options.usage(brief)
}

} // verus!
