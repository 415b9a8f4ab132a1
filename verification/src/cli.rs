//! The command line of the scanner: a target address, `-j THREADS` for the
//! number of workers, and `-h` or `--help` for the usage text.

use vstd::prelude::*;
use crate::config::number_of;
use crate::config::parse_worker_count;
use crate::config::ConfigError;
use crate::config::ScanConfig;
use crate::config::DEFAULT_WORKERS;

verus! {

/// The option set of `getopts`, opaque here.
#[verifier::external_type_specification]
#[verifier::external_body]
pub struct ExOptions(getopts::Options);

/// What `getopts` found on a command line, opaque here.
#[verifier::external_type_specification]
#[verifier::external_body]
pub struct ExMatches(getopts::Matches);

/// The failure that `getopts` reports for a command line, opaque here.
#[verifier::external_type_specification]
#[verifier::external_body]
pub struct ExFail(getopts::Fail);

/// The options that a `getopts::Options` holds, in the order in which they
/// were added, each as its short name, its long name (empty where it has
/// none) and whether it must be given.
pub uninterp spec fn declared(options: getopts::Options) -> Seq<(Seq<char>, Seq<char>, bool)>;

/// The option names by which a `getopts::Matches` can be asked.
pub uninterp spec fn known(found: getopts::Matches) -> Set<Seq<char>>;

/// The option names that a `getopts::Matches` holds an occurrence of.
pub uninterp spec fn given(found: getopts::Matches) -> Set<Seq<char>>;

/// The free arguments that a `getopts::Matches` holds, in order.
pub uninterp spec fn free_of(found: getopts::Matches) -> Seq<Seq<char>>;

/// Whether a character is an ASCII letter or digit.
pub open spec fn is_letter_or_digit(c: char) -> bool {
    let code = c as u32;
    48 <= code <= 57 || 65 <= code <= 90 || 97 <= code <= 122
}

/// The names that an option can be added under: a short name of one ASCII
/// letter or digit or none, a long name of two characters or more or none,
/// and at least one of the two.
pub open spec fn names_ok(short: Seq<char>, long: Seq<char>) -> bool {
    &&& short.len() == 0 || (short.len() == 1 && is_letter_or_digit(short[0]))
    &&& long.len() != 1
    &&& short.len() + long.len() > 0
}

/// Whether each option of `groups` has names that an option can be added
/// under.
pub open spec fn well_named(groups: Seq<(Seq<char>, Seq<char>, bool)>) -> bool {
    forall|i: int| 0 <= i < groups.len() ==> names_ok((#[trigger] groups[i]).0, groups[i].1)
}

/// The names that the options of `groups` answer to: every short and every
/// long name that is not empty.
pub open spec fn names_of(groups: Seq<(Seq<char>, Seq<char>, bool)>) -> Set<Seq<char>> {
    Set::new(
        |name: Seq<char>|
            name.len() > 0 && exists|i: int|
                0 <= i < groups.len() && (#[trigger] groups[i].0 == name || groups[i].1 == name),
    )
}

/// Whether no option of `groups` must be given.
pub open spec fn all_optional(groups: Seq<(Seq<char>, Seq<char>, bool)>) -> bool {
    forall|i: int| 0 <= i < groups.len() ==> !(#[trigger] groups[i]).2
}

/// Whether no argument begins with a hyphen, so that none can be an option.
pub open spec fn without_options(args: Seq<String>) -> bool {
    forall|i: int| 0 <= i < args.len() ==> (#[trigger] args[i])@.len() == 0 || args[i]@[0] != '-'
}

/// The texts of a sequence of strings.
pub open spec fn texts(args: Seq<String>) -> Seq<Seq<char>> {
    Seq::new(args.len(), |i: int| args[i]@)
}

/// `getopts::Options::new`: an option set that holds no option.
#[verifier::external_body]
fn new_options() -> (options: getopts::Options)
    ensures
        declared(options) == Seq::<(Seq<char>, Seq<char>, bool)>::empty(),
{
    getopts::Options::new()
}

/// `getopts::Options::optflag`: adds an optional option that takes no value,
/// behind those that are there. The names are restricted to those that the
/// crate accepts without a panic, here and when it parses.
#[verifier::external_body]
fn add_flag(options: &mut getopts::Options, short: &str, long: &str, description: &str)
    requires
        names_ok(short@, long@),
    ensures
        declared(*final(options)) == declared(*old(options)).push((short@, long@, false)),
{
    options.optflag(short, long, description);
}

/// `getopts::Options::optopt`: adds an optional option that takes a value,
/// behind those that are there. The names are restricted as for a flag.
#[verifier::external_body]
fn add_value_option(
    options: &mut getopts::Options,
    short: &str,
    long: &str,
    description: &str,
    hint: &str,
)
    requires
        names_ok(short@, long@),
    ensures
        declared(*final(options)) == declared(*old(options)).push((short@, long@, false)),
{
    options.optopt(short, long, description, hint);
}

/// `getopts::Options::parse`, which panics on an option without any name;
/// it is called only on options with names as `names_ok` describes them.
/// A result can be asked by the names of the options that were declared, and
/// by no other, and each of its free arguments is one of the arguments. Where
/// no argument begins with a hyphen and no option must be given, the call
/// succeeds, every argument is a free argument, and no option has an
/// occurrence. Nothing else is stated.
#[verifier::external_body]
fn parse_arguments(options: &getopts::Options, args: &Vec<String>) -> (parsed: Result<
    getopts::Matches,
    getopts::Fail,
>)
    requires
        well_named(declared(*options)),
    ensures
        parsed matches Ok(found) ==> known(found) == names_of(declared(*options)),
        parsed matches Ok(found) ==> forall|i: int|
            0 <= i < free_of(found).len() ==> texts(args@).contains(#[trigger] free_of(found)[i]),
        without_options(args@) && all_optional(declared(*options)) ==> parsed is Ok,
        parsed matches Ok(found) ==> (without_options(args@) && all_optional(declared(*options))
            ==> given(found) == Set::<Seq<char>>::empty() && free_of(found) == texts(args@)),
{
    options.parse(args)
}

/// `getopts::Matches::opt_present`, which panics on a name that was not
/// declared: whether the option has an occurrence.
#[verifier::external_body]
fn is_given(found: &getopts::Matches, name: &str) -> (present: bool)
    requires
        known(*found).contains(name@),
    ensures
        present == given(*found).contains(name@),
{
    found.opt_present(name)
}

/// `getopts::Matches::opt_str`, which panics on a name that was not declared:
/// the value given with the first occurrence of the option. There is none
/// where the option has no occurrence; nothing else is stated of the answer.
#[verifier::external_body]
fn value_of(found: &getopts::Matches, name: &str) -> (value: Option<String>)
    requires
        known(*found).contains(name@),
    ensures
        value.is_some() ==> given(*found).contains(name@),
{
    found.opt_str(name)
}

/// The field `free` of `getopts::Matches`: the arguments that are neither an
/// option nor an option's value.
#[verifier::external_body]
fn free_arguments(found: &getopts::Matches) -> (free: Vec<String>)
    ensures
        texts(free@) == free_of(*found),
{
    found.free.clone()
}

/// The text of a `getopts::Fail`, as its `Display` writes it. Nothing is
/// stated of it.
#[verifier::external_body]
fn failure_text(failure: &getopts::Fail) -> (text: String) {
    failure.to_string()
}

/// `getopts::Options::usage`, called only on options with names as
/// `names_ok` describes them: the text begins with `brief`, an empty line and
/// the line `Options:`; what follows describes the options and is not stated.
#[verifier::external_body]
fn usage_text(options: &getopts::Options, brief: &str) -> (text: String)
    requires
        well_named(declared(*options)),
    ensures
        usage_heading(brief@).is_prefix_of(text@),
{
    options.usage(brief)
}

/// How every usage text begins.
pub open spec fn usage_heading(brief: Seq<char>) -> Seq<char> {
    brief + "\n\nOptions:\n"@
}

/// The first line of the usage text for a program of the given name.
pub open spec fn brief_of(program: Seq<char>) -> Seq<char> {
    "Usage: "@ + program + " -j THREADS IPADDR"@
}

/// What the command line asks for.
#[derive(Debug, PartialEq, Eq)]
pub enum Command {
    /// Show this usage text and do not scan.
    Usage(String),
    /// Run this scan.
    Scan(ScanConfig),
    /// Tell the user of this error and do not scan.
    Reject(ConfigError),
}

/// The number of workers that is asked for: the default where no text was
/// given, else the number that the text denotes, if it denotes one.
pub open spec fn requested_workers(threads: Option<String>) -> Option<nat> {
    match threads {
        None => Some(DEFAULT_WORKERS as nat),
        Some(text) => number_of(text@),
    }
}

/// The options of the scanner: the flag `-h`, `--help`, and `-j` with a value.
pub fn scanner_options() -> (options: getopts::Options)
    ensures
        declared(options) == seq![("h"@, "help"@, false), ("j"@, ""@, false)],
        well_named(declared(options)),
        all_optional(declared(options)),
{
    proof {
        reveal_strlit("h");
        reveal_strlit("help");
        reveal_strlit("j");
        reveal_strlit("");
    }
    let mut options = new_options();
    add_flag(&mut options, "h", "help", "print this help menu");
    add_value_option(
        &mut options,
        "j",
        "",
        "number of threads to use for concurrent scanning",
        "THREADS",
    );
    assert(declared(options) =~= seq![("h"@, "help"@, false), ("j"@, ""@, false)]);
    options
}

/// The first line of the usage text.
pub fn usage_brief(program: &str) -> (brief: String)
    ensures
        brief@ == brief_of(program@),
{
    let mut brief = String::from_str("Usage: ");
    brief.append(program);
    brief.append(" -j THREADS IPADDR");
    brief
}

/// Decides what to do from what was found on the command line: whether help
/// was asked for, the text given with `-j`, the free arguments, and the usage
/// text to show. Help, or no free argument, shows the usage. Else the first
/// free argument is the target, and the scan is configured with the number of
/// workers asked for, or refused where that is no number or zero.
pub fn decide(help: bool, threads: Option<String>, free: Vec<String>, usage: String) -> (command:
    Command)
    ensures
        (help || free@.len() == 0) ==> (command matches Command::Usage(text) && text@ == usage@),
        !(help || free@.len() == 0) ==> match requested_workers(threads) {
            Some(number) => if number >= 1 {
                command matches Command::Scan(config) && config.target_text() == free@[0]@
                    && config.worker_total() == number
            } else {
                command == Command::Reject(ConfigError::NoWorkers)
            },
            None => (command matches Command::Reject(ConfigError::WorkerCount(text)) && text@
                == threads.unwrap()@),
        },
{
    if help || free.len() == 0 {
        return Command::Usage(usage);
    }
    let workers = match &threads {
        Some(text) => match parse_worker_count(text.as_str()) {
            Ok(number) => number,
            Err(error) => {
                return Command::Reject(error);
            },
        },
        None => DEFAULT_WORKERS,
    };
    match ScanConfig::new(free[0].clone(), workers) {
        Ok(config) => Command::Scan(config),
        Err(error) => Command::Reject(error),
    }
}

/// Reads the command line of the program `program`, whose arguments are
/// `args`, and says what it asks for. The arguments are split into options
/// and free arguments by `getopts`; `decide` says what follows from them.
/// Where no argument begins with a hyphen, the answer is the usage if there
/// is no argument, and else a scan of the first argument with the default
/// number of workers. In every case the target of a scan is one of the
/// arguments, a usage text begins with the line for this program, and an
/// error is not one of the address.
pub fn interpret(program: &str, args: &Vec<String>) -> (command: Command)
    ensures
        without_options(args@) && args@.len() == 0 ==> command is Usage,
        without_options(args@) && args@.len() > 0 ==> (command matches Command::Scan(config)
            && config.target_text() == args@[0]@ && config.worker_total() == DEFAULT_WORKERS),
        command matches Command::Usage(text) ==> usage_heading(brief_of(program@)).is_prefix_of(
            text@,
        ),
        command matches Command::Scan(config) ==> config.worker_total() >= 1 && texts(
            args@,
        ).contains(config.target_text()),
        command matches Command::Reject(error) ==> !(error is Address),
{
    let options = scanner_options();
    proof {
        reveal_strlit("h");
        reveal_strlit("help");
        reveal_strlit("j");
        reveal_strlit("");
    }
    match parse_arguments(&options, args) {
        Err(failure) => Command::Reject(ConfigError::Options(failure_text(&failure))),
        Ok(found) => {
            proof {
                let groups = declared(options);
                assert(groups[0].0 == "h"@);
                assert(groups[1].0 == "j"@);
                assert(names_of(groups).contains("h"@));
                assert(names_of(groups).contains("j"@));
            }
            let help = is_given(&found, "h");
            let threads = value_of(&found, "j");
            let free = free_arguments(&found);
            proof {
                if free@.len() > 0 {
                    assert(texts(free@)[0] == free@[0]@);
                }
                if without_options(args@) {
                    assert(texts(free@).len() == texts(args@).len());
                    if args@.len() > 0 {
                        assert(texts(free@)[0] == texts(args@)[0]);
                    }
                }
            }
            let brief = usage_brief(program);
            let usage = usage_text(&options, brief.as_str());
            decide(help, threads, free, usage)
        },
    }
}

} // verus!
