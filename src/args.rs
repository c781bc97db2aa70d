use vstd::prelude::*;

verus! {

/// How many workers filter the records when the command line does not say.
pub const DEFAULT_THREADS: usize = 4;

/// The settings of one run: what to read, and which records to keep.
pub struct Args {
    /// The log file to read.
    pub path: String,
    /// Text that a record's message must contain.
    pub pattern: Option<String>,
    /// The earliest timestamp to keep, in `YYYY-MM-DD HH:MM:SS`.
    pub from: Option<String>,
    /// The latest timestamp to keep, in `YYYY-MM-DD HH:MM:SS`.
    pub to: Option<String>,
    /// How many workers filter the records.
    pub threads: usize,
}

/// Why a command line gives no settings.
#[derive(Clone, Copy, Debug, PartialEq, Eq, Structural)]
pub enum ArgsError {
    /// The arguments do not fit the options (an unknown or repeated option, a
    /// missing value, or a request for help).
    Unreadable,
    /// No log file is named.
    MissingPath,
    /// The thread count is not a number of `usize` range.
    BadThreads,
}

/// The options of the command line, in the order of `option_names`: each by
/// long name, and by short flag where it has one.
pub open spec fn options_spec() -> Seq<(Seq<char>, Option<char>)> {
    seq![
        ("path"@, Some('p')),
        ("pattern"@, None),
        ("from"@, None),
        ("to"@, None),
        ("threads"@, Some('t')),
    ]
}

/// No two options share a long name or a short flag, none takes the name of the
/// help option that clap adds, and no name or flag starts with `-`.
pub open spec fn options_distinct(options: Seq<(Seq<char>, Option<char>)>) -> bool {
    &&& forall|i: int| 0 <= i < options.len() ==> (#[trigger] options[i]).0.len() > 0
    &&& forall|i: int| 0 <= i < options.len() ==> (#[trigger] options[i]).0[0] != '-'
    &&& forall|i: int| 0 <= i < options.len() ==> (#[trigger] options[i]).1 != Some('-')
    &&& forall|i: int| 0 <= i < options.len() ==> (#[trigger] options[i]).0 != "help"@
    &&& forall|i: int| 0 <= i < options.len() ==> (#[trigger] options[i]).1 != Some('h')
    &&& forall|i: int, j: int| 0 <= i < j < options.len() ==> options[i].0 != options[j].0
    &&& forall|i: int, j: int| 0 <= i < j < options.len() && options[i].1 is Some ==> options[i].1 != options[j].1
}

/// What clap reads from `argv` (the program's name first) against options that
/// each take one value: the value given for each option, in the order of the
/// options, or `None` where clap refuses the arguments.
pub uninterp spec fn cli_values(
    argv: Seq<Seq<char>>,
    options: Seq<(Seq<char>, Option<char>)>,
) -> Option<Seq<Option<Seq<char>>>>;

/// An optional string, as the contracts see it.
pub open spec fn opt_view(s: Option<String>) -> Option<Seq<char>> {
    match s {
        Some(v) => Some(v@),
        None => None,
    }
}

/// The strings of `v`, as the contracts see them.
pub open spec fn strings_view(v: Seq<String>) -> Seq<Seq<char>> {
    v.map_values(|s: String| s@)
}

/// The optional strings of `v`, as the contracts see them.
pub open spec fn opt_strings_view(v: Seq<Option<String>>) -> Seq<Option<Seq<char>>> {
    v.map_values(|s: Option<String>| opt_view(s))
}

/// A table of options, as the contracts see it.
pub open spec fn options_view(v: Seq<(&'static str, Option<char>)>) -> Seq<(Seq<char>, Option<char>)> {
    v.map_values(|o: (&'static str, Option<char>)| (o.0@, o.1))
}

/// Relies on clap's `Command::try_get_matches_from`, with one `Arg` per option
/// (`Arg::new`, `long`, `short`), and `ArgMatches::get_one::<String>`: the value of
/// each option, one per option. The options must not clash or start with `-`,
/// which clap checks by panicking.
#[verifier::external_body]
fn match_options(argv: &Vec<String>, options: &Vec<(&'static str, Option<char>)>) -> (r: Option<Vec<Option<String>>>)
    requires
        options_distinct(options_view(options@)),
    ensures
        cli_values(strings_view(argv@), options_view(options@)) == match r {
            Some(v) => Some(opt_strings_view(v@)),
            None => None,
        },
        r matches Some(v) ==> v@.len() == options@.len(),
{
    let mut command = clap::Command::new("log_analyzer");
    for (long, short) in options.iter() {
        command = command.arg(clap::Arg::new(*long).long(*long).short(*short));
    }
    let matches = command.try_get_matches_from(argv.iter()).ok()?;
    Some(options.iter().map(|o| matches.get_one::<String>(o.0).cloned()).collect())
}

/// The value of the decimal digits `d`.
pub open spec fn digits_value(d: Seq<char>) -> int
    decreases d.len(),
{
    if d.len() == 0 {
        0
    } else {
        digits_value(d.drop_last()) * 10 + (d.last() as int - '0' as int)
    }
}

/// The number that `s` writes: an optional `+`, then one or more decimal digits,
/// of a value that fits in `usize`.
pub open spec fn usize_of(s: Seq<char>) -> Option<usize> {
    let d = if s.len() > 0 && s[0] == '+' { s.drop_first() } else { s };
    if d.len() > 0 && (forall|i: int| 0 <= i < d.len() ==> '0' <= #[trigger] d[i] <= '9') && digits_value(d)
        <= usize::MAX {
        Some(digits_value(d) as usize)
    } else {
        None
    }
}

/// Relies on `str::parse::<usize>`: an optional `+` and decimal digits, within range.
#[verifier::external_body]
fn parse_usize(s: &str) -> (r: Option<usize>)
    ensures
        r == usize_of(s@),
{
    s.parse::<usize>().ok()
}

/// The settings that the option values `values` give, in the order of
/// `options_spec`.
pub open spec fn args_spec(values: Seq<Option<Seq<char>>>) -> Result<(Seq<char>, Option<Seq<char>>, Option<Seq<char>>, Option<Seq<char>>, usize), ArgsError> {
    match values[0] {
        None => Err(ArgsError::MissingPath),
        Some(path) => match values[4] {
            None => Ok((path, values[1], values[2], values[3], DEFAULT_THREADS)),
            Some(t) => match usize_of(t) {
                Some(n) => Ok((path, values[1], values[2], values[3], n)),
                None => Err(ArgsError::BadThreads),
            },
        },
    }
}

impl Args {
    /// The settings, as the contracts see them.
    pub open spec fn spec_fields(&self) -> (Seq<char>, Option<Seq<char>>, Option<Seq<char>>, Option<Seq<char>>, usize) {
        (self.path@, opt_view(self.pattern), opt_view(self.from), opt_view(self.to), self.threads)
    }

    /// The long names and short flags of the options.
    pub fn option_names() -> (r: Vec<(&'static str, Option<char>)>)
        ensures
            options_view(r@) == options_spec(),
            options_distinct(options_view(r@)),
    {
        let r = vec![("path", Some('p')), ("pattern", None), ("from", None), ("to", None), ("threads", Some('t'))];
        proof {
            reveal_strlit("path");
            reveal_strlit("pattern");
            reveal_strlit("from");
            reveal_strlit("to");
            reveal_strlit("threads");
            reveal_strlit("help");
            assert(options_view(r@) =~= options_spec());
            assert("path"@[0] != '-' && "pattern"@[0] != '-' && "from"@[0] != '-' && "to"@[0] != '-'
                && "threads"@[0] != '-');
            assert("path"@ != "help"@ && "pattern"@ != "help"@ && "from"@ != "help"@ && "to"@ != "help"@
                && "threads"@ != "help"@) by {
                assert("path"@[0] != "help"@[0]);
                assert("pattern"@.len() != "help"@.len());
                assert("from"@[0] != "help"@[0]);
                assert("to"@.len() != "help"@.len());
                assert("threads"@.len() != "help"@.len());
            }
            assert("path"@ != "pattern"@ && "path"@ != "from"@ && "path"@ != "to"@ && "path"@ != "threads"@) by {
                assert("path"@.len() != "pattern"@.len());
                assert("path"@[0] != "from"@[0]);
                assert("path"@.len() != "to"@.len());
                assert("path"@.len() != "threads"@.len());
            }
            assert("pattern"@ != "from"@ && "pattern"@ != "to"@ && "pattern"@ != "threads"@) by {
                assert("pattern"@[0] != "from"@[0]);
                assert("pattern"@.len() != "to"@.len());
                assert("pattern"@[0] != "threads"@[0]);
            }
            assert("from"@ != "to"@ && "from"@ != "threads"@ && "to"@ != "threads"@) by {
                assert("from"@.len() != "to"@.len());
                assert("from"@.len() != "threads"@.len());
                assert("to"@.len() != "threads"@.len());
            }
        }
        r
    }

    /// The settings that the option values give (see `args_spec`): the path is
    /// required, the thread count defaults to `DEFAULT_THREADS`.
    pub fn from_values(values: Vec<Option<String>>) -> (r: Result<Args, ArgsError>)
        requires
            values@.len() == options_spec().len(),
        ensures
            match (r, args_spec(opt_strings_view(values@))) {
                (Ok(a), Ok(f)) => a.spec_fields() == f,
                (Err(e), Err(g)) => e == g,
                _ => false,
            },
    {
        let mut values = values;
        let ghost vs = opt_strings_view(values@);
        let threads_text = values.pop().unwrap();
        let to = values.pop().unwrap();
        let from = values.pop().unwrap();
        let pattern = values.pop().unwrap();
        let path = values.pop().unwrap();
        assert(opt_view(path) == vs[0] && opt_view(pattern) == vs[1] && opt_view(from) == vs[2]
            && opt_view(to) == vs[3] && opt_view(threads_text) == vs[4]);
        let path = match path {
            Some(p) => p,
            None => return Err(ArgsError::MissingPath),
        };
        let threads = match threads_text {
            Some(t) => match parse_usize(t.as_str()) {
                Some(n) => n,
                None => return Err(ArgsError::BadThreads),
            },
            None => DEFAULT_THREADS,
        };
        Ok(Args { path, pattern, from, to, threads })
    }

    /// Reads the settings from a command line, the program's name first.
    pub fn parse_from(argv: &Vec<String>) -> (r: Result<Args, ArgsError>)
        ensures
            match cli_values(strings_view(argv@), options_spec()) {
                None => r == Err::<Args, ArgsError>(ArgsError::Unreadable),
                Some(vs) => match (r, args_spec(vs)) {
                    (Ok(a), Ok(f)) => a.spec_fields() == f,
                    (Err(e), Err(g)) => e == g,
                    _ => false,
                },
            },
    {
        let options = Args::option_names();
        match match_options(argv, &options) {
            Some(values) => Args::from_values(values),
            None => Err(ArgsError::Unreadable),
        }
    }
}

} // verus!
