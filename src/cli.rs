//! Command-line arguments: options, their values, and the input file.
use vstd::prelude::*;
use crate::render::Format;

verus! {

/// Settings taken from the command line.
#[derive(Debug)]
pub struct Config {
    pub input_file_name: Option<String>,
    pub starting_line_number: usize,
    pub starting_column_number: usize,
    pub format: Format,
    pub help: bool,
    pub variable_name: String,
}

/// The mathematical value of the settings.
pub struct ConfigView {
    pub input_file_name: Option<Seq<char>>,
    pub starting_line_number: nat,
    pub starting_column_number: nat,
    pub format: Format,
    pub help: bool,
    pub variable_name: Seq<char>,
}

impl View for Config {
    type V = ConfigView;

    open spec fn view(&self) -> ConfigView {
        ConfigView {
            input_file_name: match self.input_file_name {
                Some(s) => Some(s@),
                None => None,
            },
            starting_line_number: self.starting_line_number as nat,
            starting_column_number: self.starting_column_number as nat,
            format: self.format,
            help: self.help,
            variable_name: self.variable_name@,
        }
    }
}

/// An option that takes the next argument as its value.
#[derive(Debug, Clone, Copy, PartialEq, Eq, Structural)]
pub enum Pending {
    Format,
    VariableName,
}

/// A command line that cannot be used.
#[derive(Debug)]
pub enum CliError {
    UnknownShortOption(char),
    UnknownLongOption(String),
    UnknownFormat(String),
    EmptyArgument,
}

/// The mathematical value of a command-line error.
pub enum CliFault {
    UnknownShortOption(char),
    UnknownLongOption(Seq<char>),
    UnknownFormat(Seq<char>),
    EmptyArgument,
}

impl View for CliError {
    type V = CliFault;

    open spec fn view(&self) -> CliFault {
        match self {
            CliError::UnknownShortOption(c) => CliFault::UnknownShortOption(*c),
            CliError::UnknownLongOption(s) => CliFault::UnknownLongOption(s@),
            CliError::UnknownFormat(s) => CliFault::UnknownFormat(s@),
            CliError::EmptyArgument => CliFault::EmptyArgument,
        }
    }
}

/// The settings before any argument: Vim script, variable `config`, input
/// read from line 1, column 1.
pub open spec fn default_config() -> ConfigView {
    ConfigView {
        input_file_name: None,
        starting_line_number: 1,
        starting_column_number: 1,
        format: Format::Vim,
        help: false,
        variable_name: "config"@,
    }
}

/// The settings so far and the option waiting for its value.
pub struct CliState {
    pub config: ConfigView,
    pub pending: Option<Pending>,
}

/// Splits what follows the first `-` of an option at its next `-`: the
/// short option letters before it, and the long option name after it.
pub open spec fn split_dash(s: Seq<char>) -> (Seq<char>, Option<Seq<char>>)
    decreases s.len(),
{
    if s.len() == 0 {
        (Seq::empty(), None)
    } else if s[0] == '-' {
        (Seq::empty(), Some(s.drop_first()))
    } else {
        let (a, b) = split_dash(s.drop_first());
        (seq![s[0]] + a, b)
    }
}

/// One short option letter: `h` asks for help, `f` and `N` wait for a format
/// and a variable name.
pub open spec fn short_option(st: CliState, c: char) -> Result<CliState, CliFault> {
    if c == 'h' {
        Ok(CliState { config: ConfigView { help: true, ..st.config }, ..st })
    } else if c == 'f' {
        Ok(CliState { pending: Some(Pending::Format), ..st })
    } else if c == 'N' {
        Ok(CliState { pending: Some(Pending::VariableName), ..st })
    } else {
        Err(CliFault::UnknownShortOption(c))
    }
}

/// The short option letters `cs`, in order.
pub open spec fn short_options(st: CliState, cs: Seq<char>) -> Result<CliState, CliFault>
    decreases cs.len(),
{
    if cs.len() == 0 {
        Ok(st)
    } else {
        match short_options(st, cs.drop_last()) {
            Ok(t) => short_option(t, cs.last()),
            Err(e) => Err(e),
        }
    }
}

/// One long option: `format`, `help` or `variable-name`.
pub open spec fn long_option(st: CliState, name: Seq<char>) -> Result<CliState, CliFault> {
    if name == "format"@ {
        Ok(CliState { pending: Some(Pending::Format), ..st })
    } else if name == "help"@ {
        Ok(CliState { config: ConfigView { help: true, ..st.config }, ..st })
    } else if name == "variable-name"@ {
        Ok(CliState { pending: Some(Pending::VariableName), ..st })
    } else {
        Err(CliFault::UnknownLongOption(name))
    }
}

/// One argument: the value of a waiting option, options after a `-`, or the
/// input file name.
pub open spec fn cli_step(st: CliState, arg: Seq<char>) -> Result<CliState, CliFault> {
    match st.pending {
        Some(Pending::Format) => if arg == "vim"@ {
            Ok(CliState { config: ConfigView { format: Format::Vim, ..st.config }, pending: None })
        } else if arg == "json"@ {
            Ok(CliState { config: ConfigView { format: Format::Json, ..st.config }, pending: None })
        } else {
            Err(CliFault::UnknownFormat(arg))
        },
        Some(Pending::VariableName) => Ok(
            CliState { config: ConfigView { variable_name: arg, ..st.config }, pending: None },
        ),
        None => if arg.len() == 0 {
            Err(CliFault::EmptyArgument)
        } else if arg[0] != '-' {
            Ok(CliState { config: ConfigView { input_file_name: Some(arg), ..st.config }, ..st })
        } else {
            let (shorts, long) = split_dash(arg.drop_first());
            match long {
                None => short_options(st, shorts),
                Some(name) => match long_option(st, name) {
                    Ok(t) => short_options(t, shorts),
                    Err(e) => Err(e),
                },
            }
        },
    }
}

/// The arguments `args`, in order, stopping at the first error.
pub open spec fn cli_run(st: CliState, args: Seq<Seq<char>>) -> Result<CliState, CliFault>
    decreases args.len(),
{
    if args.len() == 0 {
        Ok(st)
    } else {
        match cli_run(st, args.drop_last()) {
            Ok(t) => cli_step(t, args.last()),
            Err(e) => Err(e),
        }
    }
}

/// The settings that the arguments give, from the defaults on; an option
/// still waiting for its value at the end is dropped.
pub open spec fn parse_cla_spec(args: Seq<Seq<char>>) -> Result<ConfigView, CliFault> {
    match cli_run(CliState { config: default_config(), pending: None }, args) {
        Ok(st) => Ok(st.config),
        Err(e) => Err(e),
    }
}

/// The views of the arguments.
pub open spec fn arg_views(args: Seq<String>) -> Seq<Seq<char>> {
    args.map_values(|a: String| a@)
}

/// The characters of `s`.
fn chars_of(s: &str) -> (r: Vec<char>)
    ensures
        r@ == s@,
{
    let mut out: Vec<char> = Vec::new();
    for c in it: s.chars()
        invariant
            it.seq() == s@,
            out@ == s@.take(it.index() as int),
    {
        let ghost i = it.index() as int;
        out.push(c);
        assert(s@.take(i + 1) =~= s@.take(i).push(c));
    }
    assert(s@.take(s@.len() as int) =~= s@);
    out
}

/// Whether two strings hold the same characters.
pub fn text_eq(a: &str, b: &str) -> (r: bool)
    ensures
        r == (a@ == b@),
{
    let x = chars_of(a);
    let y = chars_of(b);
    if x.len() != y.len() {
        return false;
    }
    let mut i: usize = 0;
    while i < x.len()
        invariant
            x@ == a@,
            y@ == b@,
            x@.len() == y@.len(),
            i <= x@.len(),
            forall|j: int| 0 <= j < i ==> x@[j] == y@[j],
        decreases x@.len() - i,
    {
        if x[i] != y[i] {
            assert(x@[i as int] != y@[i as int]);
            return false;
        }
        i = i + 1;
    }
    assert(x@ =~= y@);
    true
}

fn string_of(cs: &Vec<char>, from: usize, to: usize) -> (r: String)
    requires
        from <= to <= cs@.len(),
    ensures
        r@ == cs@.subrange(from as int, to as int),
{
    let mut out = String::new();
    let mut i = from;
    while i < to
        invariant
            from <= i <= to,
            to <= cs@.len(),
            out@ == cs@.subrange(from as int, i as int),
        decreases to - i,
    {
        out.push(cs[i]);
        assert(cs@.subrange(from as int, i + 1) =~= cs@.subrange(from as int, i as int).push(cs@[i as int]));
        i = i + 1;
    }
    out
}

proof fn lemma_split_dash(s: Seq<char>, j: int)
    requires
        0 <= j <= s.len(),
        forall|i: int| 0 <= i < j ==> #[trigger] s[i] != '-',
        j < s.len() ==> s[j] == '-',
    ensures
        split_dash(s) == (s.take(j), if j < s.len() {
            Some(s.skip(j + 1))
        } else {
            None::<Seq<char>>
        }),
    decreases j,
{
    if j == 0 {
        assert(s.take(0) =~= Seq::<char>::empty());
        if s.len() > 0 {
            assert(s.drop_first() =~= s.skip(1));
        }
    } else {
        let t = s.drop_first();
        assert forall|i: int| 0 <= i < j - 1 implies #[trigger] t[i] != '-' by {
            assert(t[i] == s[i + 1]);
        }
        lemma_split_dash(t, j - 1);
        assert(seq![s[0]] + t.take(j - 1) =~= s.take(j));
        if j < s.len() {
            assert(t.skip(j) =~= s.skip(j + 1));
        }
    }
}

fn apply_short_options(config: &mut Config, pending: &mut Option<Pending>, cs: &Vec<char>) -> (r: Result<(), CliError>)
    ensures
        r is Ok ==> short_options(CliState { config: old(config)@, pending: *old(pending) }, cs@)
            == Ok::<CliState, CliFault>(CliState { config: final(config)@, pending: *final(pending) }),
        r is Err ==> short_options(CliState { config: old(config)@, pending: *old(pending) }, cs@)
            == Err::<CliState, CliFault>(r->Err_0@),
{
    let ghost st0 = CliState { config: config@, pending: *pending };
    let mut i: usize = 0;
    assert(cs@.take(0) =~= Seq::<char>::empty());
    while i < cs.len()
        invariant
            i <= cs@.len(),
            st0 == (CliState { config: old(config)@, pending: *old(pending) }),
            short_options(st0, cs@.take(i as int)) == Ok::<CliState, CliFault>(
                CliState { config: config@, pending: *pending },
            ),
        decreases cs@.len() - i,
    {
        let c = cs[i];
        assert(cs@.take(i + 1).drop_last() =~= cs@.take(i as int));
        if c == 'h' {
            config.help = true;
        } else if c == 'f' {
            *pending = Some(Pending::Format);
        } else if c == 'N' {
            *pending = Some(Pending::VariableName);
        } else {
            proof {
                lemma_short_options_keep_error(st0, cs@, i + 1);
            }
            return Err(CliError::UnknownShortOption(c));
        }
        i = i + 1;
    }
    assert(cs@.take(i as int) =~= cs@);
    Ok(())
}

proof fn lemma_short_options_keep_error(st: CliState, cs: Seq<char>, k: int)
    requires
        0 <= k <= cs.len(),
        short_options(st, cs.take(k)) is Err,
    ensures
        short_options(st, cs) == short_options(st, cs.take(k)),
    decreases cs.len(),
{
    if k == cs.len() {
        assert(cs.take(k) =~= cs);
    } else {
        assert(cs.drop_last().take(k) =~= cs.take(k));
        lemma_short_options_keep_error(st, cs.drop_last(), k);
    }
}

fn apply_long_option(config: &mut Config, pending: &mut Option<Pending>, name: String) -> (r: Result<(), CliError>)
    ensures
        r is Ok ==> long_option(CliState { config: old(config)@, pending: *old(pending) }, name@)
            == Ok::<CliState, CliFault>(CliState { config: final(config)@, pending: *final(pending) }),
        r is Err ==> long_option(CliState { config: old(config)@, pending: *old(pending) }, name@)
            == Err::<CliState, CliFault>(r->Err_0@),
{
    if text_eq(name.as_str(), "format") {
        *pending = Some(Pending::Format);
    } else if text_eq(name.as_str(), "help") {
        config.help = true;
    } else if text_eq(name.as_str(), "variable-name") {
        *pending = Some(Pending::VariableName);
    } else {
        return Err(CliError::UnknownLongOption(name));
    }
    Ok(())
}

/// Reads one argument.
fn take_argument(config: &mut Config, pending: &mut Option<Pending>, arg: &String) -> (r: Result<(), CliError>)
    ensures
        r is Ok ==> cli_step(CliState { config: old(config)@, pending: *old(pending) }, arg@)
            == Ok::<CliState, CliFault>(CliState { config: final(config)@, pending: *final(pending) }),
        r is Err ==> cli_step(CliState { config: old(config)@, pending: *old(pending) }, arg@)
            == Err::<CliState, CliFault>(r->Err_0@),
{
    match *pending {
        Some(Pending::Format) => {
            if text_eq(arg.as_str(), "vim") {
                config.format = Format::Vim;
            } else if text_eq(arg.as_str(), "json") {
                config.format = Format::Json;
            } else {
                return Err(CliError::UnknownFormat(arg.clone()));
            }
            *pending = None;
            Ok(())
        },
        Some(Pending::VariableName) => {
            config.variable_name = arg.clone();
            *pending = None;
            Ok(())
        },
        None => {
            let cs = chars_of(arg.as_str());
            if cs.len() == 0 {
                return Err(CliError::EmptyArgument);
            }
            if cs[0] != '-' {
                config.input_file_name = Some(arg.clone());
                return Ok(());
            }
            let mut shorts: Vec<char> = Vec::new();
            let mut j: usize = 1;
            while j < cs.len() && cs[j] != '-'
                invariant
                    1 <= j <= cs@.len(),
                    shorts@ == cs@.subrange(1, j as int),
                    forall|i: int| 1 <= i < j ==> #[trigger] cs@[i] != '-',
                decreases cs@.len() - j,
            {
                shorts.push(cs[j]);
                assert(cs@.subrange(1, j + 1) =~= cs@.subrange(1, j as int).push(cs@[j as int]));
                j = j + 1;
            }
            let ghost rest = cs@.drop_first();
            proof {
                assert forall|i: int| 0 <= i < j - 1 implies #[trigger] rest[i] != '-' by {
                    assert(rest[i] == cs@[i + 1]);
                }
                lemma_split_dash(rest, j - 1);
                assert(rest.take(j - 1) =~= shorts@);
                assert(rest =~= arg@.drop_first());
            }
            if j < cs.len() {
                let name = string_of(&cs, j + 1, cs.len());
                assert(rest.skip(j as int) =~= name@);
                apply_long_option(config, pending, name)?;
            }
            apply_short_options(config, pending, &shorts)
        },
    }
}

impl Config {
    /// The settings before any argument.
    pub fn new() -> (r: Config)
        ensures
            r@ == default_config(),
    {
        Config {
            input_file_name: None,
            starting_line_number: 1,
            starting_column_number: 1,
            format: Format::Vim,
            help: false,
            variable_name: String::from_str("config"),
        }
    }
}

proof fn lemma_cli_run_keeps_error(st: CliState, args: Seq<Seq<char>>, k: int)
    requires
        0 <= k <= args.len(),
        cli_run(st, args.take(k)) is Err,
    ensures
        cli_run(st, args) == cli_run(st, args.take(k)),
    decreases args.len(),
{
    if k == args.len() {
        assert(args.take(k) =~= args);
    } else {
        assert(args.drop_last().take(k) =~= args.take(k));
        lemma_cli_run_keeps_error(st, args.drop_last(), k);
    }
}

/// Reads the command-line arguments (without the program name): `-h`,
/// `--help`, `-f`/`--format FORMAT`, `-N`/`--variable-name NAME`, and the
/// input file name.
pub fn parse_cla(args: &Vec<String>) -> (r: Result<Config, CliError>)
    ensures
        r is Ok ==> parse_cla_spec(arg_views(args@)) == Ok::<ConfigView, CliFault>(r->Ok_0@),
        r is Err ==> parse_cla_spec(arg_views(args@)) == Err::<ConfigView, CliFault>(r->Err_0@),
{
    let ghost avs = arg_views(args@);
    let ghost st0 = CliState { config: default_config(), pending: None };
    let mut config = Config::new();
    let mut pending: Option<Pending> = None;
    let mut i: usize = 0;
    assert(avs.take(0) =~= Seq::<Seq<char>>::empty());
    while i < args.len()
        invariant
            i <= args@.len(),
            avs == arg_views(args@),
            st0 == (CliState { config: default_config(), pending: None }),
            cli_run(st0, avs.take(i as int)) == Ok::<CliState, CliFault>(
                CliState { config: config@, pending },
            ),
        decreases args@.len() - i,
    {
        assert(avs.take(i + 1).drop_last() =~= avs.take(i as int));
        assert(avs[i as int] == args@[i as int]@);
        match take_argument(&mut config, &mut pending, &args[i]) {
            Ok(()) => {},
            Err(e) => {
                proof {
                    lemma_cli_run_keeps_error(st0, avs, i + 1);
                }
                return Err(e);
            },
        }
        i = i + 1;
    }
    assert(avs.take(i as int) =~= avs);
    Ok(config)
}

/// What to do once the arguments are read.
#[derive(Debug, Clone, Copy, PartialEq, Eq, Structural)]
pub enum CliAction {
    /// Print the help text and stop.
    ShowHelp,
    /// Report that no input file was named and stop.
    MissingFile,
    /// Read and convert the input file.
    Run,
}

/// Help comes first; without it a file name is needed.
pub fn handle_cla(config: &Config) -> (r: CliAction)
    ensures
        r == (if config.help {
            CliAction::ShowHelp
        } else if config.input_file_name is None {
            CliAction::MissingFile
        } else {
            CliAction::Run
        }),
{
    if config.help {
        CliAction::ShowHelp
    } else if config.input_file_name.is_none() {
        CliAction::MissingFile
    } else {
        CliAction::Run
    }
}

} // verus!
