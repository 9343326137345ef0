//! Command-line options of the disambiguation tool and its usage errors.
use vstd::prelude::*;

verus! {

#[verifier::external_type_specification]
#[verifier::external_body]
pub struct ExIoError(std::io::Error);

/// A problem with the command line or with a file it names.
#[derive(Debug)]
pub enum UsageError {
    BadValue { param: String, value: String },
    MissingRequiredArgument(String),
    IoError { param: String, path: String, source: std::io::Error },
    Word2VecError { param: String, path: String, source: std::io::Error },
}

impl UsageError {
    pub fn missing_required_argument(arg: &str) -> (r: UsageError)
        ensures
            r matches UsageError::MissingRequiredArgument(a) && a@ == arg@,
    {
        UsageError::MissingRequiredArgument(arg.to_owned())
    }

    /// The same error, attributed to the flag `param` where it names one.
    pub fn with_param(self, param: &str) -> (r: UsageError)
        ensures
            self matches UsageError::BadValue { value: v0, .. } ==> r matches UsageError::BadValue {
                param: p,
                value: v,
            } && p@ == param@ && v == v0,
            self matches UsageError::IoError { path: f0, source: e0, .. } ==> r matches UsageError::IoError {
                param: p,
                path: f,
                source: e,
            } && p@ == param@ && f == f0 && e == e0,
            self matches UsageError::Word2VecError { path: f0, source: e0, .. }
                ==> r matches UsageError::Word2VecError { param: p, path: f, source: e } && p@
                == param@ && f == f0 && e == e0,
            self is MissingRequiredArgument ==> r == self,
    {
        match self {
            UsageError::IoError { param: _, path, source } => UsageError::IoError {
                param: param.to_owned(),
                path,
                source,
            },
            UsageError::BadValue { param: _, value } => UsageError::BadValue {
                param: param.to_owned(),
                value,
            },
            UsageError::Word2VecError { param: _, path, source } => UsageError::Word2VecError {
                param: param.to_owned(),
                path,
                source,
            },
            x => x,
        }
    }
}

/// Why no disambiguation application could be made.
#[derive(Debug)]
pub enum WSDError {
    UsageError { app_name: String, source: UsageError },
    UnknownWSDName(String),
}

/// Whether `name` names the vector-based disambiguation application.
pub fn is_vector_wsd_name(name: &str) -> (r: bool)
    ensures
        r == (name@ == "se.gu.spraakbanken.wsd.VectorWSD"@ || name@ == "VectorWSD"@),
{
    crate::text::str_eq(name, "se.gu.spraakbanken.wsd.VectorWSD") || crate::text::str_eq(name, "VectorWSD")
}

/// The batch size and the number of sentences to stop after.
#[derive(Debug, Copy, Clone)]
pub struct DisambiguateOptions {
    pub batch_size: usize,
    pub max_sen: usize,
}

/// The largest `u32`, the default limit on sentences.
pub const MAX_SENTENCES: usize = 4294967295;

impl Default for DisambiguateOptions {
    fn default() -> (r: DisambiguateOptions)
        ensures
            r.batch_size == 1,
            r.max_sen == MAX_SENTENCES,
    {
        DisambiguateOptions { batch_size: 1, max_sen: MAX_SENTENCES }
    }
}

/// `s` without the prefix `p`, if it starts with it.
pub open spec fn without_prefix(s: Seq<char>, p: Seq<char>) -> Option<Seq<char>> {
    if p.len() <= s.len() && s.subrange(0, p.len() as int) == p {
        Some(s.subrange(p.len() as int, s.len() as int))
    } else {
        None
    }
}

/// Relies on str::strip_prefix: the rest of `s` after the prefix `p`, if `s`
/// starts with it.
#[verifier::external_body]
fn strip_prefix<'a>(s: &'a str, p: &str) -> (r: Option<&'a str>)
    ensures
        r is Some <==> without_prefix(s@, p@) is Some,
        r is Some ==> r->0@ == without_prefix(s@, p@)->0,
{
    s.strip_prefix(p)
}

/// The boolean that a string spells: `true` or `false`, nothing else.
pub open spec fn bool_of(s: Seq<char>) -> Option<bool> {
    if s == "true"@ {
        Some(true)
    } else if s == "false"@ {
        Some(false)
    } else {
        None
    }
}

/// Relies on `bool::from_str`: only `true` and `false` parse.
#[verifier::external_body]
fn parse_bool(s: &str) -> (r: Option<bool>)
    ensures
        r == bool_of(s@),
{
    s.parse().ok()
}

/// The value of a string of decimal digits.
pub open spec fn digits_value(s: Seq<char>) -> int
    decreases s.len(),
{
    if s.len() == 0 {
        0
    } else {
        digits_value(s.drop_last()) * 10 + (s.last() as int - '0' as int)
    }
}

/// The unsigned number that a string spells: an optional `+`, then one or
/// more decimal digits, whose value fits a `usize`.
pub open spec fn usize_of(s: Seq<char>) -> Option<usize> {
    let d = if s.len() > 0 && s[0] == '+' {
        s.subrange(1, s.len() as int)
    } else {
        s
    };
    if d.len() > 0 && (forall|i: int| 0 <= i < d.len() ==> '0' <= #[trigger] d[i] <= '9')
        && digits_value(d) <= usize::MAX {
        Some(digits_value(d) as usize)
    } else {
        None
    }
}

/// Relies on `usize::from_str`: an optional `+` and decimal digits, with a
/// value that fits.
#[verifier::external_body]
fn parse_usize(s: &str) -> (r: Option<usize>)
    ensures
        r == usize_of(s@),
{
    s.parse().ok()
}

/// The options, with strings as character sequences.
pub struct ArgsView {
    pub saldo: Option<Seq<char>>,
    pub app_name: Option<Seq<char>>,
    pub sbxml: bool,
    pub eval: bool,
    pub split_mwes: bool,
    pub split_compounds: bool,
    pub batch_size: usize,
    pub eval_lemmas: Option<Seq<char>>,
    pub eval_key: Option<Seq<char>>,
    pub for_lemma: Option<Seq<char>>,
    pub max_sen: usize,
    pub verbose: u8,
}

/// A usage error, with strings as character sequences.
pub enum UsageFailure {
    BadValue(Seq<char>, Seq<char>),
    MissingRequiredArgument(Seq<char>),
}

/// The options before any argument is read.
pub open spec fn default_settings() -> ArgsView {
    ArgsView {
        saldo: None,
        app_name: None,
        sbxml: true,
        eval: false,
        split_mwes: false,
        split_compounds: true,
        batch_size: 1,
        eval_lemmas: None,
        eval_key: None,
        for_lemma: None,
        max_sen: MAX_SENTENCES,
        verbose: 0,
    }
}

/// The options after one more argument; flags that are not known are passed over.
pub open spec fn apply_arg(s: ArgsView, a: Seq<char>) -> Result<ArgsView, UsageFailure> {
    if without_prefix(a, "-saldo="@) is Some {
        Ok(ArgsView { saldo: Some(without_prefix(a, "-saldo="@)->0), ..s })
    } else if without_prefix(a, "-appName="@) is Some {
        Ok(ArgsView { app_name: Some(without_prefix(a, "-appName="@)->0), ..s })
    } else if a == "-format=tab"@ {
        Ok(ArgsView { sbxml: false, ..s })
    } else if a == "-format=sbxml"@ {
        Ok(ArgsView { sbxml: true, ..s })
    } else if a == "-format=eval"@ {
        Ok(ArgsView { eval: true, ..s })
    } else if without_prefix(a, "-splitMWEs="@) is Some {
        let v = without_prefix(a, "-splitMWEs="@)->0;
        match bool_of(v) {
            Some(b) => Ok(ArgsView { split_mwes: b, ..s }),
            None => Err(UsageFailure::BadValue("-splitMWEs"@, v)),
        }
    } else if without_prefix(a, "-splitCompounds="@) is Some {
        let v = without_prefix(a, "-splitCompounds="@)->0;
        match bool_of(v) {
            Some(b) => Ok(ArgsView { split_compounds: b, ..s }),
            None => Err(UsageFailure::BadValue("-splitCompounds"@, v)),
        }
    } else if without_prefix(a, "-batchSize="@) is Some {
        let v = without_prefix(a, "-batchSize="@)->0;
        match usize_of(v) {
            Some(n) => Ok(ArgsView { batch_size: n, ..s }),
            None => Err(UsageFailure::BadValue("-batchSize"@, v)),
        }
    } else if without_prefix(a, "-maxSen="@) is Some {
        let v = without_prefix(a, "-maxSen="@)->0;
        match usize_of(v) {
            Some(n) => Ok(ArgsView { max_sen: n, ..s }),
            None => Err(UsageFailure::BadValue("-maxSen"@, v)),
        }
    } else if without_prefix(a, "-evalLemmas="@) is Some {
        Ok(ArgsView { eval_lemmas: Some(without_prefix(a, "-evalLemmas="@)->0), ..s })
    } else if without_prefix(a, "-evalKey="@) is Some {
        Ok(ArgsView { eval_key: Some(without_prefix(a, "-evalKey="@)->0), ..s })
    } else if without_prefix(a, "-forLemma="@) is Some {
        Ok(ArgsView { for_lemma: Some(without_prefix(a, "-forLemma="@)->0), ..s })
    } else if a == "-verbose"@ || a == "-v"@ {
        Ok(ArgsView { verbose: if s.verbose < 255 { (s.verbose + 1) as u8 } else { 255 }, ..s })
    } else if a == "-verbose=true"@ {
        Ok(ArgsView { verbose: 2, ..s })
    } else {
        Ok(s)
    }
}

/// The options after the arguments, in order, or the first error.
pub open spec fn apply_args(s: ArgsView, argv: Seq<Seq<char>>) -> Result<ArgsView, UsageFailure>
    decreases argv.len(),
{
    if argv.len() == 0 {
        Ok(s)
    } else {
        match apply_args(s, argv.drop_last()) {
            Ok(s1) => apply_arg(s1, argv.last()),
            Err(e) => Err(e),
        }
    }
}

/// The options of a command line, or why it is refused: evaluation needs
/// its three files, and every run needs an application name.
pub open spec fn parsed_args(argv: Seq<Seq<char>>) -> Result<ArgsView, UsageFailure> {
    match apply_args(default_settings(), argv) {
        Err(e) => Err(e),
        Ok(s) => if s.eval && s.eval_lemmas is None {
            Err(
                UsageFailure::MissingRequiredArgument(
                    "-evalLemmas not specified, required when --format=eval"@,
                ),
            )
        } else if s.eval && s.eval_key is None {
            Err(
                UsageFailure::MissingRequiredArgument(
                    "-evalKey not specified, required when --format=eval"@,
                ),
            )
        } else if s.eval && s.for_lemma is None {
            Err(
                UsageFailure::MissingRequiredArgument(
                    "-forLemma not specified, required when --format=eval"@,
                ),
            )
        } else if s.app_name is None {
            Err(UsageFailure::MissingRequiredArgument("-appName not specified"@))
        } else {
            Ok(s)
        },
    }
}

pub open spec fn opt_view(o: Option<String>) -> Option<Seq<char>> {
    match o {
        Some(s) => Some(s@),
        None => None,
    }
}

/// The options of the command-line tool.
#[derive(Debug)]
pub struct Args {
    /// load saldo from this file
    pub saldo: Option<String>,
    /// app-name to use
    pub app_name: String,
    /// Format of the output
    pub sbxml: bool,
    pub eval: bool,
    /// Should MWEs be split?
    pub split_mwes: bool,
    /// Should Compunds be split?
    pub split_compounds: bool,
    /// The size of each batch
    pub batch_size: usize,
    /// evalLemmas
    pub eval_lemmas: Option<String>,
    /// evalKey
    pub eval_key: Option<String>,
    /// forLemma
    pub for_lemma: Option<String>,
    /// The maximum sense
    pub max_sen: usize,
    /// Verbosity
    pub verbose: u8,
}

impl View for Args {
    type V = ArgsView;

    open spec fn view(&self) -> ArgsView {
        ArgsView {
            saldo: opt_view(self.saldo),
            app_name: Some(self.app_name@),
            sbxml: self.sbxml,
            eval: self.eval,
            split_mwes: self.split_mwes,
            split_compounds: self.split_compounds,
            batch_size: self.batch_size,
            eval_lemmas: opt_view(self.eval_lemmas),
            eval_key: opt_view(self.eval_key),
            for_lemma: opt_view(self.for_lemma),
            max_sen: self.max_sen,
            verbose: self.verbose,
        }
    }
}

pub open spec fn usage_failure(e: UsageError) -> UsageFailure {
    match e {
        UsageError::BadValue { param, value } => UsageFailure::BadValue(param@, value@),
        UsageError::MissingRequiredArgument(a) => UsageFailure::MissingRequiredArgument(a@),
        _ => UsageFailure::MissingRequiredArgument(Seq::empty()),
    }
}

/// The options read so far.
struct Settings {
    saldo: Option<String>,
    app_name: Option<String>,
    sbxml: bool,
    eval: bool,
    split_mwes: bool,
    split_compounds: bool,
    batch_size: usize,
    eval_lemmas: Option<String>,
    eval_key: Option<String>,
    for_lemma: Option<String>,
    max_sen: usize,
    verbose: u8,
}

impl View for Settings {
    type V = ArgsView;

    closed spec fn view(&self) -> ArgsView {
        ArgsView {
            saldo: opt_view(self.saldo),
            app_name: opt_view(self.app_name),
            sbxml: self.sbxml,
            eval: self.eval,
            split_mwes: self.split_mwes,
            split_compounds: self.split_compounds,
            batch_size: self.batch_size,
            eval_lemmas: opt_view(self.eval_lemmas),
            eval_key: opt_view(self.eval_key),
            for_lemma: opt_view(self.for_lemma),
            max_sen: self.max_sen,
            verbose: self.verbose,
        }
    }
}

fn bad_value(param: &str, value: &str) -> (r: UsageError)
    ensures
        usage_failure(r) == UsageFailure::BadValue(param@, value@),
        r is BadValue,
{
    UsageError::BadValue { param: param.to_owned(), value: value.to_owned() }
}

impl Settings {
    /// Reads one argument.
    fn apply(&mut self, a: &str) -> (r: Result<(), UsageError>)
        ensures
            match apply_arg(old(self)@, a@) {
                Ok(s) => r is Ok && final(self)@ == s,
                Err(e) => r is Err && !(r->Err_0 is IoError) && !(r->Err_0 is Word2VecError)
                    && usage_failure(r->Err_0) == e,
            },
    {
        if let Some(v) = strip_prefix(a, "-saldo=") {
            self.saldo = Some(v.to_owned());
        } else if let Some(v) = strip_prefix(a, "-appName=") {
            self.app_name = Some(v.to_owned());
        } else if str_is(a, "-format=tab") {
            self.sbxml = false;
        } else if str_is(a, "-format=sbxml") {
            self.sbxml = true;
        } else if str_is(a, "-format=eval") {
            self.eval = true;
        } else if let Some(v) = strip_prefix(a, "-splitMWEs=") {
            match parse_bool(v) {
                Some(b) => self.split_mwes = b,
                None => return Err(bad_value("-splitMWEs", v)),
            }
        } else if let Some(v) = strip_prefix(a, "-splitCompounds=") {
            match parse_bool(v) {
                Some(b) => self.split_compounds = b,
                None => return Err(bad_value("-splitCompounds", v)),
            }
        } else if let Some(v) = strip_prefix(a, "-batchSize=") {
            match parse_usize(v) {
                Some(n) => self.batch_size = n,
                None => return Err(bad_value("-batchSize", v)),
            }
        } else if let Some(v) = strip_prefix(a, "-maxSen=") {
            match parse_usize(v) {
                Some(n) => self.max_sen = n,
                None => return Err(bad_value("-maxSen", v)),
            }
        } else if let Some(v) = strip_prefix(a, "-evalLemmas=") {
            self.eval_lemmas = Some(v.to_owned());
        } else if let Some(v) = strip_prefix(a, "-evalKey=") {
            self.eval_key = Some(v.to_owned());
        } else if let Some(v) = strip_prefix(a, "-forLemma=") {
            self.for_lemma = Some(v.to_owned());
        } else if str_is(a, "-verbose") || str_is(a, "-v") {
            if self.verbose < 255 {
                self.verbose = self.verbose + 1;
            }
        } else if str_is(a, "-verbose=true") {
            self.verbose = 2;
        }
        Ok(())
    }
}

fn str_is(a: &str, b: &str) -> (r: bool)
    ensures
        r == (a@ == b@),
{
    crate::text::str_eq(a, b)
}

impl Args {
    /// Reads the command line, program name included.
    pub fn parse(argv: &[String]) -> (r: Result<Args, UsageError>)
        ensures
            match parsed_args(argv@.map_values(|a: String| a@)) {
                Ok(s) => r is Ok && r->Ok_0@ == s,
                Err(e) => r is Err && !(r->Err_0 is IoError) && !(r->Err_0 is Word2VecError)
                    && usage_failure(r->Err_0) == e,
            },
    {
        let ghost args = argv@.map_values(|a: String| a@);
        let mut s = Settings {
            saldo: None,
            app_name: None,
            sbxml: true,
            eval: false,
            split_mwes: false,
            split_compounds: true,
            batch_size: 1,
            eval_lemmas: None,
            eval_key: None,
            for_lemma: None,
            max_sen: MAX_SENTENCES,
            verbose: 0,
        };
        let mut i: usize = 0;
        while i < argv.len()
            invariant
                0 <= i <= argv@.len(),
                args == argv@.map_values(|a: String| a@),
                apply_args(default_settings(), args.subrange(0, i as int)) == Ok::<
                    ArgsView,
                    UsageFailure,
                >(s@),
            decreases argv@.len() - i,
        {
            assert(args.subrange(0, i + 1).drop_last() == args.subrange(0, i as int));
            assert(args.subrange(0, i + 1).last() == argv@[i as int]@);
            match s.apply(argv[i].as_str()) {
                Ok(()) => {},
                Err(e) => {
                    proof {
                        lemma_args_error_persists(args, i + 1);
                    }
                    return Err(e);
                },
            }
            i = i + 1;
        }
        assert(args.subrange(0, argv@.len() as int) == args);
        if s.eval && s.eval_lemmas.is_none() {
            return Err(
                UsageError::missing_required_argument(
                    "-evalLemmas not specified, required when --format=eval",
                ),
            );
        }
        if s.eval && s.eval_key.is_none() {
            return Err(
                UsageError::missing_required_argument(
                    "-evalKey not specified, required when --format=eval",
                ),
            );
        }
        if s.eval && s.for_lemma.is_none() {
            return Err(
                UsageError::missing_required_argument(
                    "-forLemma not specified, required when --format=eval",
                ),
            );
        }
        let app_name = match s.app_name {
            Some(a) => a,
            None => {
                return Err(UsageError::missing_required_argument("-appName not specified"));
            },
        };
        Ok(Args {
            saldo: s.saldo,
            app_name,
            sbxml: s.sbxml,
            eval: s.eval,
            split_mwes: s.split_mwes,
            split_compounds: s.split_compounds,
            batch_size: s.batch_size,
            eval_lemmas: s.eval_lemmas,
            eval_key: s.eval_key,
            for_lemma: s.for_lemma,
            max_sen: s.max_sen,
            verbose: s.verbose,
        })
    }
}

/// Once some of the arguments are refused, all of them are, the same way.
proof fn lemma_args_error_persists(argv: Seq<Seq<char>>, n: int)
    requires
        0 <= n <= argv.len(),
        apply_args(default_settings(), argv.subrange(0, n)) is Err,
    ensures
        apply_args(default_settings(), argv) == apply_args(default_settings(), argv.subrange(0, n)),
    decreases argv.len(),
{
    if n < argv.len() {
        assert(argv.drop_last().subrange(0, n) == argv.subrange(0, n));
        lemma_args_error_persists(argv.drop_last(), n);
    } else {
        assert(argv.subrange(0, n) == argv);
    }
}

} // verus!
