//! The command line: which file to cluster, with how many clusters, and how its fields are
//! separated.
//!
//! The grammar is a left-to-right scan. Its meaning is given once, as the spec function
//! [`parse_args_spec`] over the arguments' characters, and [`parse_args`] is proved to compute
//! exactly that.

use std::num::ParseIntError;
use vstd::prelude::*;
use vstd::string::StrSliceExecFns;
use vstd::string::StringExecFns;
use vstd::utf8::encode_utf8;

verus! {

/// What the command line asked for.
#[derive(Debug)]
pub struct ParsedArgs {
    /// The fixed number of clusters, or 0 where none was asked for.
    pub k: usize,
    /// The number of clusters that the adaptive search starts from.
    pub min_k: usize,
    /// The byte that separates the fields of a line.
    pub delim: u8,
    /// The data file.
    pub file_path: String,
}

/// What the program is to do with the data.
#[derive(Clone, Copy, Debug, PartialEq, Eq)]
pub enum Mode {
    /// Cluster once, with this many clusters.
    FixedK(usize),
    /// Search for the number of clusters, starting from this many.
    Adaptive(usize),
}

impl ParsedArgs {
    /// What the settings ask for.
    pub open spec fn mode_spec(self) -> Mode {
        if self.k > 0 {
            Mode::FixedK(self.k)
        } else {
            Mode::Adaptive(self.min_k)
        }
    }

    /// What the settings ask for: one clustering at the fixed count where one was given,
    /// and otherwise the adaptive search from the starting count.
    pub fn mode(&self) -> (r: Mode)
        ensures
            r == self.mode_spec(),
    {
        if self.k > 0 {
            Mode::FixedK(self.k)
        } else {
            Mode::Adaptive(self.min_k)
        }
    }
}

/// Why a command line was refused.
#[derive(Debug)]
pub enum ParseArgsError {
    /// Something that must be there is not; the text says what.
    Missing(&'static str),
    /// Something is there that cannot be used; the text says what.
    Bad(String),
    /// The value of a numeric flag is not a count.
    ParseIntError(ParseIntError),
}

/// The error that `str::parse` gives for an integer. Nothing inside it is visible here.
#[verifier::external_type_specification]
#[verifier::external_body]
pub struct ExParseIntError(ParseIntError);

/// `==` on string slices (`<str as PartialEq>::eq`): true exactly when both hold the
/// same characters.
pub assume_specification[ <str as PartialEq>::eq ](a: &str, b: &str) -> (r: bool)
    ensures
        r == (a@ == b@),
;

/// A [`ParsedArgs`] as plain values.
pub struct ArgsView {
    pub k: usize,
    pub min_k: usize,
    pub delim: u8,
    pub file_path: Seq<char>,
}

/// A [`ParseArgsError`] as plain values. Of a failed number only the fact is kept.
pub enum ErrorView {
    Missing(Seq<char>),
    Bad(Seq<char>),
    ParseInt,
}

impl View for ParsedArgs {
    type V = ArgsView;

    open spec fn view(&self) -> ArgsView {
        ArgsView { k: self.k, min_k: self.min_k, delim: self.delim, file_path: self.file_path@ }
    }
}

impl View for ParseArgsError {
    type V = ErrorView;

    open spec fn view(&self) -> ErrorView {
        match *self {
            ParseArgsError::Missing(what) => ErrorView::Missing(what@),
            ParseArgsError::Bad(what) => ErrorView::Bad(what@),
            ParseArgsError::ParseIntError(_) => ErrorView::ParseInt,
        }
    }
}

/// The outcome of [`parse_args`] as plain values.
pub open spec fn outcome_view(r: Result<ParsedArgs, ParseArgsError>) -> Result<
    ArgsView,
    ErrorView,
> {
    match r {
        Ok(parsed) => Ok(parsed@),
        Err(e) => Err(e@),
    }
}

/// The characters of each argument.
pub open spec fn arg_texts(args: Seq<String>) -> Seq<Seq<char>> {
    args.map_values(|s: String| s@)
}

/// Whether `c` is one of the ten decimal digits.
pub open spec fn is_digit(c: char) -> bool {
    '0' <= c && c <= '9'
}

/// The number that a sequence of decimal digits writes, most significant first.
pub open spec fn digits_value(s: Seq<char>) -> nat
    decreases s.len(),
{
    if s.len() == 0 {
        0
    } else {
        digits_value(s.drop_last()) * 10 + (s.last() as nat - '0' as nat) as nat
    }
}

/// Whether `s` is one or more decimal digits and nothing else.
pub open spec fn is_digits(s: Seq<char>) -> bool {
    s.len() > 0 && forall|i: int| 0 <= i < s.len() ==> is_digit(#[trigger] s[i])
}

/// The digits of a written count: the text itself, less one leading `+`.
pub open spec fn count_digits(s: Seq<char>) -> Seq<char> {
    if s.len() > 0 && s[0] == '+' {
        s.skip(1)
    } else {
        s
    }
}

/// The count that `s` writes, if it writes one that fits the machine word.
pub open spec fn written_count(s: Seq<char>) -> Option<usize> {
    let d = count_digits(s);
    if is_digits(d) && digits_value(d) <= usize::MAX {
        Some(digits_value(d) as usize)
    } else {
        None
    }
}

/// `str::parse::<usize>`: succeeds exactly on an optional `+` followed by one or more
/// decimal digits whose value fits in `usize`, and then gives that value.
#[verifier::external_body]
fn parse_count(s: &str) -> (r: Result<usize, ParseIntError>)
    ensures
        r is Ok <==> written_count(s@) is Some,
        r matches Ok(n) ==> written_count(s@) == Some(n),
{
    s.parse::<usize>()
}

/// The flag that fixes the number of clusters.
pub open spec fn is_k_flag(a: Seq<char>) -> bool {
    a == "-k"@ || a == "--k"@
}

/// The flag that sets the number of clusters to start from.
pub open spec fn is_min_k_flag(a: Seq<char>) -> bool {
    a == "--mink"@ || a == "-mink"@ || a == "--mk"@ || a == "-mk"@
}

/// The flag that sets the field separator.
pub open spec fn is_delim_flag(a: Seq<char>) -> bool {
    a == "--delim"@
}

/// Whether `s` ends with the four characters `.csv`.
pub open spec fn is_csv_name(s: Seq<char>) -> bool {
    s.len() >= 4 && s[s.len() - 4] == '.' && s[s.len() - 3] == 'c' && s[s.len() - 2] == 's'
        && s[s.len() - 1] == 'v'
}

/// What holds before the first argument is read: no fixed count, a start from two
/// clusters, fields separated by commas, no file yet.
pub open spec fn default_args() -> ArgsView {
    ArgsView { k: 0, min_k: 2, delim: 0x2c, file_path: Seq::empty() }
}

/// The verdict once every argument has been read: a data file must have been named, and
/// its name must end in `.csv`.
pub open spec fn finish_args(acc: ArgsView) -> Result<ArgsView, ErrorView> {
    if acc.file_path.len() == 0 {
        Err(ErrorView::Missing("file path"@))
    } else if !is_csv_name(acc.file_path) {
        Err(ErrorView::Bad("file ("@ + acc.file_path + ") is not a csv file"@))
    } else {
        Ok(acc)
    }
}

/// The scan from argument `i` on, with `acc` gathered so far.
///
/// A flag takes the argument after it as its value. A numeric flag wants a count there; the
/// separator flag wants exactly one byte. Anything that is no flag is the data file, and
/// there is only one. The first fault ends the scan.
pub open spec fn scan_args(args: Seq<Seq<char>>, i: int, acc: ArgsView) -> Result<
    ArgsView,
    ErrorView,
>
    decreases args.len() - i,
{
    if i < 0 || i >= args.len() {
        finish_args(acc)
    } else if is_k_flag(args[i]) {
        if i + 1 >= args.len() {
            Err(ErrorView::Missing("k needs value"@))
        } else {
            match written_count(args[i + 1]) {
                Some(n) => scan_args(args, i + 2, ArgsView { k: n, ..acc }),
                None => Err(ErrorView::ParseInt),
            }
        }
    } else if is_min_k_flag(args[i]) {
        if i + 1 >= args.len() {
            Err(ErrorView::Missing("mink needs value"@))
        } else {
            match written_count(args[i + 1]) {
                Some(n) => scan_args(args, i + 2, ArgsView { min_k: n, ..acc }),
                None => Err(ErrorView::ParseInt),
            }
        }
    } else if is_delim_flag(args[i]) {
        if i + 1 >= args.len() {
            Err(ErrorView::Missing("delim needs value"@))
        } else if encode_utf8(args[i + 1]).len() != 1 {
            Err(ErrorView::Bad("delim must be a single character"@))
        } else {
            scan_args(args, i + 2, ArgsView { delim: encode_utf8(args[i + 1])[0], ..acc })
        }
    } else if acc.file_path.len() == 0 {
        scan_args(args, i + 1, ArgsView { file_path: args[i], ..acc })
    } else {
        Err(ErrorView::Bad("unknown argument "@ + args[i]))
    }
}

/// What a command line means. The first argument is the program's own name and is
/// passed over.
pub open spec fn parse_args_spec(args: Seq<Seq<char>>) -> Result<ArgsView, ErrorView> {
    scan_args(args, 1, default_args())
}

/// The line that tells how the program is called.
pub open spec fn usage_text() -> Seq<char> {
    "Usage: xmeans <data_file_path> [-k <number>] [--mink <number] [--delim <string>]"@
}

impl ParseArgsError {
    /// Whether `text` is the message for this error.
    ///
    /// For something missing or unusable it is the kind, what it was, and the usage line
    /// below. For a failed number it is a fixed opening and then the words that the
    /// number's own error has for itself.
    pub open spec fn is_message(&self, text: Seq<char>) -> bool {
        match *self {
            ParseArgsError::Missing(what) => text == "Missing argument: "@ + what@ + "\n"@
                + usage_text(),
            ParseArgsError::Bad(what) => text == "Bad argument: "@ + what@ + "\n"@ + usage_text(),
            ParseArgsError::ParseIntError(e) => exists|detail: String|
                #![trigger detail@]
                vstd::string::to_string_from_display_ensures::<ParseIntError>(&e, detail) && text
                    == "Error parsing integer: "@ + detail@,
        }
    }

    /// The message to show for this error.
    pub fn to_string(&self) -> (r: String)
        ensures
            self.is_message(r@),
    {
        match self {
            ParseArgsError::Missing(what) => {
                let mut text = String::from_str("Missing argument: ");
                text.append(what);
                text.append("\n");
                text.append(
                    "Usage: xmeans <data_file_path> [-k <number>] [--mink <number] [--delim <string>]",
                );
                text
            },
            ParseArgsError::Bad(what) => {
                let mut text = String::from_str("Bad argument: ");
                text.append(what.as_str());
                text.append("\n");
                text.append(
                    "Usage: xmeans <data_file_path> [-k <number>] [--mink <number] [--delim <string>]",
                );
                text
            },
            ParseArgsError::ParseIntError(e) => {
                let detail = e.to_string();
                let mut text = String::from_str("Error parsing integer: ");
                text.append(detail.as_str());
                text
            },
        }
    }
}

/// Whatever a scan accepts names a data file that ends in `.csv`.
pub proof fn lemma_scan_names_csv_file(args: Seq<Seq<char>>, i: int, acc: ArgsView)
    ensures
        scan_args(args, i, acc) matches Ok(found) ==> is_csv_name(found.file_path),
    decreases args.len() - i,
{
    if 0 <= i < args.len() {
        if is_k_flag(args[i]) || is_min_k_flag(args[i]) {
            if i + 1 < args.len() {
                match written_count(args[i + 1]) {
                    Some(n) => {
                        if is_k_flag(args[i]) {
                            lemma_scan_names_csv_file(args, i + 2, ArgsView { k: n, ..acc });
                        } else {
                            lemma_scan_names_csv_file(args, i + 2, ArgsView { min_k: n, ..acc });
                        }
                    },
                    None => {},
                }
            }
        } else if is_delim_flag(args[i]) {
            if i + 1 < args.len() && encode_utf8(args[i + 1]).len() == 1 {
                lemma_scan_names_csv_file(
                    args,
                    i + 2,
                    ArgsView { delim: encode_utf8(args[i + 1])[0], ..acc },
                );
            }
        } else if acc.file_path.len() == 0 {
            lemma_scan_names_csv_file(args, i + 1, ArgsView { file_path: args[i], ..acc });
        }
    }
}

/// Every command line that is accepted names a data file that ends in `.csv`; without
/// one, or with one of another kind, there are no settings.
pub proof fn lemma_accepted_args_name_csv_file(args: Seq<Seq<char>>)
    ensures
        parse_args_spec(args) matches Ok(found) ==> is_csv_name(found.file_path),
{
    lemma_scan_names_csv_file(args, 1, default_args());
}

/// Whether `s` ends with `.csv`.
fn has_csv_suffix(s: &str) -> (r: bool)
    ensures
        r == is_csv_name(s@),
{
    let n: usize = s.unicode_len();
    n >= 4 && s.get_char(n - 4) == '.' && s.get_char(n - 3) == 'c' && s.get_char(n - 2) == 's'
        && s.get_char(n - 1) == 'v'
}

/// Reads a command line, the program's name first.
///
/// Gives the settings exactly where [`parse_args_spec`] does, and otherwise the error
/// that it names.
pub fn parse_args(args: Vec<String>) -> (r: Result<ParsedArgs, ParseArgsError>)
    ensures
        outcome_view(r) == parse_args_spec(arg_texts(args@)),
{
    let ghost texts = arg_texts(args@);
    let mut fin = ParsedArgs { k: 0, min_k: 2, delim: 0x2c, file_path: String::new() };
    let mut i: usize = 1;
    while i < args.len()
        invariant
            1 <= i,
            texts == arg_texts(args@),
            texts.len() == args.len(),
            scan_args(texts, i as int, fin@) == parse_args_spec(texts),
        decreases args.len() - i,
    {
        let arg: &str = args[i].as_str();
        assert(arg@ == texts[i as int]);
        if arg.eq("-k") || arg.eq("--k") {
            if i + 1 >= args.len() {
                return Err(ParseArgsError::Missing("k needs value"));
            }
            let value: &str = args[i + 1].as_str();
            assert(value@ == texts[i + 1]);
            match parse_count(value) {
                Ok(n) => {
                    fin.k = n;
                },
                Err(e) => {
                    return Err(ParseArgsError::ParseIntError(e));
                },
            }
            i = i + 2;
        } else if arg.eq("--mink") || arg.eq("-mink") || arg.eq("--mk") || arg.eq("-mk") {
            if i + 1 >= args.len() {
                return Err(ParseArgsError::Missing("mink needs value"));
            }
            let value: &str = args[i + 1].as_str();
            assert(value@ == texts[i + 1]);
            match parse_count(value) {
                Ok(n) => {
                    fin.min_k = n;
                },
                Err(e) => {
                    return Err(ParseArgsError::ParseIntError(e));
                },
            }
            i = i + 2;
        } else if arg.eq("--delim") {
            if i + 1 >= args.len() {
                return Err(ParseArgsError::Missing("delim needs value"));
            }
            let value: &str = args[i + 1].as_str();
            assert(value@ == texts[i + 1]);
            if value.len() != 1 {
                return Err(
                    ParseArgsError::Bad(String::from_str("delim must be a single character")),
                );
            }
            fin.delim = value.as_bytes()[0];
            i = i + 2;
        } else if fin.file_path.as_str().is_empty() {
            fin.file_path = args[i].clone();
            i = i + 1;
        } else {
            let mut msg = String::from_str("unknown argument ");
            msg.append(arg);
            return Err(ParseArgsError::Bad(msg));
        }
    }
    if fin.file_path.as_str().is_empty() {
        return Err(ParseArgsError::Missing("file path"));
    }
    if !has_csv_suffix(fin.file_path.as_str()) {
        let mut msg = String::from_str("file (");
        msg.append(fin.file_path.as_str());
        msg.append(") is not a csv file");
        return Err(ParseArgsError::Bad(msg));
    }
    Ok(fin)
}

} // verus!
