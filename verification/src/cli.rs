//! The command-line argument rules: `day month [year] file...`.
//!
//! Day and month are required decimal numbers, range-checked and re-emitted
//! zero-padded to two digits. The year is optional and recognized purely by
//! being exactly four decimal digits in the next position. At least one file
//! path must follow.

use vstd::prelude::*;
use vstd::string::*;

use crate::transform::is_digit;
use crate::worker::DateEdit;

verus! {

/// Every character of `s` is a decimal digit.
pub open spec fn all_digits(s: Seq<char>) -> bool {
    forall|i: int| 0 <= i < s.len() ==> is_digit(#[trigger] s[i])
}

/// The numeric value of a digit text, most significant digit first.
pub open spec fn dec_value(s: Seq<char>) -> int
    decreases s.len(),
{
    if s.len() == 0 {
        0
    } else {
        dec_value(s.drop_last()) * 10 + (s.last() as int - '0' as int)
    }
}

/// A digit text names a number no smaller than zero.
pub proof fn lemma_dec_value_nonneg(s: Seq<char>)
    requires
        all_digits(s),
    ensures
        dec_value(s) >= 0,
    decreases s.len(),
{
    if s.len() > 0 {
        assert(all_digits(s.drop_last()));
        lemma_dec_value_nonneg(s.drop_last());
        assert(is_digit(s.last()));
    }
}

/// The digit character of a value below ten.
pub open spec fn digit_char(d: int) -> char {
    if d == 0 {
        '0'
    } else if d == 1 {
        '1'
    } else if d == 2 {
        '2'
    } else if d == 3 {
        '3'
    } else if d == 4 {
        '4'
    } else if d == 5 {
        '5'
    } else if d == 6 {
        '6'
    } else if d == 7 {
        '7'
    } else if d == 8 {
        '8'
    } else {
        '9'
    }
}

/// The zero-padded two-digit text of a value below one hundred.
pub open spec fn two_digits(v: int) -> Seq<char> {
    seq![digit_char(v / 10), digit_char(v % 10)]
}

/// A day argument: a digit text naming a number from 1 through 31.
pub open spec fn day_ok(s: Seq<char>) -> bool {
    s.len() > 0 && all_digits(s) && 1 <= dec_value(s) <= 31
}

/// A month argument: a digit text naming a number from 1 through 12.
pub open spec fn month_ok(s: Seq<char>) -> bool {
    s.len() > 0 && all_digits(s) && 1 <= dec_value(s) <= 12
}

/// The year lookahead: the next position is taken as a year exactly when it
/// is four decimal digits.
pub open spec fn looks_like_year(s: Seq<char>) -> bool {
    s.len() == 4 && all_digits(s)
}

/// Why an argument list was rejected.
#[derive(Debug, Clone, Copy, PartialEq, Eq, Structural)]
pub enum CliError {
    TooFewArguments,
    InvalidDay,
    InvalidMonth,
    NoFiles,
}

/// An accepted argument list: the requested edit and the files to process.
#[derive(Debug, Clone, PartialEq, Eq)]
pub struct Config {
    pub month: String,
    pub day: String,
    pub year: Option<String>,
    pub files: Vec<String>,
}

/// The mathematical value of a `Config`.
pub struct ConfigView {
    pub month: Seq<char>,
    pub day: Seq<char>,
    pub year: Option<Seq<char>>,
    pub files: Seq<Seq<char>>,
}

impl View for Config {
    type V = ConfigView;

    open spec fn view(&self) -> ConfigView {
        ConfigView {
            month: self.month@,
            day: self.day@,
            year: match self.year {
                Some(y) => Some(y@),
                None => None,
            },
            files: self.files.deep_view(),
        }
    }
}

impl Config {
    /// The requested change, ready to share with every worker of the batch.
    pub fn edit(&self) -> (e: DateEdit)
        ensures
            e@.month == self@.month,
            e@.day == self@.day,
            e@.year == self@.year,
    {
        DateEdit {
            month: self.month.clone(),
            day: self.day.clone(),
            year: match &self.year {
                Some(y) => Some(y.clone()),
                None => None,
            },
        }
    }
}

/// What an argument list means. Too few arguments, a day outside 1..=31, a
/// month outside 1..=12, or no file path left after the optional year are
/// each rejected; otherwise day and month are re-emitted zero-padded, the
/// year is kept exactly when the lookahead saw one, and the remaining
/// positions are the files.
pub open spec fn parse_args_spec(args: Seq<Seq<char>>) -> Result<ConfigView, CliError> {
    if args.len() < 3 {
        Err(CliError::TooFewArguments)
    } else if !day_ok(args[0]) {
        Err(CliError::InvalidDay)
    } else if !month_ok(args[1]) {
        Err(CliError::InvalidMonth)
    } else {
        let skip_n: int = if looks_like_year(args[2]) {
            3
        } else {
            2
        };
        if args.len() <= skip_n {
            Err(CliError::NoFiles)
        } else {
            Ok(
                ConfigView {
                    month: two_digits(dec_value(args[1])),
                    day: two_digits(dec_value(args[0])),
                    year: if looks_like_year(args[2]) {
                        Some(args[2])
                    } else {
                        None
                    },
                    files: args.skip(skip_n),
                },
            )
        }
    }
}

/// A zero-padded two-digit text is two digit characters.
pub proof fn lemma_two_digits_shape(v: int)
    ensures
        two_digits(v).len() == 2,
        all_digits(two_digits(v)),
{
    assert forall|i: int| 0 <= i < 2 implies is_digit(#[trigger] two_digits(v)[i]) by {
        if i == 0 {
            assert(two_digits(v)[0] == digit_char(v / 10));
        } else {
            assert(two_digits(v)[1] == digit_char(v % 10));
        }
    }
}

/// Law: any argument list the rules accept yields a well-formed edit — two
/// digit characters for month and day, four for the year where one was given
/// — and at least one file.
pub proof fn lemma_accepted_args_give_wf_edit(args: Seq<Seq<char>>, cfg: ConfigView)
    requires
        parse_args_spec(args) == Ok::<ConfigView, CliError>(cfg),
    ensures
        cfg.month.len() == 2 && all_digits(cfg.month),
        cfg.day.len() == 2 && all_digits(cfg.day),
        match cfg.year {
            Some(y) => y.len() == 4 && all_digits(y),
            None => true,
        },
        cfg.files.len() >= 1,
{
    lemma_two_digits_shape(dec_value(args[0]));
    lemma_two_digits_shape(dec_value(args[1]));
}

fn is_digit_char(c: char) -> (b: bool)
    ensures
        b == is_digit(c),
{
    let u = c as u32;
    48 <= u && u <= 57
}

/// The value of a digit text, `None` when the text is empty, holds a
/// non-digit, or names a number past `limit`.
fn parse_bounded(s: &str, limit: u32) -> (r: Option<u32>)
    requires
        limit <= 1000,
    ensures
        match r {
            Some(v) => s@.len() > 0 && all_digits(s@) && v as int == dec_value(s@) && v <= limit,
            None => !(s@.len() > 0 && all_digits(s@) && dec_value(s@) <= limit),
        },
{
    let n = s.unicode_len();
    if n == 0 {
        return None;
    }
    let mut v: u32 = 0;
    let mut over: bool = false;
    let mut j: usize = 0;
    while j < n
        invariant
            j <= n,
            n == s@.len(),
            limit <= 1000,
            forall|i: int| 0 <= i < j ==> is_digit(#[trigger] s@[i]),
            !over ==> v as int == dec_value(s@.subrange(0, j as int)) && v <= limit,
            over ==> dec_value(s@.subrange(0, j as int)) > limit,
        decreases n - j,
    {
        let c = s.get_char(j);
        if !is_digit_char(c) {
            return None;
        }
        let d = (c as u32) - 48;
        proof {
            assert(s@.subrange(0, j as int + 1).drop_last() =~= s@.subrange(0, j as int));
            assert(s@.subrange(0, j as int + 1).last() == s@[j as int]);
        }
        if !over {
            let nv = v * 10 + d;
            if nv > limit {
                over = true;
            } else {
                v = nv;
            }
        } else {
            proof {
                assert(all_digits(s@.subrange(0, j as int)));
                lemma_dec_value_nonneg(s@.subrange(0, j as int));
            }
        }
        j += 1;
    }
    proof {
        assert(s@.subrange(0, n as int) =~= s@);
    }
    if over {
        None
    } else {
        Some(v)
    }
}

fn digit_to_str(d: u32) -> (r: &'static str)
    requires
        d <= 9,
    ensures
        r@ == seq![digit_char(d as int)],
{
    let r = match d {
        0 => "0",
        1 => "1",
        2 => "2",
        3 => "3",
        4 => "4",
        5 => "5",
        6 => "6",
        7 => "7",
        8 => "8",
        _ => "9",
    };
    proof {
        reveal_strlit("0");
        reveal_strlit("1");
        reveal_strlit("2");
        reveal_strlit("3");
        reveal_strlit("4");
        reveal_strlit("5");
        reveal_strlit("6");
        reveal_strlit("7");
        reveal_strlit("8");
        reveal_strlit("9");
        assert(r@ =~= seq![digit_char(d as int)]);
    }
    r
}

/// The zero-padded two-digit text of a value below one hundred.
pub fn format_two_digits(v: u32) -> (r: String)
    requires
        v <= 99,
    ensures
        r@ == two_digits(v as int),
{
    let mut r = String::from_str(digit_to_str(v / 10));
    r.append(digit_to_str(v % 10));
    proof {
        assert(r@ =~= two_digits(v as int));
    }
    r
}

fn is_year_arg(s: &str) -> (b: bool)
    ensures
        b == looks_like_year(s@),
{
    let n = s.unicode_len();
    if n != 4 {
        return false;
    }
    let mut j: usize = 0;
    while j < 4
        invariant
            j <= 4,
            n == 4,
            n == s@.len(),
            forall|i: int| 0 <= i < j ==> is_digit(#[trigger] s@[i]),
        decreases 4 - j,
    {
        let c = s.get_char(j);
        if !is_digit_char(c) {
            return false;
        }
        j += 1;
    }
    true
}

/// Read an argument list. Rejections carry the reason; acceptance carries the
/// zero-padded day and month, the year where the lookahead saw one, and the
/// file paths.
pub fn parse_args(args: Vec<String>) -> (r: Result<Config, CliError>)
    ensures
        match r {
            Ok(cfg) => parse_args_spec(args.deep_view()) == Ok::<ConfigView, CliError>(cfg@),
            Err(e) => parse_args_spec(args.deep_view()) == Err::<ConfigView, CliError>(e),
        },
{
    proof {
        assert forall|i: int| 0 <= i < args@.len() implies args.deep_view()[i]
            == #[trigger] args@[i]@ by {}
    }
    if args.len() < 3 {
        return Err(CliError::TooFewArguments);
    }
    let day_num = match parse_bounded(args[0].as_str(), 31) {
        Some(v) if v >= 1 => v,
        _ => {
            return Err(CliError::InvalidDay);
        },
    };
    let month_num = match parse_bounded(args[1].as_str(), 12) {
        Some(v) if v >= 1 => v,
        _ => {
            return Err(CliError::InvalidMonth);
        },
    };
    let has_year = is_year_arg(args[2].as_str());
    let skip_n: usize = if has_year {
        3
    } else {
        2
    };
    if args.len() <= skip_n {
        return Err(CliError::NoFiles);
    }
    let year = if has_year {
        Some(args[2].clone())
    } else {
        None
    };
    let mut files: Vec<String> = Vec::new();
    let mut j: usize = skip_n;
    while j < args.len()
        invariant
            skip_n <= j <= args@.len(),
            files@.len() == j - skip_n,
            forall|i: int| 0 <= i < files@.len() ==> #[trigger] files@[i] == args@[skip_n + i],
        decreases args@.len() - j,
    {
        let f = args[j].clone();
        files.push(f);
        j += 1;
    }
    let cfg = Config {
        month: format_two_digits(month_num),
        day: format_two_digits(day_num),
        year,
        files,
    };
    proof {
        assert(cfg@.files =~= args.deep_view().skip(skip_n as int));
    }
    Ok(cfg)
}

} // verus!
