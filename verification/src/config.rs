//! What a search is run with, the stored settings behind it, and the reading
//! of the command line's words.

pub use crate::args::parse_args;
use crate::text::{chars_of, split, split_on, texts};
use vstd::prelude::*;
use vstd::string::*;

verus! {

/// What one search is run with.
pub struct CliArgs {
    /// The directory at which the search starts.
    pub dir: String,
    /// How many levels below the start directory are expanded.
    pub max_depth: i8,
    /// Base names of directories that are passed over.
    pub ignore_list: Vec<String>,
}

/// The stored defaults of the two options.
pub struct Settings {
    pub max_depth: i8,
    pub ignore_list: Vec<String>,
}

/// Why a setting could not be changed.
pub enum SettingsError {
    /// The value given for `max_depth` is no integer of its range.
    DepthNotInteger,
    /// There is no setting of this name.
    UnknownField(String),
}

/// What the first free word of the command line asks for.
pub enum CmdResult {
    /// Show the stored settings.
    GetConfig,
    /// Change a stored setting.
    SetConfig,
    /// Search below this directory.
    GitPeek(String),
}

/// An option stands where the target or a command belongs.
pub struct OptionBeforeTarget {}

/// `c` is one of the ten decimal digits.
pub open spec fn is_digit(c: char) -> bool {
    '0' as int <= c as int && c as int <= '9' as int
}

/// Every character of `s` is a decimal digit.
pub open spec fn all_digits(s: Seq<char>) -> bool {
    forall|i: int| 0 <= i < s.len() ==> is_digit(#[trigger] s[i])
}

/// The number that a text of decimal digits writes.
pub open spec fn number_of(s: Seq<char>) -> int
    decreases s.len(),
{
    if s.len() == 0 {
        0
    } else {
        number_of(s.drop_last()) * 10 + (s.last() as int - '0' as int)
    }
}

/// The depth that a text writes: an optional sign, then at least one decimal
/// digit and nothing else, the number within -128 ..= 127.
pub open spec fn depth_of(s: Seq<char>) -> Option<i8> {
    let signed = s.len() > 0 && (s[0] == '-' || s[0] == '+');
    let digits = if signed {
        s.subrange(1, s.len() as int)
    } else {
        s
    };
    let value = if s.len() > 0 && s[0] == '-' {
        -number_of(digits)
    } else {
        number_of(digits)
    };
    if digits.len() > 0 && all_digits(digits) && -128 <= value <= 127 {
        Some(value as i8)
    } else {
        None
    }
}

/// A text of digits writes no less than any of its beginnings does.
proof fn lemma_number_grows(s: Seq<char>, k: int)
    requires
        0 <= k <= s.len(),
        all_digits(s),
    ensures
        0 <= number_of(s.subrange(0, k)) <= number_of(s),
    decreases s.len(),
{
    if s.len() == 0 {
        assert(s.subrange(0, k) =~= s);
    } else if k == s.len() {
        assert(s.subrange(0, k) =~= s);
        assert(all_digits(s.drop_last()));
        lemma_number_grows(s.drop_last(), k - 1);
        assert(is_digit(s.last()));
    } else {
        assert(all_digits(s.drop_last()));
        lemma_number_grows(s.drop_last(), k);
        assert(s.drop_last().subrange(0, k) =~= s.subrange(0, k));
        assert(is_digit(s.last()));
    }
}

/// Reads a depth from a text.
pub fn parse_depth(text: &str) -> (depth: Option<i8>)
    ensures
        depth == depth_of(text@),
{
    let chars = chars_of(text);
    let n: usize = chars.len();
    if n == 0 {
        return None;
    }
    let negative = chars[0] == '-';
    let first: usize = if negative || chars[0] == '+' {
        1
    } else {
        0
    };
    if first == n {
        return None;
    }
    let ghost digits = text@.subrange(first as int, n as int);
    assert(first == 0 ==> digits =~= text@);
    let mut acc: i32 = 0;
    let mut i: usize = first;
    assert(digits.subrange(0, 0) =~= Seq::<char>::empty());
    while i < n
        invariant
            first <= i <= n,
            n == text@.len(),
            chars@ == text@,
            digits == text@.subrange(first as int, n as int),
            first <= 1,
            first == 1 <==> (text@[0] == '-' || text@[0] == '+'),
            first == 0 ==> digits == text@,
            negative == (text@[0] == '-'),
            all_digits(digits.subrange(0, i - first)),
            acc == number_of(digits.subrange(0, i - first)),
            0 <= acc <= 128,
        decreases n - i,
    {
        let c = chars[i];
        let ghost shorter = digits.subrange(0, i - first);
        let ghost longer = digits.subrange(0, i + 1 - first);
        assert(longer.drop_last() =~= shorter);
        assert(longer.last() == c);
        if c < '0' || c > '9' {
            assert(!is_digit(digits[i - first]));
            return None;
        }
        let d: i32 = (c as u32 - '0' as u32) as i32;
        acc = acc * 10 + d;
        assert forall|j: int| 0 <= j < longer.len() implies is_digit(#[trigger] longer[j]) by {
            if j < shorter.len() {
                assert(longer[j] == shorter[j]);
            }
        }
        if acc > 128 {
            proof {
                if all_digits(digits) {
                    lemma_number_grows(digits, i + 1 - first);
                }
            }
            return None;
        }
        i += 1;
    }
    assert(digits.subrange(0, n - first) =~= digits);
    if negative {
        Some((-acc) as i8)
    } else if acc == 128 {
        None
    } else {
        Some(acc as i8)
    }
}

/// Whether two texts are the same.
pub fn same_text(a: &str, b: &str) -> (same: bool)
    ensures
        same == (a@ == b@),
{
    let x = a.to_owned();
    let y = b.to_owned();
    x == y
}

impl Default for Settings {
    /// The settings of a fresh installation: depth 1, nothing ignored.
    fn default() -> (s: Settings)
        ensures
            s.max_depth == 1,
            s.ignore_list@.len() == 0,
    {
        Settings { max_depth: 1, ignore_list: Vec::new() }
    }
}

/// The depth and the ignore list after one field was set from a text, or
/// `None` where the field is unknown or the value unfit.
pub open spec fn mutated(
    max_depth: i8,
    ignore: Seq<Seq<char>>,
    field: Seq<char>,
    value: Seq<char>,
) -> Option<(i8, Seq<Seq<char>>)> {
    if field == "ignore_list"@ {
        Some((max_depth, split_on(value, ',')))
    } else if field == "max_depth"@ {
        match depth_of(value) {
            Some(d) => Some((d, ignore)),
            None => None,
        }
    } else {
        None
    }
}

impl Settings {
    /// Sets one field from a text. `ignore_list` takes the pieces of the
    /// value between its commas; `max_depth` takes the depth that the value
    /// writes, and fails where it writes none. Any other field name fails.
    /// A call that fails changes nothing.
    pub fn mutate(&mut self, field: &str, value: &str) -> (done: Result<(), SettingsError>)
        ensures
            match mutated(old(self).max_depth, texts(old(self).ignore_list@), field@, value@) {
                Some((d, l)) => {
                    &&& done is Ok
                    &&& final(self).max_depth == d
                    &&& texts(final(self).ignore_list@) == l
                },
                None => done is Err && *final(self) == *old(self),
            },
            if field@ == "ignore_list"@ {
                &&& done is Ok
                &&& texts(final(self).ignore_list@) == split_on(value@, ',')
                &&& final(self).max_depth == old(self).max_depth
            } else if field@ == "max_depth"@ {
                match depth_of(value@) {
                    Some(d) => {
                        &&& done is Ok
                        &&& final(self).max_depth == d
                        &&& final(self).ignore_list == old(self).ignore_list
                    },
                    None => {
                        &&& done matches Err(SettingsError::DepthNotInteger)
                        &&& *final(self) == *old(self)
                    },
                }
            } else {
                &&& done matches Err(SettingsError::UnknownField(name))
                &&& name@ == field@
                &&& *final(self) == *old(self)
            },
    {
        if same_text(field, "ignore_list") {
            self.ignore_list = split(value, ',');
            Ok(())
        } else if same_text(field, "max_depth") {
            match parse_depth(value) {
                Some(d) => {
                    self.max_depth = d;
                    Ok(())
                },
                None => Err(SettingsError::DepthNotInteger),
            }
        } else {
            Err(SettingsError::UnknownField(field.to_owned()))
        }
    }
}

/// The command that the first free word stands for, where `None` stands for
/// a command line without one.
pub open spec fn command_of(word: Option<Seq<char>>) -> Result<CmdResultView, OptionBeforeTarget> {
    match word {
        None => Ok(CmdResultView::GitPeek("."@)),
        Some(w) => if w == "getconfig"@ {
            Ok(CmdResultView::GetConfig)
        } else if w == "setconfig"@ {
            Ok(CmdResultView::SetConfig)
        } else if w == "-d"@ || w == "-e"@ {
            Err(OptionBeforeTarget {  })
        } else {
            Ok(CmdResultView::GitPeek(w))
        },
    }
}

/// The mathematical value of a [`CmdResult`].
pub enum CmdResultView {
    GetConfig,
    SetConfig,
    GitPeek(Seq<char>),
}

impl View for CmdResult {
    type V = CmdResultView;

    open spec fn view(&self) -> CmdResultView {
        match self {
            CmdResult::GetConfig => CmdResultView::GetConfig,
            CmdResult::SetConfig => CmdResultView::SetConfig,
            CmdResult::GitPeek(t) => CmdResultView::GitPeek(t@),
        }
    }
}

/// Decides what the first free word of the command line asks for: one of
/// the two commands, or a search below the directory that it names (below
/// `"."` where there is no word). An option in this place is refused.
pub fn read_command(word: Option<String>) -> (cmd: Result<CmdResult, OptionBeforeTarget>)
    ensures
        match command_of(
            match word {
                Some(w) => Some(w@),
                None => None,
            },
        ) {
            Ok(v) => cmd matches Ok(c) && c@ == v,
            Err(_) => cmd is Err,
        },
{
    match word {
        None => Ok(CmdResult::GitPeek(".".to_owned())),
        Some(w) => {
            if same_text(w.as_str(), "getconfig") {
                Ok(CmdResult::GetConfig)
            } else if same_text(w.as_str(), "setconfig") {
                Ok(CmdResult::SetConfig)
            } else if same_text(w.as_str(), "-d") || same_text(w.as_str(), "-e") {
                Err(OptionBeforeTarget {  })
            } else {
                Ok(CmdResult::GitPeek(w))
            }
        },
    }
}

/// Puts together what a search is run with: the options given on the
/// command line win over the stored settings.
pub fn resolve_args(
    dir: String,
    depth: Option<i8>,
    ignore: Option<Vec<String>>,
    settings: Settings,
) -> (args: CliArgs)
    ensures
        args.dir == dir,
        args.max_depth == match depth {
            Some(d) => d,
            None => settings.max_depth,
        },
        args.ignore_list == match ignore {
            Some(l) => l,
            None => settings.ignore_list,
        },
{
    CliArgs {
        dir,
        max_depth: match depth {
            Some(d) => d,
            None => settings.max_depth,
        },
        ignore_list: match ignore {
            Some(l) => l,
            None => settings.ignore_list,
        },
    }
}

} // verus!
