//! The words of the command line, taken out of a `pico_args::Arguments`.

use crate::config::{
    command_of, depth_of, mutated, parse_depth, read_command, resolve_args, CliArgs, CmdResult,
    CmdResultView, Settings, SettingsError,
};
use crate::text::{split, split_on, texts};
use vstd::prelude::*;

verus! {

/// `pico_args::Arguments`: the words of a command line that are not yet
/// taken. Nothing is known of a value but what `words` names.
#[verifier::external_type_specification]
#[verifier::external_body]
pub struct ExArguments(pico_args::Arguments);

/// `pico_args::Error`: carried through to the caller, never looked into.
#[verifier::external_type_specification]
#[verifier::external_body]
pub struct ExArgumentsError(pico_args::Error);

/// The words that the arguments still hold, in order. `None` stands for a
/// word that is no valid UTF-8.
pub uninterp spec fn words(a: pico_args::Arguments) -> Seq<Option<Seq<char>>>;

/// The first word, if there is one and it is valid UTF-8.
pub open spec fn first_word(ws: Seq<Option<Seq<char>>>) -> Option<Seq<char>> {
    if ws.len() > 0 {
        ws[0]
    } else {
        None
    }
}

/// The words behind the first.
pub open spec fn rest_words(ws: Seq<Option<Seq<char>>>) -> Seq<Option<Seq<char>>> {
    if ws.len() > 0 {
        ws.drop_first()
    } else {
        ws
    }
}

/// The value of the option `key`: the word behind the first word that is
/// `key`. `Some(None)` where no word is `key`; `None` where the key is the
/// last word or its value is no valid UTF-8.
pub open spec fn option_of(ws: Seq<Option<Seq<char>>>, key: Seq<char>) -> Option<Option<Seq<char>>> {
    match ws.index_of_first(Some(key)) {
        None => Some(None),
        Some(i) => if i + 1 < ws.len() && ws[i + 1] is Some {
            Some(ws[i + 1])
        } else {
            None
        },
    }
}

/// The words without the option `key` and its value, where it has one.
pub open spec fn without_option(ws: Seq<Option<Seq<char>>>, key: Seq<char>) -> Seq<
    Option<Seq<char>>,
> {
    match ws.index_of_first(Some(key)) {
        None => ws,
        Some(i) => if i + 1 < ws.len() && ws[i + 1] is Some {
            ws.remove(i).remove(i)
        } else {
            ws
        },
    }
}

/// Calls `pico_args::Arguments::opt_free_from_str` for a `String`. With no
/// word left it gives `Ok(None)` and leaves the arguments alone. Otherwise
/// it takes the first word out, and gives it where it is valid UTF-8 and an
/// error where it is not.
#[verifier::external_body]
fn take_free(pargs: &mut pico_args::Arguments) -> (word: Result<Option<String>, pico_args::Error>)
    ensures
        words(*final(pargs)) == rest_words(words(*old(pargs))),
        words(*old(pargs)).len() == 0 ==> word matches Ok(None),
        words(*old(pargs)).len() > 0 ==> match words(*old(pargs))[0] {
            Some(w) => word matches Ok(Some(s)) && s@ == w,
            None => word is Err,
        },
{
    pargs.opt_free_from_str::<String>()
}

/// Calls `pico_args::Arguments::free_from_str` for a `String`. As
/// `take_free`, but with no word left it gives an error.
#[verifier::external_body]
fn need_free(pargs: &mut pico_args::Arguments) -> (word: Result<String, pico_args::Error>)
    ensures
        words(*final(pargs)) == rest_words(words(*old(pargs))),
        match first_word(words(*old(pargs))) {
            Some(w) => word matches Ok(s) && s@ == w,
            None => word is Err,
        },
{
    pargs.free_from_str::<String>()
}

/// Calls `pico_args::Arguments::opt_value_from_str` for a `String` with one
/// short key. It looks for the first word that is the key. Without one it
/// gives `Ok(None)`. With one it gives the word behind it and takes both
/// out; where no word stands behind it, or one that is no valid UTF-8, it
/// gives an error and takes nothing out. The key has to be a hyphen and one
/// more character, as the outside crate asks of a short key.
#[verifier::external_body]
fn take_option(pargs: &mut pico_args::Arguments, key: &'static str) -> (value: Result<
    Option<String>,
    pico_args::Error,
>)
    requires
        key@.len() == 2,
        key@[0] == '-',
    ensures
        words(*final(pargs)) == without_option(words(*old(pargs)), key@),
        match option_of(words(*old(pargs)), key@) {
            None => value is Err,
            Some(None) => value matches Ok(None),
            Some(Some(w)) => value matches Ok(Some(v)) && v@ == w,
        },
{
    pargs.opt_value_from_str::<&'static str, String>(key)
}

/// Why a command line was refused.
pub enum ArgsError {
    /// A word that `setconfig` needs is missing or no valid UTF-8.
    Word(pico_args::Error),
    /// An option has no value, or one that is no valid UTF-8.
    OptionValue(pico_args::Error),
    /// An option stands where the target or a command belongs.
    OptionBeforeTarget,
    /// The setting named after `setconfig` could not be changed.
    Setting(SettingsError),
    /// The value of `-d` writes no depth.
    DepthNotANumber(String),
}

/// What a command line asks for, with all that is needed to do it.
pub enum Parsed {
    /// Run a search.
    Search(CliArgs),
    /// Show these settings.
    ShowConfig(Settings),
    /// Store these settings.
    StoreConfig(Settings),
}

/// The error is the one that setting `field` gives where it fails: a value
/// unfit for `max_depth`, or else a field that does not exist.
pub open spec fn is_refusal_of(e: SettingsError, field: Seq<char>) -> bool {
    if field == "max_depth"@ {
        e is DepthNotInteger
    } else {
        e matches SettingsError::UnknownField(name) && name@ == field
    }
}

/// Takes the command off the front of the arguments. The first word selects
/// it; a first word that is missing or no valid UTF-8 stands for a search
/// below `"."`. `setconfig` takes the two words behind it as a field and a
/// value and changes the settings with them; nothing else changes them.
pub fn process_command(pargs: &mut pico_args::Arguments, settings: &mut Settings) -> (cmd: Result<
    CmdResult,
    ArgsError,
>)
    ensures
        match command_of(first_word(words(*old(pargs)))) {
            Err(_) => {
                &&& cmd matches Err(ArgsError::OptionBeforeTarget)
                &&& *final(settings) == *old(settings)
                &&& words(*final(pargs)) == rest_words(words(*old(pargs)))
            },
            Ok(CmdResultView::SetConfig) => {
                let r = rest_words(words(*old(pargs)));
                if r.len() >= 2 && r[0] is Some && r[1] is Some {
                    &&& words(*final(pargs)) == r.drop_first().drop_first()
                    &&& match mutated(
                        old(settings).max_depth,
                        texts(old(settings).ignore_list@),
                        r[0]->0,
                        r[1]->0,
                    ) {
                        Some((d, l)) => {
                            &&& cmd matches Ok(c)
                            &&& c@ == CmdResultView::SetConfig
                            &&& final(settings).max_depth == d
                            &&& texts(final(settings).ignore_list@) == l
                        },
                        None => {
                            &&& cmd matches Err(ArgsError::Setting(e))
                            &&& is_refusal_of(e, r[0]->0)
                            &&& *final(settings) == *old(settings)
                        },
                    }
                } else {
                    &&& cmd matches Err(ArgsError::Word(_))
                    &&& *final(settings) == *old(settings)
                    &&& words(*final(pargs)) == if first_word(r) is Some {
                        rest_words(rest_words(r))
                    } else {
                        rest_words(r)
                    }
                }
            },
            Ok(v) => {
                &&& cmd matches Ok(c)
                &&& c@ == v
                &&& *final(settings) == *old(settings)
                &&& words(*final(pargs)) == rest_words(words(*old(pargs)))
            },
        },
{
    let word = match take_free(pargs) {
        Ok(w) => w,
        Err(_) => None,
    };
    match read_command(word) {
        Err(_) => Err(ArgsError::OptionBeforeTarget),
        Ok(CmdResult::SetConfig) => {
            let field = match need_free(pargs) {
                Ok(f) => f,
                Err(e) => {
                    return Err(ArgsError::Word(e));
                },
            };
            let value = match need_free(pargs) {
                Ok(v) => v,
                Err(e) => {
                    return Err(ArgsError::Word(e));
                },
            };
            match settings.mutate(field.as_str(), value.as_str()) {
                Ok(()) => Ok(CmdResult::SetConfig),
                Err(e) => Err(ArgsError::Setting(e)),
            }
        },
        Ok(c) => Ok(c),
    }
}

/// What a search is run with, from the words behind the target: the value
/// of `-d` as a depth and the value of `-e` split at its commas, each in
/// place of the stored setting. `None` where an option has no usable value.
pub open spec fn search_args_of(
    ws: Seq<Option<Seq<char>>>,
    max_depth: i8,
    ignore: Seq<Seq<char>>,
) -> Option<(i8, Seq<Seq<char>>)> {
    let list = option_of(without_option(ws, "-d"@), "-e"@);
    match option_of(ws, "-d"@) {
        None => None,
        Some(Some(v)) if depth_of(v) is None => None,
        Some(d) => match list {
            None => None,
            Some(l) => Some(
                (
                    match d {
                        Some(v) => depth_of(v)->0,
                        None => max_depth,
                    },
                    match l {
                        Some(v) => split_on(v, ','),
                        None => ignore,
                    },
                ),
            ),
        },
    }
}

/// Reads a whole command line, given the stored settings. A command gives
/// the settings to show or to store. A target, or no word at all, gives the
/// parameters of a search: the options `-d` and `-e` win over the stored
/// settings.
pub fn parse_args(pargs: &mut pico_args::Arguments, settings: Settings) -> (out: Result<
    Parsed,
    ArgsError,
>)
    ensures
        match command_of(first_word(words(*old(pargs)))) {
            Err(_) => out matches Err(ArgsError::OptionBeforeTarget),
            Ok(CmdResultView::GetConfig) => out matches Ok(Parsed::ShowConfig(s)) && s == settings,
            Ok(CmdResultView::SetConfig) => {
                let r = rest_words(words(*old(pargs)));
                if r.len() >= 2 && r[0] is Some && r[1] is Some {
                    match mutated(
                        settings.max_depth,
                        texts(settings.ignore_list@),
                        r[0]->0,
                        r[1]->0,
                    ) {
                        Some((d, l)) => {
                            &&& out matches Ok(Parsed::StoreConfig(s))
                            &&& s.max_depth == d
                            &&& texts(s.ignore_list@) == l
                        },
                        None => out matches Err(ArgsError::Setting(e)) && is_refusal_of(
                            e,
                            r[0]->0,
                        ),
                    }
                } else {
                    out matches Err(ArgsError::Word(_))
                }
            },
            Ok(CmdResultView::GitPeek(dir)) => match search_args_of(
                rest_words(words(*old(pargs))),
                settings.max_depth,
                texts(settings.ignore_list@),
            ) {
                Some((d, l)) => {
                    &&& out matches Ok(Parsed::Search(a))
                    &&& a.dir@ == dir
                    &&& a.max_depth == d
                    &&& texts(a.ignore_list@) == l
                    &&& words(*final(pargs)) == without_option(
                        without_option(rest_words(words(*old(pargs))), "-d"@),
                        "-e"@,
                    )
                },
                None => match option_of(rest_words(words(*old(pargs))), "-d"@) {
                    Some(Some(v)) if depth_of(v) is None => {
                        &&& out matches Err(ArgsError::DepthNotANumber(t))
                        &&& t@ == v
                    },
                    _ => out matches Err(ArgsError::OptionValue(_)),
                },
            },
        },
{
    let mut settings = settings;
    let cmd = match process_command(pargs, &mut settings) {
        Ok(c) => c,
        Err(e) => {
            return Err(e);
        },
    };
    match cmd {
        CmdResult::GetConfig => Ok(Parsed::ShowConfig(settings)),
        CmdResult::SetConfig => Ok(Parsed::StoreConfig(settings)),
        CmdResult::GitPeek(dir) => {
            proof {
                reveal_strlit("-d");
                reveal_strlit("-e");
            }
            let depth = match take_option(pargs, "-d") {
                Err(e) => {
                    return Err(ArgsError::OptionValue(e));
                },
                Ok(None) => None,
                Ok(Some(v)) => match parse_depth(v.as_str()) {
                    Some(d) => Some(d),
                    None => {
                        return Err(ArgsError::DepthNotANumber(v));
                    },
                },
            };
            let ignore = match take_option(pargs, "-e") {
                Err(e) => {
                    return Err(ArgsError::OptionValue(e));
                },
                Ok(None) => None,
                Ok(Some(v)) => Some(split(v.as_str(), ',')),
            };
            Ok(Parsed::Search(resolve_args(dir, depth, ignore, settings)))
        },
    }
}

} // verus!
