//! The command line of a transfer.
use crate::error::{quoted, quoted_text};
use crate::listing::text_of;
use crate::text::{same_text, views};
use crate::transfer::option_laws::only_what_is_written_is_asked;
use vstd::prelude::*;

verus! {

/// What a transfer does.
#[derive(Clone, Copy, Debug, PartialEq, Eq, Structural)]
pub enum Mode {
    /// Copy what is missing, then verify.
    Copy,
    /// Only verify.
    Verify,
}

/// What a transfer is asked for.
#[derive(Clone, Debug)]
pub struct Options {
    pub mode: Mode,
    pub source: String,
    pub destination: String,
    pub manifest: String,
    pub resume: bool,
}

/// What is asked for on the command line.
#[derive(Clone, Debug)]
pub enum Command {
    /// Show the help.
    Help,
    /// Look at the node roots of a namespace.
    Audit { source: String },
    /// Copy or verify a namespace.
    Transfer(Options),
}

/// Why a command line is refused.
#[derive(Clone, Debug)]
pub enum UsageError {
    /// The first word is no command.
    UnknownCommand { command: String },
    /// An option stands at the end without its value.
    MissingValue { option: String },
    /// A word is no option.
    UnknownOption { argument: String },
    /// A copy without the word that all writers are stopped.
    NotQuiesced,
    /// A verification that is to be resumed.
    ResumeOnVerify,
    /// An option that every transfer has is not there.
    MissingOption { option: String },
    /// An audit with other words than its one option.
    AuditUsage,
}

/// A refusal with its texts as characters.
pub enum UsageView {
    UnknownCommand(Seq<char>),
    MissingValue(Seq<char>),
    UnknownOption(Seq<char>),
    NotQuiesced,
    ResumeOnVerify,
    MissingOption(Seq<char>),
    AuditUsage,
}

impl View for UsageError {
    type V = UsageView;

    open spec fn view(&self) -> UsageView {
        match self {
            UsageError::UnknownCommand { command } => UsageView::UnknownCommand(command@),
            UsageError::MissingValue { option } => UsageView::MissingValue(option@),
            UsageError::UnknownOption { argument } => UsageView::UnknownOption(argument@),
            UsageError::NotQuiesced => UsageView::NotQuiesced,
            UsageError::ResumeOnVerify => UsageView::ResumeOnVerify,
            UsageError::MissingOption { option } => UsageView::MissingOption(option@),
            UsageError::AuditUsage => UsageView::AuditUsage,
        }
    }
}

impl UsageError {
    /// The words that go with a refusal.
    pub open spec fn words(self) -> Seq<char> {
        match self {
            UsageError::UnknownCommand { command } => "unknown command "@ + quoted_text(command@)
                + "; use --help"@,
            UsageError::MissingValue { option } => option@ + " requires a value"@,
            UsageError::UnknownOption { argument } => "unknown option "@ + quoted_text(argument@)
                + "; use --help"@,
            UsageError::NotQuiesced =>
                "copy requires --quiesced; stop both namespaces' writers first"@,
            UsageError::ResumeOnVerify => "--resume applies only to copy"@,
            UsageError::MissingOption { option } => "missing "@ + option@,
            UsageError::AuditUsage => "usage: celld-store-copy audit --source SPEC"@,
        }
    }

    /// The message that goes with a refusal.
    pub fn message(&self) -> (text: String)
        ensures
            text@ == self.words(),
    {
        match self {
            UsageError::UnknownCommand { command } => {
                let mut text = "unknown command ".to_owned();
                text.append(quoted(command.as_str()).as_str());
                text.append("; use --help");
                text
            },
            UsageError::MissingValue { option } => {
                let mut text = option.clone();
                text.append(" requires a value");
                text
            },
            UsageError::UnknownOption { argument } => {
                let mut text = "unknown option ".to_owned();
                text.append(quoted(argument.as_str()).as_str());
                text.append("; use --help");
                text
            },
            UsageError::NotQuiesced =>
                "copy requires --quiesced; stop both namespaces' writers first".to_owned(),
            UsageError::ResumeOnVerify => "--resume applies only to copy".to_owned(),
            UsageError::MissingOption { option } => {
                let mut text = "missing ".to_owned();
                text.append(option.as_str());
                text
            },
            UsageError::AuditUsage => "usage: celld-store-copy audit --source SPEC".to_owned(),
        }
    }
}

/// The options that words stand for.
#[verifier::ext_equal]
pub struct Flags {
    pub source: Option<Seq<char>>,
    pub destination: Option<Seq<char>>,
    pub manifest: Option<Seq<char>>,
    pub resume: bool,
    pub quiesced: bool,
}

/// No options.
pub open spec fn no_flags() -> Flags {
    Flags { source: None, destination: None, manifest: None, resume: false, quiesced: false }
}

/// The options that the words from `from` on stand for, behind those before: a
/// later value takes the place of an earlier one.
pub open spec fn flags_from(args: Seq<Seq<char>>, from: int, flags: Flags) -> Result<
    Flags,
    UsageView,
>
    decreases args.len() - from,
{
    if from >= args.len() {
        Ok(flags)
    } else if args[from] == "--resume"@ {
        flags_from(args, from + 1, Flags { resume: true, ..flags })
    } else if args[from] == "--quiesced"@ {
        flags_from(args, from + 1, Flags { quiesced: true, ..flags })
    } else if args[from] != "--source"@ && args[from] != "--destination"@ && args[from]
        != "--manifest"@ {
        Err(UsageView::UnknownOption(args[from]))
    } else if from + 1 >= args.len() {
        Err(UsageView::MissingValue(args[from]))
    } else if args[from] == "--source"@ {
        flags_from(args, from + 2, Flags { source: Some(args[from + 1]), ..flags })
    } else if args[from] == "--destination"@ {
        flags_from(args, from + 2, Flags { destination: Some(args[from + 1]), ..flags })
    } else {
        flags_from(args, from + 2, Flags { manifest: Some(args[from + 1]), ..flags })
    }
}

/// The options with their texts as characters.
#[verifier::ext_equal]
pub struct OptionsView {
    pub mode: Mode,
    pub source: Seq<char>,
    pub destination: Seq<char>,
    pub manifest: Seq<char>,
    pub resume: bool,
}

impl View for Options {
    type V = OptionsView;

    open spec fn view(&self) -> OptionsView {
        OptionsView {
            mode: self.mode,
            source: self.source@,
            destination: self.destination@,
            manifest: self.manifest@,
            resume: self.resume,
        }
    }
}

/// What a transfer with these options is asked for.
pub open spec fn options_of(mode: Mode, flags: Flags) -> Result<OptionsView, UsageView> {
    if mode is Copy && !flags.quiesced {
        Err(UsageView::NotQuiesced)
    } else if mode is Verify && flags.resume {
        Err(UsageView::ResumeOnVerify)
    } else {
        match (flags.source, flags.destination, flags.manifest) {
            (None, _, _) => Err(UsageView::MissingOption("--source"@)),
            (Some(_), None, _) => Err(UsageView::MissingOption("--destination"@)),
            (Some(_), Some(_), None) => Err(UsageView::MissingOption("--manifest"@)),
            (Some(source), Some(destination), Some(manifest)) => Ok(
                OptionsView { mode, source, destination, manifest, resume: flags.resume },
            ),
        }
    }
}

/// The word asks for help.
pub open spec fn asks_help(word: Seq<char>) -> bool {
    word == "--help"@ || word == "-h"@ || word == "help"@
}

/// What the words ask for: help, or a transfer, or neither.
pub open spec fn asked(args: Seq<Seq<char>>) -> Result<Option<OptionsView>, UsageView> {
    if args.len() == 0 || asks_help(args[0]) {
        Ok(None)
    } else if args[0] != "copy"@ && args[0] != "verify"@ {
        Err(UsageView::UnknownCommand(args[0]))
    } else {
        let mode = if args[0] == "copy"@ {
            Mode::Copy
        } else {
            Mode::Verify
        };
        match flags_from(args, 1, no_flags()) {
            Err(error) => Err(error),
            Ok(flags) => match options_of(mode, flags) {
                Err(error) => Err(error),
                Ok(options) => Ok(Some(options)),
            },
        }
    }
}

/// What the words of a command line ask for; nothing where they ask for help.
pub fn parse(args: &Vec<String>) -> (parsed: Result<Option<Options>, UsageError>)
    ensures
        match parsed {
            Ok(Some(options)) => asked(views(args@)) == Ok::<Option<OptionsView>, UsageView>(
                Some(options@),
            ),
            Ok(None) => asked(views(args@)) == Ok::<Option<OptionsView>, UsageView>(None),
            Err(error) => asked(views(args@)) == Err::<Option<OptionsView>, UsageView>(error@),
        },
        parsed matches Ok(Some(options)) ==> {
            &&& args@.len() > 0
            &&& options.mode == Mode::Verify <==> args@[0]@ == "verify"@
            &&& options.mode == Mode::Copy <==> args@[0]@ == "copy"@
            &&& options.mode == Mode::Copy ==> exists|i: int|
                1 <= i < args@.len() && (#[trigger] args@[i])@ == "--quiesced"@
            &&& options.resume ==> options.mode == Mode::Copy && exists|i: int|
                1 <= i < args@.len() && (#[trigger] args@[i])@ == "--resume"@
        },
{
    let ghost words = views(args@);
    if args.len() == 0 {
        return Ok(None);
    }
    assert(words[0] == args@[0]@);
    let command = args[0].as_str();
    if same_text(command, "--help") || same_text(command, "-h") || same_text(command, "help") {
        return Ok(None);
    }
    let mode = if same_text(command, "copy") {
        Mode::Copy
    } else if same_text(command, "verify") {
        Mode::Verify
    } else {
        return Err(UsageError::UnknownCommand { command: args[0].clone() });
    };
    let mut source: Option<String> = None;
    let mut destination: Option<String> = None;
    let mut manifest: Option<String> = None;
    let mut resume = false;
    let mut quiesced = false;
    let mut i: usize = 1;
    while i < args.len()
        invariant
            1 <= i <= args@.len(),
            flags_from(words, 1, no_flags()) == flags_from(
                words,
                i as int,
                Flags {
                    source: text_of(source),
                    destination: text_of(destination),
                    manifest: text_of(manifest),
                    resume,
                    quiesced,
                },
            ),
        decreases args@.len() - i,
    {
        let argument = args[i].as_str();
        assert(words[i as int] == args@[i as int]@);
        if same_text(argument, "--resume") {
            resume = true;
            i = i + 1;
        } else if same_text(argument, "--quiesced") {
            quiesced = true;
            i = i + 1;
        } else {
            let to_source = same_text(argument, "--source");
            let to_destination = same_text(argument, "--destination");
            let to_manifest = same_text(argument, "--manifest");
            if !to_source && !to_destination && !to_manifest {
                return Err(UsageError::UnknownOption { argument: args[i].clone() });
            }
            if i + 1 >= args.len() {
                return Err(UsageError::MissingValue { option: args[i].clone() });
            }
            let value = args[i + 1].clone();
            assert(words[i + 1] == args@[i + 1]@);
            if to_source {
                source = Some(value);
            } else if to_destination {
                destination = Some(value);
            } else {
                manifest = Some(value);
            }
            i = i + 2;
        }
    }
    if mode == Mode::Copy && !quiesced {
        return Err(UsageError::NotQuiesced);
    }
    if mode == Mode::Verify && resume {
        return Err(UsageError::ResumeOnVerify);
    }
    let source = match source {
        Some(source) => source,
        None => return Err(UsageError::MissingOption { option: "--source".to_owned() }),
    };
    let destination = match destination {
        Some(destination) => destination,
        None => return Err(UsageError::MissingOption { option: "--destination".to_owned() }),
    };
    let manifest = match manifest {
        Some(manifest) => manifest,
        None => return Err(UsageError::MissingOption { option: "--manifest".to_owned() }),
    };
    proof {
        let view = OptionsView {
            mode,
            source: source@,
            destination: destination@,
            manifest: manifest@,
            resume,
        };
        only_what_is_written_is_asked(words, view);
        if mode is Copy {
            let i = choose|i: int| 1 <= i < words.len() && #[trigger] words[i] == "--quiesced"@;
            assert(args@[i]@ == words[i]);
        }
        if resume {
            let i = choose|i: int| 1 <= i < words.len() && #[trigger] words[i] == "--resume"@;
            assert(args@[i]@ == words[i]);
        }
    }
    Ok(Some(Options { mode, source, destination, manifest, resume }))
}

/// What the words of a command line ask for, an audit among them.
pub fn command(args: &Vec<String>) -> (command: Result<Command, UsageError>)
    ensures
        ({
            let words = views(args@);
            if words.len() > 0 && words[0] == "audit"@ {
                if words.len() == 3 && words[1] == "--source"@ {
                    command matches Ok(Command::Audit { source }) && source@ == words[2]
                } else {
                    command matches Err(UsageError::AuditUsage)
                }
            } else {
                match asked(words) {
                    Ok(None) => command matches Ok(Command::Help),
                    Ok(Some(options)) => command matches Ok(Command::Transfer(given)) && given@
                        == options,
                    Err(error) => command matches Err(given) && given@ == error,
                }
            }
        }),
{
    let ghost words = views(args@);
    assert(args@.len() > 0 ==> words[0] == args@[0]@);
    if args.len() > 0 && same_text(args[0].as_str(), "audit") {
        assert(args@.len() > 1 ==> words[1] == args@[1]@);
        if args.len() != 3 || !same_text(args[1].as_str(), "--source") {
            return Err(UsageError::AuditUsage);
        }
        return Ok(Command::Audit { source: args[2].clone() });
    }
    match parse(args) {
        Ok(Some(options)) => Ok(Command::Transfer(options)),
        Ok(None) => Ok(Command::Help),
        Err(error) => Err(error),
    }
}

} // verus!
