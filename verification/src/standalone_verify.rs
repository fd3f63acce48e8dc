//! The verification program: its arguments, and the course of a run.
use vstd::prelude::*;

use crate::app_error::{AppError, AppErrorKind};
use crate::cli;
use crate::text;

verus! {

/// Touches of a run, unless the arguments say otherwise.
pub const DEFAULT_ATTEMPTS: usize = 1;

#[derive(Debug, Clone, PartialEq, Eq)]
pub struct VerifyOptions {
    pub template_path: String,
    pub attempts: usize,
    pub trace_path: Option<String>,
    pub firmware_path: Option<String>,
    /// Shown with each result, and of no other effect.
    pub label: Option<String>,
}

/// What the arguments ask for.
#[derive(Debug, Clone, PartialEq, Eq)]
pub enum VerifyInvocation {
    Run(VerifyOptions),
    Help,
}

/// Options by their texts; the template may still be missing.
pub struct VerifyOptionsView {
    pub template: Option<Seq<char>>,
    pub attempts: usize,
    pub trace: Option<Seq<char>>,
    pub firmware: Option<Seq<char>>,
    pub label: Option<Seq<char>>,
}

impl View for VerifyOptions {
    type V = VerifyOptionsView;

    open spec fn view(&self) -> VerifyOptionsView {
        VerifyOptionsView {
            template: Some(self.template_path@),
            attempts: self.attempts,
            trace: cli::text_view(self.trace_path),
            firmware: cli::text_view(self.firmware_path),
            label: cli::text_view(self.label),
        }
    }
}

/// What arguments ask for, by its texts.
pub enum VerifyParsed {
    Run(VerifyOptionsView),
    Help,
    /// The message of the error.
    Invalid(Seq<char>),
}

pub open spec fn verify_parsed(result: Result<VerifyInvocation, AppError>) -> VerifyParsed {
    match result {
        Ok(VerifyInvocation::Run(options)) => VerifyParsed::Run(options@),
        Ok(VerifyInvocation::Help) => VerifyParsed::Help,
        Err(error) => VerifyParsed::Invalid(error.text@),
    }
}

/// An option that takes a text.
pub open spec fn takes_text(arg: Seq<char>) -> bool {
    arg == "--template"@ || arg == "--trace"@ || arg == "--firmware"@ || arg == "--label"@
}

/// The message of an option without its text.
pub open spec fn missing_text_message(arg: Seq<char>) -> Seq<char> {
    if arg == "--label"@ {
        "--label requires a value"@
    } else {
        arg + " requires a filename"@
    }
}

/// The options after one that takes a text.
pub open spec fn with_text(
    options: VerifyOptionsView,
    arg: Seq<char>,
    value: Seq<char>,
) -> VerifyOptionsView {
    if arg == "--template"@ {
        VerifyOptionsView { template: Some(value), ..options }
    } else if arg == "--trace"@ {
        VerifyOptionsView { trace: Some(value), ..options }
    } else if arg == "--firmware"@ {
        VerifyOptionsView { firmware: Some(value), ..options }
    } else {
        VerifyOptionsView { label: Some(value), ..options }
    }
}

/// What the arguments from position `i` on ask for, after what came before.
pub open spec fn verify_parsed_from(
    args: Seq<Seq<char>>,
    i: nat,
    options: VerifyOptionsView,
) -> VerifyParsed
    decreases args.len() - i,
{
    if i >= args.len() {
        if options.template is None {
            VerifyParsed::Invalid("--template FILE is required"@)
        } else {
            VerifyParsed::Run(options)
        }
    } else {
        let arg = args[i as int];
        if takes_text(arg) {
            if i + 1 >= args.len() {
                VerifyParsed::Invalid(missing_text_message(arg))
            } else {
                verify_parsed_from(args, i + 2, with_text(options, arg, args[(i + 1) as int]))
            }
        } else if arg == "--attempts"@ {
            if i + 1 >= args.len() {
                VerifyParsed::Invalid("--attempts requires a positive integer"@)
            } else {
                match text::parsed_usize(args[(i + 1) as int]) {
                    None => VerifyParsed::Invalid("--attempts must be a positive integer"@),
                    Some(attempts) => if attempts == 0 {
                        VerifyParsed::Invalid("--attempts must be greater than zero"@)
                    } else {
                        verify_parsed_from(args, i + 2, VerifyOptionsView { attempts, ..options })
                    },
                }
            }
        } else if arg == "-h"@ || arg == "--help"@ {
            VerifyParsed::Help
        } else {
            VerifyParsed::Invalid("unknown option: "@ + arg)
        }
    }
}

/// The options of a run without arguments.
pub open spec fn default_options() -> VerifyOptionsView {
    VerifyOptionsView {
        template: None,
        attempts: DEFAULT_ATTEMPTS,
        trace: None,
        firmware: None,
        label: None,
    }
}

fn refused(message: &str) -> (error: AppError)
    ensures
        error.kind == AppErrorKind::InvalidInput,
        error.text@ == message@,
{
    AppError::invalid_input(message.to_owned())
}

fn is_text_option(arg: &str) -> (text_option: bool)
    ensures
        text_option == takes_text(arg@),
{
    text::same_text(arg, "--template") || text::same_text(arg, "--trace") || text::same_text(
        arg,
        "--firmware",
    ) || text::same_text(arg, "--label")
}

/// Parses the arguments of the program, without its name. Of an option that is
/// given twice the last one counts; the first error, or a request for help
/// before it, decides.
pub fn parse_arguments(args: &Vec<String>) -> (result: Result<VerifyInvocation, AppError>)
    ensures
        verify_parsed(result) == verify_parsed_from(cli::texts(args@), 0, default_options()),
        result is Err ==> result->Err_0.kind == AppErrorKind::InvalidInput,
{
    let ghost all = cli::texts(args@);
    let mut template_path: Option<String> = None;
    let mut attempts: usize = DEFAULT_ATTEMPTS;
    let mut trace_path: Option<String> = None;
    let mut firmware_path: Option<String> = None;
    let mut label: Option<String> = None;
    let mut i: usize = 0;
    while i < args.len()
        invariant
            all == cli::texts(args@),
            i <= args@.len(),
            verify_parsed_from(
                all,
                i as nat,
                VerifyOptionsView {
                    template: cli::text_view(template_path),
                    attempts,
                    trace: cli::text_view(trace_path),
                    firmware: cli::text_view(firmware_path),
                    label: cli::text_view(label),
                },
            ) == verify_parsed_from(cli::texts(args@), 0, default_options()),
        decreases args@.len() - i,
    {
        let arg: &str = args[i].as_str();
        let has_value: bool = args.len() - i >= 2;
        if is_text_option(arg) {
            if !has_value {
                if text::same_text(arg, "--label") {
                    return Err(refused("--label requires a value"));
                }
                let mut message: String = arg.to_owned();
                message.append(" requires a filename");
                return Err(AppError::invalid_input(message));
            }
            let value: String = args[i + 1].clone();
            if text::same_text(arg, "--template") {
                template_path = Some(value);
            } else if text::same_text(arg, "--trace") {
                trace_path = Some(value);
            } else if text::same_text(arg, "--firmware") {
                firmware_path = Some(value);
            } else {
                label = Some(value);
            }
            i = i + 2;
        } else if text::same_text(arg, "--attempts") {
            if !has_value {
                return Err(refused("--attempts requires a positive integer"));
            }
            match text::parse_usize(args[i + 1].as_str()) {
                None => {
                    return Err(refused("--attempts must be a positive integer"));
                },
                Some(number) => {
                    if number == 0 {
                        return Err(refused("--attempts must be greater than zero"));
                    }
                    attempts = number;
                },
            }
            i = i + 2;
        } else if text::same_text(arg, "-h") || text::same_text(arg, "--help") {
            return Ok(VerifyInvocation::Help);
        } else {
            let mut message: String = "unknown option: ".to_owned();
            message.append(arg);
            return Err(AppError::invalid_input(message));
        }
    }
    match template_path {
        None => Err(refused("--template FILE is required")),
        Some(template_path) => Ok(
            VerifyInvocation::Run(
                VerifyOptions { template_path, attempts, trace_path, firmware_path, label },
            ),
        ),
    }
}

/// What a gallery decided about a touch.
#[derive(Debug, Clone, Copy, PartialEq, Eq)]
pub enum VerificationDecision {
    Match,
    NoMatch,
}

pub fn decision_name(decision: VerificationDecision) -> (name: &'static str)
    ensures
        name@ == (match decision {
            VerificationDecision::Match => "MATCH"@,
            VerificationDecision::NoMatch => "NO_MATCH"@,
        }),
{
    match decision {
        VerificationDecision::Match => "MATCH",
        VerificationDecision::NoMatch => "NO_MATCH",
    }
}

/// Why a touch was not verified.
#[derive(Debug, Clone, PartialEq, Eq)]
pub enum VerificationRejection {
    /// The message of the preprocessing stage.
    Preprocess(String),
    PathologicalEdge { pathological_edge_samples: usize },
}

impl VerificationRejection {
    pub open spec fn message_spec(&self) -> Seq<char> {
        match self {
            VerificationRejection::Preprocess(message) => {
                "verification capture rejected during preprocessing: "@ + message@
            },
            VerificationRejection::PathologicalEdge { pathological_edge_samples } => {
                "verification capture rejected: pathological edge samples="@ + text::decimal(
                    *pathological_edge_samples as nat,
                )
            },
        }
    }

    pub fn message(&self) -> (text: String)
        ensures
            text@ == self.message_spec(),
    {
        match self {
            VerificationRejection::Preprocess(message) => {
                let mut out: String = "verification capture rejected during preprocessing: "
                    .to_owned();
                out.append(message.as_str());
                out
            },
            VerificationRejection::PathologicalEdge { pathological_edge_samples } => {
                let mut out: String = "verification capture rejected: pathological edge samples="
                    .to_owned();
                text::push_decimal(&mut out, *pathological_edge_samples as u64);
                out
            },
        }
    }
}

/// A run of the verification program.
#[derive(Debug, Clone, Copy, PartialEq, Eq)]
pub struct VerificationRun {
    pub attempts: usize,
    pub completed: usize,
    pub rejected: usize,
}

impl VerificationRun {
    /// No more touches have been taken than asked for.
    pub open spec fn wf(&self) -> bool {
        self.completed + self.rejected <= self.attempts
    }

    pub fn new(attempts: usize) -> (run: Self)
        ensures
            run.wf(),
            run.attempts == attempts,
            run.completed == 0,
            run.rejected == 0,
    {
        VerificationRun { attempts, completed: 0, rejected: 0 }
    }

    /// Number of the next touch, counted from one, if one is left.
    pub fn next_touch(&self) -> (number: Option<usize>)
        requires
            self.wf(),
        ensures
            number == (if self.completed + self.rejected < self.attempts {
                Some((self.completed + self.rejected + 1) as usize)
            } else {
                None
            }),
    {
        let taken: usize = self.completed + self.rejected;
        if taken < self.attempts {
            Some(taken + 1)
        } else {
            None
        }
    }

    /// Counts a touch as verified or rejected.
    pub fn record(&mut self, verified: bool)
        requires
            old(self).wf(),
            old(self).completed + old(self).rejected < old(self).attempts,
        ensures
            final(self).wf(),
            *final(self) == (VerificationRun {
                attempts: old(self).attempts,
                completed: (old(self).completed + if verified {
                    1int
                } else {
                    0int
                }) as usize,
                rejected: (old(self).rejected + if verified {
                    0int
                } else {
                    1int
                }) as usize,
            }),
    {
        if verified {
            self.completed = self.completed + 1;
        } else {
            self.rejected = self.rejected + 1;
        }
    }
}

} // verus!
