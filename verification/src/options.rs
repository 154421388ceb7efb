//! What the node is started with.

use vstd::prelude::*;
use vstd::string::*;

verus! {

/// Whether `libp2p` reads `text` as a multiaddress.
pub uninterp spec fn multiaddr_accepts(text: Seq<char>) -> bool;

/// Calls the `FromStr` of `libp2p::Multiaddr` through `str::parse`. Trusted:
/// whether a text is read as a multiaddress depends on the text alone.
#[verifier::external_body]
fn reads_as_multiaddr(text: &str) -> (accepted: bool)
    ensures
        accepted == multiaddr_accepts(text@),
{
    text.parse::<libp2p::Multiaddr>().is_ok()
}

/// The start-up options as contracts speak of them.
pub struct StartupOptionsView {
    pub alias: Seq<char>,
    pub dial: Option<Seq<char>>,
}

/// Why the node cannot start with its arguments.
#[derive(Clone, Copy, Debug, PartialEq, Eq, Structural)]
pub enum StartupError {
    /// The peer to dial is named by a text that is no multiaddress.
    InvalidDialAddress,
}

/// The name that a node speaks under when it is given none.
pub open spec fn default_alias() -> Seq<char> {
    seq!['a', 'n', 'o', 'n']
}

/// The options that the arguments stand for: the first is the alias, the
/// second the address of a peer to dial; what follows is not looked at.
pub open spec fn options_of(arguments: Seq<Seq<char>>) -> StartupOptionsView {
    StartupOptionsView {
        alias: if arguments.len() >= 1 {
            arguments[0]
        } else {
            default_alias()
        },
        dial: if arguments.len() >= 2 {
            Some(arguments[1])
        } else {
            None
        },
    }
}

/// What becomes of the arguments where `dial_accepted` says whether the
/// address to dial, if there is one, is a multiaddress: the options, or the
/// refusal of an address that is none.
pub open spec fn checked_options(arguments: Seq<Seq<char>>, dial_accepted: bool) -> Result<
    StartupOptionsView,
    StartupError,
> {
    if arguments.len() >= 2 && !dial_accepted {
        Err(StartupError::InvalidDialAddress)
    } else {
        Ok(options_of(arguments))
    }
}

/// The texts of the arguments.
pub open spec fn argument_texts(arguments: Seq<String>) -> Seq<Seq<char>> {
    arguments.map_values(|argument: String| argument@)
}

/// What the node is started with: the name it speaks under, and the address
/// of a peer to dial besides those that discovery finds.
#[derive(Debug, PartialEq, Eq)]
pub struct StartupOptions {
    pub alias: String,
    pub dial: Option<String>,
}

impl View for StartupOptions {
    type V = StartupOptionsView;

    open spec fn view(&self) -> StartupOptionsView {
        StartupOptionsView {
            alias: self.alias@,
            dial: match self.dial {
                Some(address) => Some(address@),
                None => None,
            },
        }
    }
}

/// The options as contracts speak of them, or the error.
pub open spec fn outcome_view(outcome: Result<StartupOptions, StartupError>) -> Result<
    StartupOptionsView,
    StartupError,
> {
    match outcome {
        Ok(options) => Ok(options@),
        Err(error) => Err(error),
    }
}

impl StartupOptions {
    /// Reads the options from the arguments of the process, the program's
    /// own name left out, given whether the address to dial is a
    /// multiaddress. Without an alias the node speaks as `anon`.
    pub fn from_checked_arguments(arguments: &[String], dial_accepted: bool) -> (outcome: Result<
        StartupOptions,
        StartupError,
    >)
        ensures
            outcome_view(outcome) == checked_options(argument_texts(arguments@), dial_accepted),
    {
        let alias = if arguments.len() >= 1 {
            arguments[0].clone()
        } else {
            proof {
                reveal_strlit("anon");
                assert("anon"@ =~= default_alias());
            }
            String::from_str("anon")
        };
        if arguments.len() >= 2 {
            if !dial_accepted {
                return Err(StartupError::InvalidDialAddress);
            }
            Ok(StartupOptions { alias, dial: Some(arguments[1].clone()) })
        } else {
            Ok(StartupOptions { alias, dial: None })
        }
    }

    /// Reads the options from the arguments of the process, the program's
    /// own name left out. An address to dial that is no multiaddress is
    /// refused.
    pub fn from_arguments(arguments: &[String]) -> (outcome: Result<StartupOptions, StartupError>)
        ensures
            outcome_view(outcome) == checked_options(
                argument_texts(arguments@),
                arguments@.len() >= 2 && multiaddr_accepts(arguments@[1]@),
            ),
    {
        let dial_accepted = arguments.len() >= 2 && reads_as_multiaddr(arguments[1].as_str());
        StartupOptions::from_checked_arguments(arguments, dial_accepted)
    }
}

} // verus!
