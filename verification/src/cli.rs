//! Reading the command line of the wallet tool: `send <amount> <address>`
//! or `balance`.

use vstd::prelude::*;
use vstd::string::*;
use crate::error::{BitcoinError, BitcoinErrorView};

verus! {

/// What the user asked for.
pub enum CliCommand {
    /// Send `amount` of the smallest unit to `address`.
    Send { amount: u64, address: String },
    /// Show the balance.
    Balance,
}

/// What a `CliCommand` stands for: the address by its characters.
pub enum CliCommandView {
    Send { amount: u64, address: Seq<char> },
    Balance,
}

impl View for CliCommand {
    type V = CliCommandView;

    open spec fn view(&self) -> CliCommandView {
        match self {
            CliCommand::Send { amount, address } => CliCommandView::Send {
                amount: *amount,
                address: address@,
            },
            CliCommand::Balance => CliCommandView::Balance,
        }
    }
}

/// Whether every character is one of the ten ASCII digits.
pub open spec fn all_digits(digits: Seq<char>) -> bool {
    forall|i: int| 0 <= i < digits.len() ==> '0' <= #[trigger] digits[i] <= '9'
}

/// The number that a run of ASCII digits writes in base ten.
pub open spec fn digits_value(digits: Seq<char>) -> nat
    decreases digits.len(),
{
    if digits.len() == 0 {
        0
    } else {
        10 * digits_value(digits.drop_last()) + (digits.last() as nat - '0' as nat) as nat
    }
}

/// The number that `text` writes as a `u64`: an optional `+`, then one or
/// more ASCII digits and nothing else, with a value of at most
/// `u64::MAX`. `None` for every other text.
pub open spec fn decimal_u64(text: Seq<char>) -> Option<u64> {
    let digits = if text.len() > 0 && text[0] == '+' {
        text.drop_first()
    } else {
        text
    };
    if digits.len() > 0 && all_digits(digits) && digits_value(digits) <= u64::MAX {
        Some(digits_value(digits) as u64)
    } else {
        None
    }
}

/// Calls `str::parse::<u64>` and drops the error's detail. The contract
/// is what the standard library documents for it: it accepts an optional
/// `+` followed by decimal digits only, and fails on the empty text, on
/// any other character and on a value beyond `u64::MAX`. Verus takes this
/// on trust.
#[verifier::external_body]
fn parse_u64(text: &str) -> (r: Option<u64>)
    ensures
        r == decimal_u64(text@),
{
    text.parse::<u64>().ok()
}

/// The outcome of a call, each side by its view.
pub open spec fn outcome_view(r: Result<CliCommand, BitcoinError>) -> Result<
    CliCommandView,
    BitcoinErrorView,
> {
    match r {
        Ok(command) => Ok(command@),
        Err(error) => Err(error@),
    }
}

/// The `send` command for an amount that was read, or the error for one
/// that was not.
pub open spec fn send_outcome(amount: Option<u64>, address: Seq<char>) -> Result<
    CliCommandView,
    BitcoinErrorView,
> {
    match amount {
        Some(amount) => Ok(CliCommandView::Send { amount, address }),
        None => Err(BitcoinErrorView::InvalidAmount),
    }
}

/// What the arguments ask for.
///
/// No argument, an unknown first word, `send` with fewer than two more
/// arguments and `balance` with any more are parse errors with their
/// texts. `send` reads its amount as a decimal `u64` and takes the
/// address as it is; further arguments are ignored.
pub open spec fn cli_outcome(args: Seq<Seq<char>>) -> Result<CliCommandView, BitcoinErrorView> {
    if args.len() == 0 {
        Err(BitcoinErrorView::ParseError("No command provided"@))
    } else if args[0] == "send"@ {
        if args.len() < 3 {
            Err(BitcoinErrorView::ParseError("Send command requires amount and address"@))
        } else {
            send_outcome(decimal_u64(args[1]), args[2])
        }
    } else if args[0] == "balance"@ {
        if args.len() > 1 {
            Err(BitcoinErrorView::ParseError("Balance command takes no arguments"@))
        } else {
            Ok(CliCommandView::Balance)
        }
    } else {
        Err(
            BitcoinErrorView::ParseError(
                "Unknown command: "@ + args[0] + ". Use 'send' or 'balance'"@,
            ),
        )
    }
}

/// The arguments, each by its characters.
pub open spec fn args_view(args: Seq<String>) -> Seq<Seq<char>> {
    Seq::new(args.len(), |i: int| args[i]@)
}

/// Reads the command from the arguments that follow the program's name.
pub fn parse_cli_args(args: &[String]) -> (r: Result<CliCommand, BitcoinError>)
    ensures
        outcome_view(r) == cli_outcome(args_view(args@)),
{
    if args.len() == 0 {
        return Err(BitcoinError::ParseError("No command provided".to_owned()));
    }
    let send = "send".to_owned();
    let balance = "balance".to_owned();
    assert(args_view(args@)[0] == args@[0]@);
    if args[0] == send {
        if args.len() < 3 {
            return Err(
                BitcoinError::ParseError("Send command requires amount and address".to_owned()),
            );
        }
        assert(args_view(args@)[1] == args@[1]@);
        assert(args_view(args@)[2] == args@[2]@);
        match parse_u64(args[1].as_str()) {
            Some(amount) => Ok(CliCommand::Send { amount, address: args[2].clone() }),
            None => Err(BitcoinError::InvalidAmount),
        }
    } else if args[0] == balance {
        if args.len() > 1 {
            return Err(BitcoinError::ParseError("Balance command takes no arguments".to_owned()));
        }
        Ok(CliCommand::Balance)
    } else {
        let text = "Unknown command: ".to_owned().concat(args[0].as_str()).concat(
            ". Use 'send' or 'balance'",
        );
        Err(BitcoinError::ParseError(text))
    }
}

} // verus!
