//! The commands: which of them need the SVD or the firmware, and what they answer.

use vstd::prelude::*;

use crate::explain;
use crate::listing;
use crate::svd_model;
use crate::svd_model::{Model, ModelView};
use crate::text;

verus! {

/// What the user asks for.
#[derive(Debug)]
pub enum Command {
    Check,
    Explain { rule_id: String },
    ListPeripherals,
    ListRegisters { peripheral: String },
    ListFields { peripheral: String, register: String },
    InstallHook,
}

/// What comes of a command.
#[derive(Debug, Clone, Copy, PartialEq, Eq, Structural)]
pub enum Exit {
    Success,
    /// A check found something grave enough.
    Failed,
    /// The command could not be carried out.
    Misused,
}

impl Exit {
    /// The exit code of the process.
    pub fn code(self) -> (r: u8)
        ensures
            r == match self {
                Exit::Success => 0u8,
                Exit::Failed => 1u8,
                Exit::Misused => 2u8,
            },
    {
        match self {
            Exit::Success => 0,
            Exit::Failed => 1,
            Exit::Misused => 2,
        }
    }
}

/// What is printed: an answer, or what is wrong with the question.
pub open spec fn answered(r: Option<Result<String, String>>) -> Option<Result<Seq<char>, Seq<char>>> {
    match r {
        Some(Ok(s)) => Some(Ok(s@)),
        Some(Err(s)) => Some(Err(s@)),
        None => None,
    }
}

/// The answer to a command that needs nothing but itself.
pub open spec fn direct_answer(command: Command, color: bool) -> Option<Result<Seq<char>, Seq<char>>> {
    match command {
        Command::Explain { rule_id } => Some(
            match explain::explanation(rule_id@) {
                Some(e) => Ok(explain::explanation_text(e, color)),
                None => Err(explain::unknown_rule_text(rule_id@)),
            },
        ),
        _ => None,
    }
}

/// The answer to a command that needs the SVD, and no firmware.
pub open spec fn svd_answer(command: Command, model: ModelView, color: bool) -> Option<
    Result<Seq<char>, Seq<char>>,
> {
    match command {
        Command::ListPeripherals => Some(Ok(listing::peripherals_listing(model, color))),
        Command::ListRegisters { peripheral } => {
            let p_name = text::upper_case(peripheral@);
            Some(
                match model.peripheral(p_name) {
                    Some(p) => Ok(listing::registers_listing(p, color)),
                    None => Err(listing::unknown_peripheral(model, p_name)),
                },
            )
        },
        Command::ListFields { peripheral, register } => {
            let p_name = text::upper_case(peripheral@);
            let r_name = text::upper_case(register@);
            Some(
                match model.peripheral(p_name) {
                    None => Err(listing::no_peripheral(p_name)),
                    Some(p) => match svd_model::find_register(p.registers, r_name) {
                        None => Err(listing::no_register(p_name, r_name)),
                        Some(r) => Ok(listing::fields_listing(p, r, color)),
                    },
                },
            )
        },
        _ => None,
    }
}

/// Answers a command that needs nothing but itself; `None` for the others.
pub fn answer_directly(command: &Command, color: bool) -> (r: Option<Result<String, String>>)
    ensures
        answered(r) == direct_answer(*command, color),
{
    match command {
        Command::Explain { rule_id } => Some(explain::explain(rule_id.as_str(), color)),
        _ => None,
    }
}

/// Answers a command that needs the SVD, and no firmware; `None` for the others.
pub fn answer_from_svd(command: &Command, model: &Model, color: bool) -> (r: Option<Result<String, String>>)
    ensures
        answered(r) == svd_answer(*command, model@, color),
{
    match command {
        Command::ListPeripherals => Some(Ok(listing::list_peripherals(model, color))),
        Command::ListRegisters { peripheral } => Some(listing::list_registers(model, peripheral.as_str(), color)),
        Command::ListFields { peripheral, register } => Some(
            listing::list_fields(model, peripheral.as_str(), register.as_str(), color),
        ),
        _ => None,
    }
}

/// What comes of a command that was answered.
pub fn answer_exit(answer: &Result<String, String>) -> (r: Exit)
    ensures
        r == (if answer is Ok {
            Exit::Success
        } else {
            Exit::Misused
        }),
{
    match answer {
        Ok(_) => Exit::Success,
        Err(_) => Exit::Misused,
    }
}

/// What comes of a check.
pub fn check_exit(failed: bool) -> (r: Exit)
    ensures
        r == (if failed {
            Exit::Failed
        } else {
            Exit::Success
        }),
{
    if failed {
        Exit::Failed
    } else {
        Exit::Success
    }
}

} // verus!
