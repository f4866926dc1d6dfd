//! Errors as they are reported: a class, a code, a message, a remedy, and what more is
//! told for programs to read.

use vstd::prelude::*;

use crate::proc::ChildStatus;
use crate::remove;
use crate::remove::DoorHolder;
use crate::text;

verus! {

/// What kind of failure an error is, which decides the exit status.
#[derive(Clone, Copy, Debug, PartialEq, Eq, Structural)]
pub enum ExitClass {
    Usage,
    State,
    Conflict,
    NotFound,
    External,
    Timeout,
    ChildFailed,
    Internal,
}

/// What more an error tells: how a child ended, who uses a tree, or which resources are
/// there.
#[derive(Debug)]
pub enum Details {
    Nothing,
    Child(ChildStatus),
    Holders(Vec<DoorHolder>),
    Resources(Vec<String>),
}

/// What more a fault tells.
pub enum Told {
    Nothing,
    Child(ChildStatus),
    Holders(Seq<remove::Behind>),
    Resources(Seq<Seq<char>>),
}

impl View for Details {
    type V = Told;

    open spec fn view(&self) -> Told {
        match self {
            Details::Nothing => Told::Nothing,
            Details::Child(child) => Told::Child(*child),
            Details::Holders(holders) => Told::Holders(remove::behind(holders@)),
            Details::Resources(list) => Told::Resources(text::texts(list@)),
        }
    }
}

impl Details {
    /// A copy of what is told.
    pub fn copy(&self) -> (r: Self)
        ensures
            r@ == self@,
    {
        match self {
            Details::Nothing => Details::Nothing,
            Details::Child(child) => Details::Child(*child),
            Details::Holders(holders) => Details::Holders(remove::copy_holders(holders)),
            Details::Resources(list) => Details::Resources(crate::proc::copy_texts(list)),
        }
    }
}

/// An error with what went wrong and what to do about it.
#[derive(Debug)]
pub struct CoreError {
    pub class: ExitClass,
    pub code: String,
    pub message: String,
    pub remedy: String,
    pub details: Details,
}

/// What an error holds.
pub struct Fault {
    pub class: ExitClass,
    pub code: Seq<char>,
    pub message: Seq<char>,
    pub remedy: Seq<char>,
    pub details: Told,
}

impl View for CoreError {
    type V = Fault;

    open spec fn view(&self) -> Fault {
        Fault {
            class: self.class,
            code: self.code@,
            message: self.message@,
            remedy: self.remedy@,
            details: self.details@,
        }
    }
}

/// The fault with the given parts, which tells no more.
pub open spec fn fault(
    class: ExitClass,
    code: Seq<char>,
    message: Seq<char>,
    remedy: Seq<char>,
) -> Fault {
    Fault { class, code, message, remedy, details: Told::Nothing }
}

/// A fault that tells more.
pub open spec fn telling(f: Fault, details: Told) -> Fault {
    Fault { details, ..f }
}

impl CoreError {
    /// The error with the given parts.
    pub fn new(class: ExitClass, code: &str, message: &str, remedy: &str) -> (r: Self)
        ensures
            r@ == fault(class, code@, message@, remedy@),
    {
        CoreError {
            class,
            code: code.to_owned(),
            message: message.to_owned(),
            remedy: remedy.to_owned(),
            details: Details::Nothing,
        }
    }

    /// The error, telling more.
    pub fn with_details(self, details: Details) -> (r: Self)
        ensures
            r@ == telling(self@, details@),
    {
        CoreError {
            class: self.class,
            code: self.code,
            message: self.message,
            remedy: self.remedy,
            details,
        }
    }

    /// A copy of the error.
    pub fn copy(&self) -> (r: Self)
        ensures
            r@ == self@,
    {
        CoreError {
            class: self.class,
            code: self.code.clone(),
            message: self.message.clone(),
            remedy: self.remedy.clone(),
            details: self.details.copy(),
        }
    }
}

} // verus!
