//! What comes of the engine's actions.

use vstd::prelude::*;

verus! {

/// Nothing, one value or several.
#[derive(Debug)]
pub enum NoneOneOrMany<T> {
    Nothing,
    One(T),
    Many(Vec<T>),
}

/// One value or several.
#[derive(Debug)]
pub enum OneOrMany<T> {
    One(T),
    Many(Vec<T>),
}

impl<T> NoneOneOrMany<T> {
    /// The values, where there is any.
    pub fn into_option(self) -> (r: Option<OneOrMany<T>>)
        ensures
            match self {
                NoneOneOrMany::Nothing => r is None,
                NoneOneOrMany::One(value) => r == Some(OneOrMany::One(value)),
                NoneOneOrMany::Many(values) => r == Some(OneOrMany::Many(values)),
            },
    {
        match self {
            NoneOneOrMany::Nothing => None,
            NoneOneOrMany::One(value) => Some(OneOrMany::One(value)),
            NoneOneOrMany::Many(values) => Some(OneOrMany::Many(values)),
        }
    }
}

/// What came of an action on a command, by the errors from which the engine cannot recover.
#[derive(Debug)]
pub enum ActionOutput<Error> {
    CancelOrders(NoneOneOrMany<Error>),
    OpenOrders(NoneOneOrMany<Error>),
    ClosePositions(NoneOneOrMany<Error>),
}

impl<Error> ActionOutput<Error> {
    /// The errors that came of the action.
    pub open spec fn errors(self) -> NoneOneOrMany<Error> {
        match self {
            ActionOutput::CancelOrders(errors) => errors,
            ActionOutput::OpenOrders(errors) => errors,
            ActionOutput::ClosePositions(errors) => errors,
        }
    }

    /// The errors from which the engine cannot recover, where there is any.
    pub fn unrecoverable_errors(self) -> (r: Option<OneOrMany<Error>>)
        ensures
            match self.errors() {
                NoneOneOrMany::Nothing => r is None,
                NoneOneOrMany::One(error) => r == Some(OneOrMany::One(error)),
                NoneOneOrMany::Many(errors) => r == Some(OneOrMany::Many(errors)),
            },
    {
        match self {
            ActionOutput::CancelOrders(errors) => errors.into_option(),
            ActionOutput::OpenOrders(errors) => errors.into_option(),
            ActionOutput::ClosePositions(errors) => errors.into_option(),
        }
    }
}

/// Whichever action errors came of, they are the same errors.
pub proof fn law_errors_are_those_of_the_action<Error>(errors: NoneOneOrMany<Error>)
    ensures
        ActionOutput::CancelOrders(errors).errors() == errors,
        ActionOutput::OpenOrders(errors).errors() == errors,
        ActionOutput::ClosePositions(errors).errors() == errors,
{
}

} // verus!
