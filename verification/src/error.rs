//! What can be wrong with a whole batch. Problems of single readings are not
//! errors: they are counted in the summary of an ingested batch.

use crate::text::{decimal, decimal_digits};
use vstd::prelude::*;
use vstd::string::StringExecFns;

verus! {

#[derive(Clone, Copy, Debug, PartialEq, Eq, Structural)]
pub enum IngestError {
    BatchTooLarge { got: usize, max: usize },
}

impl IngestError {
    /// The text of the error.
    pub open spec fn text(self) -> Seq<char> {
        match self {
            IngestError::BatchTooLarge { got, max } => "batch of "@ + decimal_digits(got as nat)
                + " exceeds max "@ + decimal_digits(max as nat),
        }
    }

    /// The HTTP status of the response: payload too large.
    pub fn status(&self) -> (r: u16)
        ensures
            r == 413,
    {
        match self {
            IngestError::BatchTooLarge { .. } => 413,
        }
    }

    /// The message of the response.
    pub fn message(&self) -> (r: String)
        ensures
            r@ == self.text(),
    {
        match self {
            IngestError::BatchTooLarge { got, max } => {
                let mut text: String = "batch of ".to_owned();
                text.append(decimal(*got as u64).as_str());
                text.append(" exceeds max ");
                text.append(decimal(*max as u64).as_str());
                text
            },
        }
    }
}

/// The message names both sizes, the one that came before the one allowed.
pub proof fn law_the_message_names_both_sizes(got: usize, max: usize)
    ensures
        (IngestError::BatchTooLarge { got, max }).text() == "batch of "@ + decimal_digits(
            got as nat,
        ) + " exceeds max "@ + decimal_digits(max as nat),
{
}

} // verus!
