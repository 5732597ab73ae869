//! Turning a token into an identifier.
use crate::lexing::lexing::Token;
use crate::parse::parsing::Identifier;
use vstd::prelude::*;

verus! {

/// The identifier that a token spells, if there is a token: its text and its location.
pub fn to_ident(token: Option<Token>) -> (res: Option<Identifier>)
    ensures
        match token {
            Some(tk) => res matches Some(id) && id.view() == (tk.value@, tk.location.view()),
            None => res is None,
        },
{
    if let Some(tk) = token {
        return Some(Identifier { value: tk.value, location: tk.location });
    }
    None
}

} // verus!
