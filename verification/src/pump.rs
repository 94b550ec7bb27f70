//! The bookkeeping of the event loop: which socket a readiness token
//! belongs to.
//!
//! Token 0 is the listening socket. The client socket of the slot under key
//! `k` has token `2k + 1`, its backend socket token `2k + 2`: no two sockets
//! share a token, and a token leads back to its socket.

use vstd::prelude::*;
use crate::relay::Side;

verus! {

/// The token of the listening socket.
pub const LISTENER: usize = 0;

/// Whose socket a token names.
#[derive(Clone, Copy, Debug, PartialEq, Eq, Structural)]
pub enum Owner {
    Listener,
    Socket { key: usize, side: Side },
}

/// The token of a socket, as a number.
pub open spec fn token_number(key: usize, side: Side) -> int {
    2 * key + match side {
        Side::Client => 1int,
        Side::Backend => 2int,
    }
}

/// The owner of a token.
pub open spec fn owner_of_token(token: usize) -> Owner {
    if token == LISTENER {
        Owner::Listener
    } else {
        Owner::Socket {
            key: ((token - 1) / 2) as usize,
            side: if (token - 1) % 2 == 0 {
                Side::Client
            } else {
                Side::Backend
            },
        }
    }
}

/// The token of a socket, or `None` where the number does not fit.
pub fn token_of(key: usize, side: Side) -> (token: Option<usize>)
    ensures
        token == if token_number(key, side) <= usize::MAX {
            Some(token_number(key, side) as usize)
        } else {
            None
        },
{
    let offset: usize = match side {
        Side::Client => 1,
        Side::Backend => 2,
    };
    if key > (usize::MAX - offset) / 2 {
        None
    } else {
        Some(2 * key + offset)
    }
}

/// The socket that a token names.
pub fn owner_of(token: usize) -> (owner: Owner)
    ensures
        owner == owner_of_token(token),
{
    if token == LISTENER {
        Owner::Listener
    } else {
        let rest: usize = token - 1;
        Owner::Socket {
            key: rest / 2,
            side: if rest % 2 == 0 {
                Side::Client
            } else {
                Side::Backend
            },
        }
    }
}

/// A token leads back to the socket it was made for, and never to the
/// listener.
pub proof fn lemma_token_leads_back(key: usize, side: Side)
    requires
        token_number(key, side) <= usize::MAX,
    ensures
        owner_of_token(token_number(key, side) as usize) == (Owner::Socket { key, side }),
{
}

/// Two sockets have two tokens: no two slots, and no two sides of a slot,
/// are ever told apart wrongly.
pub proof fn lemma_tokens_differ(key: usize, side: Side, other_key: usize, other_side: Side)
    requires
        key != other_key || side != other_side,
    ensures
        token_number(key, side) != token_number(other_key, other_side),
        token_number(key, side) != LISTENER,
{
}

} // verus!
