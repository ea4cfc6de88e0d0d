//! Bodies of the HTTP requests and responses of the player service, and the rules on
//! player names.
use vstd::prelude::*;
use vstd::string::*;

use crate::constants::{MAXIMUM_PLAYERNAME_LENGTH, MINIMUM_PLAYERNAME_LENGTH};
use crate::text::{decimal_digits, usize_to_decimal};

verus! {

#[derive(Debug)]
pub struct CreatePlayerRequest {
    pub name: String,
}

#[derive(Debug)]
pub struct RequestNewPlayerResponse {
    pub uuid: String,
    pub name: String,
}

#[derive(Debug)]
pub struct UpdateNameRequest {
    pub name: String,
}

#[derive(Debug)]
pub struct IsValidPlayernameRequest {
    pub name: String,
}

#[derive(Debug)]
pub struct IsValidPlayernameResponse {
    pub is_valid: bool,
    pub reason: Option<String>,
}

/// Why a name of `n` characters is refused for its length, if it is.
pub open spec fn length_reason(n: nat) -> Option<Seq<char>> {
    if n < MINIMUM_PLAYERNAME_LENGTH {
        Some("player name is too short ("@ + decimal_digits(n) + " characters), it should be at least "@
            + decimal_digits(MINIMUM_PLAYERNAME_LENGTH as nat))
    } else if n > MAXIMUM_PLAYERNAME_LENGTH {
        Some("player name is too long ("@ + decimal_digits(n) + " characters), it should be at most "@
            + decimal_digits(MAXIMUM_PLAYERNAME_LENGTH as nat))
    } else {
        None
    }
}

/// Judges the length of a candidate name: a refusal with its reason when the name has
/// fewer than the minimum or more than the maximum number of characters, `None` when
/// the length is fine.
pub fn length_verdict(name: &str) -> (r: Option<IsValidPlayernameResponse>)
    ensures
        match length_reason(name@.len()) {
            Some(why) => r matches Some(v) && !v.is_valid && (v.reason matches Some(t) && t@ == why),
            None => r is None,
        },
{
    let n = name.unicode_len();
    if n < MINIMUM_PLAYERNAME_LENGTH {
        let mut reason = String::from_str("player name is too short (");
        reason.append(usize_to_decimal(n).as_str());
        reason.append(" characters), it should be at least ");
        reason.append(usize_to_decimal(MINIMUM_PLAYERNAME_LENGTH).as_str());
        Some(IsValidPlayernameResponse { is_valid: false, reason: Some(reason) })
    } else if n > MAXIMUM_PLAYERNAME_LENGTH {
        let mut reason = String::from_str("player name is too long (");
        reason.append(usize_to_decimal(n).as_str());
        reason.append(" characters), it should be at most ");
        reason.append(usize_to_decimal(MAXIMUM_PLAYERNAME_LENGTH).as_str());
        Some(IsValidPlayernameResponse { is_valid: false, reason: Some(reason) })
    } else {
        None
    }
}

/// Judges a name of acceptable length by whether another player already has it.
pub fn availability_verdict(taken: bool) -> (v: IsValidPlayernameResponse)
    ensures
        v.is_valid == !taken,
        taken ==> (v.reason matches Some(t) && t@ == "player name already exists"@),
        !taken ==> v.reason is None,
{
    if taken {
        IsValidPlayernameResponse { is_valid: false, reason: Some(String::from_str("player name already exists")) }
    } else {
        IsValidPlayernameResponse { is_valid: true, reason: None }
    }
}

pub open spec fn stem_text(i: int) -> Seq<char> {
    if i == 0 {
        "Sylvain"@
    } else if i == 1 {
        "Risitas"@
    } else if i == 2 {
        "Shermaine"@
    } else {
        "June"@
    }
}

/// How many stems random player names are made from.
pub const NB_NAME_STEMS: usize = 4;

/// A random player name: `#`, the stem numbered `stem`, then `number`.
pub fn compose_playername(stem: usize, number: usize) -> (r: String)
    requires
        stem < NB_NAME_STEMS,
    ensures
        r@ == "#"@ + stem_text(stem as int) + decimal_digits(number as nat),
{
    let mut r = String::from_str("#");
    let s = if stem == 0 {
        "Sylvain"
    } else if stem == 1 {
        "Risitas"
    } else if stem == 2 {
        "Shermaine"
    } else {
        "June"
    };
    r.append(s);
    r.append(usize_to_decimal(number).as_str());
    r
}

} // verus!
