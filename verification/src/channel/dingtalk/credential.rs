//! Who the bot is, and the token by which it is known.

use crate::json::{object2, text_value, Json, JsonView};
use crate::message;
use crate::text;
use vstd::prelude::*;

verus! {

/// Who the bot is.
pub struct Credential {
    pub client_id: String,
    pub client_secret: String,
}

impl Credential {
    /// Who the bot is.
    pub fn new(client_id: String, client_secret: String) -> (r: Self)
        ensures
            r.client_id == client_id,
            r.client_secret == client_secret,
    {
        Credential { client_id, client_secret }
    }

    /// What is sent to get a token.
    pub fn token_request(&self) -> (r: Json)
        ensures
            r@ == JsonView::Object(
                seq![
                    ("appKey"@, JsonView::Text(self.client_id@)),
                    ("appSecret"@, JsonView::Text(self.client_secret@)),
                ],
            ),
    {
        object2(
            "appKey",
            text_value(self.client_id.as_str()),
            "appSecret",
            text_value(self.client_secret.as_str()),
        )
    }
}

/// A token and until when it is used. Times are in milliseconds.
pub struct TokenState {
    pub token: String,
    pub expiry: i128,
}

/// Until when a token is used that came at that time and lasts for so many
/// seconds: until a minute before it ends, and two hours where it does not say.
pub open spec fn expiry_of(now: u64, expire_in: Option<u64>) -> int {
    now + (match expire_in {
        Some(secs) => secs as int,
        None => 7200,
    }) * 1000 - 60_000
}

impl TokenState {
    /// No token.
    pub fn new() -> (r: Self)
        ensures
            r.token@ == Seq::<char>::empty(),
            r.expiry == 0,
    {
        proof {
            text::lemma_empty_literal();
        }
        TokenState { token: String::new(), expiry: 0 }
    }

    /// The token, where there is one that can still be used.
    pub fn cached(&self, now: u64) -> (r: Option<String>)
        ensures
            message::opt_text(r) == (if self.token@.len() > 0 && now < self.expiry {
                Some(self.token@)
            } else {
                None
            }),
    {
        if !self.token.as_str().is_empty() && (now as i128) < self.expiry {
            Some(self.token.clone())
        } else {
            None
        }
    }

    /// Keeps a token.
    pub fn store(&mut self, token: String, expire_in: Option<u64>, now: u64)
        ensures
            final(self).token == token,
            final(self).expiry == expiry_of(now, expire_in),
    {
        let secs: u64 = match expire_in {
            Some(s) => s,
            None => 7200,
        };
        self.token = token;
        self.expiry = now as i128 + secs as i128 * 1000 - 60_000;
    }

    /// Forgets the token.
    pub fn reset(&mut self)
        ensures
            final(self).token@ == Seq::<char>::empty(),
            final(self).expiry == 0,
    {
        proof {
            text::lemma_empty_literal();
        }
        self.token = String::new();
        self.expiry = 0;
    }
}

/// A token is used only while it lasts, and no longer than until a minute
/// before its end.
pub proof fn law_token_is_fresh(now: u64, secs: u64, later: u64)
    requires
        later < expiry_of(now, Some(secs)),
    ensures
        later + 60_000 < now + secs * 1000,
{
}

/// A token is used until a minute before its end, and not a moment less.
pub proof fn law_token_is_used_while_it_lasts(now: u64, secs: u64, later: u64)
    requires
        later + 60_000 < now + secs * 1000,
    ensures
        later < expiry_of(now, Some(secs)),
{
}

} // verus!
