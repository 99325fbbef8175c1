//! Per-turn Telegram state: the delivery target and the success quota of
//! one agent turn. A new turn starts with a fresh quota.

use vstd::prelude::*;
use vstd::string::*;

verus! {

/// The most stickers one turn may send successfully.
pub const MAX_STICKERS_PER_TURN: usize = 3;

/// The Telegram-only delivery target and success count of one agent turn.
pub struct TelegramStickerTurnContext {
    alias: String,
    reply_target: String,
    successful_sends: usize,
}

impl View for TelegramStickerTurnContext {
    /// (alias, reply_target, successful_sends)
    type V = (Seq<char>, Seq<char>, nat);

    closed spec fn view(&self) -> (Seq<char>, Seq<char>, nat) {
        (self.alias@, self.reply_target@, self.successful_sends as nat)
    }
}

impl TelegramStickerTurnContext {
    #[verifier::type_invariant]
    spec fn inv(self) -> bool {
        self.successful_sends <= MAX_STICKERS_PER_TURN
    }

    /// A turn for the channel `alias` replying to `reply_target`, with no
    /// sticker sent yet.
    pub fn new(alias: &str, reply_target: &str) -> (r: Self)
        ensures
            r@ == (alias@, reply_target@, 0nat),
    {
        TelegramStickerTurnContext {
            alias: String::from_str(alias),
            reply_target: String::from_str(reply_target),
            successful_sends: 0,
        }
    }

    pub fn alias(&self) -> (r: &str)
        ensures
            r@ == self@.0,
    {
        self.alias.as_str()
    }

    pub fn reply_target(&self) -> (r: &str)
        ensures
            r@ == self@.1,
    {
        self.reply_target.as_str()
    }

    /// How many stickers this turn has delivered; never above the quota.
    pub fn successful_sends(&self) -> (r: usize)
        ensures
            r == self@.2,
            r <= MAX_STICKERS_PER_TURN,
    {
        proof {
            use_type_invariant(self);
        }
        self.successful_sends
    }

    /// Counts one delivered sticker.
    pub(crate) fn record_successful_send(&mut self)
        requires
            old(self)@.2 < MAX_STICKERS_PER_TURN,
        ensures
            final(self)@ == (old(self)@.0, old(self)@.1, old(self)@.2 + 1),
    {
        self.successful_sends = self.successful_sends + 1;
    }
}

} // verus!
