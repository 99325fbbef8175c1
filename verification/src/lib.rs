//! Policy-controlled delivery of configured Telegram stickers during one
//! channel turn: message catalogue, JSON model, request framing, the
//! bounded sticker-set cache, and the per-turn quota.

pub mod text;
pub mod messages;
pub mod json;
pub mod config;
pub mod cache;
pub mod turn;
pub mod api;
pub mod tool;

pub use api::{api_call_result, sticker_set_request, stickers_from_response, ApiExchange};
pub use cache::{ResolvedSticker, StickerSetCache, StickerSetCacheKey, STICKER_SET_CACHE_CAPACITY};
pub use config::TelegramStickerConfig;
pub use json::{JsonMember, JsonValue};
pub use messages::{tool_string, tool_string_with_args};
pub use tool::{ResolveStep, TelegramStickerTool, ToolResult};
pub use turn::{TelegramStickerTurnContext, MAX_STICKERS_PER_TURN};
