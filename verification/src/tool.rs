//! The sticker tool's decisions for one invocation: request checks, turn
//! and configuration checks, set resolution through the cache, the quota,
//! and the delivery bookkeeping.

use vstd::prelude::*;
use vstd::string::*;
use crate::api::{sticker_list_spec, stickers_from_response, api_result_spec, law_api_success_needs_ok_reply, ApiExchange};
use crate::json::{bool_field, json_parse};
use crate::cache::{
    CacheView, ResolvedSticker, StickerSetCache, StickerSetCacheKey, cache_wf, key_spec, lookup,
    touch_spec, insert_spec, stickers_view, law_cache_stays_bounded, law_get_refreshes_recency,
};
use crate::config::{TelegramStickerConfig, split_once_spec};
use crate::json::{JsonValue, get_spec, str_field, is_string_object, pairs_view, string_object, member};
use crate::messages::{
    args_view, message, tool_string, tool_string_with_args, KEY_ACTION_BLOCKED, KEY_ALIAS_NOT_CONFIGURED,
    KEY_DESCRIPTION, KEY_EMPTY_EMOJI, KEY_EMPTY_TARGET, KEY_MISSING_CREDENTIALS, KEY_MISSING_EMOJI,
    KEY_NO_MATCH, KEY_NO_SETS, KEY_NO_TURN, KEY_PARAM_EMOJI, KEY_QUOTA, KEY_RAW_FILE_ID,
};
use crate::text::{decimal, decimal_spec, is_blank, is_blank_spec};
use crate::turn::{TelegramStickerTurnContext, MAX_STICKERS_PER_TURN};

verus! {

/// What one invocation of the tool reports back.
pub struct ToolResult {
    pub success: bool,
    pub output: Option<JsonValue>,
    pub error: Option<String>,
}

impl ToolResult {
    /// A failed invocation with this message.
    pub fn err(message: String) -> (r: ToolResult)
        ensures
            !r.success,
            r.output is None,
            r.error == Some(message),
    {
        ToolResult { success: false, output: None, error: Some(message) }
    }
}

pub open spec fn string_result_view(r: Result<String, String>) -> Result<Seq<char>, Seq<char>> {
    match r {
        Ok(v) => Ok(v@),
        Err(e) => Err(e@),
    }
}

pub open spec fn unit_result_view(r: Result<(), String>) -> Result<(), Seq<char>> {
    match r {
        Ok(()) => Ok(()),
        Err(e) => Err(e@),
    }
}

/// The checks on one invocation before any Telegram state is touched: the
/// policy verdict on acting, no raw `file_id`, and a present, non-blank
/// string `emoji`, which is what passes.
pub open spec fn request_spec(policy: Result<(), Seq<char>>, args: JsonValue) -> Result<Seq<char>, Seq<char>> {
    match policy {
        Err(e) => Err(message(KEY_ACTION_BLOCKED@, seq![("error"@, e)])),
        Ok(()) => if get_spec(args, "file_id"@) is Some {
            Err(message(KEY_RAW_FILE_ID@, Seq::empty()))
        } else {
            match str_field(args, "emoji"@) {
                None => Err(message(KEY_MISSING_EMOJI@, Seq::empty())),
                Some(e) => if is_blank_spec(e) {
                    Err(message(KEY_EMPTY_EMOJI@, Seq::empty()))
                } else {
                    Ok(e)
                },
            }
        },
    }
}

pub open spec fn sets_view(sets: Seq<String>) -> Seq<Seq<char>> {
    sets.map_values(|s: String| s@)
}

/// The checks on the active turn and its configuration: a turn exists, its
/// alias resolves to a configuration with a non-blank token and base URL,
/// and at least one sticker set is configured.
pub open spec fn turn_spec(
    context: Option<(Seq<char>, Seq<char>, nat)>,
    config: Option<TelegramStickerConfig>,
) -> Result<(), Seq<char>> {
    match context {
        None => Err(message(KEY_NO_TURN@, Seq::empty())),
        Some(t) => match config {
            None => Err(message(KEY_ALIAS_NOT_CONFIGURED@, seq![("alias"@, t.0)])),
            Some(c) => if is_blank_spec(c.bot_token@) || is_blank_spec(c.api_base_url@) {
                Err(message(KEY_MISSING_CREDENTIALS@, Seq::empty()))
            } else if c.sticker_sets@.len() == 0 {
                Err(message(KEY_NO_SETS@, Seq::empty()))
            } else {
                Ok(())
            },
        },
    }
}

/// The turn checks pass exactly when there is a turn, its alias resolved to
/// a configuration, that configuration's bot token and base URL are not
/// blank, and it names at least one sticker set; the form of the token or
/// URL is not otherwise judged.
pub proof fn law_turn_check_passes_exactly(
    context: Option<(Seq<char>, Seq<char>, nat)>,
    config: Option<TelegramStickerConfig>,
)
    ensures
        turn_spec(context, config) is Ok <==> (context is Some && config is Some && !is_blank_spec(
            config.unwrap().bot_token@,
        ) && !is_blank_spec(config.unwrap().api_base_url@) && config.unwrap().sticker_sets@.len() > 0),
{
}

/// The first sticker in `stickers` whose emoji is exactly `emoji`.
pub open spec fn find_emoji(stickers: Seq<(Seq<char>, Seq<char>)>, emoji: Seq<char>) -> Option<(Seq<char>, Seq<char>)>
    decreases stickers.len(),
{
    if stickers.len() == 0 {
        None
    } else if stickers[0].0 == emoji {
        Some(stickers[0])
    } else {
        find_emoji(stickers.drop_first(), emoji)
    }
}

/// One step of resolving an emoji against the configured sets.
pub enum ResolveStep {
    /// The sticker, from this set.
    Found { set_name: String, sticker: ResolvedSticker },
    /// The set at this position of the configuration is not cached: fetch it.
    Fetch { set_index: usize },
    /// Resolution ends with this message.
    Failed(String),
}

pub enum ResolveView {
    Found(Seq<char>, (Seq<char>, Seq<char>)),
    Fetch(int),
    Failed(Seq<char>),
}

impl View for ResolveStep {
    type V = ResolveView;

    open spec fn view(&self) -> ResolveView {
        match self {
            ResolveStep::Found { set_name, sticker } => ResolveView::Found(set_name@, sticker@),
            ResolveStep::Fetch { set_index } => ResolveView::Fetch(*set_index as int),
            ResolveStep::Failed(m) => ResolveView::Failed(m@),
        }
    }
}

pub open spec fn no_match(emoji: Seq<char>) -> Seq<char> {
    message(KEY_NO_MATCH@, seq![("emoji"@, emoji)])
}

/// Resolution from position `j` of `sets` on: the first cached set that
/// holds the emoji gives the sticker, each cached set consulted becomes the
/// most recently used, the first uncached set must be fetched, and past the
/// last set nothing matched.
pub open spec fn resolve_plan(
    c: CacheView,
    base: Seq<char>,
    token: Seq<char>,
    sets: Seq<Seq<char>>,
    emoji: Seq<char>,
    j: int,
) -> (ResolveView, CacheView)
    decreases sets.len() - j,
{
    if j < 0 || j >= sets.len() {
        (ResolveView::Failed(no_match(emoji)), c)
    } else {
        let k = key_spec(base, token, sets[j]);
        match lookup(c, k) {
            None => (ResolveView::Fetch(j), c),
            Some(v) => match find_emoji(v, emoji) {
                Some(s) => (ResolveView::Found(sets[j], s), touch_spec(c, k)),
                None => resolve_plan(touch_spec(c, k), base, token, sets, emoji, j + 1),
            },
        }
    }
}

/// Resolution after fetching set `j`: a failed fetch or listing ends it; a
/// listing is cached, gives the sticker when it holds the emoji, and
/// otherwise resolution goes on with the next set.
pub open spec fn accept_plan(
    c: CacheView,
    base: Seq<char>,
    token: Seq<char>,
    sets: Seq<Seq<char>>,
    emoji: Seq<char>,
    j: int,
    fetched: Result<JsonValue, Seq<char>>,
) -> (ResolveView, CacheView) {
    match fetched {
        Err(e) => (ResolveView::Failed(e), c),
        Ok(reply) => match sticker_list_spec(reply) {
            Err(m) => (ResolveView::Failed(m), c),
            Ok(list) => {
                let c2 = insert_spec(c, key_spec(base, token, sets[j]), list);
                match find_emoji(list, emoji) {
                    Some(s) => (ResolveView::Found(sets[j], s), c2),
                    None => resolve_plan(c2, base, token, sets, emoji, j + 1),
                }
            },
        },
    }
}

/// Resolution never asks to fetch a set that is already cached, and only
/// asks for sets at or after the starting position.
pub proof fn law_cached_set_not_refetched(
    c: CacheView,
    base: Seq<char>,
    token: Seq<char>,
    sets: Seq<Seq<char>>,
    emoji: Seq<char>,
    j: int,
)
    requires
        cache_wf(c),
    ensures
        cache_wf(resolve_plan(c, base, token, sets, emoji, j).1),
        resolve_plan(c, base, token, sets, emoji, j).0 matches ResolveView::Fetch(i) ==> j <= i < sets.len()
            && lookup(c, key_spec(base, token, sets[i])) is None,
    decreases sets.len() - j,
{
    if 0 <= j < sets.len() {
        let k = key_spec(base, token, sets[j]);
        if lookup(c, k) is Some {
            law_cache_stays_bounded(c, k, Seq::empty());
            let c2 = touch_spec(c, k);
            law_cached_set_not_refetched(c2, base, token, sets, emoji, j + 1);
            if let ResolveView::Fetch(i) = resolve_plan(c, base, token, sets, emoji, j).0 {
                law_get_refreshes_recency(c, k, key_spec(base, token, sets[i]));
            }
        }
    }
}

/// A sticker found in a listing carries exactly the emoji asked for and
/// belongs to that listing.
pub proof fn lemma_find_emoji(stickers: Seq<(Seq<char>, Seq<char>)>, emoji: Seq<char>)
    ensures
        find_emoji(stickers, emoji) matches Some(s) ==> s.0 == emoji && stickers.contains(s),
    decreases stickers.len(),
{
    if stickers.len() > 0 && stickers[0].0 != emoji {
        lemma_find_emoji(stickers.drop_first(), emoji);
        if let Some(s) = find_emoji(stickers.drop_first(), emoji) {
            let i = choose|i: int| 0 <= i < stickers.drop_first().len() && stickers.drop_first()[i] == s;
            assert(stickers[i + 1] == s);
        }
    } else if stickers.len() > 0 {
        assert(stickers[0] == stickers[0]);
    }
}

/// The sticker picked from a listing is its first one with exactly that
/// emoji; there is none exactly when no listed sticker has that emoji.
pub proof fn law_find_emoji_is_first_match(stickers: Seq<(Seq<char>, Seq<char>)>, emoji: Seq<char>)
    ensures
        find_emoji(stickers, emoji) is None <==> (forall|i: int| 0 <= i < stickers.len() ==> (#[trigger] stickers[i]).0 != emoji),
        find_emoji(stickers, emoji) matches Some(s) ==> exists|i: int|
            0 <= i < stickers.len() && #[trigger] stickers[i] == s && s.0 == emoji && (forall|i2: int|
                0 <= i2 < i ==> (#[trigger] stickers[i2]).0 != emoji),
    decreases stickers.len(),
{
    if stickers.len() > 0 {
        let rest = stickers.drop_first();
        law_find_emoji_is_first_match(rest, emoji);
        if stickers[0].0 == emoji {
            assert(stickers[0] == stickers[0]);
        } else {
            assert forall|i: int| 0 <= i < rest.len() implies rest[i] == stickers[i + 1] by {}
            if let Some(s) = find_emoji(rest, emoji) {
                let i = choose|i: int|
                    0 <= i < rest.len() && #[trigger] rest[i] == s && s.0 == emoji && (forall|i2: int|
                        0 <= i2 < i ==> (#[trigger] rest[i2]).0 != emoji);
                assert(stickers[i + 1] == s);
                assert forall|i2: int| 0 <= i2 < i + 1 implies (#[trigger] stickers[i2]).0 != emoji by {
                    if i2 > 0 {
                        assert(stickers[i2] == rest[i2 - 1]);
                    }
                }
            } else {
                assert forall|i: int| 0 <= i < stickers.len() implies (#[trigger] stickers[i]).0 != emoji by {
                    if i > 0 {
                        assert(stickers[i] == rest[i - 1]);
                    }
                }
            }
        }
    }
}

/// Using a set leaves every key's stickers as they were.
proof fn lemma_touch_keeps_lookups(c: CacheView, k: crate::cache::KeyView)
    requires
        cache_wf(c),
    ensures
        cache_wf(touch_spec(c, k)),
        forall|k2: crate::cache::KeyView| #[trigger] lookup(touch_spec(c, k), k2) == lookup(c, k2),
{
    law_cache_stays_bounded(c, k, Seq::empty());
    assert forall|k2: crate::cache::KeyView| #[trigger] lookup(touch_spec(c, k), k2) == lookup(c, k2) by {
        if crate::cache::has_key(c, k) {
            law_get_refreshes_recency(c, k, k2);
        }
    }
}

/// The stickers cached for configured set `q`, if any.
pub open spec fn cached_set(c: CacheView, base: Seq<char>, token: Seq<char>, sets: Seq<Seq<char>>, q: int) -> Option<Seq<(Seq<char>, Seq<char>)>> {
    lookup(c, key_spec(base, token, sets[q]))
}

/// Whether a cached listing holds a sticker with exactly this emoji.
pub open spec fn holds_emoji(v: Seq<(Seq<char>, Seq<char>)>, emoji: Seq<char>) -> bool {
    exists|i: int| 0 <= i < v.len() && (#[trigger] v[i]).0 == emoji
}

/// When the sets from `j` up to `m` are all cached, none before `m` holds the
/// emoji and set `m` does, resolution from `j` goes past the sets without it
/// and yields set `m` with that set's first sticker of exactly this emoji.
pub proof fn law_resolution_takes_first_set_holding_emoji(
    c: CacheView,
    base: Seq<char>,
    token: Seq<char>,
    sets: Seq<Seq<char>>,
    emoji: Seq<char>,
    j: int,
    m: int,
)
    requires
        cache_wf(c),
        0 <= j <= m < sets.len(),
        forall|q: int| j <= q <= m ==> #[trigger] cached_set(c, base, token, sets, q) is Some,
        forall|q: int| j <= q < m ==> !holds_emoji(#[trigger] cached_set(c, base, token, sets, q).unwrap(), emoji),
        holds_emoji(cached_set(c, base, token, sets, m).unwrap(), emoji),
    ensures
        resolve_plan(c, base, token, sets, emoji, j).0 matches ResolveView::Found(name, s) && name == sets[m]
            && (exists|i: int|
            0 <= i < cached_set(c, base, token, sets, m).unwrap().len() && #[trigger] cached_set(
                c,
                base,
                token,
                sets,
                m,
            ).unwrap()[i] == s && s.0 == emoji && (forall|i2: int|
                0 <= i2 < i ==> (#[trigger] cached_set(c, base, token, sets, m).unwrap()[i2]).0 != emoji)),
    decreases m - j,
{
    let k = key_spec(base, token, sets[j]);
    let v = cached_set(c, base, token, sets, j).unwrap();
    assert(cached_set(c, base, token, sets, j) is Some);
    law_find_emoji_is_first_match(v, emoji);
    if j == m {
        if find_emoji(v, emoji) is None {
            let i = choose|i: int| 0 <= i < v.len() && (#[trigger] v[i]).0 == emoji;
            assert(v[i].0 != emoji);
        }
    } else {
        assert(!holds_emoji(v, emoji));
        if let Some(s) = find_emoji(v, emoji) {
            let i = choose|i: int| 0 <= i < v.len() && #[trigger] v[i] == s && s.0 == emoji && (forall|i2: int|
                0 <= i2 < i ==> (#[trigger] v[i2]).0 != emoji);
            assert(v[i].0 == emoji);
        }
        let c2 = touch_spec(c, k);
        lemma_touch_keeps_lookups(c, k);
        assert forall|q: int| 0 <= q < sets.len() implies #[trigger] cached_set(c2, base, token, sets, q) == cached_set(c, base, token, sets, q) by {
            assert(lookup(c2, key_spec(base, token, sets[q])) == lookup(c, key_spec(base, token, sets[q])));
        }
        law_resolution_takes_first_set_holding_emoji(c2, base, token, sets, emoji, j + 1, m);
    }
}

/// When the sets from `j` up to `m` are all cached and none of them holds the
/// emoji, resolution from `j` goes on past all of them: with `m` the last
/// configured set it reports that nothing matches, and otherwise it is
/// resolution from `m + 1` on the cache with those sets used.
pub proof fn law_resolution_skips_sets_without_emoji(
    c: CacheView,
    base: Seq<char>,
    token: Seq<char>,
    sets: Seq<Seq<char>>,
    emoji: Seq<char>,
    j: int,
)
    requires
        cache_wf(c),
        0 <= j < sets.len(),
        cached_set(c, base, token, sets, j) is Some,
        !holds_emoji(cached_set(c, base, token, sets, j).unwrap(), emoji),
    ensures
        resolve_plan(c, base, token, sets, emoji, j) == resolve_plan(
            touch_spec(c, key_spec(base, token, sets[j])),
            base,
            token,
            sets,
            emoji,
            j + 1,
        ),
        j + 1 == sets.len() ==> resolve_plan(c, base, token, sets, emoji, j).0 == ResolveView::Failed(
            message(KEY_NO_MATCH@, seq![("emoji"@, emoji)]),
        ),
{
    let v = cached_set(c, base, token, sets, j).unwrap();
    law_find_emoji_is_first_match(v, emoji);
    if let Some(s) = find_emoji(v, emoji) {
        let i = choose|i: int| 0 <= i < v.len() && #[trigger] v[i] == s && s.0 == emoji && (forall|i2: int|
            0 <= i2 < i ==> (#[trigger] v[i2]).0 != emoji);
        assert(v[i].0 == emoji);
    }
}

/// Resolution from `j` asks for the first configured set at or after `j`
/// that is not cached, when every set before it is cached without the emoji.
pub proof fn law_resolution_fetches_first_uncached_set(
    c: CacheView,
    base: Seq<char>,
    token: Seq<char>,
    sets: Seq<Seq<char>>,
    emoji: Seq<char>,
    j: int,
    m: int,
)
    requires
        cache_wf(c),
        0 <= j <= m < sets.len(),
        forall|q: int| j <= q < m ==> #[trigger] cached_set(c, base, token, sets, q) is Some,
        forall|q: int| j <= q < m ==> !holds_emoji(#[trigger] cached_set(c, base, token, sets, q).unwrap(), emoji),
        cached_set(c, base, token, sets, m) is None,
    ensures
        resolve_plan(c, base, token, sets, emoji, j).0 == ResolveView::Fetch(m),
    decreases m - j,
{
    if j < m {
        let k = key_spec(base, token, sets[j]);
        assert(cached_set(c, base, token, sets, j) is Some);
        assert(!holds_emoji(cached_set(c, base, token, sets, j).unwrap(), emoji));
        law_resolution_skips_sets_without_emoji(c, base, token, sets, emoji, j);
        let c2 = touch_spec(c, k);
        lemma_touch_keeps_lookups(c, k);
        assert forall|q: int| 0 <= q < sets.len() implies #[trigger] cached_set(c2, base, token, sets, q) == cached_set(c, base, token, sets, q) by {
            assert(lookup(c2, key_spec(base, token, sets[q])) == lookup(c, key_spec(base, token, sets[q])));
        }
        law_resolution_fetches_first_uncached_set(c2, base, token, sets, emoji, j + 1, m);
    }
}

/// Resolution only ever yields a sticker whose emoji is exactly the one
/// asked for, from one of the configured sets; no normalisation applies.
pub proof fn law_resolution_matches_exactly(
    c: CacheView,
    base: Seq<char>,
    token: Seq<char>,
    sets: Seq<Seq<char>>,
    emoji: Seq<char>,
    j: int,
)
    ensures
        resolve_plan(c, base, token, sets, emoji, j).0 matches ResolveView::Found(name, s) ==> s.0 == emoji
            && sets.contains(name),
    decreases sets.len() - j,
{
    if 0 <= j < sets.len() {
        let k = key_spec(base, token, sets[j]);
        if let Some(v) = lookup(c, k) {
            lemma_find_emoji(v, emoji);
            law_resolution_matches_exactly(touch_spec(c, k), base, token, sets, emoji, j + 1);
        }
    }
}

/// A refused action is reported as refused, whatever the arguments hold.
pub proof fn law_policy_gate_comes_first(e: Seq<char>, args: JsonValue)
    ensures
        request_spec(Err(e), args) == Err::<Seq<char>, Seq<char>>(message(KEY_ACTION_BLOCKED@, seq![("error"@, e)])),
{
}

/// A raw `file_id` argument is always refused, even beside a valid emoji.
pub proof fn law_raw_file_id_refused(args: JsonValue)
    requires
        get_spec(args, "file_id"@) is Some,
    ensures
        request_spec(Ok(()), args) == Err::<Seq<char>, Seq<char>>(message(KEY_RAW_FILE_ID@, Seq::empty())),
{
}

/// A turn that has used its quota gets no send body, only the quota message.
pub proof fn law_quota_refuses_further_sends(count: nat, target: Seq<char>, file_id: Seq<char>)
    ensures
        send_plan(count, target, file_id) is Ok ==> count < MAX_STICKERS_PER_TURN,
        count >= MAX_STICKERS_PER_TURN ==> send_plan(count, target, file_id) == Err::<
            Seq<(Seq<char>, Seq<char>)>,
            Seq<char>,
        >(message(KEY_QUOTA@, seq![("limit"@, decimal_spec(MAX_STICKERS_PER_TURN as nat))])),
{
}

/// A turn's count after one delivery attempt: one more exactly when the
/// `sendSticker` call succeeded.
pub open spec fn delivery_count(count: nat, sent: Result<JsonValue, Seq<char>>) -> nat {
    if sent is Ok {
        count + 1
    } else {
        count
    }
}

/// A turn's count after one invocation reaches delivery: unchanged when the
/// quota or the target refuses, else as the `sendSticker` exchange decides.
pub open spec fn invocation_count(count: nat, target: Seq<char>, file_id: Seq<char>, exchange: ApiExchange) -> nat {
    if send_plan(count, target, file_id) is Ok {
        delivery_count(count, api_result_spec("sendSticker"@, exchange))
    } else {
        count
    }
}

/// Over one invocation the turn's count rises by one exactly when the quota
/// allowed the send and Telegram answered with a 2xx status and a JSON body
/// saying `"ok": true`; otherwise it stays; it never passes the quota.
pub proof fn law_invocation_counts_only_confirmed_sends(
    count: nat,
    target: Seq<char>,
    file_id: Seq<char>,
    exchange: ApiExchange,
)
    requires
        count <= MAX_STICKERS_PER_TURN,
    ensures
        invocation_count(count, target, file_id, exchange) <= MAX_STICKERS_PER_TURN,
        invocation_count(count, target, file_id, exchange) == count || invocation_count(
            count,
            target,
            file_id,
            exchange,
        ) == count + 1,
        invocation_count(count, target, file_id, exchange) == count + 1 <==> (send_plan(
            count,
            target,
            file_id,
        ) is Ok && api_result_spec("sendSticker"@, exchange) is Ok),
        invocation_count(count, target, file_id, exchange) == count + 1 ==> count < MAX_STICKERS_PER_TURN
            && (exchange matches ApiExchange::Received { status, text } && 200 <= status <= 299 && (
        json_parse(text@) matches Some(v) && bool_field(v, "ok"@) == Some(true))),
{
    law_quota_refuses_further_sends(count, target, file_id);
    law_api_success_needs_ok_reply("sendSticker"@, exchange);
}

/// The body of `sendSticker`: the chat, the sticker's file ID and, for a
/// non-empty thread, the thread.
pub open spec fn send_body_fields(chat: Seq<char>, file_id: Seq<char>, thread: Option<Seq<char>>) -> Seq<(Seq<char>, Seq<char>)> {
    match thread {
        Some(t) => if t.len() > 0 {
            seq![("chat_id"@, chat), ("sticker"@, file_id), ("message_thread_id"@, t)]
        } else {
            seq![("chat_id"@, chat), ("sticker"@, file_id)]
        },
        None => seq![("chat_id"@, chat), ("sticker"@, file_id)],
    }
}

/// The quota check, then the reply target's chat, for one delivery.
pub open spec fn send_plan(count: nat, target: Seq<char>, file_id: Seq<char>) -> Result<Seq<(Seq<char>, Seq<char>)>, Seq<char>> {
    if count >= MAX_STICKERS_PER_TURN {
        Err(message(KEY_QUOTA@, seq![("limit"@, decimal_spec(MAX_STICKERS_PER_TURN as nat))]))
    } else {
        let (chat, thread) = match split_once_spec(target, ':') {
            Some((a, b)) => (a, Some(b)),
            None => (target, None),
        };
        if is_blank_spec(chat) {
            Err(message(KEY_EMPTY_TARGET@, Seq::empty()))
        } else {
            Ok(send_body_fields(chat, file_id, thread))
        }
    }
}

/// The output of a delivered sticker: `{"status": "sent", "emoji": ..,
/// "sticker_set": .., "successful_sends": n}`; the file ID stays out.
pub open spec fn sent_output(v: JsonValue, emoji: Seq<char>, set_name: Seq<char>, n: nat) -> bool {
    match v {
        JsonValue::Object(m) => {
            &&& m@.len() == 4
            &&& m@[0].key@ == "status"@ && m@[0].value == JsonValue::String(m@[0].value->String_0)
                && m@[0].value->String_0@ == "sent"@
            &&& m@[1].key@ == "emoji"@ && m@[1].value is String && m@[1].value->String_0@ == emoji
            &&& m@[2].key@ == "sticker_set"@ && m@[2].value is String && m@[2].value->String_0@ == set_name
            &&& m@[3].key@ == "successful_sends"@ && m@[3].value is Number && m@[3].value->Number_0@
                == decimal_spec(n)
        },
        _ => false,
    }
}

/// The report of a delivered sticker has no `file_id` and no `sticker` member.
pub proof fn law_sent_output_hides_file_id(v: JsonValue, emoji: Seq<char>, set_name: Seq<char>, n: nat)
    requires
        sent_output(v, emoji, set_name, n),
    ensures
        get_spec(v, "file_id"@) is None,
        get_spec(v, "sticker"@) is None,
{
    reveal_strlit("status");
    reveal_strlit("emoji");
    reveal_strlit("sticker_set");
    reveal_strlit("successful_sends");
    reveal_strlit("file_id");
    reveal_strlit("sticker");
    reveal_with_fuel(crate::json::member_lookup, 5);
    let m = v->Object_0@;
    assert(m[0].key@.len() != 7 && m[1].key@.len() != 7 && m[2].key@.len() != 7 && m[3].key@.len() != 7);
    assert(m.drop_first().drop_first().drop_first().drop_first().len() == 0);
    assert(m.drop_first()[0] == m[1]);
    assert(m.drop_first().drop_first()[0] == m[2]);
    assert(m.drop_first().drop_first().drop_first()[0] == m[3]);
}

/// Sends configured Telegram stickers to the active Telegram channel turn;
/// it keeps the cache of resolved sticker sets.
pub struct TelegramStickerTool {
    cache: StickerSetCache,
}

impl TelegramStickerTool {
    /// A tool with an empty sticker-set cache.
    pub fn new() -> (r: Self)
        ensures
            r.cache_view() == Seq::<(crate::cache::KeyView, Seq<(Seq<char>, Seq<char>)>)>::empty(),
    {
        TelegramStickerTool { cache: StickerSetCache::new() }
    }

    /// The tool's sticker-set cache.
    pub closed spec fn cache_view(&self) -> CacheView {
        self.cache@
    }

    /// The cache as the tool holds it.
    pub fn cache(&self) -> (r: &StickerSetCache)
        ensures
            r@ == self.cache_view(),
    {
        &self.cache
    }

    pub fn name(&self) -> (r: &'static str)
        ensures
            r@ == "sticker"@,
    {
        "sticker"
    }

    pub fn description(&self) -> (r: String)
        ensures
            r@ == message(KEY_DESCRIPTION@, Seq::empty()),
    {
        tool_string(KEY_DESCRIPTION)
    }

    /// The arguments the tool takes: one required string `emoji`, nothing else.
    pub fn parameters_schema(&self) -> (r: JsonValue)
        ensures
            r is Object,
            r->Object_0@.len() == 4,
            r->Object_0@[0].key@ == "type"@ && r->Object_0@[0].value == JsonValue::String(r->Object_0@[0].value->String_0)
                && r->Object_0@[0].value->String_0@ == "object"@,
            r->Object_0@[1].key@ == "properties"@,
            get_spec(r->Object_0@[1].value, "emoji"@) matches Some(p)
                && is_string_object(p, seq![("type"@, "string"@), ("description"@, message(KEY_PARAM_EMOJI@, Seq::empty()))]),
            r->Object_0@[1].value is Object && r->Object_0@[1].value->Object_0@.len() == 1,
            r->Object_0@[2].key@ == "required"@ && r->Object_0@[2].value is Array
                && r->Object_0@[2].value->Array_0@.len() == 1 && r->Object_0@[2].value->Array_0@[0] is String
                && r->Object_0@[2].value->Array_0@[0]->String_0@ == "emoji"@,
            r->Object_0@[3].key@ == "additionalProperties"@ && r->Object_0@[3].value == JsonValue::Bool(false),
    {
        let d = tool_string(KEY_PARAM_EMOJI);
        let f = [("type", "string"), ("description", d.as_str())];
        assert(pairs_view(f@) =~= seq![("type"@, "string"@), ("description"@, message(KEY_PARAM_EMOJI@, Seq::empty()))]);
        let emoji_schema = string_object(&f);
        let props = JsonValue::Object(vec![member("emoji", emoji_schema)]);
        let required = JsonValue::Array(vec![JsonValue::string("emoji")]);
        let r = JsonValue::Object(vec![
            member("type", JsonValue::string("object")),
            member("properties", props),
            member("required", required),
            member("additionalProperties", JsonValue::Bool(false)),
        ]);
        r
    }

    /// The checks on an invocation's policy verdict and arguments; the emoji
    /// to send when they pass.
    pub fn check_request(policy: Result<(), String>, args: &JsonValue) -> (r: Result<String, String>)
        ensures
            string_result_view(r) == request_spec(unit_result_view(policy), *args),
    {
        if let Err(error) = policy {
            let a = [("error", error.as_str())];
            assert(args_view(a@) =~= seq![("error"@, error@)]);
            return Err(tool_string_with_args(KEY_ACTION_BLOCKED, &a));
        }
        if args.get("file_id").is_some() {
            return Err(tool_string(KEY_RAW_FILE_ID));
        }
        let emoji = match args.str_field("emoji") {
            Some(e) => e,
            None => {
                return Err(tool_string(KEY_MISSING_EMOJI));
            },
        };
        if is_blank(emoji) {
            return Err(tool_string(KEY_EMPTY_EMOJI));
        }
        Ok(String::from_str(emoji))
    }

    /// The checks on the active turn and the configuration its alias resolved to.
    pub fn check_turn(
        context: Option<&TelegramStickerTurnContext>,
        config: Option<TelegramStickerConfig>,
    ) -> (r: Result<TelegramStickerConfig, String>)
        ensures
            match (context, r) {
                (Some(t), Ok(c)) => turn_spec(Some(t@), config) == Ok::<(), Seq<char>>(()) && config == Some(c),
                (Some(t), Err(e)) => turn_spec(Some(t@), config) == Err::<(), Seq<char>>(e@),
                (None, Err(e)) => turn_spec(None, config) == Err::<(), Seq<char>>(e@),
                (None, Ok(_)) => false,
            },
    {
        let context = match context {
            Some(t) => t,
            None => {
                return Err(tool_string(KEY_NO_TURN));
            },
        };
        let config = match config {
            Some(c) => c,
            None => {
                let a = [("alias", context.alias())];
                assert(args_view(a@) =~= seq![("alias"@, context@.0)]);
                return Err(tool_string_with_args(KEY_ALIAS_NOT_CONFIGURED, &a));
            },
        };
        if is_blank(config.bot_token.as_str()) || is_blank(config.api_base_url.as_str()) {
            return Err(tool_string(KEY_MISSING_CREDENTIALS));
        }
        if config.sticker_sets.len() == 0 {
            return Err(tool_string(KEY_NO_SETS));
        }
        Ok(config)
    }

    /// Resolution of `emoji` from the set at position `start` of the
    /// configuration on, through the cache.
    pub fn resolve_from(&mut self, config: &TelegramStickerConfig, emoji: &str, start: usize) -> (r: ResolveStep)
        ensures
            (r@, final(self).cache_view()) == resolve_plan(
                old(self).cache_view(),
                config.api_base_url@,
                config.bot_token@,
                sets_view(config.sticker_sets@),
                emoji@,
                start as int,
            ),
            cache_wf(final(self).cache_view()),
    {
        let ghost base = config.api_base_url@;
        let ghost token = config.bot_token@;
        let ghost sets = sets_view(config.sticker_sets@);
        let ghost c0 = self.cache@;
        let _ = self.cache.len();
        let n = config.sticker_sets.len();
        let mut j = start;
        while j < n
            invariant
                n == config.sticker_sets@.len(),
                c0 == old(self).cache_view(),
                sets == sets_view(config.sticker_sets@),
                base == config.api_base_url@,
                token == config.bot_token@,
                start <= j,
                cache_wf(self.cache@),
                resolve_plan(c0, base, token, sets, emoji@, start as int) == resolve_plan(
                    self.cache@,
                    base,
                    token,
                    sets,
                    emoji@,
                    j as int,
                ),
            decreases n - j,
        {
            let key = StickerSetCacheKey::from_config(config, config.sticker_sets[j].as_str());
            assert(key@ == key_spec(base, token, sets[j as int]));
            match self.cache.get(&key) {
                None => {
                    return ResolveStep::Fetch { set_index: j };
                },
                Some(v) => {
                    match find_sticker(&v, emoji) {
                        Some(s) => {
                            return ResolveStep::Found { set_name: config.sticker_sets[j].clone(), sticker: s };
                        },
                        None => {},
                    }
                },
            }
            j = j + 1;
        }
        let a = [("emoji", emoji)];
        assert(args_view(a@) =~= seq![("emoji"@, emoji@)]);
        ResolveStep::Failed(tool_string_with_args(KEY_NO_MATCH, &a))
    }

    /// Resolution after the set at `set_index` was fetched, given how the
    /// `getStickerSet` call ended.
    pub fn accept_sticker_set(
        &mut self,
        config: &TelegramStickerConfig,
        emoji: &str,
        set_index: usize,
        fetched: Result<JsonValue, String>,
    ) -> (r: ResolveStep)
        requires
            set_index < config.sticker_sets@.len(),
        ensures
            (r@, final(self).cache_view()) == accept_plan(
                old(self).cache_view(),
                config.api_base_url@,
                config.bot_token@,
                sets_view(config.sticker_sets@),
                emoji@,
                set_index as int,
                crate::api::json_result_view(fetched),
            ),
            cache_wf(final(self).cache_view()),
    {
        let _ = self.cache.len();
        let _ = config.sticker_sets.len();
        let reply = match fetched {
            Err(e) => {
                return ResolveStep::Failed(e);
            },
            Ok(v) => v,
        };
        let list = match stickers_from_response(&reply) {
            Err(m) => {
                return ResolveStep::Failed(m);
            },
            Ok(l) => l,
        };
        let key = StickerSetCacheKey::from_config(config, config.sticker_sets[set_index].as_str());
        let found = find_sticker(&list, emoji);
        self.cache.insert(key, list);
        match found {
            Some(s) => ResolveStep::Found { set_name: config.sticker_sets[set_index].clone(), sticker: s },
            None => self.resolve_from(config, emoji, set_index + 1),
        }
    }

    /// The quota check and the `sendSticker` body for delivering `sticker`
    /// in this turn.
    pub fn prepare_send(context: &TelegramStickerTurnContext, sticker: &ResolvedSticker) -> (r: Result<JsonValue, String>)
        ensures
            match (r, send_plan(context@.2, context@.1, sticker.file_id@)) {
                (Ok(b), Ok(f)) => is_string_object(b, f),
                (Err(e), Err(m)) => e@ == m,
                _ => false,
            },
            r is Ok ==> context@.2 < MAX_STICKERS_PER_TURN,
    {
        if context.successful_sends() >= MAX_STICKERS_PER_TURN {
            let limit = decimal(MAX_STICKERS_PER_TURN as u64);
            let a = [("limit", limit.as_str())];
            assert(args_view(a@) =~= seq![("limit"@, decimal_spec(MAX_STICKERS_PER_TURN as nat))]);
            return Err(tool_string_with_args(KEY_QUOTA, &a));
        }
        let (chat, thread) = Self::target_parts(context.reply_target());
        if is_blank(chat) {
            return Err(tool_string(KEY_EMPTY_TARGET));
        }
        let file_id = sticker.file_id.as_str();
        match thread {
            Some(t) => {
                if t.unicode_len() > 0 {
                    let f = [("chat_id", chat), ("sticker", file_id), ("message_thread_id", t)];
                    assert(pairs_view(f@) =~= send_body_fields(chat@, file_id@, Some(t@)));
                    return Ok(string_object(&f));
                }
            },
            None => {},
        }
        let f = [("chat_id", chat), ("sticker", file_id)];
        assert(pairs_view(f@) =~= send_body_fields(chat@, file_id@, match thread { Some(t) => Some(t@), None => None }));
        Ok(string_object(&f))
    }

    /// The result of one delivery: a failed `sendSticker` call is reported
    /// and not counted; a successful one is counted and reported with the
    /// turn's new count.
    pub fn finish_send(
        context: &mut TelegramStickerTurnContext,
        emoji: &str,
        set_name: &str,
        sent: Result<JsonValue, String>,
    ) -> (r: ToolResult)
        requires
            old(context)@.2 < MAX_STICKERS_PER_TURN,
        ensures
            final(context)@.2 == delivery_count(old(context)@.2, crate::api::json_result_view(sent)),
            sent is Err ==> final(context)@ == old(context)@ && !r.success && r.output is None && r.error
                == Some(sent->Err_0),
            sent is Ok ==> final(context)@ == (old(context)@.0, old(context)@.1, old(context)@.2 + 1)
                && r.success && r.error is None && (r.output matches Some(o) && sent_output(o, emoji@, set_name@, old(context)@.2 + 1)),
    {
        match sent {
            Err(e) => ToolResult::err(e),
            Ok(_) => {
                context.record_successful_send();
                let n = context.successful_sends();
                let count = decimal(n as u64);
                let output = JsonValue::Object(vec![
                    member("status", JsonValue::string("sent")),
                    member("emoji", JsonValue::string(emoji)),
                    member("sticker_set", JsonValue::string(set_name)),
                    member("successful_sends", JsonValue::Number(count)),
                ]);
                ToolResult { success: true, output: Some(output), error: None }
            },
        }
    }
}

/// The first sticker of `v` with exactly this emoji, copied.
pub fn find_sticker(v: &Vec<ResolvedSticker>, emoji: &str) -> (r: Option<ResolvedSticker>)
    ensures
        r is None <==> find_emoji(stickers_view(v@), emoji@) is None,
        r matches Some(s) ==> find_emoji(stickers_view(v@), emoji@) == Some(s@),
{
    let n = v.len();
    let mut i: usize = 0;
    assert(stickers_view(v@).skip(0) =~= stickers_view(v@));
    while i < n
        invariant
            n == v@.len(),
            i <= n,
            find_emoji(stickers_view(v@), emoji@) == find_emoji(stickers_view(v@).skip(i as int), emoji@),
        decreases n - i,
    {
        assert(stickers_view(v@).skip(i as int).drop_first() =~= stickers_view(v@).skip(i + 1));
        if crate::text::str_eq(v[i].emoji.as_str(), emoji) {
            return Some(ResolvedSticker { emoji: v[i].emoji.clone(), file_id: v[i].file_id.clone() });
        }
        i = i + 1;
    }
    None
}

} // verus!
