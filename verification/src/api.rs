//! What the tool makes of a Telegram Bot API exchange: the request bodies it
//! sends and the checks it applies to each reply.

use vstd::prelude::*;
use vstd::string::*;
use crate::cache::{ResolvedSticker, stickers_view};
use crate::json::{JsonValue, json_parse, parse_json, bool_field, get_spec, as_array_spec, str_field, is_string_object, pairs_view, string_object};
use crate::messages::{tool_string, KEY_MISSING_METADATA, args_view, message, tool_string_with_args, KEY_API, KEY_HTTP, KEY_RESPONSE_DECODE, KEY_RESPONSE_READ, KEY_TRANSPORT};
use crate::text::{decimal, decimal_spec};

verus! {

/// How one HTTP exchange with the Bot API ended.
pub enum ApiExchange {
    /// The request could not be sent or no response arrived.
    TransportFailed,
    /// A response arrived but its body could not be read.
    ReadFailed,
    /// A response with this status and this body text.
    Received { status: u16, text: String },
}

pub open spec fn method_args(method: Seq<char>) -> Seq<(Seq<char>, Seq<char>)> {
    seq![("method"@, method)]
}

/// The verdict on an exchange: the parsed reply when it is a successful
/// response whose text parses as JSON with `"ok": true`; otherwise the first failure met among
/// transport, reading, HTTP status (outside 200..=299), decoding and API
/// status.
pub open spec fn api_result_spec(method: Seq<char>, exchange: ApiExchange) -> Result<JsonValue, Seq<char>> {
    match exchange {
        ApiExchange::TransportFailed => Err(message(KEY_TRANSPORT@, method_args(method))),
        ApiExchange::ReadFailed => Err(message(KEY_RESPONSE_READ@, method_args(method))),
        ApiExchange::Received { status, text } => {
            if !(200 <= status <= 299) {
                Err(
                    message(
                        KEY_HTTP@,
                        seq![("method"@, method), ("status"@, decimal_spec(status as nat))],
                    ),
                )
            } else {
                match json_parse(text@) {
                    None => Err(message(KEY_RESPONSE_DECODE@, method_args(method))),
                    Some(v) => if bool_field(v, "ok"@) == Some(true) {
                        Ok(v)
                    } else {
                        Err(message(KEY_API@, method_args(method)))
                    },
                }
            }
        },
    }
}

pub open spec fn json_result_view(r: Result<JsonValue, String>) -> Result<JsonValue, Seq<char>> {
    match r {
        Ok(v) => Ok(v),
        Err(e) => Err(e@),
    }
}

/// The outcome of the Bot API call `method` given how its exchange ended.
pub fn api_call_result(method: &str, exchange: ApiExchange) -> (r: Result<JsonValue, String>)
    ensures
        json_result_view(r) == api_result_spec(method@, exchange),
{
    match exchange {
        ApiExchange::TransportFailed => {
            let a = [("method", method)];
            assert(args_view(a@) =~= method_args(method@));
            Err(tool_string_with_args(KEY_TRANSPORT, &a))
        },
        ApiExchange::ReadFailed => {
            let a = [("method", method)];
            assert(args_view(a@) =~= method_args(method@));
            Err(tool_string_with_args(KEY_RESPONSE_READ, &a))
        },
        ApiExchange::Received { status, text } => {
            if !(200 <= status && status <= 299) {
                let code = decimal(status as u64);
                let a = [("method", method), ("status", code.as_str())];
                assert(args_view(a@) =~= seq![("method"@, method@), ("status"@, decimal_spec(status as nat))]);
                return Err(tool_string_with_args(KEY_HTTP, &a));
            }
            match parse_json(text.as_str()) {
                None => {
                    let a = [("method", method)];
                    assert(args_view(a@) =~= method_args(method@));
                    Err(tool_string_with_args(KEY_RESPONSE_DECODE, &a))
                },
                Some(v) => {
                    let ok = match v.get("ok") {
                        Some(x) => x.as_bool(),
                        None => None,
                    };
                    if ok == Some(true) {
                        Ok(v)
                    } else {
                        let a = [("method", method)];
                        assert(args_view(a@) =~= method_args(method@));
                        Err(tool_string_with_args(KEY_API, &a))
                    }
                },
            }
        },
    }
}

/// A Bot API call succeeds only on a response with a 2xx status whose JSON
/// says `"ok": true`, and it then yields that very reply.
pub proof fn law_api_success_needs_ok_reply(method: Seq<char>, exchange: ApiExchange)
    ensures
        api_result_spec(method, exchange) matches Ok(v) ==> (exchange matches ApiExchange::Received {
            status,
            text,
        } && 200 <= status <= 299 && json_parse(text@) == Some(v) && bool_field(v, "ok"@) == Some(true)),
{
}

/// The body of `getStickerSet`: `{"name": set_name}`.
pub fn sticker_set_request(set_name: &str) -> (r: JsonValue)
    ensures
        is_string_object(r, seq![("name"@, set_name@)]),
{
    let f = [("name", set_name)];
    assert(pairs_view(f@) =~= seq![("name"@, set_name@)]);
    string_object(&f)
}

/// A listed sticker kept by the tool: one with a non-empty string emoji and
/// a non-empty string file ID.
pub open spec fn sticker_entry(item: JsonValue) -> Option<(Seq<char>, Seq<char>)> {
    match (str_field(item, "emoji"@), str_field(item, "file_id"@)) {
        (Some(e), Some(f)) => if e.len() > 0 && f.len() > 0 {
            Some((e, f))
        } else {
            None
        },
        _ => None,
    }
}

/// The usable stickers among listed items, in listing order.
pub open spec fn stickers_spec(items: Seq<JsonValue>) -> Seq<(Seq<char>, Seq<char>)>
    decreases items.len(),
{
    if items.len() == 0 {
        Seq::empty()
    } else {
        stickers_spec(items.drop_last()) + match sticker_entry(items.last()) {
            Some(s) => seq![s],
            None => Seq::empty(),
        }
    }
}

/// `result.stickers` of a `getStickerSet` reply, when it is an array.
pub open spec fn listed_items(response: JsonValue) -> Option<Seq<JsonValue>> {
    match get_spec(response, "result"@) {
        Some(r) => match get_spec(r, "stickers"@) {
            Some(s) => as_array_spec(s),
            None => None,
        },
        None => None,
    }
}

pub open spec fn sticker_list_spec(response: JsonValue) -> Result<Seq<(Seq<char>, Seq<char>)>, Seq<char>> {
    match listed_items(response) {
        Some(items) => Ok(stickers_spec(items)),
        None => Err(message(KEY_MISSING_METADATA@, Seq::empty())),
    }
}

/// Every sticker the tool keeps from a listing has a non-empty emoji and a
/// non-empty file ID.
pub proof fn law_kept_stickers_are_complete(items: Seq<JsonValue>)
    ensures
        forall|i: int|
            0 <= i < stickers_spec(items).len() ==> (#[trigger] stickers_spec(items)[i]).0.len() > 0
                && stickers_spec(items)[i].1.len() > 0,
    decreases items.len(),
{
    if items.len() > 0 {
        law_kept_stickers_are_complete(items.drop_last());
        let prev = stickers_spec(items.drop_last());
        assert forall|i: int| 0 <= i < stickers_spec(items).len() implies (#[trigger] stickers_spec(items)[i]).0.len() > 0
            && stickers_spec(items)[i].1.len() > 0 by {
            if i < prev.len() {
                assert(stickers_spec(items)[i] == prev[i]);
            }
        }
    }
}

/// A listed item whose `emoji` and `file_id` are both non-empty strings.
pub open spec fn complete_item(item: JsonValue) -> bool {
    &&& str_field(item, "emoji"@) is Some
    &&& str_field(item, "emoji"@).unwrap().len() > 0
    &&& str_field(item, "file_id"@) is Some
    &&& str_field(item, "file_id"@).unwrap().len() > 0
}

/// The (emoji, file_id) pair of a listed item.
pub open spec fn item_pair(item: JsonValue) -> (Seq<char>, Seq<char>) {
    (str_field(item, "emoji"@).unwrap(), str_field(item, "file_id"@).unwrap())
}

/// The stickers kept from a listing are exactly its items with a non-empty
/// string emoji and a non-empty string file ID, in listing order, each as
/// its (emoji, file_id) pair: none of these is dropped, whatever its emoji
/// looks like, and nothing else is kept.
pub proof fn law_listing_keeps_every_complete_item(items: Seq<JsonValue>)
    ensures
        stickers_spec(items) == items.filter(|it: JsonValue| complete_item(it)).map_values(
            |it: JsonValue| item_pair(it),
        ),
    decreases items.len(),
{
    reveal(Seq::filter);
    if items.len() > 0 {
        law_listing_keeps_every_complete_item(items.drop_last());
        let f = items.drop_last().filter(|it: JsonValue| complete_item(it));
        assert(items.filter(|it: JsonValue| complete_item(it)) == if complete_item(items.last()) {
            f.push(items.last())
        } else {
            f
        });
        if complete_item(items.last()) {
            assert(f.push(items.last()).map_values(|it: JsonValue| item_pair(it)) =~= f.map_values(
                |it: JsonValue| item_pair(it),
            ) + seq![item_pair(items.last())]);
        } else {
            assert(f.map_values(|it: JsonValue| item_pair(it)) =~= f.map_values(|it: JsonValue| item_pair(it))
                + Seq::<(Seq<char>, Seq<char>)>::empty());
        }
    } else {
        assert(items.filter(|it: JsonValue| complete_item(it)).map_values(|it: JsonValue| item_pair(it))
            =~= Seq::<(Seq<char>, Seq<char>)>::empty());
    }
}

/// The stickers of a `getStickerSet` reply.
pub fn stickers_from_response(response: &JsonValue) -> (r: Result<Vec<ResolvedSticker>, String>)
    ensures
        match (r, sticker_list_spec(*response)) {
            (Ok(v), Ok(s)) => stickers_view(v@) == s,
            (Err(e), Err(m)) => e@ == m,
            _ => false,
        },
{
    let items = match response.get("result") {
        Some(result) => match result.get("stickers") {
            Some(s) => s.as_array(),
            None => None,
        },
        None => None,
    };
    let items = match items {
        Some(items) => items,
        None => {
            return Err(tool_string(KEY_MISSING_METADATA));
        },
    };
    let mut out: Vec<ResolvedSticker> = Vec::new();
    let n = items.len();
    let mut i: usize = 0;
    while i < n
        invariant
            n == items@.len(),
            i <= n,
            stickers_view(out@) == stickers_spec(items@.take(i as int)),
        decreases n - i,
    {
        let item = &items[i];
        assert(items@.take(i + 1).drop_last() =~= items@.take(i as int));
        assert(items@.take(i + 1).last() == *item);
        let ghost before = out@;
        match (item.str_field("emoji"), item.str_field("file_id")) {
            (Some(e), Some(f)) => {
                if e.unicode_len() > 0 && f.unicode_len() > 0 {
                    let s = ResolvedSticker { emoji: String::from_str(e), file_id: String::from_str(f) };
                    out.push(s);
                    assert(stickers_view(out@) =~= stickers_view(before) + seq![s@]);
                } else {
                    assert(stickers_view(out@) =~= stickers_view(before) + Seq::empty());
                }
            },
            _ => {
                assert(stickers_view(out@) =~= stickers_view(before) + Seq::empty());
            },
        }
        i = i + 1;
    }
    assert(items@.take(n as int) =~= items@);
    Ok(out)
}

} // verus!
