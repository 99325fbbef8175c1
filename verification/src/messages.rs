//! The tool's user-facing message catalogue and its rendering with named
//! arguments (`{ $name }` placeholders).

use vstd::prelude::*;
use vstd::string::*;
use crate::text::str_eq;

verus! {

pub const KEY_DESCRIPTION: &'static str = "tool-telegram-sticker-description";
pub const KEY_PARAM_EMOJI: &'static str = "tool-telegram-sticker-param-emoji";
pub const KEY_TRANSPORT: &'static str = "tool-telegram-sticker-error-transport";
pub const KEY_RESPONSE_READ: &'static str = "tool-telegram-sticker-error-response-read";
pub const KEY_HTTP: &'static str = "tool-telegram-sticker-error-http";
pub const KEY_RESPONSE_DECODE: &'static str = "tool-telegram-sticker-error-response-decode";
pub const KEY_API: &'static str = "tool-telegram-sticker-error-api";
pub const KEY_MISSING_METADATA: &'static str = "tool-telegram-sticker-error-missing-metadata";
pub const KEY_NO_MATCH: &'static str = "tool-telegram-sticker-error-no-match";
pub const KEY_ACTION_BLOCKED: &'static str = "tool-telegram-sticker-error-action-blocked";
pub const KEY_RAW_FILE_ID: &'static str = "tool-telegram-sticker-error-raw-file-id";
pub const KEY_MISSING_EMOJI: &'static str = "tool-telegram-sticker-error-missing-emoji";
pub const KEY_EMPTY_EMOJI: &'static str = "tool-telegram-sticker-error-empty-emoji";
pub const KEY_NO_TURN: &'static str = "tool-telegram-sticker-error-no-turn";
pub const KEY_ALIAS_NOT_CONFIGURED: &'static str = "tool-telegram-sticker-error-alias-not-configured";
pub const KEY_MISSING_CREDENTIALS: &'static str = "tool-telegram-sticker-error-missing-credentials";
pub const KEY_NO_SETS: &'static str = "tool-telegram-sticker-error-no-sets";
pub const KEY_QUOTA: &'static str = "tool-telegram-sticker-error-quota";
pub const KEY_EMPTY_TARGET: &'static str = "tool-telegram-sticker-error-empty-target";

/// One piece of a message template, as the contracts see it.
pub enum PieceView {
    Text(Seq<char>),
    Arg(Seq<char>),
}

/// One piece of a message template: literal text or a named argument.
pub enum Piece {
    Text(&'static str),
    Arg(&'static str),
}

impl View for Piece {
    type V = PieceView;

    open spec fn view(&self) -> PieceView {
        match self {
            Piece::Text(t) => PieceView::Text(t@),
            Piece::Arg(a) => PieceView::Arg(a@),
        }
    }
}

pub open spec fn pieces_view(p: Seq<Piece>) -> Seq<PieceView> {
    p.map_values(|x: Piece| x@)
}

pub open spec fn text(s: &str) -> PieceView {
    PieceView::Text(s@)
}

pub open spec fn arg(s: &str) -> PieceView {
    PieceView::Arg(s@)
}

/// The template of each message key; `None` for a key the catalogue lacks.
pub open spec fn template_spec(key: Seq<char>) -> Option<Seq<PieceView>> {
    if key == KEY_DESCRIPTION@ {
        Some(seq![text("Send one sticker from the configured Telegram sticker sets to the current Telegram conversation, chosen by its exact emoji.")])
    } else if key == KEY_PARAM_EMOJI@ {
        Some(seq![text("The exact emoji of a sticker in one of the configured sticker sets.")])
    } else if key == KEY_TRANSPORT@ {
        Some(seq![text("Telegram "), arg("method"), text(" request failed before a response arrived")])
    } else if key == KEY_RESPONSE_READ@ {
        Some(seq![text("Telegram "), arg("method"), text(" response could not be read")])
    } else if key == KEY_HTTP@ {
        Some(seq![text("Telegram "), arg("method"), text(" HTTP failure (status "), arg("status"), text(")")])
    } else if key == KEY_RESPONSE_DECODE@ {
        Some(seq![text("Telegram "), arg("method"), text(" response is not valid JSON")])
    } else if key == KEY_API@ {
        Some(seq![text("Telegram "), arg("method"), text(" API failure")])
    } else if key == KEY_MISSING_METADATA@ {
        Some(seq![text("Telegram sticker set metadata has no sticker list")])
    } else if key == KEY_NO_MATCH@ {
        Some(seq![text("No configured sticker matches emoji "), arg("emoji")])
    } else if key == KEY_ACTION_BLOCKED@ {
        Some(seq![text("Action blocked: "), arg("error")])
    } else if key == KEY_RAW_FILE_ID@ {
        Some(seq![text("Raw sticker file_id values are not accepted; pass an emoji instead")])
    } else if key == KEY_MISSING_EMOJI@ {
        Some(seq![text("Missing required parameter: emoji")])
    } else if key == KEY_EMPTY_EMOJI@ {
        Some(seq![text("The emoji parameter must not be empty")])
    } else if key == KEY_NO_TURN@ {
        Some(seq![text("Stickers can only be sent during an active Telegram conversation turn")])
    } else if key == KEY_ALIAS_NOT_CONFIGURED@ {
        Some(seq![text("Telegram channel "), arg("alias"), text(" is not configured for stickers")])
    } else if key == KEY_MISSING_CREDENTIALS@ {
        Some(seq![text("The Telegram bot token or API base URL is missing")])
    } else if key == KEY_NO_SETS@ {
        Some(seq![text("No Telegram sticker sets are configured")])
    } else if key == KEY_QUOTA@ {
        Some(seq![text("Sticker limit reached: already sent "), arg("limit"), text(" stickers this turn")])
    } else if key == KEY_EMPTY_TARGET@ {
        Some(seq![text("The current Telegram reply target has no chat ID")])
    } else {
        None
    }
}

/// The value given for `name`: the first pair with that name, else the
/// placeholder `{$name}` itself.
pub open spec fn arg_value(args: Seq<(Seq<char>, Seq<char>)>, name: Seq<char>) -> Seq<char>
    decreases args.len(),
{
    if args.len() == 0 {
        seq!['{', '$'] + name + seq!['}']
    } else if args[0].0 == name {
        args[0].1
    } else {
        arg_value(args.drop_first(), name)
    }
}

pub open spec fn render_piece(p: PieceView, args: Seq<(Seq<char>, Seq<char>)>) -> Seq<char> {
    match p {
        PieceView::Text(t) => t,
        PieceView::Arg(name) => arg_value(args, name),
    }
}

pub open spec fn render(pieces: Seq<PieceView>, args: Seq<(Seq<char>, Seq<char>)>) -> Seq<char>
    decreases pieces.len(),
{
    if pieces.len() == 0 {
        Seq::empty()
    } else {
        render(pieces.drop_last(), args) + render_piece(pieces.last(), args)
    }
}

pub open spec fn args_view(args: Seq<(&str, &str)>) -> Seq<(Seq<char>, Seq<char>)> {
    args.map_values(|p: (&str, &str)| (p.0@, p.1@))
}

/// The message for `key` with `args`, for a key of the catalogue.
pub open spec fn message(key: Seq<char>, args: Seq<(Seq<char>, Seq<char>)>) -> Seq<char> {
    render(template_spec(key).unwrap(), args)
}

pub open spec fn known_key(key: Seq<char>) -> bool {
    template_spec(key) is Some
}

fn template(key: &str) -> (t: Option<Vec<Piece>>)
    ensures
        t is None <==> template_spec(key@) is None,
        t matches Some(v) ==> pieces_view(v@) == template_spec(key@).unwrap(),
{
    let v = if str_eq(key, KEY_DESCRIPTION) {
        vec![Piece::Text("Send one sticker from the configured Telegram sticker sets to the current Telegram conversation, chosen by its exact emoji.")]
    } else if str_eq(key, KEY_PARAM_EMOJI) {
        vec![Piece::Text("The exact emoji of a sticker in one of the configured sticker sets.")]
    } else if str_eq(key, KEY_TRANSPORT) {
        vec![Piece::Text("Telegram "), Piece::Arg("method"), Piece::Text(" request failed before a response arrived")]
    } else if str_eq(key, KEY_RESPONSE_READ) {
        vec![Piece::Text("Telegram "), Piece::Arg("method"), Piece::Text(" response could not be read")]
    } else if str_eq(key, KEY_HTTP) {
        vec![Piece::Text("Telegram "), Piece::Arg("method"), Piece::Text(" HTTP failure (status "), Piece::Arg("status"), Piece::Text(")")]
    } else if str_eq(key, KEY_RESPONSE_DECODE) {
        vec![Piece::Text("Telegram "), Piece::Arg("method"), Piece::Text(" response is not valid JSON")]
    } else if str_eq(key, KEY_API) {
        vec![Piece::Text("Telegram "), Piece::Arg("method"), Piece::Text(" API failure")]
    } else if str_eq(key, KEY_MISSING_METADATA) {
        vec![Piece::Text("Telegram sticker set metadata has no sticker list")]
    } else if str_eq(key, KEY_NO_MATCH) {
        vec![Piece::Text("No configured sticker matches emoji "), Piece::Arg("emoji")]
    } else if str_eq(key, KEY_ACTION_BLOCKED) {
        vec![Piece::Text("Action blocked: "), Piece::Arg("error")]
    } else if str_eq(key, KEY_RAW_FILE_ID) {
        vec![Piece::Text("Raw sticker file_id values are not accepted; pass an emoji instead")]
    } else if str_eq(key, KEY_MISSING_EMOJI) {
        vec![Piece::Text("Missing required parameter: emoji")]
    } else if str_eq(key, KEY_EMPTY_EMOJI) {
        vec![Piece::Text("The emoji parameter must not be empty")]
    } else if str_eq(key, KEY_NO_TURN) {
        vec![Piece::Text("Stickers can only be sent during an active Telegram conversation turn")]
    } else if str_eq(key, KEY_ALIAS_NOT_CONFIGURED) {
        vec![Piece::Text("Telegram channel "), Piece::Arg("alias"), Piece::Text(" is not configured for stickers")]
    } else if str_eq(key, KEY_MISSING_CREDENTIALS) {
        vec![Piece::Text("The Telegram bot token or API base URL is missing")]
    } else if str_eq(key, KEY_NO_SETS) {
        vec![Piece::Text("No Telegram sticker sets are configured")]
    } else if str_eq(key, KEY_QUOTA) {
        vec![Piece::Text("Sticker limit reached: already sent "), Piece::Arg("limit"), Piece::Text(" stickers this turn")]
    } else if str_eq(key, KEY_EMPTY_TARGET) {
        vec![Piece::Text("The current Telegram reply target has no chat ID")]
    } else {
        return None;
    };
    assert(pieces_view(v@) =~= template_spec(key@).unwrap());
    Some(v)
}

fn lookup_arg(args: &[(&str, &str)], name: &str) -> (r: String)
    ensures
        r@ == arg_value(args_view(args@), name@),
{
    let n = args.len();
    let mut i: usize = 0;
    assert(args_view(args@).skip(0) =~= args_view(args@));
    while i < n
        invariant
            n == args@.len(),
            i <= n,
            arg_value(args_view(args@), name@) == arg_value(args_view(args@).skip(i as int), name@),
        decreases n - i,
    {
        let (k, v) = args[i];
        assert(args_view(args@).skip(i as int).drop_first() =~= args_view(args@).skip(i + 1));
        if str_eq(k, name) {
            return String::from_str(v);
        }
        i = i + 1;
    }
    assert(args_view(args@).skip(i as int) =~= Seq::empty());
    let mut r = String::from_str("{$");
    r.append(name);
    r.append("}");
    proof {
        reveal_strlit("{$");
        reveal_strlit("}");
    }
    assert(r@ =~= seq!['{', '$'] + name@ + seq!['}']);
    r
}

/// The message of the catalogue for `key`, with no arguments.
pub fn tool_string(key: &str) -> (r: String)
    requires
        known_key(key@),
    ensures
        r@ == message(key@, Seq::empty()),
{
    let none: Vec<(&str, &str)> = Vec::new();
    assert(args_view(none@) =~= Seq::empty());
    tool_string_with_args(key, none.as_slice())
}

/// The message of the catalogue for `key`, each `{ $name }` filled from `args`.
pub fn tool_string_with_args(key: &str, args: &[(&str, &str)]) -> (r: String)
    requires
        known_key(key@),
    ensures
        r@ == message(key@, args_view(args@)),
{
    let pieces = template(key).unwrap();
    let ghost pv = pieces_view(pieces@);
    let mut out = String::new();
    let n = pieces.len();
    let mut i: usize = 0;
    while i < n
        invariant
            n == pieces@.len(),
            i <= n,
            pv == pieces_view(pieces@),
            out@ == render(pv.take(i as int), args_view(args@)),
        decreases n - i,
    {
        assert(pv.take(i + 1).drop_last() =~= pv.take(i as int));
        match &pieces[i] {
            Piece::Text(t) => out.append(t),
            Piece::Arg(a) => {
                let v = lookup_arg(args, a);
                out.append(v.as_str());
            },
        }
        i = i + 1;
    }
    assert(pv.take(n as int) =~= pv);
    out
}

} // verus!
