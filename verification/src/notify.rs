//! The requests that carry a notification to each configured channel:
//! Telegram, OpeniLink Hub, Bark and a Hermes webhook. Sending them and
//! reading the replies is the caller's work; the failures come back here to
//! be reported together.

use vstd::prelude::*;

use crate::config::Config;
use crate::json::{json_quote, quote_json};
use crate::telegram_markdown::{commonmark_events, render, rendered};
use crate::payload::{notification_title, title, NotifyPayload};
use crate::text::{char_vec_views, chars_of, extend_chars, join, join_chars, string_of};

verus! {

/// A notification channel.
#[derive(PartialEq, Eq, Structural, Clone, Copy, Debug)]
pub enum Channel {
    Telegram,
    OpeniLink,
    Bark,
    Hermes,
}

/// How failures of a channel are labelled.
pub open spec fn channel_label(c: Channel) -> Seq<char> {
    match c {
        Channel::Telegram => "telegram"@,
        Channel::OpeniLink => "openilink hub"@,
        Channel::Bark => "bark"@,
        Channel::Hermes => "hermes webhook"@,
    }
}

/// How the channel's API is named when a request fails.
pub open spec fn channel_api(c: Channel) -> Seq<char> {
    match c {
        Channel::Telegram => "telegram api"@,
        Channel::OpeniLink => "openilink hub api"@,
        Channel::Bark => "bark api"@,
        Channel::Hermes => "hermes webhook"@,
    }
}

impl Channel {
    /// How the channel's failures are labelled.
    pub fn label(&self) -> (res: &'static str)
        ensures
            res@ == channel_label(*self),
    {
        match self {
            Channel::Telegram => "telegram",
            Channel::OpeniLink => "openilink hub",
            Channel::Bark => "bark",
            Channel::Hermes => "hermes webhook",
        }
    }

    /// How the channel's API is named.
    pub fn api(&self) -> (res: &'static str)
        ensures
            res@ == channel_api(*self),
    {
        match self {
            Channel::Telegram => "telegram api",
            Channel::OpeniLink => "openilink hub api",
            Channel::Bark => "bark api",
            Channel::Hermes => "hermes webhook",
        }
    }
}

/// An HTTP POST with a JSON body.
pub struct Request {
    pub channel: Channel,
    pub url: String,
    pub headers: Vec<(String, String)>,
    pub body: String,
}

/// The content type of every request.
pub open spec fn json_content_type() -> Seq<char> {
    "application/json; charset=utf-8"@
}

/// The header pair `(name, value)` in mathematical form.
pub open spec fn header_views(h: Seq<(String, String)>) -> Seq<(Seq<char>, Seq<char>)> {
    Seq::new(h.len(), |i: int| (h[i].0@, h[i].1@))
}

/// A request in mathematical form.
pub open spec fn request_is(
    r: Request,
    channel: Channel,
    url: Seq<char>,
    headers: Seq<(Seq<char>, Seq<char>)>,
    body: Seq<char>,
) -> bool {
    &&& r.channel == channel
    &&& r.url@ == url
    &&& header_views(r.headers@) == headers
    &&& r.body@ == body
}

// ---------------------------------------------------------------------------
// Bodies
// ---------------------------------------------------------------------------

/// The JSON object `{"chat_id":…,"text":…,"parse_mode":"MarkdownV2"}`
/// that serde_json writes; `text` is already MarkdownV2.
pub open spec fn telegram_body_text(chat_id: Seq<char>, text: Seq<char>) -> Seq<char> {
    "{\"chat_id\":"@ + json_quote(chat_id) + ",\"text\":"@ + json_quote(text) + ",\"parse_mode\":"@
        + json_quote("MarkdownV2"@) + "}"@
}

/// The JSON object `{"content":…}`.
pub open spec fn openilink_body_text(text: Seq<char>) -> Seq<char> {
    "{\"content\":"@ + json_quote(text) + "}"@
}

/// The JSON object `{"title":…,"body":…,"markdown":…,"group":"Codex"}`:
/// the text both as the body and as Bark's native Markdown.
pub open spec fn bark_body_text(title: Seq<char>, text: Seq<char>) -> Seq<char> {
    "{\"title\":"@ + json_quote(title) + ",\"body\":"@ + json_quote(text) + ",\"markdown\":"@ + json_quote(
        text,
    ) + ",\"group\":"@ + json_quote("Codex"@) + "}"@
}

/// The JSON object `{"event_type":"codex_notify","message":…}`.
pub open spec fn hermes_body_text(text: Seq<char>) -> Seq<char> {
    "{\"event_type\":"@ + json_quote("codex_notify"@) + ",\"message\":"@ + json_quote(text) + "}"@
}

/// The concatenation of the parts.
fn concat(parts: &[&str]) -> (res: String)
    ensures
        res@ == concat_views(parts@),
{
    let mut out: Vec<char> = Vec::new();
    let mut i: usize = 0;
    while i < parts.len()
        invariant
            i <= parts@.len(),
            out@ == concat_views(parts@.subrange(0, i as int)),
        decreases parts@.len() - i,
    {
        let c = chars_of(parts[i]);
        extend_chars(&mut out, c.as_slice());
        assert(parts@.subrange(0, i + 1).drop_last() == parts@.subrange(0, i as int));
        i = i + 1;
    }
    assert(parts@.subrange(0, parts@.len() as int) == parts@);
    string_of(out.as_slice())
}

/// The parts one after another.
pub open spec fn concat_views(parts: Seq<&str>) -> Seq<char>
    decreases parts.len(),
{
    if parts.len() == 0 {
        Seq::empty()
    } else {
        concat_views(parts.drop_last()) + parts.last()@
    }
}

/// Telegram's body: the chat, the MarkdownV2 text and its parse mode.
pub fn telegram_body(chat_id: &str, text: &str) -> (res: String)
    ensures
        res@ == telegram_body_text(chat_id@, text@),
{
    let c = quote_json(chat_id);
    let t = quote_json(text);
    let m = quote_json("MarkdownV2");
    let parts = [ "{\"chat_id\":", c.as_str(), ",\"text\":", t.as_str(), ",\"parse_mode\":", m.as_str(), "}" ];
    let res = concat(&parts);
    proof {
        reveal_with_fuel(concat_views, 8);
        assert(parts@.drop_last().drop_last().drop_last().drop_last().drop_last().drop_last().drop_last()
            =~= Seq::<&str>::empty());
    }
    res
}

/// OpeniLink Hub's body: the text.
pub fn openilink_body(text: &str) -> (res: String)
    ensures
        res@ == openilink_body_text(text@),
{
    let t = quote_json(text);
    let parts = [ "{\"content\":", t.as_str(), "}" ];
    let res = concat(&parts);
    proof {
        reveal_with_fuel(concat_views, 4);
        assert(parts@.drop_last().drop_last().drop_last() =~= Seq::<&str>::empty());
    }
    res
}

/// Bark's body: the notification's title, the text as body and as Markdown,
/// in the `Codex` group.
pub fn bark_body(text: &str, payload: &NotifyPayload) -> (res: String)
    ensures
        res@ == bark_body_text(title(*payload), text@),
{
    let title_text = notification_title(payload);
    let q_title = quote_json(title_text.as_str());
    let q_text = quote_json(text);
    let q_group = quote_json("Codex");
    let parts = [
        "{\"title\":",
        q_title.as_str(),
        ",\"body\":",
        q_text.as_str(),
        ",\"markdown\":",
        q_text.as_str(),
        ",\"group\":",
        q_group.as_str(),
        "}",
    ];
    let res = concat(&parts);
    proof {
        reveal_with_fuel(concat_views, 10);
        assert(parts@.drop_last().drop_last().drop_last().drop_last().drop_last().drop_last().drop_last()
            .drop_last().drop_last() =~= Seq::<&str>::empty());
    }
    res
}

/// The Hermes webhook's body: the event type and the text only.
pub fn hermes_body(text: &str) -> (res: String)
    ensures
        res@ == hermes_body_text(text@),
{
    let q_event = quote_json("codex_notify");
    let q_text = quote_json(text);
    let parts = [ "{\"event_type\":", q_event.as_str(), ",\"message\":", q_text.as_str(), "}" ];
    let res = concat(&parts);
    proof {
        reveal_with_fuel(concat_views, 6);
        assert(parts@.drop_last().drop_last().drop_last().drop_last().drop_last() =~= Seq::<&str>::empty());
    }
    res
}

// ---------------------------------------------------------------------------
// The Hermes signature
// ---------------------------------------------------------------------------

/// HMAC-SHA256 (RFC 2104 with SHA-256) of `message` under `key`.
pub uninterp spec fn hmac_sha256(key: Seq<u8>, message: Seq<u8>) -> Seq<u8>;

/// Calls hmac's `Hmac::<sha2::Sha256>::new_from_slice` (which takes a key of
/// any length), `Mac::update` and `Mac::finalize`. Claimed: the result is
/// `hmac_sha256(key@, message@)`, 32 bytes long (SHA-256's output size).
#[verifier::external_body]
fn hmac_sha256_bytes(key: &[u8], message: &[u8]) -> (res: Vec<u8>)
    ensures
        res@ == hmac_sha256(key@, message@),
        res@.len() == 32,
{
    let mut mac = <hmac::Hmac<sha2::Sha256> as hmac::KeyInit>::new_from_slice(key)
        .expect("HMAC-SHA256 accepts keys of any size");
    hmac::Mac::update(&mut mac, message);
    hmac::Mac::finalize(mac).into_bytes().to_vec()
}

/// The lowercase hexadecimal digit for `n < 16`.
pub open spec fn hex_digit(n: int) -> char {
    if n < 10 {
        ((48 + n) as u32) as char
    } else {
        ((87 + n) as u32) as char
    }
}

/// Lowercase hexadecimal, two digits per byte.
pub open spec fn hex_lower(bytes: Seq<u8>) -> Seq<char>
    decreases bytes.len(),
{
    if bytes.len() == 0 {
        Seq::empty()
    } else {
        hex_lower(bytes.drop_last()) + seq![
            hex_digit(bytes.last() as int / 16),
            hex_digit(bytes.last() as int % 16),
        ]
    }
}

/// Calls `hex::encode`, documented as lowercase hexadecimal. Claimed: the
/// result is `hex_lower(bytes@)`.
#[verifier::external_body]
fn hex_encode(bytes: &[u8]) -> (res: String)
    ensures
        res@ == hex_lower(bytes@),
{
    hex::encode(bytes)
}

proof fn lemma_hex_lower_len(bytes: Seq<u8>)
    ensures
        hex_lower(bytes).len() == 2 * bytes.len(),
    decreases bytes.len(),
{
    if bytes.len() > 0 {
        lemma_hex_lower_len(bytes.drop_last());
    }
}

/// The signature of a Hermes body under the secret: its HMAC-SHA256 in
/// lowercase hexadecimal.
pub open spec fn hermes_signature(body: Seq<u8>, secret: Seq<char>) -> Seq<char> {
    hex_lower(hmac_sha256(vstd::utf8::encode_utf8(secret), body))
}

/// Signs a Hermes body: 64 lowercase hexadecimal digits.
pub fn sign_hermes(body: &[u8], secret: &str) -> (res: String)
    ensures
        res@ == hermes_signature(body@, secret@),
        res@.len() == 64,
{
    let key = secret.as_bytes();
    let mac = hmac_sha256_bytes(key, body);
    proof {
        lemma_hex_lower_len(mac@);
    }
    hex_encode(mac.as_slice())
}

// ---------------------------------------------------------------------------
// The requests
// ---------------------------------------------------------------------------

/// A valid HTTP header value: no control character but tab (http's
/// `HeaderValue::from_str` rule; characters beyond ASCII are allowed).
pub open spec fn header_value_ok(value: Seq<char>) -> bool {
    forall|i: int| 0 <= i < value.len() ==> #[trigger] value[i] == '\t' || (' ' <= value[i] && value[i] != '\u{7f}')
}

fn is_header_value(value: &str) -> (res: bool)
    ensures
        res == header_value_ok(value@),
{
    let c = chars_of(value);
    let mut i: usize = 0;
    while i < c.len()
        invariant
            i <= c@.len(),
            c@ == value@,
            forall|k: int| 0 <= k < i ==> #[trigger] c@[k] == '\t' || (' ' <= c@[k] && c@[k] != '\u{7f}'),
        decreases c@.len() - i,
    {
        let ch = c[i];
        if !(ch == '\t' || (' ' <= ch && ch != '\u{7f}')) {
            return false;
        }
        i = i + 1;
    }
    true
}

/// The Telegram request: the text rendered as MarkdownV2.
pub open spec fn telegram_request(config: Config, text: Seq<char>) -> (Seq<char>, Seq<(Seq<char>, Seq<char>)>, Seq<char>) {
    (
        "https://api.telegram.org/bot"@ + config.bot_token@ + "/sendMessage"@,
        seq![("Content-Type"@, json_content_type())],
        telegram_body_text(config.chat_id@, rendered(commonmark_events(text))),
    )
}

/// The OpeniLink Hub request, or `None` when the token cannot stand in a header.
pub open spec fn openilink_request(config: Config, text: Seq<char>) -> Option<
    (Seq<char>, Seq<(Seq<char>, Seq<char>)>, Seq<char>),
> {
    let bearer = "Bearer "@ + config.openilink_hub_token@;
    if header_value_ok(bearer) {
        Some(
            (
                config.openilink_hub_url@,
                seq![("Authorization"@, bearer), ("Content-Type"@, json_content_type())],
                openilink_body_text(text),
            ),
        )
    } else {
        None
    }
}

/// The Bark request.
pub open spec fn bark_request(config: Config, text: Seq<char>, payload: NotifyPayload) -> (
    Seq<char>,
    Seq<(Seq<char>, Seq<char>)>,
    Seq<char>,
) {
    (config.bark_server_url@, seq![("Content-Type"@, json_content_type())], bark_body_text(title(payload), text))
}

/// The Hermes webhook request: signed when there is a secret.
pub open spec fn hermes_request(config: Config, text: Seq<char>) -> (Seq<char>, Seq<(Seq<char>, Seq<char>)>, Seq<char>) {
    let body = hermes_body_text(text);
    let signature = seq![
        ("X-Webhook-Signature"@, hermes_signature(vstd::utf8::encode_utf8(body), config.hermes_webhook_secret@)),
    ];
    (
        config.hermes_webhook_url@,
        (if config.hermes_webhook_secret@.len() > 0 {
            signature
        } else {
            Seq::empty()
        }) + seq![("Content-Type"@, json_content_type())],
        body,
    )
}

/// The channels that are configured, in the order they are sent to:
/// Telegram (bot token and chat id), OpeniLink Hub (URL and token), Bark
/// (server URL), Hermes (webhook URL).
pub open spec fn channels(config: Config) -> Seq<Channel> {
    (if config.bot_token@.len() > 0 && config.chat_id@.len() > 0 {
        seq![Channel::Telegram]
    } else {
        Seq::empty()
    }) + (if config.openilink_hub_url@.len() > 0 && config.openilink_hub_token@.len() > 0 {
        seq![Channel::OpeniLink]
    } else {
        Seq::empty()
    }) + (if config.bark_server_url@.len() > 0 {
        seq![Channel::Bark]
    } else {
        Seq::empty()
    }) + (if config.hermes_webhook_url@.len() > 0 {
        seq![Channel::Hermes]
    } else {
        Seq::empty()
    })
}

/// What a channel's planned request is: the request, or its channel when
/// the request cannot be made.
pub open spec fn planned_as(p: Result<Request, Channel>, c: Channel, config: Config, text: Seq<char>, payload: NotifyPayload) -> bool {
    match c {
        Channel::Telegram => p matches Ok(r) && {
            let t = telegram_request(config, text);
            request_is(r, c, t.0, t.1, t.2)
        },
        Channel::OpeniLink => match openilink_request(config, text) {
            Some(t) => p matches Ok(r) && request_is(r, c, t.0, t.1, t.2),
            None => p == Err::<Request, Channel>(c),
        },
        Channel::Bark => p matches Ok(r) && {
            let t = bark_request(config, text, payload);
            request_is(r, c, t.0, t.1, t.2)
        },
        Channel::Hermes => p matches Ok(r) && {
            let t = hermes_request(config, text);
            request_is(r, c, t.0, t.1, t.2)
        },
    }
}

fn header(name: &str, value: String) -> (res: (String, String))
    ensures
        res.0@ == name@,
        res.1@ == value@,
{
    (String::from_str(name), value)
}

fn content_type() -> (res: (String, String))
    ensures
        res.0@ == "Content-Type"@,
        res.1@ == json_content_type(),
{
    header("Content-Type", String::from_str("application/json; charset=utf-8"))
}

fn plan_telegram(config: &Config, text: &str) -> (res: Request)
    ensures
        ({
            let t = telegram_request(*config, text@);
            request_is(res, Channel::Telegram, t.0, t.1, t.2)
        }),
{
    let parts = [ "https://api.telegram.org/bot", config.bot_token.as_str(), "/sendMessage" ];
    let url = concat(&parts);
    proof {
        reveal_with_fuel(concat_views, 4);
        assert(parts@.drop_last().drop_last().drop_last() =~= Seq::<&str>::empty());
    }
    let mut headers: Vec<(String, String)> = Vec::new();
    headers.push(content_type());
    assert(header_views(headers@) =~= seq![("Content-Type"@, json_content_type())]);
    Request {
        channel: Channel::Telegram,
        url,
        headers,
        body: telegram_body(config.chat_id.as_str(), render(text).as_str()),
    }
}

fn plan_openilink(config: &Config, text: &str) -> (res: Result<Request, Channel>)
    ensures
        match openilink_request(*config, text@) {
            Some(t) => res matches Ok(r) && request_is(r, Channel::OpeniLink, t.0, t.1, t.2),
            None => res == Err::<Request, Channel>(Channel::OpeniLink),
        },
{
    let parts = [ "Bearer ", config.openilink_hub_token.as_str() ];
    let bearer = concat(&parts);
    proof {
        reveal_with_fuel(concat_views, 3);
        assert(parts@.drop_last().drop_last() =~= Seq::<&str>::empty());
    }
    if !is_header_value(bearer.as_str()) {
        return Err(Channel::OpeniLink);
    }
    let mut headers: Vec<(String, String)> = Vec::new();
    headers.push(header("Authorization", bearer));
    headers.push(content_type());
    proof {
        let t = openilink_request(*config, text@)->0;
        assert(header_views(headers@) =~= t.1);
    }
    Ok(
        Request {
            channel: Channel::OpeniLink,
            url: config.openilink_hub_url.clone(),
            headers,
            body: openilink_body(text),
        },
    )
}

fn plan_bark(config: &Config, text: &str, payload: &NotifyPayload) -> (res: Request)
    ensures
        ({
            let t = bark_request(*config, text@, *payload);
            request_is(res, Channel::Bark, t.0, t.1, t.2)
        }),
{
    let mut headers: Vec<(String, String)> = Vec::new();
    headers.push(content_type());
    assert(header_views(headers@) =~= seq![("Content-Type"@, json_content_type())]);
    Request {
        channel: Channel::Bark,
        url: config.bark_server_url.clone(),
        headers,
        body: bark_body(text, payload),
    }
}

fn plan_hermes(config: &Config, text: &str) -> (res: Request)
    ensures
        ({
            let t = hermes_request(*config, text@);
            request_is(res, Channel::Hermes, t.0, t.1, t.2)
        }),
{
    let body = hermes_body(text);
    let mut headers: Vec<(String, String)> = Vec::new();
    if config.hermes_webhook_secret.as_str().unicode_len() > 0 {
        let signature = sign_hermes(body.as_str().as_bytes(), config.hermes_webhook_secret.as_str());
        headers.push(header("X-Webhook-Signature", signature));
    }
    headers.push(content_type());
    proof {
        assert(header_views(headers@) =~= hermes_request(*config, text@).1);
    }
    Request {
        channel: Channel::Hermes,
        url: config.hermes_webhook_url.clone(),
        headers,
        body,
    }
}

/// The requests for the configured channels, in order: each channel's
/// request, or the channel when its request cannot be made.
pub fn plan_requests(config: &Config, text: &str, payload: &NotifyPayload) -> (res: Vec<Result<Request, Channel>>)
    ensures
        res@.len() == channels(*config).len(),
        forall|i: int|
            0 <= i < res@.len() ==> planned_as(#[trigger] res@[i], channels(*config)[i], *config, text@, *payload),
{
    let mut out: Vec<Result<Request, Channel>> = Vec::new();
    let ghost mut chs: Seq<Channel> = Seq::empty();
    if config.bot_token.as_str().unicode_len() > 0 && config.chat_id.as_str().unicode_len() > 0 {
        out.push(Ok(plan_telegram(config, text)));
        proof {
            chs = chs.push(Channel::Telegram);
        }
    }
    if config.openilink_hub_url.as_str().unicode_len() > 0 && config.openilink_hub_token.as_str().unicode_len() > 0 {
        out.push(plan_openilink(config, text));
        proof {
            chs = chs.push(Channel::OpeniLink);
        }
    }
    if config.bark_server_url.as_str().unicode_len() > 0 {
        out.push(Ok(plan_bark(config, text, payload)));
        proof {
            chs = chs.push(Channel::Bark);
        }
    }
    if config.hermes_webhook_url.as_str().unicode_len() > 0 {
        out.push(Ok(plan_hermes(config, text)));
        proof {
            chs = chs.push(Channel::Hermes);
        }
    }
    assert(chs =~= channels(*config));
    out
}

// ---------------------------------------------------------------------------
// Reporting failures
// ---------------------------------------------------------------------------

/// How one channel's failure is reported: its label, a colon, the error.
pub open spec fn failure_line(channel: Channel, error: Seq<char>) -> Seq<char> {
    channel_label(channel) + ": "@ + error
}

/// One channel's failure, as reported.
pub fn failure(channel: Channel, error: &str) -> (res: String)
    ensures
        res@ == failure_line(channel, error@),
{
    let parts = [ channel.label(), ": ", error ];
    let res = concat(&parts);
    proof {
        reveal_with_fuel(concat_views, 4);
        assert(parts@.drop_last().drop_last().drop_last() =~= Seq::<&str>::empty());
    }
    res
}

/// The report of all failures: `None` when every request went through,
/// else the failures joined by `; `.
pub fn failure_report(failures: &Vec<String>) -> (res: Option<String>)
    ensures
        failures@.len() == 0 <==> res is None,
        res matches Some(r) ==> r@ == join(Seq::new(failures@.len(), |i: int| failures@[i]@), "; "@),
{
    if failures.len() == 0 {
        return None;
    }
    let mut list: Vec<Vec<char>> = Vec::new();
    let mut i: usize = 0;
    while i < failures.len()
        invariant
            i <= failures@.len(),
            list@.len() == i,
            forall|k: int| 0 <= k < i ==> #[trigger] list@[k]@ == failures@[k]@,
        decreases failures@.len() - i,
    {
        list.push(chars_of(failures[i].as_str()));
        i = i + 1;
    }
    let sep = chars_of("; ");
    let joined = join_chars(list.as_slice(), sep.as_slice());
    assert(char_vec_views(list@) =~= Seq::new(failures@.len(), |i: int| failures@[i]@));
    Some(string_of(joined.as_slice()))
}

} // verus!
