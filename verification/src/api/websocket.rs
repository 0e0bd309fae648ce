//! The Moonraker websocket: the subscription request, the temperatures that a
//! status notification carries, and what the connection loop does next.
use vstd::prelude::*;

use crate::json::{
    arr_get, as_str_v, get_field, get_first, json_number, json_str, json_text, obj_get, to_json_text,
    Json, JsonV,
};
use crate::config::ini_model::opt_view;
use crate::printer::state::entries_view;
use crate::text::{concat, owned, str_eq};

verus! {

/// The subscription request: temperatures of the extruder and the heated
/// bed (keys in the order in which `serde_json` writes an object).
pub open spec fn subscribe_request_v() -> JsonV {
    JsonV::Object(
        seq![
            ("id"@, JsonV::Number("1"@)),
            ("jsonrpc"@, JsonV::Str("2.0"@)),
            ("method"@, JsonV::Str("printer.objects.subscribe"@)),
            (
                "params"@,
                JsonV::Object(
                    seq![
                        (
                            "objects"@,
                            JsonV::Object(
                                seq![
                                    ("extruder"@, JsonV::Array(seq![JsonV::Str("temperature"@)])),
                                    ("heater_bed"@, JsonV::Array(seq![JsonV::Str("temperature"@)])),
                                ],
                            ),
                        ),
                    ],
                ),
            ),
        ],
    )
}

fn object_of(e: Vec<(String, Json)>) -> (res: Json)
    ensures
        res.view_of() == JsonV::Object(entries_view(e@)),
{
    let res = Json::Object(e);
    assert(res.view_of() =~= JsonV::Object(entries_view(e@))) by {
        if let JsonV::Object(x) = res.view_of() {
            assert(x =~= entries_view(e@));
        }
    }
    res
}

fn temperature_list() -> (res: Json)
    ensures
        res.view_of() == JsonV::Array(seq![JsonV::Str("temperature"@)]),
{
    let mut v: Vec<Json> = Vec::new();
    v.push(json_str("temperature"));
    let res = Json::Array(v);
    assert(res.view_of() =~= JsonV::Array(seq![JsonV::Str("temperature"@)])) by {
        if let JsonV::Array(x) = res.view_of() {
            assert(x =~= seq![JsonV::Str("temperature"@)]);
        }
    }
    res
}

/// The subscription request as a value.
pub fn subscribe_request() -> (res: Json)
    ensures
        res.view_of() == subscribe_request_v(),
{
    let mut objects: Vec<(String, Json)> = Vec::new();
    objects.push((owned("extruder"), temperature_list()));
    objects.push((owned("heater_bed"), temperature_list()));
    let ghost ov = entries_view(objects@);
    let objects = object_of(objects);
    let mut params: Vec<(String, Json)> = Vec::new();
    params.push((owned("objects"), objects));
    let ghost pv = entries_view(params@);
    let params = object_of(params);
    let mut top: Vec<(String, Json)> = Vec::new();
    top.push((owned("id"), json_number("1")));
    top.push((owned("jsonrpc"), json_str("2.0")));
    top.push((owned("method"), json_str("printer.objects.subscribe")));
    top.push((owned("params"), params));
    let ghost tv = entries_view(top@);
    let res = object_of(top);
    assert(ov =~= seq![
        ("extruder"@, JsonV::Array(seq![JsonV::Str("temperature"@)])),
        ("heater_bed"@, JsonV::Array(seq![JsonV::Str("temperature"@)])),
    ]);
    assert(pv =~= seq![("objects"@, JsonV::Object(ov))]);
    assert(tv =~= match subscribe_request_v() {
        JsonV::Object(x) => x,
        _ => Seq::empty(),
    });
    res
}

/// The text of the subscription request that is sent on connecting.
pub fn subscribe_message() -> (res: String)
    ensures
        res@ == json_text(subscribe_request_v()),
{
    to_json_text(&subscribe_request())
}

/// The JSON text of the temperature of `part` in a status notification:
/// where the method is `notify_status_update`, the first parameter holds
/// `part`, and that holds a `temperature`.
pub open spec fn notified_temperature(msg: JsonV, part: Seq<char>) -> Option<Seq<char>> {
    if as_str_v(obj_get(msg, "method"@)) == Some("notify_status_update"@) {
        match obj_get(msg, "params"@) {
            Some(params) => match arr_get(params, 0) {
                Some(first) => match obj_get(first, part) {
                    Some(p) => match obj_get(p, "temperature"@) {
                        Some(t) => Some(json_text(t)),
                        None => None,
                    },
                    None => None,
                },
                None => None,
            },
            None => None,
        }
    } else {
        None
    }
}

/// The displayed temperatures that a notification updates.
pub struct TemperatureUpdate {
    pub hotend: Option<String>,
    pub bed: Option<String>,
}

impl TemperatureUpdate {
    /// Whether these are the temperatures that `msg` updates: the hotend's
    /// from `extruder`, the bed's from `heater_bed`.
    pub open spec fn reports(self, msg: JsonV) -> bool {
        &&& match self.hotend {
            Some(t) => notified_temperature(msg, "extruder"@) == Some(t@),
            None => notified_temperature(msg, "extruder"@) is None,
        }
        &&& match self.bed {
            Some(t) => notified_temperature(msg, "heater_bed"@) == Some(t@),
            None => notified_temperature(msg, "heater_bed"@) is None,
        }
    }
}

/// Where a notification of a status update carries the part `part` in its
/// first parameter, the temperature it reports for the part is the JSON text
/// of the part's `temperature` value, and nothing where the part holds none,
/// whatever else the part holds.
pub proof fn law_temperature_is_the_parts_temperature(
    msg: JsonV,
    part: Seq<char>,
    params: JsonV,
    first: JsonV,
    p: JsonV,
)
    requires
        obj_get(msg, "method"@) == Some(JsonV::Str("notify_status_update"@)),
        obj_get(msg, "params"@) == Some(params),
        arr_get(params, 0) == Some(first),
        obj_get(first, part) == Some(p),
    ensures
        forall|t: JsonV|
            obj_get(p, "temperature"@) == Some(t) ==> notified_temperature(msg, part) == Some(
                #[trigger] json_text(t),
            ),
        obj_get(p, "temperature"@) is None ==> notified_temperature(msg, part) is None,
{
}

/// A temperature is reported only for a notification of a status update
/// whose first parameter holds the part with a `temperature` value, and it
/// is that value's JSON text.
pub proof fn law_temperature_only_from_status_updates(msg: JsonV, part: Seq<char>)
    ensures
        notified_temperature(msg, part) is Some ==> {
            &&& obj_get(msg, "method"@) == Some(JsonV::Str("notify_status_update"@))
            &&& exists|params: JsonV, first: JsonV, p: JsonV, t: JsonV|
                #![trigger arr_get(params, 0), obj_get(first, part), obj_get(p, "temperature"@), json_text(t)]
                {
                    &&& obj_get(msg, "params"@) == Some(params)
                    &&& arr_get(params, 0) == Some(first)
                    &&& obj_get(first, part) == Some(p)
                    &&& obj_get(p, "temperature"@) == Some(t)
                    &&& notified_temperature(msg, part) == Some(json_text(t))
                }
        },
{
    if notified_temperature(msg, part) is Some {
        let params = obj_get(msg, "params"@)->0;
        let first = arr_get(params, 0)->0;
        let p = obj_get(first, part)->0;
        let t = obj_get(p, "temperature"@)->0;
        assert(arr_get(params, 0) == Some(first));
        assert(obj_get(first, part) == Some(p));
        assert(obj_get(p, "temperature"@) == Some(t));
        assert(notified_temperature(msg, part) == Some(json_text(t)));
    }
}

/// The hotend's temperature is the one reported for `extruder`, the bed's
/// the one reported for `heater_bed`.
pub proof fn law_update_parts(r: TemperatureUpdate, msg: JsonV)
    requires
        r.reports(msg),
    ensures
        opt_view(r.hotend) == notified_temperature(msg, "extruder"@),
        opt_view(r.bed) == notified_temperature(msg, "heater_bed"@),
{
}

fn part_temperature(msg: &Json, part: &str) -> (res: Option<String>)
    ensures
        match res {
            Some(t) => notified_temperature(msg.view_of(), part@) == Some(t@),
            None => notified_temperature(msg.view_of(), part@) is None,
        },
{
    let is_status = match get_field(msg, "method") {
        Some(Json::Str(m)) => str_eq(m.as_str(), "notify_status_update"),
        _ => false,
    };
    if !is_status {
        return None;
    }
    match get_field(msg, "params") {
        Some(params) => match get_first(params) {
            Some(first) => match get_field(first, part) {
                Some(p) => match get_field(p, "temperature") {
                    Some(t) => Some(to_json_text(t)),
                    None => None,
                },
                None => None,
            },
            None => None,
        },
        None => None,
    }
}

/// The temperatures that the message `msg` updates: the hotend's from
/// `extruder`, the bed's from `heater_bed` (see [`notified_temperature`]).
pub fn temperature_update(msg: &Json) -> (res: TemperatureUpdate)
    ensures
        match res.hotend {
            Some(t) => notified_temperature(msg.view_of(), "extruder"@) == Some(t@),
            None => notified_temperature(msg.view_of(), "extruder"@) is None,
        },
        match res.bed {
            Some(t) => notified_temperature(msg.view_of(), "heater_bed"@) == Some(t@),
            None => notified_temperature(msg.view_of(), "heater_bed"@) is None,
        },
        res.reports(msg.view_of()),
{
    TemperatureUpdate { hotend: part_temperature(msg, "extruder"), bed: part_temperature(msg, "heater_bed") }
}

/// The text of a URL as the `url` crate normalizes it (`Url::parse`, then
/// `Url::as_str`); `None` where it refuses the text.
pub uninterp spec fn url_normalized(text: Seq<char>) -> Option<Seq<char>>;

/// Parses a URL with the `url` crate (`Url::parse`) and gives its
/// normalized text.  The result is named, not described.
#[verifier::external_body]
fn parse_url(text: &str) -> (res: Option<String>)
    ensures
        match res {
            Some(u) => url_normalized(text@) == Some(u@),
            None => url_normalized(text@) is None,
        },
{
    url::Url::parse(text).ok().map(|u| u.as_str().to_string())
}

/// The address of Moonraker's websocket, as the `url` crate normalizes
/// `ws://127.0.0.1:7125/websocket`; `None` (then the loop does not start)
/// where it refuses it.
pub fn moonraker_ws_url() -> (res: Option<String>)
    ensures
        match res {
            Some(u) => url_normalized("ws://127.0.0.1:7125/websocket"@) == Some(u@),
            None => url_normalized("ws://127.0.0.1:7125/websocket"@) is None,
        },
{
    parse_url("ws://127.0.0.1:7125/websocket")
}

/// The decimal digit `d` (below ten).
pub open spec fn digit_char(d: nat) -> char {
    if d == 0 {
        '0'
    } else if d == 1 {
        '1'
    } else if d == 2 {
        '2'
    } else if d == 3 {
        '3'
    } else if d == 4 {
        '4'
    } else if d == 5 {
        '5'
    } else if d == 6 {
        '6'
    } else if d == 7 {
        '7'
    } else if d == 8 {
        '8'
    } else {
        '9'
    }
}

/// `n` written in decimal, without leading zeros.
pub open spec fn decimal(n: nat) -> Seq<char>
    decreases n,
{
    if n < 10 {
        seq![digit_char(n)]
    } else {
        decimal(n / 10).push(digit_char(n % 10))
    }
}

fn digit_str(d: u16) -> (res: &'static str)
    requires
        d < 10,
    ensures
        res@ == seq![digit_char(d as nat)],
{
    proof {
        reveal_strlit("0");
        reveal_strlit("1");
        reveal_strlit("2");
        reveal_strlit("3");
        reveal_strlit("4");
        reveal_strlit("5");
        reveal_strlit("6");
        reveal_strlit("7");
        reveal_strlit("8");
        reveal_strlit("9");
    }
    if d == 0 {
        "0"
    } else if d == 1 {
        "1"
    } else if d == 2 {
        "2"
    } else if d == 3 {
        "3"
    } else if d == 4 {
        "4"
    } else if d == 5 {
        "5"
    } else if d == 6 {
        "6"
    } else if d == 7 {
        "7"
    } else if d == 8 {
        "8"
    } else {
        "9"
    }
}

/// `n` written in decimal.
pub fn decimal_text(n: u16) -> (res: String)
    ensures
        res@ == decimal(n as nat),
    decreases n,
{
    if n < 10 {
        owned(digit_str(n))
    } else {
        let mut r = decimal_text(n / 10);
        r.append(digit_str(n % 10));
        r
    }
}

/// The address of the websocket of the Moonraker at `host` and `port`
/// (`ws://host:port/websocket`), as the `url` crate normalizes it; `None`
/// where it refuses it.
pub fn moonraker_ws_url_for(host: &str, port: u16) -> (res: Option<String>)
    ensures
        match res {
            Some(u) => url_normalized(
                "ws://"@ + host@ + ":"@ + decimal(port as nat) + "/websocket"@,
            ) == Some(u@),
            None => url_normalized(
                "ws://"@ + host@ + ":"@ + decimal(port as nat) + "/websocket"@,
            ) is None,
        },
{
    let mut t = concat("ws://", host);
    t.append(":");
    let p = decimal_text(port);
    t.append(p.as_str());
    t.append("/websocket");
    parse_url(t.as_str())
}

/// What happened on the connection.
pub enum LinkEvent {
    /// The loop begins.
    Started,
    ConnectFailed,
    Connected,
    SendFailed,
    Sent,
    /// A text message that parsed as JSON.
    Message(Json),
    /// Any other message, or text that did not parse.
    OtherMessage,
    /// The stream of messages ended.
    StreamEnded,
    /// A pause ended.
    Slept,
}

/// What the connection loop does next.
pub enum LinkAction {
    Connect,
    /// Pause for the given number of seconds.
    Sleep(u64),
    /// Send the given text.
    Send(String),
    /// Show the given temperatures, then read the next message.
    Read(TemperatureUpdate),
}

/// How long the loop pauses before it connects again after a failure.
pub open spec fn retry_delay_secs() -> u64 {
    3
}

/// The next action of the connection loop: connect at the start, after a
/// pause, and when the stream ends; pause 3 s after a failed connect or
/// send; send the subscription once connected; read after the send and
/// after each message, showing the temperatures that it carries.
pub fn next_link_action(event: LinkEvent) -> (res: LinkAction)
    ensures
        match event {
            LinkEvent::Started => res is Connect,
            LinkEvent::Slept => res is Connect,
            LinkEvent::StreamEnded => res is Connect,
            LinkEvent::ConnectFailed => res == LinkAction::Sleep(retry_delay_secs()),
            LinkEvent::SendFailed => res == LinkAction::Sleep(retry_delay_secs()),
            LinkEvent::Connected => match res {
                LinkAction::Send(t) => t@ == json_text(subscribe_request_v()),
                _ => false,
            },
            LinkEvent::Sent => match res {
                LinkAction::Read(u) => u.hotend is None && u.bed is None,
                _ => false,
            },
            LinkEvent::OtherMessage => match res {
                LinkAction::Read(u) => u.hotend is None && u.bed is None,
                _ => false,
            },
            LinkEvent::Message(m) => match res {
                LinkAction::Read(u) => (match u.hotend {
                    Some(t) => notified_temperature(m.view_of(), "extruder"@) == Some(t@),
                    None => notified_temperature(m.view_of(), "extruder"@) is None,
                }) && (match u.bed {
                    Some(t) => notified_temperature(m.view_of(), "heater_bed"@) == Some(t@),
                    None => notified_temperature(m.view_of(), "heater_bed"@) is None,
                }),
                _ => false,
            },
        },
{
    match event {
        LinkEvent::Started => LinkAction::Connect,
        LinkEvent::Slept => LinkAction::Connect,
        LinkEvent::StreamEnded => LinkAction::Connect,
        LinkEvent::ConnectFailed => LinkAction::Sleep(3),
        LinkEvent::SendFailed => LinkAction::Sleep(3),
        LinkEvent::Connected => LinkAction::Send(subscribe_message()),
        LinkEvent::Sent => LinkAction::Read(TemperatureUpdate { hotend: None, bed: None }),
        LinkEvent::OtherMessage => LinkAction::Read(TemperatureUpdate { hotend: None, bed: None }),
        LinkEvent::Message(m) => LinkAction::Read(temperature_update(&m)),
    }
}

} // verus!
