use rklipperscreen::api::websocket::{
    next_link_action, subscribe_message, temperature_update, LinkAction, LinkEvent,
};
use rklipperscreen::json::{get_field, to_json_text, Json};
use rklipperscreen::printer::state::{initial_raw_state, merge_json, status_update};

fn s(x: &str) -> Json {
    Json::Str(x.to_string())
}

fn n(x: &str) -> Json {
    Json::Number(x.to_string())
}

fn obj(entries: Vec<(&str, Json)>) -> Json {
    Json::Object(entries.into_iter().map(|(k, v)| (k.to_string(), v)).collect())
}

fn str_at<'a>(v: &'a Json, path: &[&str]) -> Option<&'a str> {
    let mut cur = v;
    for k in path {
        cur = get_field(cur, k)?;
    }
    match cur {
        Json::Str(t) => Some(t.as_str()),
        _ => None,
    }
}

#[test]
fn test_merge_json() {
    let mut dest = obj(vec![("key1", s("val1")), ("nested", obj(vec![("inner1", s("old"))]))]);
    let src = obj(vec![("key2", s("val2")), ("nested", obj(vec![("inner2", s("new"))]))]);

    merge_json(&mut dest, &src);

    assert_eq!(str_at(&dest, &["key1"]), Some("val1"));
    assert_eq!(str_at(&dest, &["key2"]), Some("val2"));
    assert_eq!(str_at(&dest, &["nested", "inner1"]), Some("old"));
    assert_eq!(str_at(&dest, &["nested", "inner2"]), Some("new"));
}

#[test]
fn merge_json_replaces_leaves_and_skips_non_objects() {
    let mut dest = obj(vec![("a", s("1")), ("b", s("x"))]);
    merge_json(&mut dest, &obj(vec![("a", s("2")), ("b", obj(vec![("c", s("3"))]))]));
    assert_eq!(str_at(&dest, &["a"]), Some("2"));
    // A nested object merged into a non-object leaves the non-object.
    assert_eq!(str_at(&dest, &["b"]), Some("x"));
    let mut leaf = s("keep");
    merge_json(&mut leaf, &obj(vec![("a", s("2"))]));
    assert_eq!(to_json_text(&leaf), "\"keep\"");
    let mut o = obj(vec![("a", s("1"))]);
    merge_json(&mut o, &n("5"));
    assert_eq!(to_json_text(&o), "{\"a\":\"1\"}");
}

#[test]
fn merging_the_same_source_twice_changes_nothing() {
    let src = obj(vec![
        ("extruder", obj(vec![("temperature", n("210.5")), ("target", n("215"))])),
        ("state", s("printing")),
        ("fan", obj(vec![])),
    ]);
    let start = || obj(vec![("extruder", obj(vec![("power", n("0.5"))])), ("state", s("ready")), ("other", n("1"))]);
    let mut once = start();
    merge_json(&mut once, &src);
    let mut twice = start();
    merge_json(&mut twice, &src);
    merge_json(&mut twice, &src);
    assert_eq!(to_json_text(&twice), to_json_text(&once));
    assert_eq!(
        to_json_text(&once),
        "{\"extruder\":{\"power\":0.5,\"temperature\":210.5,\"target\":215},\"state\":\"printing\",\"other\":1,\"fan\":{}}"
    );
}

#[test]
fn json_text_is_compact_and_escaped() {
    let v = obj(vec![
        ("t", n("215.5")),
        ("s", s("a\"b\\c\n\u{1}")),
        ("l", Json::Array(vec![Json::Null, Json::Bool(true), Json::Bool(false)])),
    ]);
    assert_eq!(to_json_text(&v), "{\"t\":215.5,\"s\":\"a\\\"b\\\\c\\n\\u0001\",\"l\":[null,true,false]}");
}

#[test]
fn initial_state_text() {
    let st = initial_raw_state();
    assert_eq!(str_at(&st, &["interpreter_state"]), Some("idle"));
    assert_eq!(
        to_json_text(&st),
        "{\"interpreter_state\":\"idle\",\"temperature_devices\":{\"count\":1},\"extruders\":{\"count\":1},\"fans\":{\"count\":1},\"leds\":{\"count\":0},\"output_pins\":{\"count\":0},\"pwm_tools\":{\"count\":0},\"config_sections\":[]}"
    );
}

#[test]
fn test_reduce_printer_state_temperatures() {
    let update = obj(vec![
        ("extruder", obj(vec![("temperature", n("215.5")), ("target", n("220.0"))])),
        ("heater_bed", obj(vec![("temperature", n("55.2")), ("target", n("60.0"))])),
    ]);
    let mut raw = initial_raw_state();
    merge_json(&mut raw, &update);
    let u = status_update(&update);
    let f = |t: &Option<String>| t.as_deref().and_then(|x| x.parse::<f64>().ok()).map(|x| x as f32);

    assert_eq!(f(&u.extruder_temperature), Some(215.5));
    assert_eq!(f(&u.extruder_target), Some(220.0));
    assert_eq!(f(&u.bed_temperature), Some(55.2));
    assert_eq!(f(&u.bed_target), Some(60.0));
    assert_eq!(str_at(&raw, &["interpreter_state"]), Some("idle"));
}

#[test]
fn status_update_fields() {
    let update = obj(vec![
        ("extruder", obj(vec![("temperature", n("215.5")), ("target", n("220.0"))])),
        ("heater_bed", obj(vec![("temperature", n("55.2")), ("target", n("60.0"))])),
        ("print_stats", obj(vec![("filename", s("cube.gcode")), ("state", s("printing")), ("progress", s("bad"))])),
    ]);
    let u = status_update(&update);
    assert_eq!(u.extruder_temperature.as_deref(), Some("215.5"));
    assert_eq!(u.extruder_target.as_deref(), Some("220.0"));
    assert_eq!(u.bed_temperature.as_deref(), Some("55.2"));
    assert_eq!(u.bed_target.as_deref(), Some("60.0"));
    assert_eq!(u.fan_speed, None);
    assert_eq!(u.print_progress, None);
    assert_eq!(u.print_filename.as_deref(), Some("cube.gcode"));
    assert_eq!(u.print_state.as_deref(), Some("printing"));
    assert_eq!(u.sdcard_progress, None);
}

#[test]
fn subscribe_message_text() {
    assert_eq!(
        subscribe_message(),
        "{\"id\":1,\"jsonrpc\":\"2.0\",\"method\":\"printer.objects.subscribe\",\"params\":{\"objects\":{\"extruder\":[\"temperature\"],\"heater_bed\":[\"temperature\"]}}}"
    );
}

#[test]
fn notification_temperatures() {
    let msg = obj(vec![
        ("method", s("notify_status_update")),
        ("params", Json::Array(vec![obj(vec![("extruder", obj(vec![("temperature", n("210.25"))]))]), n("1.5")])),
    ]);
    let u = temperature_update(&msg);
    assert_eq!(u.hotend.as_deref(), Some("210.25"));
    assert_eq!(u.bed, None);
    let other = obj(vec![("method", s("notify_gcode_response")), ("params", Json::Array(vec![]))]);
    let u = temperature_update(&other);
    assert!(u.hotend.is_none() && u.bed.is_none());
}

#[test]
fn link_actions() {
    assert!(matches!(next_link_action(LinkEvent::Started), LinkAction::Connect));
    assert!(matches!(next_link_action(LinkEvent::ConnectFailed), LinkAction::Sleep(3)));
    assert!(matches!(next_link_action(LinkEvent::SendFailed), LinkAction::Sleep(3)));
    assert!(matches!(next_link_action(LinkEvent::Slept), LinkAction::Connect));
    assert!(matches!(next_link_action(LinkEvent::StreamEnded), LinkAction::Connect));
    match next_link_action(LinkEvent::Connected) {
        LinkAction::Send(t) => assert_eq!(t, subscribe_message()),
        _ => panic!("expected a send"),
    }
    let msg = obj(vec![
        ("method", s("notify_status_update")),
        ("params", Json::Array(vec![obj(vec![("heater_bed", obj(vec![("temperature", n("60")) ]))])])),
    ]);
    match next_link_action(LinkEvent::Message(msg)) {
        LinkAction::Read(u) => {
            assert_eq!(u.bed.as_deref(), Some("60"));
            assert!(u.hotend.is_none());
        }
        _ => panic!("expected a read"),
    }
}
