use rklipperscreen::api::websocket::{decimal_text, moonraker_ws_url, moonraker_ws_url_for};
use rklipperscreen::api::rest::{extract_thumbnail_from_gcode, thumbnail_payload, RestClient, RestCommand};
use rklipperscreen::api::spoolman::SpoolmanClient;
use rklipperscreen::system::l10n::{
    get_translation, init_global_translator, mo_ends_fit_check, plural_form, translator_from_mo, Translator,
};
use rklipperscreen::system::network::{ConnectPlan, WifiController};
use rklipperscreen::system::notifications::send_system_notification;
use rklipperscreen::system::power::{PowerAction, PowerController};
use rklipperscreen::text::{split_whitespace, trim};

const PNG_1X1: &str = "iVBORw0KGgoAAAANSUhEUgAAAAEAAAABCAYAAAAfFcSJAAAADUlEQVR42mNk+M9QDwADhgGAWjR9awAAAABJRU5ErkJggg==";

fn lines(v: &[&str]) -> Vec<Option<String>> {
    v.iter().map(|l| Some(l.to_string())).collect()
}

#[test]
fn rest_urls() {
    let c = RestClient::new("printer.local", 7125);
    assert_eq!(c.base_url, "http://printer.local:7125");
    assert_eq!(c.command_url(RestCommand::MachineRestart), "http://printer.local:7125/machine/reboot");
    assert_eq!(c.command_url(RestCommand::MachineShutdown), "http://printer.local:7125/machine/shutdown");
    assert_eq!(c.command_url(RestCommand::RestartKlipper), "http://printer.local:7125/printer/restart");
    assert_eq!(c.command_url(RestCommand::RestartFirmware), "http://printer.local:7125/printer/firmware_restart");
    assert_eq!(RestClient::new("h", 0).base_url, "http://h:0");
    assert_eq!(RestClient::new("h", 65535).base_url, "http://h:65535");
}

#[test]
fn thumbnail_payload_first_block() {
    let l = lines(&[
        "G28",
        "; thumbnail begin 1x1 100",
        ";  iVBORw0KGgo ",
        "not a comment",
        "; AAAA",
        "; thumbnail end",
        "; thumbnail begin 2x2",
        "; BBBB",
        "; thumbnail end",
    ]);
    assert_eq!(thumbnail_payload(&l).as_deref(), Some("iVBORw0KGgoAAAA"));
    let unterminated = lines(&["; thumbnail_QOI begin", "; abc"]);
    assert_eq!(thumbnail_payload(&unterminated), None);
    let mut with_gap = vec![None];
    with_gap.extend(lines(&["; thumbnail_JPG begin 1", "; x", "; thumbnail_JPG end"]));
    assert_eq!(thumbnail_payload(&with_gap).as_deref(), Some("x"));
}

#[test]
fn thumbnail_past_line_limit_is_ignored() {
    let mut l: Vec<Option<String>> = (0..5000).map(|_| Some("G1 X1".to_string())).collect();
    l.extend(lines(&["; thumbnail begin", "; abc", "; thumbnail end"]));
    assert_eq!(thumbnail_payload(&l), None);
}

#[test]
fn thumbnail_image_decodes() {
    let l = lines(&["; thumbnail begin 1x1", &format!("; {}", PNG_1X1), "; thumbnail end"]);
    let img = extract_thumbnail_from_gcode(&l).expect("a thumbnail");
    assert_eq!((img.width, img.height), (1, 1));
    assert_eq!(img.pixels.len(), 4);
    let bad = lines(&["; thumbnail begin", "; !!!!", "; thumbnail end"]);
    assert!(extract_thumbnail_from_gcode(&bad).is_none());
}

#[test]
fn spoolman_queries() {
    let off = SpoolmanClient::new(false, "http://s:7912".to_string());
    assert_eq!(off.spools_url(), None);
    let on = SpoolmanClient::new(true, "http://s:7912".to_string());
    assert_eq!(on.spools_url().as_deref(), Some("http://s:7912/api/v1/spool"));
    assert!(SpoolmanClient::reply_has_spools(200));
    assert!(SpoolmanClient::reply_has_spools(299));
    assert!(!SpoolmanClient::reply_has_spools(404));
}

#[test]
fn wifi_scan_and_connect() {
    let mock = WifiController::new(false, false);
    assert!(mock.uses_mock());
    let nets = mock.scan_networks(Err("ignored".to_string())).unwrap();
    let ssids: Vec<&str> = nets.iter().map(|n| n.ssid.as_str()).collect();
    assert_eq!(ssids, vec!["Klipper-Secure-5G", "Workshop_Guest", "Neighborhood-Printer"]);
    assert_eq!(nets[0].signal, 94);
    match mock.connect_to_network("pässword") {
        ConnectPlan::Simulated { masked_password, delay_secs } => {
            assert_eq!(masked_password, "*********");
            assert_eq!(delay_secs, 1);
        }
        ConnectPlan::Live => panic!("expected a simulated connection"),
    }
    let live = WifiController::new(true, true);
    assert!(!live.uses_mock());
    assert_eq!(live.scan_networks(Err("no bus".to_string())).err().as_deref(), Some("no bus"));
    let nets = live.scan_networks(Ok(())).unwrap();
    assert_eq!(nets.len(), 2);
    assert_eq!(nets[1].ssid, "NM-Connected-AP");
    assert!(matches!(live.connect_to_network("x"), ConnectPlan::Live));
    assert!(WifiController::new(true, false).uses_mock());
}

#[test]
fn notification_request() {
    assert!(send_system_notification("s", "b", false).is_none());
    let r = send_system_notification("Print done", "cube.gcode", true).unwrap();
    assert_eq!(r.app_name, "rKlipperScreen");
    assert_eq!(r.replaces_id, 0);
    assert_eq!(r.app_icon, "printer");
    assert_eq!(r.summary, "Print done");
    assert_eq!(r.body, "cube.gcode");
    assert!(r.actions.is_empty());
    assert_eq!(r.expire_timeout, -1);
}

#[test]
fn power_actions() {
    let p = PowerController::new(&vec![false, true]);
    assert_eq!(p.backlight_path().map(|s| s.as_str()), Some("/sys/class/backlight/backlight/brightness"));
    match p.set_screen_power(false, true) {
        PowerAction::WriteBrightness { path, value } => {
            assert_eq!(path, "/sys/class/backlight/backlight/brightness");
            assert_eq!(value, "0");
        }
        _ => panic!("expected a brightness write"),
    }
    let first = PowerController::new(&vec![true, true]);
    assert_eq!(first.backlight_path().map(|s| s.as_str()), Some("/sys/class/backlight/rpi_backlight/brightness"));
    let none = PowerController::new(&vec![]);
    assert!(none.backlight_path().is_none());
    match none.set_screen_power(true, false) {
        PowerAction::Dpms { state, display } => {
            assert_eq!(state, "on");
            assert_eq!(display.as_deref(), Some(":0"));
        }
        _ => panic!("expected DPMS"),
    }
    match none.set_screen_power(false, true) {
        PowerAction::Dpms { state, display } => {
            assert_eq!(state, "off");
            assert_eq!(display, None);
        }
        _ => panic!("expected DPMS"),
    }
}

#[test]
fn translations() {
    assert_eq!(Translator::lang_code("system_lang", Some("de_DE.UTF-8")), "de");
    assert_eq!(Translator::lang_code("system_lang", None), "en");
    assert_eq!(Translator::lang_code("fr", Some("de_DE.UTF-8")), "fr");
    assert_eq!(Translator::mo_path("de"), "ks_includes/locales/de/LC_MESSAGES/KlipperScreen.mo");
    let mut slot = None;
    assert_eq!(get_translation(&slot, "Home"), "Home");
    init_global_translator(&mut slot, Translator::new(Some(gettext::Catalog::empty())));
    assert_eq!(get_translation(&slot, "Home"), "Home");
    assert_eq!(Translator::new(None).translate("Move"), "Move");
}

fn mo_file(pairs: &[(&str, &str)]) -> Vec<u8> {
    let n = pairs.len() as u32;
    let otable = 28u32;
    let ttable = otable + 8 * n;
    let mut strings_at = ttable + 8 * n;
    let mut out = Vec::new();
    for v in [0x950412deu32, 0, n, otable, ttable, 0, 0] {
        out.extend_from_slice(&v.to_le_bytes());
    }
    let mut data = Vec::new();
    let mut tables = (Vec::new(), Vec::new());
    for (i, (id, tr)) in pairs.iter().enumerate() {
        let _ = i;
        tables.0.push((id.len() as u32, strings_at));
        data.extend_from_slice(id.as_bytes());
        data.push(0);
        strings_at += id.len() as u32 + 1;
        tables.1.push((tr.len() as u32, strings_at));
        data.extend_from_slice(tr.as_bytes());
        data.push(0);
        strings_at += tr.len() as u32 + 1;
    }
    for (len, off) in tables.0.iter().chain(tables.1.iter()) {
        out.extend_from_slice(&len.to_le_bytes());
        out.extend_from_slice(&off.to_le_bytes());
    }
    out.extend_from_slice(&data);
    out
}

#[test]
fn translations_from_a_catalog() {
    let bytes = mo_file(&[("Home", "Accueil"), ("Move", "Déplacer")]);
    let catalog = gettext::Catalog::parse(&bytes[..]).expect("a catalog");
    let t = Translator::new(Some(catalog));
    assert_eq!(t.translate("Home"), "Accueil");
    assert_eq!(t.translate("Move"), "Déplacer");
    assert_eq!(t.translate("Other"), "Other");
    let mut slot = None;
    init_global_translator(&mut slot, t);
    assert_eq!(get_translation(&slot, "Home"), "Accueil");
}

#[test]
fn translator_read_from_mo_bytes() {
    let bytes = mo_file(&[("Home", "Accueil"), ("Move", "Déplacer")]);
    let t = translator_from_mo(Some(&bytes[..]));
    assert_eq!(t.translate("Home"), "Accueil");
    assert_eq!(t.translate("Move"), "Déplacer");
    assert_eq!(t.translate("Other"), "Other");
}

#[test]
fn translator_ignores_the_plural_header() {
    // Plural-Forms texts on which gettext's own plural parser panics.
    for header in ["Plural-Forms: nplurals=2; plural=(;\n", "Plural-Forms: \u{e9}=1\n", "Plural-Forms: plural=((x\n"] {
        let bytes = mo_file(&[("", header), ("Home", "Accueil")]);
        assert!(mo_ends_fit_check(&bytes));
        let t = translator_from_mo(Some(&bytes[..]));
        assert_eq!(t.translate("Home"), "Accueil");
        assert_eq!(t.translate("Move"), "Move");
    }
}

#[test]
fn mo_string_ends_fit() {
    let bytes = mo_file(&[("Home", "Accueil")]);
    assert!(mo_ends_fit_check(&bytes));
    assert!(mo_ends_fit_check(b"short"));
    assert!(mo_ends_fit_check(&[0u8; 40]));
    // A string table that claims the largest offset and length still fits
    // in a 64-bit usize; the parser then refuses the file.
    let mut big = bytes.clone();
    for b in &mut big[28..36] {
        *b = 0xff;
    }
    assert_eq!(mo_ends_fit_check(&big), usize::MAX as u64 >= 0x1_ffff_ffff);
    assert_eq!(translator_from_mo(Some(&big[..])).translate("Home"), "Home");
}

#[test]
fn plural_form_of_counts() {
    assert_eq!(plural_form(1), 0);
    assert_eq!(plural_form(0), 1);
    assert_eq!(plural_form(5), 1);
}

#[test]
fn translator_without_a_usable_catalog() {
    let none = translator_from_mo(None);
    assert_eq!(none.translate("Home"), "Home");
    let garbage = translator_from_mo(Some(&b"not a catalog at all"[..]));
    assert_eq!(garbage.translate("Home"), "Home");
    let empty = translator_from_mo(Some(&[][..]));
    assert_eq!(empty.translate("Move"), "Move");
}

#[test]
fn websocket_address_for_host_and_port() {
    assert_eq!(
        moonraker_ws_url_for("printer.local", 7126).as_deref(),
        Some("ws://printer.local:7126/websocket")
    );
    assert_eq!(moonraker_ws_url_for("127.0.0.1", 7125), moonraker_ws_url());
    assert_eq!(moonraker_ws_url_for("bad host", 80), None);
    assert_eq!(decimal_text(0), "0");
    assert_eq!(decimal_text(9), "9");
    assert_eq!(decimal_text(10), "10");
    assert_eq!(decimal_text(65535), "65535");
}

#[test]
fn websocket_address() {
    assert_eq!(
        rklipperscreen::api::websocket::moonraker_ws_url().as_deref(),
        Some("ws://127.0.0.1:7125/websocket")
    );
}

#[test]
fn display_backends() {
    use_backend_checks();
}

fn use_backend_checks() {
    let b = rklipperscreen::system::display::display_backend;
    assert_eq!(b(true, false), "winit");
    assert_eq!(b(false, true), "winit");
    assert_eq!(b(true, true), "winit");
    assert_eq!(b(false, false), "linuxkms-noseat");
}

#[test]
fn text_helpers() {
    assert_eq!(trim("\u{3000} a b\t\n"), "a b");
    assert_eq!(split_whitespace("  __main  more\tbed "), vec!["__main".to_string(), "more".to_string(), "bed".to_string()]);
    assert!(split_whitespace("   ").is_empty());
}
