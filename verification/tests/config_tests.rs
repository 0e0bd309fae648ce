use ini::Ini;
use rklipperscreen::config::menu::{clean_expression, parse_display_name, MenuAction, MenuRouter};
use rklipperscreen::config::parser::{parse_u16, KConfig};
use rklipperscreen::json::Json;

fn get<'a>(ini: &'a Ini, section: &str, key: &str) -> Option<&'a str> {
    ini.section(Some(section)).and_then(|s| s.get(key))
}

#[test]
fn test_merge_ini() {
    let mut dest = Ini::new();
    dest.set_to(Some("main"), "language".to_string(), "fr".to_string());

    let mut src = Ini::new();
    src.set_to(Some("main"), "theme".to_string(), "material".to_string());

    KConfig::merge_ini(&mut dest, &src);

    assert_eq!(dest.section(Some("main")).unwrap().get("language").unwrap(), "fr");
    assert_eq!(dest.section(Some("main")).unwrap().get("theme").unwrap(), "material");
}

#[test]
fn test_load_cascading_fallback() {
    // No defaults document and no user document: only the built-in fallback.
    let config = KConfig::load_cascading(None, None);
    assert_eq!(config.language, "en");
    assert_eq!(config.theme, "z-bolt");
    assert!(!config.printers.is_empty());
}

#[test]
fn merge_ini_source_value_wins_and_others_stay() {
    let mut dest = Ini::new();
    dest.set_to(Some("main"), "language".to_string(), "fr".to_string());
    dest.set_to(Some("main"), "theme".to_string(), "dark".to_string());
    let mut src = Ini::new();
    src.set_to(Some("main"), "theme".to_string(), "material".to_string());
    src.set_to(Some("printer a"), "moonraker_port".to_string(), "80".to_string());
    KConfig::merge_ini(&mut dest, &src);
    assert_eq!(get(&dest, "main", "language"), Some("fr"));
    assert_eq!(get(&dest, "main", "theme"), Some("material"));
    assert_eq!(get(&dest, "printer a", "moonraker_port"), Some("80"));
}

#[test]
fn cascade_user_over_defaults_over_fallback() {
    let mut defaults = Ini::new();
    defaults.set_to(Some("main"), "language".to_string(), "de".to_string());
    defaults.set_to(Some("main"), "theme".to_string(), "material".to_string());
    let mut user = Ini::new();
    user.set_to(Some("main"), "language".to_string(), "fr".to_string());
    let config = KConfig::load_cascading(Some(&defaults), Some(&user));
    assert_eq!(config.language, "fr");
    assert_eq!(config.theme, "material");
    assert_eq!(get(&config.raw_ini, "main", "use_dpms"), Some("true"));
}

#[test]
fn default_printer_when_none_configured() {
    let config = KConfig::load_cascading(None, None);
    assert_eq!(config.printers.len(), 1);
    let p = &config.printers[0];
    assert_eq!(p.name, "default");
    assert_eq!(p.moonraker_host, "127.0.0.1");
    assert_eq!(p.moonraker_port, 7125);
    assert_eq!(p.moonraker_api_key, "");
}

#[test]
fn printers_and_presets_from_sections() {
    let mut user = Ini::new();
    user.set_to(Some("printer Voron"), "moonraker_host".to_string(), "10.0.0.2".to_string());
    user.set_to(Some("printer Voron"), "moonraker_port".to_string(), "+7126".to_string());
    user.set_to(Some("printer Ender"), "moonraker_port".to_string(), "70000".to_string());
    user.set_to(Some("printer Ender"), "moonraker_api_key".to_string(), "k".to_string());
    user.set_to(Some("preheat PLA"), "bed".to_string(), "60".to_string());
    user.set_to(Some("preheat PLA"), "extruder".to_string(), "200".to_string());
    let config = KConfig::load_cascading(None, Some(&user));
    assert_eq!(config.printers.len(), 2);
    assert_eq!(config.printers[0].name, "Voron");
    assert_eq!(config.printers[0].moonraker_host, "10.0.0.2");
    assert_eq!(config.printers[0].moonraker_port, 7126);
    assert_eq!(config.printers[1].name, "Ender");
    assert_eq!(config.printers[1].moonraker_host, "127.0.0.1");
    assert_eq!(config.printers[1].moonraker_port, 7125);
    assert_eq!(config.printers[1].moonraker_api_key, "k");
    assert_eq!(config.preheat_presets.len(), 1);
    assert_eq!(config.preheat_presets[0].name, "PLA");
    assert_eq!(config.preheat_presets[0].bed.as_deref(), Some("60"));
    assert_eq!(config.preheat_presets[0].extruder.as_deref(), Some("200"));
}

#[test]
fn parse_u16_like_from_str() {
    assert_eq!(parse_u16("7125"), Some(7125));
    assert_eq!(parse_u16("+80"), Some(80));
    assert_eq!(parse_u16("0065535"), Some(65535));
    assert_eq!(parse_u16("65536"), None);
    assert_eq!(parse_u16(""), None);
    assert_eq!(parse_u16("+"), None);
    assert_eq!(parse_u16("-1"), None);
    assert_eq!(parse_u16(" 80"), None);
    assert_eq!(parse_u16("8a"), None);
    for s in ["0", "1", "42", "7125", "65535", "65536", "+", "-0", "x"] {
        assert_eq!(parse_u16(s), s.parse::<u16>().ok());
    }
}

#[test]
fn include_targets_of_sections() {
    let mut ini = Ini::new();
    ini.set_to(Some("include  extra.conf "), "x".to_string(), "1".to_string());
    ini.set_to(Some("[include macros.conf]"), "x".to_string(), "1".to_string());
    ini.set_to(Some("main"), "x".to_string(), "1".to_string());
    let t = KConfig::include_targets(&ini);
    assert_eq!(t, vec!["extra.conf".to_string(), "macros.conf".to_string()]);
}

#[test]
fn parse_document_reads_sections_and_values() {
    let doc = KConfig::parse_document("[main]\nlanguage = fr\ntheme=material\n\n[printer Voron]\nmoonraker_port: 7126\n")
        .expect("a document");
    assert_eq!(get(&doc, "main", "language"), Some("fr"));
    assert_eq!(get(&doc, "main", "theme"), Some("material"));
    assert_eq!(get(&doc, "printer Voron", "moonraker_port"), Some("7126"));
}

#[test]
fn parse_document_skips_a_leading_bom() {
    let doc = KConfig::parse_document("\u{feff}[main]\nlanguage = de\n").expect("a document");
    assert_eq!(get(&doc, "main", "language"), Some("de"));
}

#[test]
fn parse_document_refuses_malformed_text() {
    assert!(KConfig::parse_document("[main\nlanguage = fr\n").is_none());
}

#[test]
fn assemble_with_includes_merges_in_order() {
    let doc = KConfig::parse_document("[include a.conf]\n[include b.conf]\n[main]\ntheme = base\nlanguage = en\n")
        .expect("a document");
    assert_eq!(KConfig::include_targets(&doc), vec!["a.conf".to_string(), "b.conf".to_string()]);
    let a = KConfig::parse_document("[main]\ntheme = from_a\nfont = small\n").expect("a");
    let b = KConfig::parse_document("[main]\ntheme = from_b\n").expect("b");
    let res = KConfig::assemble_with_includes(&doc, &vec![Some(a), None, Some(b)]);
    assert_eq!(get(&res, "main", "theme"), Some("from_b"));
    assert_eq!(get(&res, "main", "font"), Some("small"));
    assert_eq!(get(&res, "main", "language"), Some("en"));
    let alone = KConfig::assemble_with_includes(&doc, &vec![None, None]);
    assert_eq!(get(&alone, "main", "theme"), Some("base"));
}

#[test]
fn user_config_candidates_under_home() {
    let c = KConfig::user_config_candidates(Some("/home/me"));
    assert_eq!(
        c,
        vec![
            "/home/me/KlipperScreen.conf".to_string(),
            "/home/me/printer_data/config/KlipperScreen.conf".to_string(),
            "/home/me/.config/KlipperScreen/KlipperScreen.conf".to_string(),
            "./KlipperScreen.conf".to_string(),
        ]
    );
    let d = KConfig::user_config_candidates(None);
    assert_eq!(d[0], "/home/pi/KlipperScreen.conf");
    assert_eq!(d[1], "/home/pi/printer_data/config/KlipperScreen.conf");
}

fn menu_config() -> KConfig {
    let mut user = Ini::new();
    user.set_to(Some("menu __main move"), "name".to_string(), "{{ gettext('Move') }}".to_string());
    user.set_to(Some("menu __main move"), "icon".to_string(), "move".to_string());
    user.set_to(Some("menu __main move"), "panel".to_string(), "move".to_string());
    user.set_to(Some("menu __main more"), "name".to_string(), "More".to_string());
    user.set_to(Some("menu __main more save"), "method".to_string(), "ks_confirm_save".to_string());
    user.set_to(Some("menu __main more save"), "enable".to_string(), " {{ false }} ".to_string());
    user.set_to(Some("menu __main more home"), "method".to_string(), "G28".to_string());
    user.set_to(Some("menu __main more home"), "enable".to_string(), "{{ 'true' if printer.ready else 'no' }}".to_string());
    user.set_to(Some("menu __main more bool"), "method".to_string(), "M115".to_string());
    user.set_to(Some("menu __main more bool"), "enable".to_string(), "printer.ready".to_string());
    user.set_to(Some("menu __main more off"), "method".to_string(), "M84".to_string());
    user.set_to(Some("menu __main more off"), "enable".to_string(), "false".to_string());
    KConfig::load_cascading(None, Some(&user))
}

#[test]
fn menus_grouped_by_parent() {
    let router = MenuRouter::new(&menu_config());
    assert_eq!(router.menus.len(), 2);
    assert_eq!(router.menus[0].path, "__main");
    let main = &router.menus[0].items;
    assert_eq!(main.len(), 2);
    assert_eq!(main[0].name, "Move");
    assert_eq!(main[0].icon_name, "move");
    assert!(matches!(&main[0].action, MenuAction::NavigateToPanel(p) if p == "move"));
    assert_eq!(main[1].name, "More");
    assert!(matches!(&main[1].action, MenuAction::SubMenu(p) if p == "__main more"));
    assert_eq!(router.menus[1].path, "__main more");
    let more = &router.menus[1].items;
    assert_eq!(more.len(), 4);
    assert!(matches!(&more[0].action, MenuAction::ExecuteGcode(g) if g == "SAVE_CONFIG"));
    assert_eq!(more[0].enable_expression.as_deref(), Some("false"));
    assert_eq!(more[1].name, "home");
    assert_eq!(more[1].enable_expression.as_deref(), Some("'true' if printer.ready else 'no'"));
    assert_eq!(more[2].name, "bool");
}

#[test]
fn display_names_from_gettext_calls() {
    assert_eq!(parse_display_name("{{ gettext('Move') }}"), "Move");
    assert_eq!(parse_display_name("{{ gettext(\"Home\") }}"), "Home");
    assert_eq!(parse_display_name("{{ gettext('Unclosed) }}"), "{{ gettext('Unclosed) }}");
    assert_eq!(parse_display_name("Plain 'quoted'"), "Plain 'quoted'");
    assert_eq!(clean_expression("  {{ a and b }} "), "a and b");
    assert_eq!(clean_expression(" x "), "x");
}

#[test]
fn navigation_back_and_home() {
    let mut router = MenuRouter::new(&menu_config());
    assert_eq!(router.get_active_menu_path(), "__main");
    assert!(!router.go_back());
    assert_eq!(router.get_active_menu_path(), "__main");
    router.navigate_to("__main more".to_string());
    assert_eq!(router.get_active_menu_path(), "__main more");
    router.navigate_to("__main more x".to_string());
    assert!(router.go_back());
    assert_eq!(router.get_active_menu_path(), "__main more");
    router.navigate_to("a".to_string());
    router.go_home();
    assert_eq!(router.navigation_stack, vec!["__main".to_string()]);
    router.navigation_stack.clear();
    assert_eq!(router.get_active_menu_path(), "__main");
}

#[test]
fn active_items_filtered_by_enable() {
    let mut router = MenuRouter::new(&menu_config());
    router.navigate_to("__main more".to_string());
    let ready = Json::Object(vec![("ready".to_string(), Json::Bool(true))]);
    let items = router.get_active_menu_items(&ready);
    let names: Vec<&str> = items.iter().map(|i| i.name.as_str()).collect();
    // A boolean renders as `True`, which is not `true`: only the item whose
    // expression renders the text `true` is enabled.
    assert_eq!(names, vec!["home"]);
    let not_ready = Json::Object(vec![("ready".to_string(), Json::Bool(false))]);
    assert!(router.get_active_menu_items(&not_ready).is_empty());
    router.navigate_to("nowhere".to_string());
    assert!(router.get_active_menu_items(&ready).is_empty());
    router.go_home();
    assert_eq!(router.get_active_menu_items(&ready).len(), 2);
}
