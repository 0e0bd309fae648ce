//! Menus: what the `[menu ...]` sections of the configuration describe, and
//! the breadcrumb navigation through them.
use vstd::prelude::*;

use crate::config::ini_model::{
    ini_contents, ini_entries, opt_view, props_get, props_view, sections_view, IniSection, Props,
    Sections,
};
use crate::config::parser::{find_key, keys_unique, lemma_find_key, props_lookup, KConfig};
use crate::json::{json_text, to_json_text, Json};
use crate::text::{
    lemma_first_index, concat, contains, ends_with, find_char, first_index_of, join, join_seq, owned, seq_contains,
    seq_ends_with, seq_starts_with, split_whitespace, starts_with, str_eq, trim, trim_seq, views,
    words,
};

verus! {

/// What choosing a menu item does.
pub enum MenuAction {
    NavigateToPanel(String),
    /// The path of the submenu, e.g. `__main more`.
    SubMenu(String),
    ExecuteGcode(String),
    SystemCommand(String),
}

/// One entry of a menu.
pub struct MenuItem {
    pub name: String,
    pub icon_name: String,
    pub action: MenuAction,
    pub enable_expression: Option<String>,
}

/// The items of the menu at one path, in the order of their sections.
pub struct MenuGroup {
    pub path: String,
    pub items: Vec<MenuItem>,
}

/// The menus by path, and the breadcrumb stack of the menus visited.
pub struct MenuRouter {
    pub menus: Vec<MenuGroup>,
    pub navigation_stack: Vec<String>,
}

/// An action as the contracts see it.
pub enum ActionV {
    Panel(Seq<char>),
    Sub(Seq<char>),
    Gcode(Seq<char>),
    System(Seq<char>),
}

/// A menu item as the contracts see it: name, icon, action, enable expression.
pub type ItemV = (Seq<char>, Seq<char>, ActionV, Option<Seq<char>>);

impl MenuAction {
    pub open spec fn view_of(self) -> ActionV {
        match self {
            MenuAction::NavigateToPanel(s) => ActionV::Panel(s@),
            MenuAction::SubMenu(s) => ActionV::Sub(s@),
            MenuAction::ExecuteGcode(s) => ActionV::Gcode(s@),
            MenuAction::SystemCommand(s) => ActionV::System(s@),
        }
    }

    /// A copy of this action.
    pub fn duplicate(&self) -> (res: MenuAction)
        ensures
            res.view_of() == self.view_of(),
    {
        match self {
            MenuAction::NavigateToPanel(s) => MenuAction::NavigateToPanel(s.clone()),
            MenuAction::SubMenu(s) => MenuAction::SubMenu(s.clone()),
            MenuAction::ExecuteGcode(s) => MenuAction::ExecuteGcode(s.clone()),
            MenuAction::SystemCommand(s) => MenuAction::SystemCommand(s.clone()),
        }
    }
}

impl MenuItem {
    pub open spec fn view_of(self) -> ItemV {
        (self.name@, self.icon_name@, self.action.view_of(), opt_view(self.enable_expression))
    }

    /// A copy of this item.
    pub fn duplicate(&self) -> (res: MenuItem)
        ensures
            res.view_of() == self.view_of(),
    {
        MenuItem {
            name: self.name.clone(),
            icon_name: self.icon_name.clone(),
            action: self.action.duplicate(),
            enable_expression: match &self.enable_expression {
                Some(e) => Some(e.clone()),
                None => None,
            },
        }
    }
}

pub open spec fn items_view(v: Seq<MenuItem>) -> Seq<ItemV> {
    Seq::new(v.len(), |i: int| v[i].view_of())
}

impl MenuGroup {
    pub open spec fn view_of(self) -> (Seq<char>, Seq<ItemV>) {
        (self.path@, items_view(self.items@))
    }
}

pub open spec fn groups_view(v: Seq<MenuGroup>) -> Seq<(Seq<char>, Seq<ItemV>)> {
    Seq::new(v.len(), |i: int| v[i].view_of())
}

// ---------------------------------------------------------------------------
// What a menu section describes
/// The text between the first two `q` characters of `n`, if there are two.
pub open spec fn quoted(n: Seq<char>, q: char) -> Option<Seq<char>> {
    match first_index_of(n, q) {
        Some(st) => match first_index_of(n.subrange(st + 1, n.len() as int), q) {
            Some(e) => Some(n.subrange(st + 1, st + 1 + e)),
            None => None,
        },
        None => None,
    }
}

/// The display name that a raw name gives: in a `gettext('...')` call, the
/// quoted text (single quotes first; double quotes only where there is no
/// single quote at all), else the raw name.
pub open spec fn display_name(n: Seq<char>) -> Seq<char> {
    if seq_contains(n, "gettext"@) {
        if first_index_of(n, '\'') is Some {
            match quoted(n, '\'') {
                Some(t) => t,
                None => n,
            }
        } else {
            match quoted(n, '"') {
                Some(t) => t,
                None => n,
            }
        }
    } else {
        n
    }
}

/// An enable expression without surrounding whitespace and, where it is
/// written as `{{ ... }}`, without the braces.
pub open spec fn clean_expr(e: Seq<char>) -> Seq<char> {
    let t = trim_seq(e);
    if seq_starts_with(t, "{{"@) && seq_ends_with(t, "}}"@) {
        trim_seq(t.subrange(2, t.len() - 2))
    } else {
        t
    }
}

/// The item that a menu section with key `key` under `parent` describes.
pub open spec fn item_of(key: Seq<char>, parent: Seq<char>, p: Props) -> ItemV {
    let raw = match props_get(p, "name"@) {
        Some(n) => n,
        None => key,
    };
    let icon = match props_get(p, "icon"@) {
        Some(i) => i,
        None => ""@,
    };
    let enable = match props_get(p, "enable"@) {
        Some(e) => Some(clean_expr(e)),
        None => None,
    };
    let action = match props_get(p, "panel"@) {
        Some(panel) => ActionV::Panel(panel),
        None => match props_get(p, "method"@) {
            Some(m) => if m == "ks_confirm_save"@ {
                ActionV::Gcode("SAVE_CONFIG"@)
            } else {
                ActionV::Gcode(m)
            },
            None => ActionV::Sub(
                if parent.len() == 0 {
                    key
                } else {
                    parent + " "@ + key
                },
            ),
        },
    };
    (display_name(raw), icon, action, enable)
}

/// The words of the path of a section named `menu PATH`.
pub open spec fn menu_path_words(n: Seq<char>) -> Seq<Seq<char>> {
    words(trim_seq(n.subrange("menu "@.len() as int, n.len() as int)))
}

/// The parent path and item that a section describes, if it is a menu
/// section with a non-empty path: the last word of the path is the item's
/// key, the words before it, joined by spaces, the parent's path.
pub open spec fn menu_entry(sec: (Option<Seq<char>>, Props)) -> Option<(Seq<char>, ItemV)> {
    match sec.0 {
        Some(n) => if seq_starts_with(n, "menu "@) && menu_path_words(n).len() > 0 {
            let w = menu_path_words(n);
            let parent = join_seq(w.drop_last(), " "@);
            Some((parent, item_of(w.last(), parent, sec.1)))
        } else {
            None
        },
        None => None,
    }
}

/// `g` after adding `it` to the menu at `path` (a new menu comes last).
pub open spec fn add_to_group(g: Seq<(Seq<char>, Seq<ItemV>)>, path: Seq<char>, it: ItemV) -> Seq<
    (Seq<char>, Seq<ItemV>),
> {
    match find_key(g, path) {
        Some(i) => g.update(i, (path, g[i].1.push(it))),
        None => g.push((path, seq![it])),
    }
}

/// The menus that the sections describe, by path in order of first
/// appearance, each with its items in section order.
pub open spec fn menus_of(s: Sections) -> Seq<(Seq<char>, Seq<ItemV>)>
    decreases s.len(),
{
    if s.len() == 0 {
        Seq::empty()
    } else {
        let prev = menus_of(s.drop_last());
        match menu_entry(s.last()) {
            Some(e) => add_to_group(prev, e.0, e.1),
            None => prev,
        }
    }
}

/// The path of the active menu of a breadcrumb stack.
pub open spec fn active_path(stack: Seq<Seq<char>>) -> Seq<char> {
    if stack.len() > 0 {
        stack.last()
    } else {
        "__main"@
    }
}

// ---------------------------------------------------------------------------
// Parsing
/// The text between the first two `q` characters of `n`.
fn quoted_text(n: &str, q: char) -> (res: Option<String>)
    ensures
        opt_view(res) == quoted(n@, q),
{
    match find_char(n, q) {
        Some(st) => {
            proof {
                lemma_first_index_bounds(n@, q);
            }
            let len = n.unicode_len();
            let rest = n.substring_char(st + 1, len);
            match find_char(rest, q) {
                Some(e) => {
                    proof {
                        lemma_first_index_bounds(rest@, q);
                    }
                    let t = owned(n.substring_char(st + 1, st + 1 + e));
                    assert(t@ =~= n@.subrange(st + 1, st + 1 + e));
                    Some(t)
                },
                None => None,
            }
        },
        None => None,
    }
}

proof fn lemma_first_index_bounds(s: Seq<char>, c: char)
    ensures
        match first_index_of(s, c) {
            Some(i) => 0 <= i < s.len(),
            None => true,
        },
    decreases s.len(),
{
    if s.len() > 0 {
        lemma_first_index_bounds(s.drop_first(), c);
    }
}

/// The display name of a raw menu name (see [`display_name`]).
pub fn parse_display_name(raw: &str) -> (res: String)
    ensures
        res@ == display_name(raw@),
{
    if contains(raw, "gettext") {
        match find_char(raw, '\'') {
            Some(_) => match quoted_text(raw, '\'') {
                Some(t) => t,
                None => owned(raw),
            },
            None => match quoted_text(raw, '"') {
                Some(t) => t,
                None => owned(raw),
            },
        }
    } else {
        owned(raw)
    }
}

/// An enable expression cleaned up for evaluation (see [`clean_expr`]).
pub fn clean_expression(e: &str) -> (res: String)
    ensures
        res@ == clean_expr(e@),
{
    let t = trim(e);
    proof {
        reveal_strlit("{{");
        reveal_strlit("}}");
    }
    if starts_with(t, "{{") && ends_with(t, "}}") {
        let n = t.unicode_len();
        proof {
            if n < 4 {
                assert(t@.subrange(0, 2)[1] == t@[1]);
                assert(t@.subrange(n - 2, n as int)[0] == t@[n - 2]);
            }
        }
        owned(trim(t.substring_char(2, n - 2)))
    } else {
        owned(t)
    }
}

fn lookup_or(props: &Vec<(String, String)>, key: &str, default: &str) -> (res: String)
    ensures
        res@ == match props_get(props_view(props@), key@) {
            Some(v) => v,
            None => default@,
        },
{
    match props_lookup(props, key) {
        Some(v) => v.clone(),
        None => owned(default),
    }
}

/// The item that a menu section with key `key` under `parent` describes.
fn build_item(key: &str, parent: &str, props: &Vec<(String, String)>) -> (res: MenuItem)
    ensures
        res.view_of() == item_of(key@, parent@, props_view(props@)),
{
    let raw = lookup_or(props, "name", key);
    let icon = lookup_or(props, "icon", "");
    let enable = match props_lookup(props, "enable") {
        Some(e) => Some(clean_expression(e.as_str())),
        None => None,
    };
    let action = match props_lookup(props, "panel") {
        Some(p) => MenuAction::NavigateToPanel(p.clone()),
        None => match props_lookup(props, "method") {
            Some(m) => if str_eq(m.as_str(), "ks_confirm_save") {
                MenuAction::ExecuteGcode(owned("SAVE_CONFIG"))
            } else {
                MenuAction::ExecuteGcode(m.clone())
            },
            None => {
                if parent.unicode_len() == 0 {
                    MenuAction::SubMenu(owned(key))
                } else {
                    let mut child = concat(parent, " ");
                    child.append(key);
                    MenuAction::SubMenu(child)
                }
            },
        },
    };
    MenuItem { name: parse_display_name(raw.as_str()), icon_name: icon, action, enable_expression: enable }
}

/// The parent path and item that a section describes, if it is a menu section.
fn entry_of(sec: &IniSection) -> (res: Option<(String, MenuItem)>)
    ensures
        match res {
            Some(e) => menu_entry(sec.view_of()) == Some((e.0@, e.1.view_of())),
            None => menu_entry(sec.view_of()) is None,
        },
{
    proof {
        reveal_strlit("menu ");
        reveal_strlit(" ");
    }
    match &sec.name {
        Some(n) => {
            let s = n.as_str();
            if !starts_with(s, "menu ") {
                return None;
            }
            let len = s.unicode_len();
            let path_part = trim(s.substring_char(5, len));
            let parts = split_whitespace(path_part);
            assert(views(parts@) == menu_path_words(n@));
            if parts.len() == 0 {
                return None;
            }
            let k = parts.len() - 1;
            let key = parts[k].as_str();
            let parent = join(&parts, 0, k, " ");
            assert(views(parts@).subrange(0, k as int) =~= views(parts@).drop_last());
            let item = build_item(key, parent.as_str(), &sec.properties);
            Some((parent, item))
        },
        None => None,
    }
}

fn find_group(v: &Vec<MenuGroup>, k: &str) -> (res: Option<usize>)
    ensures
        match res {
            Some(i) => i < v.len() && find_key(groups_view(v@), k@) == Some(i as int),
            None => find_key(groups_view(v@), k@) is None,
        },
{
    let mut i: usize = 0;
    while i < v.len()
        invariant
            i <= v.len(),
            forall|j: int| 0 <= j < i ==> groups_view(v@)[j].0 != k@,
        decreases v.len() - i,
    {
        if str_eq(v[i].path.as_str(), k) {
            assert(groups_view(v@)[i as int].0 == k@);
            proof {
                lemma_find_key(groups_view(v@), k@);
            }
            return Some(i);
        }
        i = i + 1;
    }
    proof {
        lemma_find_key(groups_view(v@), k@);
    }
    None
}

// ---------------------------------------------------------------------------
// Enable expressions
/// The template that evaluates an enable expression: `{{ EXPR }}`.
pub open spec fn enable_template(expr: Seq<char>) -> Seq<char> {
    "{{ "@ + expr + " }}"@
}

/// What `minijinja` renders for `template` in a context that binds each name
/// of `context` to the value whose JSON text is given; `None` where
/// rendering fails.
pub uninterp spec fn rendered_template(template: Seq<char>, context: Seq<(Seq<char>, Seq<char>)>) -> Option<Seq<char>>;

/// The view of a list of name and JSON text pairs.
pub open spec fn pairs_view(v: Seq<(String, String)>) -> Seq<(Seq<char>, Seq<char>)> {
    Seq::new(v.len(), |i: int| (v[i].0@, v[i].1@))
}

/// Renders `template` with `minijinja` (`Environment::render_str`) in a
/// context that binds each name of `context` to the value of its JSON text
/// (read with `serde_json::from_str`).  The result is named, not described:
/// it is what the template engine gives for these arguments.
#[verifier::external_body]
fn render_template(template: &str, context: &Vec<(String, String)>) -> (res: Option<String>)
    ensures
        opt_view(res) == rendered_template(template@, pairs_view(context@)),
{
    let mut ctx = std::collections::BTreeMap::new();
    for (name, text) in context {
        let value: serde_json::Value = serde_json::from_str(text).ok()?;
        ctx.insert(name.as_str(), minijinja::Value::from_serialize(&value));
    }
    minijinja::Environment::new().render_str(template, ctx).ok()
}

/// The context in which enable expressions are rendered: the printer state
/// (by its JSON text) as `printer`, and `moonraker_connected` set.
pub open spec fn enable_context(state_json: Seq<char>) -> Seq<(Seq<char>, Seq<char>)> {
    seq![("printer"@, state_json), ("moonraker_connected"@, "true"@)]
}

/// Whether an item whose expression rendered as `rendered` is enabled: the
/// rendering, trimmed, reads `true`; a failed rendering enables the item.
pub open spec fn enabled_by_rendering(rendered: Option<Seq<char>>) -> bool {
    match rendered {
        Some(r) => trim_seq(r) == "true"@,
        None => true,
    }
}

/// Whether an item with enable expression `expr` is enabled in the printer
/// state whose JSON text is `state_json`: no expression, or the literal
/// `true`, enables it, the literal `false` disables it, any other
/// expression is rendered.
pub open spec fn item_enabled(expr: Option<Seq<char>>, state_json: Seq<char>) -> bool {
    match expr {
        None => true,
        Some(e) => if e == "true"@ {
            true
        } else if e == "false"@ {
            false
        } else {
            enabled_by_rendering(rendered_template(enable_template(e), enable_context(state_json)))
        },
    }
}

/// The items of `items` that are enabled, in order.
pub open spec fn enabled_items(items: Seq<ItemV>, state_json: Seq<char>) -> Seq<ItemV>
    decreases items.len(),
{
    if items.len() == 0 {
        Seq::empty()
    } else {
        let prev = enabled_items(items.drop_last(), state_json);
        if item_enabled(items.last().3, state_json) {
            prev.push(items.last())
        } else {
            prev
        }
    }
}

/// Whether a rendering enables its item (see [`enabled_by_rendering`]).
pub fn enabled_by(rendered: Option<&String>) -> (res: bool)
    ensures
        res == enabled_by_rendering(match rendered {
            Some(r) => Some(r@),
            None => None,
        }),
{
    match rendered {
        Some(r) => str_eq(trim(r.as_str()), "true"),
        None => true,
    }
}

/// Whether an item with enable expression `expr` is enabled (see [`item_enabled`]).
pub fn is_item_enabled(expr: &Option<String>, state_json: &str) -> (res: bool)
    ensures
        res == item_enabled(opt_view(*expr), state_json@),
{
    match expr {
        None => true,
        Some(e) => {
            if str_eq(e.as_str(), "true") {
                true
            } else if str_eq(e.as_str(), "false") {
                false
            } else {
                let mut template = concat("{{ ", e.as_str());
                template.append(" }}");
                let mut context: Vec<(String, String)> = Vec::new();
                context.push((owned("printer"), owned(state_json)));
                context.push((owned("moonraker_connected"), owned("true")));
                assert(pairs_view(context@) =~= enable_context(state_json@));
                let rendered = render_template(template.as_str(), &context);
                enabled_by(rendered.as_ref())
            }
        },
    }
}

impl MenuRouter {
    /// The enabled items of the active menu, in order, for the printer state
    /// `printer_state`; none where no menu has the active path.
    pub fn get_active_menu_items(&self, printer_state: &Json) -> (res: Vec<MenuItem>)
        ensures
            items_view(res@) == match find_key(
                groups_view(self.menus@),
                active_path(views(self.navigation_stack@)),
            ) {
                Some(i) => enabled_items(
                    groups_view(self.menus@)[i].1,
                    json_text(printer_state.view_of()),
                ),
                None => Seq::empty(),
            },
    {
        let path = self.get_active_menu_path();
        let mut res: Vec<MenuItem> = Vec::new();
        match find_group(&self.menus, path) {
            None => {
                assert(items_view(res@) =~= Seq::<ItemV>::empty());
                res
            },
            Some(g) => {
                let state = to_json_text(printer_state);
                let items = &self.menus[g].items;
                let ghost all = items_view(items@);
                assert(all == groups_view(self.menus@)[g as int].1);
                assert(items_view(res@) =~= enabled_items(all.subrange(0, 0), state@));
                let mut i: usize = 0;
                while i < items.len()
                    invariant
                        i <= items.len(),
                        all == items_view(items@),
                        items_view(res@) == enabled_items(all.subrange(0, i as int), state@),
                    decreases items.len() - i,
                {
                    let ghost cur = all.subrange(0, i + 1);
                    assert(cur.drop_last() =~= all.subrange(0, i as int));
                    assert(cur.last() == items@[i as int].view_of());
                    if is_item_enabled(&items[i].enable_expression, state.as_str()) {
                        let ghost before = items_view(res@);
                        res.push(items[i].duplicate());
                        assert(items_view(res@) =~= before.push(items@[i as int].view_of()));
                    }
                    i = i + 1;
                }
                assert(all.subrange(0, i as int) =~= all);
                res
            },
        }
    }
}

impl MenuRouter {
    /// The router for the menus of `config`, at the main menu.
    pub fn new(config: &KConfig) -> (res: MenuRouter)
        ensures
            groups_view(res.menus@) == menus_of(ini_contents(config.raw_ini)),
            views(res.navigation_stack@) == seq!["__main"@],
    {
        let mut stack: Vec<String> = Vec::new();
        stack.push(owned("__main"));
        assert(views(stack@) =~= seq!["__main"@]);
        MenuRouter { menus: Self::parse_menus(config), navigation_stack: stack }
    }

    /// The menus that the `[menu ...]` sections of `config` describe.
    pub fn parse_menus(config: &KConfig) -> (res: Vec<MenuGroup>)
        ensures
            groups_view(res@) == menus_of(ini_contents(config.raw_ini)),
    {
        let entries = ini_entries(&config.raw_ini);
        let ghost all = sections_view(entries@);
        let mut menus: Vec<MenuGroup> = Vec::new();
        assert(groups_view(menus@) =~= menus_of(all.subrange(0, 0)));
        let mut i: usize = 0;
        while i < entries.len()
            invariant
                i <= entries.len(),
                all == sections_view(entries@),
                all == ini_contents(config.raw_ini),
                groups_view(menus@) == menus_of(all.subrange(0, i as int)),
            decreases entries.len() - i,
        {
            let ghost cur = all.subrange(0, i + 1);
            assert(cur.drop_last() =~= all.subrange(0, i as int));
            assert(cur.last() == entries@[i as int].view_of());
            match entry_of(&entries[i]) {
                Some((parent, item)) => {
                    let ghost before = groups_view(menus@);
                    let ghost iv = item.view_of();
                    match find_group(&menus, parent.as_str()) {
                        Some(j) => {
                            let mut g = MenuGroup { path: String::new(), items: Vec::new() };
                            menus.set_and_swap(j, &mut g);
                            let ghost old_items = items_view(g.items@);
                            proof {
                                lemma_find_key(before, parent@);
                            }
                            assert(before[j as int] == (g.path@, old_items));
                            g.items.push(item);
                            assert(items_view(g.items@) =~= old_items.push(iv));
                            menus.set(j, g);
                            assert(groups_view(menus@) =~= before.update(
                                j as int,
                                (parent@, old_items.push(iv)),
                            ));
                        },
                        None => {
                            let mut items: Vec<MenuItem> = Vec::new();
                            items.push(item);
                            assert(items_view(items@) =~= seq![iv]);
                            menus.push(MenuGroup { path: parent, items });
                            assert(groups_view(menus@) =~= before.push((parent@, seq![iv])));
                        },
                    }
                },
                None => {},
            }
            assert(groups_view(menus@) =~= menus_of(cur));
            i = i + 1;
        }
        assert(all.subrange(0, i as int) =~= all);
        menus
    }

    /// The path of the active menu: the top of the stack, or `__main` when
    /// the stack is empty.
    pub fn get_active_menu_path(&self) -> (res: &str)
        ensures
            res@ == active_path(views(self.navigation_stack@)),
    {
        let n = self.navigation_stack.len();
        if n > 0 {
            self.navigation_stack[n - 1].as_str()
        } else {
            "__main"
        }
    }

    /// Enters the menu at `path`.
    pub fn navigate_to(&mut self, path: String)
        ensures
            views(final(self).navigation_stack@) == views(old(self).navigation_stack@).push(path@),
            groups_view(final(self).menus@) == groups_view(old(self).menus@),
    {
        let ghost before = views(self.navigation_stack@);
        let ghost p = path@;
        self.navigation_stack.push(path);
        assert(views(self.navigation_stack@) =~= before.push(p));
    }

    /// Leaves the active menu, unless it is the last one on the stack; says
    /// whether it left.
    pub fn go_back(&mut self) -> (res: bool)
        ensures
            res == (views(old(self).navigation_stack@).len() > 1),
            views(final(self).navigation_stack@) == if res {
                views(old(self).navigation_stack@).drop_last()
            } else {
                views(old(self).navigation_stack@)
            },
            groups_view(final(self).menus@) == groups_view(old(self).menus@),
    {
        if self.navigation_stack.len() > 1 {
            let ghost before = views(self.navigation_stack@);
            self.navigation_stack.pop();
            assert(views(self.navigation_stack@) =~= before.drop_last());
            true
        } else {
            false
        }
    }

    /// Returns to the bottom of the stack.
    pub fn go_home(&mut self)
        ensures
            views(final(self).navigation_stack@) == if views(old(self).navigation_stack@).len() > 0 {
                views(old(self).navigation_stack@).subrange(0, 1)
            } else {
                views(old(self).navigation_stack@)
            },
            groups_view(final(self).menus@) == groups_view(old(self).menus@),
    {
        let ghost before = views(self.navigation_stack@);
        let had_any = self.navigation_stack.len() > 0;
        self.navigation_stack.truncate(1);
        if had_any {
            assert(views(self.navigation_stack@) =~= before.subrange(0, 1));
        } else {
            assert(views(self.navigation_stack@) =~= before);
        }
    }
}

/// No two menus share a path.
pub proof fn law_menu_paths_unique(s: Sections)
    ensures
        keys_unique(menus_of(s)),
    decreases s.len(),
{
    if s.len() > 0 {
        law_menu_paths_unique(s.drop_last());
        let g = menus_of(s.drop_last());
        match menu_entry(s.last()) {
            Some(e) => {
                lemma_find_key(g, e.0);
                let t = add_to_group(g, e.0, e.1);
                assert forall|i: int, j: int| 0 <= i < j < t.len() implies t[i].0 != t[j].0 by {
                    if j < g.len() {
                        assert(t[i].0 == g[i].0);
                        assert(t[j].0 == g[j].0);
                    } else {
                        assert(t[i].0 == g[i].0);
                    }
                }
            },
            None => {},
        }
    }
}

/// An item of a menu is listed exactly where its enable expression lets it:
/// no expression or the literal `true` lists it, the literal `false` hides
/// it, and any other expression lists it where its rendering reads `true`
/// (trimmed) or where rendering fails.
pub proof fn law_enabled_items(items: Seq<ItemV>, state_json: Seq<char>, x: ItemV)
    ensures
        enabled_items(items, state_json).contains(x) <==> items.contains(x) && match x.3 {
            None => true,
            Some(e) => e == "true"@ || (e != "false"@ && match rendered_template(
                "{{ "@ + e + " }}"@,
                seq![("printer"@, state_json), ("moonraker_connected"@, "true"@)],
            ) {
                Some(r) => trim_seq(r) == "true"@,
                None => true,
            }),
        },
    decreases items.len(),
{
    if items.len() > 0 {
        let pre = items.drop_last();
        law_enabled_items(pre, state_json, x);
        assert(items =~= pre.push(items.last()));
        let prev = enabled_items(pre, state_json);
        if item_enabled(items.last().3, state_json) {
            assert(enabled_items(items, state_json) == prev.push(items.last()));
            assert(prev.push(items.last()).contains(x) <==> prev.contains(x) || x == items.last()) by {
                if x == items.last() {
                    assert(prev.push(items.last())[prev.len() as int] == x);
                }
                if prev.push(items.last()).contains(x) && x != items.last() {
                    let k = choose|k: int| 0 <= k < prev.len() + 1 && prev.push(items.last())[k] == x;
                    assert(prev[k] == x);
                }
                if prev.contains(x) {
                    let k = choose|k: int| 0 <= k < prev.len() && prev[k] == x;
                    assert(prev.push(items.last())[k] == x);
                }
            }
        }
        assert(items.contains(x) <==> pre.contains(x) || x == items.last()) by {
            if x == items.last() {
                assert(items[items.len() - 1] == x);
            }
            if items.contains(x) && x != items.last() {
                let k = choose|k: int| 0 <= k < items.len() && items[k] == x;
                assert(pre[k] == x);
            }
            if pre.contains(x) {
                let k = choose|k: int| 0 <= k < pre.len() && pre[k] == x;
                assert(items[k] == x);
            }
        }
    }
}

/// An item whose enable expression (neither literal) fails to render is
/// listed.
pub proof fn law_failed_rendering_enables(items: Seq<ItemV>, state_json: Seq<char>, j: int, e: Seq<char>)
    requires
        0 <= j < items.len(),
        items[j].3 == Some(e),
        e != "true"@,
        e != "false"@,
        rendered_template("{{ "@ + e + " }}"@, seq![("printer"@, state_json), ("moonraker_connected"@, "true"@)])
            is None,
    ensures
        enabled_items(items, state_json).contains(items[j]),
{
    law_enabled_items(items, state_json, items[j]);
    assert(items.contains(items[j]));
}

/// A raw name without a `gettext` call is shown as it is.
pub proof fn law_display_name_plain(n: Seq<char>)
    requires
        !seq_contains(n, "gettext"@),
    ensures
        display_name(n) == n,
{
}

/// In a name with a `gettext` call, the text between the first two single
/// quotes is shown.
pub proof fn law_display_name_single_quoted(a: Seq<char>, t: Seq<char>, b: Seq<char>)
    requires
        seq_contains(a + seq!['\''] + t + seq!['\''] + b, "gettext"@),
        forall|k: int| 0 <= k < a.len() ==> a[k] != '\'',
        forall|k: int| 0 <= k < t.len() ==> t[k] != '\'',
    ensures
        display_name(a + seq!['\''] + t + seq!['\''] + b) == t,
{
    lemma_quoted(a, t, b, '\'');
}

/// In a name with a `gettext` call and no single quote, the text between
/// the first two double quotes is shown.
pub proof fn law_display_name_double_quoted(a: Seq<char>, t: Seq<char>, b: Seq<char>)
    requires
        seq_contains(a + seq!['"'] + t + seq!['"'] + b, "gettext"@),
        forall|k: int| 0 <= k < a.len() ==> a[k] != '"',
        forall|k: int| 0 <= k < t.len() ==> t[k] != '"',
        forall|k: int|
            0 <= k < (a + seq!['"'] + t + seq!['"'] + b).len() ==> #[trigger] (a + seq!['"'] + t
                + seq!['"'] + b)[k] != '\'',
    ensures
        display_name(a + seq!['"'] + t + seq!['"'] + b) == t,
{
    let n = a + seq!['"'] + t + seq!['"'] + b;
    lemma_first_index(n, '\'', n.len() as int);
    lemma_quoted(a, t, b, '"');
}

proof fn lemma_quoted(a: Seq<char>, t: Seq<char>, b: Seq<char>, q: char)
    requires
        forall|k: int| 0 <= k < a.len() ==> a[k] != q,
        forall|k: int| 0 <= k < t.len() ==> t[k] != q,
    ensures
        first_index_of(a + seq![q] + t + seq![q] + b, q) == Some(a.len() as int),
        quoted(a + seq![q] + t + seq![q] + b, q) == Some(t),
{
    let n = a + seq![q] + t + seq![q] + b;
    assert forall|k: int| 0 <= k < a.len() implies n[k] != q by {
        assert(n[k] == a[k]);
    }
    assert(n[a.len() as int] == q);
    lemma_first_index(n, q, a.len() as int);
    let st = a.len() as int;
    let rest = n.subrange(st + 1, n.len() as int);
    assert(rest =~= t + seq![q] + b);
    assert forall|k: int| 0 <= k < t.len() implies rest[k] != q by {
        assert(rest[k] == t[k]);
    }
    assert(rest[t.len() as int] == q);
    lemma_first_index(rest, q, t.len() as int);
    assert(n.subrange(st + 1, st + 1 + t.len()) =~= t);
}

/// What a menu section describes: a `panel` opens that panel; without one,
/// a `method` runs as G-code (`ks_confirm_save` as `SAVE_CONFIG`); without
/// either, the item opens the sub-menu at its own path.  The icon defaults to
/// none, the enable expression is the cleaned `enable`, and the name is the
/// display name of `name`, or of the key.
pub proof fn law_item_of(key: Seq<char>, parent: Seq<char>, p: Props)
    ensures
        item_of(key, parent, p).2 == match props_get(p, "panel"@) {
            Some(panel) => ActionV::Panel(panel),
            None => match props_get(p, "method"@) {
                Some(m) => ActionV::Gcode(
                    if m == "ks_confirm_save"@ {
                        "SAVE_CONFIG"@
                    } else {
                        m
                    },
                ),
                None => ActionV::Sub(
                    if parent.len() == 0 {
                        key
                    } else {
                        parent + " "@ + key
                    },
                ),
            },
        },
        props_get(p, "panel"@) is None ==> forall|m: Seq<char>|
            props_get(p, "method"@) == Some(m) && m != "ks_confirm_save"@ ==> #[trigger] item_of(
                key,
                parent,
                p,
            ).2 == ActionV::Gcode(m),
        item_of(key, parent, p).1 == match props_get(p, "icon"@) {
            Some(i) => i,
            None => ""@,
        },
        item_of(key, parent, p).3 == match props_get(p, "enable"@) {
            Some(e) => Some(clean_expr(e)),
            None => None,
        },
        item_of(key, parent, p).0 == display_name(
            match props_get(p, "name"@) {
                Some(n) => n,
                None => key,
            },
        ),
{
}

/// Going back from the root menu stays at the root: the stack never empties
/// by going back.
pub proof fn law_go_back_keeps_root(stack: Seq<Seq<char>>)
    requires
        stack.len() > 0,
    ensures
        (if stack.len() > 1 {
            stack.drop_last()
        } else {
            stack
        }).len() > 0,
{
}

/// Entering a menu and going back leaves the stack as it was.
pub proof fn law_navigate_back(stack: Seq<Seq<char>>, path: Seq<char>)
    requires
        stack.len() > 0,
    ensures
        stack.push(path).len() > 1,
        stack.push(path).drop_last() == stack,
        active_path(stack.push(path)) == path,
{
    assert(stack.push(path).drop_last() =~= stack);
}

} // verus!
