//! The cascade of configuration documents and what is read out of it.
use vstd::prelude::*;

use ini::Ini;

use crate::config::ini_model::{
    empty_doc, ini_contents, ini_entries, ini_get_from, ini_load_from_str, ini_new, ini_parsed, ini_set_to, last_in_secs,
    lemma_merge_get, lemma_set_to_get, merge_props, merge_secs, opt_str_view, opt_view, props_get,
    props_view, secs_get, secs_set_to, sections_view, Props, Sections,
};
use crate::text::{concat, ends_with, owned, seq_ends_with, seq_starts_with, starts_with, str_eq, trim, trim_seq, views};

verus! {

/// The connection settings of one printer.
pub struct PrinterConfig {
    pub name: String,
    pub moonraker_host: String,
    pub moonraker_port: u16,
    pub moonraker_api_key: String,
}

/// A preheat preset as the configuration writes it: its name and the text of
/// its bed and extruder temperatures, where given.
pub struct PreheatPreset {
    pub name: String,
    pub bed: Option<String>,
    pub extruder: Option<String>,
}

/// The configuration that the cascade of documents yields.
pub struct KConfig {
    pub language: String,
    pub theme: String,
    pub printers: Vec<PrinterConfig>,
    pub preheat_presets: Vec<PreheatPreset>,
    pub raw_ini: Ini,
}

/// A printer as the contracts see it: host, port and API key.
pub type PrinterV = (Seq<char>, u16, Seq<char>);

/// A preset as the contracts see it: the bed and extruder texts.
pub type PresetV = (Option<Seq<char>>, Option<Seq<char>>);

impl PrinterConfig {
    pub open spec fn view_of(self) -> (Seq<char>, PrinterV) {
        (self.name@, (self.moonraker_host@, self.moonraker_port, self.moonraker_api_key@))
    }
}

impl PreheatPreset {
    pub open spec fn view_of(self) -> (Seq<char>, PresetV) {
        (self.name@, (opt_view(self.bed), opt_view(self.extruder)))
    }
}

pub open spec fn printers_view(v: Seq<PrinterConfig>) -> Seq<(Seq<char>, PrinterV)> {
    Seq::new(v.len(), |i: int| v[i].view_of())
}

pub open spec fn presets_view(v: Seq<PreheatPreset>) -> Seq<(Seq<char>, PresetV)> {
    Seq::new(v.len(), |i: int| v[i].view_of())
}

// ---------------------------------------------------------------------------
// Decimal numbers
/// Is `c` an ASCII digit?
pub open spec fn is_digit(c: char) -> bool {
    '0' <= c && c <= '9'
}

/// The value of a string of decimal digits.
pub open spec fn digits_value(d: Seq<char>) -> nat
    decreases d.len(),
{
    if d.len() == 0 {
        0
    } else {
        digits_value(d.drop_last()) * 10 + ((d.last() as int - '0' as int) as nat)
    }
}

/// The digits part of a number: without a leading `+`.
pub open spec fn unsigned_digits(s: Seq<char>) -> Seq<char> {
    if s.len() > 0 && s[0] == '+' {
        s.drop_first()
    } else {
        s
    }
}

/// Whether every character of `d` is a decimal digit.
pub open spec fn all_digits(d: Seq<char>) -> bool {
    forall|i: int| 0 <= i < d.len() ==> is_digit(#[trigger] d[i])
}

/// What `u16::from_str` gives: an optional `+`, then one or more decimal
/// digits whose value fits in 16 bits.
pub open spec fn parse_u16_seq(s: Seq<char>) -> Option<u16> {
    let d = unsigned_digits(s);
    if d.len() > 0 && all_digits(d) && digits_value(d) <= 65535 {
        Some(digits_value(d) as u16)
    } else {
        None
    }
}

proof fn lemma_digits_value_grows(d: Seq<char>, i: int)
    requires
        0 <= i <= d.len(),
        forall|j: int| 0 <= j < d.len() ==> is_digit(#[trigger] d[j]),
    ensures
        digits_value(d.subrange(0, i)) <= digits_value(d),
    decreases d.len() - i,
{
    if i < d.len() {
        lemma_digits_value_grows(d, i + 1);
        assert(d.subrange(0, i + 1).drop_last() =~= d.subrange(0, i));
        assert(d.subrange(0, i + 1).last() == d[i]);
    } else {
        assert(d.subrange(0, i) =~= d);
    }
}

/// Parses a port number as `u16::from_str` does.
pub fn parse_u16(s: &str) -> (res: Option<u16>)
    ensures
        res == parse_u16_seq(s@),
{
    let n = s.unicode_len();
    let start: usize = if n > 0 && s.get_char(0) == '+' {
        1
    } else {
        0
    };
    let ghost d = if s@.len() > 0 && s@[0] == '+' {
        s@.drop_first()
    } else {
        s@
    };
    assert(d =~= s@.subrange(start as int, n as int));
    if start == n {
        return None;
    }
    let mut value: u32 = 0;
    let mut i: usize = start;
    while i < n
        invariant
            n == s@.len(),
            start <= i <= n,
            d == unsigned_digits(s@),
            d =~= s@.subrange(start as int, n as int),
            value <= 65535,
            forall|j: int| 0 <= j < i - start ==> is_digit(#[trigger] d[j]),
            value == digits_value(d.subrange(0, i - start)),
        decreases n - i,
    {
        let c = s.get_char(i);
        if !('0' <= c && c <= '9') {
            assert(!is_digit(d[i - start]));
            assert(!(forall|j: int| 0 <= j < d.len() ==> is_digit(#[trigger] d[j])));
            assert(parse_u16_seq(s@) is None);
            return None;
        }
        let ghost pre = d.subrange(0, i - start);
        assert(d.subrange(0, i - start + 1).drop_last() =~= pre);
        assert(d.subrange(0, i - start + 1).last() == c);
        let next = value * 10 + (c as u32 - '0' as u32);
        assert(digits_value(d.subrange(0, i - start + 1)) == next);
        if next > 65535 {
            proof {
                if forall|j: int| 0 <= j < d.len() ==> is_digit(#[trigger] d[j]) {
                    lemma_digits_value_grows(d, i - start + 1);
                }
            }
            assert(parse_u16_seq(s@) is None);
            return None;
        }
        value = next;
        i = i + 1;
    }
    assert(d.subrange(0, n - start) =~= d);
    Some(value as u16)
}

// ---------------------------------------------------------------------------
// Keyed lists: each key at most once, a later entry replacing an earlier one
/// The position of the first entry with key `k`.
pub open spec fn find_key<X>(s: Seq<(Seq<char>, X)>, k: Seq<char>) -> Option<int>
    decreases s.len(),
{
    if s.len() == 0 {
        None
    } else {
        match find_key(s.drop_last(), k) {
            Some(i) => Some(i),
            None => if s.last().0 == k {
                Some(s.len() - 1)
            } else {
                None
            },
        }
    }
}

/// `s` after inserting `x` under `k`: an entry with that key is replaced in
/// place, else the entry comes last.
pub open spec fn upsert<X>(s: Seq<(Seq<char>, X)>, k: Seq<char>, x: X) -> Seq<(Seq<char>, X)> {
    match find_key(s, k) {
        Some(i) => s.update(i, (k, x)),
        None => s.push((k, x)),
    }
}

pub proof fn lemma_find_key<X>(s: Seq<(Seq<char>, X)>, k: Seq<char>)
    ensures
        match find_key(s, k) {
            Some(i) => 0 <= i < s.len() && s[i].0 == k && forall|j: int| 0 <= j < i ==> s[j].0 != k,
            None => forall|j: int| 0 <= j < s.len() ==> s[j].0 != k,
        },
    decreases s.len(),
{
    if s.len() > 0 {
        lemma_find_key(s.drop_last(), k);
        assert forall|j: int| 0 <= j < s.len() - 1 implies s.drop_last()[j] == s[j] by {}
    }
}

/// Whether no two entries share a key.
pub open spec fn keys_unique<X>(s: Seq<(Seq<char>, X)>) -> bool {
    forall|i: int, j: int| 0 <= i < j < s.len() ==> s[i].0 != s[j].0
}

/// Inserting under a key keeps the keys unique.
pub proof fn lemma_upsert_unique<X>(s: Seq<(Seq<char>, X)>, k: Seq<char>, x: X)
    requires
        keys_unique(s),
    ensures
        keys_unique(upsert(s, k, x)),
{
    lemma_find_key(s, k);
    let t = upsert(s, k, x);
    assert forall|i: int, j: int| 0 <= i < j < t.len() implies t[i].0 != t[j].0 by {
        match find_key(s, k) {
            Some(m) => {
                assert(t[i].0 == s[i].0);
                assert(t[j].0 == s[j].0);
            },
            None => {
                if j == s.len() {
                    assert(t[i].0 == s[i].0);
                } else {
                    assert(t[i].0 == s[i].0);
                    assert(t[j].0 == s[j].0);
                }
            },
        }
    }
}

// ---------------------------------------------------------------------------
// What the sections hold
/// The printer that a section `[printer NAME]` describes.
pub open spec fn printer_of(name: Seq<char>, p: Props) -> PrinterV {
    (
        match props_get(p, "moonraker_host"@) {
            Some(h) => h,
            None => "127.0.0.1"@,
        },
        match props_get(p, "moonraker_port"@) {
            Some(t) => match parse_u16_seq(t) {
                Some(port) => port,
                None => 7125,
            },
            None => 7125,
        },
        match props_get(p, "moonraker_api_key"@) {
            Some(k) => k,
            None => ""@,
        },
    )
}

/// The printers that the sections describe, keyed by name; a later section
/// of the same name replaces the earlier one.
pub open spec fn printers_of(s: Sections) -> Seq<(Seq<char>, PrinterV)>
    decreases s.len(),
{
    if s.len() == 0 {
        Seq::empty()
    } else {
        let prev = printers_of(s.drop_last());
        match s.last().0 {
            Some(n) => if seq_starts_with(n, "printer "@) {
                let name = n.subrange("printer "@.len() as int, n.len() as int);
                upsert(prev, name, printer_of(name, s.last().1))
            } else {
                prev
            },
            None => prev,
        }
    }
}

/// The preheat presets that the sections describe, keyed by name.
pub open spec fn presets_of(s: Sections) -> Seq<(Seq<char>, PresetV)>
    decreases s.len(),
{
    if s.len() == 0 {
        Seq::empty()
    } else {
        let prev = presets_of(s.drop_last());
        match s.last().0 {
            Some(n) => if !seq_starts_with(n, "printer "@) && seq_starts_with(n, "preheat "@) {
                let name = n.subrange("preheat "@.len() as int, n.len() as int);
                upsert(prev, name, (props_get(s.last().1, "bed"@), props_get(s.last().1, "extruder"@)))
            } else {
                prev
            },
            None => prev,
        }
    }
}

/// The printer that stands in when no section names one.
pub open spec fn default_printer() -> (Seq<char>, PrinterV) {
    ("default"@, ("127.0.0.1"@, 7125u16, ""@))
}

/// The built-in fallback document: language, theme and DPMS in `[main]`.
pub open spec fn fallback_doc() -> Sections {
    secs_set_to(
        secs_set_to(
            secs_set_to(empty_doc(), Some("main"@), "language"@, "en"@),
            Some("main"@),
            "theme"@,
            "z-bolt"@,
        ),
        Some("main"@),
        "use_dpms"@,
        "true"@,
    )
}

/// The document that the cascade yields: the fallback, then the defaults
/// merged over it, then the user's configuration merged over that.
pub open spec fn cascade(defaults: Option<Sections>, user: Option<Sections>) -> Sections {
    let a = match defaults {
        Some(d) => merge_secs(fallback_doc(), d),
        None => fallback_doc(),
    };
    match user {
        Some(u) => merge_secs(a, u),
        None => a,
    }
}

/// An include target that a section name `[include PATH]` (or the bracketed
/// form `[[include PATH]]`) names.
pub open spec fn include_target(n: Seq<char>) -> Option<Seq<char>> {
    if seq_starts_with(n, "include "@) {
        Some(trim_seq(n.subrange("include "@.len() as int, n.len() as int)))
    } else if seq_starts_with(n, "[include "@) {
        let inner = n.subrange("[include "@.len() as int, n.len() as int);
        let stripped = if inner.len() > 0 && inner.last() == ']' {
            inner.drop_last()
        } else {
            inner
        };
        Some(trim_seq(stripped))
    } else {
        None
    }
}

/// `t` without a leading byte-order mark.
pub open spec fn without_bom(t: Seq<char>) -> Seq<char> {
    if t.len() > 0 && t[0] == '\u{feff}' {
        t.drop_first()
    } else {
        t
    }
}

/// The contents of documents that may be missing.
pub open spec fn included_view(v: Seq<Option<Ini>>) -> Seq<Option<Sections>> {
    Seq::new(
        v.len(),
        |i: int|
            match v[i] {
                Some(d) => Some(ini_contents(d)),
                None => None,
            },
    )
}

/// `d` with each present document of `inc`, in order, merged over it.
pub open spec fn merge_includes(d: Sections, inc: Seq<Option<Sections>>) -> Sections
    decreases inc.len(),
{
    if inc.len() == 0 {
        d
    } else {
        let prev = merge_includes(d, inc.drop_last());
        match inc.last() {
            Some(x) => merge_secs(prev, x),
            None => prev,
        }
    }
}

/// A document with its includes: merged into a new document, then the
/// included ones merged over it in order.
pub open spec fn with_includes(doc: Sections, inc: Seq<Option<Sections>>) -> Sections {
    merge_includes(merge_secs(empty_doc(), doc), inc)
}

/// The include targets of the sections, in order.
pub open spec fn includes_of(s: Sections) -> Seq<Seq<char>>
    decreases s.len(),
{
    if s.len() == 0 {
        Seq::empty()
    } else {
        let prev = includes_of(s.drop_last());
        match s.last().0 {
            Some(n) => match include_target(n) {
                Some(t) => prev.push(t),
                None => prev,
            },
            None => prev,
        }
    }
}

/// The value of the first property named `key`, if any (`Properties::get`).
pub fn props_lookup<'a>(props: &'a Vec<(String, String)>, key: &str) -> (res: Option<&'a String>)
    ensures
        match res {
            Some(v) => props_get(props_view(props@), key@) == Some(v@),
            None => props_get(props_view(props@), key@) is None,
        },
{
    let mut i: usize = 0;
    while i < props.len()
        invariant
            i <= props.len(),
            props_get(props_view(props@).subrange(0, i as int), key@) is None,
        decreases props.len() - i,
    {
        let ghost pre = props_view(props@).subrange(0, i as int);
        let ghost nxt = props_view(props@).subrange(0, i + 1);
        assert(nxt.drop_last() =~= pre);
        if str_eq(props[i].0.as_str(), key) {
            proof {
                lemma_props_get_prefix(props_view(props@), i + 1, key@);
            }
            return Some(&props[i].1);
        }
        i = i + 1;
    }
    assert(props_view(props@).subrange(0, i as int) =~= props_view(props@));
    None
}

proof fn lemma_props_get_prefix(p: Props, i: int, k: Seq<char>)
    requires
        0 <= i <= p.len(),
        props_get(p.subrange(0, i), k) is Some,
    ensures
        props_get(p, k) == props_get(p.subrange(0, i), k),
    decreases p.len() - i,
{
    if i < p.len() {
        assert(p.subrange(0, i + 1).drop_last() =~= p.subrange(0, i));
        lemma_props_get_prefix(p, i + 1, k);
    } else {
        assert(p.subrange(0, i) =~= p);
    }
}

fn find_printer(v: &Vec<PrinterConfig>, k: &str) -> (res: Option<usize>)
    ensures
        match res {
            Some(i) => i < v.len() && find_key(printers_view(v@), k@) == Some(i as int),
            None => find_key(printers_view(v@), k@) is None,
        },
{
    proof {
        lemma_find_key(printers_view(v@), k@);
    }
    let mut i: usize = 0;
    while i < v.len()
        invariant
            i <= v.len(),
            forall|j: int| 0 <= j < i ==> printers_view(v@)[j].0 != k@,
        decreases v.len() - i,
    {
        if str_eq(v[i].name.as_str(), k) {
            assert(printers_view(v@)[i as int].0 == k@);
            proof {
                lemma_find_key(printers_view(v@), k@);
            }
            return Some(i);
        }
        i = i + 1;
    }
    None
}

fn find_preset(v: &Vec<PreheatPreset>, k: &str) -> (res: Option<usize>)
    ensures
        match res {
            Some(i) => i < v.len() && find_key(presets_view(v@), k@) == Some(i as int),
            None => find_key(presets_view(v@), k@) is None,
        },
{
    proof {
        lemma_find_key(presets_view(v@), k@);
    }
    let mut i: usize = 0;
    while i < v.len()
        invariant
            i <= v.len(),
            forall|j: int| 0 <= j < i ==> presets_view(v@)[j].0 != k@,
        decreases v.len() - i,
    {
        if str_eq(v[i].name.as_str(), k) {
            assert(presets_view(v@)[i as int].0 == k@);
            proof {
                lemma_find_key(presets_view(v@), k@);
            }
            return Some(i);
        }
        i = i + 1;
    }
    None
}

fn clone_opt(s: Option<&String>) -> (res: Option<String>)
    ensures
        opt_view(res) == match s {
            Some(x) => Some(x@),
            None => None::<Seq<char>>,
        },
{
    match s {
        Some(x) => Some(x.clone()),
        None => None,
    }
}

impl KConfig {
    /// Sets every property of every section of `src`, in order, into `dest`.
    pub fn merge_ini(dest: &mut Ini, src: &Ini)
        ensures
            ini_contents(*final(dest)) == merge_secs(ini_contents(*old(dest)), ini_contents(*src)),
    {
        let entries = ini_entries(src);
        let ghost d0 = ini_contents(*dest);
        let ghost all = sections_view(entries@);
        let mut i: usize = 0;
        while i < entries.len()
            invariant
                i <= entries.len(),
                all == sections_view(entries@),
                all == ini_contents(*src),
                ini_contents(*dest) == merge_secs(d0, all.subrange(0, i as int)),
            decreases entries.len() - i,
        {
            let sec = &entries[i];
            let name: Option<&str> = match &sec.name {
                Some(n) => Some(n.as_str()),
                None => None,
            };
            let ghost base = ini_contents(*dest);
            let ghost sv = all[i as int];
            assert(sv == sec.view_of());
            assert(opt_str_view(name) == sv.0);
            let mut j: usize = 0;
            while j < sec.properties.len()
                invariant
                    j <= sec.properties.len(),
                    sv == sec.view_of(),
                    opt_str_view(name) == sv.0,
                    ini_contents(*dest) == merge_props(base, sv.0, sv.1.subrange(0, j as int)),
                decreases sec.properties.len() - j,
            {
                let ghost p = sv.1.subrange(0, j + 1);
                assert(p.drop_last() =~= sv.1.subrange(0, j as int));
                assert(p.last() == (sec.properties@[j as int].0@, sec.properties@[j as int].1@));
                ini_set_to(dest, name, sec.properties[j].0.as_str(), sec.properties[j].1.as_str());
                j = j + 1;
            }
            assert(sv.1.subrange(0, j as int) =~= sv.1);
            assert(all.subrange(0, i + 1).drop_last() =~= all.subrange(0, i as int));
            i = i + 1;
        }
        assert(all.subrange(0, i as int) =~= all);
    }

    /// Builds the configuration from the cascade: the built-in fallback,
    /// then the defaults document, then the user's document, each merged over
    /// the one before; language and theme come from `[main]`, printers from
    /// `[printer NAME]` sections and presets from `[preheat NAME]` sections.
    /// Where no printer is configured, a `default` printer stands in.
    pub fn load_cascading(defaults: Option<&Ini>, user: Option<&Ini>) -> (res: KConfig)
        ensures
            ini_contents(res.raw_ini) == cascade(
                match defaults {
                    Some(d) => Some(ini_contents(*d)),
                    None => None,
                },
                match user {
                    Some(u) => Some(ini_contents(*u)),
                    None => None,
                },
            ),
            res.language@ == match secs_get(ini_contents(res.raw_ini), Some("main"@), "language"@) {
                Some(v) => v,
                None => "en"@,
            },
            res.theme@ == match secs_get(ini_contents(res.raw_ini), Some("main"@), "theme"@) {
                Some(v) => v,
                None => "z-bolt"@,
            },
            printers_view(res.printers@) == if printers_of(ini_contents(res.raw_ini)).len() == 0 {
                seq![default_printer()]
            } else {
                printers_of(ini_contents(res.raw_ini))
            },
            presets_view(res.preheat_presets@) == presets_of(ini_contents(res.raw_ini)),
    {
        let mut combined = ini_new();
        ini_set_to(&mut combined, Some("main"), "language", "en");
        ini_set_to(&mut combined, Some("main"), "theme", "z-bolt");
        ini_set_to(&mut combined, Some("main"), "use_dpms", "true");
        assert(ini_contents(combined) == fallback_doc());
        match defaults {
            Some(d) => Self::merge_ini(&mut combined, d),
            None => {},
        }
        match user {
            Some(u) => Self::merge_ini(&mut combined, u),
            None => {},
        }
        let language = match ini_get_from(&combined, Some("main"), "language") {
            Some(v) => v,
            None => owned("en"),
        };
        let theme = match ini_get_from(&combined, Some("main"), "theme") {
            Some(v) => v,
            None => owned("z-bolt"),
        };
        let (printers, presets) = Self::extract_sections(&combined);
        let mut printers = printers;
        if printers.len() == 0 {
            printers.push(
                PrinterConfig {
                    name: owned("default"),
                    moonraker_host: owned("127.0.0.1"),
                    moonraker_port: 7125,
                    moonraker_api_key: owned(""),
                },
            );
            assert(printers_view(printers@) =~= seq![default_printer()]);
        }
        KConfig { language, theme, printers, preheat_presets: presets, raw_ini: combined }
    }

    /// The printers and presets that the sections of `ini` describe.
    pub fn extract_sections(ini: &Ini) -> (res: (Vec<PrinterConfig>, Vec<PreheatPreset>))
        ensures
            printers_view(res.0@) == printers_of(ini_contents(*ini)),
            presets_view(res.1@) == presets_of(ini_contents(*ini)),
    {
        let entries = ini_entries(ini);
        let ghost all = sections_view(entries@);
        let mut printers: Vec<PrinterConfig> = Vec::new();
        let mut presets: Vec<PreheatPreset> = Vec::new();
        proof {
            reveal_strlit("printer ");
            reveal_strlit("preheat ");
        }
        assert(printers_view(printers@) =~= Seq::<(Seq<char>, PrinterV)>::empty());
        assert(presets_view(presets@) =~= Seq::<(Seq<char>, PresetV)>::empty());
        let mut i: usize = 0;
        while i < entries.len()
            invariant
                i <= entries.len(),
                all == sections_view(entries@),
                all == ini_contents(*ini),
                "printer "@.len() == 8,
                "preheat "@.len() == 8,
                printers_view(printers@) == printers_of(all.subrange(0, i as int)),
                presets_view(presets@) == presets_of(all.subrange(0, i as int)),
            decreases entries.len() - i,
        {
            let ghost cur = all.subrange(0, i + 1);
            assert(cur.drop_last() =~= all.subrange(0, i as int));
            assert(cur.last() == entries@[i as int].view_of());
            let sec = &entries[i];
            match &sec.name {
                Some(n) => {
                    let len = n.as_str().unicode_len();
                    if starts_with(n.as_str(), "printer ") {
                        let name = owned(n.as_str().substring_char(8, len));
                        let host = match props_lookup(&sec.properties, "moonraker_host") {
                            Some(h) => h.clone(),
                            None => owned("127.0.0.1"),
                        };
                        let port: u16 = match props_lookup(&sec.properties, "moonraker_port") {
                            Some(t) => match parse_u16(t.as_str()) {
                                Some(p) => p,
                                None => 7125,
                            },
                            None => 7125,
                        };
                        let key = match props_lookup(&sec.properties, "moonraker_api_key") {
                            Some(k) => k.clone(),
                            None => owned(""),
                        };
                        let cfg = PrinterConfig {
                            name: name.clone(),
                            moonraker_host: host,
                            moonraker_port: port,
                            moonraker_api_key: key,
                        };
                        assert(cfg.view_of() == (name@, printer_of(name@, cur.last().1)));
                        match find_printer(&printers, name.as_str()) {
                            Some(j) => {
                                printers.set(j, cfg);
                                assert(printers_view(printers@) =~= printers_of(cur));
                            },
                            None => {
                                printers.push(cfg);
                                assert(printers_view(printers@) =~= printers_of(cur));
                            },
                        }
                        assert(presets_view(presets@) =~= presets_of(cur));
                    } else if starts_with(n.as_str(), "preheat ") {
                        let name = owned(n.as_str().substring_char(8, len));
                        let preset = PreheatPreset {
                            name: name.clone(),
                            bed: clone_opt(props_lookup(&sec.properties, "bed")),
                            extruder: clone_opt(props_lookup(&sec.properties, "extruder")),
                        };
                        match find_preset(&presets, name.as_str()) {
                            Some(j) => {
                                presets.set(j, preset);
                                assert(presets_view(presets@) =~= presets_of(cur));
                            },
                            None => {
                                presets.push(preset);
                                assert(presets_view(presets@) =~= presets_of(cur));
                            },
                        }
                        assert(printers_view(printers@) =~= printers_of(cur));
                    } else {
                        assert(printers_view(printers@) =~= printers_of(cur));
                        assert(presets_view(presets@) =~= presets_of(cur));
                    }
                },
                None => {
                    assert(printers_view(printers@) =~= printers_of(cur));
                    assert(presets_view(presets@) =~= presets_of(cur));
                },
            }
            i = i + 1;
        }
        assert(all.subrange(0, i as int) =~= all);
        (printers, presets)
    }

    /// The document that a configuration file's text holds: the text, without
    /// a leading byte-order mark, parsed as INI; `None` where it does not parse.
    pub fn parse_document(text: &str) -> (res: Option<Ini>)
        ensures
            match res {
                Some(d) => ini_parsed(without_bom(text@)) == Some(ini_contents(d)),
                None => ini_parsed(without_bom(text@)) is None,
            },
    {
        let n = text.unicode_len();
        if n > 0 && text.get_char(0) == '\u{feff}' {
            let rest = text.substring_char(1, n);
            assert(rest@ =~= text@.drop_first());
            ini_load_from_str(rest)
        } else {
            ini_load_from_str(text)
        }
    }

    /// A file's document with its includes: `doc` merged into a new
    /// document, then each included document, in order, merged over that.
    /// `included[i]` is the assembled document of the `i`-th include target
    /// of `doc` (see [`KConfig::include_targets`]), or `None` where that file
    /// is missing or does not load; those are skipped.
    pub fn assemble_with_includes(doc: &Ini, included: &Vec<Option<Ini>>) -> (res: Ini)
        ensures
            ini_contents(res) == with_includes(ini_contents(*doc), included_view(included@)),
    {
        let mut res = ini_new();
        Self::merge_ini(&mut res, doc);
        let ghost base = ini_contents(res);
        let ghost all = included_view(included@);
        let mut i: usize = 0;
        while i < included.len()
            invariant
                i <= included.len(),
                all == included_view(included@),
                base == merge_secs(empty_doc(), ini_contents(*doc)),
                ini_contents(res) == merge_includes(base, all.subrange(0, i as int)),
            decreases included.len() - i,
        {
            let ghost cur = all.subrange(0, i + 1);
            assert(cur.drop_last() =~= all.subrange(0, i as int));
            match &included[i] {
                Some(inc) => Self::merge_ini(&mut res, inc),
                None => {},
            }
            i = i + 1;
        }
        assert(all.subrange(0, i as int) =~= all);
        res
    }

    /// The include targets that the sections of `ini` name, in order: for a
    /// section `[include PATH]` or `[[include PATH]]`, the trimmed `PATH`.
    pub fn include_targets(ini: &Ini) -> (res: Vec<String>)
        ensures
            views(res@) == includes_of(ini_contents(*ini)),
    {
        let entries = ini_entries(ini);
        let ghost all = sections_view(entries@);
        let mut res: Vec<String> = Vec::new();
        proof {
            reveal_strlit("include ");
            reveal_strlit("[include ");
            reveal_strlit("]");
        }
        assert(views(res@) =~= Seq::<Seq<char>>::empty());
        let mut i: usize = 0;
        while i < entries.len()
            invariant
                i <= entries.len(),
                all == sections_view(entries@),
                all == ini_contents(*ini),
                "include "@.len() == 8,
                "[include "@.len() == 9,
                "]"@ == seq![']'],
                views(res@) == includes_of(all.subrange(0, i as int)),
            decreases entries.len() - i,
        {
            let ghost cur = all.subrange(0, i + 1);
            assert(cur.drop_last() =~= all.subrange(0, i as int));
            assert(cur.last() == entries@[i as int].view_of());
            let ghost before = views(res@);
            match &entries[i].name {
                Some(n) => {
                    let s = n.as_str();
                    let len = s.unicode_len();
                    if starts_with(s, "include ") {
                        let t = owned(trim(s.substring_char(8, len)));
                        res.push(t);
                        assert(views(res@) =~= before.push(t@));
                    } else if starts_with(s, "[include ") {
                        let inner = s.substring_char(9, len);
                        let stripped = if ends_with(inner, "]") {
                            inner.substring_char(0, inner.unicode_len() - 1)
                        } else {
                            inner
                        };
                        proof {
                            if inner@.len() > 0 && inner@.last() == ']' {
                                assert(inner@.subrange(inner@.len() - 1, inner@.len() as int)
                                    =~= seq![']']);
                            }
                        }
                        proof {
                            let il = inner@;
                            if seq_ends_with(il, "]"@) {
                                assert(il.subrange(il.len() - 1, il.len() as int)[0] == ']');
                                assert(il.last() == ']');
                                assert(il.subrange(0, il.len() - 1) =~= il.drop_last());
                            }
                            if il.len() > 0 && il.last() == ']' {
                                assert(il.subrange(il.len() - 1, il.len() as int) =~= seq![']']);
                            }
                        }
                        assert(stripped@ =~= (if inner@.len() > 0 && inner@.last() == ']' {
                            inner@.drop_last()
                        } else {
                            inner@
                        }));
                        let t = owned(trim(stripped));
                        res.push(t);
                        assert(views(res@) =~= before.push(t@));
                    }
                },
                None => {},
            }
            assert(views(res@) =~= includes_of(cur));
            i = i + 1;
        }
        assert(all.subrange(0, i as int) =~= all);
        res
    }

    /// The places where a user's configuration is looked for, in order of
    /// preference, under the home directory `home` (`/home/pi` where none is
    /// known): first the documented default `~/KlipperScreen.conf`, then
    /// Moonraker's and XDG's configuration directories, then the working
    /// directory.
    pub fn user_config_candidates(home: Option<&str>) -> (res: Vec<String>)
        ensures
            views(res@) == ({
                let h = match home {
                    Some(h) => h@,
                    None => "/home/pi"@,
                };
                seq![
                    h + "/KlipperScreen.conf"@,
                    h + "/printer_data/config/KlipperScreen.conf"@,
                    h + "/.config/KlipperScreen/KlipperScreen.conf"@,
                    "./KlipperScreen.conf"@,
                ]
            }),
    {
        let h: &str = match home {
            Some(h) => h,
            None => "/home/pi",
        };
        let mut res: Vec<String> = Vec::new();
        res.push(concat(h, "/KlipperScreen.conf"));
        res.push(concat(h, "/printer_data/config/KlipperScreen.conf"));
        res.push(concat(h, "/.config/KlipperScreen/KlipperScreen.conf"));
        res.push(owned("./KlipperScreen.conf"));
        assert(views(res@) =~= seq![
            h@ + "/KlipperScreen.conf"@,
            h@ + "/printer_data/config/KlipperScreen.conf"@,
            h@ + "/.config/KlipperScreen/KlipperScreen.conf"@,
            "./KlipperScreen.conf"@,
        ]);
        res
    }
}

/// The cascade: for every section and key, the value that the user's
/// document gives last, else the one that the defaults give last, else the
/// built-in fallback's.
pub proof fn law_cascade_precedence(
    defaults: Option<Sections>,
    user: Option<Sections>,
    n: Option<Seq<char>>,
    k: Seq<char>,
)
    ensures
        secs_get(cascade(defaults, user), n, k) == (match (match user {
            Some(u) => last_in_secs(u, n, k),
            None => None,
        }) {
            Some(v) => Some(v),
            None => match (match defaults {
                Some(d) => last_in_secs(d, n, k),
                None => None,
            }) {
                Some(v) => Some(v),
                None => secs_get(fallback_doc(), n, k),
            },
        }),
{
    let a = match defaults {
        Some(d) => merge_secs(fallback_doc(), d),
        None => fallback_doc(),
    };
    match defaults {
        Some(d) => lemma_merge_get(fallback_doc(), d, n, k),
        None => {},
    }
    match user {
        Some(u) => lemma_merge_get(a, u, n, k),
        None => {},
    }
}

/// No two printers, and no two presets, share a name (each is kept under
/// its name, a later section replacing an earlier one).
pub proof fn law_names_unique(s: Sections)
    ensures
        keys_unique(printers_of(s)),
        keys_unique(presets_of(s)),
    decreases s.len(),
{
    if s.len() > 0 {
        law_names_unique(s.drop_last());
        let prev_p = printers_of(s.drop_last());
        let prev_q = presets_of(s.drop_last());
        match s.last().0 {
            Some(n) => {
                if seq_starts_with(n, "printer "@) {
                    let name = n.subrange("printer "@.len() as int, n.len() as int);
                    lemma_upsert_unique(prev_p, name, printer_of(name, s.last().1));
                } else if seq_starts_with(n, "preheat "@) {
                    let name = n.subrange("preheat "@.len() as int, n.len() as int);
                    lemma_upsert_unique(
                        prev_q,
                        name,
                        (props_get(s.last().1, "bed"@), props_get(s.last().1, "extruder"@)),
                    );
                }
            },
            None => {},
        }
    }
}

/// What a `[printer NAME]` section describes: the host `moonraker_host`
/// (default `127.0.0.1`), the port `moonraker_port` where it reads as a
/// `u16` (default 7125, also where it does not read), and the API key
/// `moonraker_api_key` (default empty).
pub proof fn law_printer_of(name: Seq<char>, p: Props)
    ensures
        printer_of(name, p).0 == match props_get(p, "moonraker_host"@) {
            Some(h) => h,
            None => "127.0.0.1"@,
        },
        props_get(p, "moonraker_port"@) is None ==> printer_of(name, p).1 == 7125,
        forall|t: Seq<char>|
            props_get(p, "moonraker_port"@) == Some(t) ==> printer_of(name, p).1 == match
                #[trigger] parse_u16_seq(t) {
                Some(n) => n,
                None => 7125u16,
            },
        printer_of(name, p).2 == match props_get(p, "moonraker_api_key"@) {
            Some(k) => k,
            None => ""@,
        },
{
}

proof fn lemma_upsert_find<X>(s: Seq<(Seq<char>, X)>, k: Seq<char>, x: X, k2: Seq<char>)
    ensures
        k2 == k ==> (find_key(upsert(s, k, x), k2) matches Some(i) && upsert(s, k, x)[i].1 == x),
        k2 != k ==> match find_key(s, k2) {
            Some(i) => find_key(upsert(s, k, x), k2) == Some(i) && upsert(s, k, x)[i].1 == s[i].1,
            None => find_key(upsert(s, k, x), k2) is None,
        },
{
    let t = upsert(s, k, x);
    lemma_find_key(s, k);
    lemma_find_key(s, k2);
    lemma_find_key(t, k2);
    match find_key(s, k) {
        Some(i) => {
            assert(t == s.update(i, (k, x)));
            assert(forall|j: int| 0 <= j < s.len() ==> #[trigger] t[j].0 == s[j].0);
            match find_key(s, k2) {
                Some(m) => {
                    assert(t[m].0 == k2);
                    match find_key(t, k2) {
                        Some(m2) => {
                            if m2 < m {
                                assert(s[m2].0 == t[m2].0);
                            } else if m < m2 {
                                assert(t[m].0 == k2);
                            }
                        },
                        None => {},
                    }
                },
                None => {
                    match find_key(t, k2) {
                        Some(m2) => {
                            assert(s[m2].0 == t[m2].0);
                        },
                        None => {},
                    }
                },
            }
        },
        None => {
            assert(t == s.push((k, x)));
            match find_key(s, k2) {
                Some(m) => {
                    assert(t[m] == s[m]);
                    match find_key(t, k2) {
                        Some(m2) => {
                            if m2 < m {
                                assert(s[m2] == t[m2]);
                            } else if m < m2 {
                                assert(t[m].0 == k2);
                            }
                        },
                        None => {},
                    }
                },
                None => {
                    match find_key(t, k2) {
                        Some(m2) => {
                            if m2 < s.len() {
                                assert(s[m2] == t[m2]);
                            }
                        },
                        None => {
                            if k2 == k {
                                assert(t[s.len() as int].0 == k2);
                            }
                        },
                    }
                },
            }
        },
    }
}

/// The printer of a name is the one that the last `[printer NAME]` section
/// describes: no other section changes it.
pub proof fn law_printer_from_last_section(s: Sections, j: int, name: Seq<char>)
    requires
        0 <= j < s.len(),
        s[j].0 == Some("printer "@ + name),
        forall|k: int| j < k < s.len() ==> #[trigger] s[k].0 != Some("printer "@ + name),
    ensures
        find_key(printers_of(s), name) matches Some(i) && printers_of(s)[i].1 == printer_of(
            name,
            s[j].1,
        ),
    decreases s.len(),
{
    let pre = s.drop_last();
    let prev = printers_of(pre);
    reveal_strlit("printer ");
    assert("printer "@.len() == 8);
    if j == s.len() - 1 {
        let n = "printer "@ + name;
        assert(s.last().0 == Some(n));
        assert(seq_starts_with(n, "printer "@)) by {
            assert(n.subrange(0, 8) =~= "printer "@);
        }
        assert(n.subrange(8, n.len() as int) =~= name);
        lemma_upsert_find(prev, name, printer_of(name, s[j].1), name);
    } else {
        assert forall|k: int| j < k < pre.len() implies #[trigger] pre[k].0 != Some("printer "@ + name) by {
            assert(pre[k] == s[k]);
        }
        assert(pre[j] == s[j]);
        law_printer_from_last_section(pre, j, name);
        assert(s[s.len() - 1] == s.last());
        match s.last().0 {
            Some(n) => {
                if seq_starts_with(n, "printer "@) {
                    let other = n.subrange(8, n.len() as int);
                    assert(n =~= "printer "@ + other) by {
                        assert(n.subrange(0, 8) =~= "printer "@);
                    }
                    assert(other != name);
                    lemma_upsert_find(prev, other, printer_of(other, s.last().1), name);
                }
            },
            None => {},
        }
    }
}

/// The preset of a name holds the `bed` and `extruder` texts of the last
/// `[preheat NAME]` section.
pub proof fn law_preset_from_last_section(s: Sections, j: int, name: Seq<char>)
    requires
        0 <= j < s.len(),
        s[j].0 == Some("preheat "@ + name),
        forall|k: int| j < k < s.len() ==> #[trigger] s[k].0 != Some("preheat "@ + name),
    ensures
        find_key(presets_of(s), name) matches Some(i) && presets_of(s)[i].1 == (
            props_get(s[j].1, "bed"@),
            props_get(s[j].1, "extruder"@),
        ),
    decreases s.len(),
{
    let pre = s.drop_last();
    let prev = presets_of(pre);
    reveal_strlit("preheat ");
    reveal_strlit("printer ");
    assert("preheat "@.len() == 8);
    if j == s.len() - 1 {
        let n = "preheat "@ + name;
        assert(s.last().0 == Some(n));
        assert(seq_starts_with(n, "preheat "@)) by {
            assert(n.subrange(0, 8) =~= "preheat "@);
        }
        assert(!seq_starts_with(n, "printer "@)) by {
            assert(n[2] == 'e');
            assert("printer "@[2] == 'i');
            if seq_starts_with(n, "printer "@) {
                assert(n.subrange(0, 8)[2] == n[2]);
            }
        }
        assert(n.subrange(8, n.len() as int) =~= name);
        lemma_upsert_find(
            prev,
            name,
            (props_get(s[j].1, "bed"@), props_get(s[j].1, "extruder"@)),
            name,
        );
    } else {
        assert forall|k: int| j < k < pre.len() implies #[trigger] pre[k].0 != Some("preheat "@ + name) by {
            assert(pre[k] == s[k]);
        }
        assert(pre[j] == s[j]);
        law_preset_from_last_section(pre, j, name);
        assert(s[s.len() - 1] == s.last());
        match s.last().0 {
            Some(n) => {
                if !seq_starts_with(n, "printer "@) && seq_starts_with(n, "preheat "@) {
                    let other = n.subrange(8, n.len() as int);
                    assert(n =~= "preheat "@ + other) by {
                        assert(n.subrange(0, 8) =~= "preheat "@);
                    }
                    assert(other != name);
                    lemma_upsert_find(
                        prev,
                        other,
                        (props_get(s.last().1, "bed"@), props_get(s.last().1, "extruder"@)),
                        name,
                    );
                }
            },
            None => {},
        }
    }
}

/// Without a `[printer NAME]` section there is no configured printer, and
/// the one that stands in is `default`, at `127.0.0.1:7125` with no API key.
pub proof fn law_default_printer(s: Sections)
    requires
        forall|k: int| 0 <= k < s.len() ==> !(#[trigger] s[k].0 matches Some(n) && seq_starts_with(
            n,
            "printer "@,
        )),
    ensures
        printers_of(s).len() == 0,
        default_printer() == ("default"@, ("127.0.0.1"@, 7125u16, ""@)),
    decreases s.len(),
{
    if s.len() > 0 {
        let pre = s.drop_last();
        assert forall|k: int| 0 <= k < pre.len() implies !(#[trigger] pre[k].0 matches Some(n)
            && seq_starts_with(n, "printer "@)) by {
            assert(pre[k] == s[k]);
        }
        law_default_printer(pre);
        assert(s[s.len() - 1] == s.last());
    }
}

/// The built-in fallback sets language `en`, theme `z-bolt` and DPMS on in
/// `[main]`.
pub proof fn law_fallback_values()
    ensures
        secs_get(fallback_doc(), Some("main"@), "language"@) == Some("en"@),
        secs_get(fallback_doc(), Some("main"@), "theme"@) == Some("z-bolt"@),
        secs_get(fallback_doc(), Some("main"@), "use_dpms"@) == Some("true"@),
{
    reveal_strlit("language");
    reveal_strlit("theme");
    reveal_strlit("use_dpms");
    assert("language"@.len() == 8 && "theme"@.len() == 5 && "use_dpms"@.len() == 8);
    assert("language"@[0] == 'l' && "use_dpms"@[0] == 'u');
    assert("language"@ != "use_dpms"@);
    assert("language"@ != "theme"@);
    assert("theme"@ != "use_dpms"@);
    let m = Some("main"@);
    let d0 = secs_set_to(empty_doc(), m, "language"@, "en"@);
    let d1 = secs_set_to(d0, m, "theme"@, "z-bolt"@);
    lemma_set_to_get(d1, m, "use_dpms"@, "true"@, m, "language"@);
    lemma_set_to_get(d0, m, "theme"@, "z-bolt"@, m, "language"@);
    lemma_set_to_get(empty_doc(), m, "language"@, "en"@, m, "language"@);
    lemma_set_to_get(d1, m, "use_dpms"@, "true"@, m, "theme"@);
    lemma_set_to_get(d0, m, "theme"@, "z-bolt"@, m, "theme"@);
    lemma_set_to_get(d1, m, "use_dpms"@, "true"@, m, "use_dpms"@);
}

} // verus!
