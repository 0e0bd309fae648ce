//! The contents of an INI document (`ini::Ini`), modelled as the sequence of
//! its sections in iteration order, each with its properties in iteration
//! order, and the trusted items through which the library reads and writes one.
use vstd::prelude::*;

use ini::Ini;

verus! {

/// The properties of one section: key and value, in iteration order.
pub type Props = Seq<(Seq<char>, Seq<char>)>;

/// The sections of a document: name (`None` for the general section) and
/// properties, in iteration order.
pub type Sections = Seq<(Option<Seq<char>>, Props)>;

/// The document type of the `rust-ini` crate, `ini::Ini`, opaque here: what
/// it holds is named by [`ini_contents`].
#[verifier::external_type_specification]
#[verifier::external_body]
pub struct ExIni(Ini);

/// What an `ini::Ini` holds: its sections with their properties, in the
/// order in which `Ini::iter` hands them out.
pub uninterp spec fn ini_contents(ini: Ini) -> Sections;

/// One section of a document, as plain values.
pub struct IniSection {
    pub name: Option<String>,
    pub properties: Vec<(String, String)>,
}

/// The view of an optional string.
pub open spec fn opt_view(s: Option<String>) -> Option<Seq<char>> {
    match s {
        Some(x) => Some(x@),
        None => None,
    }
}

/// The view of an optional string slice.
pub open spec fn opt_str_view(s: Option<&str>) -> Option<Seq<char>> {
    match s {
        Some(x) => Some(x@),
        None => None,
    }
}

/// The view of a list of properties.
pub open spec fn props_view(v: Seq<(String, String)>) -> Props {
    Seq::new(v.len(), |i: int| (v[i].0@, v[i].1@))
}

impl IniSection {
    pub open spec fn view_of(self) -> (Option<Seq<char>>, Props) {
        (opt_view(self.name), props_view(self.properties@))
    }
}

/// The view of a list of sections.
pub open spec fn sections_view(v: Seq<IniSection>) -> Sections {
    Seq::new(v.len(), |i: int| v[i].view_of())
}

/// `p` without any property named `k`.
pub open spec fn props_without(p: Props, k: Seq<char>) -> Props
    decreases p.len(),
{
    if p.len() == 0 {
        p
    } else if p.last().0 == k {
        props_without(p.drop_last(), k)
    } else {
        props_without(p.drop_last(), k).push(p.last())
    }
}

/// `p` after setting `k` to `v` (`Properties::insert`): every earlier value
/// of `k` leaves, and the pair comes last in iteration order.
pub open spec fn props_set(p: Props, k: Seq<char>, v: Seq<char>) -> Props {
    props_without(p, k).push((k, v))
}

/// The first value of `k` in `p` (`Properties::get`).
pub open spec fn props_get(p: Props, k: Seq<char>) -> Option<Seq<char>>
    decreases p.len(),
{
    if p.len() == 0 {
        None
    } else {
        match props_get(p.drop_last(), k) {
            Some(v) => Some(v),
            None => if p.last().0 == k {
                Some(p.last().1)
            } else {
                None
            },
        }
    }
}

/// The position of the first section named `name`.
pub open spec fn first_section(s: Sections, name: Option<Seq<char>>) -> Option<int>
    decreases s.len(),
{
    if s.len() == 0 {
        None
    } else {
        match first_section(s.drop_last(), name) {
            Some(i) => Some(i),
            None => if s.last().0 == name {
                Some(s.len() - 1)
            } else {
                None
            },
        }
    }
}

/// `s` after `Ini::set_to(name, k, v)`: the first section of that name gets
/// the property set, or a new section that holds only it comes last.
pub open spec fn secs_set_to(s: Sections, name: Option<Seq<char>>, k: Seq<char>, v: Seq<char>) -> Sections {
    match first_section(s, name) {
        Some(i) => s.update(i, (name, props_set(s[i].1, k, v))),
        None => s.push((name, seq![(k, v)])),
    }
}

/// The value of `k` in the first section named `name` (`Ini::get_from`).
pub open spec fn secs_get(s: Sections, name: Option<Seq<char>>, k: Seq<char>) -> Option<Seq<char>> {
    match first_section(s, name) {
        Some(i) => props_get(s[i].1, k),
        None => None,
    }
}

/// `d` after setting each property of `p`, in order, into the section `name`.
pub open spec fn merge_props(d: Sections, name: Option<Seq<char>>, p: Props) -> Sections
    decreases p.len(),
{
    if p.len() == 0 {
        d
    } else {
        secs_set_to(merge_props(d, name, p.drop_last()), name, p.last().0, p.last().1)
    }
}

/// `d` after setting every property of every section of `src`, in order.
pub open spec fn merge_secs(d: Sections, src: Sections) -> Sections
    decreases src.len(),
{
    if src.len() == 0 {
        d
    } else {
        merge_props(merge_secs(d, src.drop_last()), src.last().0, src.last().1)
    }
}

/// The last value of `k` in `p`.
pub open spec fn last_in_props(p: Props, k: Seq<char>) -> Option<Seq<char>>
    decreases p.len(),
{
    if p.len() == 0 {
        None
    } else if p.last().0 == k {
        Some(p.last().1)
    } else {
        last_in_props(p.drop_last(), k)
    }
}

/// The last value of `k` among all sections of `src` named `name`.
pub open spec fn last_in_secs(src: Sections, name: Option<Seq<char>>, k: Seq<char>) -> Option<Seq<char>>
    decreases src.len(),
{
    if src.len() == 0 {
        None
    } else if src.last().0 == name && last_in_props(src.last().1, k) is Some {
        last_in_props(src.last().1, k)
    } else {
        last_in_secs(src.drop_last(), name, k)
    }
}

/// The document that `Ini::new` creates: an empty general section.
pub open spec fn empty_doc() -> Sections {
    seq![(None::<Seq<char>>, Seq::<(Seq<char>, Seq<char>)>::empty())]
}

/// Creates a document (`Ini::new`).  Claimed: it holds one section, the
/// general one, with no properties (`Ini`'s `Default` inserts it).
#[verifier::external_body]
pub(crate) fn ini_new() -> (res: Ini)
    ensures
        ini_contents(res) == empty_doc(),
{
    Ini::new()
}

/// Sets `key` to `value` in section `section` (`Ini::set_to`).  Claimed:
/// the first section of that name gets the property, every earlier value of
/// `key` leaving it and the new pair coming last (`Properties::insert`);
/// where no section has that name, a new section holding only the pair comes
/// last.
#[verifier::external_body]
pub(crate) fn ini_set_to(ini: &mut Ini, section: Option<&str>, key: &str, value: &str)
    ensures
        ini_contents(*final(ini)) == secs_set_to(
            ini_contents(*old(ini)),
            opt_str_view(section),
            key@,
            value@,
        ),
{
    ini.set_to(section, key.to_string(), value.to_string())
}

/// The value of `key` in the first section named `section` (`Ini::get_from`).
/// Claimed: the first value of `key` in that section; `None` where there is
/// no such section or key.
#[verifier::external_body]
pub(crate) fn ini_get_from(ini: &Ini, section: Option<&str>, key: &str) -> (res: Option<String>)
    ensures
        opt_view(res) == secs_get(ini_contents(*ini), opt_str_view(section), key@),
{
    ini.get_from(section, key).map(|v| v.to_string())
}

/// The document that `ini::Ini::load_from_str` parses from a text;
/// `None` where it refuses the text.
pub uninterp spec fn ini_parsed(text: Seq<char>) -> Option<Sections>;

/// Parses INI text (`Ini::load_from_str`, the default options).  The result
/// is named, not described: it is what the parser gives for the text.
#[verifier::external_body]
pub(crate) fn ini_load_from_str(text: &str) -> (res: Option<Ini>)
    ensures
        match res {
            Some(d) => ini_parsed(text@) == Some(ini_contents(d)),
            None => ini_parsed(text@) is None,
        },
{
    Ini::load_from_str(text).ok()
}

/// Every section with its properties, in iteration order (`Ini::iter`, and
/// `Properties::iter` for each), converted to plain strings.
#[verifier::external_body]
pub(crate) fn ini_entries(ini: &Ini) -> (res: Vec<IniSection>)
    ensures
        sections_view(res@) == ini_contents(*ini),
{
    ini.iter().map(|(name, props)| IniSection {
        name: name.map(|n| n.to_string()),
        properties: props.iter().map(|(k, v)| (k.to_string(), v.to_string())).collect(),
    }).collect()
}

// ---------------------------------------------------------------------------
// Lemmas
proof fn lemma_props_get_push(q: Props, x: (Seq<char>, Seq<char>), k: Seq<char>)
    ensures
        props_get(q.push(x), k) == (match props_get(q, k) {
            Some(v) => Some(v),
            None => if x.0 == k {
                Some(x.1)
            } else {
                None
            },
        }),
{
    assert(q.push(x).drop_last() =~= q);
}

proof fn lemma_props_get_without(p: Props, k: Seq<char>, k2: Seq<char>)
    ensures
        props_get(props_without(p, k), k2) == (if k2 == k {
            None
        } else {
            props_get(p, k2)
        }),
    decreases p.len(),
{
    if p.len() > 0 {
        lemma_props_get_without(p.drop_last(), k, k2);
        if p.last().0 != k {
            lemma_props_get_push(props_without(p.drop_last(), k), p.last(), k2);
        }
    }
}

/// Setting a property: reading the key back gives the value written, and
/// every other key reads as before.
pub proof fn lemma_props_set_get(p: Props, k: Seq<char>, v: Seq<char>, k2: Seq<char>)
    ensures
        props_get(props_set(p, k, v), k2) == (if k2 == k {
            Some(v)
        } else {
            props_get(p, k2)
        }),
{
    lemma_props_get_without(p, k, k2);
    lemma_props_get_push(props_without(p, k), (k, v), k2);
}

proof fn lemma_first_section_push(s: Sections, x: (Option<Seq<char>>, Props), n: Option<Seq<char>>)
    ensures
        first_section(s.push(x), n) == (match first_section(s, n) {
            Some(i) => Some(i),
            None => if x.0 == n {
                Some(s.len() as int)
            } else {
                None
            },
        }),
{
    assert(s.push(x).drop_last() =~= s);
}

proof fn lemma_first_section_bounds(s: Sections, n: Option<Seq<char>>)
    ensures
        match first_section(s, n) {
            Some(i) => 0 <= i < s.len() && s[i].0 == n && forall|j: int| 0 <= j < i ==> s[j].0 != n,
            None => forall|j: int| 0 <= j < s.len() ==> s[j].0 != n,
        },
    decreases s.len(),
{
    if s.len() > 0 {
        lemma_first_section_bounds(s.drop_last(), n);
        assert forall|j: int| 0 <= j < s.len() - 1 implies s.drop_last()[j] == s[j] by {}
    }
}

proof fn lemma_first_section_update(s: Sections, i: int, x: (Option<Seq<char>>, Props), n: Option<Seq<char>>)
    requires
        0 <= i < s.len(),
        s[i].0 == x.0,
    ensures
        first_section(s.update(i, x), n) == first_section(s, n),
    decreases s.len(),
{
    let t = s.update(i, x);
    if i == s.len() - 1 {
        assert(t.drop_last() =~= s.drop_last());
    } else {
        assert(t.drop_last() =~= s.drop_last().update(i, x));
        lemma_first_section_update(s.drop_last(), i, x, n);
    }
}

/// Setting a value: reading it back gives the value written, and every
/// other key of every section reads as before.
pub proof fn lemma_set_to_get(s: Sections, n: Option<Seq<char>>, k: Seq<char>, v: Seq<char>, n2: Option<Seq<char>>, k2: Seq<char>)
    ensures
        secs_get(secs_set_to(s, n, k, v), n2, k2) == (if n == n2 && k == k2 {
            Some(v)
        } else {
            secs_get(s, n2, k2)
        }),
{
    lemma_first_section_bounds(s, n);
    lemma_first_section_bounds(s, n2);
    match first_section(s, n) {
        Some(i) => {
            let x = (n, props_set(s[i].1, k, v));
            lemma_first_section_update(s, i, x, n2);
            lemma_props_set_get(s[i].1, k, v, k2);
        },
        None => {
            let x = (n, seq![(k, v)]);
            lemma_first_section_push(s, x, n2);
            let e: Props = Seq::empty();
            assert(seq![(k, v)] =~= e.push((k, v)));
            lemma_props_get_push(e, (k, v), k2);
        },
    }
}

proof fn lemma_merge_props_get(d: Sections, name: Option<Seq<char>>, p: Props, n2: Option<Seq<char>>, k2: Seq<char>)
    ensures
        secs_get(merge_props(d, name, p), n2, k2) == (if name == n2 && last_in_props(p, k2) is Some {
            last_in_props(p, k2)
        } else {
            secs_get(d, n2, k2)
        }),
    decreases p.len(),
{
    if p.len() > 0 {
        lemma_merge_props_get(d, name, p.drop_last(), n2, k2);
        lemma_set_to_get(merge_props(d, name, p.drop_last()), name, p.last().0, p.last().1, n2, k2);
    }
}

/// What a merge leaves to be read: for every section name and key, the last
/// value that the merged-in document gives it, else the value it had.
pub proof fn lemma_merge_get(d: Sections, src: Sections, n: Option<Seq<char>>, k: Seq<char>)
    ensures
        secs_get(merge_secs(d, src), n, k) == (match last_in_secs(src, n, k) {
            Some(v) => Some(v),
            None => secs_get(d, n, k),
        }),
    decreases src.len(),
{
    if src.len() > 0 {
        lemma_merge_get(d, src.drop_last(), n, k);
        lemma_merge_props_get(merge_secs(d, src.drop_last()), src.last().0, src.last().1, n, k);
    }
}

} // verus!
