//! Translations: which catalog is loaded, and what a text translates to.
use vstd::prelude::*;

use gettext::{Catalog, ParseOptions};

use crate::text::{concat, find_char, first_index_of, owned, str_eq};

verus! {

/// The message catalog of the `gettext` crate, `gettext::Catalog`, opaque
/// here: what it holds is named by [`catalog_translations`].
#[verifier::external_type_specification]
#[verifier::external_body]
pub struct ExCatalog(Catalog);

/// What a `gettext::Catalog` holds: each message id that has a translation,
/// with its first (singular) translation.
pub uninterp spec fn catalog_translations(c: Catalog) -> Map<Seq<char>, Seq<char>>;

/// What `Catalog::gettext` gives for `id`.
pub open spec fn catalog_text(c: Catalog, id: Seq<char>) -> Seq<char> {
    if catalog_translations(c).dom().contains(id) {
        catalog_translations(c)[id]
    } else {
        id
    }
}

/// Looks `id` up in the catalog (`Catalog::gettext`): its singular
/// translation, or `id` itself where the catalog has none.
#[verifier::external_body]
fn catalog_gettext(c: &Catalog, id: &str) -> (res: String)
    ensures
        res@ == (if catalog_translations(*c).dom().contains(id@) {
            catalog_translations(*c)[id@]
        } else {
            id@
        }),
{
    c.gettext(id).to_string()
}

/// The translations that gettext's MO parser (`ParseOptions::parse`, with
/// the plural rule set by [`plural_form`]) reads from the bytes of an MO file
/// (see [`catalog_translations`]); `None` where it refuses them.
pub uninterp spec fn mo_translations(bytes: Seq<u8>) -> Option<Map<Seq<char>, Seq<char>>>;

/// Whether the four bytes at the start announce a big-endian MO file.
pub open spec fn mo_big_endian(b: Seq<u8>) -> bool {
    b.len() >= 4 && b[0] == 0x95u8 && b[1] == 0x04u8 && b[2] == 0x12u8 && b[3] == 0xdeu8
}

/// Whether the four bytes at the start announce a little-endian MO file.
pub open spec fn mo_little_endian(b: Seq<u8>) -> bool {
    b.len() >= 4 && b[0] == 0xdeu8 && b[1] == 0x12u8 && b[2] == 0x04u8 && b[3] == 0x95u8
}

/// The 32-bit word at `at`, in the byte order of the file.
pub open spec fn mo_word(b: Seq<u8>, at: int) -> int {
    if mo_big_endian(b) {
        b[at] * 0x100_0000 + b[at + 1] * 0x1_0000 + b[at + 2] * 0x100 + b[at + 3]
    } else {
        b[at] + b[at + 1] * 0x100 + b[at + 2] * 0x1_0000 + b[at + 3] * 0x100_0000
    }
}

/// Whether slot `i` of the string table at `table`, where it lies in the
/// file, describes a string whose end (offset, length and the closing NUL)
/// is a number that `usize` holds.
pub open spec fn mo_slot_fits(b: Seq<u8>, table: int, i: int) -> bool {
    table + 8 * i + 8 <= b.len() ==> mo_word(b, table + 8 * i + 4) + mo_word(b, table + 8 * i)
        + 1 <= usize::MAX
}

/// Whether the parser can compute every string end that it reads without
/// overflow: for a file with an MO header, each slot of both string tables
/// that lies in the file.  On a 64-bit machine every file passes; where one
/// does not, the parser, if it did not fail first, would overflow.
pub open spec fn mo_ends_fit(b: Seq<u8>) -> bool {
    (b.len() >= 28 && (mo_big_endian(b) || mo_little_endian(b))) ==> forall|i: int|
        #![trigger mo_slot_fits(b, mo_word(b, 12), i)]
        0 <= i < mo_word(b, 8) ==> mo_slot_fits(b, mo_word(b, 12), i) && mo_slot_fits(
            b,
            mo_word(b, 16),
            i,
        )
}

/// The plural form used for `n` items: the second one for every count but
/// one (gettext's own default rule).  The translator only looks up singular
/// texts, so the MO file's own rule is not read.
pub fn plural_form(n: u64) -> (res: usize)
    ensures
        res == if n == 1 {
            0usize
        } else {
            1usize
        },
{
    if n == 1 {
        0
    } else {
        1
    }
}

/// Parses an MO file's bytes (`ParseOptions::new().force_plural(..).parse`).
/// With the plural rule given, the parser never reads the file's
/// `Plural-Forms` header, whose parsing panics on some texts.  The result is
/// named, not described: what it holds is what the parser reads from the
/// bytes.
#[verifier::external_body]
fn parse_catalog(bytes: &[u8]) -> (res: Option<Catalog>)
    requires
        mo_ends_fit(bytes@),
    ensures
        match res {
            Some(c) => mo_translations(bytes@) == Some(catalog_translations(c)),
            None => mo_translations(bytes@) is None,
        },
{
    ParseOptions::new().force_plural(plural_form).parse(bytes).ok()
}

/// The word at `at`, read in the file's byte order.
fn read_mo_word(b: &[u8], at: usize, big: bool) -> (res: u64)
    requires
        at + 4 <= b.len(),
        big == mo_big_endian(b@),
    ensures
        res == mo_word(b@, at as int),
{
    let w0 = b[at] as u64;
    let w1 = b[at + 1] as u64;
    let w2 = b[at + 2] as u64;
    let w3 = b[at + 3] as u64;
    if big {
        w0 * 0x100_0000 + w1 * 0x1_0000 + w2 * 0x100 + w3
    } else {
        w0 + w1 * 0x100 + w2 * 0x1_0000 + w3 * 0x100_0000
    }
}

/// Whether the string of slot `slot` (its offset just past `slot`) ends in
/// range, where the slot lies in the file.
fn slot_end_fits(b: &[u8], slot: u64, big: bool) -> (res: bool)
    requires
        big == mo_big_endian(b@),
        slot < 0x10_0000_0000,
    ensures
        res == (slot + 8 <= b.len() ==> mo_word(b@, slot + 4) + mo_word(b@, slot as int) + 1
            <= usize::MAX),
{
    if slot + 8 > b.len() as u64 {
        return true;
    }
    let at = slot as usize;
    let len = read_mo_word(b, at, big);
    let off = read_mo_word(b, at + 4, big);
    off + len + 1 <= usize::MAX as u64
}

/// The file passes where the slots before `i` fit and the header counts no
/// more, or the slots from `i` on lie past the end of the file.
proof fn lemma_ends_fit(b: Seq<u8>, i: int)
    requires
        0 <= i,
        forall|j: int|
            #![trigger mo_slot_fits(b, mo_word(b, 12), j)]
            0 <= j < i ==> mo_slot_fits(b, mo_word(b, 12), j) && mo_slot_fits(
                b,
                mo_word(b, 16),
                j,
            ),
        i >= mo_word(b, 8) || (mo_word(b, 12) + 8 * i + 8 > b.len() && mo_word(b, 16) + 8 * i + 8
            > b.len()),
    ensures
        mo_ends_fit(b),
{
    assert forall|j: int|
        #![trigger mo_slot_fits(b, mo_word(b, 12), j)]
        0 <= j < mo_word(b, 8) implies mo_slot_fits(b, mo_word(b, 12), j) && mo_slot_fits(
            b,
            mo_word(b, 16),
            j,
        ) by {
        if j < i {
            assert(mo_slot_fits(b, mo_word(b, 12), j));
        } else {
            assert(i < mo_word(b, 8));
            assert(mo_word(b, 12) + 8 * i + 8 > b.len());
            assert(mo_word(b, 12) + 8 * j + 8 > b.len());
            assert(mo_word(b, 16) + 8 * j + 8 > b.len());
        }
    }
}

/// A slot that the header counts and that does not fit fails the file.
proof fn lemma_ends_not_fit(b: Seq<u8>, i: int)
    requires
        b.len() >= 28,
        mo_big_endian(b) || mo_little_endian(b),
        0 <= i < mo_word(b, 8),
        !(mo_slot_fits(b, mo_word(b, 12), i) && mo_slot_fits(b, mo_word(b, 16), i)),
    ensures
        !mo_ends_fit(b),
{
}

/// Tests [`mo_ends_fit`]: whether gettext's parser reads the file without
/// an overflow in the ends of its strings.
pub fn mo_ends_fit_check(b: &[u8]) -> (res: bool)
    ensures
        res == mo_ends_fit(b@),
{
    if b.len() < 28 {
        return true;
    }
    let big = b[0] == 0x95u8 && b[1] == 0x04u8 && b[2] == 0x12u8 && b[3] == 0xdeu8;
    let little = b[0] == 0xdeu8 && b[1] == 0x12u8 && b[2] == 0x04u8 && b[3] == 0x95u8;
    if !big && !little {
        return true;
    }
    let count = read_mo_word(b, 8, big);
    let ot = read_mo_word(b, 12, big);
    let tt = read_mo_word(b, 16, big);
    let mut i: u64 = 0;
    while i < count
        invariant
            big == mo_big_endian(b@),
            b.len() >= 28,
            mo_big_endian(b@) || mo_little_endian(b@),
            count == mo_word(b@, 8),
            ot == mo_word(b@, 12),
            tt == mo_word(b@, 16),
            count < 0x1_0000_0000,
            ot < 0x1_0000_0000,
            tt < 0x1_0000_0000,
            i <= count,
            forall|j: int|
                #![trigger mo_slot_fits(b@, ot as int, j)]
                0 <= j < i ==> mo_slot_fits(b@, ot as int, j) && mo_slot_fits(
                    b@,
                    tt as int,
                    j,
                ),
        decreases count - i,
    {
        let so = ot + 8 * i;
        let st = tt + 8 * i;
        if so + 8 > b.len() as u64 && st + 8 > b.len() as u64 {
            proof {
                lemma_ends_fit(b@, i as int);
            }
            return true;
        }
        let fo = slot_end_fits(b, so, big);
        let ft = slot_end_fits(b, st, big);
        assert(fo == mo_slot_fits(b@, ot as int, i as int));
        assert(ft == mo_slot_fits(b@, tt as int, i as int));
        if !fo || !ft {
            proof {
                lemma_ends_not_fit(b@, i as int);
            }
            return false;
        }
        let ghost prev = i as int;
        i = i + 1;
        assert forall|j: int|
            #![trigger mo_slot_fits(b@, ot as int, j)]
            0 <= j < i implies mo_slot_fits(b@, ot as int, j) && mo_slot_fits(b@, tt as int, j) by {
            if j < prev {
                assert(mo_slot_fits(b@, ot as int, j));
            }
        }
    }
    proof {
        lemma_ends_fit(b@, i as int);
    }
    true
}

/// `s` up to the first `c`, or all of `s`.
pub open spec fn before_char(s: Seq<char>, c: char) -> Seq<char> {
    match first_index_of(s, c) {
        Some(i) => s.subrange(0, i),
        None => s,
    }
}

fn prefix_before(s: &str, c: char) -> (res: &str)
    ensures
        res@ == before_char(s@, c),
{
    match find_char(s, c) {
        Some(i) => {
            proof {
                lemma_first_index_in(s@, c);
            }
            s.substring_char(0, i)
        },
        None => s,
    }
}

proof fn lemma_first_index_in(s: Seq<char>, c: char)
    ensures
        match first_index_of(s, c) {
            Some(i) => 0 <= i < s.len(),
            None => true,
        },
    decreases s.len(),
{
    if s.len() > 0 {
        lemma_first_index_in(s.drop_first(), c);
    }
}

/// The language code that a configured language gives: for `system_lang`,
/// the system's `LANG` (`en` where unset) up to the first `.` and then up
/// to the first `_`; any other value as it is.
pub open spec fn lang_code_v(lang: Seq<char>, env_lang: Option<Seq<char>>) -> Seq<char> {
    if lang == "system_lang"@ {
        before_char(
            before_char(
                match env_lang {
                    Some(l) => l,
                    None => "en"@,
                },
                '.',
            ),
            '_',
        )
    } else {
        lang
    }
}

/// Translates texts through the catalog of the configured language, where
/// one could be loaded.
pub struct Translator {
    catalog: Option<Catalog>,
}

impl Translator {
    /// The catalog in use.
    pub closed spec fn catalog(&self) -> Option<Catalog> {
        self.catalog
    }

    /// The language code for the configured language (see [`lang_code_v`]).
    pub fn lang_code(lang: &str, env_lang: Option<&str>) -> (res: String)
        ensures
            res@ == lang_code_v(lang@, match env_lang {
                Some(l) => Some(l@),
                None => None,
            }),
    {
        if str_eq(lang, "system_lang") {
            let base: &str = match env_lang {
                Some(l) => l,
                None => "en",
            };
            owned(prefix_before(prefix_before(base, '.'), '_'))
        } else {
            owned(lang)
        }
    }

    /// Where the catalog for language `code` is looked for.
    pub fn mo_path(code: &str) -> (res: String)
        ensures
            res@ == "ks_includes/locales/"@ + code@ + "/LC_MESSAGES/KlipperScreen.mo"@,
    {
        let mut p = concat("ks_includes/locales/", code);
        p.append("/LC_MESSAGES/KlipperScreen.mo");
        p
    }

    /// The translator over `catalog`, where one was loaded.
    pub fn new(catalog: Option<Catalog>) -> (res: Translator)
        ensures
            res.catalog() == catalog,
    {
        Translator { catalog }
    }

    /// The translation of `text`: the catalog's, or `text` itself where no
    /// catalog is loaded.
    pub fn translate(&self, text: &str) -> (res: String)
        ensures
            res@ == match self.catalog() {
                Some(c) => catalog_text(c, text@),
                None => text@,
            },
    {
        match &self.catalog {
            Some(c) => catalog_gettext(c, text),
            None => owned(text),
        }
    }
}

/// The translator over the catalog in the MO file whose bytes are `mo`:
/// none where there is no file, where the parser could not compute the ends
/// of its strings (see [`mo_ends_fit`]), or where it does not parse.
pub fn translator_from_mo(mo: Option<&[u8]>) -> (res: Translator)
    ensures
        match mo {
            None => res.catalog() is None,
            Some(b) => if !mo_ends_fit(b@) {
                res.catalog() is None
            } else {
                match mo_translations(b@) {
                    Some(m) => res.catalog() matches Some(c) && catalog_translations(c) == m,
                    None => res.catalog() is None,
                }
            },
        },
{
    match mo {
        None => Translator::new(None),
        Some(b) => if mo_ends_fit_check(b) {
            Translator::new(parse_catalog(b))
        } else {
            Translator::new(None)
        },
    }
}

/// Installs `translator` as the translator in use.
pub fn init_global_translator(slot: &mut Option<Translator>, translator: Translator)
    ensures
        *final(slot) == Some(translator),
{
    *slot = Some(translator);
}

/// The translation of `text` by the translator in use, or `text` itself
/// where none is installed.
pub fn get_translation(slot: &Option<Translator>, text: &str) -> (res: String)
    ensures
        res@ == match slot {
            Some(t) => match t.catalog() {
                Some(c) => catalog_text(c, text@),
                None => text@,
            },
            None => text@,
        },
{
    match slot {
        Some(t) => t.translate(text),
        None => owned(text),
    }
}

} // verus!
