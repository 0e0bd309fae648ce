//! Moonraker's REST endpoints, and the thumbnail that a G-code file embeds.
use vstd::prelude::*;

use base64::Engine;

use crate::text::{concat, contains, owned, seq_contains, seq_starts_with, starts_with, trim, trim_seq};

verus! {

// ---------------------------------------------------------------------------
// Decimal text of numbers
/// A decimal digit.
pub open spec fn digit_char(d: nat) -> char {
    ('0' as int + d) as char
}

/// The decimal text of `n`, without leading zeros.
pub open spec fn decimal_text(n: nat) -> Seq<char>
    decreases n,
{
    if n < 10 {
        seq![digit_char(n)]
    } else {
        decimal_text(n / 10).push(digit_char(n % 10))
    }
}

fn digit_str(d: u32) -> (res: &'static str)
    requires
        d < 10,
    ensures
        res@ == seq![digit_char(d as nat)],
{
    proof {
        reveal_strlit("0");
        reveal_strlit("1");
        reveal_strlit("2");
        reveal_strlit("3");
        reveal_strlit("4");
        reveal_strlit("5");
        reveal_strlit("6");
        reveal_strlit("7");
        reveal_strlit("8");
        reveal_strlit("9");
    }
    let r = if d == 0 {
        "0"
    } else if d == 1 {
        "1"
    } else if d == 2 {
        "2"
    } else if d == 3 {
        "3"
    } else if d == 4 {
        "4"
    } else if d == 5 {
        "5"
    } else if d == 6 {
        "6"
    } else if d == 7 {
        "7"
    } else if d == 8 {
        "8"
    } else {
        "9"
    };
    assert(r@ =~= seq![digit_char(d as nat)]);
    r
}

/// Appends the decimal text of `n` to `out`.
pub fn push_decimal(n: u32, out: &mut String)
    ensures
        final(out)@ == old(out)@ + decimal_text(n as nat),
    decreases n,
{
    if n >= 10 {
        push_decimal(n / 10, out);
    }
    let ghost mid = out@;
    out.append(digit_str(n % 10));
    proof {
        if n >= 10 {
            assert(out@ =~= old(out)@ + decimal_text(n as nat));
        } else {
            assert(out@ =~= old(out)@ + decimal_text(n as nat));
        }
    }
}

// ---------------------------------------------------------------------------
// REST endpoints
/// The REST interface of one Moonraker instance, by its base URL.
pub struct RestClient {
    pub base_url: String,
}

/// The requests that the front end sends over REST.
pub enum RestCommand {
    MachineRestart,
    MachineShutdown,
    RestartKlipper,
    RestartFirmware,
}

/// The path of the endpoint of a command.
pub open spec fn command_path(c: RestCommand) -> Seq<char> {
    match c {
        RestCommand::MachineRestart => "/machine/reboot"@,
        RestCommand::MachineShutdown => "/machine/shutdown"@,
        RestCommand::RestartKlipper => "/printer/restart"@,
        RestCommand::RestartFirmware => "/printer/firmware_restart"@,
    }
}

impl RestClient {
    /// The interface at `http://HOST:PORT`.
    pub fn new(host: &str, port: u16) -> (res: RestClient)
        ensures
            res.base_url@ == "http://"@ + host@ + ":"@ + decimal_text(port as nat),
    {
        let mut base_url = concat("http://", host);
        base_url.append(":");
        push_decimal(port as u32, &mut base_url);
        RestClient { base_url }
    }

    /// The URL to which `command` is posted: the base URL and the command's path.
    pub fn command_url(&self, command: RestCommand) -> (res: String)
        ensures
            res@ == self.base_url@ + command_path(command),
    {
        let path = match command {
            RestCommand::MachineRestart => "/machine/reboot",
            RestCommand::MachineShutdown => "/machine/shutdown",
            RestCommand::RestartKlipper => "/printer/restart",
            RestCommand::RestartFirmware => "/printer/firmware_restart",
        };
        concat(self.base_url.as_str(), path)
    }
}

// ---------------------------------------------------------------------------
// Thumbnails
/// How many lines of a file are read for a thumbnail: lines 0 to this one.
pub open spec fn last_thumbnail_line() -> int {
    5000
}

/// Whether a trimmed line opens a thumbnail block.
pub open spec fn opens_thumbnail(t: Seq<char>) -> bool {
    seq_starts_with(t, "; thumbnail begin"@) || (seq_starts_with(t, "; thumbnail_"@) && seq_contains(
        t,
        "begin"@,
    ))
}

/// Whether a trimmed line closes a thumbnail block.
pub open spec fn closes_thumbnail(t: Seq<char>) -> bool {
    seq_starts_with(t, "; thumbnail end"@) || (seq_starts_with(t, "; thumbnail_"@) && seq_contains(
        t,
        "end"@,
    ))
}

/// The payload that scanning from line `i` gives, `inside` telling whether
/// a block is open and `acc` holding its payload so far: lines that could
/// not be read (`None`) are skipped; a block opens (with an empty payload)
/// at an opening line; inside it, each comment line adds its text after the
/// `;`, trimmed, and a closing line ends the scan with the payload.  Lines
/// after the limit, and the end of the file, end it with none.
pub open spec fn scan_thumbnail(lines: Seq<Option<Seq<char>>>, i: int, inside: bool, acc: Seq<char>) -> Option<
    Seq<char>,
>
    decreases lines.len() - i,
{
    if i < 0 || i >= lines.len() || i > last_thumbnail_line() {
        None
    } else {
        match lines[i] {
            None => scan_thumbnail(lines, i + 1, inside, acc),
            Some(l) => {
                let t = trim_seq(l);
                if !inside {
                    if opens_thumbnail(t) {
                        scan_thumbnail(lines, i + 1, true, Seq::empty())
                    } else {
                        scan_thumbnail(lines, i + 1, false, acc)
                    }
                } else if closes_thumbnail(t) {
                    Some(acc)
                } else if t.len() > 0 && t[0] == ';' {
                    scan_thumbnail(lines, i + 1, true, acc + trim_seq(t.drop_first()))
                } else {
                    scan_thumbnail(lines, i + 1, true, acc)
                }
            },
        }
    }
}

/// Does a trimmed line open a thumbnail block?
pub fn opens_block(t: &str) -> (res: bool)
    ensures
        res == opens_thumbnail(t@),
{
    starts_with(t, "; thumbnail begin") || (starts_with(t, "; thumbnail_") && contains(t, "begin"))
}

/// Does a trimmed line close a thumbnail block?
pub fn closes_block(t: &str) -> (res: bool)
    ensures
        res == closes_thumbnail(t@),
{
    starts_with(t, "; thumbnail end") || (starts_with(t, "; thumbnail_") && contains(t, "end"))
}

/// The views of lines that may not have been read.
pub open spec fn lines_view(v: Seq<Option<String>>) -> Seq<Option<Seq<char>>> {
    Seq::new(
        v.len(),
        |i: int|
            match v[i] {
                Some(s) => Some(s@),
                None => None,
            },
    )
}

/// The Base64 payload of the first thumbnail block of a G-code file, given
/// its lines in order (`None` for a line that could not be read).
pub fn thumbnail_payload(lines: &Vec<Option<String>>) -> (res: Option<String>)
    ensures
        match res {
            Some(p) => scan_thumbnail(lines_view(lines@), 0, false, Seq::empty()) == Some(p@),
            None => scan_thumbnail(lines_view(lines@), 0, false, Seq::empty()) is None,
        },
{
    let ghost lv = lines_view(lines@);
    let mut inside = false;
    let mut acc = String::new();
    let mut i: usize = 0;
    proof {
        reveal_strlit(";");
    }
    while i < lines.len() && i <= 5000
        invariant
            i <= lines.len(),
            lv == lines_view(lines@),
            scan_thumbnail(lv, 0, false, Seq::empty()) == scan_thumbnail(lv, i as int, inside, acc@),
            ";"@ == seq![';'],
        decreases lines.len() - i,
    {
        match &lines[i] {
            None => {},
            Some(line) => {
                let t = trim(line.as_str());
                assert(lv[i as int] == Some(line@));
                if !inside {
                    if opens_block(t) {
                        inside = true;
                        acc = String::new();
                    }
                } else {
                    if closes_block(t) {
                        return Some(acc);
                    }
                    if starts_with(t, ";") {
                        let n = t.unicode_len();
                        let payload = trim(t.substring_char(1, n));
                        assert(t@.subrange(1, n as int) =~= t@.drop_first());
                        assert(t@.subrange(0, 1)[0] == t@[0]);
                        acc.append(payload);
                    } else {
                        proof {
                            if t@.len() > 0 && t@[0] == ';' {
                                assert(t@.subrange(0, 1) =~= seq![';']);
                            }
                        }
                    }
                }
            },
        }
        i = i + 1;
    }
    None
}

/// What the standard Base64 engine (`base64::prelude::BASE64_STANDARD`)
/// decodes from the bytes of a text; `None` where it refuses the text.
pub uninterp spec fn base64_decoded(text: Seq<char>) -> Option<Seq<u8>>;

/// Decodes `text` with the standard Base64 engine (`Engine::decode` of
/// `BASE64_STANDARD`).  The result is named, not described.
#[verifier::external_body]
fn decode_base64(text: &str) -> (res: Option<Vec<u8>>)
    ensures
        match res {
            Some(b) => base64_decoded(text@) == Some(b@),
            None => base64_decoded(text@) is None,
        },
{
    base64::prelude::BASE64_STANDARD.decode(text).ok()
}

/// An image as 8-bit RGBA pixels, row by row.
pub struct RgbaImage {
    pub width: u32,
    pub height: u32,
    pub pixels: Vec<u8>,
}

/// What `image` decodes from PNG bytes, converted to RGBA: width, height
/// and pixels; `None` where it refuses the bytes.
pub uninterp spec fn png_rgba(bytes: Seq<u8>) -> Option<(u32, u32, Seq<u8>)>;

/// Decodes PNG bytes with `image::load_from_memory_with_format` and converts
/// the image to RGBA (`DynamicImage::to_rgba8`).  The result is named, not
/// described.
#[verifier::external_body]
fn decode_png(bytes: &Vec<u8>) -> (res: Option<RgbaImage>)
    ensures
        match res {
            Some(img) => png_rgba(bytes@) == Some((img.width, img.height, img.pixels@)),
            None => png_rgba(bytes@) is None,
        },
{
    let img = image::load_from_memory_with_format(bytes, image::ImageFormat::Png).ok()?;
    let rgba = img.to_rgba8();
    Some(RgbaImage { width: rgba.width(), height: rgba.height(), pixels: rgba.into_raw() })
}

/// The thumbnail that a payload encodes: its trimmed text decoded as
/// Base64, then as PNG.
pub open spec fn thumbnail_of_payload(p: Seq<char>) -> Option<(u32, u32, Seq<u8>)> {
    match base64_decoded(trim_seq(p)) {
        Some(b) => png_rgba(b),
        None => None,
    }
}

/// The thumbnail of a G-code file, given its lines in order (`None` for a
/// line that could not be read): the image that the payload of the first
/// thumbnail block encodes, if it decodes.
pub fn extract_thumbnail_from_gcode(lines: &Vec<Option<String>>) -> (res: Option<RgbaImage>)
    ensures
        match res {
            Some(img) => match scan_thumbnail(lines_view(lines@), 0, false, Seq::empty()) {
                Some(p) => thumbnail_of_payload(p) == Some((img.width, img.height, img.pixels@)),
                None => false,
            },
            None => match scan_thumbnail(lines_view(lines@), 0, false, Seq::empty()) {
                Some(p) => thumbnail_of_payload(p) is None,
                None => true,
            },
        },
{
    match thumbnail_payload(lines) {
        None => None,
        Some(p) => match decode_base64(trim(p.as_str())) {
            None => None,
            Some(bytes) => decode_png(&bytes),
        },
    }
}

} // verus!
