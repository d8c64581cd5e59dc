//! Embedding structured data in environments that strip or rewrite markup.

use vstd::prelude::*;
use vstd::string::StringSliceAdditionalSpecFns;
use crate::text::{
    char_views, chars_of, decimal, decimal_chars, push_chars, push_str, strip_around, strip_text, string_from_utf8,
    string_of,
};
use crate::{escape, escape_spec, unescape, unescape_spec};
use crate::stego::visual::colors_of;

pub mod visual;

verus! {

/// How aggressively an environment sanitises what it is given.
#[derive(Debug, Clone, Copy, PartialEq, Eq, Structural, PartialOrd, Ord)]
pub enum HostilityLevel {
    Friendly,
    Cautious,
    Restrictive,
    Aggressive,
    Paranoid,
    MaximumHostile,
}

/// A way of hiding data.
#[derive(Debug, Clone, Copy, PartialEq, Eq, Structural)]
pub enum StegoStrategy {
    HtmlEscape,
    CommentEmbed,
    HiddenDiv,
    DataAttribute,
    Whitespace,
    ZeroWidth,
    Unicode,
    MultiLayer,
    Position,
    Ordering,
    Color,
    CssProperty,
    FontSize,
    Bitmap,
    QrCode,
    VisualNoise,
}

/// The strategy to use at a hostility level.
pub open spec fn select_strategy_spec(h: HostilityLevel) -> StegoStrategy {
    match h {
        HostilityLevel::Friendly => StegoStrategy::HtmlEscape,
        HostilityLevel::Cautious => StegoStrategy::HtmlEscape,
        HostilityLevel::Restrictive => StegoStrategy::DataAttribute,
        HostilityLevel::Aggressive => StegoStrategy::CommentEmbed,
        HostilityLevel::Paranoid => StegoStrategy::Whitespace,
        HostilityLevel::MaximumHostile => StegoStrategy::ZeroWidth,
    }
}

pub fn select_strategy(hostility: HostilityLevel) -> (r: StegoStrategy)
    ensures
        r == select_strategy_spec(hostility),
{
    match hostility {
        HostilityLevel::Friendly => StegoStrategy::HtmlEscape,
        HostilityLevel::Cautious => StegoStrategy::HtmlEscape,
        HostilityLevel::Restrictive => StegoStrategy::DataAttribute,
        HostilityLevel::Aggressive => StegoStrategy::CommentEmbed,
        HostilityLevel::Paranoid => StegoStrategy::Whitespace,
        HostilityLevel::MaximumHostile => StegoStrategy::ZeroWidth,
    }
}

} // verus!

verus! {

/// One space for an even byte, two for an odd one.
pub open spec fn whitespace_code(bytes: Seq<u8>) -> Seq<char>
    decreases bytes.len(),
{
    if bytes.len() == 0 {
        Seq::empty()
    } else {
        whitespace_code(bytes.drop_last()) + if bytes.last() % 2 == 1 {
            seq![' ', ' ']
        } else {
            seq![' ']
        }
    }
}

fn encode_whitespace(data: &str) -> (r: String)
    ensures
        r@ == whitespace_code(data.spec_bytes()),
{
    let bytes = data.as_bytes();
    let mut out: Vec<char> = Vec::new();
    let mut i: usize = 0;
    while i < bytes.len()
        invariant
            i <= bytes@.len(),
            out@ == whitespace_code(bytes@.take(i as int)),
        decreases bytes@.len() - i,
    {
        assert(bytes@.take(i as int + 1).drop_last() =~= bytes@.take(i as int));
        out.push(' ');
        if bytes[i] % 2 == 1 {
            out.push(' ');
        }
        i = i + 1;
        assert(out@ =~= whitespace_code(bytes@.take(i as int)));
    }
    assert(bytes@.take(i as int) =~= bytes@);
    string_of(&out)
}

/// The pieces of `s` between spaces, empty pieces dropped; `cur` is a piece in progress.
pub open spec fn words_from(s: Seq<char>, cur: Seq<char>) -> Seq<Seq<char>>
    decreases s.len(),
{
    if s.len() == 0 {
        if cur.len() > 0 {
            seq![cur]
        } else {
            Seq::empty()
        }
    } else if s[0] == ' ' {
        (if cur.len() > 0 {
            seq![cur]
        } else {
            Seq::empty()
        }) + words_from(s.skip(1), Seq::empty())
    } else {
        words_from(s.skip(1), cur.push(s[0]))
    }
}

/// A piece longer than one byte in UTF-8: several characters, or one non-ASCII one.
pub open spec fn long_word(w: Seq<char>) -> bool {
    w.len() > 1 || (w.len() == 1 && w[0] as u32 >= 128)
}

/// Piece `i` stands for bit `i % 8` when it is long.
pub open spec fn whitespace_bytes(words: Seq<Seq<char>>) -> Seq<u8> {
    Seq::new(
        words.len(),
        |i: int| if long_word(words[i]) {
            vstd::arithmetic::power2::pow2((i % 8) as nat) as u8
        } else {
            0u8
        },
    )
}

fn bit_weight(k: usize) -> (r: u8)
    requires
        k < 8,
    ensures
        r as nat == vstd::arithmetic::power2::pow2(k as nat),
        r >= 1,
{
    proof {
        vstd::arithmetic::power2::lemma2_to64();
    }
    if k == 0 { 1 } else if k == 1 { 2 } else if k == 2 { 4 } else if k == 3 { 8 } else if k == 4 { 16 } else if k == 5 {
        32
    } else if k == 6 { 64 } else { 128 }
}

fn decode_whitespace(encoded: &str) -> (r: Option<String>)
    ensures
        r is Some <==> vstd::utf8::valid_utf8(whitespace_bytes(words_from(encoded@, Seq::empty()))),
        r matches Some(s) ==> s@ == vstd::utf8::decode_utf8(whitespace_bytes(words_from(encoded@, Seq::empty()))),
{
    let cs = chars_of(encoded);
    let ghost all = words_from(cs@, Seq::empty());
    let mut words: Vec<Vec<char>> = Vec::new();
    let mut cur: Vec<char> = Vec::new();
    let mut i: usize = 0;
    assert(cs@.skip(0) =~= cs@);
    assert(Seq::<Seq<char>>::empty() + all =~= all);
    while i < cs.len()
        invariant
            i <= cs@.len(),
            all == words_from(cs@, Seq::empty()),
            all == char_views(words@) + words_from(cs@.skip(i as int), cur@),
        decreases cs@.len() - i,
    {
        let ghost rest = cs@.skip(i as int);
        assert(rest.skip(1) =~= cs@.skip(i + 1));
        let ghost before = char_views(words@);
        if cs[i] == ' ' {
            if cur.len() > 0 {
                let mut done: Vec<char> = Vec::new();
                core::mem::swap(&mut done, &mut cur);
                words.push(done);
                assert(char_views(words@) =~= before + seq![done@]);
            } else {
                assert(before + (Seq::<Seq<char>>::empty() + words_from(rest.skip(1), Seq::empty())) =~= before + words_from(rest.skip(1), Seq::empty()));
            }
            assert(cur@ =~= Seq::<char>::empty());
        } else {
            cur.push(cs[i]);
        }
        i = i + 1;
    }
    let ghost before = char_views(words@);
    if cur.len() > 0 {
        words.push(cur);
    }
    assert(char_views(words@) =~= all);
    let mut bytes: Vec<u8> = Vec::new();
    let mut j: usize = 0;
    while j < words.len()
        invariant
            j <= words@.len(),
            all == char_views(words@),
            bytes@ == whitespace_bytes(all).take(j as int),
        decreases words@.len() - j,
    {
        let w = &words[j];
        let long = w.len() > 1 || (w.len() == 1 && w[0] as u32 >= 128);
        if long {
            bytes.push(bit_weight(j % 8));
        } else {
            bytes.push(0);
        }
        j = j + 1;
        assert(bytes@ =~= whitespace_bytes(all).take(j as int));
    }
    assert(whitespace_bytes(all).take(j as int) =~= whitespace_bytes(all));
    string_from_utf8(bytes)
}

} // verus!

verus! {

pub const ZERO_WIDTH_SPACE: char = '\u{200B}';

pub const ZERO_WIDTH_NON_JOINER: char = '\u{200C}';

/// Eight characters per byte, lowest bit first: a zero-width space for a set bit, a
/// zero-width non-joiner for a clear one.
pub open spec fn zero_width_code(bytes: Seq<u8>) -> Seq<char> {
    Seq::new(
        8 * bytes.len(),
        |k: int| if (bytes[k / 8] / vstd::arithmetic::power2::pow2((k % 8) as nat) as u8) % 2 == 1 {
            ZERO_WIDTH_SPACE
        } else {
            ZERO_WIDTH_NON_JOINER
        },
    )
}

fn encode_zero_width(data: &str) -> (r: String)
    ensures
        r@ == zero_width_code(data.spec_bytes()),
{
    let bytes = data.as_bytes();
    let mut out: Vec<char> = Vec::new();
    let mut i: usize = 0;
    while i < bytes.len()
        invariant
            i <= bytes@.len(),
            out@.len() == 8 * i,
            forall|k: int| 0 <= k < 8 * i ==> #[trigger] out@[k] == zero_width_code(bytes@)[k],
        decreases bytes@.len() - i,
    {
        let b = bytes[i];
        let mut bit: usize = 0;
        while bit < 8
            invariant
                i < bytes@.len(),
                b == bytes@[i as int],
                bit <= 8,
                out@.len() == 8 * i + bit,
                forall|k: int| 0 <= k < 8 * i + bit ==> #[trigger] out@[k] == zero_width_code(bytes@)[k],
            decreases 8 - bit,
        {
            let w = bit_weight(bit);
            let ghost k = 8 * i + bit;
            assert(k / 8 == i && k % 8 == bit);
            if (b / w) % 2 == 1 {
                out.push(ZERO_WIDTH_SPACE);
            } else {
                out.push(ZERO_WIDTH_NON_JOINER);
            }
            bit = bit + 1;
        }
        i = i + 1;
    }
    assert(out@ =~= zero_width_code(bytes@));
    string_of(&out)
}

/// The value of a chunk of up to eight characters: `2^i` for each zero-width space at `i`.
pub open spec fn chunk_value(cs: Seq<char>, start: int, k: int) -> int
    decreases k,
{
    if k <= 0 {
        0
    } else {
        chunk_value(cs, start, k - 1) + if cs[start + k - 1] == ZERO_WIDTH_SPACE {
            vstd::arithmetic::power2::pow2((k - 1) as nat) as int
        } else {
            0
        }
    }
}

/// One byte per chunk of eight characters, the last chunk possibly shorter.
pub open spec fn zero_width_bytes(cs: Seq<char>) -> Seq<u8> {
    Seq::new(
        ((cs.len() + 7) / 8) as nat,
        |j: int| chunk_value(cs, 8 * j, if cs.len() - 8 * j < 8 { cs.len() - 8 * j } else { 8 }) as u8,
    )
}

fn decode_zero_width(encoded: &str) -> (r: Option<String>)
    ensures
        r is Some <==> vstd::utf8::valid_utf8(zero_width_bytes(encoded@)),
        r matches Some(s) ==> s@ == vstd::utf8::decode_utf8(zero_width_bytes(encoded@)),
{
    let cs = chars_of(encoded);
    let n = cs.len();
    let mut bytes: Vec<u8> = Vec::new();
    let mut j: usize = 0;
    while j < n
        invariant
            n == cs@.len(),
            j <= n,
            j < n ==> j == 8 * bytes@.len(),
            j == n ==> 8 * bytes@.len() >= n && (bytes@.len() == 0 || 8 * (bytes@.len() - 1) < n),
            forall|q: int| 0 <= q < bytes@.len() ==> #[trigger] bytes@[q] == zero_width_bytes(cs@)[q],
        decreases n - j,
    {
        let len = if n - j < 8 { n - j } else { 8 };
        let mut acc: u16 = 0;
        let mut bit: usize = 0;
        proof {
            vstd::arithmetic::power2::lemma2_to64();
        }
        while bit < len
            invariant
                n == cs@.len(),
                j < n,
                len <= 8,
                j + len <= n,
                bit <= len,
                acc as int == chunk_value(cs@, j as int, bit as int),
                (acc as int) < vstd::arithmetic::power2::pow2(bit as nat),
            decreases len - bit,
        {
            proof {
                vstd::arithmetic::power2::lemma2_to64();
                vstd::arithmetic::power2::lemma_pow2_unfold((bit + 1) as nat);
            }
            if cs[j + bit] == ZERO_WIDTH_SPACE {
                acc = acc + bit_weight(bit) as u16;
            }
            bit = bit + 1;
        }
        proof {
            vstd::arithmetic::power2::lemma2_to64();
            if len < 8 {
                vstd::arithmetic::power2::lemma_pow2_strictly_increases(len as nat, 8);
            }
        }
        bytes.push(acc as u8);
        j = j + len;
    }
    assert(bytes@.len() == (cs@.len() + 7) / 8);
    assert(bytes@ =~= zero_width_bytes(cs@));
    string_from_utf8(bytes)
}

/// Look-alike Cyrillic letters for `a e o p c x`.
pub open spec fn homoglyph(c: char) -> char {
    if c == 'a' {
        '\u{0430}'
    } else if c == 'e' {
        '\u{0435}'
    } else if c == 'o' {
        '\u{043E}'
    } else if c == 'p' {
        '\u{0440}'
    } else if c == 'c' {
        '\u{0441}'
    } else if c == 'x' {
        '\u{0445}'
    } else {
        c
    }
}

/// The Latin letters behind the look-alikes of `homoglyph`.
pub open spec fn plain_glyph(c: char) -> char {
    if c == '\u{0430}' {
        'a'
    } else if c == '\u{0435}' {
        'e'
    } else if c == '\u{043E}' {
        'o'
    } else if c == '\u{0440}' {
        'p'
    } else if c == '\u{0441}' {
        'c'
    } else if c == '\u{0445}' {
        'x'
    } else {
        c
    }
}

fn map_homoglyph(c: char) -> (r: char)
    ensures
        r == homoglyph(c),
{
    if c == 'a' {
        '\u{0430}'
    } else if c == 'e' {
        '\u{0435}'
    } else if c == 'o' {
        '\u{043E}'
    } else if c == 'p' {
        '\u{0440}'
    } else if c == 'c' {
        '\u{0441}'
    } else if c == 'x' {
        '\u{0445}'
    } else {
        c
    }
}

fn map_plain_glyph(c: char) -> (r: char)
    ensures
        r == plain_glyph(c),
{
    if c == '\u{0430}' {
        'a'
    } else if c == '\u{0435}' {
        'e'
    } else if c == '\u{043E}' {
        'o'
    } else if c == '\u{0440}' {
        'p'
    } else if c == '\u{0441}' {
        'c'
    } else if c == '\u{0445}' {
        'x'
    } else {
        c
    }
}

fn encode_unicode(data: &str) -> (r: String)
    ensures
        r@ == data@.map_values(|c: char| homoglyph(c)),
{
    let cs = chars_of(data);
    let mut out: Vec<char> = Vec::new();
    let mut i: usize = 0;
    while i < cs.len()
        invariant
            i <= cs@.len(),
            out@ == cs@.take(i as int).map_values(|c: char| homoglyph(c)),
        decreases cs@.len() - i,
    {
        out.push(map_homoglyph(cs[i]));
        i = i + 1;
        assert(out@ =~= cs@.take(i as int).map_values(|c: char| homoglyph(c)));
    }
    assert(cs@.take(i as int) =~= cs@);
    string_of(&out)
}

fn decode_unicode(encoded: &str) -> (r: String)
    ensures
        r@ == encoded@.map_values(|c: char| plain_glyph(c)),
{
    let cs = chars_of(encoded);
    let mut out: Vec<char> = Vec::new();
    let mut i: usize = 0;
    while i < cs.len()
        invariant
            i <= cs@.len(),
            out@ == cs@.take(i as int).map_values(|c: char| plain_glyph(c)),
        decreases cs@.len() - i,
    {
        out.push(map_plain_glyph(cs[i]));
        i = i + 1;
        assert(out@ =~= cs@.take(i as int).map_values(|c: char| plain_glyph(c)));
    }
    assert(cs@.take(i as int) =~= cs@);
    string_of(&out)
}

} // verus!

verus! {

/// One span of the visual encoding: the position of byte `i`, colour `i` and the font size
/// of byte `i`.
pub open spec fn visual_line(bytes: Seq<u8>, i: int) -> Seq<char> {
    let b = bytes[i];
    let c = colors_of(bytes)[i];
    "  <span style=\"position:absolute;left:"@ + decimal((b % 100) as nat) + "px;top:"@ + decimal((b / 100) as nat)
        + "px;color:rgb("@ + decimal(c.0 as nat) + ","@ + decimal(c.1 as nat) + ","@ + decimal(c.2 as nat)
        + ");font-size:"@ + decimal((8 + b % 16) as nat) + "pt"@ + "\">\u{00B7}</span>\n"@
}

pub open spec fn visual_lines(bytes: Seq<u8>, k: int) -> Seq<char>
    decreases k,
{
    if k <= 0 {
        Seq::empty()
    } else {
        visual_lines(bytes, k - 1) + visual_line(bytes, k - 1)
    }
}

/// A `div` with one span per colour of the bytes.
pub open spec fn visual_html(bytes: Seq<u8>) -> Seq<char> {
    "<div>\n"@ + visual_lines(bytes, colors_of(bytes).len() as int) + "</div>"@
}

/// HTML that carries the bytes of `data` in positions, colours and font sizes of spans.
pub fn generate_visual_stego(data: &str) -> (r: String)
    ensures
        r@ == visual_html(data.spec_bytes()),
{
    let bytes = data.as_bytes();
    let positions = visual::encode_position(bytes);
    let colors = visual::encode_color(bytes);
    let font_sizes = visual::encode_font_size(bytes);
    let mut html: Vec<char> = Vec::new();
    push_str(&mut html, "<div>\n");
    let mut i: usize = 0;
    let ghost head = html@;
    while i < positions.len() && i < colors.len()
        invariant
            positions@.len() == bytes@.len(),
            colors@ == colors_of(bytes@),
            font_sizes@.len() == bytes@.len(),
            forall|q: int| 0 <= q < bytes@.len() ==> #[trigger] positions@[q] == ((bytes@[q] % 100) as i32, (bytes@[q] / 100) as i32),
            forall|q: int| 0 <= q < bytes@.len() ==> #[trigger] font_sizes@[q]@ == decimal((8 + bytes@[q] % 16) as nat) + "pt"@,
            i <= colors@.len(),
            i <= positions@.len(),
            head == "<div>\n"@,
            html@ == head + visual_lines(bytes@, i as int),
        decreases colors@.len() - i,
    {
        let (x, y) = positions[i];
        let (r, g, b) = colors[i];
        let ghost before = html@;
        push_str(&mut html, "  <span style=\"position:absolute;left:");
        push_chars(&mut html, &decimal_chars(x as u64));
        push_str(&mut html, "px;top:");
        push_chars(&mut html, &decimal_chars(y as u64));
        push_str(&mut html, "px;color:rgb(");
        push_chars(&mut html, &decimal_chars(r as u64));
        push_str(&mut html, ",");
        push_chars(&mut html, &decimal_chars(g as u64));
        push_str(&mut html, ",");
        push_chars(&mut html, &decimal_chars(b as u64));
        push_str(&mut html, ");font-size:");
        if i < font_sizes.len() {
            push_str(&mut html, font_sizes[i].as_str());
        } else {
            push_str(&mut html, "12pt");
        }
        push_str(&mut html, "\">\u{00B7}</span>\n");
        proof {
            let bb = bytes@[i as int];
            assert(x as u64 as nat == (bb % 100) as nat);
            assert(y as u64 as nat == (bb / 100) as nat);
            assert(colors@[i as int] == (r, g, b));
            assert(font_sizes@[i as int]@ == decimal((8 + bb % 16) as nat) + "pt"@);
            let line = visual_line(bytes@, i as int);
            assert(html@ =~= before + line);
            assert(html@ =~= head + visual_lines(bytes@, i + 1));
        }
        i = i + 1;
    }
    proof {
        if bytes@.len() > 0 {
            assert(colors@.len() <= bytes@.len());
        }
    }
    push_str(&mut html, "</div>");
    assert(html@ =~= visual_html(bytes@));
    string_of(&html)
}

} // verus!

verus! {

/// What `encode` produces for each strategy. Every visual strategy but the QR code yields
/// the span-based HTML of `generate_visual_stego`.
pub open spec fn stego_encode_spec(data: Seq<char>, strategy: StegoStrategy) -> Seq<char> {
    match strategy {
        StegoStrategy::HtmlEscape => escape_spec(data),
        StegoStrategy::CommentEmbed => "<!-- "@ + escape_spec(data) + " -->"@,
        StegoStrategy::HiddenDiv => "<div style=\"display:none\">"@ + escape_spec(data) + "</div>"@,
        StegoStrategy::DataAttribute => "<div data-erdfa=\""@ + escape_spec(data) + "\">"@,
        StegoStrategy::Whitespace => whitespace_code(vstd::utf8::encode_utf8(data)),
        StegoStrategy::ZeroWidth => zero_width_code(vstd::utf8::encode_utf8(data)),
        StegoStrategy::Unicode => data.map_values(|c: char| homoglyph(c)),
        StegoStrategy::MultiLayer => "<!-- "@ + escape_spec(escape_spec(data)) + " -->"@,
        StegoStrategy::QrCode => "data:image/svg+xml,<svg><!-- "@ + data + " --></svg>"@,
        _ => visual_html(vstd::utf8::encode_utf8(data)),
    }
}

/// `s` after `f`, when present.
pub open spec fn map_text(s: Option<Seq<char>>, f: spec_fn(Seq<char>) -> Seq<char>) -> Option<Seq<char>> {
    match s {
        Some(t) => Some(f(t)),
        None => None,
    }
}

/// Decoded bytes as text, when they are UTF-8.
pub open spec fn utf8_text(bytes: Seq<u8>) -> Option<Seq<char>> {
    if vstd::utf8::valid_utf8(bytes) {
        Some(vstd::utf8::decode_utf8(bytes))
    } else {
        None
    }
}

/// What `decode` returns for each strategy. The span-based visual encodings are not read
/// back.
pub open spec fn stego_decode_spec(encoded: Seq<char>, strategy: StegoStrategy) -> Option<Seq<char>> {
    match strategy {
        StegoStrategy::HtmlEscape => Some(unescape_spec(encoded)),
        StegoStrategy::CommentEmbed => strip_around(encoded, "<!-- "@, " -->"@),
        StegoStrategy::HiddenDiv => map_text(
            strip_around(encoded, "<div style=\"display:none\">"@, "</div>"@),
            |t: Seq<char>| unescape_spec(t),
        ),
        StegoStrategy::DataAttribute => map_text(
            strip_around(encoded, "<div data-erdfa=\""@, "\">"@),
            |t: Seq<char>| unescape_spec(t),
        ),
        StegoStrategy::Whitespace => utf8_text(whitespace_bytes(words_from(encoded, Seq::empty()))),
        StegoStrategy::ZeroWidth => utf8_text(zero_width_bytes(encoded)),
        StegoStrategy::Unicode => Some(encoded.map_values(|c: char| plain_glyph(c))),
        StegoStrategy::MultiLayer => map_text(
            strip_around(encoded, "<!-- "@, " -->"@),
            |t: Seq<char>| unescape_spec(unescape_spec(t)),
        ),
        StegoStrategy::QrCode => strip_around(encoded, "data:image/svg+xml,<svg><!-- "@, " --></svg>"@),
        _ => None,
    }
}

/// The most hostile environment each strategy survives.
pub open spec fn max_hostility_spec(strategy: StegoStrategy) -> HostilityLevel {
    match strategy {
        StegoStrategy::HtmlEscape => HostilityLevel::Aggressive,
        StegoStrategy::CommentEmbed => HostilityLevel::Aggressive,
        StegoStrategy::HiddenDiv => HostilityLevel::Restrictive,
        StegoStrategy::DataAttribute => HostilityLevel::Restrictive,
        StegoStrategy::Whitespace => HostilityLevel::Paranoid,
        StegoStrategy::ZeroWidth => HostilityLevel::MaximumHostile,
        StegoStrategy::Unicode => HostilityLevel::MaximumHostile,
        StegoStrategy::MultiLayer => HostilityLevel::MaximumHostile,
        _ => HostilityLevel::Cautious,
    }
}

/// Hiding data with a choice of strategies.
pub trait StegoEncoder {
    fn encode(&self, data: &str, strategy: StegoStrategy) -> String;

    fn decode(&self, encoded: &str, strategy: StegoStrategy) -> Option<String>;

    fn max_hostility(&self, strategy: StegoStrategy) -> HostilityLevel;
}

/// The eRDFa steganographic system.
pub struct ERdfaStego;

fn strip_and_unescape(encoded: &str, pre: &str, suf: &str, times: usize) -> (r: Option<String>)
    requires
        times <= 2,
    ensures
        times == 0 ==> match r {
            Some(s) => strip_around(encoded@, pre@, suf@) == Some(s@),
            None => strip_around(encoded@, pre@, suf@) is None,
        },
        times == 1 ==> match r {
            Some(s) => map_text(strip_around(encoded@, pre@, suf@), |t: Seq<char>| unescape_spec(t)) == Some(s@),
            None => strip_around(encoded@, pre@, suf@) is None,
        },
        times == 2 ==> match r {
            Some(s) => map_text(strip_around(encoded@, pre@, suf@), |t: Seq<char>| unescape_spec(unescape_spec(t)))
                == Some(s@),
            None => strip_around(encoded@, pre@, suf@) is None,
        },
{
    let inner = match strip_text(encoded, pre, suf) {
        Some(v) => string_of(&v),
        None => {
            return None;
        },
    };
    if times == 0 {
        Some(inner)
    } else if times == 1 {
        Some(unescape(inner.as_str()))
    } else {
        let once = unescape(inner.as_str());
        Some(unescape(once.as_str()))
    }
}

impl StegoEncoder for ERdfaStego {
    fn encode(&self, data: &str, strategy: StegoStrategy) -> (r: String)
        ensures
            r@ == stego_encode_spec(data@, strategy),
    {
        proof {
            reveal_strlit("<!-- ");
            reveal_strlit(" -->");
        }
        match strategy {
            StegoStrategy::HtmlEscape => escape(data),
            StegoStrategy::CommentEmbed => wrap("<!-- ", escape(data).as_str(), " -->"),
            StegoStrategy::HiddenDiv => wrap("<div style=\"display:none\">", escape(data).as_str(), "</div>"),
            StegoStrategy::DataAttribute => wrap("<div data-erdfa=\"", escape(data).as_str(), "\">"),
            StegoStrategy::Whitespace => encode_whitespace(data),
            StegoStrategy::ZeroWidth => encode_zero_width(data),
            StegoStrategy::Unicode => encode_unicode(data),
            StegoStrategy::MultiLayer => {
                let layer1 = escape(data);
                let layer2 = escape(layer1.as_str());
                wrap("<!-- ", layer2.as_str(), " -->")
            },
            StegoStrategy::QrCode => visual::encode_qr_code(data),
            _ => generate_visual_stego(data),
        }
    }

    fn decode(&self, encoded: &str, strategy: StegoStrategy) -> (r: Option<String>)
        ensures
            match r {
                Some(s) => stego_decode_spec(encoded@, strategy) == Some(s@),
                None => stego_decode_spec(encoded@, strategy) is None,
            },
    {
        match strategy {
            StegoStrategy::HtmlEscape => Some(unescape(encoded)),
            StegoStrategy::CommentEmbed => strip_and_unescape(encoded, "<!-- ", " -->", 0),
            StegoStrategy::HiddenDiv => strip_and_unescape(encoded, "<div style=\"display:none\">", "</div>", 1),
            StegoStrategy::DataAttribute => strip_and_unescape(encoded, "<div data-erdfa=\"", "\">", 1),
            StegoStrategy::Whitespace => decode_whitespace(encoded),
            StegoStrategy::ZeroWidth => decode_zero_width(encoded),
            StegoStrategy::Unicode => Some(decode_unicode(encoded)),
            StegoStrategy::MultiLayer => strip_and_unescape(encoded, "<!-- ", " -->", 2),
            StegoStrategy::QrCode => strip_and_unescape(encoded, "data:image/svg+xml,<svg><!-- ", " --></svg>", 0),
            _ => None,
        }
    }

    fn max_hostility(&self, strategy: StegoStrategy) -> (r: HostilityLevel)
        ensures
            r == max_hostility_spec(strategy),
    {
        match strategy {
            StegoStrategy::HtmlEscape => HostilityLevel::Aggressive,
            StegoStrategy::CommentEmbed => HostilityLevel::Aggressive,
            StegoStrategy::HiddenDiv => HostilityLevel::Restrictive,
            StegoStrategy::DataAttribute => HostilityLevel::Restrictive,
            StegoStrategy::Whitespace => HostilityLevel::Paranoid,
            StegoStrategy::ZeroWidth => HostilityLevel::MaximumHostile,
            StegoStrategy::Unicode => HostilityLevel::MaximumHostile,
            StegoStrategy::MultiLayer => HostilityLevel::MaximumHostile,
            _ => HostilityLevel::Cautious,
        }
    }
}

fn wrap(pre: &str, body: &str, suf: &str) -> (r: String)
    ensures
        r@ == pre@ + body@ + suf@,
{
    let mut out = String::from_str(pre);
    out.append(body);
    out.append(suf);
    out
}

} // verus!
