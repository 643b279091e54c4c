use vstd::prelude::*;
use vstd::string::StringExecFns;
use vstd::utf8::encode_utf8;
use crate::config::copy_string;
use crate::text::{
    chars_of, collapsed, has_prefix, has_substring, join_chars, join_with, split_words, string_of,
    str_contains, str_starts_with, words,
};

use crate::wiki_dom::{
    blocks_view, dom_blocks, html_dom, lemma_stratagems_depend_on_block_views, page_blocks, BlockView,
};

verus! {

/// The page the stratagem catalog is read from.
pub open spec fn wiki_page_url() -> Seq<char> {
    "https://helldivers.wiki.gg/wiki/Stratagems"@
}

/// The origin of the wiki's relative links.
pub open spec fn wiki_origin() -> Seq<char> {
    "https://helldivers.wiki.gg"@
}

/// The character of the standard base64 alphabet (`A-Z a-z 0-9 + /`) for
/// a six-bit value.
pub open spec fn base64_digit(n: int) -> char {
    if n < 26 {
        (65 + n) as char
    } else if n < 52 {
        (97 + n - 26) as char
    } else if n < 62 {
        (48 + n - 52) as char
    } else if n == 62 {
        '+'
    } else {
        '/'
    }
}

/// Standard base64 (RFC 4648, section 4): each group of three bytes gives
/// four characters, the six-bit pieces of its 24 bits from the high end; a
/// last group of one or two bytes is filled with zero bits and padded with
/// `=` to four characters.
pub open spec fn base64_standard(bytes: Seq<u8>) -> Seq<char>
    decreases bytes.len(),
{
    if bytes.len() == 0 {
        Seq::empty()
    } else if bytes.len() == 1 {
        let b0 = bytes[0] as int;
        seq![base64_digit(b0 / 4), base64_digit((b0 % 4) * 16), '=', '=']
    } else if bytes.len() == 2 {
        let b0 = bytes[0] as int;
        let b1 = bytes[1] as int;
        seq![base64_digit(b0 / 4), base64_digit((b0 % 4) * 16 + b1 / 16), base64_digit((b1 % 16) * 4), '=']
    } else {
        let b0 = bytes[0] as int;
        let b1 = bytes[1] as int;
        let b2 = bytes[2] as int;
        seq![
            base64_digit(b0 / 4),
            base64_digit((b0 % 4) * 16 + b1 / 16),
            base64_digit((b1 % 16) * 4 + b2 / 64),
            base64_digit(b2 % 64),
        ] + base64_standard(bytes.skip(3))
    }
}

/// Encodes bytes as base64 with the standard alphabet and padding.
///
/// Calls `base64::Engine::encode` on `base64::engine::general_purpose::STANDARD`,
/// the engine with the alphabet `A-Z a-z 0-9 + /` and `=` padding; the
/// contract states that encoding as `base64_standard`.
#[verifier::external_body]
fn encode_base64_standard(bytes: &[u8]) -> (r: String)
    ensures
        r@ == base64_standard(bytes@),
{
    base64::Engine::encode(&base64::engine::general_purpose::STANDARD, bytes)
}

/// The id of a stratagem: its command joined with commas, as UTF-8,
/// encoded as standard base64.
pub open spec fn stratagem_id(command: Seq<Seq<char>>) -> Seq<char> {
    base64_standard(encode_utf8(join_with(command, seq![','])))
}

/// The characters of each string.
pub fn strings_to_chars(v: &Vec<String>) -> (r: Vec<Vec<char>>)
    ensures
        r.deep_view() == v@.map_values(|s: String| s@),
{
    let mut out: Vec<Vec<char>> = Vec::new();
    let n = v.len();
    let mut i: usize = 0;
    while i < n
        invariant
            n == v@.len(),
            i <= n,
            out.deep_view() == v@.take(i as int).map_values(|s: String| s@),
        decreases n - i,
    {
        crate::text::push_word(&mut out, chars_of(v[i].as_str()));
        assert(v@.take(i as int + 1).map_values(|s: String| s@) =~= v@.take(i as int).map_values(
            |s: String| s@,
        ).push(v@[i as int]@));
        i += 1;
    }
    assert(v@.take(n as int) == v@);
    out
}

/// The id of a stratagem with the command `command`.
pub fn compute_stratagem_id(command: &Vec<String>) -> (r: String)
    ensures
        r@ == stratagem_id(command@.map_values(|s: String| s@)),
{
    let parts = strings_to_chars(command);
    let comma = vec![','];
    assert(comma@ == seq![',']);
    let joined = string_of(&join_chars(&parts, &comma));
    let bytes = joined.as_str().as_bytes();
    encode_base64_standard(bytes)
}

/// Whether a page is the anti-bot challenge instead of the wiki content.
pub open spec fn is_challenge_page(html: Seq<char>) -> bool {
    ||| has_substring(html, "__cf_chl"@)
    ||| has_substring(html, "Just a moment..."@)
    ||| has_substring(html, "challenge-platform"@)
    ||| has_substring(html, "Enable JavaScript and cookies to continue"@)
}

/// Whether a page is the anti-bot challenge instead of the wiki content.
pub fn looks_like_cloudflare_challenge(html: &str) -> (r: bool)
    ensures
        r == is_challenge_page(html@),
{
    str_contains(html, "__cf_chl") || str_contains(html, "Just a moment...") || str_contains(
        html,
        "challenge-platform",
    ) || str_contains(html, "Enable JavaScript and cookies to continue")
}

/// Whether the page fetched directly can be parsed: it is no challenge and
/// holds the wiki content.
pub fn page_is_usable(html: &str) -> (r: bool)
    ensures
        r == (!is_challenge_page(html@) && has_substring(html@, "mw-parser-output"@)),
{
    !looks_like_cloudflare_challenge(html) && str_contains(html, "mw-parser-output")
}

/// A character lowercased when it is an ASCII capital.
pub open spec fn ascii_lower_char(c: char) -> char {
    if 'A' <= c <= 'Z' {
        ((c as u32) + 32) as char
    } else {
        c
    }
}

/// A character capitalized when it is an ASCII small letter.
pub open spec fn ascii_upper_char(c: char) -> char {
    if 'a' <= c <= 'z' {
        ((c as u32) - 32) as char
    } else {
        c
    }
}

/// A text with its ASCII capitals lowercased.
pub open spec fn ascii_lower(s: Seq<char>) -> Seq<char> {
    s.map_values(|c: char| ascii_lower_char(c))
}

/// A text with its ASCII small letters capitalized.
pub open spec fn ascii_upper(s: Seq<char>) -> Seq<char> {
    s.map_values(|c: char| ascii_upper_char(c))
}

fn lower_char(c: char) -> (r: char)
    ensures
        r == ascii_lower_char(c),
{
    if 'A' <= c && c <= 'Z' {
        let b = ((c as u32) + 32) as u8;
        b as char
    } else {
        c
    }
}

fn upper_char(c: char) -> (r: char)
    ensures
        r == ascii_upper_char(c),
{
    if 'a' <= c && c <= 'z' {
        let b = ((c as u32) - 32) as u8;
        b as char
    } else {
        c
    }
}

/// A text with its ASCII capitals lowercased.
pub fn to_ascii_lower(s: &str) -> (r: String)
    ensures
        r@ == ascii_lower(s@),
{
    let chars = chars_of(s);
    let mut out: Vec<char> = Vec::new();
    let n = chars.len();
    let mut i: usize = 0;
    while i < n
        invariant
            n == chars@.len(),
            i <= n,
            out@ == chars@.take(i as int).map_values(|c: char| ascii_lower_char(c)),
        decreases n - i,
    {
        out.push(lower_char(chars[i]));
        assert(out@ =~= chars@.take(i as int + 1).map_values(|c: char| ascii_lower_char(c)));
        i += 1;
    }
    assert(chars@.take(n as int) == chars@);
    string_of(&out)
}

/// A text with its ASCII small letters capitalized.
pub fn to_ascii_upper(s: &Vec<char>) -> (r: Vec<char>)
    ensures
        r@ == ascii_upper(s@),
{
    let mut out: Vec<char> = Vec::new();
    let n = s.len();
    let mut i: usize = 0;
    while i < n
        invariant
            n == s@.len(),
            i <= n,
            out@ == s@.take(i as int).map_values(|c: char| ascii_upper_char(c)),
        decreases n - i,
    {
        out.push(upper_char(s[i]));
        assert(out@ =~= s@.take(i as int + 1).map_values(|c: char| ascii_upper_char(c)));
        i += 1;
    }
    assert(s@.take(n as int) == s@);
    out
}

/// The direction an arrow image's alternative text names.
pub open spec fn direction_of_alt(alt: Seq<char>) -> Option<Seq<char>> {
    let l = ascii_lower(alt);
    if has_substring(l, "arrow up"@) {
        Some("UP"@)
    } else if has_substring(l, "arrow down"@) {
        Some("DOWN"@)
    } else if has_substring(l, "arrow left"@) {
        Some("LEFT"@)
    } else if has_substring(l, "arrow right"@) {
        Some("RIGHT"@)
    } else {
        None
    }
}

/// The direction an arrow image's alternative text names.
pub fn direction_from_alt(alt: &str) -> (r: Option<&'static str>)
    ensures
        match r {
            Some(d) => direction_of_alt(alt@) == Some(d@),
            None => direction_of_alt(alt@) is None,
        },
{
    let normalized = to_ascii_lower(alt);
    let n = normalized.as_str();
    if str_contains(n, "arrow up") {
        Some("UP")
    } else if str_contains(n, "arrow down") {
        Some("DOWN")
    } else if str_contains(n, "arrow left") {
        Some("LEFT")
    } else if str_contains(n, "arrow right") {
        Some("RIGHT")
    } else {
        None
    }
}

/// A path without any number of leading `./`.
pub open spec fn strip_dot_slash(s: Seq<char>) -> Seq<char>
    decreases s.len(),
{
    if has_prefix(s, "./"@) && s.len() >= 2 {
        strip_dot_slash(s.skip(2))
    } else {
        s
    }
}

/// The absolute address of a link on the wiki: kept when absolute, given
/// the scheme when protocol-relative, else resolved against the origin.
pub open spec fn wiki_url(path: Seq<char>) -> Seq<char> {
    if has_prefix(path, "http://"@) || has_prefix(path, "https://"@) {
        path
    } else if has_prefix(path, "//"@) {
        "https:"@ + path
    } else if has_prefix(path, "/"@) {
        wiki_origin() + path
    } else {
        wiki_origin() + "/"@ + strip_dot_slash(path)
    }
}

/// The absolute address of a link on the wiki.
pub fn resolve_wiki_url(path: &str) -> (r: String)
    ensures
        r@ == wiki_url(path@),
{
    if str_starts_with(path, "http://") || str_starts_with(path, "https://") {
        String::from_str(path)
    } else if str_starts_with(path, "//") {
        String::from_str("https:").concat(path)
    } else if str_starts_with(path, "/") {
        String::from_str("https://helldivers.wiki.gg").concat(path)
    } else {
        let chars = chars_of(path);
        let mut start: usize = 0;
        assert(path@.skip(0) == path@);
        while chars.len() - start >= 2 && chars[start] == '.' && chars[start + 1] == '/'
            invariant
                chars@ == path@,
                start <= chars@.len(),
                strip_dot_slash(path@) == strip_dot_slash(path@.skip(start as int)),
            decreases chars@.len() - start,
        {
            proof {
                reveal_strlit("./");
                let rest = path@.skip(start as int);
                assert(rest.take(2) =~= "./"@);
                assert(rest.skip(2) =~= path@.skip(start + 2));
            }
            start += 2;
        }
        proof {
            reveal_strlit("./");
            let rest = path@.skip(start as int);
            if has_prefix(rest, "./"@) && rest.len() >= 2 {
                assert(rest.take(2)[0] == rest[0]);
                assert(rest.take(2)[1] == rest[1]);
                assert(rest[0] == '.' && rest[1] == '/');
                assert(chars@[start as int] == rest[0]);
                assert(chars@[start + 1] == rest[1]);
            }
        }
        let end = chars.len();
        let tail = crate::text::slice_chars(&chars, start, end);
        assert(tail@ == path@.skip(start as int));
        proof {
            reveal_strlit("https://helldivers.wiki.gg/");
            reveal_strlit("https://helldivers.wiki.gg");
            reveal_strlit("/");
            assert("https://helldivers.wiki.gg/"@ =~= wiki_origin() + "/"@);
        }
        String::from_str("https://helldivers.wiki.gg/").concat(string_of(&tail).as_str())
    }
}

/// Text pieces joined with spaces, white space collapsed.
pub open spec fn text_of(parts: Seq<Seq<char>>) -> Seq<char> {
    collapsed(join_with(parts, seq![' ']))
}

/// Text pieces joined with spaces, white space collapsed.
pub fn normalize_text(parts: &Vec<String>) -> (r: String)
    ensures
        r@ == text_of(parts@.map_values(|s: String| s@)),
{
    let chars = strings_to_chars(parts);
    let space = vec![' '];
    assert(space@ == seq![' ']);
    let joined = string_of(&join_chars(&chars, &space));
    crate::text::collapse_whitespace_chars(joined.as_str())
}

/// A text with runs of white space collapsed to single spaces.
pub fn normalize_whitespace(value: &str) -> (r: String)
    ensures
        r@ == collapsed(value@),
{
    crate::text::collapse_whitespace_chars(value)
}


/// The characters of each string of a list.
pub open spec fn texts(v: Vec<String>) -> Seq<Seq<char>> {
    v@.map_values(|s: String| s@)
}

/// A stratagem of the catalog.
#[derive(Debug)]
pub struct Stratagem {
    /// The base64 id derived from the command.
    pub id: String,
    pub section: String,
    pub category: String,
    pub name: String,
    pub icon_url: String,
    /// The direction keys, as `UP`, `DOWN`, `LEFT` and `RIGHT`.
    pub command: Vec<String>,
}

/// The fields of a stratagem as plain values.
pub struct StratagemModel {
    pub id: Seq<char>,
    pub section: Seq<char>,
    pub category: Seq<char>,
    pub name: Seq<char>,
    pub icon_url: Seq<char>,
    pub command: Seq<Seq<char>>,
}

impl View for Stratagem {
    type V = StratagemModel;

    open spec fn view(&self) -> StratagemModel {
        StratagemModel {
            id: self.id@,
            section: self.section@,
            category: self.category@,
            name: self.name@,
            icon_url: self.icon_url@,
            command: texts(self.command),
        }
    }
}

/// The stratagems, with their cache time and source.
#[derive(Debug)]
pub struct StratagemCatalog {
    /// When the catalog was fetched, in seconds since the Unix epoch.
    pub updated_at_unix: Option<u64>,
    pub source_url: String,
    pub items: Vec<Stratagem>,
}

impl Default for StratagemCatalog {
    fn default() -> (r: Self)
        ensures
            r.updated_at_unix is None,
            r.source_url@ == wiki_page_url(),
            r.items@.len() == 0,
    {
        StratagemCatalog {
            updated_at_unix: None,
            source_url: String::from_str("https://helldivers.wiki.gg/wiki/Stratagems"),
            items: Vec::new(),
        }
    }
}

/// An image in a table cell: the attributes its address may come from.
#[derive(Debug)]
pub struct WikiImage {
    pub src: Option<String>,
    pub data_src: Option<String>,
    pub srcset: Option<String>,
}

/// A header or data cell of a table row, reduced to what the catalog reads.
#[derive(Debug)]
pub struct WikiCell {
    /// The text pieces of the cell.
    pub text: Vec<String>,
    /// The text pieces of the first link in the cell, when there is one.
    pub link_text: Option<Vec<String>>,
    /// The first image in the cell, when there is one.
    pub image: Option<WikiImage>,
    /// The alternative texts of the images in the cell that have one.
    pub image_alts: Vec<String>,
}

/// A direct child of the wiki's content.
#[derive(Debug)]
pub enum WikiBlock {
    /// A level-two heading: the text of its headline span, when it has
    /// one, and its own text.
    SectionHeading { headline: Option<Vec<String>>, text: Vec<String> },
    /// A level-three heading.
    CategoryHeading { headline: Option<Vec<String>>, text: Vec<String> },
    /// A table: whether it has the `wikitable` class, and the cells of its rows.
    Table { wikitable: bool, rows: Vec<Vec<WikiCell>> },
    /// Anything else.
    Other,
}

/// The text of a heading: that of its headline when it has one.
pub open spec fn heading_text_of(headline: Option<Vec<String>>, text: Vec<String>) -> Seq<char> {
    match headline {
        Some(h) => text_of(texts(h)),
        None => text_of(texts(text)),
    }
}

/// The text of a heading.
pub fn heading_text(headline: &Option<Vec<String>>, text: &Vec<String>) -> (r: String)
    ensures
        r@ == heading_text_of(*headline, *text),
{
    match headline {
        Some(h) => normalize_text(h),
        None => normalize_text(text),
    }
}

/// The name in a cell: the text of its link when that is not empty, else
/// the text of the cell.
pub open spec fn name_of(cell: WikiCell) -> Seq<char> {
    match cell.link_text {
        Some(l) => if text_of(texts(l)).len() > 0 {
            text_of(texts(l))
        } else {
            text_of(texts(cell.text))
        },
        None => text_of(texts(cell.text)),
    }
}

/// The name in a cell.
pub fn extract_name(cell: &WikiCell) -> (r: String)
    ensures
        r@ == name_of(*cell),
{
    match &cell.link_text {
        Some(l) => {
            let t = normalize_text(l);
            if t.as_str().is_empty() {
                normalize_text(&cell.text)
            } else {
                t
            }
        },
        None => normalize_text(&cell.text),
    }
}

/// The characters of `s` before the first `c`, or all of them.
pub open spec fn prefix_before(s: Seq<char>, c: char) -> Seq<char>
    decreases s.len(),
{
    if s.len() == 0 {
        s
    } else if s[0] == c {
        Seq::empty()
    } else {
        seq![s[0]] + prefix_before(s.drop_first(), c)
    }
}

/// The first address of a `srcset`: the first word of its first entry.
pub open spec fn first_srcset_address(srcset: Seq<char>) -> Option<Seq<char>> {
    let ws = words(prefix_before(srcset, ','));
    if ws.len() > 0 {
        Some(ws[0])
    } else {
        None
    }
}

/// The raw address of an image: `src`, else `data-src`, else the first
/// address of `srcset`.
pub open spec fn raw_image_address(img: WikiImage) -> Option<Seq<char>> {
    match img.src {
        Some(s) => Some(s@),
        None => match img.data_src {
            Some(s) => Some(s@),
            None => match img.srcset {
                Some(s) => first_srcset_address(s@),
                None => None,
            },
        },
    }
}

/// The absolute address of the first image of a cell.
pub open spec fn image_url_of(cell: WikiCell) -> Option<Seq<char>> {
    match cell.image {
        Some(img) => match raw_image_address(img) {
            Some(raw) => Some(wiki_url(raw)),
            None => None,
        },
        None => None,
    }
}

fn chars_before(s: &Vec<char>, c: char) -> (r: Vec<char>)
    ensures
        r@ == prefix_before(s@, c),
{
    let mut out: Vec<char> = Vec::new();
    let n = s.len();
    let mut i: usize = 0;
    assert(s@.skip(0) == s@);
    while i < n
        invariant
            n == s@.len(),
            i <= n,
            forall|k: int| 0 <= k < i ==> s@[k] != c,
            out@ == s@.take(i as int),
            prefix_before(s@, c) == out@ + prefix_before(s@.skip(i as int), c),
        decreases n - i,
    {
        let ghost rest = s@.skip(i as int);
        assert(rest[0] == s@[i as int]);
        assert(rest.drop_first() == s@.skip(i as int + 1));
        if s[i] == c {
            assert(prefix_before(rest, c) == Seq::<char>::empty());
            assert(out@ + Seq::<char>::empty() == out@);
            return out;
        }
        assert(prefix_before(rest, c) == seq![s@[i as int]] + prefix_before(
            s@.skip(i as int + 1),
            c,
        ));
        out.push(s[i]);
        assert(out@ == s@.take(i as int + 1));
        assert(out@ =~= s@.take(i as int) + seq![s@[i as int]]);
        i += 1;
    }
    assert(s@.skip(n as int).len() == 0);
    assert(out@ + s@.skip(n as int) =~= out@);
    out
}

/// The address of the first image of a cell, made absolute.
pub fn extract_image_url(cell: &WikiCell) -> (r: Option<String>)
    ensures
        text_view_of(r) == image_url_of(*cell),
{
    let img = match &cell.image {
        Some(img) => img,
        None => return None,
    };
    let raw = match &img.src {
        Some(s) => copy_string(s),
        None => match &img.data_src {
            Some(s) => copy_string(s),
            None => match &img.srcset {
                Some(set) => {
                    let chars = chars_of(set.as_str());
                    let first = chars_before(&chars, ',');
                    let ws = split_words(&first);
                    if ws.len() == 0 {
                        return None;
                    }
                    assert(ws.deep_view()[0] == ws@[0]@);
                    string_of(&ws[0])
                },
                None => return None,
            },
        },
    };
    Some(resolve_wiki_url(raw.as_str()))
}

/// The views of an optional string.
pub open spec fn text_view_of(o: Option<String>) -> Option<Seq<char>> {
    match o {
        Some(s) => Some(s@),
        None => None,
    }
}


/// The directions named by arrow images' alternative texts, in order.
pub open spec fn alt_directions(alts: Seq<Seq<char>>) -> Seq<Seq<char>>
    decreases alts.len(),
{
    if alts.len() == 0 {
        Seq::empty()
    } else {
        let rest = alt_directions(alts.drop_last());
        match direction_of_alt(alts.last()) {
            Some(d) => rest.push(d),
            None => rest,
        }
    }
}

/// The text an arrow character stands for, padded with spaces.
pub open spec fn arrow_text(c: char) -> Seq<char> {
    if c == '↑' {
        " UP "@
    } else if c == '↓' {
        " DOWN "@
    } else if c == '←' {
        " LEFT "@
    } else if c == '→' {
        " RIGHT "@
    } else {
        seq![c]
    }
}

/// A text with each arrow character spelled out.
pub open spec fn expand_arrows(s: Seq<char>) -> Seq<char>
    decreases s.len(),
{
    if s.len() == 0 {
        Seq::empty()
    } else {
        expand_arrows(s.drop_last()) + arrow_text(s.last())
    }
}

/// The direction a word names, ignoring ASCII case.
pub open spec fn token_direction(t: Seq<char>) -> Option<Seq<char>> {
    let u = ascii_upper(t);
    if u == "UP"@ {
        Some("UP"@)
    } else if u == "DOWN"@ {
        Some("DOWN"@)
    } else if u == "LEFT"@ {
        Some("LEFT"@)
    } else if u == "RIGHT"@ {
        Some("RIGHT"@)
    } else {
        None
    }
}

/// The directions named by a sequence of words, other words skipped.
pub open spec fn token_directions(tokens: Seq<Seq<char>>) -> Seq<Seq<char>>
    decreases tokens.len(),
{
    if tokens.len() == 0 {
        Seq::empty()
    } else {
        let rest = token_directions(tokens.drop_last());
        match token_direction(tokens.last()) {
            Some(d) => rest.push(d),
            None => rest,
        }
    }
}

/// The command in a cell: the directions of its arrow images, or when
/// there are none, the directions its text spells with arrows or words.
pub open spec fn command_of(cell: WikiCell) -> Seq<Seq<char>> {
    let from_images = alt_directions(texts(cell.image_alts));
    if from_images.len() > 0 {
        from_images
    } else {
        token_directions(words(expand_arrows(text_of(texts(cell.text)))))
    }
}

fn arrow_chars(c: char) -> (r: Vec<char>)
    ensures
        r@ == arrow_text(c),
{
    proof {
        reveal_strlit(" UP ");
        reveal_strlit(" DOWN ");
        reveal_strlit(" LEFT ");
        reveal_strlit(" RIGHT ");
    }
    if c == '↑' {
        vec![' ', 'U', 'P', ' ']
    } else if c == '↓' {
        vec![' ', 'D', 'O', 'W', 'N', ' ']
    } else if c == '←' {
        vec![' ', 'L', 'E', 'F', 'T', ' ']
    } else if c == '→' {
        vec![' ', 'R', 'I', 'G', 'H', 'T', ' ']
    } else {
        vec![c]
    }
}

fn spell_arrows(s: &Vec<char>) -> (r: Vec<char>)
    ensures
        r@ == expand_arrows(s@),
{
    let mut out: Vec<char> = Vec::new();
    let n = s.len();
    let mut i: usize = 0;
    while i < n
        invariant
            n == s@.len(),
            i <= n,
            out@ == expand_arrows(s@.take(i as int)),
        decreases n - i,
    {
        assert(s@.take(i as int + 1).drop_last() == s@.take(i as int));
        let a = arrow_chars(s[i]);
        crate::text::append_chars(&mut out, &a);
        i += 1;
    }
    assert(s@.take(n as int) == s@);
    out
}

fn direction_word(t: &Vec<char>) -> (r: Option<String>)
    ensures
        text_view_of(r) == token_direction(t@),
{
    let u = string_of(&to_ascii_upper(t));
    if crate::toml_tree::str_eq(u.as_str(), "UP") {
        Some(String::from_str("UP"))
    } else if crate::toml_tree::str_eq(u.as_str(), "DOWN") {
        Some(String::from_str("DOWN"))
    } else if crate::toml_tree::str_eq(u.as_str(), "LEFT") {
        Some(String::from_str("LEFT"))
    } else if crate::toml_tree::str_eq(u.as_str(), "RIGHT") {
        Some(String::from_str("RIGHT"))
    } else {
        None
    }
}

/// Pushes a text onto a list of texts.
fn push_text(out: &mut Vec<String>, t: String)
    ensures
        texts(*final(out)) == texts(*old(out)).push(t@),
{
    let ghost before = texts(*out);
    out.push(t);
    assert(texts(*out) =~= before.push(t@));
}

/// The direction an arrow character names.
pub open spec fn arrow_direction(c: char) -> Seq<char> {
    if c == '↑' {
        "UP"@
    } else if c == '↓' {
        "DOWN"@
    } else if c == '←' {
        "LEFT"@
    } else {
        "RIGHT"@
    }
}

/// Whether `c` is one of the four arrow characters.
pub open spec fn is_arrow_char(c: char) -> bool {
    c == '↑' || c == '↓' || c == '←' || c == '→'
}

/// One step of reading words: the state after the character `c`.
spec fn words_step(st: (Seq<Seq<char>>, Seq<char>), c: char) -> (Seq<Seq<char>>, Seq<char>) {
    if crate::text::is_white_space(c) {
        (crate::text::flush(st.0, st.1), Seq::empty())
    } else {
        (st.0, st.1.push(c))
    }
}

/// The state after reading `b` from the state `st`.
spec fn scan_words_from(st: (Seq<Seq<char>>, Seq<char>), b: Seq<char>) -> (Seq<Seq<char>>, Seq<char>)
    decreases b.len(),
{
    if b.len() == 0 {
        st
    } else {
        words_step(scan_words_from(st, b.drop_last()), b.last())
    }
}

proof fn lemma_scan_words_from_concat(st: (Seq<Seq<char>>, Seq<char>), x: Seq<char>, y: Seq<char>)
    ensures
        scan_words_from(st, x + y) == scan_words_from(scan_words_from(st, x), y),
    decreases y.len(),
{
    if y.len() == 0 {
        assert(x + y =~= x);
    } else {
        assert((x + y).drop_last() =~= x + y.drop_last());
        assert((x + y).last() == y.last());
        lemma_scan_words_from_concat(st, x, y.drop_last());
    }
}

proof fn lemma_scan_words_is_from_start(s: Seq<char>)
    ensures
        crate::text::scan_words(s) == scan_words_from((Seq::empty(), Seq::empty()), s),
    decreases s.len(),
{
    if s.len() > 0 {
        lemma_scan_words_is_from_start(s.drop_last());
    }
}

proof fn lemma_scan_word(d: Seq<Seq<char>>, c: Seq<char>, w: Seq<char>)
    requires
        forall|i: int| 0 <= i < w.len() ==> !crate::text::is_white_space(#[trigger] w[i]),
    ensures
        scan_words_from((d, c), w) == (d, c + w),
    decreases w.len(),
{
    if w.len() > 0 {
        lemma_scan_word(d, c, w.drop_last());
        assert(!crate::text::is_white_space(w[w.len() - 1]));
        assert((c + w.drop_last()).push(w.last()) =~= c + w);
    } else {
        assert(c + w =~= c);
    }
}

/// Reading a word between two spaces, from a state with no word under way,
/// adds that word.
proof fn lemma_scan_spaced_word(d: Seq<Seq<char>>, w: Seq<char>)
    requires
        w.len() > 0,
        forall|i: int| 0 <= i < w.len() ==> !crate::text::is_white_space(#[trigger] w[i]),
    ensures
        scan_words_from((d, Seq::empty()), seq![' '] + w + seq![' ']) == (d.push(w), Seq::<char>::empty()),
{
    let e = Seq::<char>::empty();
    let sp: Seq<char> = seq![' '];
    assert(crate::text::is_white_space(' '));
    lemma_scan_words_from_concat((d, e), sp + w, sp);
    lemma_scan_words_from_concat((d, e), sp, w);
    assert(sp.drop_last() =~= e);
    assert(sp.last() == ' ');
    assert(scan_words_from((d, e), sp.drop_last()) == (d, e));
    assert(scan_words_from((d, e), sp) == (d, e));
    lemma_scan_word(d, e, w);
    assert(e + w =~= w);
    assert(scan_words_from((d, w), sp.drop_last()) == (d, w));
    assert(scan_words_from((d, w), sp) == (d.push(w), e));
}

proof fn lemma_direction_spelled(c: char)
    requires
        is_arrow_char(c),
    ensures
        arrow_text(c) == seq![' '] + arrow_direction(c) + seq![' '],
        arrow_direction(c).len() > 0,
        forall|i: int|
            0 <= i < arrow_direction(c).len() ==> !crate::text::is_white_space(#[trigger] arrow_direction(c)[i]),
        token_direction(arrow_direction(c)) == Some(arrow_direction(c)),
{
    reveal_strlit(" UP ");
    reveal_strlit(" DOWN ");
    reveal_strlit(" LEFT ");
    reveal_strlit(" RIGHT ");
    reveal_strlit("UP");
    reveal_strlit("DOWN");
    reveal_strlit("LEFT");
    reveal_strlit("RIGHT");
    let d = arrow_direction(c);
    assert(arrow_text(c) =~= seq![' '] + d + seq![' ']);
    assert(ascii_upper(d) =~= d);
}

/// The words of arrow characters spelled out are their directions.
proof fn lemma_arrow_words(s: Seq<char>)
    requires
        forall|i: int| 0 <= i < s.len() ==> is_arrow_char(#[trigger] s[i]),
    ensures
        crate::text::scan_words(expand_arrows(s)) == (
            s.map_values(|c: char| arrow_direction(c)),
            Seq::<char>::empty(),
        ),
    decreases s.len(),
{
    let e = Seq::<char>::empty();
    if s.len() == 0 {
        assert(s.map_values(|c: char| arrow_direction(c)) =~= Seq::<Seq<char>>::empty());
    } else {
        let init = s.drop_last();
        assert forall|i: int| 0 <= i < init.len() implies is_arrow_char(#[trigger] init[i]) by {
            assert(init[i] == s[i]);
        }
        lemma_arrow_words(init);
        let c = s.last();
        assert(is_arrow_char(s[s.len() - 1]));
        lemma_direction_spelled(c);
        let x = expand_arrows(init);
        lemma_scan_words_is_from_start(x + arrow_text(c));
        lemma_scan_words_is_from_start(x);
        lemma_scan_words_from_concat((Seq::empty(), e), x, arrow_text(c));
        let prev = init.map_values(|c: char| arrow_direction(c));
        lemma_scan_spaced_word(prev, arrow_direction(c));
        assert(seq![' '] + arrow_direction(c) + seq![' '] == arrow_text(c));
        assert(prev.push(arrow_direction(c)) =~= s.map_values(|c: char| arrow_direction(c)));
    }
}

proof fn lemma_directions_read_back(ds: Seq<Seq<char>>, s: Seq<char>)
    requires
        forall|i: int| 0 <= i < s.len() ==> is_arrow_char(#[trigger] s[i]),
        ds == s.map_values(|c: char| arrow_direction(c)),
    ensures
        token_directions(ds) == ds,
    decreases s.len(),
{
    if s.len() > 0 {
        let init = s.drop_last();
        assert forall|i: int| 0 <= i < init.len() implies is_arrow_char(#[trigger] init[i]) by {
            assert(init[i] == s[i]);
        }
        assert(ds.drop_last() =~= init.map_values(|c: char| arrow_direction(c)));
        lemma_directions_read_back(ds.drop_last(), init);
        assert(is_arrow_char(s[s.len() - 1]));
        lemma_direction_spelled(s.last());
        assert(ds.last() == arrow_direction(s.last()));
        assert(ds.drop_last().push(ds.last()) =~= ds);
    }
}

/// A stratagem code written as arrow characters is read arrow by arrow:
/// for a cell whose text is a run of the characters ↑ ↓ ← → and whose
/// images name no direction, the command has one direction per character,
/// in order: UP, DOWN, LEFT or RIGHT for ↑, ↓, ← or →.
pub proof fn lemma_arrow_code_read_in_order(cell: WikiCell, s: Seq<char>)
    requires
        texts(cell.text) == seq![s],
        alt_directions(texts(cell.image_alts)).len() == 0,
        forall|i: int| 0 <= i < s.len() ==> is_arrow_char(#[trigger] s[i]),
    ensures
        command_of(cell).len() == s.len(),
        forall|i: int|
            0 <= i < s.len() ==> #[trigger] command_of(cell)[i] == if s[i] == '↑' {
                "UP"@
            } else if s[i] == '↓' {
                "DOWN"@
            } else if s[i] == '←' {
                "LEFT"@
            } else {
                "RIGHT"@
            },
{
    let e = Seq::<char>::empty();
    assert(join_with(seq![s], seq![' ']) == s);
    assert forall|i: int| 0 <= i < s.len() implies !crate::text::is_white_space(#[trigger] s[i]) by {
        assert(is_arrow_char(s[i]));
    }
    if s.len() > 0 {
        lemma_scan_words_is_from_start(s);
        lemma_scan_word(Seq::empty(), e, s);
        assert(e + s =~= s);
        assert(words(s) =~= seq![s]);
        assert(collapsed(s) == s);
    } else {
        assert(s =~= e);
        assert(words(e) =~= Seq::<Seq<char>>::empty());
        assert(collapsed(s) == s);
    }
    assert(text_of(texts(cell.text)) == s);
    lemma_arrow_words(s);
    let ds = s.map_values(|c: char| arrow_direction(c));
    assert(words(expand_arrows(s)) == ds);
    lemma_directions_read_back(ds, s);
    assert(command_of(cell) == ds);
}

/// The command in a cell.
pub fn extract_command(cell: &WikiCell) -> (r: Vec<String>)
    ensures
        texts(r) == command_of(*cell),
{
    let ghost alts = texts(cell.image_alts);
    let mut command: Vec<String> = Vec::new();
    let n = cell.image_alts.len();
    let mut i: usize = 0;
    while i < n
        invariant
            n == cell.image_alts@.len(),
            i <= n,
            alts == texts(cell.image_alts),
            texts(command) == alt_directions(alts.take(i as int)),
        decreases n - i,
    {
        assert(alts.take(i as int + 1).drop_last() == alts.take(i as int));
        assert(alts.take(i as int + 1).last() == cell.image_alts@[i as int]@);
        match direction_from_alt(cell.image_alts[i].as_str()) {
            Some(d) => push_text(&mut command, String::from_str(d)),
            None => {},
        }
        i += 1;
    }
    assert(alts.take(n as int) == alts);
    if command.len() > 0 {
        return command;
    }
    let normalized = normalize_text(&cell.text);
    let spelled = spell_arrows(&chars_of(normalized.as_str()));
    let tokens = split_words(&spelled);
    let ghost tv = tokens.deep_view();
    let m = tokens.len();
    let mut j: usize = 0;
    while j < m
        invariant
            m == tokens@.len(),
            tv == tokens.deep_view(),
            j <= m,
            texts(command) == token_directions(tv.take(j as int)),
        decreases m - j,
    {
        assert(tv.take(j as int + 1).drop_last() == tv.take(j as int));
        assert(tv.take(j as int + 1).last() == tokens@[j as int]@);
        match direction_word(&tokens[j]) {
            Some(d) => push_text(&mut command, d),
            None => {},
        }
        j += 1;
    }
    assert(tv.take(m as int) == tv);
    command
}


/// Whether a header cell names the column `name`, ignoring ASCII case.
pub open spec fn names_column(cell: WikiCell, name: Seq<char>) -> bool {
    ascii_lower(text_of(texts(cell.text))) == ascii_lower(name)
}

/// The position of the first header cell naming the column `name`.
pub open spec fn column_index(header: Seq<WikiCell>, name: Seq<char>) -> Option<nat>
    decreases header.len(),
{
    if header.len() == 0 {
        None
    } else if names_column(header[0], name) {
        Some(0)
    } else {
        match column_index(header.drop_first(), name) {
            Some(i) => Some(i + 1),
            None => None,
        }
    }
}

/// The position of the first header cell naming the column `header_name`.
pub fn find_column_index(cells: &Vec<WikiCell>, header_name: &str) -> (r: Option<usize>)
    ensures
        match r {
            Some(i) => column_index(cells@, header_name@) == Some(i as nat),
            None => column_index(cells@, header_name@) is None,
        },
{
    let wanted = to_ascii_lower(header_name);
    let n = cells.len();
    let mut i: usize = 0;
    assert(cells@.skip(0) == cells@);
    while i < n
        invariant
            n == cells@.len(),
            i <= n,
            wanted@ == ascii_lower(header_name@),
            column_index(cells@, header_name@) == match column_index(cells@.skip(i as int), header_name@) {
                Some(k) => Some((k + i) as nat),
                None => None,
            },
        decreases n - i,
    {
        let ghost rest = cells@.skip(i as int);
        assert(rest[0] == cells@[i as int]);
        assert(rest.drop_first() == cells@.skip(i as int + 1));
        let text = normalize_text(&cells[i].text);
        let lowered = to_ascii_lower(text.as_str());
        if crate::toml_tree::str_eq(lowered.as_str(), wanted.as_str()) {
            return Some(i);
        }
        i += 1;
    }
    None
}

/// The stratagem a table row describes, when its name and command cells
/// exist and are not empty; a missing category is the section.
pub open spec fn row_item(
    cells: Seq<WikiCell>,
    icon: nat,
    name: nat,
    command: nat,
    section: Seq<char>,
    category: Seq<char>,
) -> Option<StratagemModel> {
    let required = if icon >= name && icon >= command {
        icon
    } else if name >= command {
        name
    } else {
        command
    };
    if cells.len() <= required {
        None
    } else {
        let n = name_of(cells[name as int]);
        let c = command_of(cells[command as int]);
        if n.len() == 0 || c.len() == 0 {
            None
        } else {
            Some(
                StratagemModel {
                    id: Seq::empty(),
                    section,
                    category: if category.len() == 0 {
                        section
                    } else {
                        category
                    },
                    name: n,
                    icon_url: match image_url_of(cells[icon as int]) {
                        Some(u) => u,
                        None => Seq::empty(),
                    },
                    command: c,
                },
            )
        }
    }
}

/// The stratagems of the body rows of a table, in order.
pub open spec fn rows_items(
    rows: Seq<Vec<WikiCell>>,
    icon: nat,
    name: nat,
    command: nat,
    section: Seq<char>,
    category: Seq<char>,
) -> Seq<StratagemModel>
    decreases rows.len(),
{
    if rows.len() == 0 {
        Seq::empty()
    } else {
        let rest = rows_items(rows.drop_last(), icon, name, command, section, category);
        match row_item(rows.last()@, icon, name, command, section, category) {
            Some(item) => rest.push(item),
            None => rest,
        }
    }
}

/// The stratagems of a table: its first row names the columns (icon, name
/// and code, at positions 0, 1 and 2 when not named), each other row is
/// read as a stratagem.
pub open spec fn table_items(rows: Seq<Vec<WikiCell>>, section: Seq<char>, category: Seq<char>) -> Seq<
    StratagemModel,
> {
    if rows.len() == 0 {
        Seq::empty()
    } else {
        let header = rows[0]@;
        let icon = match column_index(header, "Icon"@) {
            Some(i) => i,
            None => 0,
        };
        let name = match column_index(header, "Name"@) {
            Some(i) => i,
            None => 1,
        };
        let command = match column_index(header, "Stratagem Code"@) {
            Some(i) => i,
            None => 2,
        };
        rows_items(rows.drop_first(), icon, name, command, section, category)
    }
}

/// The plain values of a list of stratagems.
pub open spec fn items_view(v: Vec<Stratagem>) -> Seq<StratagemModel> {
    v@.map_values(|s: Stratagem| s@)
}

fn push_item(out: &mut Vec<Stratagem>, item: Stratagem)
    ensures
        items_view(*final(out)) == items_view(*old(out)).push(item@),
{
    let ghost before = items_view(*out);
    out.push(item);
    assert(items_view(*out) =~= before.push(item@));
}

/// The stratagems of a table.
pub fn parse_stratagem_table(rows: &Vec<Vec<WikiCell>>, section: &str, category: &str) -> (r: Vec<
    Stratagem,
>)
    ensures
        items_view(r) == table_items(rows@, section@, category@),
{
    let mut items: Vec<Stratagem> = Vec::new();
    if rows.len() == 0 {
        return items;
    }
    let header = &rows[0];
    let icon = match find_column_index(header, "Icon") {
        Some(i) => i,
        None => 0,
    };
    let name = match find_column_index(header, "Name") {
        Some(i) => i,
        None => 1,
    };
    let command = match find_column_index(header, "Stratagem Code") {
        Some(i) => i,
        None => 2,
    };
    let required = if icon >= name && icon >= command {
        icon
    } else if name >= command {
        name
    } else {
        command
    };
    let ghost body = rows@.drop_first();
    let n = rows.len();
    let mut i: usize = 1;
    while i < n
        invariant
            n == rows@.len(),
            1 <= i <= n,
            body == rows@.drop_first(),
            required == (if icon >= name && icon >= command {
                icon
            } else if name >= command {
                name
            } else {
                command
            }),
            items_view(items) == rows_items(
                body.take(i - 1),
                icon as nat,
                name as nat,
                command as nat,
                section@,
                category@,
            ),
        decreases n - i,
    {
        assert(body.take(i as int).drop_last() == body.take(i - 1));
        assert(body.take(i as int).last() == rows@[i as int]);
        let cells = &rows[i];
        if cells.len() > required {
            let item_name = extract_name(&cells[name]);
            let item_command = extract_command(&cells[command]);
            if !item_name.as_str().is_empty() && item_command.len() > 0 {
                let icon_url = match extract_image_url(&cells[icon]) {
                    Some(u) => u,
                    None => String::new(),
                };
                let item_category = if category.is_empty() {
                    String::from_str(section)
                } else {
                    String::from_str(category)
                };
                let item = Stratagem {
                    id: String::new(),
                    section: String::from_str(section),
                    category: item_category,
                    name: item_name,
                    icon_url,
                    command: item_command,
                };
                push_item(&mut items, item);
            }
        }
        i += 1;
    }
    assert(body.take(n - 1) == body);
    items
}

/// Whether a section of the wiki lists stratagems the catalog keeps.
pub open spec fn is_catalog_section(section: Seq<char>) -> bool {
    section == "Current Stratagems"@ || section == "Mission Stratagems"@
}

/// The stratagems of the wiki content and the section and category in
/// force after it: a level-two heading starts a section and clears the
/// category, a level-three heading starts a category, and each wikitable
/// of a catalog section adds its stratagems.
pub open spec fn blocks_fold(blocks: Seq<WikiBlock>) -> (Seq<StratagemModel>, Seq<char>, Seq<char>)
    decreases blocks.len(),
{
    if blocks.len() == 0 {
        (Seq::empty(), Seq::empty(), Seq::empty())
    } else {
        let (items, section, category) = blocks_fold(blocks.drop_last());
        match blocks.last() {
            WikiBlock::SectionHeading { headline, text } => (
                items,
                heading_text_of(headline, text),
                Seq::empty(),
            ),
            WikiBlock::CategoryHeading { headline, text } => (
                items,
                section,
                heading_text_of(headline, text),
            ),
            WikiBlock::Table { wikitable, rows } => if wikitable && is_catalog_section(section) {
                (items + table_items(rows@, section, category), section, category)
            } else {
                (items, section, category)
            },
            WikiBlock::Other => (items, section, category),
        }
    }
}

/// The stratagems listed in the wiki content.
pub fn parse_stratagems(blocks: &Vec<WikiBlock>) -> (r: Vec<Stratagem>)
    ensures
        items_view(r) == blocks_fold(blocks@).0,
{
    let mut items: Vec<Stratagem> = Vec::new();
    let mut section = String::new();
    let mut category = String::new();
    let n = blocks.len();
    let mut i: usize = 0;
    while i < n
        invariant
            n == blocks@.len(),
            i <= n,
            blocks_fold(blocks@.take(i as int)) == (items_view(items), section@, category@),
        decreases n - i,
    {
        assert(blocks@.take(i as int + 1).drop_last() == blocks@.take(i as int));
        assert(blocks@.take(i as int + 1).last() == blocks@[i as int]);
        match &blocks[i] {
            WikiBlock::SectionHeading { headline, text } => {
                section = heading_text(headline, text);
                category = String::new();
            },
            WikiBlock::CategoryHeading { headline, text } => {
                category = heading_text(headline, text);
            },
            WikiBlock::Table { wikitable, rows } => {
                if *wikitable && (crate::toml_tree::str_eq(section.as_str(), "Current Stratagems")
                    || crate::toml_tree::str_eq(section.as_str(), "Mission Stratagems")) {
                    let found = parse_stratagem_table(rows, section.as_str(), category.as_str());
                    let ghost before = items_view(items);
                    let mut found = found;
                    items.append(&mut found);
                    assert(items_view(items) =~= before + table_items(
                        rows@,
                        section@,
                        category@,
                    ));
                }
            },
            WikiBlock::Other => {},
        }
        i += 1;
    }
    assert(blocks@.take(n as int) == blocks@);
    items
}


/// The stratagems listed on the wiki page `html`: those of the content
/// blocks that the page's parsed nodes give; an error when the page holds
/// no content container.
pub fn parse_stratagems_from_html(html: &str) -> (r: Result<Vec<Stratagem>, String>)
    ensures
        r is Ok <==> dom_blocks(html_dom(html@)) is Ok,
        match r {
            Ok(items) => (exists|blocks: Vec<WikiBlock>|
                dom_blocks(html_dom(html@)) == Ok::<Seq<BlockView>, Seq<char>>(
                    #[trigger] blocks_view(blocks),
                )) && forall|blocks: Vec<WikiBlock>|
                dom_blocks(html_dom(html@)) == Ok::<Seq<BlockView>, Seq<char>>(
                    #[trigger] blocks_view(blocks),
                ) ==> items_view(items) == blocks_fold(blocks@).0,
            Err(m) => dom_blocks(html_dom(html@)) == Err::<Seq<BlockView>, Seq<char>>(m@),
        },
{
    match page_blocks(html) {
        Ok(blocks) => {
            let items = parse_stratagems(&blocks);
            assert(dom_blocks(html_dom(html@)) == Ok::<Seq<BlockView>, Seq<char>>(
                blocks_view(blocks),
            ));
            assert forall|other: Vec<WikiBlock>|
                dom_blocks(html_dom(html@)) == Ok::<Seq<BlockView>, Seq<char>>(
                    #[trigger] blocks_view(other),
                ) implies items_view(items) == blocks_fold(other@).0 by {
                lemma_stratagems_depend_on_block_views(blocks, other);
            }
            Ok(items)
        },
        Err(m) => Err(m),
    }
}

/// A stratagem with the id of its command.
pub open spec fn with_id(item: StratagemModel) -> StratagemModel {
    StratagemModel { id: stratagem_id(item.command), ..item }
}

/// A stratagem with its id derived from its command.
fn identified(item: Stratagem) -> (r: Stratagem)
    ensures
        r@ == with_id(item@),
{
    let id = compute_stratagem_id(&item.command);
    Stratagem {
        id,
        section: item.section,
        category: item.category,
        name: item.name,
        icon_url: item.icon_url,
        command: item.command,
    }
}

/// Gives every stratagem without an id the id of its command, and says
/// whether any was given one.
pub fn fill_missing_ids(catalog: &mut StratagemCatalog) -> (changed: bool)
    ensures
        final(catalog).updated_at_unix == old(catalog).updated_at_unix,
        final(catalog).source_url == old(catalog).source_url,
        items_view(final(catalog).items).len() == items_view(old(catalog).items).len(),
        forall|i: int|
            0 <= i < items_view(old(catalog).items).len() ==> #[trigger] items_view(
                final(catalog).items,
            )[i] == if items_view(old(catalog).items)[i].id.len() == 0 {
                with_id(items_view(old(catalog).items)[i])
            } else {
                items_view(old(catalog).items)[i]
            },
        changed == exists|i: int|
            0 <= i < items_view(old(catalog).items).len() && (#[trigger] items_view(
                old(catalog).items,
            )[i]).id.len() == 0,
{
    let ghost orig = items_view(catalog.items);
    let mut rest: Vec<Stratagem> = Vec::new();
    std::mem::swap(&mut rest, &mut catalog.items);
    let mut out: Vec<Stratagem> = Vec::new();
    let mut changed = false;
    let n = rest.len();
    let mut k: usize = 0;
    while rest.len() > 0
        invariant
            orig.len() == n,
            k + rest@.len() == n,
            items_view(rest) == orig.skip(k as int),
            items_view(out).len() == k,
            forall|i: int|
                0 <= i < k ==> #[trigger] items_view(out)[i] == if orig[i].id.len() == 0 {
                    with_id(orig[i])
                } else {
                    orig[i]
                },
            changed == exists|i: int| 0 <= i < k && (#[trigger] orig[i]).id.len() == 0,
        decreases rest@.len(),
    {
        let ghost before = rest@;
        assert(items_view(rest)[0] == orig.skip(k as int)[0]);
        let item = rest.remove(0);
        assert(item == before[0]);
        assert(item@ == orig[k as int]);
        assert forall|j: int| 0 <= j < items_view(rest).len() implies items_view(rest)[j] == orig.skip(
            k as int + 1,
        )[j] by {
            assert(rest@[j] == before[j + 1]);
            assert(items_view(rest)[j] == before[j + 1]@);
            assert(before[j + 1]@ == orig.skip(k as int)[j + 1]);
        }
        assert(items_view(rest) =~= orig.skip(k as int + 1));
        let fixed = if item.id.as_str().is_empty() {
            changed = true;
            identified(item)
        } else {
            item
        };
        push_item(&mut out, fixed);
        k += 1;
    }
    catalog.items = out;
    changed
}

/// A fresh catalog of the parsed stratagems, each with the id of its
/// command, fetched at `updated_at_unix`; an error when nothing was parsed.
pub fn catalog_from_items(items: Vec<Stratagem>, updated_at_unix: u64) -> (r: Result<
    StratagemCatalog,
    String,
>)
    ensures
        items@.len() == 0 <==> r is Err,
        r matches Ok(c) ==> {
            &&& c.updated_at_unix == Some(updated_at_unix)
            &&& c.source_url@ == wiki_page_url()
            &&& items_view(c.items) == items_view(items).map_values(|s: StratagemModel| with_id(s))
        },
        r matches Err(e) ==> e@ == "No stratagems were parsed from the wiki response."@,
{
    if items.len() == 0 {
        return Err(String::from_str("No stratagems were parsed from the wiki response."));
    }
    let ghost orig = items_view(items);
    let mut rest = items;
    let mut out: Vec<Stratagem> = Vec::new();
    let n = rest.len();
    let mut k: usize = 0;
    while rest.len() > 0
        invariant
            orig.len() == n,
            k + rest@.len() == n,
            items_view(rest) == orig.skip(k as int),
            items_view(out) == orig.take(k as int).map_values(|s: StratagemModel| with_id(s)),
        decreases rest@.len(),
    {
        let ghost before = rest@;
        assert(items_view(rest)[0] == orig.skip(k as int)[0]);
        let item = rest.remove(0);
        assert(item == before[0]);
        assert(item@ == orig[k as int]);
        assert forall|j: int| 0 <= j < items_view(rest).len() implies items_view(rest)[j] == orig.skip(
            k as int + 1,
        )[j] by {
            assert(rest@[j] == before[j + 1]);
            assert(items_view(rest)[j] == before[j + 1]@);
            assert(before[j + 1]@ == orig.skip(k as int)[j + 1]);
        }
        assert(items_view(rest) =~= orig.skip(k as int + 1));
        let ghost before = items_view(out);
        push_item(&mut out, identified(item));
        assert(orig.take(k as int + 1).map_values(|s: StratagemModel| with_id(s)) =~= orig.take(
            k as int,
        ).map_values(|s: StratagemModel| with_id(s)).push(with_id(orig[k as int])));
        k += 1;
    }
    assert(orig.take(n as int) == orig);
    Ok(
        StratagemCatalog {
            updated_at_unix: Some(updated_at_unix),
            source_url: String::from_str("https://helldivers.wiki.gg/wiki/Stratagems"),
            items: out,
        },
    )
}


/// Whether a word is one of the four direction names.
pub open spec fn is_direction(d: Seq<char>) -> bool {
    d == "UP"@ || d == "DOWN"@ || d == "LEFT"@ || d == "RIGHT"@
}

/// Whether a parsed stratagem is complete: it comes from a catalog
/// section, has a name and a command of direction names only, and has no
/// id yet.
pub open spec fn well_parsed(item: StratagemModel) -> bool {
    &&& is_catalog_section(item.section)
    &&& item.name.len() > 0
    &&& item.command.len() > 0
    &&& forall|j: int| 0 <= j < item.command.len() ==> is_direction(#[trigger] item.command[j])
    &&& item.id.len() == 0
}

proof fn lemma_alt_directions(alts: Seq<Seq<char>>)
    ensures
        forall|j: int|
            0 <= j < alt_directions(alts).len() ==> is_direction(#[trigger] alt_directions(alts)[j]),
    decreases alts.len(),
{
    if alts.len() > 0 {
        lemma_alt_directions(alts.drop_last());
        let rest = alt_directions(alts.drop_last());
        let all = alt_directions(alts);
        assert forall|j: int| 0 <= j < all.len() implies is_direction(#[trigger] all[j]) by {
            if j < rest.len() {
                assert(all[j] == rest[j]);
            }
        }
    }
}

proof fn lemma_token_directions(tokens: Seq<Seq<char>>)
    ensures
        forall|j: int|
            0 <= j < token_directions(tokens).len() ==> is_direction(
                #[trigger] token_directions(tokens)[j],
            ),
    decreases tokens.len(),
{
    if tokens.len() > 0 {
        lemma_token_directions(tokens.drop_last());
        let rest = token_directions(tokens.drop_last());
        let all = token_directions(tokens);
        assert forall|j: int| 0 <= j < all.len() implies is_direction(#[trigger] all[j]) by {
            if j < rest.len() {
                assert(all[j] == rest[j]);
            }
        }
    }
}

proof fn lemma_rows_items(
    rows: Seq<Vec<WikiCell>>,
    icon: nat,
    name: nat,
    command: nat,
    section: Seq<char>,
    category: Seq<char>,
)
    requires
        is_catalog_section(section),
    ensures
        forall|j: int|
            0 <= j < rows_items(rows, icon, name, command, section, category).len() ==> well_parsed(
                #[trigger] rows_items(rows, icon, name, command, section, category)[j],
            ),
    decreases rows.len(),
{
    if rows.len() > 0 {
        lemma_rows_items(rows.drop_last(), icon, name, command, section, category);
        let cells = rows.last()@;
        let required = if icon >= name && icon >= command {
            icon
        } else if name >= command {
            name
        } else {
            command
        };
        if cells.len() > required {
            lemma_alt_directions(texts(cells[command as int].image_alts));
            lemma_token_directions(
                words(expand_arrows(text_of(texts(cells[command as int].text)))),
            );
        }
        let rest = rows_items(rows.drop_last(), icon, name, command, section, category);
        let all = rows_items(rows, icon, name, command, section, category);
        assert forall|j: int| 0 <= j < all.len() implies well_parsed(#[trigger] all[j]) by {
            if j < rest.len() {
                assert(all[j] == rest[j]);
            }
        }
    }
}

/// Every stratagem read from the wiki content comes from a catalog
/// section, has a name and a command made of direction names only, and
/// has no id yet.
pub proof fn lemma_parsed_items_well_formed(blocks: Seq<WikiBlock>)
    ensures
        forall|j: int|
            0 <= j < blocks_fold(blocks).0.len() ==> well_parsed(#[trigger] blocks_fold(blocks).0[j]),
    decreases blocks.len(),
{
    if blocks.len() > 0 {
        lemma_parsed_items_well_formed(blocks.drop_last());
        let (items, section, category) = blocks_fold(blocks.drop_last());
        if let WikiBlock::Table { wikitable, rows } = blocks.last() {
            if wikitable && is_catalog_section(section) && rows@.len() > 0 {
                let header = rows@[0]@;
                let icon = match column_index(header, "Icon"@) {
                    Some(i) => i,
                    None => 0,
                };
                let name = match column_index(header, "Name"@) {
                    Some(i) => i,
                    None => 1,
                };
                let command = match column_index(header, "Stratagem Code"@) {
                    Some(i) => i,
                    None => 2,
                };
                lemma_rows_items(rows@.drop_first(), icon, name, command, section, category);
                let t = table_items(rows@, section, category);
                assert forall|j: int| 0 <= j < (items + t).len() implies well_parsed(
                    #[trigger] (items + t)[j],
                ) by {
                    if j >= items.len() {
                        assert((items + t)[j] == t[j - items.len()]);
                    }
                }
            }
        }
    }
}

} // verus!
