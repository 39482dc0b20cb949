//! The rules of the JWW exporter: export reports and the issues they collect,
//! the mapping of colors, line types and paper sizes to JWW codes, CP932 text
//! fallbacks, and the checks on preserved records and block archives.
use vstd::prelude::*;
use crate::codec::types::{
    Base, Record, RecordV, records_view, BlockDefinition, BlockDefinitionV, Header, HeaderV, LayerGroup,
    LayerGroupV, Layer, LayerV, default_header_spec,
};
use crate::codec::decode::ONE_BITS;
use crate::codec::header::TENTH_BITS;
use crate::codec::preserve::{clone_record, restore_record_float_bits, float_bits, with_float_bits};
use crate::codec::error::{CodecError, CodecErrorV};
use crate::codec::archive::contains_u32;
use crate::codec::encode::lemma_records_view;
use crate::manifest::bytes_lt;
use vstd::utf8::encode_utf8;
use crate::text::{
    ascii_upper, ascii_uppercase, debug_str, debug_quoted, concat_str, str_eq, strip_prefix,
    strip_prefix_chars, parse_unsigned_spec, parse_unsigned, chars_of, sjis_encode, sjis_decode,
    encode_sjis, decode_sjis, string_from_chars, decimal, text_with_number, is_ascii_text, all_ascii,
};

verus! {

pub const CRATE_NAME: &'static str = "cad-export-jww";

pub fn crate_name() -> (name: &'static str)
    ensures
        name@ == "cad-export-jww"@,
{
    CRATE_NAME
}

#[derive(Debug, Clone, Copy, Default)]
pub struct ExportOptions {
    pub allow_lossy: bool,
    pub overwrite: bool,
    pub strict_approximations: bool,
}

#[derive(Debug, Clone, Copy, Default)]
pub struct AutoExportOptions {
    pub strict: bool,
    pub overwrite: bool,
    pub require_preservation: bool,
}

#[derive(Debug, Clone, Copy, PartialEq, Eq)]
pub enum ExportStatus {
    Exported,
    Blocked,
}

#[derive(Debug, Clone, Copy, PartialEq, Eq)]
pub enum ExportMode {
    GeneratedExperimental,
    GeneratedBestEffort,
    GeneratedStrict,
    PreservedExact,
    PreservedEdited,
}

/// A warning or blocker: a stable code, a message and the entity concerned.
#[derive(Debug, Clone, PartialEq, Eq)]
pub struct ExportIssue {
    pub code: String,
    pub message: String,
    pub entity_id: Option<String>,
}

pub struct ExportIssueV {
    pub code: Seq<char>,
    pub message: Seq<char>,
    pub entity_id: Option<Seq<char>>,
}

pub open spec fn opt_text(o: Option<String>) -> Option<Seq<char>> {
    match o {
        Some(s) => Some(s@),
        None => None,
    }
}

pub open spec fn opt_str(o: Option<&str>) -> Option<Seq<char>> {
    match o {
        Some(s) => Some(s@),
        None => None,
    }
}

impl View for ExportIssue {
    type V = ExportIssueV;

    open spec fn view(&self) -> ExportIssueV {
        ExportIssueV { code: self.code@, message: self.message@, entity_id: opt_text(self.entity_id) }
    }
}

pub open spec fn issues_view(v: Seq<ExportIssue>) -> Seq<ExportIssueV> {
    v.map_values(|i: ExportIssue| i@)
}

pub open spec fn issue(
    entity_id: Option<Seq<char>>,
    code: Seq<char>,
    message: Seq<char>,
) -> ExportIssueV {
    ExportIssueV { code, message, entity_id }
}

#[derive(Debug, Clone)]
pub struct ExportReport {
    pub schema_version: String,
    pub status: ExportStatus,
    pub mode: ExportMode,
    pub output_path: String,
    pub written_entities: usize,
    pub expanded_entities: usize,
    pub warnings: Vec<ExportIssue>,
    pub blockers: Vec<ExportIssue>,
}

fn owned_opt(o: Option<&str>) -> (out: Option<String>)
    ensures
        opt_text(out) == opt_str(o),
{
    match o {
        Some(s) => Some(s.to_owned()),
        None => None,
    }
}

fn make_issue(entity_id: Option<&str>, code: &str, message: String) -> (out: ExportIssue)
    ensures
        out@ == issue(opt_str(entity_id), code@, message@),
{
    ExportIssue { code: code.to_owned(), message, entity_id: owned_opt(entity_id) }
}

/// The context after a lossy conversion was recorded: a warning when lossy
/// output is allowed, else a blocker.
pub open spec fn blocked(before: ExportContext, after: ExportContext, i: ExportIssueV) -> bool {
    &&& after.output_path == before.output_path
    &&& after.options == before.options
    &&& if before.options.allow_lossy {
        issues_view(after.warnings@) == issues_view(before.warnings@).push(i) && after.blockers@
            == before.blockers@
    } else {
        issues_view(after.blockers@) == issues_view(before.blockers@).push(i) && after.warnings@
            == before.warnings@
    }
}

/// The context after an approximation was recorded: a blocker when
/// approximations are strict, else a warning.
pub open spec fn approximated(before: ExportContext, after: ExportContext, i: ExportIssueV) -> bool {
    &&& after.output_path == before.output_path
    &&& after.options == before.options
    &&& if before.options.strict_approximations {
        issues_view(after.blockers@) == issues_view(before.blockers@).push(i) && after.warnings@
            == before.warnings@
    } else {
        issues_view(after.warnings@) == issues_view(before.warnings@).push(i) && after.blockers@
            == before.blockers@
    }
}

pub open spec fn unchanged(before: ExportContext, after: ExportContext) -> bool {
    &&& after.output_path == before.output_path
    &&& after.options == before.options
    &&& after.warnings@ == before.warnings@
    &&& after.blockers@ == before.blockers@
}

/// The issues gathered while generating a JWW file. Lossy conversions block
/// the export unless lossy output is allowed; approximations only warn unless
/// they are strict; fatal issues always block.
pub struct ExportContext {
    pub output_path: String,
    pub options: ExportOptions,
    pub warnings: Vec<ExportIssue>,
    pub blockers: Vec<ExportIssue>,
}

impl ExportContext {
    pub fn new(output_path: &str, options: ExportOptions) -> (context: Self)
        ensures
            context.output_path@ == output_path@,
            context.options == options,
            context.warnings@.len() == 0,
            context.blockers@.len() == 0,
    {
        ExportContext { output_path: output_path.to_owned(), options, warnings: Vec::new(), blockers: Vec::new() }
    }

    /// Records a conversion that loses information.
    pub fn block(&mut self, entity_id: Option<&str>, code: &str, message: String)
        ensures
            blocked(*old(self), *final(self), issue(opt_str(entity_id), code@, message@)),
    {
        let issue = make_issue(entity_id, code, message);
        if self.options.allow_lossy {
            self.warnings.push(issue);
            assert(issues_view(self.warnings@) =~= issues_view(old(self).warnings@).push(issue@));
        } else {
            self.blockers.push(issue);
            assert(issues_view(self.blockers@) =~= issues_view(old(self).blockers@).push(issue@));
        }
    }

    /// Records an approximation.
    pub fn approximate(&mut self, entity_id: Option<&str>, code: &str, message: String)
        ensures
            approximated(*old(self), *final(self), issue(opt_str(entity_id), code@, message@)),
    {
        let issue = make_issue(entity_id, code, message);
        if self.options.strict_approximations {
            self.blockers.push(issue);
            assert(issues_view(self.blockers@) =~= issues_view(old(self).blockers@).push(issue@));
        } else {
            self.warnings.push(issue);
            assert(issues_view(self.warnings@) =~= issues_view(old(self).warnings@).push(issue@));
        }
    }

    /// Records an issue that always blocks the export.
    pub fn fatal(&mut self, entity_id: Option<&str>, code: &str, message: String)
        ensures
            final(self).output_path == old(self).output_path,
            final(self).options == old(self).options,
            issues_view(final(self).blockers@) == issues_view(old(self).blockers@).push(
                issue(opt_str(entity_id), code@, message@),
            ),
            final(self).warnings@ == old(self).warnings@,
    {
        let issue = make_issue(entity_id, code, message);
        self.blockers.push(issue);
        assert(issues_view(self.blockers@) =~= issues_view(old(self).blockers@).push(issue@));
    }

    /// The report of a generated export; strict approximations make it a
    /// strict export.
    pub fn report(self, status: ExportStatus, written: usize, expanded: usize) -> (r: ExportReport)
        ensures
            r.schema_version@ == "0.2"@,
            r.status == status,
            r.mode == if self.options.strict_approximations {
                ExportMode::GeneratedStrict
            } else {
                ExportMode::GeneratedBestEffort
            },
            r.output_path@ == self.output_path@,
            r.written_entities == written,
            r.expanded_entities == expanded,
            r.warnings@ == self.warnings@,
            r.blockers@ == self.blockers@,
    {
        let mode = if self.options.strict_approximations {
            ExportMode::GeneratedStrict
        } else {
            ExportMode::GeneratedBestEffort
        };
        ExportReport {
            schema_version: "0.2".to_owned(),
            status,
            mode,
            output_path: self.output_path,
            written_entities: written,
            expanded_entities: expanded,
            warnings: self.warnings,
            blockers: self.blockers,
        }
    }
}

/// The report of a preserving export that was blocked.
pub fn preserved_blocked_report(output_path: &str, blockers: Vec<ExportIssue>) -> (r: ExportReport)
    ensures
        r.schema_version@ == "0.2"@,
        r.status == ExportStatus::Blocked,
        r.mode == ExportMode::PreservedEdited,
        r.output_path@ == output_path@,
        r.written_entities == 0,
        r.expanded_entities == 0,
        r.warnings@.len() == 0,
        r.blockers@ == blockers@,
{
    ExportReport {
        schema_version: "0.2".to_owned(),
        status: ExportStatus::Blocked,
        mode: ExportMode::PreservedEdited,
        output_path: output_path.to_owned(),
        written_entities: 0,
        expanded_entities: 0,
        warnings: Vec::new(),
        blockers,
    }
}

// ---------------------------------------------------------------------------
// Colors, line types and paper sizes
// ---------------------------------------------------------------------------

/// The JWW pen color numbers of the built-in colors (compared without regard
/// to ASCII case).
pub open spec fn builtin_color_spec(rgb: Seq<char>) -> Option<u16> {
    let u = ascii_upper(rgb);
    if u == "#000000"@ {
        Some(1)
    } else if u == "#FF0000"@ {
        Some(2)
    } else if u == "#00AA00"@ {
        Some(3)
    } else if u == "#0000FF"@ {
        Some(4)
    } else if u == "#FFFF00"@ {
        Some(5)
    } else if u == "#FF00FF"@ {
        Some(6)
    } else if u == "#00FFFF"@ {
        Some(7)
    } else if u == "#FFFFFF"@ {
        Some(8)
    } else {
        None
    }
}

/// Import and export agree on the built-in colors: the pen color number the
/// exporter finds for the color the importer gives a JWW pen is that pen.
pub proof fn lemma_pen_colors_agree_with_import(color: u16)
    requires
        1 <= color <= 8,
    ensures
        builtin_color_spec(crate::import::pen_color_rgb_spec(color)) == Some(color),
{
    reveal_strlit("#000000");
    reveal_strlit("#FF0000");
    reveal_strlit("#00AA00");
    reveal_strlit("#0000FF");
    reveal_strlit("#FFFF00");
    reveal_strlit("#FF00FF");
    reveal_strlit("#00FFFF");
    reveal_strlit("#FFFFFF");
    if color == 1 {
        assert(ascii_upper("#000000"@) =~= "#000000"@);
    } else if color == 2 {
        assert(ascii_upper("#FF0000"@) =~= "#FF0000"@);
        assert("#FF0000"@[1] != "#000000"@[1]);
    } else if color == 3 {
        assert(ascii_upper("#00AA00"@) =~= "#00AA00"@);
        assert("#00AA00"@[3] != "#000000"@[3]);
        assert("#00AA00"@[1] != "#FF0000"@[1]);
    } else if color == 4 {
        assert(ascii_upper("#0000FF"@) =~= "#0000FF"@);
        assert("#0000FF"@[5] != "#000000"@[5]);
        assert("#0000FF"@[1] != "#FF0000"@[1]);
        assert("#0000FF"@[3] != "#00AA00"@[3]);
    } else if color == 5 {
        assert(ascii_upper("#FFFF00"@) =~= "#FFFF00"@);
        assert("#FFFF00"@[1] != "#000000"@[1]);
        assert("#FFFF00"@[3] != "#FF0000"@[3]);
        assert("#FFFF00"@[1] != "#00AA00"@[1]);
        assert("#FFFF00"@[1] != "#0000FF"@[1]);
    } else if color == 6 {
        assert(ascii_upper("#FF00FF"@) =~= "#FF00FF"@);
        assert("#FF00FF"@[1] != "#000000"@[1]);
        assert("#FF00FF"@[5] != "#FF0000"@[5]);
        assert("#FF00FF"@[1] != "#00AA00"@[1]);
        assert("#FF00FF"@[1] != "#0000FF"@[1]);
        assert("#FF00FF"@[3] != "#FFFF00"@[3]);
    } else if color == 7 {
        assert(ascii_upper("#00FFFF"@) =~= "#00FFFF"@);
        assert("#00FFFF"@[3] != "#000000"@[3]);
        assert("#00FFFF"@[1] != "#FF0000"@[1]);
        assert("#00FFFF"@[3] != "#00AA00"@[3]);
        assert("#00FFFF"@[3] != "#0000FF"@[3]);
        assert("#00FFFF"@[1] != "#FFFF00"@[1]);
        assert("#00FFFF"@[1] != "#FF00FF"@[1]);
    } else {
        assert(ascii_upper("#FFFFFF"@) =~= "#FFFFFF"@);
        assert("#FFFFFF"@[1] != "#000000"@[1]);
        assert("#FFFFFF"@[3] != "#FF0000"@[3]);
        assert("#FFFFFF"@[1] != "#00AA00"@[1]);
        assert("#FFFFFF"@[1] != "#0000FF"@[1]);
        assert("#FFFFFF"@[5] != "#FFFF00"@[5]);
        assert("#FFFFFF"@[3] != "#FF00FF"@[3]);
        assert("#FFFFFF"@[1] != "#00FFFF"@[1]);
    }
}

proof fn lemma_colorref_of_literal(s: Seq<char>, rest: Seq<char>)
    requires
        s.len() == 7,
        s[0] == '#',
        rest == s.subrange(1, 7),
        forall|i: int| 0 <= i < 6 ==> is_hex_digit(#[trigger] rest[i]),
    ensures
        colorref_spec(s) == Some(
            (hex_pair(rest[0], rest[1])->Some_0 + hex_pair(rest[2], rest[3])->Some_0 * 256
                + hex_pair(rest[4], rest[5])->Some_0 * 65536) as u32,
        ),
{
    reveal_strlit("#");
    assert(s.subrange(0, 1) =~= "#"@);
    assert forall|i: int| 0 <= i < rest.len() implies (#[trigger] rest[i] as u32) < 0x80 by {
        assert(is_hex_digit(rest[i]));
    }
    assert(rest[0] != '+' && rest[2] != '+' && rest[4] != '+') by {
        assert(is_hex_digit(rest[0]) && is_hex_digit(rest[2]) && is_hex_digit(rest[4]));
    }
}

/// The color the importer gives a JWW pen is that pen's entry in the
/// exporter's palette: as a COLORREF, its red, green and blue are the
/// palette's for that pen number.
pub proof fn lemma_pen_color_is_palette_color(color: u16)
    requires
        1 <= color <= 8,
    ensures
        palette(color - 1).0 == color,
        colorref_spec(crate::import::pen_color_rgb_spec(color)) == Some(
            (palette(color - 1).1 + palette(color - 1).2 * 256 + palette(color - 1).3 * 65536) as u32,
        ),
{
    reveal_strlit("#000000");
    reveal_strlit("#FF0000");
    reveal_strlit("#00AA00");
    reveal_strlit("#0000FF");
    reveal_strlit("#FFFF00");
    reveal_strlit("#FF00FF");
    reveal_strlit("#00FFFF");
    reveal_strlit("#FFFFFF");
    if color == 1 {
        let s = "#000000"@;
        let rest = s.subrange(1, 7);
        assert(rest =~= seq!['0', '0', '0', '0', '0', '0']);
        lemma_colorref_of_literal(s, rest);
    } else if color == 2 {
        let s = "#FF0000"@;
        let rest = s.subrange(1, 7);
        assert(rest =~= seq!['F', 'F', '0', '0', '0', '0']);
        lemma_colorref_of_literal(s, rest);
    } else if color == 3 {
        let s = "#00AA00"@;
        let rest = s.subrange(1, 7);
        assert(rest =~= seq!['0', '0', 'A', 'A', '0', '0']);
        lemma_colorref_of_literal(s, rest);
    } else if color == 4 {
        let s = "#0000FF"@;
        let rest = s.subrange(1, 7);
        assert(rest =~= seq!['0', '0', '0', '0', 'F', 'F']);
        lemma_colorref_of_literal(s, rest);
    } else if color == 5 {
        let s = "#FFFF00"@;
        let rest = s.subrange(1, 7);
        assert(rest =~= seq!['F', 'F', 'F', 'F', '0', '0']);
        lemma_colorref_of_literal(s, rest);
    } else if color == 6 {
        let s = "#FF00FF"@;
        let rest = s.subrange(1, 7);
        assert(rest =~= seq!['F', 'F', '0', '0', 'F', 'F']);
        lemma_colorref_of_literal(s, rest);
    } else if color == 7 {
        let s = "#00FFFF"@;
        let rest = s.subrange(1, 7);
        assert(rest =~= seq!['0', '0', 'F', 'F', 'F', 'F']);
        lemma_colorref_of_literal(s, rest);
    } else {
        let s = "#FFFFFF"@;
        let rest = s.subrange(1, 7);
        assert(rest =~= seq!['F', 'F', 'F', 'F', 'F', 'F']);
        lemma_colorref_of_literal(s, rest);
    }
}

pub fn builtin_color_number(rgb: &str) -> (n: Option<u16>)
    ensures
        n == builtin_color_spec(rgb@),
{
    let upper = ascii_uppercase(rgb);
    let u = upper.as_str();
    if str_eq(u, "#000000") {
        Some(1)
    } else if str_eq(u, "#FF0000") {
        Some(2)
    } else if str_eq(u, "#00AA00") {
        Some(3)
    } else if str_eq(u, "#0000FF") {
        Some(4)
    } else if str_eq(u, "#FFFF00") {
        Some(5)
    } else if str_eq(u, "#FF00FF") {
        Some(6)
    } else if str_eq(u, "#00FFFF") {
        Some(7)
    } else if str_eq(u, "#FFFFFF") {
        Some(8)
    } else {
        None
    }
}

pub open spec fn is_hex_digit(c: char) -> bool {
    ('0' <= c && c <= '9') || ('a' <= c && c <= 'f') || ('A' <= c && c <= 'F')
}

pub open spec fn hex_value(c: char) -> nat {
    if '0' <= c && c <= '9' {
        ((c as u32) - ('0' as u32)) as nat
    } else if 'a' <= c && c <= 'f' {
        ((c as u32) - ('a' as u32) + 10) as nat
    } else {
        ((c as u32) - ('A' as u32) + 10) as nat
    }
}

/// What `u32::from_str_radix(_, 16)` gives for two characters: an optional
/// `+` before one digit, or two digits.
pub open spec fn hex_pair(a: char, b: char) -> Option<nat> {
    if a == '+' {
        if is_hex_digit(b) {
            Some(hex_value(b))
        } else {
            None
        }
    } else if is_hex_digit(a) && is_hex_digit(b) {
        Some(hex_value(a) * 16 + hex_value(b))
    } else {
        None
    }
}

/// A `#RRGGBB` color (the `#` may be left out) as a Windows COLORREF, red in
/// the low byte; anything but six ASCII characters is refused.
pub open spec fn colorref_spec(value: Seq<char>) -> Option<u32> {
    let rgb = match strip_prefix(value, "#"@) {
        Some(rest) => rest,
        None => value,
    };
    if rgb.len() != 6 || !is_ascii_text(rgb) {
        None
    } else {
        match (hex_pair(rgb[0], rgb[1]), hex_pair(rgb[2], rgb[3]), hex_pair(rgb[4], rgb[5])) {
            (Some(r), Some(g), Some(b)) => Some((r + g * 256 + b * 65536) as u32),
            _ => None,
        }
    }
}

fn hex_digit(c: char) -> (v: Option<u32>)
    ensures
        match v {
            Some(x) => is_hex_digit(c) && x == hex_value(c),
            None => !is_hex_digit(c),
        },
{
    if '0' <= c && c <= '9' {
        Some(c as u32 - '0' as u32)
    } else if 'a' <= c && c <= 'f' {
        Some(c as u32 - 'a' as u32 + 10)
    } else if 'A' <= c && c <= 'F' {
        Some(c as u32 - 'A' as u32 + 10)
    } else {
        None
    }
}

fn parse_hex_pair(a: char, b: char) -> (v: Option<u32>)
    ensures
        match (v, hex_pair(a, b)) {
            (Some(x), Some(y)) => x == y && x < 256,
            (None, None) => true,
            _ => false,
        },
{
    if a == '+' {
        return hex_digit(b);
    }
    match (hex_digit(a), hex_digit(b)) {
        (Some(x), Some(y)) => Some(x * 16 + y),
        _ => None,
    }
}

pub fn rgb_hex_to_colorref(value: &str) -> (out: Option<u32>)
    ensures
        out == colorref_spec(value@),
{
    let chars = match strip_prefix_chars(value, "#") {
        Some(rest) => rest,
        None => chars_of(value),
    };
    let ghost rgb = match strip_prefix(value@, "#"@) {
        Some(rest) => rest,
        None => value@,
    };
    assert(chars@ == rgb);
    if chars.len() != 6 || !all_ascii(&chars) {
        return None;
    }
    let red = match parse_hex_pair(chars[0], chars[1]) {
        Some(v) => v,
        None => return None,
    };
    let green = match parse_hex_pair(chars[2], chars[3]) {
        Some(v) => v,
        None => return None,
    };
    let blue = match parse_hex_pair(chars[4], chars[5]) {
        Some(v) => v,
        None => return None,
    };
    Some(red + green * 256 + blue * 65536)
}

/// The built-in pen colors, by position: pen number and red, green, blue.
pub open spec fn palette(k: int) -> (u16, int, int, int) {
    if k == 0 {
        (1, 0, 0, 0)
    } else if k == 1 {
        (2, 255, 0, 0)
    } else if k == 2 {
        (3, 0, 170, 0)
    } else if k == 3 {
        (4, 0, 0, 255)
    } else if k == 4 {
        (5, 255, 255, 0)
    } else if k == 5 {
        (6, 255, 0, 255)
    } else if k == 6 {
        (7, 0, 255, 255)
    } else {
        (8, 255, 255, 255)
    }
}

/// The squared distance from a COLORREF to a built-in pen color.
pub open spec fn color_distance(value: u32, k: int) -> int {
    let (_, r, g, b) = palette(k);
    let dr = (value % 256) as int - r;
    let dg = ((value / 256) % 256) as int - g;
    let db = ((value / 65536) % 256) as int - b;
    dr * dr + dg * dg + db * db
}

/// The position of the first nearest pen color among the first `n`.
pub open spec fn nearest_index(value: u32, n: int) -> int
    decreases n,
{
    if n <= 1 {
        0
    } else {
        let best = nearest_index(value, n - 1);
        if color_distance(value, n - 1) < color_distance(value, best) {
            n - 1
        } else {
            best
        }
    }
}

/// The built-in pen whose color is nearest (first on ties); 1 for text that
/// is not a color.
pub open spec fn nearest_color_spec(rgb: Seq<char>) -> u16 {
    match colorref_spec(rgb) {
        None => 1,
        Some(value) => palette(nearest_index(value, 8)).0,
    }
}

fn palette_entry(k: usize) -> (e: (u16, i64, i64, i64))
    requires
        k < 8,
    ensures
        e.0 == palette(k as int).0,
        e.1 == palette(k as int).1,
        e.2 == palette(k as int).2,
        e.3 == palette(k as int).3,
{
    if k == 0 {
        (1, 0, 0, 0)
    } else if k == 1 {
        (2, 255, 0, 0)
    } else if k == 2 {
        (3, 0, 170, 0)
    } else if k == 3 {
        (4, 0, 0, 255)
    } else if k == 4 {
        (5, 255, 255, 0)
    } else if k == 5 {
        (6, 255, 0, 255)
    } else if k == 6 {
        (7, 0, 255, 255)
    } else {
        (8, 255, 255, 255)
    }
}

fn distance_to(value: u32, k: usize) -> (d: i64)
    requires
        k < 8,
    ensures
        d == color_distance(value, k as int),
{
    let (_, r, g, b) = palette_entry(k);
    let dr = (value % 256) as i64 - r;
    let dg = ((value / 256) % 256) as i64 - g;
    let db = ((value / 65536) % 256) as i64 - b;
    assert(-255 <= dr <= 255 && -255 <= dg <= 255 && -255 <= db <= 255);
    assert(dr * dr <= 65025) by (nonlinear_arith)
        requires
            -255 <= dr <= 255,
    ;
    assert(dg * dg <= 65025) by (nonlinear_arith)
        requires
            -255 <= dg <= 255,
    ;
    assert(db * db <= 65025) by (nonlinear_arith)
        requires
            -255 <= db <= 255,
    ;
    assert(dr * dr >= 0 && dg * dg >= 0 && db * db >= 0) by (nonlinear_arith);
    dr * dr + dg * dg + db * db
}

pub fn nearest_builtin_color_number(rgb: &str) -> (n: u16)
    ensures
        n == nearest_color_spec(rgb@),
{
    let value = match rgb_hex_to_colorref(rgb) {
        Some(v) => v,
        None => return 1,
    };
    let mut best: usize = 0;
    let mut best_distance = distance_to(value, 0);
    let mut k: usize = 1;
    while k < 8
        invariant
            1 <= k <= 8,
            best < 8,
            best == nearest_index(value, k as int),
            best_distance == color_distance(value, best as int),
        decreases 8 - k,
    {
        let d = distance_to(value, k);
        if d < best_distance {
            best = k;
            best_distance = d;
        }
        k = k + 1;
    }
    palette_entry(best).0
}

/// The JWW paper codes of the supported paper sizes (without regard to ASCII
/// case).
pub open spec fn paper_spec(paper: Seq<char>) -> Option<u32> {
    let u = ascii_upper(paper);
    if u == "A0"@ {
        Some(0)
    } else if u == "A1"@ {
        Some(1)
    } else if u == "A2"@ {
        Some(2)
    } else if u == "A3"@ {
        Some(3)
    } else if u == "A4"@ {
        Some(4)
    } else {
        None
    }
}

/// Export and import agree on paper sizes: the code the exporter writes for
/// the paper the importer names for a JWW code is that code.
pub proof fn lemma_paper_codes_agree_with_import(code: u32)
    requires
        code <= 4,
    ensures
        crate::import::sheet_paper_spec(code) matches Some(name) && paper_spec(name) == Some(code),
{
    reveal_strlit("A0");
    reveal_strlit("A1");
    reveal_strlit("A2");
    reveal_strlit("A3");
    reveal_strlit("A4");
    lemma_paper_code_is_series_number(code, true);
    let name = crate::import::sheet_paper_spec(code)->Some_0;
    assert(name =~= seq!['A', (('0' as u32) + code) as char]);
}

/// The code of an A-series paper is its number: "A" followed by the digit n
/// (in either case) is code n.
pub proof fn lemma_paper_code_is_series_number(n: u32, upper: bool)
    requires
        n <= 4,
    ensures
        paper_spec(seq![if upper { 'A' } else { 'a' }, (('0' as u32) + n) as char]) == Some(n),
{
    reveal_strlit("A0");
    reveal_strlit("A1");
    reveal_strlit("A2");
    reveal_strlit("A3");
    reveal_strlit("A4");
    let name = seq![if upper { 'A' } else { 'a' }, (('0' as u32) + n) as char];
    assert(ascii_upper(name) =~= seq!['A', (('0' as u32) + n) as char]);
    if n == 0 {
        assert(ascii_upper(name) =~= "A0"@);
    } else if n == 1 {
        assert(ascii_upper(name) =~= "A1"@);
    } else if n == 2 {
        assert(ascii_upper(name) =~= "A2"@);
    } else if n == 3 {
        assert(ascii_upper(name) =~= "A3"@);
    } else {
        assert(ascii_upper(name) =~= "A4"@);
    }
}

fn concat3(a: &str, b: &str, c: &str) -> (out: String)
    ensures
        out@ == a@ + b@ + c@,
{
    let ab = concat_str(a, b);
    concat_str(ab.as_str(), c)
}

/// The JWW paper code; an unsupported paper blocks the export (or warns when
/// lossy output is allowed) and A3 is used.
pub fn paper_code(paper: &str, context: &mut ExportContext) -> (code: u32)
    ensures
        match paper_spec(paper@) {
            Some(c) => code == c && unchanged(*old(context), *final(context)),
            None => code == 3 && blocked(
                *old(context),
                *final(context),
                issue(
                    None,
                    "unsupported_paper"@,
                    "paper "@ + debug_str(paper@) + " is not supported by the exporter"@,
                ),
            ),
        },
{
    let upper = ascii_uppercase(paper);
    let u = upper.as_str();
    if str_eq(u, "A0") {
        0
    } else if str_eq(u, "A1") {
        1
    } else if str_eq(u, "A2") {
        2
    } else if str_eq(u, "A3") {
        3
    } else if str_eq(u, "A4") {
        4
    } else {
        let quoted = debug_quoted(paper);
        let message = concat3("paper ", quoted.as_str(), " is not supported by the exporter");
        context.block(None, "unsupported_paper", message);
        3
    }
}

/// A number written after a prefix, parsed as an unsigned integer of the
/// given largest value.
pub open spec fn prefixed_number(s: Seq<char>, prefix: Seq<char>, max: nat) -> Option<nat> {
    match strip_prefix(s, prefix) {
        Some(rest) => parse_unsigned_spec(rest, max),
        None => None,
    }
}

fn parse_prefixed(text: &str, prefix: &str, max: u64) -> (out: Option<u64>)
    requires
        max < u64::MAX / 10,
    ensures
        match (out, prefixed_number(text@, prefix@, max as nat)) {
            (Some(v), Some(w)) => v == w,
            (None, None) => true,
            _ => false,
        },
{
    match strip_prefix_chars(text, prefix) {
        Some(rest) => parse_unsigned(&rest, max),
        None => None,
    }
}

/// The JWW line style: `jww_line_<n>` carries it; `solid` is 1; any other
/// line type is lossy and becomes 1 only when lossy output is allowed.
pub fn line_type_number(line_type: &str, entity_id: Option<&str>, context: &mut ExportContext) -> (n:
    Option<u8>)
    ensures
        match prefixed_number(line_type@, "jww_line_"@, 255) {
            Some(v) => n == Some(v as u8) && unchanged(*old(context), *final(context)),
            None => if line_type@ == "solid"@ {
                n == Some(1u8) && unchanged(*old(context), *final(context))
            } else {
                blocked(
                    *old(context),
                    *final(context),
                    issue(
                        opt_str(entity_id),
                        "unsupported_line_type"@,
                        "line type "@ + debug_str(line_type@) + " has no JWW mapping"@,
                    ),
                ) && n == if old(context).options.allow_lossy {
                    Some(1u8)
                } else {
                    None
                }
            },
        },
{
    if let Some(value) = parse_prefixed(line_type, "jww_line_", 255) {
        return Some(value as u8);
    }
    if str_eq(line_type, "solid") {
        return Some(1);
    }
    let quoted = debug_quoted(line_type);
    let message = concat3("line type ", quoted.as_str(), " has no JWW mapping");
    context.block(entity_id, "unsupported_line_type", message);
    if context.options.allow_lossy {
        Some(1)
    } else {
        None
    }
}

/// The JWW pen color of a stroke color: `jww_color_<n>` carries it; otherwise
/// `rgb` is the color's `#RRGGBB` value, if the project defines the color. A
/// missing color blocks; a color other than a built-in one blocks (or warns
/// when lossy output is allowed) and then maps to the nearest built-in color.
pub fn stroke_color_number(
    color_id: &str,
    rgb: Option<&str>,
    entity_id: Option<&str>,
    context: &mut ExportContext,
) -> (n: Option<u16>)
    ensures
        match prefixed_number(color_id@, "jww_color_"@, 65535) {
            Some(v) => n == Some(v as u16) && unchanged(*old(context), *final(context)),
            None => match rgb {
                None => n is None && blocked(
                    *old(context),
                    *final(context),
                    issue(
                        opt_str(entity_id),
                        "undefined_stroke_color"@,
                        "color "@ + debug_str(color_id@) + " is missing"@,
                    ),
                ),
                Some(value) => {
                    let upper = ascii_upper(value@);
                    match builtin_color_spec(upper) {
                        Some(b) => n == Some(b) && unchanged(*old(context), *final(context)),
                        None => blocked(
                            *old(context),
                            *final(context),
                            issue(
                                opt_str(entity_id),
                                "unsupported_stroke_color"@,
                                "color "@ + upper
                                    + " is mapped to the nearest built-in JWW pen color"@,
                            ),
                        ) && n == if old(context).options.allow_lossy {
                            Some(nearest_color_spec(upper))
                        } else {
                            None
                        },
                    }
                },
            },
        },
{
    if let Some(value) = parse_prefixed(color_id, "jww_color_", 65535) {
        return Some(value as u16);
    }
    let value = match rgb {
        Some(v) => v,
        None => {
            let quoted = debug_quoted(color_id);
            let message = concat3("color ", quoted.as_str(), " is missing");
            context.block(entity_id, "undefined_stroke_color", message);
            return None;
        },
    };
    let upper = ascii_uppercase(value);
    if let Some(number) = builtin_color_number(upper.as_str()) {
        return Some(number);
    }
    let message = concat3("color ", upper.as_str(), " is mapped to the nearest built-in JWW pen color");
    context.block(entity_id, "unsupported_stroke_color", message);
    if context.options.allow_lossy {
        Some(nearest_builtin_color_number(upper.as_str()))
    } else {
        None
    }
}

/// Text for the JWW file: text that CP932 can represent is kept; other text
/// is an approximation and becomes its CP932 rendering, or empty text when
/// approximations are strict.
pub fn cp932_text(value: &str, entity_id: Option<&str>, context: &mut ExportContext) -> (out: String)
    ensures
        if !sjis_encode(value@).1 {
            out@ == value@ && unchanged(*old(context), *final(context))
        } else {
            approximated(
                *old(context),
                *final(context),
                issue(
                    opt_str(entity_id),
                    "unencodable_text"@,
                    "text "@ + debug_str(value@) + " cannot be represented in CP932"@,
                ),
            ) && out@ == if old(context).options.strict_approximations {
                Seq::empty()
            } else {
                sjis_decode(sjis_encode(value@).0).0
            }
        },
{
    let (encoded, had_errors) = encode_sjis(value);
    if !had_errors {
        return value.to_owned();
    }
    let quoted = debug_quoted(value);
    let message = concat3("text ", quoted.as_str(), " cannot be represented in CP932");
    context.approximate(entity_id, "unencodable_text", message);
    if !context.options.strict_approximations {
        let (decoded, _) = decode_sjis(encoded.as_slice());
        string_from_chars(decoded.as_slice())
    } else {
        String::new()
    }
}

// ---------------------------------------------------------------------------
// Records
// ---------------------------------------------------------------------------

pub open spec fn zero_base() -> Base {
    Base { group: 0, pen_style: 0, pen_color: 0, pen_width: 0, layer: 0, layer_group: 0, flag: 0 }
}

fn default_base() -> (b: Base)
    ensures
        b == zero_base(),
{
    Base { group: 0, pen_style: 0, pen_color: 0, pen_width: 0, layer: 0, layer_group: 0, flag: 0 }
}

/// The auxiliary line of a generated dimension: all zero.
pub fn zero_line_record() -> (r: Record)
    ensures
        r@ == (RecordV::Line { base: zero_base(), p1: [0, 0], p2: [0, 0] }),
{
    Record::Line { base: default_base(), p1: [0, 0], p2: [0, 0] }
}

/// The auxiliary point of a generated dimension: all zero, no marker.
pub fn zero_point_record() -> (r: Record)
    ensures
        r@ == (RecordV::Point { base: zero_base(), at: [0, 0], temporary: false, marker: None }),
{
    Record::Point { base: default_base(), at: [0, 0], temporary: false, marker: None }
}

/// Appends a triangle as a solid whose fourth corner repeats the third.
pub fn push_solid_record(
    records: &mut Vec<Record>,
    base: Base,
    points: [[u64; 2]; 3],
    color: Option<u32>,
)
    ensures
        records_view(final(records)@) == records_view(old(records)@).push(
            RecordV::Solid {
                base,
                values: [
                    points[0][0],
                    points[0][1],
                    points[2][0],
                    points[2][1],
                    points[1][0],
                    points[1][1],
                    points[2][0],
                    points[2][1],
                ],
                color,
            },
        ),
{
    proof {
        lemma_records_view(old(records)@);
    }
    records.push(
        Record::Solid {
            base,
            values: [
                points[0][0],
                points[0][1],
                points[2][0],
                points[2][1],
                points[1][0],
                points[1][1],
                points[2][0],
                points[2][1],
            ],
            color,
        },
    );
    proof {
        lemma_records_view(records@);
        assert(records_view(records@) =~= records_view(old(records)@).push(
            records@[records@.len() - 1]@,
        ));
    }
}

/// A regenerated record over a preserved one: a text keeps its preserved
/// text type and font; a line, arc, point, solid or block is taken as
/// generated; any other pairing (a change of kind, or a dimension) is none.
pub open spec fn merge_spec(original: RecordV, generated: RecordV) -> Option<RecordV> {
    match (original, generated) {
        (
            RecordV::Text { text_type, font: original_font, .. },
            RecordV::Text { base, start, end, size_x, size_y, spacing, angle_deg, value, .. },
        ) => Some(
            RecordV::Text {
                base,
                start,
                end,
                text_type,
                size_x,
                size_y,
                spacing,
                angle_deg,
                font: original_font,
                value,
            },
        ),
        (RecordV::Line { .. }, RecordV::Line { .. }) => Some(generated),
        (RecordV::Arc { .. }, RecordV::Arc { .. }) => Some(generated),
        (RecordV::Point { .. }, RecordV::Point { .. }) => Some(generated),
        (RecordV::Solid { .. }, RecordV::Solid { .. }) => Some(generated),
        (RecordV::Block { .. }, RecordV::Block { .. }) => Some(generated),
        _ => None,
    }
}

pub open spec fn opt_record_view(o: Option<Record>) -> Option<RecordV> {
    match o {
        Some(r) => Some(r@),
        None => None,
    }
}

pub fn merge_preserved_record(original: &Record, generated: Record) -> (merged: Option<Record>)
    ensures
        opt_record_view(merged) == merge_spec(original@, generated@),
{
    match (original, generated) {
        (
            Record::Text { text_type, font: original_font, .. },
            Record::Text { base, start, end, size_x, size_y, spacing, angle_deg, value, .. },
        ) => Some(
            Record::Text {
                base,
                start,
                end,
                text_type: *text_type,
                size_x,
                size_y,
                spacing,
                angle_deg,
                font: original_font.clone(),
                value,
            },
        ),
        (Record::Line { .. }, generated) => match generated {
            Record::Line { .. } => Some(generated),
            _ => None,
        },
        (Record::Arc { .. }, generated) => match generated {
            Record::Arc { .. } => Some(generated),
            _ => None,
        },
        (Record::Point { .. }, generated) => match generated {
            Record::Point { .. } => Some(generated),
            _ => None,
        },
        (Record::Solid { .. }, generated) => match generated {
            Record::Solid { .. } => Some(generated),
            _ => None,
        },
        (Record::Block { .. }, generated) => match generated {
            Record::Block { .. } => Some(generated),
            _ => None,
        },
        _ => None,
    }
}

/// A preserved dimension whose text value becomes `label`: the label must be
/// representable in CP932, and the preserved record must be a dimension with
/// a text record.
pub open spec fn dimension_with_label_spec(original: RecordV, label: Seq<char>) -> Result<
    RecordV,
    Seq<char>,
> {
    if sjis_encode(label).1 {
        Err("dimension text "@ + debug_str(label) + " cannot be represented in CP932"@)
    } else {
        match original {
            RecordV::Dimension { base, line, text, sxf_mode, aux_lines, aux_points } => match *text {
                RecordV::Text {
                    base: tb,
                    start,
                    end,
                    text_type,
                    size_x,
                    size_y,
                    spacing,
                    angle_deg,
                    font,
                    ..
                } => Ok(
                    RecordV::Dimension {
                        base,
                        line,
                        text: Box::new(
                            RecordV::Text {
                                base: tb,
                                start,
                                end,
                                text_type,
                                size_x,
                                size_y,
                                spacing,
                                angle_deg,
                                font,
                                value: label,
                            },
                        ),
                        sxf_mode,
                        aux_lines,
                        aux_points,
                    },
                ),
                _ => Err("the preserved JWW dimension has no editable text record"@),
            },
            _ => Err("the preserved record is not a JWW dimension"@),
        }
    }
}

pub fn preserved_dimension_with_label(original: &Record, label: &str) -> (res: Result<
    Record,
    String,
>)
    ensures
        match (res, dimension_with_label_spec(original@, label@)) {
            (Ok(r), Ok(s)) => r@ == s,
            (Err(e), Err(m)) => e@ == m,
            _ => false,
        },
{
    let (_, had_errors) = encode_sjis(label);
    if had_errors {
        let quoted = debug_quoted(label);
        return Err(concat3("dimension text ", quoted.as_str(), " cannot be represented in CP932"));
    }
    let record = clone_record(original);
    match record {
        Record::Dimension { base, line, text, sxf_mode, aux_lines, aux_points } => {
            let ghost tv = (*text)@;
            assert(original@->Dimension_text == Box::new(tv));
            let inner = *text;
            match inner {
            Record::Text {
                base: tb,
                start,
                end,
                text_type,
                size_x,
                size_y,
                spacing,
                angle_deg,
                font,
                ..
            } => {
                let new_text = Record::Text {
                    base: tb,
                    start,
                    end,
                    text_type,
                    size_x,
                    size_y,
                    spacing,
                    angle_deg,
                    font,
                    value: label.to_owned(),
                };
                let ghost nt = new_text@;
                assert(tv matches RecordV::Text { .. });
                assert(nt == (RecordV::Text {
                    base: tv->Text_base,
                    start: tv->Text_start,
                    end: tv->Text_end,
                    text_type: tv->Text_text_type,
                    size_x: tv->Text_size_x,
                    size_y: tv->Text_size_y,
                    spacing: tv->Text_spacing,
                    angle_deg: tv->Text_angle_deg,
                    font: tv->Text_font,
                    value: label@,
                }));
                let out = Record::Dimension {
                    base,
                    line,
                    text: Box::new(new_text),
                    sxf_mode,
                    aux_lines,
                    aux_points,
                };
                assert(out@->Dimension_text == Box::new(nt));
                Ok(out)
            },
            _ => Err("the preserved JWW dimension has no editable text record".to_owned()),
        }
        },
        _ => Err("the preserved record is not a JWW dimension".to_owned()),
    }
}

// ---------------------------------------------------------------------------
// Block archives
// ---------------------------------------------------------------------------

pub open spec fn blocks_view(bs: Seq<BlockDefinition>) -> Seq<BlockDefinitionV> {
    bs.map_values(|b: BlockDefinition| b@)
}

pub open spec fn numbers_of(bs: Seq<BlockDefinitionV>) -> Seq<u32> {
    bs.map_values(|b: BlockDefinitionV| b.number)
}

/// The records of the block definitions, in order.
pub open spec fn all_block_records(bs: Seq<BlockDefinitionV>) -> Seq<RecordV>
    decreases bs.len(),
{
    if bs.len() == 0 {
        Seq::empty()
    } else {
        all_block_records(bs.drop_last()) + bs.last().records
    }
}

/// The issues of one definition, given the numbers of those before it: too
/// many records, and a number used before.
pub open spec fn definition_issue(b: BlockDefinitionV, earlier: Seq<u32>) -> Seq<ExportIssueV> {
    (if b.records.len() > 65_534 {
        seq![
            issue(
                None,
                "block_record_limit"@,
                "JWW block definition "@ + decimal(b.number as nat) + " exceeds 65534 records"@,
            ),
        ]
    } else {
        Seq::empty()
    }) + (if earlier.contains(b.number) {
        seq![
            issue(
                None,
                "duplicate_block_definition"@,
                "JWW block definition number "@ + decimal(b.number as nat)
                    + " is used more than once"@,
            ),
        ]
    } else {
        Seq::empty()
    })
}

pub open spec fn definition_issues(bs: Seq<BlockDefinitionV>) -> Seq<ExportIssueV>
    decreases bs.len(),
{
    if bs.len() == 0 {
        Seq::empty()
    } else {
        definition_issues(bs.drop_last()) + definition_issue(
            bs.last(),
            numbers_of(bs.drop_last()),
        )
    }
}

/// A block reference to a definition number that no definition has.
pub open spec fn missing_issue(r: RecordV, defs: Seq<u32>) -> Seq<ExportIssueV> {
    match r {
        RecordV::Block { def_number, .. } => if defs.contains(def_number) {
            Seq::empty()
        } else {
            seq![
                issue(
                    None,
                    "missing_block_definition"@,
                    "JWW block reference points to missing definition number "@ + decimal(
                        def_number as nat,
                    ),
                ),
            ]
        },
        _ => Seq::empty(),
    }
}

pub open spec fn missing_issues(rs: Seq<RecordV>, defs: Seq<u32>) -> Seq<ExportIssueV>
    decreases rs.len(),
{
    if rs.len() == 0 {
        Seq::empty()
    } else {
        missing_issues(rs.drop_last(), defs) + missing_issue(rs.last(), defs)
    }
}

/// The blockers of a preserved archive: more than 65 534 top-level records;
/// for each definition, too many records or a reused number; then each block
/// reference, top level first, whose definition does not exist.
pub open spec fn archive_issues(rs: Seq<RecordV>, bs: Seq<BlockDefinitionV>) -> Seq<ExportIssueV> {
    (if rs.len() > 65_534 {
        seq![
            issue(None, "record_limit"@, "JWW supports at most 65534 top-level records"@),
        ]
    } else {
        Seq::empty()
    }) + definition_issues(bs) + missing_issues(rs + all_block_records(bs), numbers_of(bs))
}

fn push_issue(blockers: &mut Vec<ExportIssue>, code: &str, message: String)
    ensures
        issues_view(final(blockers)@) == issues_view(old(blockers)@).push(
            issue(None, code@, message@),
        ),
{
    let i = make_issue(None, code, message);
    blockers.push(i);
    assert(issues_view(blockers@) =~= issues_view(old(blockers)@).push(i@));
}

fn check_reference(
    record: &Record,
    definitions: &Vec<u32>,
    blockers: &mut Vec<ExportIssue>,
    Ghost(seen): Ghost<Seq<RecordV>>,
    Ghost(base): Ghost<Seq<ExportIssueV>>,
)
    requires
        issues_view(old(blockers)@) == base + missing_issues(seen, definitions@),
    ensures
        issues_view(final(blockers)@) == base + missing_issues(seen.push(record@), definitions@),
{
    proof {
        assert(seen.push(record@).drop_last() =~= seen);
    }
    if let Record::Block { def_number, .. } = record {
        if !contains_u32(definitions, *def_number) {
            let head = text_with_number(
                "JWW block reference points to missing definition number ",
                *def_number as u64,
            );
            push_issue(blockers, "missing_block_definition", head);
        }
    }
    assert(issues_view(blockers@) =~= base + missing_issues(seen.push(record@), definitions@));
}

pub fn validate_preserved_block_archive(
    records: &Vec<Record>,
    blocks: &Vec<BlockDefinition>,
    blockers: &mut Vec<ExportIssue>,
)
    ensures
        issues_view(final(blockers)@) == issues_view(old(blockers)@) + archive_issues(
            records_view(records@),
            blocks_view(blocks@),
        ),
{
    let ghost start = issues_view(blockers@);
    let ghost rs = records_view(records@);
    let ghost bs = blocks_view(blocks@);
    proof {
        lemma_records_view(records@);
    }
    if records.len() > 65_534 {
        push_issue(blockers, "record_limit", "JWW supports at most 65534 top-level records".to_owned());
    }
    let ghost lim = issues_view(blockers@);
    assert(definition_issues(bs.take(0)) =~= Seq::<ExportIssueV>::empty());
    assert(lim =~= lim + definition_issues(bs.take(0)));
    let mut definitions: Vec<u32> = Vec::new();
    let mut j: usize = 0;
    while j < blocks.len()
        invariant
            bs == blocks_view(blocks@),
            j <= blocks.len(),
            definitions@ == numbers_of(bs.take(j as int)),
            issues_view(blockers@) == lim + definition_issues(bs.take(j as int)),
        decreases blocks.len() - j,
    {
        let definition = &blocks[j];
        let ghost before = issues_view(blockers@);
        let ghost b = bs[j as int];
        assert(b == definition@);
        proof {
            lemma_records_view(definition.records@);
        }
        if definition.records.len() > 65_534 {
            let head = text_with_number("JWW block definition ", definition.number as u64);
            let message = concat_str(head.as_str(), " exceeds 65534 records");
            push_issue(blockers, "block_record_limit", message);
        }
        let ghost mid = issues_view(blockers@);
        if contains_u32(&definitions, definition.number) {
            let head = text_with_number("JWW block definition number ", definition.number as u64);
            let message = concat_str(head.as_str(), " is used more than once");
            push_issue(blockers, "duplicate_block_definition", message);
        }
        definitions.push(definition.number);
        proof {
            assert(bs.take(j + 1).drop_last() =~= bs.take(j as int));
            assert(bs.take(j + 1).last() == b);
            assert(numbers_of(bs.take(j + 1)) =~= numbers_of(bs.take(j as int)).push(b.number));
            assert(issues_view(blockers@) =~= before + definition_issue(b, numbers_of(bs.take(j as int))));
        }
        j = j + 1;
    }
    assert(bs.take(j as int) =~= bs);
    let ghost defs = definitions@;
    assert(defs == numbers_of(bs));
    let ghost after_defs = issues_view(blockers@);
    assert(missing_issues(rs.take(0), defs) =~= Seq::<ExportIssueV>::empty());
    assert(after_defs =~= after_defs + missing_issues(rs.take(0), defs));
    let mut i: usize = 0;
    while i < records.len()
        invariant
            rs == records_view(records@),
            rs.len() == records@.len(),
            forall|k: int| 0 <= k < records@.len() ==> #[trigger] rs[k] == records@[k]@,
            definitions@ == defs,
            i <= records.len(),
            issues_view(blockers@) == after_defs + missing_issues(rs.take(i as int), defs),
        decreases records.len() - i,
    {
        check_reference(&records[i], &definitions, blockers, Ghost(rs.take(i as int)), Ghost(after_defs));
        assert(rs.take(i as int).push(records@[i as int]@) =~= rs.take(i + 1));
        i = i + 1;
    }
    assert(rs.take(i as int) =~= rs);
    assert(rs + all_block_records(bs.take(0)) =~= rs);
    let mut j: usize = 0;
    while j < blocks.len()
        invariant
            bs == blocks_view(blocks@),
            definitions@ == defs,
            j <= blocks.len(),
            issues_view(blockers@) == after_defs + missing_issues(
                rs + all_block_records(bs.take(j as int)),
                defs,
            ),
        decreases blocks.len() - j,
    {
        let definition = &blocks[j];
        let ghost prefix = rs + all_block_records(bs.take(j as int));
        let ghost brs = records_view(definition.records@);
        proof {
            lemma_records_view(definition.records@);
            assert(prefix + brs.take(0) =~= prefix);
        }
        let mut i: usize = 0;
        while i < definition.records.len()
            invariant
                brs == records_view(definition.records@),
                brs.len() == definition.records@.len(),
                forall|k: int| 0 <= k < definition.records@.len() ==> #[trigger] brs[k]
                    == definition.records@[k]@,
                definitions@ == defs,
                i <= definition.records.len(),
                issues_view(blockers@) == after_defs + missing_issues(
                    prefix + brs.take(i as int),
                    defs,
                ),
            decreases definition.records.len() - i,
        {
            check_reference(
                &definition.records[i],
                &definitions,
                blockers,
                Ghost(prefix + brs.take(i as int)),
                Ghost(after_defs),
            );
            assert((prefix + brs.take(i as int)).push(definition.records@[i as int]@) =~= prefix
                + brs.take(i + 1));
            i = i + 1;
        }
        proof {
            assert(brs.take(i as int) =~= brs);
            assert(bs.take(j + 1).drop_last() =~= bs.take(j as int));
            assert(bs.take(j + 1).last() == bs[j as int]);
            assert(bs[j as int] == definition@);
            assert(prefix + brs =~= rs + all_block_records(bs.take(j + 1)));
        }
        j = j + 1;
    }
    assert(bs.take(j as int) =~= bs);
}

// ---------------------------------------------------------------------------
// Preserved export: block numbers and one-to-one regeneration
// ---------------------------------------------------------------------------

/// The largest of the numbers, 0 when there are none.
pub open spec fn max_number(ns: Seq<u32>) -> u32
    decreases ns.len(),
{
    if ns.len() == 0 {
        0
    } else {
        let m = max_number(ns.drop_last());
        if ns.last() > m {
            ns.last()
        } else {
            m
        }
    }
}

pub open spec fn next_number(n: u32) -> Option<u32> {
    if n == u32::MAX {
        None
    } else {
        Some((n + 1) as u32)
    }
}

/// Numbers for the blocks of the project that have none, in order: each
/// takes the next free number until the numbers run out; then the rest
/// are the blocks left without one. Returns the numbers given, the blocks
/// left without one, and the next free number.
pub open spec fn assign_spec(
    ids: Seq<Seq<char>>,
    preserved: Seq<Seq<char>>,
    first: Option<u32>,
) -> (Seq<(Seq<char>, u32)>, Seq<Seq<char>>, Option<u32>)
    decreases ids.len(),
{
    if ids.len() == 0 {
        (Seq::empty(), Seq::empty(), first)
    } else {
        let (given, left, next) = assign_spec(ids.drop_last(), preserved, first);
        let id = ids.last();
        if preserved.contains(id) {
            (given, left, next)
        } else {
            match next {
                None => (given, left.push(id), None),
                Some(n) => (given.push((id, n)), left, next_number(n)),
            }
        }
    }
}

pub open spec fn numbered_view(v: Seq<(String, u32)>) -> Seq<(Seq<char>, u32)> {
    v.map_values(|x: (String, u32)| (x.0@, x.1))
}

pub open spec fn exhausted_issue(id: Seq<char>) -> ExportIssueV {
    ExportIssueV {
        code: "block_number_exhausted"@,
        message: "no JWW block definition number remains for "@ + debug_str(id),
        entity_id: None,
    }
}

pub open spec fn exhausted_issues(left: Seq<Seq<char>>) -> Seq<ExportIssueV>
    decreases left.len(),
{
    if left.len() == 0 {
        Seq::empty()
    } else {
        exhausted_issues(left.drop_last()).push(exhausted_issue(left.last()))
    }
}

fn contains_id(v: &Vec<(String, u32)>, id: &str) -> (found: bool)
    ensures
        found == numbered_view(v@).map_values(|x: (Seq<char>, u32)| x.0).contains(id@),
{
    let ghost keys = numbered_view(v@).map_values(|x: (Seq<char>, u32)| x.0);
    let mut i: usize = 0;
    while i < v.len()
        invariant
            i <= v@.len(),
            keys == numbered_view(v@).map_values(|x: (Seq<char>, u32)| x.0),
            forall|j: int| 0 <= j < i ==> keys[j] != id@,
        decreases v.len() - i,
    {
        if str_eq(v[i].0.as_str(), id) {
            assert(keys[i as int] == id@);
            return true;
        }
        i = i + 1;
    }
    false
}

/// The block numbers of a preserved export: every preserved block keeps its
/// number, and the project's other blocks, in id order, are numbered on from
/// the largest preserved number. A block left without a number is a blocker.
pub fn assign_block_numbers(preserved: &Vec<(String, u32)>, project_blocks: &Vec<String>) -> (out: (
    Vec<(String, u32)>,
    Vec<ExportIssue>,
))
    ensures
        ({
            let keys = numbered_view(preserved@).map_values(|x: (Seq<char>, u32)| x.0);
            let first = next_number(max_number(preserved@.map_values(|x: (String, u32)| x.1)));
            let (given, left, _) = assign_spec(
                project_blocks@.map_values(|s: String| s@),
                keys,
                first,
            );
            &&& numbered_view(out.0@) == numbered_view(preserved@) + given
            &&& issues_view(out.1@) == exhausted_issues(left)
        }),
{
    let ghost numbers = preserved@.map_values(|x: (String, u32)| x.1);
    let ghost keys = numbered_view(preserved@).map_values(|x: (Seq<char>, u32)| x.0);
    let ghost ids = project_blocks@.map_values(|s: String| s@);
    let mut max: u32 = 0;
    let mut i: usize = 0;
    while i < preserved.len()
        invariant
            i <= preserved@.len(),
            numbers == preserved@.map_values(|x: (String, u32)| x.1),
            max == max_number(numbers.subrange(0, i as int)),
        decreases preserved.len() - i,
    {
        proof {
            assert(numbers.subrange(0, i + 1).drop_last() =~= numbers.subrange(0, i as int));
        }
        if preserved[i].1 > max {
            max = preserved[i].1;
        }
        i = i + 1;
    }
    assert(numbers.subrange(0, i as int) =~= numbers);
    let mut next: Option<u32> = max.checked_add(1);
    let ghost first = next;
    let mut out: Vec<(String, u32)> = Vec::new();
    let mut k: usize = 0;
    while k < preserved.len()
        invariant
            k <= preserved@.len(),
            numbered_view(out@) == numbered_view(preserved@).subrange(0, k as int),
        decreases preserved.len() - k,
    {
        let ghost before = numbered_view(out@);
        out.push((preserved[k].0.clone(), preserved[k].1));
        assert(numbered_view(out@) =~= before.push((preserved@[k as int].0@, preserved@[k as int].1)));
        assert(numbered_view(preserved@).subrange(0, k + 1) =~= before.push(
            (preserved@[k as int].0@, preserved@[k as int].1),
        ));
        k = k + 1;
    }
    assert(numbered_view(preserved@).subrange(0, k as int) =~= numbered_view(preserved@));
    let ghost base = numbered_view(out@);
    let mut blockers: Vec<ExportIssue> = Vec::new();
    let mut j: usize = 0;
    assert(base + Seq::<(Seq<char>, u32)>::empty() =~= base);
    assert(issues_view(blockers@) =~= Seq::<ExportIssueV>::empty());
    assert(ids.subrange(0, 0) =~= Seq::<Seq<char>>::empty());
    while j < project_blocks.len()
        invariant
            j <= project_blocks@.len(),
            ids == project_blocks@.map_values(|s: String| s@),
            keys == numbered_view(preserved@).map_values(|x: (Seq<char>, u32)| x.0),
            base == numbered_view(preserved@),
            numbered_view(out@) == base + assign_spec(ids.subrange(0, j as int), keys, first).0,
            issues_view(blockers@) == exhausted_issues(
                assign_spec(ids.subrange(0, j as int), keys, first).1,
            ),
            next == assign_spec(ids.subrange(0, j as int), keys, first).2,
        decreases project_blocks.len() - j,
    {
        let id = &project_blocks[j];
        proof {
            assert(ids.subrange(0, j + 1).drop_last() =~= ids.subrange(0, j as int));
            assert(ids.subrange(0, j + 1).last() == id@);
        }
        let ghost st = assign_spec(ids.subrange(0, j as int), keys, first);
        if !contains_id(preserved, id.as_str()) {
            match next {
                None => {
                    let quoted = debug_quoted(id.as_str());
                    let issue = ExportIssue {
                        code: "block_number_exhausted".to_owned(),
                        message: concat_str(
                            "no JWW block definition number remains for ",
                            quoted.as_str(),
                        ),
                        entity_id: None,
                    };
                    let ghost before = issues_view(blockers@);
                    blockers.push(issue);
                    assert(issues_view(blockers@) =~= before.push(exhausted_issue(id@)));
                    assert(exhausted_issues(st.1.push(id@)) == exhausted_issues(st.1).push(
                        exhausted_issue(id@),
                    )) by {
                        assert(st.1.push(id@).drop_last() =~= st.1);
                    }
                },
                Some(number) => {
                    let ghost before = numbered_view(out@);
                    out.push((id.clone(), number));
                    assert(numbered_view(out@) =~= before.push((id@, number)));
                    assert(numbered_view(out@) =~= base + st.0.push((id@, number)));
                    next = number.checked_add(1);
                },
            }
        }
        j = j + 1;
    }
    assert(ids.subrange(0, j as int) =~= ids);
    (out, blockers)
}

/// Whether a preserved record is a text or a dimension, whose regeneration
/// may substitute the font.
pub open spec fn text_like(original: Option<RecordV>) -> bool {
    original matches Some(r) && (r is Text || r is Dimension)
}

/// A warning that keeps a regenerated record from replacing its preserved
/// record one for one: any but an approximated dimension style, or a
/// substituted font of a text or dimension.
pub open spec fn unfit(w: ExportIssueV, text_like: bool) -> bool {
    w.code != "dimension_style_approximated"@ && !(w.code == "font_substituted"@ && text_like)
}

pub open spec fn first_unfit(ws: Seq<ExportIssueV>, text_like: bool) -> Option<int> {
    if exists|i: int| 0 <= i < ws.len() && unfit(#[trigger] ws[i], text_like) {
        Some(
            choose|i: int|
                0 <= i < ws.len() && unfit(#[trigger] ws[i], text_like) && forall|j: int|
                    0 <= j < i ==> !unfit(ws[j], text_like),
        )
    } else {
        None
    }
}

/// How an edited entity of a preserved export is carried over, once its
/// records were generated.
#[derive(Debug)]
pub enum PreservedConversion {
    /// One record without an unfit warning: it replaces the preserved one.
    OneToOne,
    /// The generated records are kept, followed by this warning.
    Expanded(ExportIssue),
    /// The generated records are dropped and this blocker is reported.
    Blocked(ExportIssue),
}

pub open spec fn preserved_conversion_spec(
    generated: usize,
    warnings: Seq<ExportIssueV>,
    original: Option<RecordV>,
    allow_lossy: bool,
    entity_id: Seq<char>,
) -> Result<Option<ExportIssueV>, ExportIssueV> {
    let w = first_unfit(warnings, text_like(original));
    if generated != 1 || w is Some {
        if allow_lossy && generated > 0 {
            Ok(
                Some(
                    ExportIssueV {
                        code: "preserved_entity_expanded"@,
                        message: "edited entity was replaced by "@ + decimal(generated as nat)
                            + " generated JWW record(s)"@,
                        entity_id: Some(entity_id),
                    },
                ),
            )
        } else {
            Err(
                ExportIssueV {
                    code: "preserved_entity_not_one_to_one"@,
                    message: match w {
                        Some(i) => warnings[i].message,
                        None => "edited preserve export requires one JWW record per CAD entity"@,
                    },
                    entity_id: Some(entity_id),
                },
            )
        }
    } else {
        Ok(None)
    }
}

pub open spec fn opt_record(o: Option<&Record>) -> Option<RecordV> {
    match o {
        Some(r) => Some(r@),
        None => None,
    }
}

fn find_unfit(warnings: &Vec<ExportIssue>, text_like: bool) -> (index: Option<usize>)
    ensures
        match index {
            Some(i) => first_unfit(issues_view(warnings@), text_like) == Some(i as int) && i
                < warnings@.len(),
            None => first_unfit(issues_view(warnings@), text_like) is None,
        },
{
    let ghost ws = issues_view(warnings@);
    let mut i: usize = 0;
    while i < warnings.len()
        invariant
            i <= warnings@.len(),
            ws == issues_view(warnings@),
            forall|j: int| 0 <= j < i ==> !unfit(#[trigger] ws[j], text_like),
        decreases warnings.len() - i,
    {
        let code = warnings[i].code.as_str();
        let font = str_eq(code, "font_substituted");
        if !str_eq(code, "dimension_style_approximated") && !(font && text_like) {
            proof {
                assert(unfit(ws[i as int], text_like));
                let c = first_unfit(ws, text_like)->Some_0;
                assert(c == i) by {
                    if c < i {
                        assert(!unfit(ws[c], text_like));
                    } else if c > i {
                        assert(!unfit(ws[i as int], text_like));
                    }
                }
            }
            return Some(i);
        }
        i = i + 1;
    }
    None
}

/// Decides how an edited entity of a preserved export is carried over from
/// the number of records generated for it, the warnings raised meanwhile and
/// its preserved record.
pub fn preserved_conversion(
    generated: usize,
    new_warnings: &Vec<ExportIssue>,
    original: Option<&Record>,
    allow_lossy: bool,
    entity_id: &str,
) -> (outcome: PreservedConversion)
    ensures
        match (outcome, preserved_conversion_spec(
            generated,
            issues_view(new_warnings@),
            opt_record(original),
            allow_lossy,
            entity_id@,
        )) {
            (PreservedConversion::OneToOne, Ok(None)) => true,
            (PreservedConversion::Expanded(w), Ok(Some(v))) => w@ == v,
            (PreservedConversion::Blocked(b), Err(v)) => b@ == v,
            _ => false,
        },
{
    let ghost ws = issues_view(new_warnings@);
    let text_like_original = match original {
        Some(Record::Text { .. }) => true,
        Some(Record::Dimension { .. }) => true,
        _ => false,
    };
    assert(text_like_original == text_like(opt_record(original)));
    let unfit_index = find_unfit(new_warnings, text_like_original);
    if generated != 1 || unfit_index.is_some() {
        if allow_lossy && generated > 0 {
            let head = text_with_number("edited entity was replaced by ", generated as u64);
            return PreservedConversion::Expanded(
                ExportIssue {
                    code: "preserved_entity_expanded".to_owned(),
                    message: concat_str(head.as_str(), " generated JWW record(s)"),
                    entity_id: Some(entity_id.to_owned()),
                },
            );
        }
        let message = match unfit_index {
            Some(k) => new_warnings[k].message.clone(),
            None => "edited preserve export requires one JWW record per CAD entity".to_owned(),
        };
        return PreservedConversion::Blocked(
            ExportIssue {
                code: "preserved_entity_not_one_to_one".to_owned(),
                message,
                entity_id: Some(entity_id.to_owned()),
            },
        );
    }
    PreservedConversion::OneToOne
}

/// The issue raised when a regenerated record changes the preserved
/// record's class: a warning when lossy export is allowed, else a blocker.
pub fn record_class_change_issue(allow_lossy: bool, entity_id: &str) -> (issue: ExportIssue)
    ensures
        issue@.code == "preserved_record_type_changed"@,
        issue@.message == if allow_lossy {
            "the edited entity was regenerated as a different JWW record class"@
        } else {
            "the edit changes the underlying JWW record class"@
        },
        issue@.entity_id == Some(entity_id@),
{
    ExportIssue {
        code: "preserved_record_type_changed".to_owned(),
        message: if allow_lossy {
            "the edited entity was regenerated as a different JWW record class".to_owned()
        } else {
            "the edit changes the underlying JWW record class".to_owned()
        },
        entity_id: Some(entity_id.to_owned()),
    }
}

// ---------------------------------------------------------------------------
// Sources changed since a preservation snapshot
// ---------------------------------------------------------------------------

/// A source file's revision: its path, the revision of its bytes, and
/// whether it exists.
#[derive(Debug, Clone, PartialEq, Eq)]
pub struct SourceFileRevision {
    pub relative_path: String,
    pub revision: String,
    pub exists: bool,
}

/// The revision recorded for a path: the last entry that names it.
pub open spec fn recorded(v: Seq<SourceFileRevision>, path: Seq<char>) -> Option<(Seq<char>, bool)>
    decreases v.len(),
{
    if v.len() == 0 {
        None
    } else if v.last().relative_path@ == path {
        Some((v.last().revision@, v.last().exists))
    } else {
        recorded(v.drop_last(), path)
    }
}

/// The paths strictly in increasing order, as strings compare.
pub open spec fn strictly_sorted_paths(v: Seq<Seq<char>>) -> bool {
    forall|i: int, j: int|
        0 <= i < j < v.len() ==> bytes_lt(encode_utf8(#[trigger] v[i]), encode_utf8(#[trigger] v[j]))
}

fn recorded_exec<'a>(v: &'a Vec<SourceFileRevision>, path: &str) -> (found: Option<(&'a String, bool)>)
    ensures
        match (found, recorded(v@, path@)) {
            (Some((r, e)), Some((s, f))) => r@ == s && e == f,
            (None, None) => true,
            _ => false,
        },
{
    let mut i = v.len();
    assert(v@.subrange(0, i as int) =~= v@);
    while i > 0
        invariant
            i <= v@.len(),
            recorded(v@, path@) == recorded(v@.subrange(0, i as int), path@),
        decreases i,
    {
        let entry = &v[i - 1];
        proof {
            let p = v@.subrange(0, i as int);
            assert(p.drop_last() =~= v@.subrange(0, i - 1));
            assert(p.last() == v@[i - 1]);
        }
        if str_eq(entry.relative_path.as_str(), path) {
            return Some((&entry.revision, entry.exists));
        }
        i = i - 1;
    }
    None
}

fn path_changed(expected: &Vec<SourceFileRevision>, current: &Vec<SourceFileRevision>, path: &str) -> (changed:
    bool)
    ensures
        changed == (recorded(expected@, path@) != recorded(current@, path@)),
{
    match (recorded_exec(expected, path), recorded_exec(current, path)) {
        (Some((r1, e1)), Some((r2, e2))) => !(e1 == e2 && str_eq(r1.as_str(), r2.as_str())),
        (None, None) => false,
        _ => true,
    }
}

proof fn lemma_encode_injective(a: Seq<char>, b: Seq<char>)
    requires
        encode_utf8(a) == encode_utf8(b),
    ensures
        a == b,
{
    vstd::utf8::encode_utf8_decode_utf8(a);
    vstd::utf8::encode_utf8_decode_utf8(b);
}

/// Adds a path to a strictly sorted list unless it is there.
fn insert_path(paths: &mut Vec<String>, path: &str)
    requires
        strictly_sorted_paths(ids_of(old(paths)@)),
    ensures
        strictly_sorted_paths(ids_of(final(paths)@)),
        forall|p: Seq<char>| #[trigger] ids_of(final(paths)@).contains(p) <==> (ids_of(
            old(paths)@,
        ).contains(p) || p == path@),
{
    let ghost s = ids_of(paths@);
    let x = path.as_bytes();
    let mut k: usize = 0;
    while k < paths.len() && bytes_less_slice(paths[k].as_str().as_bytes(), x)
        invariant
            k <= paths@.len(),
            s == ids_of(paths@),
            strictly_sorted_paths(s),
            x@ == encode_utf8(path@),
            forall|i: int| 0 <= i < k ==> bytes_lt(encode_utf8(#[trigger] s[i]), x@),
        decreases paths.len() - k,
    {
        k = k + 1;
    }
    if k < paths.len() && str_eq(paths[k].as_str(), path) {
        assert(s[k as int] == path@);
        assert forall|p: Seq<char>| #[trigger] s.contains(p) <==> (s.contains(p) || p == path@) by {
            if p == path@ {
                assert(s[k as int] == p);
            }
        }
        return;
    }
    proof {
        if k < s.len() {
            assert(s[k as int] != path@);
            assert(!bytes_lt(encode_utf8(s[k as int]), x@));
            if encode_utf8(s[k as int]) == x@ {
                lemma_encode_injective(s[k as int], path@);
            }
            crate::manifest::lemma_bytes_lt_total(encode_utf8(s[k as int]), x@);
        }
    }
    paths.insert(k, path.to_owned());
    proof {
        let t = ids_of(paths@);
        assert(t =~= s.insert(k as int, path@));
        assert forall|i: int, j: int| 0 <= i < j < t.len() implies bytes_lt(
            encode_utf8(#[trigger] t[i]),
            encode_utf8(#[trigger] t[j]),
        ) by {
            if j == k {
                assert(t[i] == s[i]);
            } else if i == k {
                assert(t[j] == s[j - 1]);
                if j - 1 > k {
                    crate::manifest::lemma_bytes_lt_transitive(
                        x@,
                        encode_utf8(s[k as int]),
                        encode_utf8(s[j - 1]),
                    );
                }
            } else if j < k {
                assert(t[i] == s[i] && t[j] == s[j]);
            } else if i < k {
                assert(t[i] == s[i] && t[j] == s[j - 1]);
            } else {
                assert(t[i] == s[i - 1] && t[j] == s[j - 1]);
            }
        }
        assert forall|p: Seq<char>| #[trigger] t.contains(p) <==> (s.contains(p) || p == path@) by {
            if t.contains(p) {
                let i = choose|i: int| 0 <= i < t.len() && t[i] == p;
                if i < k {
                    assert(s[i] == p);
                } else if i > k {
                    assert(s[i - 1] == p);
                }
            }
            if s.contains(p) {
                let i = choose|i: int| 0 <= i < s.len() && s[i] == p;
                if i < k {
                    assert(t[i] == p);
                } else {
                    assert(t[i + 1] == p);
                }
            }
            if p == path@ {
                assert(t[k as int] == p);
            }
        }
    }
}

pub open spec fn ids_of(v: Seq<String>) -> Seq<Seq<char>> {
    v.map_values(|s: String| s@)
}

fn bytes_less_slice(a: &[u8], b: &[u8]) -> (lt: bool)
    ensures
        lt == bytes_lt(a@, b@),
{
    let mut i: usize = 0;
    assert(a@.subrange(0, a@.len() as int) =~= a@);
    assert(b@.subrange(0, b@.len() as int) =~= b@);
    while i < a.len() && i < b.len() && a[i] == b[i]
        invariant
            i <= a@.len(),
            i <= b@.len(),
            bytes_lt(a@, b@) == bytes_lt(a@.subrange(i as int, a@.len() as int), b@.subrange(
                i as int,
                b@.len() as int,
            )),
        decreases a.len() - i,
    {
        proof {
            let sa = a@.subrange(i as int, a@.len() as int);
            let sb = b@.subrange(i as int, b@.len() as int);
            assert(sa.drop_first() =~= a@.subrange(i + 1, a@.len() as int));
            assert(sb.drop_first() =~= b@.subrange(i + 1, b@.len() as int));
        }
        i = i + 1;
    }
    if i >= b.len() {
        false
    } else if i >= a.len() {
        true
    } else {
        a[i] < b[i]
    }
}

pub open spec fn names_path(v: Seq<SourceFileRevision>, p: Seq<char>) -> bool {
    exists|i: int| 0 <= i < v.len() && (#[trigger] v[i]).relative_path@ == p
}

proof fn lemma_recorded_some(v: Seq<SourceFileRevision>, p: Seq<char>)
    ensures
        recorded(v, p) is Some <==> names_path(v, p),
    decreases v.len(),
{
    if v.len() > 0 {
        lemma_recorded_some(v.drop_last(), p);
        if names_path(v, p) && v.last().relative_path@ != p {
            let i = choose|i: int| 0 <= i < v.len() && (#[trigger] v[i]).relative_path@ == p;
            assert(v.drop_last()[i] == v[i]);
        }
        if names_path(v.drop_last(), p) {
            let i = choose|i: int| 0 <= i < v.drop_last().len() && (#[trigger] v.drop_last()[i]).relative_path@ == p;
            assert(v[i] == v.drop_last()[i]);
        }
    }
}

/// The paths whose recorded revision or existence differs between a
/// preservation snapshot and the current sources (which the caller gives
/// without comment files), each once, in string order.
pub fn changed_jww_source_paths(expected: &Vec<SourceFileRevision>, current: &Vec<SourceFileRevision>) -> (paths:
    Vec<String>)
    ensures
        strictly_sorted_paths(ids_of(paths@)),
        forall|p: Seq<char>|
            #[trigger] ids_of(paths@).contains(p) <==> recorded(expected@, p) != recorded(
                current@,
                p,
            ),
{
    let mut paths: Vec<String> = Vec::new();
    let mut i: usize = 0;
    assert(ids_of(paths@) =~= Seq::<Seq<char>>::empty());
    while i < expected.len()
        invariant
            i <= expected@.len(),
            strictly_sorted_paths(ids_of(paths@)),
            forall|p: Seq<char>|
                #[trigger] ids_of(paths@).contains(p) <==> (exists|k: int|
                    0 <= k < i && (#[trigger] expected@[k]).relative_path@ == p) && recorded(
                    expected@,
                    p,
                ) != recorded(current@, p),
        decreases expected.len() - i,
    {
        let path = expected[i].relative_path.as_str();
        if path_changed(expected, current, path) {
            insert_path(&mut paths, path);
        }
        proof {
            assert forall|p: Seq<char>| #[trigger] ids_of(paths@).contains(p) <==> (exists|k: int|
                0 <= k < i + 1 && (#[trigger] expected@[k]).relative_path@ == p) && recorded(
                expected@,
                p,
            ) != recorded(current@, p) by {
                if p == path@ {
                    assert(expected@[i as int].relative_path@ == p);
                }
            }
        }
        i = i + 1;
    }
    let mut j: usize = 0;
    while j < current.len()
        invariant
            j <= current@.len(),
            strictly_sorted_paths(ids_of(paths@)),
            forall|p: Seq<char>|
                #[trigger] ids_of(paths@).contains(p) <==> (names_path(expected@, p) || exists|
                    k: int,
                | 0 <= k < j && (#[trigger] current@[k]).relative_path@ == p) && recorded(
                    expected@,
                    p,
                ) != recorded(current@, p),
        decreases current.len() - j,
    {
        let path = current[j].relative_path.as_str();
        if path_changed(expected, current, path) {
            insert_path(&mut paths, path);
        }
        proof {
            assert forall|p: Seq<char>| #[trigger] ids_of(paths@).contains(p) <==> (names_path(
                expected@,
                p,
            ) || exists|k: int| 0 <= k < j + 1 && (#[trigger] current@[k]).relative_path@ == p)
                && recorded(expected@, p) != recorded(current@, p) by {
                if p == path@ {
                    assert(current@[j as int].relative_path@ == p);
                }
            }
        }
        j = j + 1;
    }
    proof {
        assert forall|p: Seq<char>| #[trigger] ids_of(paths@).contains(p) <==> recorded(
            expected@,
            p,
        ) != recorded(current@, p) by {
            lemma_recorded_some(expected@, p);
            lemma_recorded_some(current@, p);
        }
    }
    paths
}

// ---------------------------------------------------------------------------
// Export errors and record provenance
// ---------------------------------------------------------------------------

/// Errors of a JWW export. Paths are given as text; the project loading and
/// I/O variants carry the underlying error's message.
#[derive(Debug)]
pub enum ExportError {
    Model(String),
    DrawingNotFound(String),
    OutputExists(String),
    Codec(CodecError),
    Write { path: String, detail: String },
    Preservation(String),
    RevisionConflict,
}

pub enum ExportErrorV {
    Model(Seq<char>),
    DrawingNotFound(Seq<char>),
    OutputExists(Seq<char>),
    Codec(CodecErrorV),
    Write { path: Seq<char>, detail: Seq<char> },
    Preservation(Seq<char>),
    RevisionConflict,
}

impl View for ExportError {
    type V = ExportErrorV;

    open spec fn view(&self) -> ExportErrorV {
        match self {
            ExportError::Model(s) => ExportErrorV::Model(s@),
            ExportError::DrawingNotFound(s) => ExportErrorV::DrawingNotFound(s@),
            ExportError::OutputExists(s) => ExportErrorV::OutputExists(s@),
            ExportError::Codec(e) => ExportErrorV::Codec(e@),
            ExportError::Write { path, detail } => ExportErrorV::Write { path: path@, detail: detail@ },
            ExportError::Preservation(s) => ExportErrorV::Preservation(s@),
            ExportError::RevisionConflict => ExportErrorV::RevisionConflict,
        }
    }
}

pub open spec fn export_error_message(e: ExportErrorV) -> Seq<char> {
    match e {
        ExportErrorV::Model(_) => "failed to load CAD project"@,
        ExportErrorV::DrawingNotFound(s) => "drawing "@ + debug_str(s) + " was not found"@,
        ExportErrorV::OutputExists(path) => "output already exists: "@ + path,
        ExportErrorV::Codec(_) => "failed to encode JWW"@,
        ExportErrorV::Write { path, .. } => "failed to write "@ + path,
        ExportErrorV::Preservation(s) => "JWW preservation is unavailable: "@ + s,
        ExportErrorV::RevisionConflict => "revision_conflict: canonical project sources changed during JWW export"@,
    }
}

impl ExportError {
    /// The error's message.
    pub fn message(&self) -> (m: String)
        ensures
            m@ == export_error_message(self@),
    {
        match self {
            ExportError::Model(_) => "failed to load CAD project".to_owned(),
            ExportError::DrawingNotFound(s) => {
                let quoted = debug_quoted(s.as_str());
                let head = concat_str("drawing ", quoted.as_str());
                concat_str(head.as_str(), " was not found")
            },
            ExportError::OutputExists(path) => concat_str("output already exists: ", path.as_str()),
            ExportError::Codec(_) => "failed to encode JWW".to_owned(),
            ExportError::Write { path, .. } => concat_str("failed to write ", path.as_str()),
            ExportError::Preservation(s) => concat_str(
                "JWW preservation is unavailable: ",
                s.as_str(),
            ),
            ExportError::RevisionConflict => "revision_conflict: canonical project sources changed during JWW export".to_owned(),
        }
    }
}

/// A JSON value of the CAD source, carried as `serde_json` parsed it.
#[verifier::external_type_specification]
#[verifier::external_body]
pub struct ExJsonValue(serde_json::Value);

/// A preserved entity: its owner (a drawing, or `block:` and a block id), its
/// id, its canonical CAD source and the record it was written as.
#[derive(Debug)]
pub struct ProvenanceRecord {
    pub owner: String,
    pub entity_id: String,
    pub canonical: serde_json::Value,
    pub record: Record,
}

/// What a record provenance file says of the preserved JWW file: its
/// entities, and its block definitions by block id.
#[derive(Debug)]
pub struct RecordProvenance {
    pub entities: Vec<ProvenanceRecord>,
    pub blocks: Vec<(String, BlockDefinition)>,
}

impl RecordProvenance {
    pub fn new() -> (p: Self)
        ensures
            p.entities@.len() == 0,
            p.blocks@.len() == 0,
    {
        RecordProvenance { entities: Vec::new(), blocks: Vec::new() }
    }
}

/// One parsed line of a record provenance file, with an entity's canonical
/// source parsed as JSON.
#[derive(Debug)]
pub enum ProvenanceItem {
    Header { schema_version: String },
    Entity {
        owner: String,
        entity_id: String,
        canonical: serde_json::Value,
        record: Record,
        record_float_bits: Vec<u64>,
    },
    BlockDefinition {
        block_id: String,
        base: Base,
        number: u32,
        is_referenced: u32,
        reserved: u32,
        name: String,
    },
}

pub open spec fn entity_keys(v: Seq<ProvenanceRecord>) -> Seq<(Seq<char>, Seq<char>)> {
    v.map_values(|r: ProvenanceRecord| (r.owner@, r.entity_id@))
}

pub open spec fn block_ids(v: Seq<(String, BlockDefinition)>) -> Seq<Seq<char>> {
    v.map_values(|b: (String, BlockDefinition)| b.0@)
}

pub open spec fn preservation(message: Seq<char>) -> ExportErrorV {
    ExportErrorV::Preservation(message)
}

fn has_entity(v: &Vec<ProvenanceRecord>, owner: &str, entity_id: &str) -> (found: bool)
    ensures
        found == entity_keys(v@).contains((owner@, entity_id@)),
{
    let ghost keys = entity_keys(v@);
    let mut i: usize = 0;
    while i < v.len()
        invariant
            i <= v@.len(),
            keys == entity_keys(v@),
            forall|j: int| 0 <= j < i ==> keys[j] != (owner@, entity_id@),
        decreases v.len() - i,
    {
        if str_eq(v[i].owner.as_str(), owner) && str_eq(v[i].entity_id.as_str(), entity_id) {
            assert(keys[i as int] == (owner@, entity_id@));
            return true;
        }
        i = i + 1;
    }
    false
}

fn has_block(v: &Vec<(String, BlockDefinition)>, block_id: &str) -> (found: bool)
    ensures
        found == block_ids(v@).contains(block_id@),
{
    let ghost ids = block_ids(v@);
    let mut i: usize = 0;
    while i < v.len()
        invariant
            i <= v@.len(),
            ids == block_ids(v@),
            forall|j: int| 0 <= j < i ==> ids[j] != block_id@,
        decreases v.len() - i,
    {
        if str_eq(v[i].0.as_str(), block_id) {
            assert(ids[i as int] == block_id@);
            return true;
        }
        i = i + 1;
    }
    false
}

/// Takes in one line of a record provenance file. One header of the current
/// schema version comes first; an entity's doubles must be restorable from
/// its bit patterns; no entity (by owner and id) or block is given twice.
pub fn record_provenance_step(
    provenance: &mut RecordProvenance,
    saw_header: &mut bool,
    item: ProvenanceItem,
) -> (res: Result<(), ExportError>)
    ensures
        match item {
            ProvenanceItem::Header { schema_version } => if *old(saw_header) || schema_version@
                != "0.2"@ {
                res matches Err(e) && e@ == preservation(
                    "record provenance has an unsupported or duplicate header"@,
                )
            } else {
                res is Ok && *final(saw_header) && final(provenance).entities@
                    == old(provenance).entities@ && final(provenance).blocks@
                    == old(provenance).blocks@
            },
            ProvenanceItem::Entity { owner, entity_id, record, record_float_bits, .. } => if record_float_bits@.len()
                != float_bits(record@).len() {
                res matches Err(e) && e@ == preservation(
                    "record provenance has an invalid float-bit payload"@,
                )
            } else if entity_keys(old(provenance).entities@).contains((owner@, entity_id@)) {
                res matches Err(e) && e@ == preservation(
                    "record provenance contains a duplicate entity id"@,
                )
            } else {
                &&& res is Ok
                &&& *final(saw_header) == *old(saw_header)
                &&& final(provenance).blocks@ == old(provenance).blocks@
                &&& final(provenance).entities@.len() == old(provenance).entities@.len() + 1
                &&& final(provenance).entities@.drop_last() == old(provenance).entities@
                &&& final(provenance).entities@.last().owner == owner
                &&& final(provenance).entities@.last().entity_id == entity_id
                &&& final(provenance).entities@.last().record@ == with_float_bits(
                    record@,
                    record_float_bits@,
                )
            },
            ProvenanceItem::BlockDefinition { block_id, base, number, is_referenced, reserved, name } =>
                if block_ids(old(provenance).blocks@).contains(block_id@) {
                res matches Err(e) && e@ == preservation(
                    "record provenance contains a duplicate block definition"@,
                )
            } else {
                &&& res is Ok
                &&& *final(saw_header) == *old(saw_header)
                &&& final(provenance).entities@ == old(provenance).entities@
                &&& final(provenance).blocks@.len() == old(provenance).blocks@.len() + 1
                &&& final(provenance).blocks@.drop_last() == old(provenance).blocks@
                &&& final(provenance).blocks@.last().0 == block_id
                &&& final(provenance).blocks@.last().1@ == (BlockDefinitionV {
                    base,
                    number,
                    is_referenced,
                    reserved,
                    name: name@,
                    records: Seq::empty(),
                })
            },
        },
{
    match item {
        ProvenanceItem::Header { schema_version } => {
            if *saw_header || !str_eq(schema_version.as_str(), "0.2") {
                return Err(
                    ExportError::Preservation(
                        "record provenance has an unsupported or duplicate header".to_owned(),
                    ),
                );
            }
            *saw_header = true;
            Ok(())
        },
        ProvenanceItem::Entity { owner, entity_id, canonical, record, record_float_bits } => {
            let mut record = record;
            if !restore_record_float_bits(&mut record, record_float_bits.as_slice()) {
                return Err(
                    ExportError::Preservation(
                        "record provenance has an invalid float-bit payload".to_owned(),
                    ),
                );
            }
            if has_entity(&provenance.entities, owner.as_str(), entity_id.as_str()) {
                return Err(
                    ExportError::Preservation(
                        "record provenance contains a duplicate entity id".to_owned(),
                    ),
                );
            }
            provenance.entities.push(ProvenanceRecord { owner, entity_id, canonical, record });
            Ok(())
        },
        ProvenanceItem::BlockDefinition { block_id, base, number, is_referenced, reserved, name } => {
            if has_block(&provenance.blocks, block_id.as_str()) {
                return Err(
                    ExportError::Preservation(
                        "record provenance contains a duplicate block definition".to_owned(),
                    ),
                );
            }
            let definition = BlockDefinition {
                base,
                number,
                is_referenced,
                reserved,
                name,
                records: Vec::new(),
            };
            proof {
                assert(records_view(definition.records@) =~= Seq::<RecordV>::empty());
            }
            provenance.blocks.push((block_id, definition));
            Ok(())
        },
    }
}

/// A record provenance file is complete once its header was read.
pub fn finish_record_provenance(saw_header: bool) -> (res: Result<(), ExportError>)
    ensures
        saw_header ==> res is Ok,
        !saw_header ==> (res matches Err(e) && e@ == preservation(
            "record provenance header is missing"@,
        )),
{
    if !saw_header {
        return Err(ExportError::Preservation("record provenance header is missing".to_owned()));
    }
    Ok(())
}

// ---------------------------------------------------------------------------
// The generated header
// ---------------------------------------------------------------------------

/// A color of the project's style table as the header needs it. The print
/// width is in hundredths of a millimetre: the style's width (at least 0.01)
/// times 100, rounded and capped at `u32::MAX`.
pub struct HeaderColorSource {
    pub id: String,
    pub rgb: String,
    pub print_rgb: Option<String>,
    pub print_width_hundredths: u32,
}

/// A layer group of the project. `scale_bits` is the bit pattern of its
/// scale denominator, at least 1.
pub struct LayerGroupSource {
    pub id: String,
    pub order: i64,
    pub name: String,
    pub visible: bool,
    pub locked: bool,
    pub scale_bits: u64,
}

/// A layer of the project and the group it belongs to.
pub struct LayerSource {
    pub id: String,
    pub group: Option<String>,
    pub order: i64,
    pub name: String,
    pub visible: bool,
    pub locked: bool,
}

/// The drawing's active layout. `scale_text` is its scale as written (trimmed);
/// `scale_bits` the bit pattern of the positive finite number it reads as
/// (`1/n`, `1:n` or `n`), or `None` when it reads as none.
pub struct LayoutSource {
    pub paper: String,
    pub scale_text: String,
    pub scale_bits: Option<u64>,
    pub landscape: bool,
}

/// What the JWW header is built from: the project name, the active layout
/// (`None` when the drawing has none), the colors in the order of their ids,
/// the layer groups and layers in the order of their ids, and the active layer.
pub struct HeaderSource {
    pub project_name: String,
    pub layout: Option<LayoutSource>,
    pub colors: Vec<HeaderColorSource>,
    pub groups: Vec<LayerGroupSource>,
    pub layers: Vec<LayerSource>,
    pub active_layer: Option<String>,
}

/// The warnings and the blockers of a context.
pub type IssuesV = (Seq<ExportIssueV>, Seq<ExportIssueV>);

pub open spec fn issues_of(c: ExportContext) -> IssuesV {
    (issues_view(c.warnings@), issues_view(c.blockers@))
}

/// The issues after a lossy conversion: a warning when lossy output is
/// allowed, else a blocker.
pub open spec fn add_block(o: ExportOptions, s: IssuesV, i: ExportIssueV) -> IssuesV {
    if o.allow_lossy {
        (s.0.push(i), s.1)
    } else {
        (s.0, s.1.push(i))
    }
}

/// The issues after an approximation: a blocker when approximations are
/// strict, else a warning.
pub open spec fn add_approx(o: ExportOptions, s: IssuesV, i: ExportIssueV) -> IssuesV {
    if o.strict_approximations {
        (s.0, s.1.push(i))
    } else {
        (s.0.push(i), s.1)
    }
}

/// The text that `cp932_text` gives for `v`.
pub open spec fn text_out(o: ExportOptions, v: Seq<char>) -> Seq<char> {
    if !sjis_encode(v).1 {
        v
    } else if o.strict_approximations {
        Seq::empty()
    } else {
        sjis_decode(sjis_encode(v).0).0
    }
}

/// The issues after `cp932_text` on `v`.
pub open spec fn text_issues(o: ExportOptions, s: IssuesV, v: Seq<char>) -> IssuesV {
    if !sjis_encode(v).1 {
        s
    } else {
        add_approx(
            o,
            s,
            issue(None, "unencodable_text"@, "text "@ + debug_str(v) + " cannot be represented in CP932"@),
        )
    }
}

pub open spec fn same_frame(before: ExportContext, after: ExportContext) -> bool {
    after.options == before.options && after.output_path == before.output_path
}

fn header_block(context: &mut ExportContext, code: &str, message: String)
    ensures
        same_frame(*old(context), *final(context)),
        issues_of(*final(context)) == add_block(
            old(context).options,
            issues_of(*old(context)),
            issue(None, code@, message@),
        ),
{
    context.block(None, code, message);
}

fn header_approximate(context: &mut ExportContext, code: &str, message: String)
    ensures
        same_frame(*old(context), *final(context)),
        issues_of(*final(context)) == add_approx(
            old(context).options,
            issues_of(*old(context)),
            issue(None, code@, message@),
        ),
{
    context.approximate(None, code, message);
}

fn header_text(value: &str, context: &mut ExportContext) -> (out: String)
    ensures
        same_frame(*old(context), *final(context)),
        out@ == text_out(old(context).options, value@),
        issues_of(*final(context)) == text_issues(old(context).options, issues_of(*old(context)), value@),
{
    cp932_text(value, None, context)
}

// --- pen colors -------------------------------------------------------------

/// The pen slot of a color: the number of a `jww_color_N` id below 10, else
/// the built-in pen of its RGB value.
#[verifier::opaque]
pub open spec fn color_index(c: HeaderColorSource) -> Option<nat> {
    let explicit = prefixed_number(c.id@, "jww_color_"@, 1_000_000);
    if explicit is Some && explicit->0 < 10 {
        explicit
    } else {
        match builtin_color_spec(c.rgb@) {
            Some(k) => Some(k as nat),
            None => None,
        }
    }
}

/// The print color: the print RGB value when there is one, else the screen color.
pub open spec fn print_colorref(c: HeaderColorSource, screen: u32) -> Option<u32> {
    match c.print_rgb {
        None => Some(screen),
        Some(p) => colorref_spec(p@),
    }
}

#[verifier::opaque]
pub open spec fn color_issue(o: ExportOptions, s: IssuesV, c: HeaderColorSource) -> IssuesV {
    match color_index(c) {
        None => s,
        Some(_) => match colorref_spec(c.rgb@) {
            None => add_block(
                o,
                s,
                issue(
                    None,
                    "invalid_jww_header_color"@,
                    "color "@ + debug_str(c.id@) + " has invalid RGB value "@ + debug_str(c.rgb@),
                ),
            ),
            Some(screen) => match print_colorref(c, screen) {
                None => add_block(
                    o,
                    s,
                    issue(
                        None,
                        "invalid_jww_print_color"@,
                        "color "@ + debug_str(c.id@) + " has invalid print_rgb value"@,
                    ),
                ),
                Some(_) => s,
            },
        },
    }
}

pub open spec fn color_issues(o: ExportOptions, s: IssuesV, cs: Seq<HeaderColorSource>) -> IssuesV
    decreases cs.len(),
{
    if cs.len() == 0 {
        s
    } else {
        color_issue(o, color_issues(o, s, cs.drop_last()), cs.last())
    }
}

/// Screen colors, print colors and print widths of the ten pens.
pub type PensV = (Seq<u32>, Seq<u32>, Seq<u32>);

pub open spec fn default_pens() -> PensV {
    (
        Seq::new(10, |i: int| crate::codec::header_read::default_pen_rgb_spec(i)),
        Seq::new(10, |i: int| crate::codec::header_read::default_pen_rgb_spec(i)),
        Seq::new(10, |i: int| 1u32),
    )
}

#[verifier::opaque]
pub open spec fn pen_step(p: PensV, c: HeaderColorSource) -> PensV {
    match color_index(c) {
        Some(k) => match colorref_spec(c.rgb@) {
            Some(screen) => match print_colorref(c, screen) {
                Some(print) => (
                    p.0.update(k as int, screen),
                    p.1.update(k as int, print),
                    p.2.update(k as int, c.print_width_hundredths),
                ),
                None => p,
            },
            None => p,
        },
        None => p,
    }
}

/// The pens after the colors, each color in turn setting its slot.
pub open spec fn header_pens(cs: Seq<HeaderColorSource>) -> PensV
    decreases cs.len(),
{
    if cs.len() == 0 {
        default_pens()
    } else {
        pen_step(header_pens(cs.drop_last()), cs.last())
    }
}

fn color_slot(c: &HeaderColorSource) -> (k: Option<usize>)
    ensures
        match k {
            Some(v) => color_index(*c) == Some(v as nat) && v < 10,
            None => color_index(*c) is None,
        },
{
    reveal(color_index);
    if let Some(n) = parse_prefixed(c.id.as_str(), "jww_color_", 1_000_000) {
        if n < 10 {
            return Some(n as usize);
        }
    }
    match builtin_color_number(c.rgb.as_str()) {
        Some(k) => Some(k as usize),
        None => None,
    }
}

fn default_pen_vecs() -> (p: (Vec<u32>, Vec<u32>, Vec<u32>))
    ensures
        (p.0@, p.1@, p.2@) == default_pens(),
{
    let mut sc: Vec<u32> = Vec::new();
    let mut pc: Vec<u32> = Vec::new();
    let mut pw: Vec<u32> = Vec::new();
    let mut k: usize = 0;
    while k < 10
        invariant
            k <= 10,
            sc@ == default_pens().0.take(k as int),
            pc@ == default_pens().1.take(k as int),
            pw@ == default_pens().2.take(k as int),
        decreases 10 - k,
    {
        let c = crate::codec::header_read::default_pen_rgb(k);
        sc.push(c);
        pc.push(c);
        pw.push(1);
        assert(sc@ =~= default_pens().0.take(k + 1));
        assert(pc@ =~= default_pens().1.take(k + 1));
        assert(pw@ =~= default_pens().2.take(k + 1));
        k = k + 1;
    }
    assert(sc@ =~= default_pens().0);
    assert(pc@ =~= default_pens().1);
    assert(pw@ =~= default_pens().2);
    (sc, pc, pw)
}

fn apply_color(
    c: &HeaderColorSource,
    sc: &mut Vec<u32>,
    pc: &mut Vec<u32>,
    pw: &mut Vec<u32>,
    context: &mut ExportContext,
)
    requires
        old(sc)@.len() == 10,
        old(pc)@.len() == 10,
        old(pw)@.len() == 10,
    ensures
        same_frame(*old(context), *final(context)),
        (final(sc)@, final(pc)@, final(pw)@) == pen_step((old(sc)@, old(pc)@, old(pw)@), *c),
        final(sc)@.len() == 10,
        final(pc)@.len() == 10,
        final(pw)@.len() == 10,
        issues_of(*final(context)) == color_issue(old(context).options, issues_of(*old(context)), *c),
{
    reveal(color_issue);
    reveal(pen_step);
    match color_slot(c) {
        None => {},
        Some(k) => match rgb_hex_to_colorref(c.rgb.as_str()) {
            None => {
                let qid = debug_quoted(c.id.as_str());
                let qrgb = debug_quoted(c.rgb.as_str());
                let m1 = concat3("color ", qid.as_str(), " has invalid RGB value ");
                let message = concat_str(m1.as_str(), qrgb.as_str());
                header_block(context, "invalid_jww_header_color", message);
            },
            Some(screen) => {
                let print = match &c.print_rgb {
                    None => Some(screen),
                    Some(pr) => rgb_hex_to_colorref(pr.as_str()),
                };
                match print {
                    None => {
                        let qid = debug_quoted(c.id.as_str());
                        let message = concat3("color ", qid.as_str(), " has invalid print_rgb value");
                        header_block(context, "invalid_jww_print_color", message);
                    },
                    Some(pv) => {
                        sc.set(k, screen);
                        pc.set(k, pv);
                        pw.set(k, c.print_width_hundredths);
                    },
                }
            },
        },
    }
}

#[verifier::spinoff_prover]
fn header_pen_tables(colors: &Vec<HeaderColorSource>, context: &mut ExportContext) -> (p: (
    Vec<u32>,
    Vec<u32>,
    Vec<u32>,
))
    ensures
        same_frame(*old(context), *final(context)),
        (p.0@, p.1@, p.2@) == header_pens(colors@),
        p.0@.len() == 10,
        p.1@.len() == 10,
        p.2@.len() == 10,
        issues_of(*final(context)) == color_issues(
            old(context).options,
            issues_of(*old(context)),
            colors@,
        ),
{
    let (mut sc, mut pc, mut pw) = default_pen_vecs();
    assert(colors@.take(0) =~= Seq::<HeaderColorSource>::empty());
    let ghost o = context.options;
    let ghost start = *context;
    let mut i: usize = 0;
    while i < colors.len()
        invariant
            i <= colors.len(),
            same_frame(start, *context),
            o == start.options,
            (sc@, pc@, pw@) == header_pens(colors@.take(i as int)),
            sc@.len() == 10,
            pc@.len() == 10,
            pw@.len() == 10,
            issues_of(*context) == color_issues(o, issues_of(start), colors@.take(i as int)),
        decreases colors.len() - i,
    {
        proof {
            assert(colors@.take(i + 1).drop_last() =~= colors@.take(i as int));
            assert(colors@.take(i + 1).last() == colors@[i as int]);
        }
        apply_color(&colors[i], &mut sc, &mut pc, &mut pw, context);
        i = i + 1;
    }
    assert(colors@.take(colors.len() as int) =~= colors@);
    (sc, pc, pw)
}

// --- ordering by (order, id) ---------------------------------------------

/// Whether `a` comes before `b` as strings compare: character by character by
/// code point, a proper prefix first (UTF-8 byte order agrees with this).
pub open spec fn chars_lt_from(a: Seq<char>, b: Seq<char>, i: int) -> bool
    decreases a.len() - i,
{
    if i >= a.len() {
        i < b.len()
    } else if i >= b.len() {
        false
    } else if a[i] != b[i] {
        (a[i] as u32) < (b[i] as u32)
    } else {
        chars_lt_from(a, b, i + 1)
    }
}

pub open spec fn chars_lt(a: Seq<char>, b: Seq<char>) -> bool {
    chars_lt_from(a, b, 0)
}

/// Whether item `x` sorts before item `y` by (order, id).
pub open spec fn idx_lt(orders: Seq<i64>, ids: Seq<Seq<char>>, x: usize, y: usize) -> bool {
    orders[x as int] < orders[y as int] || (orders[x as int] == orders[y as int] && chars_lt(
        ids[x as int],
        ids[y as int],
    ))
}

/// `x` placed in `s` after every item that does not sort after it.
pub open spec fn insert_by_key(orders: Seq<i64>, ids: Seq<Seq<char>>, s: Seq<usize>, x: usize) -> Seq<
    usize,
>
    decreases s.len(),
{
    if s.len() == 0 {
        seq![x]
    } else if idx_lt(orders, ids, x, s[0]) {
        seq![x] + s
    } else {
        seq![s[0]] + insert_by_key(orders, ids, s.drop_first(), x)
    }
}

/// The items of `s` stably sorted by (order, id).
pub open spec fn sort_by_key(orders: Seq<i64>, ids: Seq<Seq<char>>, s: Seq<usize>) -> Seq<usize>
    decreases s.len(),
{
    if s.len() == 0 {
        s
    } else {
        insert_by_key(orders, ids, sort_by_key(orders, ids, s.drop_last()), s.last())
    }
}

proof fn lemma_insert_at(orders: Seq<i64>, ids: Seq<Seq<char>>, s: Seq<usize>, x: usize, p: int)
    requires
        0 <= p <= s.len(),
        forall|j: int| 0 <= j < p ==> !idx_lt(orders, ids, x, #[trigger] s[j]),
        p < s.len() ==> idx_lt(orders, ids, x, s[p]),
    ensures
        insert_by_key(orders, ids, s, x) == s.take(p) + seq![x] + s.skip(p),
    decreases p,
{
    if p == 0 {
        assert(s.take(0) + seq![x] + s.skip(0) =~= seq![x] + s);
        if s.len() == 0 {
            assert(seq![x] + s =~= seq![x]);
        }
    } else {
        let t = s.drop_first();
        assert forall|j: int| 0 <= j < p - 1 implies !idx_lt(orders, ids, x, #[trigger] t[j]) by {
            assert(t[j] == s[j + 1]);
        }
        assert(!idx_lt(orders, ids, x, s[0]));
        lemma_insert_at(orders, ids, t, x, p - 1);
        assert(seq![s[0]] + (t.take(p - 1) + seq![x] + t.skip(p - 1)) =~= s.take(p) + seq![x]
            + s.skip(p));
    }
}

proof fn lemma_sort_len(orders: Seq<i64>, ids: Seq<Seq<char>>, s: Seq<usize>)
    ensures
        sort_by_key(orders, ids, s).len() == s.len(),
        forall|j: int|
            0 <= j < s.len() ==> exists|k: int|
                0 <= k < s.len() && #[trigger] sort_by_key(orders, ids, s)[j] == s[k],
    decreases s.len(),
{
    if s.len() > 0 {
        let t = sort_by_key(orders, ids, s.drop_last());
        lemma_sort_len(orders, ids, s.drop_last());
        let x = s.last();
        let p = first_after(orders, ids, t, x, 0);
        lemma_first_after(orders, ids, t, x, 0);
        lemma_insert_at(orders, ids, t, x, p);
        let r = sort_by_key(orders, ids, s);
        assert(r == t.take(p) + seq![x] + t.skip(p));
        assert forall|j: int| 0 <= j < s.len() implies exists|k: int|
            0 <= k < s.len() && #[trigger] r[j] == s[k] by {
            if j < p {
                assert(r[j] == t[j]);
                let k = choose|k: int| 0 <= k < s.len() - 1 && t[j] == s.drop_last()[k];
                assert(r[j] == s[k]);
            } else if j == p {
                assert(r[j] == s[s.len() - 1]);
            } else {
                assert(r[j] == t[j - 1]);
                let k = choose|k: int| 0 <= k < s.len() - 1 && t[j - 1] == s.drop_last()[k];
                assert(r[j] == s[k]);
            }
        }
    }
}

/// The first position from `i` on whose item sorts after `x`, else the length.
pub open spec fn first_after(orders: Seq<i64>, ids: Seq<Seq<char>>, s: Seq<usize>, x: usize, i: int) -> int
    decreases s.len() - i,
{
    if i >= s.len() {
        s.len() as int
    } else if idx_lt(orders, ids, x, s[i]) {
        i
    } else {
        first_after(orders, ids, s, x, i + 1)
    }
}

proof fn lemma_first_after(orders: Seq<i64>, ids: Seq<Seq<char>>, s: Seq<usize>, x: usize, i: int)
    requires
        0 <= i <= s.len(),
        forall|j: int| 0 <= j < i ==> !idx_lt(orders, ids, x, #[trigger] s[j]),
    ensures
        ({
            let p = first_after(orders, ids, s, x, i);
            &&& i <= p <= s.len()
            &&& forall|j: int| 0 <= j < p ==> !idx_lt(orders, ids, x, #[trigger] s[j])
            &&& p < s.len() ==> idx_lt(orders, ids, x, s[p])
        }),
    decreases s.len() - i,
{
    if i < s.len() && !idx_lt(orders, ids, x, s[i]) {
        lemma_first_after(orders, ids, s, x, i + 1);
    }
}

fn str_lt(a: &str, b: &str) -> (r: bool)
    ensures
        r == chars_lt(a@, b@),
{
    let ca = chars_of(a);
    let cb = chars_of(b);
    let mut i: usize = 0;
    loop
        invariant
            ca@ == a@,
            cb@ == b@,
            i <= ca.len(),
            i <= cb.len(),
            chars_lt(a@, b@) == chars_lt_from(a@, b@, i as int),
        decreases ca.len() - i,
    {
        if i >= ca.len() {
            return i < cb.len();
        }
        if i >= cb.len() {
            return false;
        }
        let x = ca[i];
        let y = cb[i];
        if x != y {
            return (x as u32) < (y as u32);
        }
        i = i + 1;
    }
}

fn key_less(orders: &Vec<i64>, ids: &Vec<String>, x: usize, y: usize) -> (r: bool)
    requires
        x < orders.len(),
        y < orders.len(),
        orders.len() == ids.len(),
    ensures
        r == idx_lt(orders@, ids_of(ids@), x, y),
{
    if orders[x] < orders[y] {
        true
    } else if orders[x] == orders[y] {
        str_lt(ids[x].as_str(), ids[y].as_str())
    } else {
        false
    }
}

fn insert_index(orders: &Vec<i64>, ids: &Vec<String>, out: &mut Vec<usize>, x: usize)
    requires
        x < orders.len(),
        orders.len() == ids.len(),
        forall|j: int| 0 <= j < old(out)@.len() ==> #[trigger] old(out)@[j] < orders.len(),
    ensures
        final(out)@ == insert_by_key(orders@, ids_of(ids@), old(out)@, x),
        forall|j: int| 0 <= j < final(out)@.len() ==> #[trigger] final(out)@[j] < orders.len(),
{
    let ghost k = ids_of(ids@);
    let mut p: usize = 0;
    while p < out.len() && !key_less(orders, ids, x, out[p])
        invariant
            x < orders.len(),
            orders.len() == ids.len(),
            k == ids_of(ids@),
            p <= out.len(),
            out@ == old(out)@,
            forall|j: int| 0 <= j < out@.len() ==> #[trigger] out@[j] < orders.len(),
            forall|j: int| 0 <= j < p ==> !idx_lt(orders@, k, x, #[trigger] out@[j]),
            first_after(orders@, k, out@, x, 0) == first_after(orders@, k, out@, x, p as int),
        decreases out.len() - p,
    {
        p = p + 1;
    }
    proof {
        lemma_first_after(orders@, k, out@, x, p as int);
        lemma_insert_at(orders@, k, out@, x, first_after(orders@, k, out@, x, p as int));
    }
    let ghost before = out@;
    out.insert(p, x);
    assert(out@ =~= before.take(p as int) + seq![x] + before.skip(p as int));
}

fn sort_indices(orders: &Vec<i64>, ids: &Vec<String>, idx: &Vec<usize>) -> (out: Vec<usize>)
    requires
        orders.len() == ids.len(),
        forall|j: int| 0 <= j < idx@.len() ==> #[trigger] idx@[j] < orders.len(),
    ensures
        out@ == sort_by_key(orders@, ids_of(ids@), idx@),
        forall|j: int| 0 <= j < out@.len() ==> #[trigger] out@[j] < orders.len(),
{
    let mut out: Vec<usize> = Vec::new();
    let mut j: usize = 0;
    assert(idx@.take(0) =~= Seq::<usize>::empty());
    while j < idx.len()
        invariant
            j <= idx.len(),
            orders.len() == ids.len(),
            forall|t: int| 0 <= t < idx@.len() ==> #[trigger] idx@[t] < orders.len(),
            out@ == sort_by_key(orders@, ids_of(ids@), idx@.take(j as int)),
            forall|t: int| 0 <= t < out@.len() ==> #[trigger] out@[t] < orders.len(),
        decreases idx.len() - j,
    {
        proof {
            assert(idx@.take(j + 1).drop_last() =~= idx@.take(j as int));
            assert(idx@.take(j + 1).last() == idx@[j as int]);
        }
        insert_index(orders, ids, &mut out, idx[j]);
        j = j + 1;
    }
    assert(idx@.take(idx.len() as int) =~= idx@);
    out
}

// --- layer groups and layers ----------------------------------------------

pub open spec fn group_orders(src: HeaderSource) -> Seq<i64> {
    src.groups@.map_values(|g: LayerGroupSource| g.order)
}

pub open spec fn group_ids(src: HeaderSource) -> Seq<Seq<char>> {
    src.groups@.map_values(|g: LayerGroupSource| g.id@)
}

pub open spec fn layer_orders(src: HeaderSource) -> Seq<i64> {
    src.layers@.map_values(|l: LayerSource| l.order)
}

pub open spec fn layer_ids(src: HeaderSource) -> Seq<Seq<char>> {
    src.layers@.map_values(|l: LayerSource| l.id@)
}

pub open spec fn index_range(n: nat) -> Seq<usize> {
    Seq::new(n, |i: int| i as usize)
}

pub open spec fn at_most_16(s: Seq<usize>) -> Seq<usize> {
    if s.len() > 16 {
        s.take(16)
    } else {
        s
    }
}

/// The groups given JWW slots: sorted by (order, id), the first sixteen.
pub open spec fn kept_groups(src: HeaderSource) -> Seq<usize> {
    at_most_16(sort_by_key(group_orders(src), group_ids(src), index_range(src.groups@.len())))
}

/// The first slot from `s` on whose group has the id, else slot 0.
pub open spec fn find_group_slot(src: HeaderSource, kept: Seq<usize>, id: Seq<char>, s: nat) -> nat
    decreases kept.len() - s,
{
    if s >= kept.len() {
        0
    } else if src.groups@[kept[s as int] as int].id@ == id {
        s
    } else {
        find_group_slot(src, kept, id, s + 1)
    }
}

/// The group slot of a layer: the slot of its group, else slot 0.
pub open spec fn layer_slot(src: HeaderSource, kept: Seq<usize>, l: LayerSource) -> nat {
    match l.group {
        Some(g) => find_group_slot(src, kept, g@, 0),
        None => 0,
    }
}

/// The layers among the first `j` that fall in slot `gs`, in order.
pub open spec fn slot_members(src: HeaderSource, kept: Seq<usize>, gs: nat, j: nat) -> Seq<usize>
    decreases j,
{
    if j == 0 {
        Seq::empty()
    } else {
        let m = slot_members(src, kept, gs, (j - 1) as nat);
        if layer_slot(src, kept, src.layers@[j - 1]) == gs {
            m.push((j - 1) as usize)
        } else {
            m
        }
    }
}

/// The layers placed in slot `gs`: its members sorted by (order, id), the
/// first sixteen.
pub open spec fn placed(src: HeaderSource, kept: Seq<usize>, gs: nat) -> Seq<usize> {
    at_most_16(
        sort_by_key(
            layer_orders(src),
            layer_ids(src),
            slot_members(src, kept, gs, src.layers@.len()),
        ),
    )
}

pub open spec fn is_active(src: HeaderSource, l: LayerSource) -> bool {
    opt_text(src.active_layer) == Some(l.id@)
}

pub open spec fn flag(b: bool) -> u32 {
    if b {
        1
    } else {
        0
    }
}

pub open spec fn group_state(visible: bool, locked: bool) -> u32 {
    if !visible {
        0
    } else if locked {
        1
    } else {
        2
    }
}

/// Hidden 0, active 3, locked 1, else 2.
pub open spec fn layer_state(src: HeaderSource, l: LayerSource) -> u32 {
    if !l.visible {
        0
    } else if is_active(src, l) {
        3
    } else if l.locked {
        1
    } else {
        2
    }
}

pub open spec fn layer_v(o: ExportOptions, src: HeaderSource, l: LayerSource) -> LayerV {
    LayerV { name: text_out(o, l.name@), state: layer_state(src, l), protect: flag(l.locked) }
}

pub open spec fn blank_layer(state: u32) -> LayerV {
    LayerV { name: Seq::empty(), state, protect: 0 }
}

pub open spec fn default_group() -> LayerGroupV {
    LayerGroupV {
        name: Seq::empty(),
        state: 2,
        write_layer: 0,
        scale: ONE_BITS,
        protect: 0,
        layers: Seq::new(16, |i: int| blank_layer(2)),
    }
}

/// Slot `g` before its layers are placed: the project's group in that slot
/// (with the layout's scale when it has one), or the default group, named
/// `Default` in slot 0 when the project has no groups.
pub open spec fn base_group(
    o: ExportOptions,
    src: HeaderSource,
    kept: Seq<usize>,
    g: nat,
    scale: Option<u64>,
) -> LayerGroupV {
    if src.groups@.len() == 0 {
        if g == 0 {
            LayerGroupV { name: "Default"@, ..default_group() }
        } else {
            default_group()
        }
    } else if g < kept.len() {
        let gr = src.groups@[kept[g as int] as int];
        LayerGroupV {
            name: text_out(o, gr.name@),
            state: group_state(gr.visible, gr.locked),
            write_layer: 0,
            scale: match scale {
                Some(b) => b,
                None => gr.scale_bits,
            },
            protect: flag(gr.locked),
            layers: Seq::new(16, |i: int| blank_layer(0)),
        }
    } else {
        default_group()
    }
}

/// The last of the first `n` placed layers that is the active layer.
pub open spec fn last_active(src: HeaderSource, pl: Seq<usize>, n: nat) -> Option<nat>
    decreases n,
{
    if n == 0 {
        None
    } else if is_active(src, src.layers@[pl[n - 1] as int]) {
        Some((n - 1) as nat)
    } else {
        last_active(src, pl, (n - 1) as nat)
    }
}

/// Slot `g` of the header: its base group with the placed layers in the
/// first slots and the active layer, if placed there, as its write layer.
pub open spec fn final_group(
    o: ExportOptions,
    src: HeaderSource,
    kept: Seq<usize>,
    g: nat,
    scale: Option<u64>,
) -> LayerGroupV {
    let b = base_group(o, src, kept, g, scale);
    let pl = placed(src, kept, g);
    LayerGroupV {
        name: b.name,
        state: b.state,
        write_layer: match last_active(src, pl, pl.len()) {
            Some(ls) => ls as u32,
            None => 0,
        },
        scale: b.scale,
        protect: b.protect,
        layers: Seq::new(
            16,
            |ls: int|
                if ls < pl.len() {
                    layer_v(o, src, src.layers@[pl[ls] as int])
                } else {
                    b.layers[ls]
                },
        ),
    }
}

/// The last of the first `g` slots that holds the active layer.
pub open spec fn active_group(src: HeaderSource, kept: Seq<usize>, g: nat) -> Option<nat>
    decreases g,
{
    if g == 0 {
        None
    } else {
        let pl = placed(src, kept, (g - 1) as nat);
        if last_active(src, pl, pl.len()) is Some {
            Some((g - 1) as nat)
        } else {
            active_group(src, kept, (g - 1) as nat)
        }
    }
}

/// The slot of every placed layer, slot by slot.
pub open spec fn slot_entries(src: HeaderSource, kept: Seq<usize>, g: nat) -> Seq<
    (Seq<char>, (u16, u16)),
>
    decreases g,
{
    if g == 0 {
        Seq::empty()
    } else {
        let pl = placed(src, kept, (g - 1) as nat);
        slot_entries(src, kept, (g - 1) as nat) + Seq::new(
            pl.len(),
            |ls: int| (src.layers@[pl[ls] as int].id@, ((g - 1) as u16, ls as u16)),
        )
    }
}

pub open spec fn entries_view(v: Seq<(String, (u16, u16))>) -> Seq<(Seq<char>, (u16, u16))> {
    v.map_values(|e: (String, (u16, u16))| (e.0@, e.1))
}

pub open spec fn group_name_issues(
    o: ExportOptions,
    s: IssuesV,
    src: HeaderSource,
    kept: Seq<usize>,
    n: nat,
) -> IssuesV
    decreases n,
{
    if n == 0 {
        s
    } else {
        text_issues(
            o,
            group_name_issues(o, s, src, kept, (n - 1) as nat),
            src.groups@[kept[n - 1] as int].name@,
        )
    }
}

pub open spec fn layer_name_issues(
    o: ExportOptions,
    s: IssuesV,
    src: HeaderSource,
    pl: Seq<usize>,
    n: nat,
) -> IssuesV
    decreases n,
{
    if n == 0 {
        s
    } else {
        text_issues(
            o,
            layer_name_issues(o, s, src, pl, (n - 1) as nat),
            src.layers@[pl[n - 1] as int].name@,
        )
    }
}

/// The issues of slot `gs`: the limit of sixteen layers, then the layer names.
pub open spec fn slot_issues(o: ExportOptions, s: IssuesV, src: HeaderSource, kept: Seq<usize>, gs: nat) -> IssuesV {
    let m = slot_members(src, kept, gs, src.layers@.len());
    let s1 = if m.len() > 16 {
        add_block(
            o,
            s,
            issue(
                None,
                "layer_limit"@,
                "layer group "@ + decimal(gs) + " contains more than 16 layers"@,
            ),
        )
    } else {
        s
    };
    let pl = placed(src, kept, gs);
    layer_name_issues(o, s1, src, pl, pl.len())
}

pub open spec fn layer_issues(o: ExportOptions, s: IssuesV, src: HeaderSource, kept: Seq<usize>, g: nat) -> IssuesV
    decreases g,
{
    if g == 0 {
        s
    } else {
        slot_issues(o, layer_issues(o, s, src, kept, (g - 1) as nat), src, kept, (g - 1) as nat)
    }
}

/// The issues that building the header adds, in order: no active layout (and
/// nothing else), else an unreadable layout scale, a landscape layout, the
/// project name, the paper, the colors, more than sixteen groups, the group
/// names and then, slot by slot, the layers.
pub open spec fn header_issues(o: ExportOptions, s: IssuesV, src: HeaderSource) -> IssuesV {
    match src.layout {
        None => add_block(o, s, issue(None, "invalid_active_layout"@, "drawing has no active layout"@)),
        Some(l) => {
            let s1 = if l.scale_bits is None {
                add_block(
                    o,
                    s,
                    issue(
                        None,
                        "unsupported_layout_scale"@,
                        "layout scale "@ + debug_str(l.scale_text@) + " is not a positive numeric scale"@,
                    ),
                )
            } else {
                s
            };
            let s2 = if l.landscape {
                add_approx(
                    o,
                    s1,
                    issue(
                        None,
                        "layout_orientation_approximated"@,
                        "JWW version 600 does not carry an independent layout orientation flag"@,
                    ),
                )
            } else {
                s1
            };
            let s3 = text_issues(o, s2, src.project_name@);
            let s4 = match paper_spec(l.paper@) {
                Some(_) => s3,
                None => add_block(
                    o,
                    s3,
                    issue(
                        None,
                        "unsupported_paper"@,
                        "paper "@ + debug_str(l.paper@) + " is not supported by the exporter"@,
                    ),
                ),
            };
            let s5 = color_issues(o, s4, src.colors@);
            let s6 = if src.groups@.len() > 16 {
                add_block(
                    o,
                    s5,
                    issue(None, "layer_group_limit"@, "JWW supports at most 16 layer groups"@),
                )
            } else {
                s5
            };
            let kept = kept_groups(src);
            let s7 = group_name_issues(o, s6, src, kept, kept.len());
            layer_issues(o, s7, src, kept, 16)
        },
    }
}

/// The header built for a drawing with an active layout.
pub open spec fn built_header(o: ExportOptions, src: HeaderSource, l: LayoutSource, h: HeaderV) -> bool {
    let kept = kept_groups(src);
    let pens = header_pens(src.colors@);
    &&& h.memo == text_out(o, src.project_name@)
    &&& h.paper_size == match paper_spec(l.paper@) {
        Some(c) => c,
        None => 3,
    }
    &&& h.write_layer_group == match active_group(src, kept, 16) {
        Some(g) => g as u32,
        None => 0,
    }
    &&& h.layer_groups.len() == 16
    &&& forall|g: int|
        0 <= g < 16 ==> #[trigger] h.layer_groups[g] == final_group(o, src, kept, g as nat, l.scale_bits)
    &&& h.screen_pen_colors@ == pens.0
    &&& h.print_pen_colors@ == pens.1
    &&& h.print_pen_widths@ == pens.2
    &&& forall|i: int| 0 <= i < 10 ==> h.screen_pen_widths[i] == 1 && h.print_point_radii[i] == TENTH_BITS
}

// --- building the header ---------------------------------------------------

fn group_keys(src: &HeaderSource) -> (r: (Vec<i64>, Vec<String>))
    ensures
        r.0@ == group_orders(*src),
        ids_of(r.1@) == group_ids(*src),
        r.0@.len() == r.1@.len(),
{
    let mut orders: Vec<i64> = Vec::new();
    let mut ids: Vec<String> = Vec::new();
    let mut i: usize = 0;
    while i < src.groups.len()
        invariant
            i <= src.groups.len(),
            orders@ == group_orders(*src).take(i as int),
            ids_of(ids@) == group_ids(*src).take(i as int),
            orders@.len() == i,
            ids@.len() == i,
        decreases src.groups.len() - i,
    {
        orders.push(src.groups[i].order);
        ids.push(src.groups[i].id.clone());
        assert(orders@ =~= group_orders(*src).take(i + 1));
        assert(ids_of(ids@) =~= group_ids(*src).take(i + 1));
        i = i + 1;
    }
    assert(orders@ =~= group_orders(*src));
    assert(ids_of(ids@) =~= group_ids(*src));
    (orders, ids)
}

fn layer_keys(src: &HeaderSource) -> (r: (Vec<i64>, Vec<String>))
    ensures
        r.0@ == layer_orders(*src),
        ids_of(r.1@) == layer_ids(*src),
        r.0@.len() == src.layers@.len(),
        r.1@.len() == src.layers@.len(),
{
    let mut orders: Vec<i64> = Vec::new();
    let mut ids: Vec<String> = Vec::new();
    let mut i: usize = 0;
    while i < src.layers.len()
        invariant
            i <= src.layers.len(),
            orders@ == layer_orders(*src).take(i as int),
            ids_of(ids@) == layer_ids(*src).take(i as int),
            orders@.len() == i,
            ids@.len() == i,
        decreases src.layers.len() - i,
    {
        orders.push(src.layers[i].order);
        ids.push(src.layers[i].id.clone());
        assert(orders@ =~= layer_orders(*src).take(i + 1));
        assert(ids_of(ids@) =~= layer_ids(*src).take(i + 1));
        i = i + 1;
    }
    assert(orders@ =~= layer_orders(*src));
    assert(ids_of(ids@) =~= layer_ids(*src));
    (orders, ids)
}

fn first_sixteen(v: &Vec<usize>) -> (out: Vec<usize>)
    ensures
        out@ == at_most_16(v@),
{
    let n = if v.len() > 16 {
        16
    } else {
        v.len()
    };
    let mut out: Vec<usize> = Vec::new();
    let mut j: usize = 0;
    while j < n
        invariant
            j <= n,
            n <= v.len(),
            n == (if v.len() > 16 { 16 } else { v.len() }),
            out@ == v@.take(j as int),
        decreases n - j,
    {
        out.push(v[j]);
        assert(out@ =~= v@.take(j + 1));
        j = j + 1;
    }
    assert(out@ =~= at_most_16(v@));
    out
}

fn kept_group_slots(src: &HeaderSource, orders: &Vec<i64>, ids: &Vec<String>) -> (kept: Vec<usize>)
    requires
        orders@ == group_orders(*src),
        ids_of(ids@) == group_ids(*src),
        orders@.len() == ids@.len(),
    ensures
        kept@ == kept_groups(*src),
        kept@.len() <= 16,
        forall|j: int| 0 <= j < kept@.len() ==> #[trigger] kept@[j] < src.groups@.len(),
{
    let mut idx: Vec<usize> = Vec::new();
    let mut i: usize = 0;
    while i < src.groups.len()
        invariant
            i <= src.groups.len(),
            idx@ == index_range(i as nat),
        decreases src.groups.len() - i,
    {
        idx.push(i);
        assert(idx@ =~= index_range((i + 1) as nat));
        i = i + 1;
    }
    assert(orders@.len() == src.groups@.len());
    let sorted = sort_indices(orders, ids, &idx);
    let kept = first_sixteen(&sorted);
    kept
}

fn group_names(src: &HeaderSource, kept: &Vec<usize>, context: &mut ExportContext) -> (names: Vec<String>)
    requires
        forall|j: int| 0 <= j < kept@.len() ==> #[trigger] kept@[j] < src.groups@.len(),
    ensures
        same_frame(*old(context), *final(context)),
        names@.len() == kept@.len(),
        forall|j: int|
            0 <= j < kept@.len() ==> (#[trigger] names@[j])@ == text_out(
                old(context).options,
                src.groups@[kept@[j] as int].name@,
            ),
        issues_of(*final(context)) == group_name_issues(
            old(context).options,
            issues_of(*old(context)),
            *src,
            kept@,
            kept@.len(),
        ),
{
    let ghost o = context.options;
    let ghost start = *context;
    let mut names: Vec<String> = Vec::new();
    let mut j: usize = 0;
    while j < kept.len()
        invariant
            j <= kept.len(),
            forall|t: int| 0 <= t < kept@.len() ==> #[trigger] kept@[t] < src.groups@.len(),
            same_frame(start, *context),
            o == start.options,
            names@.len() == j,
            forall|t: int|
                0 <= t < j ==> (#[trigger] names@[t])@ == text_out(o, src.groups@[kept@[t] as int].name@),
            issues_of(*context) == group_name_issues(o, issues_of(start), *src, kept@, j as nat),
        decreases kept.len() - j,
    {
        let name = header_text(src.groups[kept[j]].name.as_str(), context);
        names.push(name);
        j = j + 1;
    }
    names
}

fn layer_slot_exec(src: &HeaderSource, kept: &Vec<usize>, l: &LayerSource) -> (s: usize)
    requires
        kept@.len() <= 16,
        forall|j: int| 0 <= j < kept@.len() ==> #[trigger] kept@[j] < src.groups@.len(),
    ensures
        s == layer_slot(*src, kept@, *l),
        s < 16,
{
    match &l.group {
        None => 0,
        Some(g) => {
            let mut s: usize = 0;
            while s < kept.len() && !str_eq(src.groups[kept[s]].id.as_str(), g.as_str())
                invariant
                    s <= kept.len(),
                    kept@.len() <= 16,
                    forall|j: int| 0 <= j < kept@.len() ==> #[trigger] kept@[j] < src.groups@.len(),
                    find_group_slot(*src, kept@, g@, 0) == find_group_slot(*src, kept@, g@, s as nat),
                decreases kept.len() - s,
            {
                s = s + 1;
            }
            if s < kept.len() {
                s
            } else {
                0
            }
        },
    }
}

fn layer_slots(src: &HeaderSource, kept: &Vec<usize>) -> (slots: Vec<usize>)
    requires
        kept@.len() <= 16,
        forall|j: int| 0 <= j < kept@.len() ==> #[trigger] kept@[j] < src.groups@.len(),
    ensures
        slots@.len() == src.layers@.len(),
        forall|j: int|
            0 <= j < slots@.len() ==> #[trigger] slots@[j] == layer_slot(*src, kept@, src.layers@[j]),
{
    let mut slots: Vec<usize> = Vec::new();
    let mut j: usize = 0;
    while j < src.layers.len()
        invariant
            j <= src.layers.len(),
            kept@.len() <= 16,
            forall|t: int| 0 <= t < kept@.len() ==> #[trigger] kept@[t] < src.groups@.len(),
            slots@.len() == j,
            forall|t: int|
                0 <= t < j ==> #[trigger] slots@[t] == layer_slot(*src, kept@, src.layers@[t]),
        decreases src.layers.len() - j,
    {
        let s = layer_slot_exec(src, kept, &src.layers[j]);
        slots.push(s);
        j = j + 1;
    }
    slots
}

/// The layers placed in slot `g`, after the limit of sixteen is checked.
fn slot_layers(
    src: &HeaderSource,
    kept: &Vec<usize>,
    lorders: &Vec<i64>,
    lids: &Vec<String>,
    lslots: &Vec<usize>,
    g: usize,
    context: &mut ExportContext,
) -> (pl: Vec<usize>)
    requires
        lorders@ == layer_orders(*src),
        ids_of(lids@) == layer_ids(*src),
        lorders@.len() == src.layers@.len(),
        lids@.len() == src.layers@.len(),
        lslots@.len() == src.layers@.len(),
        forall|j: int|
            0 <= j < lslots@.len() ==> #[trigger] lslots@[j] == layer_slot(*src, kept@, src.layers@[j]),
    ensures
        same_frame(*old(context), *final(context)),
        pl@ == placed(*src, kept@, g as nat),
        pl@.len() <= 16,
        forall|j: int| 0 <= j < pl@.len() ==> #[trigger] pl@[j] < src.layers@.len(),
        issues_of(*final(context)) == (if slot_members(*src, kept@, g as nat, src.layers@.len()).len()
            > 16 {
            add_block(
                old(context).options,
                issues_of(*old(context)),
                issue(
                    None,
                    "layer_limit"@,
                    "layer group "@ + decimal(g as nat) + " contains more than 16 layers"@,
                ),
            )
        } else {
            issues_of(*old(context))
        }),
{
    let mut m: Vec<usize> = Vec::new();
    let mut j: usize = 0;
    while j < src.layers.len()
        invariant
            j <= src.layers.len(),
            lslots@.len() == src.layers@.len(),
            forall|t: int|
                0 <= t < lslots@.len() ==> #[trigger] lslots@[t] == layer_slot(*src, kept@, src.layers@[t]),
            m@ == slot_members(*src, kept@, g as nat, j as nat),
            forall|t: int| 0 <= t < m@.len() ==> #[trigger] m@[t] < j,
        decreases src.layers.len() - j,
    {
        if lslots[j] == g {
            m.push(j);
        }
        j = j + 1;
    }
    let sorted = sort_indices(lorders, lids, &m);
    proof {
        lemma_sort_len(lorders@, ids_of(lids@), m@);
    }
    if m.len() > 16 {
        let t = text_with_number("layer group ", g as u64);
        let message = concat_str(t.as_str(), " contains more than 16 layers");
        header_block(context, "layer_limit", message);
    }
    first_sixteen(&sorted)
}

fn is_active_exec(src: &HeaderSource, l: &LayerSource) -> (b: bool)
    ensures
        b == is_active(*src, *l),
{
    match &src.active_layer {
        Some(a) => str_eq(a.as_str(), l.id.as_str()),
        None => false,
    }
}

/// The sixteen layers of slot `g`: the placed layers first, then blank
/// layers in `base_state`; and the position of the last active one.
#[verifier::spinoff_prover]
fn fill_layers(
    src: &HeaderSource,
    pl: &Vec<usize>,
    base_state: u32,
    g: usize,
    context: &mut ExportContext,
    entries: &mut Vec<(String, (u16, u16))>,
) -> (r: (Vec<Layer>, Option<usize>))
    requires
        g < 16,
        pl@.len() <= 16,
        forall|j: int| 0 <= j < pl@.len() ==> #[trigger] pl@[j] < src.layers@.len(),
    ensures
        same_frame(*old(context), *final(context)),
        r.0@.len() == 16,
        forall|ls: int|
            0 <= ls < 16 ==> (#[trigger] r.0@[ls])@ == (if ls < pl@.len() {
                layer_v(old(context).options, *src, src.layers@[pl@[ls] as int])
            } else {
                blank_layer(base_state)
            }),
        match r.1 {
            Some(ls) => last_active(*src, pl@, pl@.len()) == Some(ls as nat),
            None => last_active(*src, pl@, pl@.len()) is None,
        },
        issues_of(*final(context)) == layer_name_issues(
            old(context).options,
            issues_of(*old(context)),
            *src,
            pl@,
            pl@.len(),
        ),
        entries_view(final(entries)@) == entries_view(old(entries)@) + Seq::new(
            pl@.len(),
            |ls: int| (src.layers@[pl@[ls] as int].id@, (g as u16, ls as u16)),
        ),
{
    let ghost o = context.options;
    let ghost start = *context;
    let ghost e0 = entries_view(entries@);
    let mut layers: Vec<Layer> = Vec::new();
    let mut active: Option<usize> = None;
    let mut ls: usize = 0;
    while ls < pl.len()
        invariant
            ls <= pl@.len(),
            pl@.len() <= 16,
            g < 16,
            forall|j: int| 0 <= j < pl@.len() ==> #[trigger] pl@[j] < src.layers@.len(),
            same_frame(start, *context),
            o == start.options,
            layers@.len() == ls,
            forall|t: int|
                0 <= t < ls ==> (#[trigger] layers@[t])@ == layer_v(o, *src, src.layers@[pl@[t] as int]),
            match active {
                Some(a) => last_active(*src, pl@, ls as nat) == Some(a as nat),
                None => last_active(*src, pl@, ls as nat) is None,
            },
            issues_of(*context) == layer_name_issues(o, issues_of(start), *src, pl@, ls as nat),
            entries_view(entries@) == e0 + Seq::new(
                ls as nat,
                |t: int| (src.layers@[pl@[t] as int].id@, (g as u16, t as u16)),
            ),
        decreases pl@.len() - ls,
    {
        let l = &src.layers[pl[ls]];
        let name = header_text(l.name.as_str(), context);
        let act = is_active_exec(src, l);
        let state: u32 = if !l.visible {
            0
        } else if act {
            3
        } else if l.locked {
            1
        } else {
            2
        };
        let protect: u32 = if l.locked {
            1
        } else {
            0
        };
        layers.push(Layer { name, state, protect });
        let ghost before = entries@;
        entries.push((l.id.clone(), (g as u16, ls as u16)));
        proof {
            assert(entries_view(entries@) =~= entries_view(before).push((l.id@, (g as u16, ls as u16))));
            assert(entries_view(entries@) =~= e0 + Seq::new(
                (ls + 1) as nat,
                |t: int| (src.layers@[pl@[t] as int].id@, (g as u16, t as u16)),
            ));
        }
        if act {
            active = Some(ls);
        }
        ls = ls + 1;
    }
    let mut k: usize = ls;
    while k < 16
        invariant
            ls == pl@.len(),
            ls <= k <= 16,
            layers@.len() == k,
            forall|t: int|
                0 <= t < ls ==> (#[trigger] layers@[t])@ == layer_v(o, *src, src.layers@[pl@[t] as int]),
            forall|t: int| ls <= t < k ==> (#[trigger] layers@[t])@ == blank_layer(base_state),
        decreases 16 - k,
    {
        layers.push(Layer { name: String::new(), state: base_state, protect: 0 });
        k = k + 1;
    }
    (layers, active)
}

/// Slot `g` of the header, and whether it holds the active layer.
#[verifier::spinoff_prover]
fn build_slot(
    src: &HeaderSource,
    kept: &Vec<usize>,
    names: &Vec<String>,
    lorders: &Vec<i64>,
    lids: &Vec<String>,
    lslots: &Vec<usize>,
    g: usize,
    scale: Option<u64>,
    context: &mut ExportContext,
    entries: &mut Vec<(String, (u16, u16))>,
) -> (r: (LayerGroup, bool))
    requires
        g < 16,
        kept@.len() <= 16,
        forall|j: int| 0 <= j < kept@.len() ==> #[trigger] kept@[j] < src.groups@.len(),
        names@.len() == kept@.len(),
        forall|j: int|
            0 <= j < kept@.len() ==> (#[trigger] names@[j])@ == text_out(
                old(context).options,
                src.groups@[kept@[j] as int].name@,
            ),
        lorders@ == layer_orders(*src),
        ids_of(lids@) == layer_ids(*src),
        lorders@.len() == src.layers@.len(),
        lids@.len() == src.layers@.len(),
        lslots@.len() == src.layers@.len(),
        forall|j: int|
            0 <= j < lslots@.len() ==> #[trigger] lslots@[j] == layer_slot(*src, kept@, src.layers@[j]),
    ensures
        same_frame(*old(context), *final(context)),
        r.0@ == final_group(old(context).options, *src, kept@, g as nat, scale),
        r.1 == (last_active(*src, placed(*src, kept@, g as nat), placed(*src, kept@, g as nat).len()) is Some),
        issues_of(*final(context)) == slot_issues(
            old(context).options,
            issues_of(*old(context)),
            *src,
            kept@,
            g as nat,
        ),
        entries_view(final(entries)@) == entries_view(old(entries)@) + Seq::new(
            placed(*src, kept@, g as nat).len(),
            |ls: int| (src.layers@[placed(*src, kept@, g as nat)[ls] as int].id@, (g as u16, ls as u16)),
        ),
{
    let ghost o = context.options;
    let pl = slot_layers(src, kept, lorders, lids, lslots, g, context);
    let (name, state, scale_bits, protect, base_state) = if src.groups.len() == 0 {
        let name = if g == 0 {
            "Default".to_owned()
        } else {
            String::new()
        };
        (name, 2u32, ONE_BITS, 0u32, 2u32)
    } else if g < kept.len() {
        let gr = &src.groups[kept[g]];
        let st: u32 = if !gr.visible {
            0
        } else if gr.locked {
            1
        } else {
            2
        };
        let sb = match scale {
            Some(b) => b,
            None => gr.scale_bits,
        };
        let pr: u32 = if gr.locked {
            1
        } else {
            0
        };
        (names[g].clone(), st, sb, pr, 0u32)
    } else {
        (String::new(), 2u32, ONE_BITS, 0u32, 2u32)
    };
    let ghost b = base_group(o, *src, kept@, g as nat, scale);
    assert(name@ == b.name && state == b.state && scale_bits == b.scale && protect == b.protect);
    assert(forall|t: int| 0 <= t < 16 ==> #[trigger] b.layers[t] == blank_layer(base_state));
    let (layers, active) = fill_layers(src, &pl, base_state, g, context, entries);
    let write_layer: u32 = match active {
        Some(ls) => ls as u32,
        None => 0,
    };
    let grp = LayerGroup { name, state, write_layer, scale: scale_bits, protect, layers };
    assert(grp@.layers =~= final_group(o, *src, kept@, g as nat, scale).layers);
    (grp, active.is_some())
}

/// The JWW header of a drawing and the (group, layer) slot of every layer
/// placed in it, in slot order.
///
/// With no active layout the export is blocked (`invalid_active_layout`) and
/// the default header is returned with no slots. Otherwise the header carries
/// the project name as memo, the layout's paper, the pens of the colors, the
/// first sixteen layer groups by (order, id), and in each group slot the
/// first sixteen of its layers by (order, id); layers of no kept group go to
/// slot 0. The issues added are those of `header_issues`, in that order.
#[verifier::spinoff_prover]
pub fn build_header(source: &HeaderSource, context: &mut ExportContext) -> (out: (
    Header,
    Vec<(String, (u16, u16))>,
))
    ensures
        same_frame(*old(context), *final(context)),
        issues_of(*final(context)) == header_issues(
            old(context).options,
            issues_of(*old(context)),
            *source,
        ),
        match source.layout {
            None => default_header_spec(out.0@) && out.1@.len() == 0,
            Some(l) => built_header(old(context).options, *source, l, out.0@) && entries_view(out.1@)
                == slot_entries(*source, kept_groups(*source), 16),
        },
{
    let ghost o = context.options;
    let ghost s0 = issues_of(*context);
    let layout = match &source.layout {
        None => {
            header_block(context, "invalid_active_layout", "drawing has no active layout".to_owned());
            return (Header::default(), Vec::new());
        },
        Some(l) => l,
    };
    if layout.scale_bits.is_none() {
        let q = debug_quoted(layout.scale_text.as_str());
        let message = concat3("layout scale ", q.as_str(), " is not a positive numeric scale");
        header_block(context, "unsupported_layout_scale", message);
    }
    if layout.landscape {
        header_approximate(
            context,
            "layout_orientation_approximated",
            "JWW version 600 does not carry an independent layout orientation flag".to_owned(),
        );
    }
    let memo = header_text(source.project_name.as_str(), context);
    let paper = paper_code(layout.paper.as_str(), context);
    let (sc, pc, pw) = header_pen_tables(&source.colors, context);
    let (gorders, gids) = group_keys(source);
    let kept = kept_group_slots(source, &gorders, &gids);
    if source.groups.len() > 16 {
        header_block(context, "layer_group_limit", "JWW supports at most 16 layer groups".to_owned());
    }
    let names = group_names(source, &kept, context);
    let (lorders, lids) = layer_keys(source);
    let lslots = layer_slots(source, &kept);
    let ghost s7 = issues_of(*context);
    let ghost start = *context;
    let mut groups_out: Vec<LayerGroup> = Vec::new();
    let mut entries: Vec<(String, (u16, u16))> = Vec::new();
    let mut write_group: u32 = 0;
    let mut g: usize = 0;
    while g < 16
        invariant
            g <= 16,
            kept@ == kept_groups(*source),
            kept@.len() <= 16,
            forall|j: int| 0 <= j < kept@.len() ==> #[trigger] kept@[j] < source.groups@.len(),
            names@.len() == kept@.len(),
            forall|j: int|
                0 <= j < kept@.len() ==> (#[trigger] names@[j])@ == text_out(
                    o,
                    source.groups@[kept@[j] as int].name@,
                ),
            lorders@ == layer_orders(*source),
            ids_of(lids@) == layer_ids(*source),
            lorders@.len() == source.layers@.len(),
            lids@.len() == source.layers@.len(),
            lslots@.len() == source.layers@.len(),
            forall|j: int|
                0 <= j < lslots@.len() ==> #[trigger] lslots@[j] == layer_slot(
                    *source,
                    kept@,
                    source.layers@[j],
                ),
            same_frame(start, *context),
            o == start.options,
            groups_out@.len() == g,
            forall|t: int|
                0 <= t < g ==> (#[trigger] groups_out@[t])@ == final_group(
                    o,
                    *source,
                    kept@,
                    t as nat,
                    layout.scale_bits,
                ),
            write_group == match active_group(*source, kept@, g as nat) {
                Some(a) => a as u32,
                None => 0,
            },
            issues_of(*context) == layer_issues(o, s7, *source, kept@, g as nat),
            entries_view(entries@) == slot_entries(*source, kept@, g as nat),
        decreases 16 - g,
    {
        let (grp, act) = build_slot(
            source,
            &kept,
            &names,
            &lorders,
            &lids,
            &lslots,
            g,
            layout.scale_bits,
            context,
            &mut entries,
        );
        groups_out.push(grp);
        if act {
            write_group = g as u32;
        }
        g = g + 1;
    }
    let header = Header {
        memo,
        paper_size: paper,
        write_layer_group: write_group,
        layer_groups: groups_out,
        screen_pen_colors: [sc[0], sc[1], sc[2], sc[3], sc[4], sc[5], sc[6], sc[7], sc[8], sc[9]],
        screen_pen_widths: [1; 10],
        print_pen_colors: [pc[0], pc[1], pc[2], pc[3], pc[4], pc[5], pc[6], pc[7], pc[8], pc[9]],
        print_pen_widths: [pw[0], pw[1], pw[2], pw[3], pw[4], pw[5], pw[6], pw[7], pw[8], pw[9]],
        print_point_radii: [TENTH_BITS; 10],
    };
    proof {
        assert(header@.screen_pen_colors@ =~= sc@);
        assert(header@.print_pen_colors@ =~= pc@);
        assert(header@.print_pen_widths@ =~= pw@);
        assert forall|t: int| 0 <= t < 16 implies #[trigger] header@.layer_groups[t] == final_group(
            o,
            *source,
            kept@,
            t as nat,
            layout.scale_bits,
        ) by {
            assert(header@.layer_groups[t] == header.layer_groups@[t]@);
        }
    }
    (header, entries)
}

// ---------------------------------------------------------------------------
// Comparing canonical dimension entities
// ---------------------------------------------------------------------------

/// A top-level field of a JSON object: its key and its value written as
/// compact JSON text.
pub struct JsonField {
    pub key: String,
    pub value_json: String,
}

/// A JSON value as the exporter compares canonical entities: whether it is an
/// object and, if so, its fields in key order.
pub struct JsonEntity {
    pub is_object: bool,
    pub fields: Vec<JsonField>,
}

pub open spec fn field_view(f: JsonField) -> (Seq<char>, Seq<char>) {
    (f.key@, f.value_json@)
}

/// The fields other than `value`, in order.
pub open spec fn fields_without_value(fields: Seq<JsonField>) -> Seq<(Seq<char>, Seq<char>)>
    decreases fields.len(),
{
    if fields.len() == 0 {
        Seq::empty()
    } else {
        let rest = fields_without_value(fields.drop_last());
        if fields.last().key@ == "value"@ {
            rest
        } else {
            rest.push(field_view(fields.last()))
        }
    }
}

/// The JSON text of the first field with the key.
pub open spec fn field_json(fields: Seq<JsonField>, key: Seq<char>) -> Option<Seq<char>>
    decreases fields.len(),
{
    if fields.len() == 0 {
        None
    } else if fields[0].key@ == key {
        Some(fields[0].value_json@)
    } else {
        field_json(fields.drop_first(), key)
    }
}

pub open spec fn is_dimension(e: JsonEntity) -> bool {
    e.is_object && field_json(e.fields@, "type"@) == Some("\"dimension\""@)
}

/// Whether two canonical entities are dimensions that differ at most in
/// their `value` field.
pub open spec fn differs_only_by_value(canonical: JsonEntity, current: JsonEntity) -> bool {
    &&& is_dimension(canonical)
    &&& is_dimension(current)
    &&& fields_without_value(canonical.fields@) == fields_without_value(current.fields@)
}

fn field_json_exec<'a>(fields: &'a Vec<JsonField>, key: &str) -> (out: Option<&'a String>)
    ensures
        match out {
            Some(v) => field_json(fields@, key@) == Some(v@),
            None => field_json(fields@, key@) is None,
        },
{
    let mut i: usize = 0;
    assert(fields@.skip(0) =~= fields@);
    while i < fields.len()
        invariant
            i <= fields.len(),
            field_json(fields@, key@) == field_json(fields@.skip(i as int), key@),
        decreases fields.len() - i,
    {
        proof {
            assert(fields@.skip(i as int).drop_first() =~= fields@.skip(i + 1));
        }
        if str_eq(fields[i].key.as_str(), key) {
            return Some(&fields[i].value_json);
        }
        i = i + 1;
    }
    None
}

fn is_dimension_exec(e: &JsonEntity) -> (b: bool)
    ensures
        b == is_dimension(*e),
{
    if !e.is_object {
        return false;
    }
    match field_json_exec(&e.fields, "type") {
        Some(t) => str_eq(t.as_str(), "\"dimension\""),
        None => false,
    }
}

fn without_value(fields: &Vec<JsonField>) -> (out: Vec<(String, String)>)
    ensures
        out@.map_values(|p: (String, String)| (p.0@, p.1@)) == fields_without_value(fields@),
{
    let mut out: Vec<(String, String)> = Vec::new();
    let mut i: usize = 0;
    assert(fields@.take(0) =~= Seq::<JsonField>::empty());
    while i < fields.len()
        invariant
            i <= fields.len(),
            out@.map_values(|p: (String, String)| (p.0@, p.1@)) == fields_without_value(
                fields@.take(i as int),
            ),
        decreases fields.len() - i,
    {
        proof {
            assert(fields@.take(i + 1).drop_last() =~= fields@.take(i as int));
            assert(fields@.take(i + 1).last() == fields@[i as int]);
        }
        if !str_eq(fields[i].key.as_str(), "value") {
            let ghost before = out@;
            out.push((fields[i].key.clone(), fields[i].value_json.clone()));
            assert(out@.map_values(|p: (String, String)| (p.0@, p.1@)) =~= before.map_values(
                |p: (String, String)| (p.0@, p.1@),
            ).push(field_view(fields@[i as int])));
        }
        i = i + 1;
    }
    assert(fields@.take(fields.len() as int) =~= fields@);
    out
}

/// Whether the canonical entity and the current one are dimensions that
/// differ at most in their `value` field.
#[verifier::loop_isolation(false)]
pub fn dimension_differs_only_by_value(canonical: &JsonEntity, current: &JsonEntity) -> (b: bool)
    ensures
        b == differs_only_by_value(*canonical, *current),
{
    if !is_dimension_exec(canonical) || !is_dimension_exec(current) {
        return false;
    }
    let a = without_value(&canonical.fields);
    let c = without_value(&current.fields);
    let ghost av = a@.map_values(|p: (String, String)| (p.0@, p.1@));
    let ghost cv = c@.map_values(|p: (String, String)| (p.0@, p.1@));
    if a.len() != c.len() {
        assert(av.len() != cv.len());
        return false;
    }
    let mut i: usize = 0;
    while i < a.len()
        invariant
            i <= a.len(),
            a.len() == c.len(),
            av == a@.map_values(|p: (String, String)| (p.0@, p.1@)),
            cv == c@.map_values(|p: (String, String)| (p.0@, p.1@)),
            forall|j: int| 0 <= j < i ==> av[j] == cv[j],
        decreases a.len() - i,
    {
        if !str_eq(a[i].0.as_str(), c[i].0.as_str()) || !str_eq(a[i].1.as_str(), c[i].1.as_str()) {
            assert(av[i as int] != cv[i as int]);
            return false;
        }
        i = i + 1;
    }
    assert(av =~= cv);
    true
}

} // verus!
