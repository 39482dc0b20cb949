//! The rules of the JWW importer: the CAD source ids derived from JWW pens
//! and layers, import warnings, and the text the importer writes.
use vstd::prelude::*;
use crate::text::{
    decimal, text_with_number, concat_str, string_from_chars, chars_of, push_chars, push_str_chars,
    is_whitespace, char_is_whitespace, trim_spec, trim_chars, lower_char,
};
use crate::codec::header_read::{hex_digit, hex_digit_exec, default_layer_name, default_layer_name_exec};
use crate::codec::types::DecodedLayerGroup;
use crate::codec::archive::contains_u32;
use crate::import_read::{groups_shape, BlockDef, Block};

verus! {

pub const CRATE_NAME: &'static str = "cad-import-jww";

pub fn crate_name() -> (name: &'static str)
    ensures
        name@ == "cad-import-jww"@,
{
    CRATE_NAME
}

/// Errors of a JWW import. Paths are given as text; the I/O and
/// serialization variants carry the underlying error's message.
#[derive(Debug)]
pub enum ImportError {
    Read { path: String, detail: String },
    Write { path: String, detail: String },
    OutputExists { path: String },
    InvalidSignature,
    UnexpectedEof(&'static str),
    EntityListNotFound,
    UnknownClassPid(u32),
    UnknownEntityClass(String),
    InvalidBlockDefinitionCount(u32),
    ExpansionLimitExceeded { kind: &'static str, limit: usize },
    InvalidGeneratedGeometry,
    InvalidGeneratedEntity(String),
    EmptyImport,
    Serialize(String),
}

pub enum ImportErrorV {
    Read { path: Seq<char>, detail: Seq<char> },
    Write { path: Seq<char>, detail: Seq<char> },
    OutputExists { path: Seq<char> },
    InvalidSignature,
    UnexpectedEof(Seq<char>),
    EntityListNotFound,
    UnknownClassPid(u32),
    UnknownEntityClass(Seq<char>),
    InvalidBlockDefinitionCount(u32),
    ExpansionLimitExceeded { kind: Seq<char>, limit: usize },
    InvalidGeneratedGeometry,
    InvalidGeneratedEntity(Seq<char>),
    EmptyImport,
    Serialize(Seq<char>),
}

impl View for ImportError {
    type V = ImportErrorV;

    open spec fn view(&self) -> ImportErrorV {
        match self {
            ImportError::Read { path, detail } => ImportErrorV::Read { path: path@, detail: detail@ },
            ImportError::Write { path, detail } => ImportErrorV::Write {
                path: path@,
                detail: detail@,
            },
            ImportError::OutputExists { path } => ImportErrorV::OutputExists { path: path@ },
            ImportError::InvalidSignature => ImportErrorV::InvalidSignature,
            ImportError::UnexpectedEof(what) => ImportErrorV::UnexpectedEof((*what)@),
            ImportError::EntityListNotFound => ImportErrorV::EntityListNotFound,
            ImportError::UnknownClassPid(pid) => ImportErrorV::UnknownClassPid(*pid),
            ImportError::UnknownEntityClass(name) => ImportErrorV::UnknownEntityClass(name@),
            ImportError::InvalidBlockDefinitionCount(n) => ImportErrorV::InvalidBlockDefinitionCount(
                *n,
            ),
            ImportError::ExpansionLimitExceeded { kind, limit } =>
                ImportErrorV::ExpansionLimitExceeded { kind: (*kind)@, limit: *limit },
            ImportError::InvalidGeneratedGeometry => ImportErrorV::InvalidGeneratedGeometry,
            ImportError::InvalidGeneratedEntity(s) => ImportErrorV::InvalidGeneratedEntity(s@),
            ImportError::EmptyImport => ImportErrorV::EmptyImport,
            ImportError::Serialize(s) => ImportErrorV::Serialize(s@),
        }
    }
}

pub open spec fn import_error_message(e: ImportErrorV) -> Seq<char> {
    match e {
        ImportErrorV::Read { path, .. } => "failed to read "@ + path,
        ImportErrorV::Write { path, .. } => "failed to write "@ + path,
        ImportErrorV::OutputExists { path } => "output project already exists: "@ + path,
        ImportErrorV::InvalidSignature => "invalid JWW signature"@,
        ImportErrorV::UnexpectedEof(what) => "unexpected EOF while reading "@ + what,
        ImportErrorV::EntityListNotFound => "JWW entity list was not found"@,
        ImportErrorV::UnknownClassPid(pid) => "unknown JWW class pid "@ + decimal(pid as nat),
        ImportErrorV::UnknownEntityClass(name) => "unknown JWW entity class "@ + name
            + "; record length is not available, so import cannot continue"@,
        ImportErrorV::InvalidBlockDefinitionCount(n) => "invalid JWW block definition count "@
            + decimal(n as nat),
        ImportErrorV::ExpansionLimitExceeded { kind, limit } => "JWW "@ + kind
            + " limit exceeded ("@ + decimal(limit as nat) + ")"@,
        ImportErrorV::InvalidGeneratedGeometry => "generated CAD entity does not have valid geometry"@,
        ImportErrorV::InvalidGeneratedEntity(_) => "failed to parse generated CAD entity"@,
        ImportErrorV::EmptyImport => "imported JWW has no supported entities"@,
        ImportErrorV::Serialize(_) => "failed to serialize import output"@,
    }
}

impl ImportError {
    /// The error's message.
    pub fn message(&self) -> (m: String)
        ensures
            m@ == import_error_message(self@),
    {
        match self {
            ImportError::Read { path, .. } => concat_str("failed to read ", path.as_str()),
            ImportError::Write { path, .. } => concat_str("failed to write ", path.as_str()),
            ImportError::OutputExists { path } => concat_str(
                "output project already exists: ",
                path.as_str(),
            ),
            ImportError::InvalidSignature => "invalid JWW signature".to_owned(),
            ImportError::UnexpectedEof(what) => concat_str("unexpected EOF while reading ", what),
            ImportError::EntityListNotFound => "JWW entity list was not found".to_owned(),
            ImportError::UnknownClassPid(pid) => text_with_number(
                "unknown JWW class pid ",
                *pid as u64,
            ),
            ImportError::UnknownEntityClass(name) => {
                let head = concat_str("unknown JWW entity class ", name.as_str());
                concat_str(
                    head.as_str(),
                    "; record length is not available, so import cannot continue",
                )
            },
            ImportError::InvalidBlockDefinitionCount(n) => text_with_number(
                "invalid JWW block definition count ",
                *n as u64,
            ),
            ImportError::ExpansionLimitExceeded { kind, limit } => {
                let head = concat_str("JWW ", kind);
                let with_kind = concat_str(head.as_str(), " limit exceeded (");
                let with_limit = text_with_number(with_kind.as_str(), *limit as u64);
                concat_str(with_limit.as_str(), ")")
            },
            ImportError::InvalidGeneratedGeometry => "generated CAD entity does not have valid geometry".to_owned(),
            ImportError::InvalidGeneratedEntity(_) => "failed to parse generated CAD entity".to_owned(),
            ImportError::EmptyImport => "imported JWW has no supported entities".to_owned(),
            ImportError::Serialize(_) => "failed to serialize import output".to_owned(),
        }
    }
}

#[derive(Debug, Clone)]
pub struct ImportReport {
    pub schema_version: String,
    pub source_path: String,
    pub project_path: String,
    pub project_name: String,
    pub drawing_name: String,
    pub jww_version: u32,
    pub jww_paper_size: u32,
    pub jww_memo: String,
    pub supported_entities: usize,
    pub warnings: Vec<ImportWarning>,
}

/// A record the importer could not carry over, or carried over with a change.
#[derive(Debug, Clone, PartialEq, Eq)]
pub struct ImportWarning {
    pub code: String,
    pub message: String,
    pub record_type: String,
}

pub struct ImportWarningV {
    pub code: Seq<char>,
    pub message: Seq<char>,
    pub record_type: Seq<char>,
}

impl View for ImportWarning {
    type V = ImportWarningV;

    open spec fn view(&self) -> ImportWarningV {
        ImportWarningV { code: self.code@, message: self.message@, record_type: self.record_type@ }
    }
}

pub open spec fn warnings_view(v: Seq<ImportWarning>) -> Seq<ImportWarningV> {
    v.map_values(|w: ImportWarning| w@)
}

/// The pen and layer fields of a JWW record that the importer reads.
#[derive(Debug, Clone, Copy, Default, PartialEq, Eq)]
pub struct EntityBase {
    pub pen_style: u8,
    pub pen_color: u16,
    pub pen_width: u16,
    pub layer: u16,
    pub layer_group: u16,
}

pub open spec fn clamp15(n: u16) -> int {
    if n > 15 {
        15
    } else {
        n as int
    }
}

/// `jww_g<group>_l<layer>`, each a hexadecimal digit; indices above 15 count
/// as 15.
pub open spec fn layer_id_spec(base: EntityBase) -> Seq<char> {
    "jww_g"@ + seq![hex_digit(clamp15(base.layer_group))] + "_l"@ + seq![
        hex_digit(clamp15(base.layer)),
    ]
}

fn clamp15_exec(n: u16) -> (c: usize)
    ensures
        c == clamp15(n),
{
    if n > 15 {
        15
    } else {
        n as usize
    }
}

pub fn layer_id(base: EntityBase) -> (id: String)
    ensures
        id@ == layer_id_spec(base),
{
    let mut chars: Vec<char> = Vec::new();
    push_str_chars(&mut chars, "jww_g");
    chars.push(hex_digit_exec(clamp15_exec(base.layer_group)));
    push_str_chars(&mut chars, "_l");
    chars.push(hex_digit_exec(clamp15_exec(base.layer)));
    assert(chars@ =~= layer_id_spec(base));
    string_from_chars(chars.as_slice())
}

pub fn color_id(base: EntityBase) -> (id: String)
    ensures
        id@ == "jww_color_"@ + decimal(base.pen_color as nat),
{
    text_with_number("jww_color_", base.pen_color as u64)
}

pub fn line_type_id(base: EntityBase) -> (id: String)
    ensures
        id@ == "jww_line_"@ + decimal(base.pen_style as nat),
{
    text_with_number("jww_line_", base.pen_style as u64)
}

/// A warning whose message names the layer of the record.
pub open spec fn warning_spec(
    code: Seq<char>,
    record_type: Seq<char>,
    base: EntityBase,
    message: Seq<char>,
) -> ImportWarningV {
    ImportWarningV {
        code,
        message: message + " on "@ + layer_id_spec(base),
        record_type,
    }
}

pub fn import_warning(code: &str, record_type: &str, base: EntityBase, message: &str) -> (w:
    ImportWarning)
    ensures
        w@ == warning_spec(code@, record_type@, base, message@),
{
    let id = layer_id(base);
    let head = concat_str(message, " on ");
    ImportWarning {
        code: code.to_owned(),
        message: concat_str(head.as_str(), id.as_str()),
        record_type: record_type.to_owned(),
    }
}

pub fn unsupported(record_type: &str, base: EntityBase, message: &str) -> (w: ImportWarning)
    ensures
        w@ == warning_spec("unsupported_record"@, record_type@, base, message@),
{
    import_warning("unsupported_record", record_type, base, message)
}

pub fn geometry_skipped(record_type: &str, base: EntityBase, message: &str) -> (w: ImportWarning)
    ensures
        w@ == warning_spec("geometry_skipped"@, record_type@, base, message@),
{
    import_warning("geometry_skipped", record_type, base, message)
}

/// The text, unless it is empty or only whitespace.
pub fn non_empty_string(value: &str) -> (out: Option<&str>)
    ensures
        match out {
            Some(v) => v@ == value@ && exists|i: int|
                0 <= i < value@.len() && !is_whitespace(#[trigger] value@[i]),
            None => forall|i: int| 0 <= i < value@.len() ==> is_whitespace(#[trigger] value@[i]),
        },
{
    let chars = chars_of(value);
    let mut i: usize = 0;
    while i < chars.len()
        invariant
            chars@ == value@,
            i <= chars.len(),
            forall|j: int| 0 <= j < i ==> is_whitespace(#[trigger] value@[j]),
        decreases chars.len() - i,
    {
        if !char_is_whitespace(chars[i]) {
            assert(!is_whitespace(value@[i as int]));
            return Some(value);
        }
        i = i + 1;
    }
    None
}

/// Text for a TOML basic string: each backslash and double quote is escaped
/// with a backslash.
pub open spec fn toml_escape_spec(s: Seq<char>) -> Seq<char>
    decreases s.len(),
{
    if s.len() == 0 {
        Seq::empty()
    } else {
        toml_escape_spec(s.drop_last()) + if s.last() == '\\' {
            seq!['\\', '\\']
        } else if s.last() == '"' {
            seq!['\\', '"']
        } else {
            seq![s.last()]
        }
    }
}

pub fn toml_escape(value: &str) -> (out: String)
    ensures
        out@ == toml_escape_spec(value@),
{
    let chars = chars_of(value);
    let mut out: Vec<char> = Vec::new();
    let mut i: usize = 0;
    while i < chars.len()
        invariant
            chars@ == value@,
            i <= chars.len(),
            out@ == toml_escape_spec(value@.subrange(0, i as int)),
        decreases chars.len() - i,
    {
        let c = chars[i];
        if c == '\\' {
            out.push('\\');
            out.push('\\');
        } else if c == '"' {
            out.push('\\');
            out.push('"');
        } else {
            out.push(c);
        }
        assert(value@.subrange(0, i + 1).drop_last() =~= value@.subrange(0, i as int));
        assert(out@ =~= toml_escape_spec(value@.subrange(0, i + 1)));
        i = i + 1;
    }
    assert(value@.subrange(0, i as int) =~= value@);
    string_from_chars(out.as_slice())
}

pub open spec fn pen_color_rgb_spec(color: u16) -> Seq<char> {
    if color == 1 {
        "#000000"@
    } else if color == 2 {
        "#FF0000"@
    } else if color == 3 {
        "#00AA00"@
    } else if color == 4 {
        "#0000FF"@
    } else if color == 5 {
        "#FFFF00"@
    } else if color == 6 {
        "#FF00FF"@
    } else if color == 7 {
        "#00FFFF"@
    } else if color == 8 {
        "#FFFFFF"@
    } else {
        "#333333"@
    }
}

/// The RGB color of a JWW pen color number; unknown numbers are dark gray.
pub fn pen_color_rgb(color: u16) -> (rgb: &'static str)
    ensures
        rgb@ == pen_color_rgb_spec(color),
{
    match color {
        1 => "#000000",
        2 => "#FF0000",
        3 => "#00AA00",
        4 => "#0000FF",
        5 => "#FFFF00",
        6 => "#FF00FF",
        7 => "#00FFFF",
        8 => "#FFFFFF",
        _ => "#333333",
    }
}

pub open spec fn dash_pattern_spec(line_type: u8) -> Seq<char> {
    if line_type == 2 {
        "8.0, 4.0"@
    } else if line_type == 3 {
        "2.0, 3.0"@
    } else if line_type == 4 {
        "12.0, 4.0, 2.0, 4.0"@
    } else {
        ""@
    }
}

/// The dash pattern of a JWW line style; other styles are solid.
pub fn dash_pattern(line_type: u8) -> (dash: &'static str)
    ensures
        dash@ == dash_pattern_spec(line_type),
{
    match line_type {
        2 => "8.0, 4.0",
        3 => "2.0, 3.0",
        4 => "12.0, 4.0, 2.0, 4.0",
        _ => "",
    }
}

pub open spec fn is_ascii_alnum(c: char) -> bool {
    ('0' <= c && c <= '9') || ('a' <= c && c <= 'z') || ('A' <= c && c <= 'Z')
}

/// The name before trimming: ASCII letters and digits (lower-cased), `_` and
/// `-` are kept; every run of other characters becomes one `_`, unless a `_`
/// was just written.
pub open spec fn sanitize_raw(s: Seq<char>) -> Seq<char>
    decreases s.len(),
{
    if s.len() == 0 {
        Seq::empty()
    } else {
        let out = sanitize_raw(s.drop_last());
        let c = s.last();
        if is_ascii_alnum(c) || c == '_' || c == '-' {
            out.push(lower_char(c))
        } else if out.len() > 0 && out.last() == '_' {
            out
        } else {
            out.push('_')
        }
    }
}

/// The text without leading and trailing `_`.
pub open spec fn trim_underscores(s: Seq<char>) -> Seq<char> {
    let start = first_not_underscore(s, 0);
    let end = last_not_underscore_end(s, s.len() as int);
    if start >= end {
        Seq::empty()
    } else {
        s.subrange(start, end)
    }
}

pub open spec fn first_not_underscore(s: Seq<char>, i: int) -> int
    decreases s.len() - i,
{
    if i >= s.len() || i < 0 {
        if i < 0 { 0 } else { s.len() as int }
    } else if s[i] != '_' {
        i
    } else {
        first_not_underscore(s, i + 1)
    }
}

pub open spec fn last_not_underscore_end(s: Seq<char>, j: int) -> int
    decreases j,
{
    if j <= 0 || j > s.len() {
        0
    } else if s[j - 1] != '_' {
        j
    } else {
        last_not_underscore_end(s, j - 1)
    }
}

/// A project name made from a file name; `jww_import` when nothing is left.
pub open spec fn sanitize_name_spec(s: Seq<char>) -> Seq<char> {
    let t = trim_underscores(sanitize_raw(s));
    if t.len() == 0 {
        "jww_import"@
    } else {
        t
    }
}

pub fn sanitize_name(value: &str) -> (name: String)
    ensures
        name@ == sanitize_name_spec(value@),
{
    let chars = chars_of(value);
    let mut out: Vec<char> = Vec::new();
    let mut i: usize = 0;
    while i < chars.len()
        invariant
            chars@ == value@,
            i <= chars.len(),
            out@ == sanitize_raw(value@.subrange(0, i as int)),
        decreases chars.len() - i,
    {
        let c = chars[i];
        assert(value@.subrange(0, i + 1).drop_last() =~= value@.subrange(0, i as int));
        if ('0' <= c && c <= '9') || ('a' <= c && c <= 'z') || ('A' <= c && c <= 'Z') || c == '_'
            || c == '-' {
            let l = if 'A' <= c && c <= 'Z' {
                ((c as u8) + 32) as char
            } else {
                c
            };
            out.push(l);
        } else if !(out.len() > 0 && out[out.len() - 1] == '_') {
            out.push('_');
        }
        i = i + 1;
    }
    assert(value@.subrange(0, i as int) =~= value@);
    let ghost raw = out@;
    let mut start: usize = 0;
    while start < out.len() && out[start] == '_'
        invariant
            start <= out.len(),
            out@ == raw,
            first_not_underscore(raw, 0) == first_not_underscore(raw, start as int),
        decreases out.len() - start,
    {
        start = start + 1;
    }
    let mut end: usize = out.len();
    while end > 0 && out[end - 1] == '_'
        invariant
            end <= out.len(),
            out@ == raw,
            last_not_underscore_end(raw, raw.len() as int) == last_not_underscore_end(
                raw,
                end as int,
            ),
        decreases end,
    {
        end = end - 1;
    }
    if start >= end {
        return "jww_import".to_owned();
    }
    let mut trimmed: Vec<char> = Vec::new();
    let mut k = start;
    while k < end
        invariant
            start <= k <= end,
            end <= out.len(),
            trimmed@ =~= out@.subrange(start as int, k as int),
        decreases end - k,
    {
        trimmed.push(out[k]);
        k = k + 1;
    }
    string_from_chars(trimmed.as_slice())
}

/// The sheet paper of a JWW paper size code; an unknown code warns and A3 is
/// used.
pub open spec fn sheet_paper_spec(paper_size: u32) -> Option<Seq<char>> {
    if paper_size == 0 {
        Some("A0"@)
    } else if paper_size == 1 {
        Some("A1"@)
    } else if paper_size == 2 {
        Some("A2"@)
    } else if paper_size == 3 {
        Some("A3"@)
    } else if paper_size == 4 {
        Some("A4"@)
    } else {
        None
    }
}

pub fn sheet_paper(paper_size: u32, warnings: &mut Vec<ImportWarning>) -> (paper: &'static str)
    ensures
        match sheet_paper_spec(paper_size) {
            Some(p) => paper@ == p && final(warnings)@ == old(warnings)@,
            None => paper@ == "A3"@ && warnings_view(final(warnings)@) == warnings_view(
                old(warnings)@,
            ).push(
                ImportWarningV {
                    code: "unsupported_paper_size"@,
                    message: "JWW paper size "@ + decimal(paper_size as nat)
                        + " is unsupported; A3 is used"@,
                    record_type: "header"@,
                },
            ),
        },
{
    match paper_size {
        0 => "A0",
        1 => "A1",
        2 => "A2",
        3 => "A3",
        4 => "A4",
        _ => {
            let head = text_with_number("JWW paper size ", paper_size as u64);
            let w = ImportWarning {
                code: "unsupported_paper_size".to_owned(),
                message: concat_str(head.as_str(), " is unsupported; A3 is used"),
                record_type: "header".to_owned(),
            };
            warnings.push(w);
            assert(warnings_view(warnings@) =~= warnings_view(old(warnings)@).push(w@));
            "A3"
        },
    }
}

/// The CAD layer name of a JWW layer: the group and layer names joined by a
/// space and trimmed, or the hexadecimal indices when both names are empty.
pub open spec fn jww_layer_name_spec(group_name: Seq<char>, layer_name: Seq<char>, base: EntityBase) -> Seq<
    char,
> {
    if group_name.len() == 0 && layer_name.len() == 0 {
        default_layer_name(clamp15(base.layer_group), clamp15(base.layer))
    } else {
        trim_spec(group_name + " "@ + layer_name)
    }
}

pub fn jww_layer_name(groups: &Vec<DecodedLayerGroup>, base: EntityBase) -> (name: String)
    requires
        groups@.len() == 16,
        forall|g: int| 0 <= g < 16 ==> #[trigger] groups@[g].layers@.len() == 16,
    ensures
        ({
            let group = groups@[clamp15(base.layer_group)];
            name@ == jww_layer_name_spec(
                group.name@,
                group.layers@[clamp15(base.layer)].name@,
                base,
            )
        }),
{
    let g = clamp15_exec(base.layer_group);
    let l = clamp15_exec(base.layer);
    let group = &groups[g];
    let layer = &group.layers[l];
    if group.name.as_str().is_empty() && layer.name.as_str().is_empty() {
        proof {
            assert(group.name@.len() == 0);
        }
        return default_layer_name_exec(g, l);
    }
    let mut chars: Vec<char> = Vec::new();
    push_str_chars(&mut chars, group.name.as_str());
    push_str_chars(&mut chars, " ");
    push_str_chars(&mut chars, layer.name.as_str());
    let trimmed = trim_chars(&chars);
    string_from_chars(trimmed.as_slice())
}

// ---------------------------------------------------------------------------
// Conversion budget
// ---------------------------------------------------------------------------

/// At most this many CAD entities are written by one import.
pub const MAX_OUTPUT_ENTITIES: usize = 250_000;

/// At most this many records are visited while expanding blocks.
pub const MAX_EXPANSION_STEPS: usize = 1_000_000;

#[derive(Debug, Clone, Copy)]
pub struct ConversionLimits {
    pub max_output_entities: usize,
    pub max_expansion_steps: usize,
}

impl Default for ConversionLimits {
    fn default() -> (limits: Self)
        ensures
            limits.max_output_entities == MAX_OUTPUT_ENTITIES,
            limits.max_expansion_steps == MAX_EXPANSION_STEPS,
    {
        ConversionLimits {
            max_output_entities: MAX_OUTPUT_ENTITIES,
            max_expansion_steps: MAX_EXPANSION_STEPS,
        }
    }
}

/// The records visited so far by a conversion, against its limits.
#[derive(Debug, Clone, Copy)]
pub struct ExpansionBudget {
    pub expansion_steps: usize,
    pub limits: ConversionLimits,
}

pub open spec fn limit_error(kind: Seq<char>, limit: usize) -> ImportErrorV {
    ImportErrorV::ExpansionLimitExceeded { kind, limit }
}

impl ExpansionBudget {
    pub fn new(limits: ConversionLimits) -> (budget: Self)
        ensures
            budget.expansion_steps == 0,
            budget.limits == limits,
    {
        ExpansionBudget { expansion_steps: 0, limits }
    }

    /// Takes one expansion step; fails, taking none, once the limit is used up.
    pub fn consume_expansion_step(&mut self) -> (res: Result<(), ImportError>)
        ensures
            final(self).limits == old(self).limits,
            old(self).expansion_steps >= old(self).limits.max_expansion_steps ==> {
                &&& res matches Err(e) && e@ == limit_error(
                    "expansion step"@,
                    old(self).limits.max_expansion_steps,
                )
                &&& final(self).expansion_steps == old(self).expansion_steps
            },
            old(self).expansion_steps < old(self).limits.max_expansion_steps ==> {
                &&& res is Ok
                &&& final(self).expansion_steps == old(self).expansion_steps + 1
            },
    {
        if self.expansion_steps >= self.limits.max_expansion_steps {
            return Err(
                ImportError::ExpansionLimitExceeded {
                    kind: "expansion step",
                    limit: self.limits.max_expansion_steps,
                },
            );
        }
        self.expansion_steps = self.expansion_steps + 1;
        Ok(())
    }

    /// Fails once `output_entities` entities have reached the output limit.
    pub fn ensure_output_capacity(&self, output_entities: usize) -> (res: Result<(), ImportError>)
        ensures
            output_entities >= self.limits.max_output_entities ==> (res matches Err(e) && e@
                == limit_error("output entity"@, self.limits.max_output_entities)),
            output_entities < self.limits.max_output_entities ==> res is Ok,
    {
        if output_entities >= self.limits.max_output_entities {
            return Err(
                ImportError::ExpansionLimitExceeded {
                    kind: "output entity",
                    limit: self.limits.max_output_entities,
                },
            );
        }
        Ok(())
    }
}

// ---------------------------------------------------------------------------
// Block expansion
// ---------------------------------------------------------------------------

/// Block references nest at most this deep.
pub const MAX_BLOCK_DEPTH: usize = 32;

/// What becomes of a block reference: its definition is expanded, or a
/// warning is recorded instead.
#[derive(Debug, Clone)]
pub enum BlockExpansion {
    Expand(usize),
    Skip(ImportWarning),
}

/// The index of the last definition with the given number; a later
/// definition replaces an earlier one with the same number.
pub open spec fn last_definition(numbers: Seq<u32>, number: u32) -> Option<int>
    decreases numbers.len(),
{
    if numbers.len() == 0 {
        None
    } else if numbers.last() == number {
        Some(numbers.len() - 1)
    } else {
        last_definition(numbers.drop_last(), number)
    }
}

pub open spec fn definition_numbers(defs: Seq<BlockDef>) -> Seq<u32> {
    defs.map_values(|b: BlockDef| b.number)
}

/// A reference is not expanded when the stack of blocks being expanded is
/// full or already holds its definition, nor when no definition has its
/// number.
pub open spec fn block_expansion_spec(numbers: Seq<u32>, stack: Seq<u32>, block: Block) -> Result<
    int,
    ImportWarningV,
> {
    if stack.len() >= MAX_BLOCK_DEPTH || stack.contains(block.def_number) {
        Err(
            warning_spec(
                "block_cycle"@,
                "CDataBlock"@,
                block.base,
                "block "@ + decimal(block.def_number as nat) + " cannot be expanded safely"@,
            ),
        )
    } else {
        match last_definition(numbers, block.def_number) {
            None => Err(
                warning_spec(
                    "unresolved_block"@,
                    "CDataBlock"@,
                    block.base,
                    "block definition "@ + decimal(block.def_number as nat) + " was not found"@,
                ),
            ),
            Some(i) => Ok(i),
        }
    }
}

proof fn lemma_last_definition_range(numbers: Seq<u32>, number: u32)
    ensures
        last_definition(numbers, number) matches Some(i) ==> 0 <= i < numbers.len() && numbers[i]
            == number,
    decreases numbers.len(),
{
    if numbers.len() > 0 && numbers.last() != number {
        lemma_last_definition_range(numbers.drop_last(), number);
    }
}

/// Decides whether a block reference is expanded, and with which definition.
pub fn plan_block_expansion(block_defs: &Vec<BlockDef>, block_stack: &Vec<u32>, block: &Block) -> (plan:
    BlockExpansion)
    ensures
        match (plan, block_expansion_spec(definition_numbers(block_defs@), block_stack@, *block)) {
            (BlockExpansion::Expand(i), Ok(j)) => i == j && i < block_defs@.len(),
            (BlockExpansion::Skip(w), Err(v)) => w@ == v,
            _ => false,
        },
{
    if block_stack.len() >= MAX_BLOCK_DEPTH || contains_u32(block_stack, block.def_number) {
        let head = text_with_number("block ", block.def_number as u64);
        let message = concat_str(head.as_str(), " cannot be expanded safely");
        return BlockExpansion::Skip(import_warning("block_cycle", "CDataBlock", block.base, message.as_str()));
    }
    let ghost numbers = definition_numbers(block_defs@);
    let mut i = block_defs.len();
    assert(numbers.subrange(0, i as int) =~= numbers);
    while i > 0
        invariant
            i <= block_defs@.len(),
            numbers == definition_numbers(block_defs@),
            !(block_stack@.len() >= MAX_BLOCK_DEPTH || block_stack@.contains(block.def_number)),
            last_definition(numbers, block.def_number) == last_definition(
                numbers.subrange(0, i as int),
                block.def_number,
            ),
        decreases i,
    {
        if block_defs[i - 1].number == block.def_number {
            assert(numbers.subrange(0, i as int).last() == numbers[i - 1]);
            return BlockExpansion::Expand(i - 1);
        }
        assert(numbers.subrange(0, i as int).drop_last() =~= numbers.subrange(0, i - 1));
        i = i - 1;
    }
    let head = text_with_number("block definition ", block.def_number as u64);
    let message = concat_str(head.as_str(), " was not found");
    BlockExpansion::Skip(import_warning("unresolved_block", "CDataBlock", block.base, message.as_str()))
}

// ---------------------------------------------------------------------------
// Layers of the imported project
// ---------------------------------------------------------------------------

/// A layer of the imported project: its id, the pen of the first record
/// placed on it, and its name.
#[derive(Debug, Clone)]
pub struct ImportedLayer {
    pub id: String,
    pub base: EntityBase,
    pub name: String,
}

pub struct ImportedLayerV {
    pub id: Seq<char>,
    pub base: EntityBase,
    pub name: Seq<char>,
}

impl View for ImportedLayer {
    type V = ImportedLayerV;

    open spec fn view(&self) -> ImportedLayerV {
        ImportedLayerV { id: self.id@, base: self.base, name: self.name@ }
    }
}

pub open spec fn layers_view(ls: Seq<ImportedLayer>) -> Seq<ImportedLayerV> {
    ls.map_values(|l: ImportedLayer| l@)
}

/// The position of a layer in id order: group first, then layer.
pub open spec fn layer_key(base: EntityBase) -> int {
    16 * clamp15(base.layer_group) + clamp15(base.layer)
}

/// Layers in id order, one per id, each under the id of its pen.
pub open spec fn layers_wf(ls: Seq<ImportedLayerV>) -> bool {
    &&& forall|i: int, j: int|
        0 <= i < j < ls.len() ==> layer_key(#[trigger] ls[i].base) < layer_key(#[trigger] ls[j].base)
    &&& forall|i: int| 0 <= i < ls.len() ==> (#[trigger] ls[i]).id == layer_id_spec(ls[i].base)
}

pub open spec fn same_pen(a: EntityBase, b: EntityBase) -> bool {
    a.pen_color == b.pen_color && a.pen_style == b.pen_style && a.pen_width == b.pen_width
}

pub open spec fn style_conflict_warning(base: EntityBase) -> ImportWarningV {
    ImportWarningV {
        code: "layer_style_conflict"@,
        message: layer_id_spec(base)
            + " has multiple JWW pen styles; first style is used because CAD source has no entity-level line style override"@,
        record_type: "style"@,
    }
}

/// The layer a record is placed on, named from the header's layer groups.
pub open spec fn new_layer(groups: Seq<DecodedLayerGroup>, base: EntityBase) -> ImportedLayerV {
    let group = groups[clamp15(base.layer_group)];
    ImportedLayerV {
        id: layer_id_spec(base),
        base,
        name: jww_layer_name_spec(group.name@, group.layers@[clamp15(base.layer)].name@, base),
    }
}

fn layer_key_exec(base: EntityBase) -> (k: usize)
    ensures
        k == layer_key(base),
{
    16 * clamp15_exec(base.layer_group) + clamp15_exec(base.layer)
}

/// Records the layer of a record. The first record on a layer fixes its pen;
/// a later record on it with another pen adds a warning.
pub fn remember_layer(
    groups: &Vec<DecodedLayerGroup>,
    layers: &mut Vec<ImportedLayer>,
    warnings: &mut Vec<ImportWarning>,
    base: EntityBase,
)
    requires
        groups_shape(groups@),
        layers_wf(layers_view(old(layers)@)),
    ensures
        layers_wf(layers_view(final(layers)@)),
        ({
            let ls = layers_view(old(layers)@);
            if exists|i: int| 0 <= i < ls.len() && layer_key(#[trigger] ls[i].base) == layer_key(base) {
                let i = choose|i: int| 0 <= i < ls.len() && layer_key(#[trigger] ls[i].base) == layer_key(base);
                &&& layers_view(final(layers)@) == ls
                &&& if same_pen(ls[i].base, base) {
                    warnings_view(final(warnings)@) == warnings_view(old(warnings)@)
                } else {
                    warnings_view(final(warnings)@) == warnings_view(old(warnings)@).push(
                        style_conflict_warning(base),
                    )
                }
            } else {
                &&& warnings_view(final(warnings)@) == warnings_view(old(warnings)@)
                &&& exists|k: int|
                    0 <= k <= ls.len() && layers_view(final(layers)@) == ls.insert(
                        k,
                        new_layer(groups@, base),
                    )
            }
        }),
{
    let ghost ls = layers_view(layers@);
    let key = layer_key_exec(base);
    let mut k: usize = 0;
    while k < layers.len() && layer_key_exec(layers[k].base) < key
        invariant
            k <= layers@.len(),
            ls == layers_view(layers@),
            layers_wf(ls),
            key == layer_key(base),
            forall|j: int| 0 <= j < k ==> layer_key(#[trigger] ls[j].base) < key,
        decreases layers.len() - k,
    {
        k = k + 1;
    }
    if k < layers.len() && layer_key_exec(layers[k].base) == key {
        let first = layers[k].base;
        assert(layer_key(ls[k as int].base) == layer_key(base));
        if first.pen_color != base.pen_color || first.pen_style != base.pen_style || first.pen_width
            != base.pen_width {
            let id = layer_id(base);
            let w = ImportWarning {
                code: "layer_style_conflict".to_owned(),
                message: concat_str(
                    id.as_str(),
                    " has multiple JWW pen styles; first style is used because CAD source has no entity-level line style override",
                ),
                record_type: "style".to_owned(),
            };
            let ghost before = warnings_view(warnings@);
            warnings.push(w);
            assert(warnings_view(warnings@) =~= before.push(w@));
        }
        proof {
            let i = choose|i: int| 0 <= i < ls.len() && layer_key(#[trigger] ls[i].base) == layer_key(base);
            assert(i == k) by {
                if i < k {
                    assert(layer_key(ls[i].base) < key);
                } else if i > k {
                    assert(layer_key(ls[k as int].base) < layer_key(ls[i].base));
                }
            }
        }
        return;
    }
    proof {
        assert forall|i: int| 0 <= i < ls.len() implies layer_key(#[trigger] ls[i].base) != layer_key(base) by {
            if i >= k {
                if i > k {
                    assert(layer_key(ls[k as int].base) < layer_key(ls[i].base));
                }
            }
        }
    }
    let name = jww_layer_name(groups, base);
    let id = layer_id(base);
    let entry = ImportedLayer { id, base, name };
    layers.insert(k, entry);
    proof {
        let after = layers_view(layers@);
        assert(after =~= ls.insert(k as int, entry@));
        assert(entry@ == new_layer(groups@, base));
        assert(layers_wf(after)) by {
            assert forall|i: int, j: int| 0 <= i < j < after.len() implies layer_key(
                #[trigger] after[i].base,
            ) < layer_key(#[trigger] after[j].base) by {
                if i < k && j > k {
                    assert(after[j] == ls[j - 1]);
                    if j - 1 >= k {
                    }
                } else if i > k {
                    assert(after[i] == ls[i - 1]);
                    assert(after[j] == ls[j - 1]);
                }
            }
        }
    }
}

} // verus!
