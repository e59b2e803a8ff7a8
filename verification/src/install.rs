//! Installation into Codex: where things live, the `Stop`/`SubagentStop`
//! command hooks in `hooks.json`, and the removal of the legacy `notify`
//! entry from `config.toml`. The file system is left to the caller; here the
//! files are text in and text out.

use base64::Engine;
use vstd::prelude::*;

use crate::json::{
    as_text, find_key, fviews, get, jview, jviews, json_number, json_pretty, lemma_fviews,
    lemma_fviews_eq, lemma_fviews_push, lemma_fviews_remove, lemma_fviews_update,
    lemma_index_view, lemma_jviews, lemma_jviews_eq, lemma_jviews_prefix, lemma_jviews_push, lemma_obj_index,
    lemma_sindex, lemma_sindex_first, json_parse_text, parse_json_text, pretty_json,
    sget, sindex, sremove, sset, str_eq, JsonValue, SJson,
};
use crate::text::{
    chars_contain, chars_eq_ignore_ascii_case, chars_of, contains_seq, decode_utf8,
    eq_ignore_ascii_case, extend_chars, string_of, trim_chars, trimmed,
};

verus! {

// ---------------------------------------------------------------------------
// Names and paths
// ---------------------------------------------------------------------------

/// The installed program's file name.
pub open spec fn binary_file_name(windows: bool) -> Seq<char> {
    if windows {
        "codex-notify.exe"@
    } else {
        "codex-notify"@
    }
}

/// The file name of the program's predecessor.
pub open spec fn legacy_binary_file_name(windows: bool) -> Seq<char> {
    if windows {
        "go-codex-notify.exe"@
    } else {
        "go-codex-notify"@
    }
}

/// The installed program's file name.
pub fn binary_name(windows: bool) -> (res: &'static str)
    ensures
        res@ == binary_file_name(windows),
{
    if windows {
        "codex-notify.exe"
    } else {
        "codex-notify"
    }
}

/// The predecessor's file name.
pub fn legacy_binary_name(windows: bool) -> (res: &'static str)
    ensures
        res@ == legacy_binary_file_name(windows),
{
    if windows {
        "go-codex-notify.exe"
    } else {
        "go-codex-notify"
    }
}

/// A path separator: `/`, and on Windows also `\`.
pub open spec fn is_separator(c: char, windows: bool) -> bool {
    c == '/' || (windows && c == '\\')
}

/// A bare Windows drive such as `C:`.
pub open spec fn is_bare_drive(base: Seq<char>, windows: bool) -> bool {
    windows && base.len() == 2 && base[1] == ':' && (('a' <= base[0] && base[0] <= 'z') || ('A' <= base[0]
        && base[0] <= 'Z'))
}

/// `base` joined with a relative file name, as `Path::join` does it: nothing
/// is added after an empty base, one that ends with a separator, or a bare
/// Windows drive; otherwise the platform's separator (`\` on Windows, `/`
/// elsewhere) goes between.
pub open spec fn joined_path(base: Seq<char>, name: Seq<char>, windows: bool) -> Seq<char> {
    if base.len() == 0 || is_separator(base.last(), windows) || is_bare_drive(base, windows) {
        base + name
    } else {
        base + seq![if windows { '\\' } else { '/' }] + name
    }
}

/// `base` joined with a relative file name (see [`joined_path`]).
pub fn join_path(base: &str, name: &str, windows: bool) -> (res: String)
    ensures
        res@ == joined_path(base@, name@, windows),
{
    let mut out = chars_of(base);
    let n = out.len();
    let bare_drive = windows && n == 2 && out[1] == ':' && (('a' <= out[0] && out[0] <= 'z') || ('A' <= out[0]
        && out[0] <= 'Z'));
    if !(n == 0 || out[n - 1] == '/' || (windows && out[n - 1] == '\\') || bare_drive) {
        if windows {
            out.push('\\');
        } else {
            out.push('/');
        }
    }
    let name_chars = chars_of(name);
    extend_chars(&mut out, name_chars.as_slice());
    string_of(out.as_slice())
}

/// Where Codex keeps its files and where this tool installs itself.
pub struct Paths {
    pub codex_home: String,
    pub bin_dir: String,
    pub installed_binary: String,
    pub config: String,
    pub hooks: String,
}

/// The layout under a Codex home directory.
pub open spec fn paths_under(p: Paths, home: Seq<char>, windows: bool) -> bool {
    &&& p.codex_home@ == home
    &&& p.bin_dir@ == joined_path(home, "bin"@, windows)
    &&& p.installed_binary@ == joined_path(p.bin_dir@, binary_file_name(windows), windows)
    &&& p.config@ == joined_path(home, "config.toml"@, windows)
    &&& p.hooks@ == joined_path(home, "hooks.json"@, windows)
}

impl Paths {
    /// The layout under `codex_home`: `bin/codex-notify[.exe]`, `config.toml`
    /// and `hooks.json`.
    pub fn from_codex_home(codex_home: String, windows: bool) -> (p: Paths)
        ensures
            paths_under(p, codex_home@, windows),
    {
        let bin_dir = join_path(codex_home.as_str(), "bin", windows);
        let installed_binary = join_path(bin_dir.as_str(), binary_name(windows), windows);
        let config = join_path(codex_home.as_str(), "config.toml", windows);
        let hooks = join_path(codex_home.as_str(), "hooks.json", windows);
        Paths { codex_home, bin_dir, installed_binary, config, hooks }
    }

    /// Where the predecessor's program was installed: its file name in the
    /// same directory.
    pub open spec fn legacy_binary_path(&self, windows: bool) -> Seq<char> {
        joined_path(self.bin_dir@, legacy_binary_file_name(windows), windows)
    }

    /// Where the predecessor's program was installed.
    pub fn legacy_binary(&self, windows: bool) -> (res: String)
        ensures
            res@ == self.legacy_binary_path(windows),
    {
        join_path(self.bin_dir.as_str(), legacy_binary_name(windows), windows)
    }
}

/// What an installation wrote.
pub struct ApplyResult {
    pub binary: String,
    pub config: String,
    pub hooks: String,
}

impl ApplyResult {
    /// What installing into `paths` writes.
    pub fn for_paths(paths: &Paths) -> (r: ApplyResult)
        ensures
            r.binary@ == paths.installed_binary@,
            r.config@ == paths.config@,
            r.hooks@ == paths.hooks@,
    {
        ApplyResult {
            binary: paths.installed_binary.clone(),
            config: paths.config.clone(),
            hooks: paths.hooks.clone(),
        }
    }
}

/// What `status` reports.
#[derive(PartialEq, Eq, Structural, Clone, Copy, Debug)]
pub struct InstallationStatus {
    pub binary_installed: bool,
    pub binary_current: bool,
    pub hook_configured: bool,
    pub subagent_hook_configured: bool,
    pub legacy_notify_configured: bool,
}

// ---------------------------------------------------------------------------
// Hook commands
// ---------------------------------------------------------------------------

/// `value` inside single quotes for a POSIX shell, each `'` written `'\''`.
pub open spec fn shell_quoted(value: Seq<char>) -> Seq<char> {
    seq!['\''] + quote_breaks_single(value) + seq!['\'']
}

/// `value` with each `'` written `'\''`.
pub open spec fn quote_breaks_single(value: Seq<char>) -> Seq<char>
    decreases value.len(),
{
    if value.len() == 0 {
        Seq::empty()
    } else {
        quote_breaks_single(value.drop_last()) + if value.last() == '\'' {
            seq!['\'', '\\', '\'', '\'']
        } else {
            seq![value.last()]
        }
    }
}

/// `value` with each `'` doubled (PowerShell single-quoted string).
pub open spec fn doubled_quotes(value: Seq<char>) -> Seq<char>
    decreases value.len(),
{
    if value.len() == 0 {
        Seq::empty()
    } else {
        doubled_quotes(value.drop_last()) + if value.last() == '\'' {
            seq!['\'', '\'']
        } else {
            seq![value.last()]
        }
    }
}

/// The hook command: the quoted program path followed by `hook`.
pub open spec fn hook_command(binary: Seq<char>, windows: bool) -> Seq<char> {
    if windows {
        seq!['"'] + binary + seq!['"'] + " hook"@
    } else {
        shell_quoted(binary) + " hook"@
    }
}

/// UTF-16 code units of one character.
pub open spec fn utf16_units(c: char) -> Seq<u16> {
    let v = c as u32;
    if v < 0x10000 {
        seq![v as u16]
    } else {
        let w = (v - 0x10000) as u32;
        seq![(0xD800 + w / 1024) as u16, (0xDC00 + w % 1024) as u16]
    }
}

/// Little-endian bytes of code units.
pub open spec fn le_bytes(units: Seq<u16>) -> Seq<u8>
    decreases units.len(),
{
    if units.len() == 0 {
        Seq::empty()
    } else {
        le_bytes(units.drop_last()) + seq![
            (units.last() % 256) as u8,
            (units.last() / 256) as u8,
        ]
    }
}

/// UTF-16LE encoding of a text (`str::encode_utf16` then `u16::to_le_bytes`).
pub open spec fn utf16le(s: Seq<char>) -> Seq<u8>
    decreases s.len(),
{
    if s.len() == 0 {
        Seq::empty()
    } else {
        utf16le(s.drop_last()) + le_bytes(utf16_units(s.last()))
    }
}

/// The character for a 6-bit value in the standard base64 alphabet.
pub open spec fn base64_digit(n: int) -> char {
    if n < 26 {
        ((65 + n) as u32) as char
    } else if n < 52 {
        ((97 + n - 26) as u32) as char
    } else if n < 62 {
        ((48 + n - 52) as u32) as char
    } else if n == 62 {
        '+'
    } else {
        '/'
    }
}

/// Standard base64 with padding (RFC 4648, section 4).
pub open spec fn base64_standard(b: Seq<u8>) -> Seq<char>
    decreases b.len(),
{
    let x0 = if b.len() > 0 { b[0] as int } else { 0 };
    let x1 = if b.len() > 1 { b[1] as int } else { 0 };
    let x2 = if b.len() > 2 { b[2] as int } else { 0 };
    if b.len() == 0 {
        Seq::empty()
    } else if b.len() == 1 {
        seq![base64_digit(x0 / 4), base64_digit((x0 % 4) * 16), '=', '=']
    } else if b.len() == 2 {
        seq![
            base64_digit(x0 / 4),
            base64_digit((x0 % 4) * 16 + x1 / 16),
            base64_digit((x1 % 16) * 4),
            '=',
        ]
    } else {
        seq![
            base64_digit(x0 / 4),
            base64_digit((x0 % 4) * 16 + x1 / 16),
            base64_digit((x1 % 16) * 4 + x2 / 64),
            base64_digit(x2 % 64),
        ] + base64_standard(b.subrange(3, b.len() as int))
    }
}

/// Calls `base64::engine::general_purpose::STANDARD.encode`, documented as
/// the RFC 4648 standard alphabet with padding. Claimed: the result is
/// `base64_standard(bytes@)`.
#[verifier::external_body]
fn encode_base64(bytes: &[u8]) -> (res: String)
    ensures
        res@ == base64_standard(bytes@),
{
    base64::engine::general_purpose::STANDARD.encode(bytes)
}

/// The PowerShell form of the hook command, as an encoded command.
pub open spec fn hook_command_windows(binary: Seq<char>) -> Seq<char> {
    "powershell.exe -NoProfile -NonInteractive -EncodedCommand "@ + base64_standard(
        utf16le("& '"@ + doubled_quotes(binary) + "' hook"@),
    )
}

/// Two commands name the same thing: equal, ignoring ASCII case on Windows.
pub open spec fn same_command(left: Seq<char>, right: Seq<char>, windows: bool) -> bool {
    if windows {
        eq_ignore_ascii_case(left, right)
    } else {
        left == right
    }
}

/// The hook handler this tool writes.
pub open spec fn canonical_handler(binary: Seq<char>, windows: bool) -> SJson {
    SJson::Obj(
        seq![("command"@, SJson::Str(hook_command(binary, windows)))] + (if windows {
            seq![("commandWindows"@, SJson::Str(hook_command_windows(binary)))]
        } else {
            Seq::empty()
        }) + seq![
            ("statusMessage"@, SJson::Str("Sending codex-notify"@)),
            ("timeout"@, SJson::Num("30"@)),
            ("type"@, SJson::Str("command"@)),
        ],
    )
}

/// A hook handler that runs this tool's program: a `command` handler whose
/// command, or Windows command, is ours.
pub open spec fn is_ours(handler: SJson, binary: Seq<char>, windows: bool) -> bool {
    match handler {
        SJson::Obj(f) => as_text(sget(f, "type"@)) == Some("command"@) && ((as_text(
            sget(f, "command"@),
        ) matches Some(c) && same_command(c, hook_command(binary, windows), windows)) || (as_text(
            sget(f, "commandWindows"@),
        ) matches Some(c) && same_command(c, hook_command_windows(binary), windows))),
        _ => false,
    }
}

/// The hook command for the installed program.
pub fn hook_command_text(binary: &str, windows: bool) -> (res: String)
    ensures
        res@ == hook_command(binary@, windows),
{
    let b = chars_of(binary);
    let mut out: Vec<char> = Vec::new();
    if windows {
        out.push('"');
        extend_chars(&mut out, b.as_slice());
        out.push('"');
    } else {
        out.push('\'');
        let mut i: usize = 0;
        while i < b.len()
            invariant
                i <= b@.len(),
                b@ == binary@,
                out@ == seq!['\''] + quote_breaks_single(b@.subrange(0, i as int)),
            decreases b@.len() - i,
        {
            assert(b@.subrange(0, i + 1).drop_last() == b@.subrange(0, i as int));
            if b[i] == '\'' {
                out.push('\'');
                out.push('\\');
                out.push('\'');
                out.push('\'');
            } else {
                out.push(b[i]);
            }
            i = i + 1;
        }
        assert(b@.subrange(0, b@.len() as int) == b@);
        out.push('\'');
    }
    let tail = chars_of(" hook");
    extend_chars(&mut out, tail.as_slice());
    string_of(out.as_slice())
}

/// `value` with each `'` doubled.
fn double_quotes(value: &[char]) -> (res: Vec<char>)
    ensures
        res@ == doubled_quotes(value@),
{
    let mut out: Vec<char> = Vec::new();
    let mut i: usize = 0;
    while i < value.len()
        invariant
            i <= value@.len(),
            out@ == doubled_quotes(value@.subrange(0, i as int)),
        decreases value@.len() - i,
    {
        assert(value@.subrange(0, i + 1).drop_last() == value@.subrange(0, i as int));
        if value[i] == '\'' {
            out.push('\'');
            out.push('\'');
        } else {
            out.push(value[i]);
        }
        i = i + 1;
    }
    assert(value@.subrange(0, value@.len() as int) == value@);
    out
}

/// Appends the UTF-16LE bytes of one character.
fn push_utf16le(out: &mut Vec<u8>, c: char)
    ensures
        final(out)@ == old(out)@ + le_bytes(utf16_units(c)),
{
    let v: u32 = c as u32;
    if v < 0x10000 {
        let unit: u16 = v as u16;
        out.push((unit % 256) as u8);
        out.push((unit / 256) as u8);
        proof {
            let u = utf16_units(c);
            assert(u == seq![unit]);
            assert(u.drop_last() == Seq::<u16>::empty());
            assert(le_bytes(u.drop_last()) == Seq::<u8>::empty());
            assert(le_bytes(u) == seq![(unit % 256) as u8, (unit / 256) as u8]);
        }
    } else {
        let w: u32 = v - 0x10000;
        let high: u16 = (0xD800 + w / 1024) as u16;
        let low: u16 = (0xDC00 + w % 1024) as u16;
        out.push((high % 256) as u8);
        out.push((high / 256) as u8);
        out.push((low % 256) as u8);
        out.push((low / 256) as u8);
        proof {
            let u = utf16_units(c);
            assert(u == seq![high, low]);
            assert(u.drop_last() == seq![high]);
            assert(u.drop_last().drop_last() == Seq::<u16>::empty());
            assert(le_bytes(u.drop_last().drop_last()) == Seq::<u8>::empty());
            assert(u.drop_last().last() == high);
            assert(le_bytes(u.drop_last()) == seq![(high % 256) as u8, (high / 256) as u8]);
            assert(le_bytes(u) == seq![(high % 256) as u8, (high / 256) as u8] + seq![
                (low % 256) as u8,
                (low / 256) as u8,
            ]);
        }
    }
}

/// The UTF-16LE encoding of a text.
fn utf16le_bytes(s: &[char]) -> (res: Vec<u8>)
    ensures
        res@ == utf16le(s@),
{
    let mut out: Vec<u8> = Vec::new();
    let mut i: usize = 0;
    while i < s.len()
        invariant
            i <= s@.len(),
            out@ == utf16le(s@.subrange(0, i as int)),
        decreases s@.len() - i,
    {
        assert(s@.subrange(0, i + 1).drop_last() == s@.subrange(0, i as int));
        push_utf16le(&mut out, s[i]);
        i = i + 1;
    }
    assert(s@.subrange(0, s@.len() as int) == s@);
    out
}

/// The PowerShell hook command for the installed program.
pub fn hook_command_windows_text(binary: &str) -> (res: String)
    ensures
        res@ == hook_command_windows(binary@),
{
    let mut script = chars_of("& '");
    let b = chars_of(binary);
    let doubled = double_quotes(b.as_slice());
    extend_chars(&mut script, doubled.as_slice());
    let tail = chars_of("' hook");
    extend_chars(&mut script, tail.as_slice());
    let bytes = utf16le_bytes(script.as_slice());
    let encoded = encode_base64(bytes.as_slice());
    let mut out = chars_of("powershell.exe -NoProfile -NonInteractive -EncodedCommand ");
    let e = chars_of(encoded.as_str());
    extend_chars(&mut out, e.as_slice());
    string_of(out.as_slice())
}

/// Two commands name the same thing.
pub fn same_command_text(left: &str, right: &str, windows: bool) -> (res: bool)
    ensures
        res == same_command(left@, right@, windows),
{
    if windows {
        let l = chars_of(left);
        let r = chars_of(right);
        chars_eq_ignore_ascii_case(l.as_slice(), r.as_slice())
    } else {
        crate::json::str_eq(left, right)
    }
}

// ---------------------------------------------------------------------------
// Recognising handlers
// ---------------------------------------------------------------------------

/// The string stored under `key`, if the value there is a string.
fn text_field<'a>(fields: &'a Vec<(String, JsonValue)>, key: &str) -> (res: Option<&'a String>)
    ensures
        res matches Some(s) ==> as_text(sget(fviews(fields@), key@)) == Some(s@),
        res is None ==> as_text(sget(fviews(fields@), key@)) is None,
{
    proof {
        lemma_index_view(fields@, key@);
    }
    match get(fields, key) {
        Some(v) => match v {
            JsonValue::Str(s) => Some(s),
            _ => None,
        },
        None => None,
    }
}

/// Whether a handler runs this tool's program; `command` and
/// `command_windows` are the two hook commands for `binary`.
fn is_our_handler(
    handler: &JsonValue,
    binary: &str,
    command: &str,
    command_windows: &str,
    windows: bool,
) -> (res: bool)
    requires
        command@ == hook_command(binary@, windows),
        command_windows@ == hook_command_windows(binary@),
    ensures
        res == is_ours(jview(*handler), binary@, windows),
{
    match handler {
        JsonValue::Object(fields) => {
            match text_field(fields, "type") {
                Some(t) => {
                    if !str_eq(t.as_str(), "command") {
                        return false;
                    }
                },
                None => {
                    return false;
                },
            }
            let by_command = match text_field(fields, "command") {
                Some(c) => same_command_text(c.as_str(), command, windows),
                None => false,
            };
            if by_command {
                return true;
            }
            match text_field(fields, "commandWindows") {
                Some(c) => same_command_text(c.as_str(), command_windows, windows),
                None => false,
            }
        },
        _ => false,
    }
}

/// Whether a member is `key` with the string `value`.
fn is_text_member(m: &(String, JsonValue), key: &str, value: &str) -> (res: bool)
    ensures
        res == ((m.0@, jview(m.1)) == (key@, SJson::Str(value@))),
{
    if !str_eq(m.0.as_str(), key) {
        return false;
    }
    match &m.1 {
        JsonValue::Str(s) => str_eq(s.as_str(), value),
        _ => false,
    }
}

/// Whether a member is `key` with the number written `value`.
fn is_number_member(m: &(String, JsonValue), key: &str, value: &str) -> (res: bool)
    ensures
        res == ((m.0@, jview(m.1)) == (key@, SJson::Num(value@))),
{
    if !str_eq(m.0.as_str(), key) {
        return false;
    }
    match &m.1 {
        JsonValue::Number(n) => str_eq(n.text().as_str(), value),
        _ => false,
    }
}

/// Whether a handler is exactly the one this tool writes.
fn is_canonical(handler: &JsonValue, command: &str, command_windows: &str, binary: &str, windows: bool) -> (res: bool)
    requires
        command@ == hook_command(binary@, windows),
        command_windows@ == hook_command_windows(binary@),
    ensures
        res == (jview(*handler) == canonical_handler(binary@, windows)),
{
    match handler {
        JsonValue::Object(fields) => {
            let ghost c = canonical_handler(binary@, windows);
            let ghost cf = c->Obj_0;
            proof {
                lemma_fviews(fields@);
            }
            let n: usize = if windows { 5 } else { 4 };
            assert(cf.len() == n);
            if fields.len() != n {
                assert(fviews(fields@).len() != cf.len());
                return false;
            }
            let k: usize = if windows { 1 } else { 0 };
            let first = is_text_member(&fields[0], "command", command);
            let second = if windows {
                is_text_member(&fields[1], "commandWindows", command_windows)
            } else {
                true
            };
            let status = is_text_member(&fields[k + 1], "statusMessage", "Sending codex-notify");
            let timeout = is_number_member(&fields[k + 2], "timeout", "30");
            let kind = is_text_member(&fields[k + 3], "type", "command");
            let ok = first && second && status && timeout && kind;
            proof {
                if ok {
                    lemma_fviews_eq(fields@, cf);
                } else if fviews(fields@) == cf {
                    assert(fviews(fields@)[0] == cf[0]);
                    assert(fviews(fields@)[k + 1] == cf[k + 1]);
                    assert(fviews(fields@)[k + 2] == cf[k + 2]);
                    assert(fviews(fields@)[k + 3] == cf[k + 3]);
                    if windows {
                        assert(fviews(fields@)[1] == cf[1]);
                    }
                }
            }
            ok
        },
        _ => false,
    }
}

/// The handler this tool writes, as a value.
fn canonical_handler_value(command: &str, command_windows: &str, binary: &str, windows: bool) -> (res: JsonValue)
    requires
        command@ == hook_command(binary@, windows),
        command_windows@ == hook_command_windows(binary@),
    ensures
        jview(res) == canonical_handler(binary@, windows),
{
    let mut fields: Vec<(String, JsonValue)> = Vec::new();
    fields.push((String::from_str("command"), JsonValue::Str(String::from_str(command))));
    if windows {
        fields.push(
            (String::from_str("commandWindows"), JsonValue::Str(String::from_str(command_windows))),
        );
    }
    fields.push(
        (String::from_str("statusMessage"), JsonValue::Str(String::from_str("Sending codex-notify"))),
    );
    let timeout = json_number(30);
    proof {
        reveal_strlit("30");
        assert(crate::text::decimal(30) == crate::text::decimal(3).push(crate::text::digit_char(0)));
        assert(timeout.text_view() == "30"@);
    }
    fields.push((String::from_str("timeout"), JsonValue::Number(timeout)));
    fields.push((String::from_str("type"), JsonValue::Str(String::from_str("command"))));
    proof {
        lemma_fviews_eq(fields@, canonical_handler(binary@, windows)->Obj_0);
    }
    JsonValue::Object(fields)
}

// ---------------------------------------------------------------------------
// Updating one event's hook groups
// ---------------------------------------------------------------------------

/// The group this tool adds: one group holding its handler.
pub open spec fn new_group(binary: Seq<char>, windows: bool) -> SJson {
    SJson::Obj(seq![("hooks"@, SJson::Arr(seq![canonical_handler(binary, windows)]))])
}

/// A scan of handlers from first to last, given whether the canonical
/// handler was already kept: the handlers kept, whether the canonical one has
/// been kept, whether any was dropped. Handlers that are not ours stay. Of
/// ours, only the first canonical one stays, and only when `enabled`.
pub open spec fn scan_handlers(
    hs: Seq<SJson>,
    binary: Seq<char>,
    windows: bool,
    enabled: bool,
    found: bool,
) -> (Seq<SJson>, bool, bool)
    decreases hs.len(),
{
    if hs.len() == 0 {
        (Seq::empty(), found, false)
    } else {
        let before = scan_handlers(hs.drop_last(), binary, windows, enabled, found);
        let h = hs.last();
        if !is_ours(h, binary, windows) {
            (before.0.push(h), before.1, before.2)
        } else if enabled && !before.1 && h == canonical_handler(binary, windows) {
            (before.0.push(h), true, before.2)
        } else {
            (before.0, before.1, true)
        }
    }
}

/// A scan of one group: the group as it stays (`None` when it goes), whether
/// the canonical handler has been kept, whether anything changed. A group is
/// left alone unless it is an object whose `hooks` is an array; it goes when
/// no handler stays in it.
pub open spec fn scan_group(g: SJson, binary: Seq<char>, windows: bool, enabled: bool, found: bool) -> (
    Option<SJson>,
    bool,
    bool,
) {
    match g {
        SJson::Obj(f) => match sget(f, "hooks"@) {
            Some(SJson::Arr(hs)) => {
                let r = scan_handlers(hs, binary, windows, enabled, found);
                if r.0.len() == 0 {
                    (None, r.1, true)
                } else {
                    (Some(SJson::Obj(sset(f, "hooks"@, SJson::Arr(r.0)))), r.1, r.2)
                }
            },
            _ => (Some(g), found, false),
        },
        _ => (Some(g), found, false),
    }
}

/// A scan of groups from first to last.
pub open spec fn scan_groups(
    gs: Seq<SJson>,
    binary: Seq<char>,
    windows: bool,
    enabled: bool,
    found: bool,
) -> (Seq<SJson>, bool, bool)
    decreases gs.len(),
{
    if gs.len() == 0 {
        (Seq::empty(), found, false)
    } else {
        let before = scan_groups(gs.drop_last(), binary, windows, enabled, found);
        let r = scan_group(gs.last(), binary, windows, enabled, before.1);
        (
            match r.0 {
                Some(g) => before.0.push(g),
                None => before.0,
            },
            r.1,
            before.2 || r.2,
        )
    }
}

/// The handlers kept by a scan, and the flags after it.
fn scan_handlers_exec(
    hs: Vec<JsonValue>,
    binary: &str,
    command: &str,
    command_windows: &str,
    windows: bool,
    enabled: bool,
    found: bool,
) -> (res: (Vec<JsonValue>, bool, bool))
    requires
        command@ == hook_command(binary@, windows),
        command_windows@ == hook_command_windows(binary@),
    ensures
        scan_handlers(jviews(hs@), binary@, windows, enabled, found) == (jviews(res.0@), res.1, res.2),
{
    let ghost orig = hs@;
    let mut rest = hs;
    let mut kept: Vec<JsonValue> = Vec::new();
    let mut f = found;
    let mut c = false;
    let ghost mut k: int = 0;
    assert(orig.subrange(0, 0) =~= Seq::<JsonValue>::empty());
    assert(orig.subrange(0, orig.len() as int) =~= orig);
    while rest.len() > 0
        invariant
            0 <= k <= orig.len(),
            rest@ == orig.subrange(k, orig.len() as int),
            scan_handlers(jviews(orig.subrange(0, k)), binary@, windows, enabled, found) == (
                jviews(kept@),
                f,
                c,
            ),
            command@ == hook_command(binary@, windows),
            command_windows@ == hook_command_windows(binary@),
        decreases rest@.len(),
    {
        let h = rest.remove(0);
        assert(h == orig[k]);
        proof {
            lemma_jviews_prefix(orig, k);
        }
        let ghost old_kept = kept@;
        proof {
            lemma_jviews_push(old_kept, h);
        }
        let ours = is_our_handler(&h, binary, command, command_windows, windows);
        if !ours {
            kept.push(h);
        } else if enabled && !f && is_canonical(&h, command, command_windows, binary, windows) {
            kept.push(h);
            f = true;
        } else {
            c = true;
        }
        proof {
            k = k + 1;
            assert(rest@ =~= orig.subrange(k, orig.len() as int));
        }
    }
    (kept, f, c)
}

/// One group after a scan, and the flags after it.
fn scan_group_exec(
    g: JsonValue,
    binary: &str,
    command: &str,
    command_windows: &str,
    windows: bool,
    enabled: bool,
    found: bool,
) -> (res: (Option<JsonValue>, bool, bool))
    requires
        command@ == hook_command(binary@, windows),
        command_windows@ == hook_command_windows(binary@),
    ensures
        ({
            let s = scan_group(jview(g), binary@, windows, enabled, found);
            &&& res.1 == s.1
            &&& res.2 == s.2
            &&& res.0 matches Some(v) ==> s.0 == Some(jview(v))
            &&& res.0 is None ==> s.0 is None
        }),
{
    match g {
        JsonValue::Object(fields) => {
            let mut fields = fields;
            let ghost before = fields@;
            proof {
                lemma_index_view(before, "hooks"@);
                lemma_obj_index(before, "hooks"@);
            }
            match find_key(&fields, "hooks") {
                Some(i) => {
                    let (key, value) = fields.remove(i);
                    match value {
                        JsonValue::Array(handlers) => {
                            let ghost hv = jviews(handlers@);
                            let r = scan_handlers_exec(
                                handlers,
                                binary,
                                command,
                                command_windows,
                                windows,
                                enabled,
                                found,
                            );
                            if r.0.len() == 0 {
                                proof {
                                    lemma_jviews(r.0@);
                                }
                                (None, r.1, true)
                            } else {
                                let (kept, f, c) = r;
                                proof {
                                    lemma_jviews(kept@);
                                }
                                let ghost m = (key, JsonValue::Array(kept));
                                fields.insert(i, (key, JsonValue::Array(kept)));
                                proof {
                                    assert(fields@ =~= before.update(i as int, m));
                                    lemma_fviews_update(before, i as int, m);
                                }
                                (Some(JsonValue::Object(fields)), f, c)
                            }
                        },
                        other => {
                            fields.insert(i, (key, other));
                            assert(fields@ =~= before);
                            (Some(JsonValue::Object(fields)), found, false)
                        },
                    }
                },
                None => (Some(JsonValue::Object(fields)), found, false),
            }
        },
        other => (Some(other), found, false),
    }
}

/// The groups kept by a scan, and the flags after it.
fn scan_groups_exec(
    gs: Vec<JsonValue>,
    binary: &str,
    command: &str,
    command_windows: &str,
    windows: bool,
    enabled: bool,
) -> (res: (Vec<JsonValue>, bool, bool))
    requires
        command@ == hook_command(binary@, windows),
        command_windows@ == hook_command_windows(binary@),
    ensures
        scan_groups(jviews(gs@), binary@, windows, enabled, false) == (jviews(res.0@), res.1, res.2),
{
    let ghost orig = gs@;
    let mut rest = gs;
    let mut kept: Vec<JsonValue> = Vec::new();
    let mut f = false;
    let mut c = false;
    let ghost mut k: int = 0;
    assert(orig.subrange(0, 0) =~= Seq::<JsonValue>::empty());
    assert(orig.subrange(0, orig.len() as int) =~= orig);
    while rest.len() > 0
        invariant
            0 <= k <= orig.len(),
            rest@ == orig.subrange(k, orig.len() as int),
            scan_groups(jviews(orig.subrange(0, k)), binary@, windows, enabled, false) == (
                jviews(kept@),
                f,
                c,
            ),
            command@ == hook_command(binary@, windows),
            command_windows@ == hook_command_windows(binary@),
        decreases rest@.len(),
    {
        let g = rest.remove(0);
        assert(g == orig[k]);
        proof {
            lemma_jviews_prefix(orig, k);
        }
        let ghost old_kept = kept@;
        let r = scan_group_exec(g, binary, command, command_windows, windows, enabled, f);
        let (kept_group, f2, c2) = r;
        match kept_group {
            Some(v) => {
                proof {
                    lemma_jviews_push(old_kept, v);
                }
                kept.push(v);
            },
            None => {},
        }
        f = f2;
        c = c || c2;
        proof {
            k = k + 1;
            assert(rest@ =~= orig.subrange(k, orig.len() as int));
        }
    }
    (kept, f, c)
}

/// One event's entry after a scan (`None` when absent or dropped): this
/// tool's group is added when `enabled` and the canonical handler was not
/// kept, and the entry is dropped when it is not `enabled` and no group is
/// left. Whether anything changed. `None` when the entry is not an array.
pub open spec fn event_entry(entry: Option<SJson>, binary: Seq<char>, windows: bool, enabled: bool) -> Option<
    (Option<SJson>, bool),
> {
    match entry {
        Some(SJson::Arr(gs)) => {
            let r = scan_groups(gs, binary, windows, enabled, false);
            if enabled && !r.1 {
                Some((Some(SJson::Arr(r.0.push(new_group(binary, windows)))), true))
            } else if !enabled && r.0.len() == 0 {
                Some((None, true))
            } else {
                Some((Some(SJson::Arr(r.0)), r.2))
            }
        },
        Some(_) => None,
        None => if enabled {
            Some((Some(SJson::Arr(seq![new_group(binary, windows)])), true))
        } else {
            Some((None, false))
        },
    }
}

/// The members with `key` set to `v`, or without it when `v` is `None`.
pub open spec fn put(fields: Seq<(Seq<char>, SJson)>, key: Seq<char>, v: Option<SJson>) -> Seq<
    (Seq<char>, SJson),
> {
    match v {
        Some(x) => sset(fields, key, x),
        None => sremove(fields, key),
    }
}

/// The hooks object with one event's entry updated. `None` when the entry
/// is not an array.
pub open spec fn updated_event(
    hooks: Seq<(Seq<char>, SJson)>,
    event: Seq<char>,
    binary: Seq<char>,
    windows: bool,
    enabled: bool,
) -> Option<(Seq<(Seq<char>, SJson)>, bool)> {
    match event_entry(sget(hooks, event), binary, windows, enabled) {
        Some(r) => Some((put(hooks, event, r.0), r.1)),
        None => None,
    }
}

/// This tool's group, as a value.
fn new_group_value(command: &str, command_windows: &str, binary: &str, windows: bool) -> (res: JsonValue)
    requires
        command@ == hook_command(binary@, windows),
        command_windows@ == hook_command_windows(binary@),
    ensures
        jview(res) == new_group(binary@, windows),
{
    let mut handlers: Vec<JsonValue> = Vec::new();
    handlers.push(canonical_handler_value(command, command_windows, binary, windows));
    proof {
        lemma_jviews_eq(handlers@, seq![canonical_handler(binary@, windows)]);
    }
    let mut fields: Vec<(String, JsonValue)> = Vec::new();
    fields.push((String::from_str("hooks"), JsonValue::Array(handlers)));
    proof {
        lemma_fviews_eq(fields@, new_group(binary@, windows)->Obj_0);
    }
    JsonValue::Object(fields)
}

/// The hooks object after updating one event.
fn update_event(
    hooks: Vec<(String, JsonValue)>,
    event: &str,
    binary: &str,
    command: &str,
    command_windows: &str,
    windows: bool,
    enabled: bool,
) -> (res: Option<(Vec<(String, JsonValue)>, bool)>)
    requires
        command@ == hook_command(binary@, windows),
        command_windows@ == hook_command_windows(binary@),
    ensures
        res is None <==> updated_event(fviews(hooks@), event@, binary@, windows, enabled) is None,
        res matches Some(r) ==> updated_event(fviews(hooks@), event@, binary@, windows, enabled)
            == Some((fviews(r.0@), r.1)),
{
    let mut hooks = hooks;
    let ghost before = hooks@;
    proof {
        lemma_index_view(before, event@);
        lemma_obj_index(before, event@);
    }
    match find_key(&hooks, event) {
        Some(i) => {
            let (key, value) = hooks.remove(i);
            match value {
                JsonValue::Array(groups) => {
                    let (mut kept, found, changed) = scan_groups_exec(
                        groups,
                        binary,
                        command,
                        command_windows,
                        windows,
                        enabled,
                    );
                    if enabled && !found {
                        let ghost old_kept = kept@;
                        let g = new_group_value(command, command_windows, binary, windows);
                        proof {
                            lemma_jviews_push(old_kept, g);
                        }
                        kept.push(g);
                        let ghost m = (key, JsonValue::Array(kept));
                        hooks.insert(i, (key, JsonValue::Array(kept)));
                        proof {
                            assert(hooks@ =~= before.update(i as int, m));
                            lemma_fviews_update(before, i as int, m);
                        }
                        Some((hooks, true))
                    } else if !enabled && kept.len() == 0 {
                        proof {
                            lemma_jviews(kept@);
                            lemma_fviews_remove(before, i as int);
                        }
                        Some((hooks, true))
                    } else {
                        let ghost m = (key, JsonValue::Array(kept));
                        proof {
                            lemma_jviews(kept@);
                        }
                        hooks.insert(i, (key, JsonValue::Array(kept)));
                        proof {
                            assert(hooks@ =~= before.update(i as int, m));
                            lemma_fviews_update(before, i as int, m);
                        }
                        Some((hooks, changed))
                    }
                },
                _ => None,
            }
        },
        None => {
            if enabled {
                let mut groups: Vec<JsonValue> = Vec::new();
                groups.push(new_group_value(command, command_windows, binary, windows));
                proof {
                    lemma_jviews_eq(groups@, seq![new_group(binary@, windows)]);
                }
                let m = (String::from_str(event), JsonValue::Array(groups));
                proof {
                    lemma_fviews_push(before, m);
                    lemma_sindex(fviews(before), event@);
                }
                hooks.push(m);
                Some((hooks, true))
            } else {
                proof {
                    lemma_sindex(fviews(before), event@);
                }
                Some((hooks, false))
            }
        },
    }
}

// ---------------------------------------------------------------------------
// Errors
// ---------------------------------------------------------------------------

/// Why a Codex file cannot be read or changed.
#[derive(Debug)]
pub enum InstallError {
    /// `hooks.json` is not UTF-8.
    HooksNotUtf8,
    /// `hooks.json` is not JSON.
    HooksInvalid,
    /// The top level of `hooks.json` is not an object.
    HooksNotObject,
    /// The `hooks` field of `hooks.json` is not an object.
    HooksFieldNotObject,
    /// The entry for this event in `hooks` is not an array.
    EventNotArray(String),
    /// `config.toml` is not UTF-8.
    ConfigNotUtf8,
    /// `config.toml` is not TOML.
    ConfigInvalid,
}

/// An [`InstallError`] in mathematical form.
pub enum Fault {
    HooksNotUtf8,
    HooksInvalid,
    HooksNotObject,
    HooksFieldNotObject,
    EventNotArray(Seq<char>),
    ConfigNotUtf8,
    ConfigInvalid,
}

impl View for InstallError {
    type V = Fault;

    open spec fn view(&self) -> Fault {
        match self {
            InstallError::HooksNotUtf8 => Fault::HooksNotUtf8,
            InstallError::HooksInvalid => Fault::HooksInvalid,
            InstallError::HooksNotObject => Fault::HooksNotObject,
            InstallError::HooksFieldNotObject => Fault::HooksFieldNotObject,
            InstallError::EventNotArray(e) => Fault::EventNotArray(e@),
            InstallError::ConfigNotUtf8 => Fault::ConfigNotUtf8,
            InstallError::ConfigInvalid => Fault::ConfigInvalid,
        }
    }
}

// ---------------------------------------------------------------------------
// The lifecycle hooks of a hooks document
// ---------------------------------------------------------------------------

/// The `Stop` event: the main agent's turn has ended.
pub open spec fn stop_event() -> Seq<char> {
    "Stop"@
}

/// The `SubagentStop` event: a subagent's turn has ended.
pub open spec fn subagent_stop_event() -> Seq<char> {
    "SubagentStop"@
}

/// The document with this tool's `Stop` hook, and its `SubagentStop` hook
/// exactly when `include_subagent`; whether anything changed. A missing
/// `hooks` object is created.
pub open spec fn lifecycle_set(
    root: Seq<(Seq<char>, SJson)>,
    binary: Seq<char>,
    windows: bool,
    include_subagent: bool,
) -> Result<(Seq<(Seq<char>, SJson)>, bool), Fault> {
    let hooks = match sget(root, "hooks"@) {
        None => Some(Seq::<(Seq<char>, SJson)>::empty()),
        Some(SJson::Obj(h)) => Some(h),
        Some(_) => None,
    };
    match hooks {
        None => Err(Fault::HooksFieldNotObject),
        Some(h) => match updated_event(h, stop_event(), binary, windows, true) {
            None => Err(Fault::EventNotArray(stop_event())),
            Some(r1) => match updated_event(
                r1.0,
                subagent_stop_event(),
                binary,
                windows,
                include_subagent,
            ) {
                None => Err(Fault::EventNotArray(subagent_stop_event())),
                Some(r2) => Ok((sset(root, "hooks"@, SJson::Obj(r2.0)), r1.1 || r2.1)),
            },
        },
    }
}

/// The document without this tool's lifecycle hooks; an emptied `hooks`
/// object goes too. Whether a hook went.
pub open spec fn lifecycle_removed(root: Seq<(Seq<char>, SJson)>, binary: Seq<char>, windows: bool) -> Result<
    (Seq<(Seq<char>, SJson)>, bool),
    Fault,
> {
    match sget(root, "hooks"@) {
        Some(SJson::Obj(h)) => match updated_event(h, stop_event(), binary, windows, false) {
            None => Err(Fault::EventNotArray(stop_event())),
            Some(r1) => match updated_event(r1.0, subagent_stop_event(), binary, windows, false) {
                None => Err(Fault::EventNotArray(subagent_stop_event())),
                Some(r2) => Ok(
                    (
                        if r2.0.len() == 0 {
                            sremove(root, "hooks"@)
                        } else {
                            sset(root, "hooks"@, SJson::Obj(r2.0))
                        },
                        r1.1 || r2.1,
                    ),
                ),
            },
        },
        _ => Ok((root, false)),
    }
}

/// The result of an edit of the top-level members, in mathematical form.
pub open spec fn edit_view(res: Result<(Vec<(String, JsonValue)>, bool), InstallError>) -> Result<
    (Seq<(Seq<char>, SJson)>, bool),
    Fault,
> {
    match res {
        Ok(r) => Ok((fviews(r.0@), r.1)),
        Err(e) => Err(e@),
    }
}

/// Sets this tool's lifecycle hooks in a hooks document's top-level members.
pub fn set_lifecycle_in_document(
    root: Vec<(String, JsonValue)>,
    binary: &str,
    windows: bool,
    include_subagent: bool,
) -> (res: Result<(Vec<(String, JsonValue)>, bool), InstallError>)
    ensures
        edit_view(res) == lifecycle_set(fviews(root@), binary@, windows, include_subagent),
{
    let command = hook_command_text(binary, windows);
    let command_windows = hook_command_windows_text(binary);
    let mut root = root;
    let ghost before = root@;
    proof {
        lemma_index_view(before, "hooks"@);
        lemma_obj_index(before, "hooks"@);
    }
    let idx = find_key(&root, "hooks");
    let mut hooks: Vec<(String, JsonValue)> = Vec::new();
    let mut key = String::from_str("hooks");
    match idx {
        Some(i) => {
            let (k, value) = root.remove(i);
            key = k;
            match value {
                JsonValue::Object(h) => {
                    hooks = h;
                },
                _ => {
                    return Err(InstallError::HooksFieldNotObject);
                },
            }
        },
        None => {
            proof {
                lemma_fviews(hooks@);
            }
        },
    }
    let first = update_event(hooks, "Stop", binary, command.as_str(), command_windows.as_str(), windows, true);
    let (h1, c1) = match first {
        Some(r) => r,
        None => {
            return Err(InstallError::EventNotArray(String::from_str("Stop")));
        },
    };
    let second = update_event(
        h1,
        "SubagentStop",
        binary,
        command.as_str(),
        command_windows.as_str(),
        windows,
        include_subagent,
    );
    let (h2, c2) = match second {
        Some(r) => r,
        None => {
            return Err(InstallError::EventNotArray(String::from_str("SubagentStop")));
        },
    };
    let ghost m = (key, JsonValue::Object(h2));
    match idx {
        Some(i) => {
            root.insert(i, (key, JsonValue::Object(h2)));
            proof {
                assert(root@ =~= before.update(i as int, m));
                lemma_fviews_update(before, i as int, m);
            }
        },
        None => {
            proof {
                lemma_fviews_push(before, m);
            }
            root.push((key, JsonValue::Object(h2)));
        },
    }
    Ok((root, c1 || c2))
}

/// Removes this tool's lifecycle hooks from a hooks document's top-level
/// members.
pub fn remove_lifecycle_in_document(root: Vec<(String, JsonValue)>, binary: &str, windows: bool) -> (res: Result<
    (Vec<(String, JsonValue)>, bool),
    InstallError,
>)
    ensures
        edit_view(res) == lifecycle_removed(fviews(root@), binary@, windows),
{
    let command = hook_command_text(binary, windows);
    let command_windows = hook_command_windows_text(binary);
    let mut root = root;
    let ghost before = root@;
    proof {
        lemma_index_view(before, "hooks"@);
        lemma_obj_index(before, "hooks"@);
    }
    let i = match find_key(&root, "hooks") {
        Some(i) => i,
        None => {
            return Ok((root, false));
        },
    };
    let is_object = match &root[i].1 {
        JsonValue::Object(_) => true,
        _ => false,
    };
    if !is_object {
        return Ok((root, false));
    }
    let (key, value) = root.remove(i);
    let hooks = match value {
        JsonValue::Object(h) => h,
        _ => Vec::new(),
    };
    let first = update_event(hooks, "Stop", binary, command.as_str(), command_windows.as_str(), windows, false);
    let (h1, c1) = match first {
        Some(r) => r,
        None => {
            return Err(InstallError::EventNotArray(String::from_str("Stop")));
        },
    };
    let second = update_event(h1, "SubagentStop", binary, command.as_str(), command_windows.as_str(), windows, false);
    let (h2, c2) = match second {
        Some(r) => r,
        None => {
            return Err(InstallError::EventNotArray(String::from_str("SubagentStop")));
        },
    };
    if h2.len() == 0 {
        proof {
            lemma_fviews(h2@);
            lemma_fviews_remove(before, i as int);
        }
    } else {
        let ghost m = (key, JsonValue::Object(h2));
        proof {
            lemma_fviews(h2@);
        }
        root.insert(i, (key, JsonValue::Object(h2)));
        proof {
            assert(root@ =~= before.update(i as int, m));
            lemma_fviews_update(before, i as int, m);
        }
    }
    Ok((root, c1 || c2))
}

// ---------------------------------------------------------------------------
// What a second run finds
// ---------------------------------------------------------------------------

/// The handlers a scan keeps are kept as they are by the same scan again,
/// which changes nothing; a scan that keeps nothing finds nothing.
proof fn lemma_scan_handlers_stable(hs: Seq<SJson>, binary: Seq<char>, windows: bool, enabled: bool, found: bool)
    ensures
        ({
            let r = scan_handlers(hs, binary, windows, enabled, found);
            &&& scan_handlers(r.0, binary, windows, enabled, found) == (r.0, r.1, false)
            &&& r.0.len() == 0 ==> r.1 == found
        }),
    decreases hs.len(),
{
    if hs.len() > 0 {
        let before = scan_handlers(hs.drop_last(), binary, windows, enabled, found);
        lemma_scan_handlers_stable(hs.drop_last(), binary, windows, enabled, found);
        let r = scan_handlers(hs, binary, windows, enabled, found);
        if r.0.len() > before.0.len() {
            assert(r.0.drop_last() == before.0);
        }
    }
}

/// `sset` at a key whose first member already holds that value changes nothing.
proof fn lemma_sset_same(fields: Seq<(Seq<char>, SJson)>, key: Seq<char>, v: SJson)
    requires
        sget(fields, key) == Some(v),
    ensures
        sset(fields, key, v) == fields,
{
    lemma_sindex(fields, key);
    let i = sindex(fields, key)->0;
    assert(sset(fields, key, v) =~= fields);
}

/// `sget` finds what `sset` stored.
proof fn lemma_sget_sset(fields: Seq<(Seq<char>, SJson)>, key: Seq<char>, v: SJson)
    ensures
        sget(sset(fields, key, v), key) == Some(v),
        sindex(sset(fields, key, v), key) is Some,
{
    lemma_sindex(fields, key);
    let t = sset(fields, key, v);
    match sindex(fields, key) {
        Some(i) => {
            lemma_sindex_first(t, key, i);
        },
        None => {
            lemma_sindex_first(t, key, fields.len() as int);
        },
    }
    lemma_sindex(t, key);
}

/// A group kept by a scan stays as it is under the same scan again.
proof fn lemma_scan_group_stable(g: SJson, binary: Seq<char>, windows: bool, enabled: bool, found: bool)
    ensures
        ({
            let r = scan_group(g, binary, windows, enabled, found);
            &&& r.0 matches Some(g2) ==> scan_group(g2, binary, windows, enabled, found) == (
                Some(g2),
                r.1,
                false,
            )
            &&& r.0 is None ==> r.1 == found
        }),
{
    match g {
        SJson::Obj(f) => match sget(f, "hooks"@) {
            Some(SJson::Arr(hs)) => {
                let r = scan_handlers(hs, binary, windows, enabled, found);
                lemma_scan_handlers_stable(hs, binary, windows, enabled, found);
                if r.0.len() > 0 {
                    let f2 = sset(f, "hooks"@, SJson::Arr(r.0));
                    lemma_sget_sset(f, "hooks"@, SJson::Arr(r.0));
                    lemma_sset_same(f2, "hooks"@, SJson::Arr(r.0));
                }
            },
            _ => {},
        },
        _ => {},
    }
}

/// The groups a scan keeps are kept as they are by the same scan again.
proof fn lemma_scan_groups_stable(gs: Seq<SJson>, binary: Seq<char>, windows: bool, enabled: bool, found: bool)
    ensures
        ({
            let r = scan_groups(gs, binary, windows, enabled, found);
            scan_groups(r.0, binary, windows, enabled, found) == (r.0, r.1, false)
        }),
    decreases gs.len(),
{
    if gs.len() > 0 {
        let before = scan_groups(gs.drop_last(), binary, windows, enabled, found);
        lemma_scan_groups_stable(gs.drop_last(), binary, windows, enabled, found);
        lemma_scan_group_stable(gs.last(), binary, windows, enabled, before.1);
        let rg = scan_group(gs.last(), binary, windows, enabled, before.1);
        match rg.0 {
            Some(g2) => {
                assert(before.0.push(g2).drop_last() == before.0);
            },
            None => {},
        }
    }
}

/// This tool's handler is one of ours.
proof fn lemma_canonical_is_ours(binary: Seq<char>, windows: bool)
    ensures
        is_ours(canonical_handler(binary, windows), binary, windows),
{
    let f = canonical_handler(binary, windows)->Obj_0;
    reveal_strlit("command");
    reveal_strlit("commandWindows");
    reveal_strlit("statusMessage");
    reveal_strlit("timeout");
    reveal_strlit("type");
    let last = f.len() - 1;
    if windows {
        assert(f.len() == 5);
        assert(f[1].0 == "commandWindows"@);
        assert(f[2].0 == "statusMessage"@);
        assert(f[3].0 == "timeout"@);
    } else {
        assert(f.len() == 4);
        assert(f[1].0 == "statusMessage"@);
        assert(f[2].0 == "timeout"@);
    }
    assert(f[0].0 == "command"@);
    assert(f[last].0 == "type"@);
    assert(f[last].1 == SJson::Str("command"@));
    lemma_sindex_first(f, "command"@, 0);
    lemma_sindex(f, "command"@);
    assert forall|j: int| 0 <= j < last implies f[j].0 != "type"@ by {
        assert(f[j].0.len() != "type"@.len());
    }
    lemma_sindex_first(f, "type"@, last);
    lemma_sindex(f, "type"@);
    assert(same_command(hook_command(binary, windows), hook_command(binary, windows), windows));
}

/// An event entry that one update produced is left as it is by the same
/// update again.
proof fn lemma_event_entry_stable(entry: Option<SJson>, binary: Seq<char>, windows: bool, enabled: bool)
    ensures
        event_entry(entry, binary, windows, enabled) matches Some(r) ==> event_entry(
            r.0,
            binary,
            windows,
            enabled,
        ) == Some((r.0, false)),
{
    let ng = new_group(binary, windows);
    lemma_canonical_is_ours(binary, windows);
    let hooks_of_ng = ng->Obj_0;
    assert(sget(hooks_of_ng, "hooks"@) == Some(SJson::Arr(seq![canonical_handler(binary, windows)])));
    let one = seq![canonical_handler(binary, windows)];
    assert(one.drop_last() == Seq::<SJson>::empty());
    assert(scan_handlers(Seq::empty(), binary, windows, true, false) == (Seq::<SJson>::empty(), false, false));
    assert(Seq::<SJson>::empty().push(canonical_handler(binary, windows)) == one);
    assert(scan_handlers(one, binary, windows, true, false) == (one, true, false));
    lemma_sset_same(hooks_of_ng, "hooks"@, SJson::Arr(one));
    assert(scan_group(ng, binary, windows, true, false) == (Some(ng), true, false));
    match entry {
        Some(SJson::Arr(gs)) => {
            let r = scan_groups(gs, binary, windows, enabled, false);
            lemma_scan_groups_stable(gs, binary, windows, enabled, false);
            if enabled && !r.1 {
                let gs2 = r.0.push(ng);
                assert(gs2.drop_last() == r.0);
                assert(scan_groups(gs2, binary, windows, enabled, false) == (gs2, true, false));
            }
        },
        Some(_) => {},
        None => {
            if enabled {
                let gs2 = seq![ng];
                assert(gs2.drop_last() == Seq::<SJson>::empty());
                assert(scan_groups(Seq::empty(), binary, windows, enabled, false) == (
                    Seq::<SJson>::empty(),
                    false,
                    false,
                ));
                assert(Seq::<SJson>::empty().push(ng) == gs2);
                assert(scan_groups(gs2, binary, windows, enabled, false) == (gs2, true, false));
            }
        },
    }
}

/// No key occurs twice among the members (as in every object serde_json parses).
pub open spec fn unique_keys(fields: Seq<(Seq<char>, SJson)>) -> bool {
    forall|i: int, j: int| 0 <= i < j < fields.len() ==> fields[i].0 != fields[j].0
}

/// `sget` finds what `put` stored.
proof fn lemma_sget_put_same(fields: Seq<(Seq<char>, SJson)>, key: Seq<char>, v: Option<SJson>)
    requires
        unique_keys(fields),
    ensures
        sget(put(fields, key, v), key) == v,
{
    match v {
        Some(x) => {
            lemma_sget_sset(fields, key, x);
        },
        None => {
            lemma_sindex(fields, key);
            let t = put(fields, key, v);
            match sindex(fields, key) {
                Some(i) => {
                    assert forall|j: int| 0 <= j < t.len() implies t[j].0 != key by {
                        if j < i {
                        } else {
                            assert(t[j] == fields[j + 1]);
                        }
                    }
                },
                None => {},
            }
            crate::json::lemma_sindex_none(t, key);
            lemma_sindex(t, key);
        },
    }
}

/// `put` at one key leaves what `sget` finds at another.
proof fn lemma_sget_put_other(fields: Seq<(Seq<char>, SJson)>, key: Seq<char>, other: Seq<char>, v: Option<SJson>)
    requires
        key != other,
    ensures
        sget(put(fields, key, v), other) == sget(fields, other),
{
    lemma_sindex(fields, key);
    lemma_sindex(fields, other);
    let t = put(fields, key, v);
    match sindex(fields, other) {
        Some(j) => {
            let j2 = match (v, sindex(fields, key)) {
                (None, Some(i)) => if i < j {
                    j - 1
                } else {
                    j
                },
                _ => j,
            };
            assert(t[j2] == fields[j]);
            assert forall|m: int| 0 <= m < j2 implies t[m].0 != other by {
                match (v, sindex(fields, key)) {
                    (None, Some(i)) => {
                        if m >= i {
                            assert(t[m] == fields[m + 1]);
                        }
                    },
                    _ => {},
                }
            }
            lemma_sindex_first(t, other, j2);
            lemma_sindex(t, other);
        },
        None => {
            assert forall|m: int| 0 <= m < t.len() implies t[m].0 != other by {
                match (v, sindex(fields, key)) {
                    (None, Some(i)) => {
                        if m >= i {
                            assert(t[m] == fields[m + 1]);
                        }
                    },
                    _ => {},
                }
            }
            crate::json::lemma_sindex_none(t, other);
            lemma_sindex(t, other);
        },
    }
}

/// `put` of what is already there changes nothing.
proof fn lemma_put_same(fields: Seq<(Seq<char>, SJson)>, key: Seq<char>, v: Option<SJson>)
    requires
        sget(fields, key) == v,
    ensures
        put(fields, key, v) == fields,
{
    lemma_sindex(fields, key);
    match v {
        Some(x) => {
            lemma_sset_same(fields, key, x);
        },
        None => {},
    }
}

/// `put` keeps keys unique.
proof fn lemma_put_unique(fields: Seq<(Seq<char>, SJson)>, key: Seq<char>, v: Option<SJson>)
    requires
        unique_keys(fields),
    ensures
        unique_keys(put(fields, key, v)),
{
    lemma_sindex(fields, key);
    let t = put(fields, key, v);
    match (v, sindex(fields, key)) {
        (None, Some(i)) => {
            assert forall|a: int, b: int| 0 <= a < b < t.len() implies t[a].0 != t[b].0 by {
                let a2 = if a < i {
                    a
                } else {
                    a + 1
                };
                let b2 = if b < i {
                    b
                } else {
                    b + 1
                };
                assert(t[a] == fields[a2]);
                assert(t[b] == fields[b2]);
            }
        },
        _ => {},
    }
}

/// An event that one update produced is left as it is by the same update again.
proof fn lemma_updated_event_stable(
    hooks: Seq<(Seq<char>, SJson)>,
    event: Seq<char>,
    binary: Seq<char>,
    windows: bool,
    enabled: bool,
)
    requires
        unique_keys(hooks),
    ensures
        updated_event(hooks, event, binary, windows, enabled) matches Some(r) ==> updated_event(
            r.0,
            event,
            binary,
            windows,
            enabled,
        ) == Some((r.0, false)) && unique_keys(r.0),
{
    let e = event_entry(sget(hooks, event), binary, windows, enabled);
    lemma_event_entry_stable(sget(hooks, event), binary, windows, enabled);
    match e {
        Some(r) => {
            let h1 = put(hooks, event, r.0);
            lemma_sget_put_same(hooks, event, r.0);
            lemma_put_same(h1, event, r.0);
            lemma_put_unique(hooks, event, r.0);
        },
        None => {},
    }
}

/// The hooks object of a document (empty when there is none).
pub open spec fn hooks_of(root: Seq<(Seq<char>, SJson)>) -> Seq<(Seq<char>, SJson)> {
    match sget(root, "hooks"@) {
        Some(SJson::Obj(h)) => h,
        _ => Seq::empty(),
    }
}

/// A hooks document as serde_json parses it: no key twice at the top level
/// or in the `hooks` object.
pub open spec fn well_keyed(root: Seq<(Seq<char>, SJson)>) -> bool {
    &&& unique_keys(root)
    &&& unique_keys(hooks_of(root))
}

/// Installing the lifecycle hooks twice is installing them once: the second
/// run finds the document as the first left it and changes nothing.
pub proof fn lemma_set_lifecycle_idempotent(
    root: Seq<(Seq<char>, SJson)>,
    binary: Seq<char>,
    windows: bool,
    include_subagent: bool,
)
    requires
        well_keyed(root),
    ensures
        lifecycle_set(root, binary, windows, include_subagent) matches Ok(r) ==> lifecycle_set(
            r.0,
            binary,
            windows,
            include_subagent,
        ) == Ok::<_, Fault>((r.0, false)) && well_keyed(r.0),
{
    reveal_strlit("Stop");
    reveal_strlit("SubagentStop");
    assert(stop_event() != subagent_stop_event()) by {
        assert(stop_event().len() != subagent_stop_event().len());
    }
    match lifecycle_set(root, binary, windows, include_subagent) {
        Ok(r) => {
            let h = hooks_of(root);
            lemma_updated_event_stable(h, stop_event(), binary, windows, true);
            let r1 = updated_event(h, stop_event(), binary, windows, true)->0;
            let x1 = event_entry(sget(h, stop_event()), binary, windows, true)->0;
            let e1 = x1.0;
            lemma_updated_event_stable(r1.0, subagent_stop_event(), binary, windows, include_subagent);
            let r2 = updated_event(r1.0, subagent_stop_event(), binary, windows, include_subagent)->0;
            let x2 = event_entry(sget(r1.0, subagent_stop_event()), binary, windows, include_subagent)->0;
            let e2 = x2.0;
            let h2 = r2.0;
            lemma_sget_put_same(h, stop_event(), e1);
            lemma_sget_put_other(r1.0, subagent_stop_event(), stop_event(), e2);
            lemma_sget_put_same(r1.0, subagent_stop_event(), e2);
            lemma_event_entry_stable(sget(h, stop_event()), binary, windows, true);
            lemma_put_same(h2, stop_event(), e1);
            lemma_put_same(h2, subagent_stop_event(), e2);
            lemma_sget_sset(root, "hooks"@, SJson::Obj(h2));
            lemma_sset_same(r.0, "hooks"@, SJson::Obj(h2));
            lemma_put_unique(root, "hooks"@, Some(SJson::Obj(h2)));
        },
        Err(_) => {},
    }
}

/// Removing the lifecycle hooks twice is removing them once: the second run
/// finds nothing to remove.
pub proof fn lemma_remove_lifecycle_idempotent(root: Seq<(Seq<char>, SJson)>, binary: Seq<char>, windows: bool)
    requires
        well_keyed(root),
    ensures
        lifecycle_removed(root, binary, windows) matches Ok(r) ==> lifecycle_removed(
            r.0,
            binary,
            windows,
        ) == Ok::<_, Fault>((r.0, false)) && well_keyed(r.0),
{
    reveal_strlit("Stop");
    reveal_strlit("SubagentStop");
    assert(stop_event() != subagent_stop_event()) by {
        assert(stop_event().len() != subagent_stop_event().len());
    }
    match sget(root, "hooks"@) {
        Some(SJson::Obj(h)) => {
            match lifecycle_removed(root, binary, windows) {
                Ok(r) => {
                    lemma_updated_event_stable(h, stop_event(), binary, windows, false);
                    let r1 = updated_event(h, stop_event(), binary, windows, false)->0;
                    let x1 = event_entry(sget(h, stop_event()), binary, windows, false)->0;
                    let e1 = x1.0;
                    lemma_updated_event_stable(r1.0, subagent_stop_event(), binary, windows, false);
                    let r2 = updated_event(r1.0, subagent_stop_event(), binary, windows, false)->0;
                    let x2 = event_entry(sget(r1.0, subagent_stop_event()), binary, windows, false)->0;
                    let e2 = x2.0;
                    let h2 = r2.0;
                    if h2.len() == 0 {
                        lemma_sget_put_same(root, "hooks"@, None);
                        lemma_put_unique(root, "hooks"@, None);
                        assert(hooks_of(r.0) == Seq::<(Seq<char>, SJson)>::empty());
                    } else {
                        lemma_sget_put_same(h, stop_event(), e1);
                        lemma_sget_put_other(r1.0, subagent_stop_event(), stop_event(), e2);
                        lemma_sget_put_same(r1.0, subagent_stop_event(), e2);
                        lemma_event_entry_stable(sget(h, stop_event()), binary, windows, false);
                        lemma_put_same(h2, stop_event(), e1);
                        lemma_put_same(h2, subagent_stop_event(), e2);
                        lemma_sget_sset(root, "hooks"@, SJson::Obj(h2));
                        lemma_sset_same(r.0, "hooks"@, SJson::Obj(h2));
                        lemma_put_unique(root, "hooks"@, Some(SJson::Obj(h2)));
                    }
                },
                Err(_) => {},
            }
        },
        _ => {},
    }
}

// ---------------------------------------------------------------------------
// Whether a hook is configured
// ---------------------------------------------------------------------------

/// A group that is an object whose `hooks` array holds a handler of ours.
pub open spec fn group_runs_ours(g: SJson, binary: Seq<char>, windows: bool) -> bool {
    match g {
        SJson::Obj(f) => match sget(f, "hooks"@) {
            Some(SJson::Arr(hs)) => exists|j: int| 0 <= j < hs.len() && #[trigger] is_ours(hs[j], binary, windows),
            _ => false,
        },
        _ => false,
    }
}

/// The document's `hooks` object has, under `event`, an array with a group
/// that runs this tool.
pub open spec fn configured_event(root: Seq<(Seq<char>, SJson)>, event: Seq<char>, binary: Seq<char>, windows: bool) -> bool {
    match sget(root, "hooks"@) {
        Some(SJson::Obj(h)) => match sget(h, event) {
            Some(SJson::Arr(gs)) => exists|i: int|
                0 <= i < gs.len() && #[trigger] group_runs_ours(gs[i], binary, windows),
            _ => false,
        },
        _ => false,
    }
}

/// Whether a group runs this tool.
#[verifier::loop_isolation(false)]
fn group_runs_ours_exec(g: &JsonValue, binary: &str, command: &str, command_windows: &str, windows: bool) -> (res: bool)
    requires
        command@ == hook_command(binary@, windows),
        command_windows@ == hook_command_windows(binary@),
    ensures
        res == group_runs_ours(jview(*g), binary@, windows),
{
    match g {
        JsonValue::Object(fields) => {
            proof {
                lemma_index_view(fields@, "hooks"@);
            }
            match get(fields, "hooks") {
                Some(v) => match v {
                    JsonValue::Array(hs) => {
                        proof {
                            lemma_jviews(hs@);
                        }
                        let mut j: usize = 0;
                        while j < hs.len()
                            invariant
                                j <= hs@.len(),
                                command@ == hook_command(binary@, windows),
                                command_windows@ == hook_command_windows(binary@),
                                forall|m: int| 0 <= m < j ==> !is_ours(jview(hs@[m]), binary@, windows),
                            decreases hs@.len() - j,
                        {
                            if is_our_handler(&hs[j], binary, command, command_windows, windows) {
                                proof {
                                    lemma_jviews(hs@);
                                }
                                assert(is_ours(jviews(hs@)[j as int], binary@, windows));
                                return true;
                            }
                            j = j + 1;
                        }
                        proof {
                            lemma_jviews(hs@);
                        }
                        assert forall|m: int| 0 <= m < jviews(hs@).len() implies !is_ours(
                            #[trigger] jviews(hs@)[m],
                            binary@,
                            windows,
                        ) by {}
                        false
                    },
                    _ => false,
                },
                None => false,
            }
        },
        _ => false,
    }
}

/// Whether a hooks document's top-level members run this tool for `event`.
#[verifier::loop_isolation(false)]
pub fn configured_event_exec(root: &Vec<(String, JsonValue)>, event: &str, binary: &str, windows: bool) -> (res: bool)
    ensures
        res == configured_event(fviews(root@), event@, binary@, windows),
{
    let command = hook_command_text(binary, windows);
    let command_windows = hook_command_windows_text(binary);
    proof {
        lemma_index_view(root@, "hooks"@);
    }
    let hooks = match get(root, "hooks") {
        Some(v) => match v {
            JsonValue::Object(h) => h,
            _ => {
                return false;
            },
        },
        None => {
            return false;
        },
    };
    proof {
        lemma_index_view(hooks@, event@);
    }
    let groups = match get(hooks, event) {
        Some(v) => match v {
            JsonValue::Array(gs) => gs,
            _ => {
                return false;
            },
        },
        None => {
            return false;
        },
    };
    proof {
        lemma_jviews(groups@);
    }
    let mut i: usize = 0;
    while i < groups.len()
        invariant
            i <= groups@.len(),
            command@ == hook_command(binary@, windows),
            command_windows@ == hook_command_windows(binary@),
            forall|m: int| 0 <= m < i ==> !group_runs_ours(jview(groups@[m]), binary@, windows),
        decreases groups@.len() - i,
    {
        if group_runs_ours_exec(&groups[i], binary, command.as_str(), command_windows.as_str(), windows) {
            proof {
                lemma_jviews(groups@);
            }
            assert(group_runs_ours(jviews(groups@)[i as int], binary@, windows));
            return true;
        }
        i = i + 1;
    }
    proof {
        lemma_jviews(groups@);
    }
    assert forall|m: int| 0 <= m < jviews(groups@).len() implies !group_runs_ours(
        #[trigger] jviews(groups@)[m],
        binary@,
        windows,
    ) by {}
    false
}

/// A scan that keeps the canonical handler keeps a handler of ours; a scan
/// that is not `enabled` keeps none of ours.
proof fn lemma_scan_handlers_ours(hs: Seq<SJson>, binary: Seq<char>, windows: bool, enabled: bool, found: bool)
    ensures
        ({
            let r = scan_handlers(hs, binary, windows, enabled, found);
            &&& r.1 && !found ==> exists|j: int| 0 <= j < r.0.len() && #[trigger] is_ours(r.0[j], binary, windows)
            &&& !enabled ==> forall|j: int| 0 <= j < r.0.len() ==> !#[trigger] is_ours(r.0[j], binary, windows)
            &&& r.1 != found ==> r.0.len() > 0
        }),
    decreases hs.len(),
{
    if hs.len() > 0 {
        let before = scan_handlers(hs.drop_last(), binary, windows, enabled, found);
        lemma_scan_handlers_ours(hs.drop_last(), binary, windows, enabled, found);
        let r = scan_handlers(hs, binary, windows, enabled, found);
        lemma_canonical_is_ours(binary, windows);
        if r.0.len() > before.0.len() {
            assert(r.0 == before.0.push(hs.last()));
            assert forall|j: int| 0 <= j < before.0.len() implies r.0[j] == before.0[j] by {}
            if r.1 && !found {
                if before.1 {
                    let j = choose|j: int| 0 <= j < before.0.len() && #[trigger] is_ours(before.0[j], binary, windows);
                    assert(is_ours(r.0[j], binary, windows));
                } else {
                    assert(is_ours(r.0[r.0.len() - 1], binary, windows));
                }
            }
        }
    }
}

/// A scan of groups that keeps the canonical handler keeps a group that runs
/// this tool; a scan that is not `enabled` keeps no such group.
proof fn lemma_scan_groups_ours(gs: Seq<SJson>, binary: Seq<char>, windows: bool, enabled: bool, found: bool)
    ensures
        ({
            let r = scan_groups(gs, binary, windows, enabled, found);
            &&& r.1 && !found ==> exists|i: int| 0 <= i < r.0.len() && #[trigger] group_runs_ours(r.0[i], binary, windows)
            &&& !enabled ==> forall|i: int| 0 <= i < r.0.len() ==> !#[trigger] group_runs_ours(r.0[i], binary, windows)
        }),
    decreases gs.len(),
{
    if gs.len() > 0 {
        let before = scan_groups(gs.drop_last(), binary, windows, enabled, found);
        lemma_scan_groups_ours(gs.drop_last(), binary, windows, enabled, found);
        let g = gs.last();
        let rg = scan_group(g, binary, windows, enabled, before.1);
        let r = scan_groups(gs, binary, windows, enabled, found);
        match g {
            SJson::Obj(f) => match sget(f, "hooks"@) {
                Some(SJson::Arr(hs)) => {
                    lemma_scan_handlers_ours(hs, binary, windows, enabled, before.1);
                    let k = scan_handlers(hs, binary, windows, enabled, before.1).0;
                    if k.len() > 0 {
                        lemma_sget_sset(f, "hooks"@, SJson::Arr(k));
                    }
                },
                _ => {},
            },
            _ => {},
        }
        match rg.0 {
            Some(g2) => {
                assert(r.0 == before.0.push(g2));
                assert forall|i: int| 0 <= i < before.0.len() implies r.0[i] == before.0[i] by {}
                if r.1 && !found {
                    if before.1 {
                        let i = choose|i: int|
                            0 <= i < before.0.len() && #[trigger] group_runs_ours(before.0[i], binary, windows);
                        assert(group_runs_ours(r.0[i], binary, windows));
                    } else {
                        assert(group_runs_ours(r.0[r.0.len() - 1], binary, windows));
                    }
                }
                if !enabled {
                    assert(!group_runs_ours(r.0[r.0.len() - 1], binary, windows));
                }
            },
            None => {},
        }
    }
}

/// An event entry that is an array with a group that runs this tool.
pub open spec fn entry_runs_ours(entry: Option<SJson>, binary: Seq<char>, windows: bool) -> bool {
    match entry {
        Some(SJson::Arr(gs)) => exists|i: int|
            0 <= i < gs.len() && #[trigger] group_runs_ours(gs[i], binary, windows),
        _ => false,
    }
}

proof fn lemma_entry_runs_ours_intro(gs: Seq<SJson>, i: int, binary: Seq<char>, windows: bool)
    requires
        0 <= i < gs.len(),
        group_runs_ours(gs[i], binary, windows),
    ensures
        entry_runs_ours(Some(SJson::Arr(gs)), binary, windows),
{
    let e = Some(SJson::Arr(gs));
    let g3 = e->Some_0->Arr_0;
    assert(g3 == gs);
    assert(group_runs_ours(g3[i], binary, windows));
}

/// What an event entry holds after an update: an `enabled` update leaves a
/// group that runs this tool; any other leaves none.
proof fn lemma_event_entry_configured(entry: Option<SJson>, binary: Seq<char>, windows: bool, enabled: bool)
    ensures
        event_entry(entry, binary, windows, enabled) matches Some(r) ==> entry_runs_ours(
            r.0,
            binary,
            windows,
        ) == enabled,
{
    let ng = new_group(binary, windows);
    lemma_canonical_is_ours(binary, windows);
    let f = ng->Obj_0;
    let hs = seq![canonical_handler(binary, windows)];
    assert(f[0].0 == "hooks"@);
    assert(sget(f, "hooks"@) == Some(SJson::Arr(hs)));
    let hs2 = sget(f, "hooks"@)->Some_0->Arr_0;
    assert(hs2 == hs);
    assert(is_ours(hs2[0], binary, windows));
    assert(group_runs_ours(ng, binary, windows));
    match entry {
        Some(SJson::Arr(gs)) => {
            lemma_scan_groups_ours(gs, binary, windows, enabled, false);
            let r = scan_groups(gs, binary, windows, enabled, false);
            if enabled && !r.1 {
                let gs2 = r.0.push(ng);
                assert(gs2[gs2.len() - 1] == ng);
                lemma_entry_runs_ours_intro(gs2, gs2.len() - 1, binary, windows);
            } else if !enabled && r.0.len() == 0 {
            } else if enabled {
                let i = choose|i: int| 0 <= i < r.0.len() && #[trigger] group_runs_ours(r.0[i], binary, windows);
                lemma_entry_runs_ours_intro(r.0, i, binary, windows);
            } else {
                assert(!entry_runs_ours(Some(SJson::Arr(r.0)), binary, windows));
            }
        },
        Some(_) => {},
        None => {
            if enabled {
                let gs2 = seq![ng];
                lemma_entry_runs_ours_intro(gs2, 0, binary, windows);
            }
        },
    }
}

/// After installing, the `Stop` hook is configured, and the `SubagentStop`
/// hook exactly when subagent notifications are included.
pub proof fn lemma_set_lifecycle_configures(
    root: Seq<(Seq<char>, SJson)>,
    binary: Seq<char>,
    windows: bool,
    include_subagent: bool,
)
    requires
        well_keyed(root),
    ensures
        lifecycle_set(root, binary, windows, include_subagent) matches Ok(r) ==> configured_event(
            r.0,
            stop_event(),
            binary,
            windows,
        ) && configured_event(r.0, subagent_stop_event(), binary, windows) == include_subagent,
{
    reveal_strlit("Stop");
    reveal_strlit("SubagentStop");
    assert(stop_event() != subagent_stop_event()) by {
        assert(stop_event().len() != subagent_stop_event().len());
    }
    match lifecycle_set(root, binary, windows, include_subagent) {
        Ok(r) => {
            let h = hooks_of(root);
            let r1 = updated_event(h, stop_event(), binary, windows, true)->0;
            let x1 = event_entry(sget(h, stop_event()), binary, windows, true)->0;
            let x2 = event_entry(sget(r1.0, subagent_stop_event()), binary, windows, include_subagent)->0;
            let h2 = put(r1.0, subagent_stop_event(), x2.0);
            lemma_put_unique(h, stop_event(), x1.0);
            lemma_sget_put_same(h, stop_event(), x1.0);
            lemma_sget_put_other(r1.0, subagent_stop_event(), stop_event(), x2.0);
            lemma_sget_put_same(r1.0, subagent_stop_event(), x2.0);
            lemma_event_entry_configured(sget(h, stop_event()), binary, windows, true);
            lemma_event_entry_configured(sget(r1.0, subagent_stop_event()), binary, windows, include_subagent);
            lemma_sget_sset(root, "hooks"@, SJson::Obj(h2));
        },
        Err(_) => {},
    }
}

/// After removing, neither lifecycle hook is configured.
pub proof fn lemma_remove_lifecycle_clears(root: Seq<(Seq<char>, SJson)>, binary: Seq<char>, windows: bool)
    requires
        well_keyed(root),
    ensures
        lifecycle_removed(root, binary, windows) matches Ok(r) ==> !configured_event(
            r.0,
            stop_event(),
            binary,
            windows,
        ) && !configured_event(r.0, subagent_stop_event(), binary, windows),
{
    reveal_strlit("Stop");
    reveal_strlit("SubagentStop");
    assert(stop_event() != subagent_stop_event()) by {
        assert(stop_event().len() != subagent_stop_event().len());
    }
    match sget(root, "hooks"@) {
        Some(SJson::Obj(h)) => match lifecycle_removed(root, binary, windows) {
            Ok(r) => {
                let r1 = updated_event(h, stop_event(), binary, windows, false)->0;
                let x1 = event_entry(sget(h, stop_event()), binary, windows, false)->0;
                let x2 = event_entry(sget(r1.0, subagent_stop_event()), binary, windows, false)->0;
                let h2 = put(r1.0, subagent_stop_event(), x2.0);
                lemma_put_unique(h, stop_event(), x1.0);
                lemma_sget_put_same(h, stop_event(), x1.0);
                lemma_sget_put_other(r1.0, subagent_stop_event(), stop_event(), x2.0);
                lemma_sget_put_same(r1.0, subagent_stop_event(), x2.0);
                lemma_event_entry_configured(sget(h, stop_event()), binary, windows, false);
                lemma_event_entry_configured(sget(r1.0, subagent_stop_event()), binary, windows, false);
                if h2.len() == 0 {
                    lemma_sget_put_same(root, "hooks"@, None);
                } else {
                    lemma_sget_sset(root, "hooks"@, SJson::Obj(h2));
                }
            },
            Err(_) => {},
        },
        _ => {},
    }
}

// ---------------------------------------------------------------------------
// What installing and removing keep
// ---------------------------------------------------------------------------

/// The handlers that are not ours, in order.
pub open spec fn others(hs: Seq<SJson>, binary: Seq<char>, windows: bool) -> Seq<SJson>
    decreases hs.len(),
{
    if hs.len() == 0 {
        Seq::empty()
    } else if is_ours(hs.last(), binary, windows) {
        others(hs.drop_last(), binary, windows)
    } else {
        others(hs.drop_last(), binary, windows).push(hs.last())
    }
}

/// The handlers of a group: its `hooks` array, when it is an object with one.
pub open spec fn group_handlers(g: SJson) -> Seq<SJson> {
    match g {
        SJson::Obj(f) => match sget(f, "hooks"@) {
            Some(SJson::Arr(hs)) => hs,
            _ => Seq::empty(),
        },
        _ => Seq::empty(),
    }
}

/// The handlers that are not ours, over all groups, in order.
pub open spec fn others_in_groups(gs: Seq<SJson>, binary: Seq<char>, windows: bool) -> Seq<SJson>
    decreases gs.len(),
{
    if gs.len() == 0 {
        Seq::empty()
    } else {
        others_in_groups(gs.drop_last(), binary, windows) + others(group_handlers(gs.last()), binary, windows)
    }
}

/// The handlers that are not ours in an event entry.
pub open spec fn entry_others(entry: Option<SJson>, binary: Seq<char>, windows: bool) -> Seq<SJson> {
    match entry {
        Some(SJson::Arr(gs)) => others_in_groups(gs, binary, windows),
        _ => Seq::empty(),
    }
}

proof fn lemma_scan_handlers_others(hs: Seq<SJson>, binary: Seq<char>, windows: bool, enabled: bool, found: bool)
    ensures
        others(scan_handlers(hs, binary, windows, enabled, found).0, binary, windows) == others(hs, binary, windows),
    decreases hs.len(),
{
    if hs.len() > 0 {
        let before = scan_handlers(hs.drop_last(), binary, windows, enabled, found);
        lemma_scan_handlers_others(hs.drop_last(), binary, windows, enabled, found);
        let r = scan_handlers(hs, binary, windows, enabled, found);
        if r.0.len() > before.0.len() {
            assert(r.0.drop_last() == before.0);
        }
    }
}

proof fn lemma_scan_groups_others(gs: Seq<SJson>, binary: Seq<char>, windows: bool, enabled: bool, found: bool)
    ensures
        others_in_groups(scan_groups(gs, binary, windows, enabled, found).0, binary, windows)
            == others_in_groups(gs, binary, windows),
    decreases gs.len(),
{
    if gs.len() > 0 {
        let before = scan_groups(gs.drop_last(), binary, windows, enabled, found);
        lemma_scan_groups_others(gs.drop_last(), binary, windows, enabled, found);
        let g = gs.last();
        let rg = scan_group(g, binary, windows, enabled, before.1);
        match g {
            SJson::Obj(f) => match sget(f, "hooks"@) {
                Some(SJson::Arr(hs)) => {
                    lemma_scan_handlers_others(hs, binary, windows, enabled, before.1);
                    let k = scan_handlers(hs, binary, windows, enabled, before.1).0;
                    if k.len() > 0 {
                        lemma_sget_sset(f, "hooks"@, SJson::Arr(k));
                    } else {
                        assert(others(k, binary, windows) == Seq::<SJson>::empty());
                    }
                },
                _ => {},
            },
            _ => {},
        }
        match rg.0 {
            Some(g2) => {
                assert(before.0.push(g2).drop_last() == before.0);
            },
            None => {
                assert(others_in_groups(gs, binary, windows) == others_in_groups(gs.drop_last(), binary, windows)
                    + Seq::<SJson>::empty());
                assert(others_in_groups(gs.drop_last(), binary, windows) + Seq::<SJson>::empty()
                    == others_in_groups(gs.drop_last(), binary, windows));
            },
        }
    }
}

proof fn lemma_event_entry_others(entry: Option<SJson>, binary: Seq<char>, windows: bool, enabled: bool)
    ensures
        event_entry(entry, binary, windows, enabled) matches Some(r) ==> entry_others(r.0, binary, windows)
            == entry_others(entry, binary, windows),
{
    let ng = new_group(binary, windows);
    lemma_canonical_is_ours(binary, windows);
    let f = ng->Obj_0;
    let hs = seq![canonical_handler(binary, windows)];
    assert(f[0].0 == "hooks"@);
    assert(sget(f, "hooks"@) == Some(SJson::Arr(hs)));
    assert(hs.drop_last() == Seq::<SJson>::empty());
    assert(hs.last() == canonical_handler(binary, windows));
    assert(others(Seq::<SJson>::empty(), binary, windows) == Seq::<SJson>::empty());
    assert(others(hs, binary, windows) == Seq::<SJson>::empty());
    assert(group_handlers(ng) == hs);
    match entry {
        Some(SJson::Arr(gs)) => {
            lemma_scan_groups_others(gs, binary, windows, enabled, false);
            let r = scan_groups(gs, binary, windows, enabled, false);
            if enabled && !r.1 {
                let gs2 = r.0.push(ng);
                assert(gs2.drop_last() == r.0);
                assert(others_in_groups(gs2, binary, windows) == others_in_groups(r.0, binary, windows)
                    + Seq::<SJson>::empty());
                assert(others_in_groups(r.0, binary, windows) + Seq::<SJson>::empty() == others_in_groups(
                    r.0,
                    binary,
                    windows,
                ));
            } else if !enabled && r.0.len() == 0 {
                assert(others_in_groups(r.0, binary, windows) == Seq::<SJson>::empty());
            }
        },
        Some(_) => {},
        None => {
            let gs2 = seq![ng];
            assert(gs2.drop_last() == Seq::<SJson>::empty());
            assert(gs2.last() == ng);
            assert(others_in_groups(Seq::<SJson>::empty(), binary, windows) == Seq::<SJson>::empty());
            assert(others_in_groups(gs2, binary, windows) == Seq::<SJson>::empty() + Seq::<SJson>::empty());
            assert(Seq::<SJson>::empty() + Seq::<SJson>::empty() == Seq::<SJson>::empty());
        },
    }
}

/// The hooks object `b` keeps what `a` has besides this tool's handlers.
pub open spec fn hooks_keep_others(a: Seq<(Seq<char>, SJson)>, b: Seq<(Seq<char>, SJson)>, binary: Seq<char>, windows: bool) -> bool {
    &&& forall|e: Seq<char>|
        e != stop_event() && e != subagent_stop_event() ==> #[trigger] sget(b, e) == sget(a, e)
    &&& entry_others(sget(b, stop_event()), binary, windows) == entry_others(
        sget(a, stop_event()),
        binary,
        windows,
    )
    &&& entry_others(sget(b, subagent_stop_event()), binary, windows) == entry_others(
        sget(a, subagent_stop_event()),
        binary,
        windows,
    )
}

proof fn lemma_two_updates_keep(h: Seq<(Seq<char>, SJson)>, binary: Seq<char>, windows: bool, en1: bool, en2: bool)
    requires
        unique_keys(h),
    ensures
        updated_event(h, stop_event(), binary, windows, en1) matches Some(r1) ==> (updated_event(
            r1.0,
            subagent_stop_event(),
            binary,
            windows,
            en2,
        ) matches Some(r2) ==> hooks_keep_others(h, r2.0, binary, windows)),
{
    reveal_strlit("Stop");
    reveal_strlit("SubagentStop");
    assert(stop_event() != subagent_stop_event()) by {
        assert(stop_event().len() != subagent_stop_event().len());
    }
    match updated_event(h, stop_event(), binary, windows, en1) {
        Some(r1) => match updated_event(r1.0, subagent_stop_event(), binary, windows, en2) {
            Some(r2) => {
                let x1 = event_entry(sget(h, stop_event()), binary, windows, en1)->0;
                let x2 = event_entry(sget(r1.0, subagent_stop_event()), binary, windows, en2)->0;
                let h2 = r2.0;
                lemma_put_unique(h, stop_event(), x1.0);
                lemma_sget_put_same(h, stop_event(), x1.0);
                lemma_sget_put_other(r1.0, subagent_stop_event(), stop_event(), x2.0);
                lemma_sget_put_same(r1.0, subagent_stop_event(), x2.0);
                lemma_sget_put_other(h, stop_event(), subagent_stop_event(), x1.0);
                lemma_event_entry_others(sget(h, stop_event()), binary, windows, en1);
                lemma_event_entry_others(sget(r1.0, subagent_stop_event()), binary, windows, en2);
                assert forall|e: Seq<char>|
                    e != stop_event() && e != subagent_stop_event() implies #[trigger] sget(h2, e) == sget(
                    h,
                    e,
                ) by {
                    lemma_sget_put_other(h, stop_event(), e, x1.0);
                    lemma_sget_put_other(r1.0, subagent_stop_event(), e, x2.0);
                }
            },
            None => {},
        },
        None => {},
    }
}

/// `b` keeps what `a` has besides this tool's handlers: every top-level
/// member but `hooks`, every event but `Stop` and `SubagentStop`, and under
/// those two every handler that is not ours, in order.
pub open spec fn keeps_others(a: Seq<(Seq<char>, SJson)>, b: Seq<(Seq<char>, SJson)>, binary: Seq<char>, windows: bool) -> bool {
    &&& forall|k: Seq<char>| k != "hooks"@ ==> #[trigger] sget(b, k) == sget(a, k)
    &&& forall|e: Seq<char>|
        e != stop_event() && e != subagent_stop_event() ==> #[trigger] sget(hooks_of(b), e) == sget(
            hooks_of(a),
            e,
        )
    &&& entry_others(sget(hooks_of(b), stop_event()), binary, windows) == entry_others(
        sget(hooks_of(a), stop_event()),
        binary,
        windows,
    )
    &&& entry_others(sget(hooks_of(b), subagent_stop_event()), binary, windows) == entry_others(
        sget(hooks_of(a), subagent_stop_event()),
        binary,
        windows,
    )
}

/// Installing and removing the lifecycle hooks touch nothing but this
/// tool's own handlers (and the groups, events and `hooks` object that they
/// leave empty).
pub proof fn lemma_lifecycle_keeps_others(
    root: Seq<(Seq<char>, SJson)>,
    binary: Seq<char>,
    windows: bool,
    include_subagent: bool,
)
    requires
        well_keyed(root),
    ensures
        lifecycle_set(root, binary, windows, include_subagent) matches Ok(r) ==> keeps_others(
            root,
            r.0,
            binary,
            windows,
        ),
        lifecycle_removed(root, binary, windows) matches Ok(r) ==> keeps_others(root, r.0, binary, windows),
{
    reveal_strlit("Stop");
    reveal_strlit("SubagentStop");
    assert(stop_event() != subagent_stop_event()) by {
        assert(stop_event().len() != subagent_stop_event().len());
    }
    let h = hooks_of(root);
    lemma_two_updates_keep(h, binary, windows, true, include_subagent);
    lemma_two_updates_keep(h, binary, windows, false, false);
    match lifecycle_set(root, binary, windows, include_subagent) {
        Ok(r) => {
            let r1 = updated_event(h, stop_event(), binary, windows, true)->0;
            let r2 = updated_event(r1.0, subagent_stop_event(), binary, windows, include_subagent)->0;
            lemma_sget_sset(root, "hooks"@, SJson::Obj(r2.0));
            assert forall|k: Seq<char>| k != "hooks"@ implies #[trigger] sget(r.0, k) == sget(root, k) by {
                lemma_sget_put_other(root, "hooks"@, k, Some(SJson::Obj(r2.0)));
            }
        },
        Err(_) => {},
    }
    match lifecycle_removed(root, binary, windows) {
        Ok(r) => {
            match sget(root, "hooks"@) {
                Some(SJson::Obj(hh)) => {
                    let r1 = updated_event(h, stop_event(), binary, windows, false)->0;
                    let r2 = updated_event(r1.0, subagent_stop_event(), binary, windows, false)->0;
                    let v = if r2.0.len() == 0 {
                        None
                    } else {
                        Some(SJson::Obj(r2.0))
                    };
                    lemma_sget_put_same(root, "hooks"@, v);
                    assert forall|k: Seq<char>| k != "hooks"@ implies #[trigger] sget(r.0, k) == sget(root, k) by {
                        lemma_sget_put_other(root, "hooks"@, k, v);
                    }
                    if r2.0.len() == 0 {
                        assert(hooks_of(r.0) == r2.0);
                    }
                },
                _ => {},
            }
        },
        Err(_) => {},
    }
}

// ---------------------------------------------------------------------------
// The hooks file
// ---------------------------------------------------------------------------

/// The text of a file: empty when there is none, `None` when it is not UTF-8.
pub open spec fn file_text(file: Option<Seq<u8>>) -> Option<Seq<char>> {
    match file {
        None => Some(Seq::empty()),
        Some(b) => if vstd::utf8::valid_utf8(b) {
            Some(vstd::utf8::decode_utf8(b))
        } else {
            None
        },
    }
}

/// The bytes of a file, if there is one.
pub open spec fn file_view(file: Option<Vec<u8>>) -> Option<Seq<u8>> {
    match file {
        Some(b) => Some(b@),
        None => None,
    }
}

/// The text starts with a byte order mark.
pub open spec fn has_bom(text: Seq<char>) -> bool {
    text.len() > 0 && text[0] == '\u{feff}'
}

/// The text without its byte order mark.
pub open spec fn without_bom(text: Seq<char>) -> Seq<char> {
    if has_bom(text) {
        text.drop_first()
    } else {
        text
    }
}

/// The text (after its byte order mark) has a CRLF line break.
pub open spec fn uses_crlf(text: Seq<char>) -> bool {
    contains_seq(without_bom(text), "\r\n"@)
}

/// `text` with each `\n` written `\r\n`.
pub open spec fn crlf_of(text: Seq<char>) -> Seq<char>
    decreases text.len(),
{
    if text.len() == 0 {
        Seq::empty()
    } else {
        crlf_of(text.drop_last()) + if text.last() == '\n' {
            seq!['\r', '\n']
        } else {
            seq![text.last()]
        }
    }
}

/// New file text in the style of `source`: CRLF line breaks when `source`
/// has one, and a byte order mark when `source` has one.
pub open spec fn in_style_of(text: Seq<char>, source: Seq<char>) -> Seq<char> {
    let t = if uses_crlf(source) {
        crlf_of(text)
    } else {
        text
    };
    if has_bom(source) {
        seq!['\u{feff}'] + t
    } else {
        t
    }
}

/// The top-level members of a hooks file's text: none for blank text.
pub open spec fn hooks_document(text: Seq<char>) -> Result<Seq<(Seq<char>, SJson)>, Fault> {
    let body = without_bom(text);
    if trimmed(body).len() == 0 {
        Ok(Seq::empty())
    } else {
        match json_parse_text(body) {
            None => Err(Fault::HooksInvalid),
            Some(JsonValue::Object(f)) => Ok(fviews(f@)),
            Some(_) => Err(Fault::HooksNotObject),
        }
    }
}

/// How a changed hooks document is written: pretty JSON and a line break,
/// in the style of the file it came from.
pub open spec fn hooks_rendered(root: Seq<(Seq<char>, SJson)>, source: Seq<char>) -> Seq<char> {
    in_style_of(json_pretty(SJson::Obj(root)) + seq!['\n'], source)
}

/// What to write to the hooks file after an edit of its document (`None`:
/// leave the file alone).
pub open spec fn hooks_file_after(
    file: Option<Seq<u8>>,
    edit: spec_fn(Seq<(Seq<char>, SJson)>) -> Result<(Seq<(Seq<char>, SJson)>, bool), Fault>,
) -> Result<Option<Seq<char>>, Fault> {
    match file_text(file) {
        None => Err(Fault::HooksNotUtf8),
        Some(t) => match hooks_document(t) {
            Err(e) => Err(e),
            Ok(root) => match edit(root) {
                Err(e) => Err(e),
                Ok(r) => Ok(
                    if r.1 {
                        Some(hooks_rendered(r.0, t))
                    } else {
                        None
                    },
                ),
            },
        },
    }
}

/// What to write, in mathematical form.
pub open spec fn write_view(res: Result<Option<String>, InstallError>) -> Result<Option<Seq<char>>, Fault> {
    match res {
        Ok(Some(t)) => Ok(Some(t@)),
        Ok(None) => Ok(None),
        Err(e) => Err(e@),
    }
}

/// What to write to the hooks file to set this tool's lifecycle hooks.
pub open spec fn hooks_after_set(file: Option<Seq<u8>>, binary: Seq<char>, windows: bool, include_subagent: bool) -> Result<
    Option<Seq<char>>,
    Fault,
> {
    hooks_file_after(file, |root: Seq<(Seq<char>, SJson)>| lifecycle_set(root, binary, windows, include_subagent))
}

/// What to write to the hooks file to remove this tool's lifecycle hooks.
pub open spec fn hooks_after_removal(file: Option<Seq<u8>>, binary: Seq<char>, windows: bool) -> Result<
    Option<Seq<char>>,
    Fault,
> {
    hooks_file_after(file, |root: Seq<(Seq<char>, SJson)>| lifecycle_removed(root, binary, windows))
}

/// The hooks file after a run that wrote `written` (as UTF-8), or left the
/// file alone.
pub open spec fn file_then(file: Option<Seq<u8>>, written: Result<Option<Seq<char>>, Fault>) -> Option<Seq<u8>> {
    match written {
        Ok(Some(w)) => Some(vstd::utf8::encode_utf8(w)),
        _ => file,
    }
}

/// The document of a hooks file, when it has one.
pub open spec fn hooks_file_document(file: Option<Seq<u8>>) -> Option<Seq<(Seq<char>, SJson)>> {
    match file_text(file) {
        Some(t) => match hooks_document(t) {
            Ok(root) => Some(root),
            Err(_) => None,
        },
        None => None,
    }
}

/// The text of a file.
fn read_text(file: Option<Vec<u8>>) -> (res: Option<String>)
    ensures
        res matches Some(t) ==> file_text(file_view(file)) == Some(t@),
        res is None ==> file_text(file_view(file)) is None,
{
    match file {
        None => Some(String::new()),
        Some(bytes) => decode_utf8(bytes),
    }
}

/// The characters without a leading byte order mark.
pub(crate) fn strip_bom(c: &[char]) -> (res: Vec<char>)
    ensures
        res@ == without_bom(c@),
{
    let mut out: Vec<char> = Vec::new();
    if c.len() == 0 || c[0] != '\u{feff}' {
        extend_chars(&mut out, c);
        return out;
    }
    let mut i: usize = 1;
    while i < c.len()
        invariant
            1 <= i <= c@.len(),
            out@ == c@.subrange(1, i as int),
        decreases c@.len() - i,
    {
        out.push(c[i]);
        i = i + 1;
    }
    assert(out@ == c@.drop_first());
    out
}

/// The members of a hooks file's text.
fn parse_hooks(text: &str) -> (res: Result<Vec<(String, JsonValue)>, InstallError>)
    ensures
        res matches Ok(f) ==> hooks_document(text@) == Ok::<_, Fault>(fviews(f@)),
        res matches Err(e) ==> hooks_document(text@) == Err::<Seq<(Seq<char>, SJson)>, _>(e@),
{
    let c = chars_of(text);
    let body = strip_bom(c.as_slice());
    let t = trim_chars(body.as_slice());
    if t.len() == 0 {
        let empty: Vec<(String, JsonValue)> = Vec::new();
        proof {
            lemma_fviews(empty@);
            assert(fviews(empty@) =~= Seq::<(Seq<char>, SJson)>::empty());
        }
        return Ok(empty);
    }
    let body_text = string_of(body.as_slice());
    match parse_json_text(body_text.as_str()) {
        None => Err(InstallError::HooksInvalid),
        Some(JsonValue::Object(f)) => Ok(f),
        Some(_) => Err(InstallError::HooksNotObject),
    }
}

/// `text` with each `\n` written `\r\n`.
fn crlf_chars(text: &[char]) -> (res: Vec<char>)
    ensures
        res@ == crlf_of(text@),
{
    let mut out: Vec<char> = Vec::new();
    let mut i: usize = 0;
    while i < text.len()
        invariant
            i <= text@.len(),
            out@ == crlf_of(text@.subrange(0, i as int)),
        decreases text@.len() - i,
    {
        assert(text@.subrange(0, i + 1).drop_last() == text@.subrange(0, i as int));
        if text[i] == '\n' {
            out.push('\r');
            out.push('\n');
        } else {
            out.push(text[i]);
        }
        i = i + 1;
    }
    assert(text@.subrange(0, text@.len() as int) == text@);
    out
}

/// New file text in the style of `source`.
pub(crate) fn restyle(text: &[char], source: &str) -> (res: String)
    ensures
        res@ == in_style_of(text@, source@),
{
    let src = chars_of(source);
    let body = strip_bom(src.as_slice());
    let crlf = chars_of("\r\n");
    let t = if chars_contain(body.as_slice(), crlf.as_slice()) {
        crlf_chars(text)
    } else {
        let mut copy: Vec<char> = Vec::new();
        extend_chars(&mut copy, text);
        copy
    };
    let mut out: Vec<char> = Vec::new();
    if src.len() > 0 && src[0] == '\u{feff}' {
        out.push('\u{feff}');
    }
    extend_chars(&mut out, t.as_slice());
    string_of(out.as_slice())
}

/// A changed hooks document as file text in the style of `source`.
fn render_hooks(root: Vec<(String, JsonValue)>, source: &str) -> (res: String)
    ensures
        res@ == hooks_rendered(fviews(root@), source@),
{
    let ghost members = root@;
    let value = JsonValue::Object(root);
    assert(jview(value) == SJson::Obj(fviews(members)));
    let pretty = pretty_json(&value);
    let mut text = chars_of(pretty.as_str());
    text.push('\n');
    assert(text@ =~= json_pretty(SJson::Obj(fviews(members))) + seq!['\n']);
    restyle(text.as_slice(), source)
}

/// Sets this tool's lifecycle hooks in the hooks file: `file` is its content
/// (`None` when there is no file); the result is the text to write, or
/// `None` when the file already says what it should.
pub fn set_lifecycle_hooks(file: Option<Vec<u8>>, binary: &str, windows: bool, include_subagent: bool) -> (res:
    Result<Option<String>, InstallError>)
    ensures
        write_view(res) == hooks_after_set(file_view(file), binary@, windows, include_subagent),
{
    let text = match read_text(file) {
        Some(t) => t,
        None => {
            return Err(InstallError::HooksNotUtf8);
        },
    };
    let root = match parse_hooks(text.as_str()) {
        Ok(r) => r,
        Err(e) => {
            return Err(e);
        },
    };
    match set_lifecycle_in_document(root, binary, windows, include_subagent) {
        Ok((r, changed)) => {
            if changed {
                Ok(Some(render_hooks(r, text.as_str())))
            } else {
                Ok(None)
            }
        },
        Err(e) => Err(e),
    }
}

/// Removes this tool's lifecycle hooks from the hooks file; the result is
/// the text to write, or `None` when there was nothing to remove.
pub fn remove_lifecycle_hooks(file: Option<Vec<u8>>, binary: &str, windows: bool) -> (res: Result<
    Option<String>,
    InstallError,
>)
    ensures
        write_view(res) == hooks_after_removal(file_view(file), binary@, windows),
{
    let text = match read_text(file) {
        Some(t) => t,
        None => {
            return Err(InstallError::HooksNotUtf8);
        },
    };
    let root = match parse_hooks(text.as_str()) {
        Ok(r) => r,
        Err(e) => {
            return Err(e);
        },
    };
    match remove_lifecycle_in_document(root, binary, windows) {
        Ok((r, changed)) => {
            if changed {
                Ok(Some(render_hooks(r, text.as_str())))
            } else {
                Ok(None)
            }
        },
        Err(e) => Err(e),
    }
}

/// Whether the hooks file runs this tool for `event`.
pub open spec fn hooks_file_configured(file: Option<Seq<u8>>, event: Seq<char>, binary: Seq<char>, windows: bool) -> Result<
    bool,
    Fault,
> {
    match file_text(file) {
        None => Err(Fault::HooksNotUtf8),
        Some(t) => match hooks_document(t) {
            Err(e) => Err(e),
            Ok(root) => Ok(configured_event(root, event, binary, windows)),
        },
    }
}

/// Whether the hooks file (`None` when there is none) runs this tool for
/// `event`.
pub fn configured_lifecycle_hook(file: Option<Vec<u8>>, event: &str, binary: &str, windows: bool) -> (res:
    Result<bool, InstallError>)
    ensures
        res matches Ok(b) ==> hooks_file_configured(file_view(file), event@, binary@, windows) == Ok::<_, Fault>(b),
        res matches Err(e) ==> hooks_file_configured(file_view(file), event@, binary@, windows) == Err::<bool, _>(e@),
{
    let text = match read_text(file) {
        Some(t) => t,
        None => {
            return Err(InstallError::HooksNotUtf8);
        },
    };
    let root = match parse_hooks(text.as_str()) {
        Ok(r) => r,
        Err(e) => {
            return Err(e);
        },
    };
    Ok(configured_event_exec(&root, event, binary, windows))
}

/// Each line break of the text is a CRLF.
pub open spec fn crlf_only(text: Seq<char>) -> bool {
    forall|i: int| 0 <= i < text.len() && #[trigger] text[i] == '\n' ==> i > 0 && text[i - 1] == '\r'
}

proof fn lemma_crlf_of(text: Seq<char>)
    ensures
        crlf_only(crlf_of(text)),
    decreases text.len(),
{
    if text.len() > 0 {
        lemma_crlf_of(text.drop_last());
        let a = crlf_of(text.drop_last());
        let b = if text.last() == '\n' {
            seq!['\r', '\n']
        } else {
            seq![text.last()]
        };
        let c = crlf_of(text);
        assert(c == a + b);
        assert forall|i: int| 0 <= i < c.len() && #[trigger] c[i] == '\n' implies i > 0 && c[i - 1] == '\r' by {
            if i < a.len() {
                assert(c[i] == a[i]);
                assert(c[i - 1] == a[i - 1]);
            } else {
                assert(c[i] == b[i - a.len()]);
                if text.last() == '\n' {
                    assert(i - a.len() == 1);
                    assert(c[i - 1] == b[0]);
                }
            }
        }
    }
}

/// Written files keep the style of what they replace: a byte order mark
/// stays, and in a file with CRLF line breaks every line break is a CRLF.
pub proof fn lemma_style_kept(text: Seq<char>, source: Seq<char>)
    ensures
        has_bom(source) ==> has_bom(in_style_of(text, source)),
        uses_crlf(source) ==> crlf_only(in_style_of(text, source)),
{
    lemma_crlf_of(text);
    if has_bom(source) && uses_crlf(source) {
        let t = crlf_of(text);
        let c = seq!['\u{feff}'] + t;
        assert forall|i: int| 0 <= i < c.len() && #[trigger] c[i] == '\n' implies i > 0 && c[i - 1] == '\r' by {
            assert(i > 0);
            assert(c[i] == t[i - 1]);
            assert(c[i - 1] == t[i - 2]);
        }
    }
}

// ---------------------------------------------------------------------------
// Uninstalling and status
// ---------------------------------------------------------------------------

/// What uninstalling writes: the hooks file's new text (`None`: leave it),
/// then, once that succeeded, `config.toml`'s.
pub struct UninstallPlan {
    pub hooks: Result<Option<String>, InstallError>,
    pub config: Option<Result<Option<String>, InstallError>>,
}

impl UninstallPlan {
    /// Whether uninstalling changes a file.
    pub fn changed(&self) -> (res: bool)
        ensures
            res == ((self.hooks matches Ok(Some(_))) || (self.config matches Some(Ok(Some(_))))),
    {
        let hooks_changed = match &self.hooks {
            Ok(Some(_)) => true,
            _ => false,
        };
        let config_changed = match &self.config {
            Some(Ok(Some(_))) => true,
            _ => false,
        };
        hooks_changed || config_changed
    }
}

/// Removes this tool from Codex: its lifecycle hooks from `hooks.json`, then
/// its legacy `notify` entry from `config.toml`. The files' contents are
/// given (`None` when a file does not exist); the plan says what to write.
pub fn uninstall(paths: &Paths, hooks_file: Option<Vec<u8>>, config_file: Option<Vec<u8>>, windows: bool) -> (plan:
    UninstallPlan)
    ensures
        write_view(plan.hooks) == hooks_after_removal(file_view(hooks_file), paths.installed_binary@, windows),
        plan.hooks is Err ==> plan.config is None,
        plan.hooks is Ok ==> (plan.config matches Some(c) && write_view(c)
            == crate::legacy_notify::config_after_removal(
            file_view(config_file),
            paths.installed_binary@,
            paths.legacy_binary_path(windows),
            windows,
        )),
{
    let hooks = remove_lifecycle_hooks(hooks_file, paths.installed_binary.as_str(), windows);
    let config = match &hooks {
        Ok(_) => Some(crate::legacy_notify::remove_notify_hook(config_file, paths, windows)),
        Err(_) => None,
    };
    UninstallPlan { hooks, config }
}

/// What `status` reports, from the files' contents (`None` when a file does
/// not exist) and what the file system says of the installed program.
pub fn installation_status(
    paths: &Paths,
    windows: bool,
    binary_installed: bool,
    binary_current: bool,
    hooks_file: Option<Vec<u8>>,
    config_file: Option<Vec<u8>>,
) -> (res: Result<InstallationStatus, InstallError>)
    ensures
        hooks_file_configured(file_view(hooks_file), stop_event(), paths.installed_binary@, windows) matches Err(
            f,
        ) ==> res matches Err(e) && e@ == f,
        hooks_file_configured(file_view(hooks_file), stop_event(), paths.installed_binary@, windows) is Ok
            ==> (crate::legacy_notify::config_has_our_notify(
            file_view(config_file),
            paths.installed_binary@,
            paths.legacy_binary_path(windows),
            windows,
        ) matches Err(f) ==> res matches Err(e) && e@ == f),
        hooks_file_configured(file_view(hooks_file), stop_event(), paths.installed_binary@, windows) is Ok
            && crate::legacy_notify::config_has_our_notify(
            file_view(config_file),
            paths.installed_binary@,
            paths.legacy_binary_path(windows),
            windows,
        ) is Ok ==> res is Ok,
        res matches Ok(s) ==> {
            &&& s.binary_installed == binary_installed
            &&& s.binary_current == binary_current
            &&& hooks_file_configured(file_view(hooks_file), stop_event(), paths.installed_binary@, windows)
                == Ok::<_, Fault>(s.hook_configured)
            &&& hooks_file_configured(
                file_view(hooks_file),
                subagent_stop_event(),
                paths.installed_binary@,
                windows,
            ) == Ok::<_, Fault>(s.subagent_hook_configured)
            &&& crate::legacy_notify::config_has_our_notify(
                file_view(config_file),
                paths.installed_binary@,
                paths.legacy_binary_path(windows),
                windows,
            ) == Ok::<_, Fault>(s.legacy_notify_configured)
        },
{
    let text = match read_text(hooks_file) {
        Some(t) => t,
        None => {
            return Err(InstallError::HooksNotUtf8);
        },
    };
    let root = match parse_hooks(text.as_str()) {
        Ok(r) => r,
        Err(e) => {
            return Err(e);
        },
    };
    let hook_configured = configured_event_exec(&root, "Stop", paths.installed_binary.as_str(), windows);
    let subagent_hook_configured = configured_event_exec(
        &root,
        "SubagentStop",
        paths.installed_binary.as_str(),
        windows,
    );
    let legacy_notify_configured = match crate::legacy_notify::configured_notify_hook(config_file, paths, windows) {
        Ok(b) => b,
        Err(e) => {
            return Err(e);
        },
    };
    Ok(
        InstallationStatus {
            binary_installed,
            binary_current,
            hook_configured,
            subagent_hook_configured,
            legacy_notify_configured,
        },
    )
}

// ---------------------------------------------------------------------------
// A second run on the written file
// ---------------------------------------------------------------------------

/// Text that was written as UTF-8 reads back as that text.
proof fn lemma_written_text(w: Seq<char>)
    ensures
        file_text(Some(vstd::utf8::encode_utf8(w))) == Some(w),
{
    vstd::utf8::encode_utf8_valid_utf8(w);
    vstd::utf8::encode_utf8_decode_utf8(w);
}

/// Installing twice writes the hooks file once: when the text written by
/// the first run parses back to the document it was rendered from, the
/// second run on the written file writes nothing. (serde_json does not
/// promise that read-back in general: without its `float_roundtrip` feature
/// a float may come back with another value, so it is a condition here.)
pub proof fn lemma_second_install_writes_nothing(
    file: Option<Seq<u8>>,
    binary: Seq<char>,
    windows: bool,
    include_subagent: bool,
)
    requires
        hooks_file_document(file) matches Some(root) ==> well_keyed(root),
        hooks_file_document(file) matches Some(root) ==> (lifecycle_set(root, binary, windows, include_subagent) matches Ok(
            r,
        ) ==> (hooks_after_set(file, binary, windows, include_subagent) matches Ok(Some(w)) ==> hooks_document(w)
            == Ok::<_, Fault>(r.0))),
    ensures
        hooks_after_set(file, binary, windows, include_subagent) is Ok ==> hooks_after_set(
            file_then(file, hooks_after_set(file, binary, windows, include_subagent)),
            binary,
            windows,
            include_subagent,
        ) == Ok::<_, Fault>(None::<Seq<char>>),
{
    match hooks_after_set(file, binary, windows, include_subagent) {
        Ok(Some(w)) => {
            let t = file_text(file)->0;
            let root = hooks_document(t)->Ok_0;
            lemma_set_lifecycle_idempotent(root, binary, windows, include_subagent);
            lemma_written_text(w);
        },
        _ => {},
    }
}

/// Uninstalling twice writes the hooks file once: when the text written by
/// the first run parses back to the document it was rendered from (a
/// condition, as above), the second run on the written file writes nothing.
pub proof fn lemma_second_removal_writes_nothing(file: Option<Seq<u8>>, binary: Seq<char>, windows: bool)
    requires
        hooks_file_document(file) matches Some(root) ==> well_keyed(root),
        hooks_file_document(file) matches Some(root) ==> (lifecycle_removed(root, binary, windows) matches Ok(r)
            ==> (hooks_after_removal(file, binary, windows) matches Ok(Some(w)) ==> hooks_document(w) == Ok::<
            _,
            Fault,
        >(r.0))),
    ensures
        hooks_after_removal(file, binary, windows) is Ok ==> hooks_after_removal(
            file_then(file, hooks_after_removal(file, binary, windows)),
            binary,
            windows,
        ) == Ok::<_, Fault>(None::<Seq<char>>),
{
    match hooks_after_removal(file, binary, windows) {
        Ok(Some(w)) => {
            let t = file_text(file)->0;
            let root = hooks_document(t)->Ok_0;
            lemma_remove_lifecycle_idempotent(root, binary, windows);
            lemma_written_text(w);
        },
        _ => {},
    }
}

} // verus!
