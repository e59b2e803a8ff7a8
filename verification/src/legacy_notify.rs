//! The `notify` entry that earlier versions of this tool wrote into Codex's
//! `config.toml`: recognising it and removing it. toml_edit parses and
//! writes the document, so everything else in it stays as it was.

use vstd::prelude::*;

use crate::install::{
    file_text, file_view, in_style_of, is_separator, restyle, same_command,
    same_command_text, strip_bom, without_bom, write_view, Fault, InstallError, Paths,
};
use crate::text::{
    chars_eq_ignore_ascii_case, chars_of, chars_start_with, decode_utf8, eq_ignore_ascii_case,
    has_prefix,
};

verus! {

/// What a TOML document holds under `notify`: `None` when toml_edit does
/// not parse the text; otherwise `None` when `notify` is not an array, and
/// else its items, each as a string or `None` when it is not one.
pub uninterp spec fn toml_notify(source: Seq<char>) -> Option<Option<Seq<Option<Seq<char>>>>>;

/// The text toml_edit writes for the document after removing its top-level
/// `key`; the text itself when it does not parse.
pub uninterp spec fn toml_without(source: Seq<char>, key: Seq<char>) -> Seq<char>;

/// The items of a `notify` array in mathematical form.
pub open spec fn items_view(items: Seq<Option<String>>) -> Seq<Option<Seq<char>>> {
    Seq::new(
        items.len(),
        |i: int|
            match items[i] {
                Some(s) => Some(s@),
                None => None,
            },
    )
}

/// toml_edit's parse error, carried opaquely.
#[verifier::external_type_specification]
#[verifier::external_body]
pub struct ExTomlError(toml_edit::TomlError);

/// What reading `notify` gave, in mathematical form.
pub open spec fn notify_view(r: Result<Option<Vec<Option<String>>>, toml_edit::TomlError>) -> Option<
    Option<Seq<Option<Seq<char>>>>,
> {
    match r {
        Ok(Some(items)) => Some(Some(items_view(items@))),
        Ok(None) => Some(None),
        Err(_) => None,
    }
}

/// Parses `source` with toml_edit (`str::parse::<DocumentMut>`), then reads
/// the top-level `notify` item with `Table::get`, `Item::as_array`,
/// `Array::iter` and `Value::as_str`. Claimed: the result is
/// `toml_notify(source@)`.
#[verifier::external_body]
fn notify_items(source: &str) -> (res: Result<Option<Vec<Option<String>>>, toml_edit::TomlError>)
    ensures
        notify_view(res) == toml_notify(source@),
{
    let document = source.parse::<toml_edit::DocumentMut>()?;
    let Some(array) = document.get("notify").and_then(toml_edit::Item::as_array) else {
        return Ok(None);
    };
    let mut items = Vec::new();
    for value in array.iter() {
        items.push(value.as_str().map(str::to_owned));
    }
    Ok(Some(items))
}

/// Parses `source` with toml_edit, removes the top-level `key` with
/// `Table::remove` and writes the document with its `Display`; the text
/// unchanged when it does not parse. Claimed: the result is
/// `toml_without(source@, key@)`.
#[verifier::external_body]
fn remove_toml_key(source: &str, key: &str) -> (res: String)
    ensures
        res@ == toml_without(source@, key@),
{
    match source.parse::<toml_edit::DocumentMut>() {
        Ok(mut document) => {
            document.remove(key);
            document.to_string()
        },
        Err(_) => source.to_owned(),
    }
}

// ---------------------------------------------------------------------------
// Recognising the entry
// ---------------------------------------------------------------------------

/// An npm package of this tool, with or without a version.
pub open spec fn is_our_package(spec: Seq<char>) -> bool {
    ||| spec == "go-codex-notify"@
    ||| has_prefix(spec, "go-codex-notify@"@)
    ||| spec == "@asural/codex-notify"@
    ||| has_prefix(spec, "@asural/codex-notify@"@)
}

/// Whether an npm package specification is one of this tool's.
pub fn is_our_package_spec(spec: &str) -> (res: bool)
    ensures
        res == is_our_package(spec@),
{
    let s = chars_of(spec);
    let legacy = chars_of("go-codex-notify");
    let legacy_at = chars_of("go-codex-notify@");
    let scoped = chars_of("@asural/codex-notify");
    let scoped_at = chars_of("@asural/codex-notify@");
    crate::json::str_eq(spec, "go-codex-notify") || chars_start_with(s.as_slice(), legacy_at.as_slice())
        || crate::json::str_eq(spec, "@asural/codex-notify") || chars_start_with(
        s.as_slice(),
        scoped_at.as_slice(),
    )
}

/// Where the part of `s[..end]` after its last separator starts.
pub open spec fn part_start(s: Seq<char>, end: int, windows: bool) -> int
    decreases end,
{
    if end <= 0 || end > s.len() || is_separator(s[end - 1], windows) {
        end
    } else {
        part_start(s, end - 1, windows)
    }
}

/// A name that runs npx: `npx`, `npx.cmd` or `npx.exe` in any ASCII case.
pub open spec fn is_npx_name(name: Seq<char>) -> bool {
    ||| eq_ignore_ascii_case(name, "npx"@)
    ||| eq_ignore_ascii_case(name, "npx.cmd"@)
    ||| eq_ignore_ascii_case(name, "npx.exe"@)
}

/// An ASCII letter.
pub open spec fn is_ascii_letter(c: char) -> bool {
    ('a' <= c && c <= 'z') || ('A' <= c && c <= 'Z')
}

/// A part without the drive (`X:`) that starts a Windows path.
pub open spec fn without_drive(part: Seq<char>, at_start: bool, windows: bool) -> Seq<char> {
    if windows && at_start && part.len() >= 2 && part[1] == ':' && is_ascii_letter(part[0]) {
        part.subrange(2, part.len() as int)
    } else {
        part
    }
}

/// The file name of the path `s[..end]` runs npx. The file name is the last
/// part between separators, with trailing separators and `.` parts skipped;
/// a path that ends in `..` has none (as `Path::file_name` finds it, for
/// paths without a verbatim `\\?\` prefix).
pub open spec fn npx_before(s: Seq<char>, end: int, windows: bool) -> bool
    decreases end,
{
    if end <= 0 || end > s.len() {
        false
    } else if is_separator(s[end - 1], windows) {
        npx_before(s, end - 1, windows)
    } else {
        let start = part_start(s, end, windows);
        let part = s.subrange(start, end);
        if part == "."@ {
            if 0 <= start < end {
                npx_before(s, start, windows)
            } else {
                false
            }
        } else if part == ".."@ {
            false
        } else {
            is_npx_name(without_drive(part, start == 0, windows))
        }
    }
}

/// The command's file name runs npx.
pub open spec fn is_npx(command: Seq<char>, windows: bool) -> bool {
    npx_before(command, command.len() as int, windows)
}

/// An item that names one of this tool's packages.
pub open spec fn names_our_package(item: Option<Seq<char>>) -> bool {
    match item {
        Some(p) => is_our_package(p),
        None => false,
    }
}

/// A `notify` entry of this tool: its first item is the installed program,
/// its predecessor, or npx running one of this tool's packages.
pub open spec fn is_our_notify(items: Seq<Option<Seq<char>>>, binary: Seq<char>, legacy: Seq<char>, windows: bool) -> bool {
    if items.len() == 0 {
        false
    } else {
        match items[0] {
            Some(command) => {
                ||| same_command(command, binary, windows)
                ||| same_command(command, legacy, windows)
                ||| is_npx(command, windows) && exists|i: int|
                    1 <= i < items.len() && #[trigger] names_our_package(items[i])
            },
            None => false,
        }
    }
}

/// Whether a character separates path parts.
fn is_separator_char(c: char, windows: bool) -> (res: bool)
    ensures
        res == is_separator(c, windows),
{
    c == '/' || (windows && c == '\\')
}

/// Whether the name runs npx.
fn is_npx_name_exec(name: &[char]) -> (res: bool)
    ensures
        res == is_npx_name(name@),
{
    let npx = chars_of("npx");
    let npx_cmd = chars_of("npx.cmd");
    let npx_exe = chars_of("npx.exe");
    chars_eq_ignore_ascii_case(name, npx.as_slice()) || chars_eq_ignore_ascii_case(name, npx_cmd.as_slice())
        || chars_eq_ignore_ascii_case(name, npx_exe.as_slice())
}

/// The characters `s[from..to]`.
fn slice_chars(s: &[char], from: usize, to: usize) -> (res: Vec<char>)
    requires
        from <= to <= s@.len(),
    ensures
        res@ == s@.subrange(from as int, to as int),
{
    let mut out: Vec<char> = Vec::new();
    let mut i: usize = from;
    while i < to
        invariant
            from <= i <= to <= s@.len(),
            out@ == s@.subrange(from as int, i as int),
        decreases to - i,
    {
        out.push(s[i]);
        i = i + 1;
    }
    out
}

/// Whether the command's file name runs npx.
pub fn is_npx_command(command: &str, windows: bool) -> (res: bool)
    ensures
        res == is_npx(command@, windows),
{
    proof {
        reveal_strlit(".");
        reveal_strlit("..");
    }
    let c = chars_of(command);
    let mut end: usize = c.len();
    loop
        invariant
            end <= c@.len(),
            c@ == command@,
            npx_before(c@, end as int, windows) == npx_before(c@, c@.len() as int, windows),
        decreases end,
    {
        if end == 0 {
            return false;
        }
        if is_separator_char(c[end - 1], windows) {
            end = end - 1;
            continue;
        }
        let mut start: usize = end;
        while start > 0 && !is_separator_char(c[start - 1], windows)
            invariant
                start <= end <= c@.len(),
                end > 0,
                !is_separator(c@[end - 1], windows),
                part_start(c@, end as int, windows) == part_start(c@, start as int, windows),
            decreases start,
        {
            start = start - 1;
        }
        assert(part_start(c@, start as int, windows) == start);
        let part = slice_chars(c.as_slice(), start, end);
        proof {
            reveal_strlit(".");
            reveal_strlit("..");
        }
        if part.len() == 1 && part[0] == '.' {
            assert(part@ =~= "."@);
            end = start;
            continue;
        }
        if part.len() == 2 && part[0] == '.' && part[1] == '.' {
            assert(part@ =~= ".."@);
            return false;
        }
        assert(part@ != "."@) by {
            if part@ == "."@ {
                assert(part@.len() == 1 && part@[0] == '.');
            }
        }
        assert(part@ != ".."@) by {
            if part@ == ".."@ {
                assert(part@.len() == 2 && part@[0] == '.' && part@[1] == '.');
            }
        }
        if windows && start == 0 && part.len() >= 2 && part[1] == ':' && (('a' <= part[0] && part[0] <= 'z')
            || ('A' <= part[0] && part[0] <= 'Z')) {
            let name = slice_chars(part.as_slice(), 2, part.len());
            return is_npx_name_exec(name.as_slice());
        }
        return is_npx_name_exec(part.as_slice());
    }
}

/// Whether a `notify` entry is this tool's.
#[verifier::loop_isolation(false)]
pub fn is_our_notify_exec(items: &Vec<Option<String>>, binary: &str, legacy: &str, windows: bool) -> (res: bool)
    ensures
        res == is_our_notify(items_view(items@), binary@, legacy@, windows),
{
    let ghost iv = items_view(items@);
    if items.len() == 0 {
        return false;
    }
    let command = match &items[0] {
        Some(c) => c,
        None => {
            return false;
        },
    };
    if same_command_text(command.as_str(), binary, windows) || same_command_text(command.as_str(), legacy, windows) {
        return true;
    }
    if !is_npx_command(command.as_str(), windows) {
        return false;
    }
    let mut i: usize = 1;
    while i < items.len()
        invariant
            1 <= i <= items@.len(),
            iv == items_view(items@),
            forall|k: int| 1 <= k < i ==> !names_our_package(#[trigger] iv[k]),
        decreases items@.len() - i,
    {
        match &items[i] {
            Some(p) => {
                if is_our_package_spec(p.as_str()) {
                    assert(names_our_package(iv[i as int]));
                    return true;
                }
            },
            None => {},
        }
        i = i + 1;
    }
    false
}

// ---------------------------------------------------------------------------
// The configuration file
// ---------------------------------------------------------------------------

/// The `notify` entry in the text of `config.toml` is this tool's.
pub open spec fn notify_is_ours(
    entry: Option<Seq<Option<Seq<char>>>>,
    binary: Seq<char>,
    legacy: Seq<char>,
    windows: bool,
) -> bool {
    match entry {
        Some(items) => is_our_notify(items, binary, legacy, windows),
        None => false,
    }
}

/// What to write to `config.toml` (`file`; `None` when there is none) to
/// remove this tool's `notify` entry: `None` when there is none to remove.
pub open spec fn config_after_removal(file: Option<Seq<u8>>, binary: Seq<char>, legacy: Seq<char>, windows: bool) -> Result<
    Option<Seq<char>>,
    Fault,
> {
    match file_text(file) {
        None => Err(Fault::ConfigNotUtf8),
        Some(t) => match toml_notify(without_bom(t)) {
            None => Err(Fault::ConfigInvalid),
            Some(entry) => Ok(
                if notify_is_ours(entry, binary, legacy, windows) {
                    Some(in_style_of(toml_without(without_bom(t), "notify"@), t))
                } else {
                    None
                },
            ),
        },
    }
}

/// Whether `config.toml` (`None` when there is none) holds this tool's
/// `notify` entry.
pub open spec fn config_has_our_notify(file: Option<Seq<u8>>, binary: Seq<char>, legacy: Seq<char>, windows: bool) -> Result<
    bool,
    Fault,
> {
    match file {
        None => Ok(false),
        Some(_) => match file_text(file) {
            None => Err(Fault::ConfigNotUtf8),
            Some(t) => match toml_notify(without_bom(t)) {
                None => Err(Fault::ConfigInvalid),
                Some(entry) => Ok(notify_is_ours(entry, binary, legacy, windows)),
            },
        },
    }
}

/// The `notify` entry of the text, and whether it is this tool's.
fn notify_entry_is_ours(body: &str, binary: &str, legacy: &str, windows: bool) -> (res: Result<bool, ()>)
    ensures
        res matches Ok(b) ==> toml_notify(body@) matches Some(entry) && b == notify_is_ours(
            entry,
            binary@,
            legacy@,
            windows,
        ),
        res is Err ==> toml_notify(body@) is None,
{
    match notify_items(body) {
        Ok(Some(items)) => Ok(is_our_notify_exec(&items, binary, legacy, windows)),
        Ok(None) => Ok(false),
        Err(_) => Err(()),
    }
}

/// Removes this tool's `notify` entry from `config.toml`: `file` is its
/// content (`None` when there is no file); the result is the text to write,
/// or `None` when there is no entry of this tool.
pub fn remove_notify_hook(file: Option<Vec<u8>>, paths: &Paths, windows: bool) -> (res: Result<
    Option<String>,
    InstallError,
>)
    ensures
        write_view(res) == config_after_removal(
            file_view(file),
            paths.installed_binary@,
            paths.legacy_binary_path(windows),
            windows,
        ),
{
    let legacy = paths.legacy_binary(windows);
    let text = match file {
        None => String::new(),
        Some(bytes) => match decode_utf8(bytes) {
            Some(t) => t,
            None => {
                return Err(InstallError::ConfigNotUtf8);
            },
        },
    };
    let c = chars_of(text.as_str());
    let body_chars = strip_bom(c.as_slice());
    let body = crate::text::string_of(body_chars.as_slice());
    match notify_entry_is_ours(body.as_str(), paths.installed_binary.as_str(), legacy.as_str(), windows) {
        Err(()) => Err(InstallError::ConfigInvalid),
        Ok(false) => Ok(None),
        Ok(true) => {
            let rendered = remove_toml_key(body.as_str(), "notify");
            let r = chars_of(rendered.as_str());
            Ok(Some(restyle(r.as_slice(), text.as_str())))
        },
    }
}

/// Whether `config.toml` (`None` when there is no file) holds this tool's
/// `notify` entry.
pub fn configured_notify_hook(file: Option<Vec<u8>>, paths: &Paths, windows: bool) -> (res: Result<bool, InstallError>)
    ensures
        res matches Ok(b) ==> config_has_our_notify(
            file_view(file),
            paths.installed_binary@,
            paths.legacy_binary_path(windows),
            windows,
        ) == Ok::<_, Fault>(b),
        res matches Err(e) ==> config_has_our_notify(
            file_view(file),
            paths.installed_binary@,
            paths.legacy_binary_path(windows),
            windows,
        ) == Err::<bool, _>(e@),
{
    let legacy = paths.legacy_binary(windows);
    let text = match file {
        None => {
            return Ok(false);
        },
        Some(bytes) => match decode_utf8(bytes) {
            Some(t) => t,
            None => {
                return Err(InstallError::ConfigNotUtf8);
            },
        },
    };
    let c = chars_of(text.as_str());
    let body_chars = strip_bom(c.as_slice());
    let body = crate::text::string_of(body_chars.as_slice());
    match notify_entry_is_ours(body.as_str(), paths.installed_binary.as_str(), legacy.as_str(), windows) {
        Err(()) => Err(InstallError::ConfigInvalid),
        Ok(b) => Ok(b),
    }
}

} // verus!
