use vstd::prelude::*;

use crate::application::{AppUsage, Application, ApplicationMap};
use crate::text::{
    is_plain_component, starts_with_two_separators, chars_of, contains_chars, contains_text, is_white_space, law_trim_edges, lowercase_of,
    replace_char, replace_char_chars, same_chars, starts_with, starts_with_chars,
    string_from_chars, to_lowercase, trim, trim_chars, trim_end_char, trim_end_char_chars,
};
use crate::time::TimeSpan;
use crate::utf16::{decode_utf16_chars, decode_utf16_lossy, decode_utf16_prefix};

verus! {

// ---------------------------------------------------------------------------
// Executable file names
// ---------------------------------------------------------------------------

/// `name` is a non-empty stretch of `path`'s text.
pub open spec fn is_nonempty_part_of(path: Seq<char>, name: Seq<char>) -> bool {
    name.len() > 0 && contains_text(path, name)
}

/// `path` is the parent-directory component `..` alone.
pub open spec fn is_parent_dir(path: Seq<char>) -> bool {
    path == seq!['.', '.']
}

/// `name` is plainly the final component of `path` on every platform: `path` is
/// `name` itself, or ends with `/` followed by `name`, and does not begin with two
/// separators.
pub open spec fn is_plain_final_component(path: Seq<char>, name: Seq<char>) -> bool {
    &&& is_plain_component(name)
    &&& !starts_with_two_separators(path)
    &&& (path == name || (path.len() > name.len() && path[path.len() - name.len() - 1] == '/'
        && path.subrange(path.len() - name.len(), path.len() as int) == name))
}

/// `path` ends in a plain final component.
pub open spec fn has_plain_final_component(path: Seq<char>) -> bool {
    exists|name: Seq<char>| is_plain_final_component(path, name)
}

/// `c` separates path components, or closes a drive, on some platform.
pub open spec fn is_boundary_char(c: char) -> bool {
    c == '/' || c == '\\' || c == ':'
}

/// `path` ends in a name on every platform: it is not empty, does not begin with two
/// separators, and its last character is none of `/`, `\`, `:` and `.`.
pub open spec fn ends_in_name(path: Seq<char>) -> bool {
    &&& path.len() > 0
    &&& !starts_with_two_separators(path)
    &&& !is_boundary_char(path.last())
    &&& path.last() != '.'
}

/// `name` is a final piece of `path`: a non-empty end of its text without `/`, that
/// begins the path or follows one of `/`, `\` and `:`.
pub open spec fn is_final_piece(path: Seq<char>, name: Seq<char>) -> bool {
    &&& 0 < name.len() <= path.len()
    &&& path.subrange(path.len() - name.len(), path.len() as int) == name
    &&& (name.len() == path.len() || is_boundary_char(path[path.len() - name.len() - 1]))
    &&& !name.contains('/')
}

/// What holds on every platform of the file name `name` that `Path::file_name`
/// takes from `path` (the empty text when it takes none): a non-empty name is a
/// part of the path; it holds no `/` unless the path begins with two separators;
/// the empty path, `/` and `..` have none; a path that ends in a name has a final
/// piece of it as its name; and a plain final component is the name.
pub open spec fn is_possible_file_name(path: Seq<char>, name: Seq<char>) -> bool {
    &&& (name.len() == 0 || is_nonempty_part_of(path, name))
    &&& (!starts_with_two_separators(path) ==> !name.contains('/'))
    &&& (path.len() == 0 || path == seq!['/'] || is_parent_dir(path) ==> name.len() == 0)
    &&& (ends_in_name(path) ==> is_final_piece(path, name))
    &&& (forall|n: Seq<char>| #[trigger] is_plain_final_component(path, n) ==> name == n)
}

/// A path has at most one plain final component.
proof fn lemma_plain_final_component_unique(path: Seq<char>, a: Seq<char>, b: Seq<char>)
    requires
        is_plain_final_component(path, a),
        is_plain_final_component(path, b),
    ensures
        a == b,
{
    let n = path.len();
    if a.len() < b.len() {
        let i = n - a.len() - 1;
        assert(path != a);
        assert(path[i] == '/');
        assert(b[i - (n - b.len())] == path[i]);
        assert(b.contains('/'));
    } else if b.len() < a.len() {
        let i = n - b.len() - 1;
        assert(path != b);
        assert(path[i] == '/');
        assert(a[i - (n - a.len())] == path[i]);
        assert(a.contains('/'));
    } else {
        if path != a {
            assert(a =~= path.subrange(n - a.len(), n as int));
        }
        if path != b {
            assert(b =~= path.subrange(n - b.len(), n as int));
        }
        assert(a =~= b);
    }
}

/// Calls `Path::file_name` on `path` and hands the final component back as a
/// `String`. Which characters separate components depends on the platform the
/// program is built for (`/` everywhere, also `\` and drive prefixes on Windows,
/// where paths that begin with two separators may not split at `/`), so the result
/// is not named; the contract states what holds on every platform: a component is a
/// non-empty part of the path's text, without `/` unless the path begins with two
/// separators; the empty path, the root `/` and `..` have none (as documented for a
/// path that ends in `..`); a path that ends in a name (not with a separator, `:`
/// or `.`) has one, which ends the path and follows a separator or `:` or begins it;
/// and a plain component that ends the path after `/`, or makes up the whole path,
/// is its final component. Which of `\` and `:` split a path is left unsaid.
#[verifier::external_body]
fn path_file_name(path: &str) -> (r: Option<String>)
    ensures
        r matches Some(n) ==> is_nonempty_part_of(path@, n@),
        (r is Some && !starts_with_two_separators(path@)) ==> !r->0@.contains('/'),
        (path@.len() == 0 || path@ == seq!['/'] || is_parent_dir(path@)) ==> r is None,
        ends_in_name(path@) ==> r is Some && is_final_piece(path@, r->0@),
        has_plain_final_component(path@) ==> r is Some && is_plain_final_component(path@, r->0@),
{
    std::path::Path::new(path).file_name().map(|n| n.to_string_lossy().into_owned())
}

/// The file name of the executable at `executable`, or the empty string when the
/// path has none.
pub fn extract_name_from_path(executable: &String) -> (name: String)
    ensures
        name@.len() == 0 || is_nonempty_part_of(executable@, name@),
        !starts_with_two_separators(executable@) ==> !name@.contains('/'),
        (executable@.len() == 0 || executable@ == seq!['/'] || is_parent_dir(executable@)) ==> name@.len() == 0,
        ends_in_name(executable@) ==> is_final_piece(executable@, name@),
        forall|n: Seq<char>| #[trigger] is_plain_final_component(executable@, n) ==> name@ == n,
        is_possible_file_name(executable@, name@),
{
    let r = path_file_name(executable.as_str());
    proof {
        assert forall|n: Seq<char>| #[trigger] is_plain_final_component(executable@, n) implies (r matches Some(
            s,
        ) && s@ == n) by {
            let s = r->0;
            lemma_plain_final_component_unique(executable@, n, s@);
        }
    }
    match r {
        Some(n) => n,
        None => {
            let e = String::new();
            assert(!e@.contains('/'));
            e
        },
    }
}

// ---------------------------------------------------------------------------
// Windows system directory
// ---------------------------------------------------------------------------

/// A path with `/` written as `\`.
pub open spec fn backslashed(path: Seq<char>) -> Seq<char> {
    replace_char(path, '/', '\\')
}

/// The executable lies under the Windows directory (when one is known): its
/// lowercased, backslashed path begins with the lowercased, backslashed Windows
/// directory, trailing backslashes removed, followed by one backslash.
pub open spec fn in_windows_directory(executable: Seq<char>, windows_directory: Option<Seq<char>>) -> bool {
    match windows_directory {
        None => false,
        Some(dir) => starts_with(
            lowercase_of(backslashed(executable)),
            lowercase_of(trim_end_char(backslashed(dir), '\\')).push('\\'),
        ),
    }
}

/// The view of an optional text.
pub open spec fn opt_text(s: Option<&str>) -> Option<Seq<char>> {
    match s {
        Some(t) => Some(t@),
        None => None,
    }
}

/// Whether `executable` lies under the Windows directory `windows_directory`
/// (the value of `WINDIR`, if it is set).
pub fn is_windows_system_path(executable: &str, windows_directory: Option<&str>) -> (r: bool)
    ensures
        r == in_windows_directory(executable@, opt_text(windows_directory)),
{
    match windows_directory {
        None => false,
        Some(dir) => {
            let dir_chars = chars_of(dir);
            let dir_slashed = replace_char_chars(&dir_chars, '/', '\\');
            let dir_trimmed = trim_end_char_chars(&dir_slashed, '\\');
            let dir_text = string_from_chars(&dir_trimmed);
            let dir_lower = to_lowercase(dir_text.as_str());
            let mut prefix = chars_of(dir_lower.as_str());
            prefix.push('\\');
            let exe_chars = chars_of(executable);
            let exe_slashed = replace_char_chars(&exe_chars, '/', '\\');
            let exe_text = string_from_chars(&exe_slashed);
            let exe_lower = to_lowercase(exe_text.as_str());
            let exe_lower_chars = chars_of(exe_lower.as_str());
            starts_with_chars(&exe_lower_chars, &prefix)
        },
    }
}

/// Whether the executable lies under the Windows directory does not depend on how
/// many separators end the directory, nor on whether paths use `/` or `\`.
pub proof fn law_windows_directory_separators(executable: Seq<char>, dir: Seq<char>)
    ensures
        in_windows_directory(executable, Some(dir.push('\\'))) == in_windows_directory(
            executable,
            Some(dir),
        ),
        in_windows_directory(executable, Some(dir.push('/'))) == in_windows_directory(
            executable,
            Some(dir),
        ),
        in_windows_directory(backslashed(executable), Some(dir)) == in_windows_directory(
            executable,
            Some(dir),
        ),
{
    let b = backslashed(dir);
    assert(backslashed(dir.push('\\')) =~= b.push('\\'));
    assert(backslashed(dir.push('/')) =~= b.push('\\'));
    assert(b.push('\\').drop_last() =~= b);
    assert(trim_end_char(b.push('\\'), '\\') == trim_end_char(b, '\\'));
    assert(backslashed(backslashed(executable)) =~= backslashed(executable));
}

// ---------------------------------------------------------------------------
// Which windows count as applications
// ---------------------------------------------------------------------------

/// Executables that are always counted (none are configured).
pub open spec fn allowed_executables() -> Seq<Seq<char>> {
    Seq::empty()
}

/// Executables that are never counted (none are configured).
pub open spec fn blocked_executables() -> Seq<Seq<char>> {
    Seq::empty()
}

/// Window titles of shell and overlay windows that are not applications.
pub open spec fn blocked_titles() -> Seq<Seq<char>> {
    seq![
        "program manager"@,
        "windows input experience"@,
        "nvidia geforce overlay"@,
        "powertoys quick access (preview)"@,
        "settings"@,
    ]
}

/// Parts of window titles that mark helper windows.
pub open spec fn helper_title_markers() -> Seq<Seq<char>> {
    seq!["gracefulshutdownwindow"@, "uiaccesshelperwindow"@, "crashpad"@]
}

/// Executables of crash reporters and updaters.
pub open spec fn helper_executables() -> Seq<Seq<char>> {
    seq!["crashpad_handler.exe"@, "squirrel.exe"@, "update.exe"@]
}

/// Windows components that are not applications when they run from the Windows directory.
pub open spec fn windows_system_components() -> Seq<Seq<char>> {
    seq![
        "lockapp.exe"@,
        "searchhost.exe"@,
        "shellexperiencehost.exe"@,
        "startmenuexperiencehost.exe"@,
        "systemsettings.exe"@,
        "textinputhost.exe"@,
    ]
}

/// `x` is one of `list`.
pub open spec fn listed(x: Seq<char>, list: Seq<Seq<char>>) -> bool {
    exists|i: int| 0 <= i < list.len() && list[i] == x
}

/// `s` holds one of `markers`.
pub open spec fn holds_any(s: Seq<char>, markers: Seq<Seq<char>>) -> bool {
    exists|i: int| 0 <= i < markers.len() && contains_text(s, markers[i])
}

/// The rule that decides whether a window counts as an application, over its
/// lowercased trimmed title, its lowercased executable file name, and whether the
/// executable lies under the Windows directory. The explicit lists come first, so a
/// user's choice wins over the heuristics.
pub open spec fn accepts(title: Seq<char>, executable_name: Seq<char>, system_path: bool) -> bool {
    if title.len() == 0 || executable_name.len() == 0 {
        false
    } else if listed(executable_name, allowed_executables()) {
        true
    } else if listed(executable_name, blocked_executables()) {
        false
    } else if listed(title, blocked_titles()) {
        false
    } else if holds_any(title, helper_title_markers()) {
        false
    } else if listed(executable_name, helper_executables()) {
        false
    } else if system_path && listed(executable_name, windows_system_components()) {
        false
    } else {
        true
    }
}

/// Whether `x` is one of `list`.
fn is_listed(x: &Vec<char>, list: &[&str]) -> (r: bool)
    ensures
        r == listed(x@, list@.map_values(|s: &str| s@)),
{
    let ghost views = list@.map_values(|s: &str| s@);
    let mut i: usize = 0;
    while i < list.len()
        invariant
            i <= list@.len(),
            views == list@.map_values(|s: &str| s@),
            forall|j: int| 0 <= j < i ==> views[j] != x@,
        decreases list@.len() - i,
    {
        let item = chars_of(list[i]);
        if same_chars(&item, x) {
            assert(views[i as int] == x@);
            return true;
        }
        i = i + 1;
    }
    false
}

/// Whether `s` holds one of `markers`.
fn holds_any_of(s: &Vec<char>, markers: &[&str]) -> (r: bool)
    ensures
        r == holds_any(s@, markers@.map_values(|m: &str| m@)),
{
    let ghost views = markers@.map_values(|m: &str| m@);
    let mut i: usize = 0;
    while i < markers.len()
        invariant
            i <= markers@.len(),
            views == markers@.map_values(|m: &str| m@),
            forall|j: int| 0 <= j < i ==> !contains_text(s@, views[j]),
        decreases markers@.len() - i,
    {
        let item = chars_of(markers[i]);
        if contains_chars(s, &item) {
            assert(contains_text(s@, views[i as int]));
            return true;
        }
        i = i + 1;
    }
    false
}

/// Whether a window with `title`, whose executable has the file name
/// `executable_name`, counts as an application; `system_path` says whether the
/// executable lies under the Windows directory.
pub fn accepts_window(title: &str, executable_name: &str, system_path: bool) -> (r: bool)
    ensures
        r == accepts(lowercase_of(trim(title@)), lowercase_of(executable_name@), system_path),
{
    let title_chars = chars_of(title);
    let trimmed = trim_chars(&title_chars);
    let trimmed_text = string_from_chars(&trimmed);
    let title_lower_text = to_lowercase(trimmed_text.as_str());
    let title_lower = chars_of(title_lower_text.as_str());
    let name_lower_text = to_lowercase(executable_name);
    let name_lower = chars_of(name_lower_text.as_str());

    if title_lower.len() == 0 || name_lower.len() == 0 {
        return false;
    }
    let allowed: [&str; 0] = [];
    let blocked: [&str; 0] = [];
    assert(allowed@.map_values(|s: &str| s@) =~= allowed_executables());
    assert(blocked@.map_values(|s: &str| s@) =~= blocked_executables());
    if is_listed(&name_lower, allowed.as_slice()) {
        return true;
    }
    if is_listed(&name_lower, blocked.as_slice()) {
        return false;
    }
    let titles: [&str; 5] = [
        "program manager",
        "windows input experience",
        "nvidia geforce overlay",
        "powertoys quick access (preview)",
        "settings",
    ];
    assert(titles@.map_values(|s: &str| s@) =~= blocked_titles());
    if is_listed(&title_lower, titles.as_slice()) {
        return false;
    }
    let markers: [&str; 3] = ["gracefulshutdownwindow", "uiaccesshelperwindow", "crashpad"];
    assert(markers@.map_values(|s: &str| s@) =~= helper_title_markers());
    if holds_any_of(&title_lower, markers.as_slice()) {
        return false;
    }
    let helpers: [&str; 3] = ["crashpad_handler.exe", "squirrel.exe", "update.exe"];
    assert(helpers@.map_values(|s: &str| s@) =~= helper_executables());
    if is_listed(&name_lower, helpers.as_slice()) {
        return false;
    }
    let components: [&str; 6] = [
        "lockapp.exe",
        "searchhost.exe",
        "shellexperiencehost.exe",
        "startmenuexperiencehost.exe",
        "systemsettings.exe",
        "textinputhost.exe",
    ];
    assert(components@.map_values(|s: &str| s@) =~= windows_system_components());
    if system_path && is_listed(&name_lower, components.as_slice()) {
        return false;
    }
    true
}

/// Whether `app` counts as an application, given the file name that was taken from
/// its executable path (or the empty text when the path has none) and the Windows
/// directory.
pub fn is_valid_with_executable_name(
    app: &Application,
    executable_name: &str,
    windows_directory: Option<&str>,
) -> (valid: bool)
    ensures
        valid == accepts(
            lowercase_of(trim(app.title@)),
            lowercase_of(executable_name@),
            in_windows_directory(app.executable@, opt_text(windows_directory)),
        ),
{
    let system_path = is_windows_system_path(app.executable.as_str(), windows_directory);
    accepts_window(app.title.as_str(), executable_name, system_path)
}

/// Whether `app` counts as an application: the window has a title, the executable a
/// file name, and neither is one that marks a shell, helper or system window.
pub fn is_valid_application(app: &Application, windows_directory: Option<&str>) -> (valid: bool)
    ensures
        exists|name: Seq<char>|
            is_possible_file_name(app.executable@, name) && valid == accepts(
                lowercase_of(trim(app.title@)),
                lowercase_of(name),
                in_windows_directory(app.executable@, opt_text(windows_directory)),
            ),
        forall|n: Seq<char>|
            #[trigger] is_plain_final_component(app.executable@, n) ==> valid == accepts(
                lowercase_of(trim(app.title@)),
                lowercase_of(n),
                in_windows_directory(app.executable@, opt_text(windows_directory)),
            ),
{
    let name = extract_name_from_path(&app.executable);
    let valid = is_valid_with_executable_name(app, name.as_str(), windows_directory);
    assert(is_possible_file_name(app.executable@, name@));
    valid
}

// ---------------------------------------------------------------------------
// Window titles and product names
// ---------------------------------------------------------------------------

/// The title of a window from the first `length` units that `GetWindowTextW`
/// wrote into `buffer`; a window without a title has none.
pub fn window_title(buffer: &[u16], length: i32) -> (title: Option<String>)
    requires
        0 <= length <= buffer@.len(),
    ensures
        length == 0 ==> title is None,
        length != 0 ==> (title matches Some(t) && t@ == decode_utf16_lossy(
            buffer@.take(length as int),
        )),
{
    if length == 0 {
        return None;
    }
    Some(decode_utf16_prefix(buffer, length as usize))
}

/// The lowercase hexadecimal digits.
pub open spec fn hex_digits() -> Seq<char> {
    seq!['0', '1', '2', '3', '4', '5', '6', '7', '8', '9', 'a', 'b', 'c', 'd', 'e', 'f']
}

/// `v` as four lowercase hexadecimal digits, as `{:04x}` writes a `u16`.
pub open spec fn hex4(v: u16) -> Seq<char> {
    seq![
        hex_digits()[(v / 0x1000) as int],
        hex_digits()[((v / 0x100) % 0x10) as int],
        hex_digits()[((v / 0x10) % 0x10) as int],
        hex_digits()[(v % 0x10) as int],
    ]
}

/// The version-information path of the string `field` in the language `lang`
/// and code page `codepage`: `\StringFileInfo\<lang><codepage>\<field>`.
pub open spec fn string_file_info_path(lang: u16, codepage: u16, field: Seq<char>) -> Seq<char> {
    "\\StringFileInfo\\"@ + hex4(lang) + hex4(codepage) + seq!['\\'] + field
}

fn push_hex4(out: &mut Vec<char>, v: u16)
    ensures
        final(out)@ == old(out)@ + hex4(v),
{
    let digits: [char; 16] = [
        '0', '1', '2', '3', '4', '5', '6', '7', '8', '9', 'a', 'b', 'c', 'd', 'e', 'f',
    ];
    assert(digits@ =~= hex_digits());
    out.push(digits[(v / 0x1000) as usize]);
    out.push(digits[((v / 0x100) % 0x10) as usize]);
    out.push(digits[((v / 0x10) % 0x10) as usize]);
    out.push(digits[(v % 0x10) as usize]);
    assert(final(out)@ =~= old(out)@ + hex4(v));
}

/// The query that asks `VerQueryValueW` for the string `field` of the given
/// language and code page.
pub fn string_file_info_query(lang: u16, codepage: u16, field: &str) -> (query: String)
    ensures
        query@ == string_file_info_path(lang, codepage, field@),
{
    let mut out = chars_of("\\StringFileInfo\\");
    push_hex4(&mut out, lang);
    push_hex4(&mut out, codepage);
    out.push('\\');
    let field_chars = chars_of(field);
    let mut k: usize = 0;
    let ghost start = out@;
    while k < field_chars.len()
        invariant
            k <= field_chars@.len(),
            field_chars@ == field@,
            out@ == start + field@.take(k as int),
        decreases field_chars@.len() - k,
    {
        out.push(field_chars[k]);
        assert(field@.take(k + 1) =~= field@.take(k as int).push(field@[k as int]));
        k = k + 1;
    }
    assert(field@.take(k as int) =~= field@);
    assert(out@ =~= string_file_info_path(lang, codepage, field@));
    string_from_chars(&out)
}

/// The version strings that name a product, in the order in which they are tried.
pub open spec fn product_name_fields() -> Seq<Seq<char>> {
    seq!["ProductName"@, "FileDescription"@]
}

/// The version strings that name a product, in the order in which they are tried.
pub fn product_name_field_names() -> (fields: Vec<&'static str>)
    ensures
        fields@.map_values(|f: &str| f@) == product_name_fields(),
{
    let fields = vec!["ProductName", "FileDescription"];
    assert(fields@.map_values(|f: &str| f@) =~= product_name_fields());
    fields
}

/// The view of a looked-up UTF-16 value.
pub open spec fn opt_units(v: Option<Vec<u16>>) -> Option<Seq<u16>> {
    match v {
        Some(u) => Some(u@),
        None => None,
    }
}

/// The first of the looked-up values that, decoded and trimmed, is not empty.
pub open spec fn first_product_name(values: Seq<Option<Seq<u16>>>) -> Option<Seq<char>>
    decreases values.len(),
{
    if values.len() == 0 {
        None
    } else {
        match values[0] {
            Some(units) if trim(decode_utf16_lossy(units)).len() > 0 => Some(
                trim(decode_utf16_lossy(units)),
            ),
            _ => first_product_name(values.drop_first()),
        }
    }
}

/// The product name of an executable from its version strings, looked up in the
/// order of [`product_name_field_names`] (`None` where a lookup found nothing).
pub fn product_name(values: &Vec<Option<Vec<u16>>>) -> (name: Option<String>)
    ensures
        opt_text_of(name) == first_product_name(values@.map_values(|v: Option<Vec<u16>>| opt_units(v))),
{
    let ghost vs = values@.map_values(|v: Option<Vec<u16>>| opt_units(v));
    let mut i: usize = 0;
    assert(vs.skip(0) =~= vs);
    while i < values.len()
        invariant
            i <= values@.len(),
            vs == values@.map_values(|v: Option<Vec<u16>>| opt_units(v)),
            first_product_name(vs) == first_product_name(vs.skip(i as int)),
        decreases values@.len() - i,
    {
        assert(vs.skip(i as int)[0] == opt_units(values@[i as int]));
        assert(vs.skip(i as int).drop_first() =~= vs.skip(i + 1));
        match &values[i] {
            Some(units) => {
                let decoded = decode_utf16_chars(units.as_slice(), units.len());
                assert(units@.take(units@.len() as int) =~= units@);
                let trimmed = trim_chars(&decoded);
                if trimmed.len() > 0 {
                    return Some(string_from_chars(&trimmed));
                }
            },
            None => {},
        }
        i = i + 1;
    }
    None
}

/// The view of an optional owned text.
pub open spec fn opt_text_of(s: Option<String>) -> Option<Seq<char>> {
    match s {
        Some(t) => Some(t@),
        None => None,
    }
}

// ---------------------------------------------------------------------------
// Collecting the applications of visible windows
// ---------------------------------------------------------------------------

/// The application seen in a window, before any time is counted for it.
pub open spec fn seen_application(
    title: String,
    pid: u32,
    executable: String,
    file_name: String,
    product_name: Option<String>,
) -> Application {
    Application {
        title,
        name: file_name,
        display_name: match product_name {
            Some(p) => p,
            None => file_name,
        },
        executable,
        pid,
        usage: AppUsage { total_time: TimeSpan { secs: 0, nanos: 0 } },
    }
}

/// The collected applications after a window was seen: an application that counts
/// is filed under its executable unless that executable is filed already.
pub open spec fn after_window(
    before: Map<Seq<char>, Application>,
    title: String,
    pid: u32,
    executable: String,
    file_name: String,
    product_name: Option<String>,
    windows_directory: Option<Seq<char>>,
) -> Map<Seq<char>, Application> {
    if accepts(
        lowercase_of(trim(title@)),
        lowercase_of(file_name@),
        in_windows_directory(executable@, windows_directory),
    ) && !before.contains_key(executable@) {
        before.insert(executable@, seen_application(title, pid, executable, file_name, product_name))
    } else {
        before
    }
}

/// Files the application of a window with `title`, owned by process `pid` running
/// `executable`, given the file name taken from that path (empty when it has none)
/// and its product name if it has one.
pub fn collect_application_named(
    applications: &mut ApplicationMap,
    title: String,
    pid: u32,
    executable: String,
    file_name: String,
    product_name: Option<String>,
    windows_directory: Option<&str>,
)
    requires
        old(applications).wf(),
    ensures
        final(applications).wf(),
        final(applications)@ == after_window(
            old(applications)@,
            title,
            pid,
            executable,
            file_name,
            product_name,
            opt_text(windows_directory),
        ),
        old(applications).keyed_by_executable() ==> final(applications).keyed_by_executable(),
{
    let ghost g_title = title;
    let ghost g_exe = executable;
    let ghost g_name = file_name;
    let ghost g_product = product_name;
    let display_name = match product_name {
        Some(p) => p,
        None => file_name.clone(),
    };
    let application = Application {
        title,
        name: file_name,
        display_name,
        executable: executable.clone(),
        pid,
        usage: AppUsage { total_time: TimeSpan::zero() },
    };
    assert(application == seen_application(g_title, pid, g_exe, g_name, g_product));
    let valid = is_valid_with_executable_name(
        &application,
        application.name.as_str(),
        windows_directory,
    );
    if !valid {
        return;
    }
    let ghost g_app = application;
    applications.insert_if_absent(executable, application);
    proof {
        old(applications).lemma_view();
        if old(applications).keyed_by_executable() {
            assert forall|i: int| 0 <= i < applications.keys().len() implies #[trigger] applications.keys()[i]
                == applications.values()[i].executable@ by {
                if i < old(applications).keys().len() {
                    assert(old(applications).keys()[i] == old(applications).values()[i].executable@);
                } else {
                    assert(g_app.executable == g_exe);
                }
            }
        }
    }
}

/// Files the application of a window with `title`, owned by process `pid` running
/// `executable`, with its product name if it has one. The display name is the
/// product name, or else the executable's file name; the application is filed
/// under its executable if it counts and that executable is not filed already.
pub fn collect_application(
    applications: &mut ApplicationMap,
    title: String,
    pid: u32,
    executable: String,
    product_name: Option<String>,
    windows_directory: Option<&str>,
)
    requires
        old(applications).wf(),
    ensures
        final(applications).wf(),
        exists|file_name: String|
            is_possible_file_name(executable@, file_name@) && final(applications)@ == after_window(
                old(applications)@,
                title,
                pid,
                executable,
                file_name,
                product_name,
                opt_text(windows_directory),
            ),
        forall|n: Seq<char>|
            #[trigger] is_plain_final_component(executable@, n) ==> exists|file_name: String|
                file_name@ == n && final(applications)@ == after_window(
                    old(applications)@,
                    title,
                    pid,
                    executable,
                    file_name,
                    product_name,
                    opt_text(windows_directory),
                ),
        old(applications).keyed_by_executable() ==> final(applications).keyed_by_executable(),
{
    let file_name = extract_name_from_path(&executable);
    let ghost g_name = file_name;
    collect_application_named(
        applications,
        title,
        pid,
        executable,
        file_name,
        product_name,
        windows_directory,
    );
    assert(is_possible_file_name(executable@, g_name@));
}

/// The first window of an executable wins: collecting a window never replaces or
/// removes an application collected before, and adds at most the one it saw.
pub proof fn law_collect_keeps_collected(
    before: Map<Seq<char>, Application>,
    title: String,
    pid: u32,
    executable: String,
    file_name: String,
    product_name: Option<String>,
    windows_directory: Option<Seq<char>>,
)
    ensures
        ({
            let after = after_window(
                before,
                title,
                pid,
                executable,
                file_name,
                product_name,
                windows_directory,
            );
            &&& forall|k: Seq<char>| #[trigger] before.contains_key(k) ==> after.contains_key(k)
                && after[k] == before[k]
            &&& forall|k: Seq<char>|
                #[trigger] after.contains_key(k) && !before.contains_key(k) ==> k == executable@
                    && after[k] == seen_application(title, pid, executable, file_name, product_name)
        }),
{
}

/// A product name is never blank and never begins or ends with whitespace.
pub proof fn law_product_name_trimmed(values: Seq<Option<Seq<u16>>>)
    ensures
        first_product_name(values) matches Some(n) ==> n.len() > 0 && !is_white_space(n[0])
            && !is_white_space(n.last()),
    decreases values.len(),
{
    if values.len() > 0 {
        match values[0] {
            Some(units) => {
                law_trim_edges(decode_utf16_lossy(units));
            },
            None => {},
        }
        law_product_name_trimmed(values.drop_first());
    }
}

// ---------------------------------------------------------------------------
// Laws of the window rule
// ---------------------------------------------------------------------------

/// A window counts as an application exactly when its lowercased trimmed title and
/// its lowercased executable name are both non-empty; the title is none of the
/// shell and overlay titles and holds none of the helper-window markers; the name
/// is none of the crash-reporter and updater executables; and, when the executable
/// lies under the Windows directory, the name is none of the Windows components.
pub proof fn law_accepts_exactly(title: Seq<char>, name: Seq<char>, system_path: bool)
    ensures
        accepts(title, name, system_path) <==> {
            &&& title.len() > 0
            &&& name.len() > 0
            &&& title != "program manager"@
            &&& title != "windows input experience"@
            &&& title != "nvidia geforce overlay"@
            &&& title != "powertoys quick access (preview)"@
            &&& title != "settings"@
            &&& !contains_text(title, "gracefulshutdownwindow"@)
            &&& !contains_text(title, "uiaccesshelperwindow"@)
            &&& !contains_text(title, "crashpad"@)
            &&& name != "crashpad_handler.exe"@
            &&& name != "squirrel.exe"@
            &&& name != "update.exe"@
            &&& system_path ==> {
                &&& name != "lockapp.exe"@
                &&& name != "searchhost.exe"@
                &&& name != "shellexperiencehost.exe"@
                &&& name != "startmenuexperiencehost.exe"@
                &&& name != "systemsettings.exe"@
                &&& name != "textinputhost.exe"@
            }
        },
{
    let bt = blocked_titles();
    let hm = helper_title_markers();
    let he = helper_executables();
    let wc = windows_system_components();
    assert(!listed(name, allowed_executables()));
    assert(!listed(name, blocked_executables()));
    assert(listed(title, bt) <==> (title == bt[0] || title == bt[1] || title == bt[2] || title
        == bt[3] || title == bt[4])) by {
        if listed(title, bt) {
            let i = choose|i: int| 0 <= i < bt.len() && bt[i] == title;
            assert(i == 0 || i == 1 || i == 2 || i == 3 || i == 4);
        }
        if title == bt[0] || title == bt[1] || title == bt[2] || title == bt[3] || title == bt[4] {
            if title == bt[0] {
                assert(bt[0] == title);
            } else if title == bt[1] {
                assert(bt[1] == title);
            } else if title == bt[2] {
                assert(bt[2] == title);
            } else if title == bt[3] {
                assert(bt[3] == title);
            } else {
                assert(bt[4] == title);
            }
        }
    }
    assert(holds_any(title, hm) <==> (contains_text(title, hm[0]) || contains_text(title, hm[1])
        || contains_text(title, hm[2]))) by {
        if holds_any(title, hm) {
            let i = choose|i: int| 0 <= i < hm.len() && contains_text(title, hm[i]);
            assert(i == 0 || i == 1 || i == 2);
        }
        if contains_text(title, hm[0]) {
            assert(0 < hm.len());
        }
        if contains_text(title, hm[1]) {
            assert(1 < hm.len());
        }
        if contains_text(title, hm[2]) {
            assert(2 < hm.len());
        }
    }
    assert(listed(name, he) <==> (name == he[0] || name == he[1] || name == he[2])) by {
        if listed(name, he) {
            let i = choose|i: int| 0 <= i < he.len() && he[i] == name;
            assert(i == 0 || i == 1 || i == 2);
        }
        if name == he[0] {
            assert(he[0] == name);
        } else if name == he[1] {
            assert(he[1] == name);
        } else if name == he[2] {
            assert(he[2] == name);
        }
    }
    assert(listed(name, wc) <==> (name == wc[0] || name == wc[1] || name == wc[2] || name == wc[3]
        || name == wc[4] || name == wc[5])) by {
        if listed(name, wc) {
            let i = choose|i: int| 0 <= i < wc.len() && wc[i] == name;
            assert(i == 0 || i == 1 || i == 2 || i == 3 || i == 4 || i == 5);
        }
        if name == wc[0] {
            assert(wc[0] == name);
        } else if name == wc[1] {
            assert(wc[1] == name);
        } else if name == wc[2] {
            assert(wc[2] == name);
        } else if name == wc[3] {
            assert(wc[3] == name);
        } else if name == wc[4] {
            assert(wc[4] == name);
        } else if name == wc[5] {
            assert(wc[5] == name);
        }
    }
}

/// The Windows components are never applications when they run from the Windows
/// directory, whatever the window's title.
pub proof fn law_windows_components_rejected(title: Seq<char>, name: Seq<char>)
    requires
        name == "lockapp.exe"@ || name == "searchhost.exe"@ || name == "shellexperiencehost.exe"@
            || name == "startmenuexperiencehost.exe"@ || name == "systemsettings.exe"@ || name
            == "textinputhost.exe"@,
    ensures
        !accepts(title, name, true),
{
    law_accepts_exactly(title, name, true);
}

/// Collecting a window changes the collection only by filing the window's own
/// application under its executable, and only when the window counts under the
/// Windows directory passed in and its executable was not filed yet; a window that
/// counts and whose executable is new is always filed.
pub proof fn law_collect_only_accepted(
    before: Map<Seq<char>, Application>,
    title: String,
    pid: u32,
    executable: String,
    file_name: String,
    product_name: Option<String>,
    windows_directory: Option<Seq<char>>,
)
    ensures
        ({
            let after = after_window(
                before,
                title,
                pid,
                executable,
                file_name,
                product_name,
                windows_directory,
            );
            let counts = accepts(
                lowercase_of(trim(title@)),
                lowercase_of(file_name@),
                in_windows_directory(executable@, windows_directory),
            );
            &&& after != before ==> counts && !before.contains_key(executable@)
            &&& after != before ==> after == before.insert(
                executable@,
                seen_application(title, pid, executable, file_name, product_name),
            )
            &&& counts && !before.contains_key(executable@) ==> after.contains_key(executable@)
                && after[executable@].executable == executable && after[executable@].usage.total_time
                == TimeSpan::zero_span()
        }),
{
}

/// A Windows component running from the Windows directory that is passed in is
/// never collected.
pub proof fn law_collect_skips_windows_components(
    before: Map<Seq<char>, Application>,
    title: String,
    pid: u32,
    executable: String,
    file_name: String,
    product_name: Option<String>,
    windows_directory: Option<Seq<char>>,
)
    requires
        in_windows_directory(executable@, windows_directory),
        ({
            let name = lowercase_of(file_name@);
            name == "lockapp.exe"@ || name == "searchhost.exe"@ || name
                == "shellexperiencehost.exe"@ || name == "startmenuexperiencehost.exe"@ || name
                == "systemsettings.exe"@ || name == "textinputhost.exe"@
        }),
    ensures
        after_window(before, title, pid, executable, file_name, product_name, windows_directory)
            == before,
{
    law_windows_components_rejected(lowercase_of(trim(title@)), lowercase_of(file_name@));
}

} // verus!
