use vstd::prelude::*;
use vstd::string::*;
use crate::text::{opt_view, clone_opt};
use crate::icons::{ImageKind, data_url, data_url_of};
use crate::text::{chars_of, digit_char, digit_text};
use crate::textparse::{
    trimmed, trim_range, split_on, split_chars, starts_with, has_prefix, next_index_of, find_from,
};
use crate::types::strings_view;

verus! {

/// The desktop's window decoration settings.
#[derive(Debug)]
pub struct KdeTheme {
    pub decoration_theme: String,
    pub colors: ThemeColors,
    pub button_icons: ButtonIcons,
    pub titlebar_height: u32,
}

/// The colours of the window title bar.
#[derive(Debug)]
pub struct ThemeColors {
    pub titlebar_bg: String,
}

/// The title bar buttons' icons, as data URLs.
#[derive(Debug)]
pub struct ButtonIcons {
    pub close: Option<String>,
    pub maximize: Option<String>,
    pub minimize: Option<String>,
    pub restore: Option<String>,
}

/// The title bar height in pixels.
pub const TITLEBAR_HEIGHT: u32 = 30;

/// Where decoration themes keep their button icons.
pub open spec fn theme_dir_spec(theme: Seq<char>) -> Seq<char> {
    "/usr/share/kwin/decorations/"@ + theme
}

/// The directory of a decoration theme.
pub fn theme_dir(theme: &str) -> (r: String)
    ensures
        r@ == theme_dir_spec(theme@),
{
    let mut r = String::from_str("/usr/share/kwin/decorations/");
    r.append(theme);
    r
}

/// The files a decoration theme may hold for the button `name`, in the order
/// they are tried: sizes 22 then 24, each as SVG then PNG.
pub open spec fn theme_icon_paths(dir: Seq<char>, name: Seq<char>) -> Seq<Seq<char>> {
    seq![
        dir + "/"@ + name + "22.svg"@,
        dir + "/"@ + name + "22.png"@,
        dir + "/"@ + name + "24.svg"@,
        dir + "/"@ + name + "24.png"@,
    ]
}

fn join3(a: &str, b: &str, c: &str, d: &str) -> (r: String)
    ensures
        r@ == a@ + b@ + c@ + d@,
{
    let mut r = String::from_str(a);
    r.append(b);
    r.append(c);
    r.append(d);
    r
}

/// The candidate files of a theme button icon, in the order they are tried.
pub fn theme_icon_candidates(dir: &str, name: &str) -> (r: Vec<String>)
    ensures
        crate::types::strings_view(r@) == theme_icon_paths(dir@, name@),
{
    let r = vec![
        join3(dir, "/", name, "22.svg"),
        join3(dir, "/", name, "22.png"),
        join3(dir, "/", name, "24.svg"),
        join3(dir, "/", name, "24.png"),
    ];
    assert(crate::types::strings_view(r@) =~= theme_icon_paths(dir@, name@));
    r
}

/// The icon themes, sizes and formats that a system icon is looked up in,
/// in the order they are tried.
pub open spec fn system_themes() -> Seq<Seq<char>> {
    seq!["breeze"@, "breeze-dark"@, "Adwaita"@]
}

pub open spec fn system_sizes() -> Seq<Seq<char>> {
    seq!["22"@, "16"@, "24"@]
}

pub open spec fn system_exts() -> Seq<Seq<char>> {
    seq!["svg"@, "png"@]
}

/// Candidate `k` of a system icon: themes outermost, then sizes, then
/// formats.
pub open spec fn system_icon_path(name: Seq<char>, k: int) -> Seq<char> {
    "/usr/share/icons/"@ + system_themes()[k / 6] + "/actions/"@ + system_sizes()[(k % 6) / 2] + "/"@
        + name + "."@ + system_exts()[k % 2]
}

/// The candidate files of a system icon, in the order they are tried.
pub fn system_icon_candidates(name: &str) -> (r: Vec<String>)
    ensures
        r@.len() == 18,
        forall|k: int| 0 <= k < 18 ==> (#[trigger] r@[k])@ == system_icon_path(name@, k),
{
    let themes = vec!["breeze", "breeze-dark", "Adwaita"];
    let sizes = vec!["22", "16", "24"];
    let exts = vec!["svg", "png"];
    assert(crate::json::keys_view(themes@) =~= system_themes());
    assert(crate::json::keys_view(sizes@) =~= system_sizes());
    assert(crate::json::keys_view(exts@) =~= system_exts());
    let mut r: Vec<String> = Vec::new();
    let mut k: usize = 0;
    while k < 18
        invariant
            k <= 18,
            r@.len() == k,
            crate::json::keys_view(themes@) == system_themes(),
            crate::json::keys_view(sizes@) == system_sizes(),
            crate::json::keys_view(exts@) == system_exts(),
            themes@.len() == 3,
            sizes@.len() == 3,
            exts@.len() == 2,
            forall|j: int| 0 <= j < k ==> (#[trigger] r@[j])@ == system_icon_path(name@, j),
        decreases 18 - k,
    {
        let mut p = String::from_str("/usr/share/icons/");
        p.append(themes[k / 6]);
        p.append("/actions/");
        p.append(sizes[(k % 6) / 2]);
        p.append("/");
        p.append(name);
        p.append(".");
        p.append(exts[k % 2]);
        assert(p@ == system_icon_path(name@, k as int)) by {
            let ki = k as int;
            assert(themes@[ki / 6]@ == system_themes()[ki / 6]);
            assert(sizes@[(ki % 6) / 2]@ == system_sizes()[(ki % 6) / 2]);
            assert(exts@[ki % 2]@ == system_exts()[ki % 2]);
        }
        r.push(p);
        k = k + 1;
    }
    r
}

/// The system icon names that stand in for the title bar buttons.
pub open spec fn system_button_names() -> Seq<Seq<char>> {
    seq!["window-close"@, "window-maximize"@, "window-minimize"@, "window-restore"@]
}

/// The data URL of an icon file: SVG where its extension is `svg`, PNG
/// otherwise.
pub fn icon_file_data_url(is_svg: bool, content: &Vec<u8>) -> (r: String)
    ensures
        r@ == data_url(if is_svg { ImageKind::Svg } else { ImageKind::Png }, content@),
{
    let kind = if is_svg { ImageKind::Svg } else { ImageKind::Png };
    data_url_of(kind, content)
}

pub open spec fn or_else(a: Option<Seq<char>>, b: Option<Seq<char>>) -> Option<Seq<char>> {
    match a {
        Some(x) => Some(x),
        None => b,
    }
}

fn pick(a: &Option<String>, b: &Option<String>) -> (r: Option<String>)
    ensures
        opt_view(r) == or_else(opt_view(*a), opt_view(*b)),
{
    match a {
        Some(x) => Some(x.clone()),
        None => clone_opt(b),
    }
}

/// Each button's theme icon, or its system icon where the theme has none.
pub fn get_button_icons(theme: &ButtonIcons, system: &ButtonIcons) -> (r: ButtonIcons)
    ensures
        opt_view(r.close) == or_else(opt_view(theme.close), opt_view(system.close)),
        opt_view(r.maximize) == or_else(opt_view(theme.maximize), opt_view(system.maximize)),
        opt_view(r.minimize) == or_else(opt_view(theme.minimize), opt_view(system.minimize)),
        opt_view(r.restore) == or_else(opt_view(theme.restore), opt_view(system.restore)),
{
    ButtonIcons {
        close: pick(&theme.close, &system.close),
        maximize: pick(&theme.maximize, &system.maximize),
        minimize: pick(&theme.minimize, &system.minimize),
        restore: pick(&theme.restore, &system.restore),
    }
}

/// The decoration theme used where none is configured.
pub open spec fn default_theme() -> Seq<char> {
    "Breeze"@
}

/// The title bar colour used where none is configured.
pub open spec fn default_titlebar() -> Seq<char> {
    "#3daee9"@
}

pub open spec fn is_digit(c: char) -> bool {
    48 <= (c as u32) <= 57
}

pub open spec fn digit_value(c: char) -> nat {
    ((c as u32) - 48) as nat
}

/// The decimal value of the digits `d`, or 256 where it is larger.
pub open spec fn capped_value(d: Seq<char>) -> nat
    decreases d.len(),
{
    if d.len() == 0 {
        0
    } else {
        let v = capped_value(d.drop_last()) * 10 + digit_value(d.last());
        if v > 256 {
            256
        } else {
            v
        }
    }
}

/// The digits of an unsigned number: without one leading `+`.
pub open spec fn unsigned_digits(s: Seq<char>) -> Seq<char> {
    if s.len() > 0 && s[0] == '+' {
        s.drop_first()
    } else {
        s
    }
}

/// What `str::parse::<u8>` gives: an optional `+` and at least one decimal
/// digit, of value at most 255.
pub open spec fn parse_u8_spec(s: Seq<char>) -> Option<u8> {
    let d = unsigned_digits(s);
    if d.len() > 0 && (forall|i: int| 0 <= i < d.len() ==> is_digit(#[trigger] d[i])) && capped_value(d) <= 255 {
        Some(capped_value(d) as u8)
    } else {
        None
    }
}

/// Reads an unsigned byte in decimal.
pub fn parse_u8_chars(v: &Vec<char>) -> (r: Option<u8>)
    ensures
        r == parse_u8_spec(v@),
{
    let start: usize = if v.len() > 0 && v[0] == '+' { 1 } else { 0 };
    let ghost d = unsigned_digits(v@);
    assert(d =~= v@.subrange(start as int, v@.len() as int));
    if start == v.len() {
        return None;
    }
    let mut acc: u32 = 0;
    let mut i: usize = start;
    assert(d.take(0) =~= Seq::<char>::empty());
    while i < v.len()
        invariant
            start <= i <= v@.len(),
            d == v@.subrange(start as int, v@.len() as int),
            d == unsigned_digits(v@),
            acc == capped_value(d.take(i - start)),
            acc <= 256,
            forall|k: int| 0 <= k < i - start ==> is_digit(#[trigger] d[k]),
        decreases v@.len() - i,
    {
        let c = v[i];
        let k = c as u32;
        if k < 48 || k > 57 {
            assert(d[i - start] == c);
            assert(!is_digit(d[i - start]));
            assert(!(forall|j: int| 0 <= j < d.len() ==> is_digit(#[trigger] d[j])));
            assert(parse_u8_spec(v@) is None);
            return None;
        }
        assert(d.take(i + 1 - start).drop_last() =~= d.take(i - start));
        assert(d.take(i + 1 - start).last() == c);
        let next = acc * 10 + (k - 48);
        acc = if next > 256 { 256 } else { next };
        i = i + 1;
    }
    assert(d.take(v@.len() - start) =~= d);
    if acc <= 255 {
        Some(acc as u8)
    } else {
        None
    }
}

/// A lower-case hexadecimal digit.
pub open spec fn hex_digit(k: int) -> char {
    if k < 10 {
        digit_char(k)
    } else if k == 10 {
        'a'
    } else if k == 11 {
        'b'
    } else if k == 12 {
        'c'
    } else if k == 13 {
        'd'
    } else if k == 14 {
        'e'
    } else {
        'f'
    }
}

/// Two lower-case hexadecimal digits of a byte.
pub open spec fn hex2(n: u8) -> Seq<char> {
    seq![hex_digit(n as int / 16), hex_digit(n as int % 16)]
}

fn hex_digit_text(k: u8) -> (r: &'static str)
    requires
        k < 16,
    ensures
        r@ == seq![hex_digit(k as int)],
{
    if k < 10 {
        return digit_text(k as u64);
    }
    proof {
        reveal_strlit("a");
        reveal_strlit("b");
        reveal_strlit("c");
        reveal_strlit("d");
        reveal_strlit("e");
        reveal_strlit("f");
    }
    let r = if k == 10 { "a" } else if k == 11 { "b" } else if k == 12 { "c" } else if k == 13 { "d" } else if k
        == 14 { "e" } else { "f" };
    assert(r@ =~= seq![hex_digit(k as int)]);
    r
}

fn push_hex2(out: &mut String, n: u8)
    ensures
        final(out)@ == old(out)@ + hex2(n),
{
    out.append(hex_digit_text(n / 16));
    out.append(hex_digit_text(n % 16));
    assert(final(out)@ =~= old(out)@ + hex2(n));
}

/// A colour setting as `#rrggbb`: kept as it is (trimmed) where it starts
/// with `#`, converted where it is three comma-separated decimal bytes, and
/// the default title bar colour otherwise.
pub open spec fn color_spec(color: Seq<char>) -> Seq<char> {
    let t = trimmed(color);
    if t.len() > 0 && t[0] == '#' {
        t
    } else {
        let parts = split_on(t, ',');
        if parts.len() == 3 && parse_u8_spec(trimmed(parts[0])) is Some && parse_u8_spec(trimmed(parts[1])) is Some
            && parse_u8_spec(trimmed(parts[2])) is Some {
            "#"@ + hex2(parse_u8_spec(trimmed(parts[0]))->0) + hex2(parse_u8_spec(trimmed(parts[1]))->0) + hex2(
                parse_u8_spec(trimmed(parts[2]))->0,
            )
        } else {
            default_titlebar()
        }
    }
}

fn trimmed_part_u8(part: &Vec<char>) -> (r: Option<u8>)
    ensures
        r == parse_u8_spec(trimmed(part@)),
{
    let (a, b) = trim_range(part, 0, part.len());
    assert(part@.subrange(0, part@.len() as int) =~= part@);
    let t = crate::textparse::slice_chars(part, a, b);
    parse_u8_chars(&t)
}

/// Reads a colour setting; see `color_spec`.
pub fn parse_color(color: &str) -> (r: String)
    ensures
        r@ == color_spec(color@),
{
    let v = chars_of(color);
    let (a, b) = trim_range(&v, 0, v.len());
    assert(v@.subrange(0, v@.len() as int) =~= v@);
    let ghost t = trimmed(color@);
    if a < b && v[a] == '#' {
        return String::from_str(color.substring_char(a, b));
    }
    proof {
        if a < b {
            assert(t[0] == v@[a as int]);
        }
    }
    let t_chars = crate::textparse::slice_chars(&v, a, b);
    let parts = split_chars(&t_chars, ',');
    if parts.len() == 3 {
        let r = trimmed_part_u8(&parts[0]);
        let g = trimmed_part_u8(&parts[1]);
        let bl = trimmed_part_u8(&parts[2]);
        match (r, g, bl) {
            (Some(r), Some(g), Some(bl)) => {
                let mut out = String::from_str("#");
                push_hex2(&mut out, r);
                push_hex2(&mut out, g);
                push_hex2(&mut out, bl);
                return out;
            },
            _ => {},
        }
    }
    String::from_str("#3daee9")
}

/// The decoration theme named in the lines of `kwinrc`: the value of the
/// first `theme=` line inside the `[org.kde.kdecoration2]` section, up to
/// any further `=`, trimmed.
pub open spec fn scan_theme(lines: Seq<Seq<char>>, in_section: bool) -> Option<Seq<char>>
    decreases lines.len(),
{
    if lines.len() == 0 {
        None
    } else {
        let l = lines[0];
        if starts_with(l, "[org.kde.kdecoration2]"@) {
            scan_theme(lines.drop_first(), true)
        } else if starts_with(l, "["@) {
            scan_theme(lines.drop_first(), false)
        } else if in_section && starts_with(l, "theme="@) {
            Some(trimmed(l.subrange(6, next_index_of(l, '=', 6))))
        } else {
            scan_theme(lines.drop_first(), in_section)
        }
    }
}

/// The configured decoration theme, from the lines of `kwinrc` where that
/// file exists; the default theme otherwise.
pub open spec fn decoration_theme_spec(lines: Option<Seq<Seq<char>>>) -> Seq<char> {
    match lines {
        Some(ls) => match scan_theme(ls, false) {
            Some(t) => t,
            None => default_theme(),
        },
        None => default_theme(),
    }
}

/// Reads the decoration theme from the lines of `kwinrc`, `None` where the
/// file does not exist.
pub fn decoration_theme_from(lines: Option<&Vec<String>>) -> (r: String)
    ensures
        r@ == decoration_theme_spec(match lines {
            Some(ls) => Some(strings_view(ls@)),
            None => None,
        }),
{
    let ls = match lines {
        Some(ls) => ls,
        None => return String::from_str("Breeze"),
    };
    let ghost lv = strings_view(ls@);
    let mut in_section = false;
    let mut i: usize = 0;
    assert(lv.skip(0) =~= lv);
    proof {
        reveal_strlit("theme=");
    }
    while i < ls.len()
        invariant
            lv == strings_view(ls@),
            lines == Some(ls),
            i <= ls@.len(),
            scan_theme(lv, false) == scan_theme(lv.skip(i as int), in_section),
            "theme="@.len() == 6,
        decreases ls@.len() - i,
    {
        let ghost rest = lv.skip(i as int);
        assert(rest[0] == ls@[i as int]@);
        assert(rest.drop_first() =~= lv.skip(i + 1));
        let line = chars_of(ls[i].as_str());
        if has_prefix(&line, "[org.kde.kdecoration2]") {
            in_section = true;
        } else if has_prefix(&line, "[") {
            in_section = false;
        } else if in_section && has_prefix(&line, "theme=") {
            let e = find_from(&line, '=', 6);
            let (a, b) = trim_range(&line, 6, e);
            let out = String::from_str(ls[i].as_str().substring_char(a, b));
            assert(line@ == rest[0]);
            assert(out@ == trimmed(rest[0].subrange(6, next_index_of(rest[0], '=', 6))));
            assert(scan_theme(rest, in_section) == Some(out@));
            return out;
        }
        i = i + 1;
    }
    String::from_str("Breeze")
}

/// The title bar colour named in the lines of `kdeglobals`: the first
/// `activeBackground=` line inside the `[WM]` section, its value up to any
/// further `=` read as a colour.
pub open spec fn scan_titlebar(lines: Seq<Seq<char>>, in_wm: bool) -> Option<Seq<char>>
    decreases lines.len(),
{
    if lines.len() == 0 {
        None
    } else {
        let l = lines[0];
        if starts_with(l, "[WM]"@) {
            scan_titlebar(lines.drop_first(), true)
        } else if starts_with(l, "["@) {
            scan_titlebar(lines.drop_first(), false)
        } else if in_wm && starts_with(l, "activeBackground="@) {
            Some(color_spec(l.subrange(17, next_index_of(l, '=', 17))))
        } else {
            scan_titlebar(lines.drop_first(), in_wm)
        }
    }
}

/// The configured title bar colour, from the lines of `kdeglobals` where
/// that file could be read; the default colour otherwise.
pub open spec fn titlebar_spec(lines: Option<Seq<Seq<char>>>) -> Seq<char> {
    match lines {
        Some(ls) => match scan_titlebar(ls, false) {
            Some(c) => c,
            None => default_titlebar(),
        },
        None => default_titlebar(),
    }
}

/// Reads the title bar colour from the lines of `kdeglobals`, `None` where
/// the file could not be read.
pub fn titlebar_color_from(lines: Option<&Vec<String>>) -> (r: ThemeColors)
    ensures
        r.titlebar_bg@ == titlebar_spec(match lines {
            Some(ls) => Some(strings_view(ls@)),
            None => None,
        }),
{
    let ls = match lines {
        Some(ls) => ls,
        None => return ThemeColors { titlebar_bg: String::from_str("#3daee9") },
    };
    let ghost lv = strings_view(ls@);
    let mut in_wm = false;
    let mut i: usize = 0;
    assert(lv.skip(0) =~= lv);
    proof {
        reveal_strlit("activeBackground=");
    }
    while i < ls.len()
        invariant
            lv == strings_view(ls@),
            lines == Some(ls),
            i <= ls@.len(),
            scan_titlebar(lv, false) == scan_titlebar(lv.skip(i as int), in_wm),
            "activeBackground="@.len() == 17,
        decreases ls@.len() - i,
    {
        let ghost rest = lv.skip(i as int);
        assert(rest[0] == ls@[i as int]@);
        assert(rest.drop_first() =~= lv.skip(i + 1));
        let line = chars_of(ls[i].as_str());
        if has_prefix(&line, "[WM]") {
            in_wm = true;
        } else if has_prefix(&line, "[") {
            in_wm = false;
        } else if in_wm && has_prefix(&line, "activeBackground=") {
            let e = find_from(&line, '=', 17);
            let value = String::from_str(ls[i].as_str().substring_char(17, e));
            assert(line@ == rest[0]);
            assert(value@ == rest[0].subrange(17, next_index_of(rest[0], '=', 17)));
            let out = parse_color(value.as_str());
            assert(scan_titlebar(rest, in_wm) == Some(out@));
            return ThemeColors { titlebar_bg: out };
        }
        i = i + 1;
    }
    ThemeColors { titlebar_bg: String::from_str("#3daee9") }
}

} // verus!
