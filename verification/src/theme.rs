//! The shell's theme: reads the `ui-theme` section of `settings.yaml` and works out
//! the few colour tokens the splash page and the window background need, from the
//! seed colours of each theme family.
use crate::text::{hex_fixed, push_char, push_hex_fixed, str_eq};
use vstd::prelude::*;
use vstd::utf8::encode_utf8;

verus! {

pub const DEFAULT_FAMILY_ID: &'static str = "deepseek";

/// Share of the background mixed into the foreground for muted text, in hundredths.
pub const MUTED_MIX: u8 = 42;

/// Share of the foreground mixed into the background for input fields, in hundredths.
pub const FIELD_MIX: u8 = 6;

/// Share of black mixed into a light background for button text, in hundredths.
pub const LIGHT_BUTTON_MIX: u8 = 8;

/// The three seed colours of one side (light or dark) of a theme family.
#[derive(Clone, Copy)]
pub struct Seeds {
    pub accent: &'static str,
    pub background: &'static str,
    pub foreground: &'static str,
}

/// A theme family: its id and its light and dark seeds.
#[derive(Clone, Copy)]
pub struct Family {
    pub id: &'static str,
    pub light: Seeds,
    pub dark: Seeds,
}

pub struct SeedsView {
    pub accent: Seq<char>,
    pub background: Seq<char>,
    pub foreground: Seq<char>,
}

impl View for Seeds {
    type V = SeedsView;

    open spec fn view(&self) -> SeedsView {
        SeedsView { accent: self.accent@, background: self.background@, foreground: self.foreground@ }
    }
}

pub open spec fn sv(accent: Seq<char>, background: Seq<char>, foreground: Seq<char>) -> SeedsView {
    SeedsView { accent, background, foreground }
}

/// The seeds (light, dark) of the families the shell knows, by id.
pub open spec fn known_family(id: Seq<char>) -> Option<(SeedsView, SeedsView)> {
    if id == "deepseek"@ {
        Some((sv("#4176e6"@, "#ffffff"@, "#0f1115"@), sv("#6ea8ff"@, "#151517"@, "#f5f5f5"@)))
    } else if id == "midnight"@ {
        Some((sv("#3b6fd4"@, "#f3f6fb"@, "#1a1f2b"@), sv("#6ea8ff"@, "#0b0d12"@, "#e8eef9"@)))
    } else if id == "celadon"@ {
        Some((sv("#0f766e"@, "#f3faf7"@, "#10211c"@), sv("#3dd6b5"@, "#071411"@, "#e7f6f1"@)))
    } else if id == "violet"@ {
        Some((sv("#7c3aed"@, "#f7f3fc"@, "#1c1524"@), sv("#c4a1ff"@, "#120e18"@, "#f3eefc"@)))
    } else if id == "amber"@ {
        Some((sv("#b45309"@, "#fbf6ee"@, "#1c1915"@), sv("#e2b15c"@, "#14100b"@, "#f6efe4"@)))
    } else if id == "paper"@ {
        Some((sv("#0f766e"@, "#f3efe6"@, "#1c1915"@), sv("#5eead4"@, "#1a1712"@, "#f6efe4"@)))
    } else if id == "contrast"@ {
        Some((sv("#111111"@, "#ffffff"@, "#050505"@), sv("#ffffff"@, "#050505"@, "#f5f5f5"@)))
    } else {
        None
    }
}

/// The seeds of a family; an unknown id falls back to the default family.
pub open spec fn family_of(id: Seq<char>) -> (SeedsView, SeedsView) {
    match known_family(id) {
        Some(f) => f,
        None => (sv("#4176e6"@, "#ffffff"@, "#0f1115"@), sv("#6ea8ff"@, "#151517"@, "#f5f5f5"@)),
    }
}

fn seeds(accent: &'static str, background: &'static str, foreground: &'static str) -> (r: Seeds)
    ensures
        r.accent == accent,
        r.background == background,
        r.foreground == foreground,
{
    Seeds { accent, background, foreground }
}

/// The family with the given id, or the default family.
pub fn find_family(id: &str) -> (r: Family)
    ensures
        (r.light@, r.dark@) == family_of(id@),
{
    if str_eq(id, "deepseek") {
        Family { id: "deepseek", light: seeds("#4176e6", "#ffffff", "#0f1115"), dark: seeds("#6ea8ff", "#151517", "#f5f5f5") }
    } else if str_eq(id, "midnight") {
        Family { id: "midnight", light: seeds("#3b6fd4", "#f3f6fb", "#1a1f2b"), dark: seeds("#6ea8ff", "#0b0d12", "#e8eef9") }
    } else if str_eq(id, "celadon") {
        Family { id: "celadon", light: seeds("#0f766e", "#f3faf7", "#10211c"), dark: seeds("#3dd6b5", "#071411", "#e7f6f1") }
    } else if str_eq(id, "violet") {
        Family { id: "violet", light: seeds("#7c3aed", "#f7f3fc", "#1c1524"), dark: seeds("#c4a1ff", "#120e18", "#f3eefc") }
    } else if str_eq(id, "amber") {
        Family { id: "amber", light: seeds("#b45309", "#fbf6ee", "#1c1915"), dark: seeds("#e2b15c", "#14100b", "#f6efe4") }
    } else if str_eq(id, "paper") {
        Family { id: "paper", light: seeds("#0f766e", "#f3efe6", "#1c1915"), dark: seeds("#5eead4", "#1a1712", "#f6efe4") }
    } else if str_eq(id, "contrast") {
        Family { id: "contrast", light: seeds("#111111", "#ffffff", "#050505"), dark: seeds("#ffffff", "#050505", "#f5f5f5") }
    } else {
        Family { id: "deepseek", light: seeds("#4176e6", "#ffffff", "#0f1115"), dark: seeds("#6ea8ff", "#151517", "#f5f5f5") }
    }
}

/// The value of an ASCII hexadecimal digit byte.
pub open spec fn hex_val(c: u8) -> Option<nat> {
    if 48 <= c && c <= 57 {
        Some((c - 48) as nat)
    } else if 97 <= c && c <= 102 {
        Some((c - 87) as nat)
    } else if 65 <= c && c <= 70 {
        Some((c - 55) as nat)
    } else {
        None
    }
}

/// Two bytes read as a base-16 `u8` the way `u8::from_str_radix` reads them (an
/// optional `+` sign, then digits), or 0 when they are not such a number.
pub open spec fn radix_pair(b0: u8, b1: u8) -> nat {
    match (hex_val(b0), hex_val(b1)) {
        (Some(h), Some(l)) => 16 * h + l,
        (None, Some(l)) => if b0 == 43 {
            l
        } else {
            0
        },
        _ => 0,
    }
}

/// The bytes after the leading `#` characters.
pub open spec fn skip_hash(b: Seq<u8>) -> Seq<u8>
    decreases b.len(),
{
    if b.len() > 0 && b[0] == 35 {
        skip_hash(b.drop_first())
    } else {
        b
    }
}

/// The channel stored in bytes `k` and `k + 1`, or 0 past the end.
pub open spec fn channel_at(v: Seq<u8>, k: int) -> nat {
    if k + 2 <= v.len() {
        radix_pair(v[k], v[k + 1])
    } else {
        0
    }
}

/// The red, green and blue channels of a `#rrggbb` colour; a channel that cannot be
/// read is 0.
pub open spec fn hex_rgb(s: Seq<char>) -> (nat, nat, nat) {
    let v = skip_hash(encode_utf8(s));
    (channel_at(v, 0), channel_at(v, 2), channel_at(v, 4))
}

/// `#rrggbb` in lowercase.
pub open spec fn hex_color(r: nat, g: nat, b: nat) -> Seq<char> {
    seq!['#'] + hex_fixed(r, 2) + hex_fixed(g, 2) + hex_fixed(b, 2)
}

/// `a + (b - a) * p / 100`, rounded half away from zero (`p` at most 100).
pub open spec fn mix_channel(a: nat, b: nat, p: nat) -> nat {
    ((100 * a + (b - a) * p + 50) / 100) as nat
}

pub open spec fn clamp_percent(p: nat) -> nat {
    if p > 100 {
        100
    } else {
        p
    }
}

/// `left` moved towards `right` by `percent` hundredths (clamped to 0..=100).
pub open spec fn mix_spec(left: Seq<char>, right: Seq<char>, percent: nat) -> Seq<char> {
    let p = clamp_percent(percent);
    let l = hex_rgb(left);
    let r = hex_rgb(right);
    hex_color(mix_channel(l.0, r.0, p), mix_channel(l.1, r.1, p), mix_channel(l.2, r.2, p))
}

/// The value of an ASCII hexadecimal digit byte.
pub fn hex_digit_value(c: u8) -> (r: Option<u8>)
    ensures
        r matches Some(v) ==> hex_val(c) == Some(v as nat),
        r is None ==> hex_val(c) is None,
{
    if 48 <= c && c <= 57 {
        Some(c - 48)
    } else if 97 <= c && c <= 102 {
        Some(c - 87)
    } else if 65 <= c && c <= 70 {
        Some(c - 55)
    } else {
        None
    }
}

fn read_channel(bytes: &[u8], start: usize, k: usize) -> (r: u8)
    requires
        start <= bytes@.len(),
        k <= 4,
    ensures
        r as nat == channel_at(bytes@.skip(start as int), k as int),
{
    let ghost v = bytes@.skip(start as int);
    if bytes.len() - start < k + 2 {
        return 0;
    }
    let b0 = bytes[start + k];
    let b1 = bytes[start + k + 1];
    assert(v[k as int] == b0 && v[k + 1] == b1);
    match (hex_digit_value(b0), hex_digit_value(b1)) {
        (Some(h), Some(l)) => h * 16 + l,
        (None, Some(l)) => if b0 == 43 {
            l
        } else {
            0
        },
        _ => 0,
    }
}

/// The channels of a `#rrggbb` colour (leading `#`s skipped; an unreadable channel
/// is 0).
pub fn parse_hex(hex: &str) -> (r: (u8, u8, u8))
    ensures
        (r.0 as nat, r.1 as nat, r.2 as nat) == hex_rgb(hex@),
{
    let bytes = hex.as_bytes();
    let ghost b = bytes@;
    let mut i: usize = 0;
    assert(b.skip(0) =~= b);
    while i < bytes.len() && bytes[i] == 35
        invariant
            i <= b.len(),
            bytes@ == b,
            skip_hash(b) == skip_hash(b.skip(i as int)),
        decreases b.len() - i,
    {
        assert(b.skip(i as int).drop_first() =~= b.skip(i + 1));
        i = i + 1;
    }
    assert(skip_hash(b.skip(i as int)) == b.skip(i as int));
    assert(b == encode_utf8(hex@));
    (read_channel(bytes, i, 0), read_channel(bytes, i, 2), read_channel(bytes, i, 4))
}

/// `#rrggbb` for three channels.
pub fn to_hex(r: u8, g: u8, b: u8) -> (s: String)
    ensures
        s@ == hex_color(r as nat, g as nat, b as nat),
{
    let mut out = String::new();
    push_char(&mut out, '#');
    push_hex_fixed(&mut out, r as u64, 2);
    push_hex_fixed(&mut out, g as u64, 2);
    push_hex_fixed(&mut out, b as u64, 2);
    assert(out@ =~= hex_color(r as nat, g as nat, b as nat));
    out
}

fn mix_u8(a: u8, b: u8, p: u32) -> (r: u8)
    requires
        p <= 100,
    ensures
        r as nat == mix_channel(a as nat, b as nat, p as nat),
{
    let a32 = a as u32;
    let b32 = b as u32;
    if b32 >= a32 {
        let d = b32 - a32;
        assert(d * p <= d * 100) by (nonlinear_arith)
            requires
                p <= 100,
        ;
        let x = 100 * a32 + d * p + 50;
        assert(x / 100 <= b32) by (nonlinear_arith)
            requires
                x == 100 * a32 + d * p + 50,
                d * p <= d * 100,
                b32 == a32 + d,
        ;
        (x / 100) as u8
    } else {
        let d = a32 - b32;
        assert(d * p <= d * 100) by (nonlinear_arith)
            requires
                p <= 100,
        ;
        assert((b as int - a as int) * (p as int) == -((d * p) as int)) by (nonlinear_arith)
            requires
                d == a32 - b32,
                a32 == a,
                b32 == b,
        ;
        let x = 100 * a32 - d * p + 50;
        assert(x / 100 <= a32) by (nonlinear_arith)
            requires
                x <= 100 * a32 + 50,
        ;
        (x / 100) as u8
    }
}

/// `left` moved towards `right` by `percent` hundredths (clamped to 0..=100), as
/// `#rrggbb`.
pub fn mix_hex(left: &str, right: &str, percent: u8) -> (r: String)
    ensures
        r@ == mix_spec(left@, right@, percent as nat),
{
    let (lr, lg, lb) = parse_hex(left);
    let (rr, rg, rb) = parse_hex(right);
    let p: u32 = if percent > 100 {
        100
    } else {
        percent as u32
    };
    to_hex(mix_u8(lr, rr, p), mix_u8(lg, rg, p), mix_u8(lb, rb, p))
}

/// The light or dark mode a preference resolves to: `dark` and `light` are kept,
/// anything else follows the system.
pub open spec fn mode_for(preference: Seq<char>, system_dark: bool) -> Seq<char> {
    if preference == "dark"@ {
        "dark"@
    } else if preference == "light"@ {
        "light"@
    } else if system_dark {
        "dark"@
    } else {
        "light"@
    }
}

pub fn resolve_mode(preference: &str, system_dark: bool) -> (r: &'static str)
    ensures
        r@ == mode_for(preference@, system_dark),
{
    if str_eq(preference, "dark") {
        "dark"
    } else if str_eq(preference, "light") {
        "light"
    } else if system_dark {
        "dark"
    } else {
        "light"
    }
}

/// The `ui-theme` section of `settings.yaml` (camelCase keys; missing keys stay unset).
#[derive(Debug)]
pub struct UiThemeSection {
    pub preference: Option<String>,
    pub active_light_theme_id: Option<String>,
    pub active_dark_theme_id: Option<String>,
}

impl Default for UiThemeSection {
    fn default() -> (r: Self)
        ensures
            r.preference is None,
            r.active_light_theme_id is None,
            r.active_dark_theme_id is None,
    {
        UiThemeSection { preference: None, active_light_theme_id: None, active_dark_theme_id: None }
    }
}

/// The colour tokens of the splash page and the window background.
#[derive(Debug, Clone)]
pub struct UiThemeTokens {
    pub bg: String,
    pub fg: String,
    pub muted: String,
    pub accent: String,
    pub field: String,
    pub line: String,
    pub button_fg: String,
    pub scheme: String,
}

/// The resolved theme: its tokens, the stored preference and the mode in force.
#[derive(Debug, Clone)]
pub struct UiThemeSnapshot {
    pub tokens: UiThemeTokens,
    pub preference: String,
    pub mode: String,
}

pub struct TokensView {
    pub bg: Seq<char>,
    pub fg: Seq<char>,
    pub muted: Seq<char>,
    pub accent: Seq<char>,
    pub field: Seq<char>,
    pub line: Seq<char>,
    pub button_fg: Seq<char>,
    pub scheme: Seq<char>,
}

impl View for UiThemeTokens {
    type V = TokensView;

    open spec fn view(&self) -> TokensView {
        TokensView {
            bg: self.bg@,
            fg: self.fg@,
            muted: self.muted@,
            accent: self.accent@,
            field: self.field@,
            line: self.line@,
            button_fg: self.button_fg@,
            scheme: self.scheme@,
        }
    }
}

pub open spec fn text_or(v: Option<Seq<char>>, default: Seq<char>) -> Seq<char> {
    match v {
        Some(t) => t,
        None => default,
    }
}

/// The tokens for a mode: the family chosen for that side (the default family when
/// none is chosen), its seeds, and the colours mixed from them.
pub open spec fn tokens_spec(light_id: Option<Seq<char>>, dark_id: Option<Seq<char>>, mode: Seq<char>) -> TokensView {
    let dark = mode == "dark"@;
    let id = if dark {
        text_or(dark_id, DEFAULT_FAMILY_ID@)
    } else {
        text_or(light_id, DEFAULT_FAMILY_ID@)
    };
    let seeds = if dark {
        family_of(id).1
    } else {
        family_of(id).0
    };
    let bg = seeds.background;
    let fg = seeds.foreground;
    TokensView {
        bg,
        fg,
        muted: mix_spec(fg, bg, MUTED_MIX as nat),
        accent: seeds.accent,
        field: mix_spec(bg, fg, FIELD_MIX as nat),
        line: if dark {
            "rgba(245, 245, 245, 0.10)"@
        } else {
            "rgba(15, 17, 21, 0.12)"@
        },
        button_fg: if dark {
            mix_spec(bg, "#000000"@, 0)
        } else {
            mix_spec(bg, "#000000"@, LIGHT_BUTTON_MIX as nat)
        },
        scheme: if dark {
            "dark"@
        } else {
            "light"@
        },
    }
}

fn chosen_id(id: &Option<String>) -> (r: &str)
    ensures
        r@ == text_or(id.deep_view(), DEFAULT_FAMILY_ID@),
{
    match id {
        Some(s) => s.as_str(),
        None => DEFAULT_FAMILY_ID,
    }
}

/// The tokens of a section for a resolved mode; whether the system is dark does not
/// change them once the mode is resolved.
pub fn tokens_for(section: &UiThemeSection, mode: &str, _system_dark: bool) -> (r: UiThemeTokens)
    ensures
        r@ == tokens_spec(
            section.active_light_theme_id.deep_view(),
            section.active_dark_theme_id.deep_view(),
            mode@,
        ),
{
    let dark = str_eq(mode, "dark");
    let family_id = if dark {
        chosen_id(&section.active_dark_theme_id)
    } else {
        chosen_id(&section.active_light_theme_id)
    };
    let family = find_family(family_id);
    let seeds = if dark {
        family.dark
    } else {
        family.light
    };
    let bg = seeds.background;
    let fg = seeds.foreground;
    let muted = mix_hex(fg, bg, MUTED_MIX);
    let field = mix_hex(bg, fg, FIELD_MIX);
    let line = if dark {
        "rgba(245, 245, 245, 0.10)"
    } else {
        "rgba(15, 17, 21, 0.12)"
    };
    let button_fg = if dark {
        mix_hex(bg, "#000000", 0)
    } else {
        mix_hex(bg, "#000000", LIGHT_BUTTON_MIX)
    };
    let scheme = if dark {
        "dark"
    } else {
        "light"
    };
    UiThemeTokens {
        bg: String::from_str(bg),
        fg: String::from_str(fg),
        muted,
        accent: String::from_str(seeds.accent),
        field,
        line: String::from_str(line),
        button_fg,
        scheme: String::from_str(scheme),
    }
}

/// The snapshot of a section: the preference (`system` when unset), the mode it
/// resolves to, and that mode's tokens.
pub fn resolve_ui_theme(section: &UiThemeSection, system_dark: bool) -> (r: UiThemeSnapshot)
    ensures
        r.preference@ == text_or(section.preference.deep_view(), "system"@),
        r.mode@ == mode_for(text_or(section.preference.deep_view(), "system"@), system_dark),
        r.tokens@ == tokens_spec(
            section.active_light_theme_id.deep_view(),
            section.active_dark_theme_id.deep_view(),
            r.mode@,
        ),
{
    let preference: &str = match &section.preference {
        Some(p) => p.as_str(),
        None => "system",
    };
    let mode = resolve_mode(preference, system_dark);
    UiThemeSnapshot {
        tokens: tokens_for(section, mode, system_dark),
        preference: String::from_str(preference),
        mode: String::from_str(mode),
    }
}

/// Mixing by nothing gives the left colour back, and mixing all the way gives the
/// right colour (each as `#rrggbb` of its readable channels).
pub proof fn law_mix_endpoints(left: Seq<char>, right: Seq<char>)
    ensures
        mix_spec(left, right, 0) == hex_color(hex_rgb(left).0, hex_rgb(left).1, hex_rgb(left).2),
        mix_spec(left, right, 100) == hex_color(hex_rgb(right).0, hex_rgb(right).1, hex_rgb(right).2),
{
    let l = hex_rgb(left);
    let r = hex_rgb(right);
    assert(mix_channel(l.0, r.0, 0) == l.0);
    assert(mix_channel(l.1, r.1, 0) == l.1);
    assert(mix_channel(l.2, r.2, 0) == l.2);
    assert(mix_channel(l.0, r.0, 100) == r.0);
    assert(mix_channel(l.1, r.1, 100) == r.1);
    assert(mix_channel(l.2, r.2, 100) == r.2);
}

/// An explicit `dark` or `light` preference wins over the system setting.
pub proof fn law_explicit_preference_wins(system_dark: bool)
    ensures
        mode_for("dark"@, system_dark) == "dark"@,
        mode_for("light"@, system_dark) == "light"@,
{
    reveal_strlit("dark");
    reveal_strlit("light");
}

/// What tells two theme snapshots apart for the page and the window background:
/// `preference:mode:background`.
pub fn theme_key(snapshot: &UiThemeSnapshot) -> (r: String)
    ensures
        r@ == snapshot.preference@ + ":"@ + snapshot.mode@ + ":"@ + snapshot.tokens.bg@,
{
    let mut key = snapshot.preference.clone();
    key.append(":");
    key.append(snapshot.mode.as_str());
    key.append(":");
    key.append(snapshot.tokens.bg.as_str());
    key
}

} // verus!
